//! How numbers stand in the memory of a task: lowest byte first.

use vstd::prelude::*;

verus! {

/// The `n` low bytes of `x`, lowest first.
pub open spec fn le_bytes(x: nat, n: nat) -> Seq<u8>
    decreases n,
{
    if n == 0 {
        Seq::empty()
    } else {
        seq![(x % 256) as u8] + le_bytes(x / 256, (n - 1) as nat)
    }
}

/// The four bytes of `code` in two's complement, lowest first.
pub open spec fn exit_code_bytes(code: i32) -> Seq<u8> {
    le_bytes(
        (if code >= 0 {
            code as int
        } else {
            code + 0x1_0000_0000
        }) as nat,
        4,
    )
}

/// The `n` low bytes of `x`, lowest first.
pub fn to_le_bytes(x: u64, n: usize) -> (bytes: Vec<u8>)
    ensures
        bytes@ == le_bytes(x as nat, n as nat),
{
    let mut bytes: Vec<u8> = Vec::new();
    let mut rest: u64 = x;
    let mut i: usize = 0;
    while i < n
        invariant
            0 <= i <= n,
            bytes@ + le_bytes(rest as nat, (n - i) as nat) == le_bytes(x as nat, n as nat),
        decreases n - i,
    {
        proof {
            let tail = le_bytes((rest / 256) as nat, (n - i - 1) as nat);
            assert(le_bytes(rest as nat, (n - i) as nat) == seq![(rest % 256) as u8] + tail);
            assert(bytes@.push((rest % 256) as u8) + tail =~= bytes@ + (seq![(rest % 256) as u8]
                + tail));
        }
        bytes.push((rest % 256) as u8);
        rest = rest / 256;
        i = i + 1;
    }
    assert(bytes@ + Seq::<u8>::empty() =~= bytes@);
    bytes
}

/// The four bytes of an exit code in two's complement, lowest first.
pub fn exit_code_to_bytes(code: i32) -> (bytes: Vec<u8>)
    ensures
        bytes@ == exit_code_bytes(code),
        bytes@.len() == 4,
{
    let x: u64 = if code >= 0 {
        code as u64
    } else {
        (code as i64 + 0x1_0000_0000) as u64
    };
    let bytes = to_le_bytes(x, 4);
    proof {
        lemma_le_bytes_len(x as nat, 4);
    }
    bytes
}

/// `le_bytes` gives as many bytes as it is asked for.
pub proof fn lemma_le_bytes_len(x: nat, n: nat)
    ensures
        le_bytes(x, n).len() == n,
    decreases n,
{
    if n > 0 {
        lemma_le_bytes_len(x / 256, (n - 1) as nat);
    }
}

} // verus!
