//! Reaching the memory of a task from the kernel: every address is looked
//! up in the task's address space, page by page.

use crate::config::{page_of, PAGE_SIZE};
use crate::mm::memory_set::{
    lemma_write_append, lemma_write_keeps_layout, lemma_write_nothing, MemorySet, MemoryView,
};
use vstd::prelude::*;

verus! {

/// The `len` bytes from `ptr` on, cut at every page boundary: each piece is
/// given by its first address and its length, lies within one page, and
/// starts where the piece before it ends.
pub open spec fn page_spans(ptr: int, len: int) -> Seq<(usize, usize)>
    decreases len,
{
    if len <= 0 {
        Seq::empty()
    } else {
        let room = PAGE_SIZE - ptr % (PAGE_SIZE as int);
        let n = if len < room {
            len
        } else {
            room
        };
        seq![(ptr as usize, n as usize)] + page_spans(ptr + n, len - n)
    }
}

/// Whether user code may reach each of the `len` bytes from `ptr` on: to
/// write to them where `write` is set, to read them where it is not.
pub open spec fn range_ok(m: MemoryView, ptr: int, len: int, write: bool) -> bool {
    if write {
        m.range_writable(ptr, len)
    } else {
        m.range_readable(ptr, len)
    }
}

/// Whether the bytes from `ptr` on are a string of `n` bytes other than
/// zero, ended by a zero byte, all of which user code may read.
pub open spec fn is_str_end(m: MemoryView, ptr: int, n: int) -> bool {
    &&& 0 <= n
    &&& m.range_readable(ptr, n + 1)
    &&& m.byte(ptr + n) == 0
    &&& forall|k: int| 0 <= k < n ==> #[trigger] m.byte(ptr + k) != 0
}

/// Whether a string that user code may read starts at `ptr`.
pub open spec fn has_str(m: MemoryView, ptr: int) -> bool {
    exists|n: int| is_str_end(m, ptr, n)
}

/// Length of the string at `ptr`, without the zero byte that ends it.
pub open spec fn str_len(m: MemoryView, ptr: int) -> int {
    choose|n: int| is_str_end(m, ptr, n)
}

/// The bytes of the string at `ptr`, without the zero byte that ends it.
pub open spec fn str_at(m: MemoryView, ptr: int) -> Seq<u8> {
    m.read(ptr, str_len(m, ptr) as nat)
}

/// A string has one length only.
pub proof fn lemma_str_len_unique(m: MemoryView, ptr: int, n: int)
    requires
        is_str_end(m, ptr, n),
    ensures
        has_str(m, ptr),
        str_len(m, ptr) == n,
{
    let c = str_len(m, ptr);
    assert(is_str_end(m, ptr, c));
    if c < n {
        assert(m.byte(ptr + c) != 0);
    } else if n < c {
        assert(m.byte(ptr + n) != 0);
    }
}

/// Looks up the `len` bytes from `ptr` on in the address space and returns
/// them as pieces that each lie within one page. Returns `None` where user
/// code may not reach one of the bytes.
pub fn translated_byte_buffer(ms: &MemorySet, ptr: usize, len: usize, write: bool) -> (spans:
    Option<Vec<(usize, usize)>>)
    ensures
        spans is Some <==> range_ok(ms@, ptr as int, len as int, write),
        spans is Some ==> spans->0@ == page_spans(ptr as int, len as int),
{
    let mut spans: Vec<(usize, usize)> = Vec::new();
    let mut done: usize = 0;
    while done < len
        invariant
            0 <= done <= len,
            spans@ + page_spans(ptr + done, len - done) == page_spans(ptr as int, len as int),
            range_ok(ms@, ptr as int, done as int, write),
        decreases len - done,
    {
        if ptr > usize::MAX - done {
            proof {
                let a = ptr + done;
                assert(!ms@.user_writable(a) && !ms@.user_readable(a));
            }
            return None;
        }
        let cur: usize = ptr + done;
        let vpn = cur / PAGE_SIZE;
        let ok = if write {
            ms.is_page_writable(vpn)
        } else {
            ms.is_page_readable(vpn)
        };
        if !ok {
            proof {
                assert(!ms@.user_writable(cur as int) || !write);
                assert(!ms@.user_readable(cur as int) || write);
            }
            return None;
        }
        let room: usize = PAGE_SIZE - cur % PAGE_SIZE;
        let n: usize = if len - done < room {
            len - done
        } else {
            room
        };
        proof {
            let rest = page_spans(cur + n, len - done - n);
            assert(page_spans(cur as int, len - done) == seq![(cur, n)] + rest);
            assert(spans@.push((cur, n)) + rest =~= spans@ + (seq![(cur, n)] + rest));
            assert forall|a: int| ptr <= a < ptr + done + n implies (if write {
                #[trigger] ms@.user_writable(a)
            } else {
                #[trigger] ms@.user_readable(a)
            }) by {
                if a < cur {
                    if write {
                        assert(ms@.user_writable(a));
                    } else {
                        assert(ms@.user_readable(a));
                    }
                } else {
                    assert(page_of(a) == vpn);
                }
            }
        }
        spans.push((cur, n));
        done = done + n;
    }
    assert(spans@ + Seq::<(usize, usize)>::empty() =~= spans@);
    Some(spans)
}

/// Whether user code may read each of the `len` bytes from `ptr` on.
pub fn is_range_readable(ms: &MemorySet, ptr: usize, len: usize) -> (ok: bool)
    ensures
        ok == ms@.range_readable(ptr as int, len as int),
{
    translated_byte_buffer(ms, ptr, len, false).is_some()
}

/// Whether user code may write to each of the `len` bytes from `ptr` on.
pub fn is_range_writable(ms: &MemorySet, ptr: usize, len: usize) -> (ok: bool)
    ensures
        ok == ms@.range_writable(ptr as int, len as int),
{
    translated_byte_buffer(ms, ptr, len, true).is_some()
}

/// Stores `bytes` in the memory of a task from `ptr` on, piece by piece as
/// the pages lie.
pub fn copy_to_user(ms: &mut MemorySet, ptr: usize, bytes: &Vec<u8>)
    requires
        old(ms).wf(),
        old(ms)@.range_writable(ptr as int, bytes@.len() as int),
    ensures
        final(ms)@ == old(ms)@.write(ptr as int, bytes@),
        final(ms).wf(),
{
    let len = bytes.len();
    let found = translated_byte_buffer(ms, ptr, len, true);
    let spans = match found {
        Some(spans) => spans,
        None => Vec::new(),
    };
    let mut done: usize = 0;
    let mut i: usize = 0;
    proof {
        lemma_write_nothing(ms@, ptr as int);
        assert(bytes@.take(0) =~= Seq::empty());
        assert(spans@.skip(0) =~= spans@);
    }
    while i < spans.len()
        invariant
            ms.wf(),
            old(ms).wf(),
            len == bytes@.len(),
            0 <= i <= spans@.len(),
            0 <= done <= len,
            old(ms)@.range_writable(ptr as int, len as int),
            ms@ == old(ms)@.write(ptr as int, bytes@.take(done as int)),
            spans@.skip(i as int) == page_spans(ptr + done, len - done),
        decreases spans@.len() - i,
    {
        let (start, n) = spans[i];
        proof {
            let rest = page_spans(ptr + done, len - done);
            assert(spans@.skip(i as int).len() == spans@.len() - i);
            assert(spans@.skip(i as int)[0] == spans@[i as int]);
            assert(len - done > 0);
            let room = PAGE_SIZE - (ptr + done) % (PAGE_SIZE as int);
            let m = if len - done < room {
                len - done
            } else {
                room
            };
            let tail = page_spans(ptr + done + m, len - done - m);
            assert(rest == seq![((ptr + done) as usize, m as usize)] + tail);
            assert(rest[0] == ((ptr + done) as usize, m as usize));
            assert(old(ms)@.user_writable(ptr + done));
            assert(start == ptr + done);
            assert(1 <= n <= len - done);
            assert(spans@.skip(i as int + 1) =~= spans@.skip(i as int).drop_first());
            assert(rest.drop_first() =~= tail);
        }
        let mut j: usize = 0;
        while j < n
            invariant
                ms.wf(),
                old(ms).wf(),
                len == bytes@.len(),
                0 <= j <= n,
                done + n <= len,
                start == ptr + done,
                old(ms)@.range_writable(ptr as int, len as int),
                ms@ == old(ms)@.write(ptr as int, bytes@.take(done + j)),
            decreases n - j,
        {
            proof {
                let a = ptr + done + j;
                assert(old(ms)@.user_writable(a));
                lemma_write_keeps_layout(old(ms)@, ptr as int, bytes@.take(done + j));
                assert(ms@.page_writable(page_of(a)) == old(ms)@.page_writable(page_of(a)));
                lemma_write_append(
                    old(ms)@,
                    ptr as int,
                    bytes@.take(done + j),
                    seq![bytes@[done + j]],
                );
                assert(bytes@.take(done + j) + seq![bytes@[done + j]] =~= bytes@.take(
                    done + j + 1,
                ));
            }
            let ok = ms.store_byte(start + j, bytes[done + j]);
            assert(ok);
            j = j + 1;
        }
        done = done + n;
        i = i + 1;
    }
    proof {
        assert(spans@.skip(spans@.len() as int).len() == 0);
        assert(done == len);
        assert(bytes@.take(len as int) =~= bytes@);
    }
}

/// Reads `len` bytes from the memory of a task, from `ptr` on.
pub fn copy_from_user(ms: &MemorySet, ptr: usize, len: usize) -> (bytes: Vec<u8>)
    requires
        ms.wf(),
        ms@.range_readable(ptr as int, len as int),
    ensures
        bytes@ == ms@.read(ptr as int, len as nat),
{
    let mut bytes: Vec<u8> = Vec::new();
    let mut i: usize = 0;
    while i < len
        invariant
            ms.wf(),
            ms@.range_readable(ptr as int, len as int),
            0 <= i <= len,
            bytes@ == ms@.read(ptr as int, i as nat),
        decreases len - i,
    {
        assert(ms@.user_readable(ptr + i));
        let byte = ms.load_byte(ptr + i);
        match byte {
            Some(b) => {
                bytes.push(b);
            },
            None => {},
        }
        assert(bytes@ =~= ms@.read(ptr as int, (i + 1) as nat));
        i = i + 1;
    }
    bytes
}

/// Whether a string that user code may read starts at `ptr`.
pub fn is_user_str(ms: &MemorySet, ptr: usize) -> (ok: bool)
    requires
        ms.wf(),
    ensures
        ok == has_str(ms@, ptr as int),
{
    let mut i: usize = 0;
    loop
        invariant
            ms.wf(),
            ptr + i <= usize::MAX,
            ms@.range_readable(ptr as int, i as int),
            forall|k: int| 0 <= k < i ==> #[trigger] ms@.byte(ptr + k) != 0,
        decreases usize::MAX - ptr - i,
    {
        let byte = ms.load_byte(ptr + i);
        match byte {
            None => {
                proof {
                    assert forall|n: int| !is_str_end(ms@, ptr as int, n) by {
                        if is_str_end(ms@, ptr as int, n) {
                            if n < i {
                                assert(ms@.byte(ptr + n) != 0);
                            } else {
                                assert(ms@.user_readable(ptr + i));
                            }
                        }
                    }
                }
                return false;
            },
            Some(b) => {
                if b == 0 {
                    proof {
                        assert forall|a: int| ptr <= a < ptr + i + 1 implies #[trigger]
                            ms@.user_readable(a) by {
                            if a < ptr + i {
                                assert(ms@.user_readable(a));
                            }
                        }
                        assert(is_str_end(ms@, ptr as int, i as int));
                    }
                    return true;
                }
                if ptr + i == usize::MAX {
                    proof {
                        assert forall|n: int| !is_str_end(ms@, ptr as int, n) by {
                            if is_str_end(ms@, ptr as int, n) {
                                if n <= i {
                                    assert(ms@.byte(ptr + n) != 0);
                                } else {
                                    assert(ms@.user_readable(ptr + i + 1));
                                }
                            }
                        }
                    }
                    return false;
                }
                proof {
                    assert forall|a: int| ptr <= a < ptr + i + 1 implies #[trigger]
                        ms@.user_readable(a) by {
                        if a < ptr + i {
                            assert(ms@.user_readable(a));
                        }
                    }
                }
                i = i + 1;
            },
        }
    }
}

/// Reads the string at `ptr` from the memory of a task, without the zero
/// byte that ends it.
pub fn translated_str(ms: &MemorySet, ptr: usize) -> (string: Vec<u8>)
    requires
        ms.wf(),
        has_str(ms@, ptr as int),
    ensures
        string@ == str_at(ms@, ptr as int),
{
    let ghost len = str_len(ms@, ptr as int);
    assert(is_str_end(ms@, ptr as int, len));
    assert(ms@.user_readable(ptr + len));
    let mut string: Vec<u8> = Vec::new();
    let mut i: usize = 0;
    loop
        invariant
            ms.wf(),
            is_str_end(ms@, ptr as int, len),
            len == str_len(ms@, ptr as int),
            ptr + len <= usize::MAX,
            0 <= i <= len,
            string@ == ms@.read(ptr as int, i as nat),
        decreases len - i,
    {
        assert(ms@.user_readable(ptr + i));
        let byte = ms.load_byte(ptr + i);
        match byte {
            Some(b) => {
                if b == 0 {
                    assert(i == len);
                    return string;
                }
                string.push(b);
                assert(string@ =~= ms@.read(ptr as int, (i + 1) as nat));
                i = i + 1;
            },
            None => {
                return string;
            },
        }
    }
}

} // verus!
