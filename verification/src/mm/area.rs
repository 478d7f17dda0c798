//! One region of an address space.

use crate::config::{PAGE_SIZE, TRAMPOLINE_PAGE};
use vstd::prelude::*;

verus! {

/// What may be done with the pages of a region.
#[derive(Clone, Copy, Debug, PartialEq, Eq, Structural)]
pub struct MapPermission {
    pub read: bool,
    pub write: bool,
    pub execute: bool,
    pub user: bool,
}

impl MapPermission {
    /// The permission that a task asks for with the bits of `port`: bit 0
    /// to read, bit 1 to write, bit 2 to execute. The region is the task's
    /// own, so user code may reach it.
    pub open spec fn of_port(port: usize) -> MapPermission {
        MapPermission {
            read: port & 0x1 != 0,
            write: port & 0x2 != 0,
            execute: port & 0x4 != 0,
            user: true,
        }
    }

    /// Whether `port` names at least one kind of access and no bit beyond
    /// the three that have a meaning.
    pub open spec fn port_valid(port: usize) -> bool {
        port & !0x7usize == 0 && port & 0x7 != 0
    }

    /// Computes `port_valid`.
    pub fn is_port_valid(port: usize) -> (valid: bool)
        ensures
            valid == Self::port_valid(port),
    {
        !(port & !0x7 != 0 || port & 0x7 == 0)
    }

    /// Computes `of_port`.
    pub fn from_port(port: usize) -> (perm: MapPermission)
        ensures
            perm == Self::of_port(port),
    {
        MapPermission {
            read: port & 0x1 != 0,
            write: port & 0x2 != 0,
            execute: port & 0x4 != 0,
            user: true,
        }
    }

    /// Read and write for user code.
    pub fn user_data() -> (perm: MapPermission)
        ensures
            perm == (MapPermission { read: true, write: true, execute: false, user: true }),
    {
        MapPermission { read: true, write: true, execute: false, user: true }
    }

    /// Read, write and execute for user code.
    pub fn user_program() -> (perm: MapPermission)
        ensures
            perm == (MapPermission { read: true, write: true, execute: true, user: true }),
    {
        MapPermission { read: true, write: true, execute: true, user: true }
    }

    /// Read and write for the kernel alone.
    pub fn kernel_data() -> (perm: MapPermission)
        ensures
            perm == (MapPermission { read: true, write: true, execute: false, user: false }),
    {
        MapPermission { read: true, write: true, execute: false, user: false }
    }

    /// Read and execute for the kernel alone.
    pub fn kernel_text() -> (perm: MapPermission)
        ensures
            perm == (MapPermission { read: true, write: false, execute: true, user: false }),
    {
        MapPermission { read: true, write: false, execute: true, user: false }
    }
}

/// What a region is for.
#[derive(Clone, Copy, Debug, PartialEq, Eq, Structural)]
pub enum AreaKind {
    /// Code and data of the loaded program.
    Program,
    /// The user stack.
    Stack,
    /// The heap, which `sbrk` grows and shrinks.
    Heap,
    /// The page of the saved trap context.
    TrapContext,
    /// The trampoline page, the same in every address space.
    Trampoline,
    /// A region that the task mapped for itself.
    Mapped,
}

/// The bytes of `n` pages that nothing was written to.
pub open spec fn zeros(n: nat) -> Seq<u8> {
    Seq::new(n, |i: int| 0u8)
}

/// A region as a value: the pages `start_vpn .. end_vpn`, what may be done
/// with them, what they are for, and the bytes they hold.
pub struct AreaView {
    pub start_vpn: usize,
    pub end_vpn: usize,
    pub perm: MapPermission,
    pub kind: AreaKind,
    pub data: Seq<u8>,
}

impl AreaView {
    /// The region ends where it starts or later, inside the address space,
    /// and holds one byte for each address in it.
    pub open spec fn wf(self) -> bool {
        &&& self.start_vpn <= self.end_vpn <= TRAMPOLINE_PAGE + 1
        &&& self.data.len() == (self.end_vpn - self.start_vpn) * PAGE_SIZE
        &&& self.data.len() <= usize::MAX
    }

    /// Address of the first byte of the region.
    pub open spec fn base(self) -> int {
        self.start_vpn * PAGE_SIZE
    }

    /// Whether page `vpn` belongs to the region.
    pub open spec fn contains_page(self, vpn: int) -> bool {
        self.start_vpn <= vpn < self.end_vpn
    }

    /// Whether the region and the pages `start .. end` have a page in common.
    pub open spec fn overlaps(self, start: int, end: int) -> bool {
        self.start_vpn < end && start < self.end_vpn && self.start_vpn < self.end_vpn && start
            < end
    }

    /// Whether the region is one that a task mapped for itself over exactly
    /// the pages `start .. end`.
    pub open spec fn is_mapping_of(self, start: int, end: int) -> bool {
        self.kind == AreaKind::Mapped && self.start_vpn == start && self.end_vpn == end
    }

    /// The region after `bytes` were stored from address `ptr` on: the bytes
    /// whose address lies in the region replace what was there.
    pub open spec fn overlay(self, ptr: int, bytes: Seq<u8>) -> AreaView {
        AreaView {
            data: Seq::new(
                self.data.len(),
                |k: int|
                    if ptr <= self.base() + k < ptr + bytes.len() {
                        bytes[self.base() + k - ptr]
                    } else {
                        self.data[k]
                    },
            ),
            ..self
        }
    }

    /// The region cut or extended to end at page `end`; pages that it gains
    /// hold zeros.
    pub open spec fn resized(self, end: usize) -> AreaView {
        AreaView {
            end_vpn: end,
            data: Seq::new(
                ((end - self.start_vpn) * PAGE_SIZE) as nat,
                |k: int|
                    if k < self.data.len() {
                        self.data[k]
                    } else {
                        0u8
                    },
            ),
            ..self
        }
    }
}

/// A region of an address space, with the bytes of its pages.
pub struct MapArea {
    start_vpn: usize,
    end_vpn: usize,
    perm: MapPermission,
    kind: AreaKind,
    data: Vec<u8>,
}

impl View for MapArea {
    type V = AreaView;

    closed spec fn view(&self) -> AreaView {
        AreaView {
            start_vpn: self.start_vpn,
            end_vpn: self.end_vpn,
            perm: self.perm,
            kind: self.kind,
            data: self.data@,
        }
    }
}

impl MapArea {
    /// Creates the region of the pages `start_vpn .. end_vpn`, filled with
    /// zeros.
    pub fn new(start_vpn: usize, end_vpn: usize, perm: MapPermission, kind: AreaKind) -> (area:
        Self)
        requires
            start_vpn <= end_vpn <= TRAMPOLINE_PAGE + 1,
            (end_vpn - start_vpn) * PAGE_SIZE <= usize::MAX,
        ensures
            area@ == (AreaView {
                start_vpn,
                end_vpn,
                perm,
                kind,
                data: zeros(((end_vpn - start_vpn) * PAGE_SIZE) as nat),
            }),
            area@.wf(),
    {
        let n = (end_vpn - start_vpn) * PAGE_SIZE;
        let data = vec![0u8; n];
        assert(data@ =~= zeros(n as nat));
        MapArea { start_vpn, end_vpn, perm, kind, data }
    }

    /// Creates a region that holds `bytes` from its first address on, and
    /// zeros behind them.
    pub fn with_bytes(
        start_vpn: usize,
        end_vpn: usize,
        perm: MapPermission,
        kind: AreaKind,
        bytes: &Vec<u8>,
    ) -> (area: Self)
        requires
            start_vpn <= end_vpn <= TRAMPOLINE_PAGE + 1,
            (end_vpn - start_vpn) * PAGE_SIZE <= usize::MAX,
            bytes@.len() <= (end_vpn - start_vpn) * PAGE_SIZE,
        ensures
            area@ == (AreaView {
                start_vpn,
                end_vpn,
                perm,
                kind,
                data: bytes@ + zeros(((end_vpn - start_vpn) * PAGE_SIZE - bytes@.len()) as nat),
            }),
            area@.wf(),
    {
        let n = (end_vpn - start_vpn) * PAGE_SIZE;
        let mut data = bytes.clone();
        assert(data@ =~= bytes@);
        data.resize(n, 0u8);
        assert(data@ =~= bytes@ + zeros((n - bytes@.len()) as nat)) by {
            assert(data@.subrange(0, bytes@.len() as int) == bytes@);
            assert forall|i: int| 0 <= i < n implies data@[i] == (bytes@ + zeros(
                (n - bytes@.len()) as nat,
            ))[i] by {
                if i < bytes@.len() {
                    assert(data@[i] == data@.subrange(0, bytes@.len() as int)[i]);
                }
            }
        }
        MapArea { start_vpn, end_vpn, perm, kind, data }
    }

    /// Number of the first page of the region.
    pub fn start_vpn(&self) -> (vpn: usize)
        ensures
            vpn == self@.start_vpn,
    {
        self.start_vpn
    }

    /// Number of the page behind the last page of the region.
    pub fn end_vpn(&self) -> (vpn: usize)
        ensures
            vpn == self@.end_vpn,
    {
        self.end_vpn
    }

    /// What may be done with the pages of the region.
    pub fn perm(&self) -> (perm: MapPermission)
        ensures
            perm == self@.perm,
    {
        self.perm
    }

    /// What the region is for.
    pub fn kind(&self) -> (kind: AreaKind)
        ensures
            kind == self@.kind,
    {
        self.kind
    }

    /// The byte at place `offset` of the region.
    pub fn load(&self, offset: usize) -> (byte: u8)
        requires
            offset < self@.data.len(),
        ensures
            byte == self@.data[offset as int],
    {
        self.data[offset]
    }

    /// Stores `byte` at place `offset` of the region.
    pub fn store(&mut self, offset: usize, byte: u8)
        requires
            offset < old(self)@.data.len(),
        ensures
            final(self)@ == (AreaView {
                data: old(self)@.data.update(offset as int, byte),
                ..old(self)@
            }),
    {
        self.data[offset] = byte;
    }

    /// Cuts or extends the region so that it ends at page `end_vpn`; pages
    /// that it gains hold zeros.
    pub fn resize(&mut self, end_vpn: usize)
        requires
            old(self)@.wf(),
            old(self)@.start_vpn <= end_vpn <= TRAMPOLINE_PAGE + 1,
            (end_vpn - old(self)@.start_vpn) * PAGE_SIZE <= usize::MAX,
        ensures
            final(self)@ == old(self)@.resized(end_vpn),
            final(self)@.wf(),
    {
        let n = (end_vpn - self.start_vpn) * PAGE_SIZE;
        self.data.resize(n, 0u8);
        self.end_vpn = end_vpn;
        proof {
            let want = old(self)@.resized(end_vpn).data;
            assert(self.data@.len() == want.len());
            assert forall|k: int| 0 <= k < n implies self.data@[k] == want[k] by {
                if n > old(self)@.data.len() && k < old(self)@.data.len() {
                    assert(self.data@[k] == self.data@.subrange(
                        0,
                        old(self)@.data.len() as int,
                    )[k]);
                }
            }
            assert(self.data@ =~= want);
        }
    }

    /// A second region like this one, with bytes of its own.
    pub fn duplicate(&self) -> (area: Self)
        ensures
            area@ == self@,
    {
        let data = self.data.clone();
        assert(data@ =~= self.data@);
        MapArea {
            start_vpn: self.start_vpn,
            end_vpn: self.end_vpn,
            perm: self.perm,
            kind: self.kind,
            data,
        }
    }
}

} // verus!
