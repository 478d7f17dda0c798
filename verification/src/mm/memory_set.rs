//! The regions of one address space.

use crate::config::{
    is_page_aligned, page_aligned, page_of, PAGE_SIZE, TRAMPOLINE_PAGE, USER_STACK_SIZE,
};
use crate::mm::area::{zeros, AreaKind, AreaView, MapArea, MapPermission};
use crate::search::{first_index, is_first_index, lemma_first_index, lemma_first_index_unique};
use vstd::prelude::*;

verus! {

/// Number of pages that `len` bytes take.
pub open spec fn pages_up(len: int) -> int {
    (len + PAGE_SIZE - 1) / (PAGE_SIZE as int)
}

/// Number of pages of a user stack.
pub open spec fn stack_pages() -> int {
    (USER_STACK_SIZE / PAGE_SIZE) as int
}

/// An address space as a value: its regions in the order in which they were
/// made, the address at which the heap starts, and the address at which it
/// ends (the program break).
pub struct MemoryView {
    pub areas: Seq<AreaView>,
    pub heap_bottom: usize,
    pub program_brk: usize,
}

impl MemoryView {
    /// Whether region `i` is well formed.
    pub open spec fn area_wf(self, i: int) -> bool {
        self.areas[i].wf()
    }

    /// Whether the regions `i` and `j` have no page in common.
    pub open spec fn apart(self, i: int, j: int) -> bool {
        !self.areas[i].overlaps(self.areas[j].start_vpn as int, self.areas[j].end_vpn as int)
    }

    /// Whether the address space is that of a loaded program: its first five
    /// regions are the program, the user stack, the heap, the trap context
    /// and the trampoline, the heap region spans the pages from the heap's
    /// start to the program break, and all other regions are ones that the
    /// task mapped for itself.
    pub open spec fn loaded(self) -> bool {
        &&& self.areas.len() >= 5
        &&& self.areas[0].kind == AreaKind::Program
        &&& self.areas[1].kind == AreaKind::Stack
        &&& self.areas[2].kind == AreaKind::Heap
        &&& self.areas[2].start_vpn * PAGE_SIZE == self.heap_bottom
        &&& self.areas[2].end_vpn == pages_up(self.program_brk as int)
        &&& self.areas[3].kind == AreaKind::TrapContext
        &&& self.areas[3].start_vpn == TRAMPOLINE_PAGE - 1
        &&& self.areas[3].end_vpn == TRAMPOLINE_PAGE
        &&& self.areas[4].kind == AreaKind::Trampoline
        &&& self.areas[4].start_vpn == TRAMPOLINE_PAGE
        &&& self.areas[4].end_vpn == TRAMPOLINE_PAGE + 1
        &&& forall|i: int| 5 <= i < self.areas.len() ==> self.is_mapped_kind(i)
    }

    /// Whether region `i` is one that the task mapped for itself.
    pub open spec fn is_mapped_kind(self, i: int) -> bool {
        self.areas[i].kind == AreaKind::Mapped
    }

    /// Every region is well formed, no two regions share a page, the heap
    /// does not end before it starts, and the address space is either that
    /// of a loaded program or holds nothing but regions that were mapped on
    /// request.
    pub open spec fn wf(self) -> bool {
        &&& forall|i: int| 0 <= i < self.areas.len() ==> #[trigger] self.area_wf(i)
        &&& forall|i: int, j: int|
            0 <= i < self.areas.len() && 0 <= j < self.areas.len() && i != j
                ==> #[trigger] self.apart(i, j)
        &&& self.heap_bottom <= self.program_brk
        &&& self.loaded() || forall|i: int| 0 <= i < self.areas.len() ==> self.is_mapped_kind(i)
    }

    /// Whether no region has a page in `start .. end`.
    pub open spec fn range_free(self, start: int, end: int) -> bool {
        forall|i: int|
            0 <= i < self.areas.len() ==> !(#[trigger] self.areas[i]).overlaps(start, end)
    }

    /// Place of the region that page `vpn` belongs to; the number of regions
    /// where it belongs to none.
    pub open spec fn area_index(self, vpn: int) -> int {
        first_index(self.areas, |a: AreaView| a.contains_page(vpn))
    }

    /// Whether page `vpn` belongs to a region.
    pub open spec fn page_mapped(self, vpn: int) -> bool {
        self.area_index(vpn) < self.areas.len()
    }

    /// Place of the first region that the task mapped over exactly the pages
    /// `start .. end`; the number of regions where there is none.
    pub open spec fn mapping_index(self, start: int, end: int) -> int {
        first_index(self.areas, |a: AreaView| a.is_mapping_of(start, end))
    }

    /// The address space with one more region, behind the others.
    pub open spec fn with_area(self, area: AreaView) -> MemoryView {
        MemoryView { areas: self.areas.push(area), ..self }
    }

    /// The address space without region `i`.
    pub open spec fn without_area(self, i: int) -> MemoryView {
        MemoryView { areas: self.areas.remove(i), ..self }
    }

    /// The address space without any region.
    pub open spec fn released(self) -> MemoryView {
        MemoryView { areas: Seq::empty(), ..self }
    }

    /// The region that page `vpn` belongs to.
    pub open spec fn area_of_page(self, vpn: int) -> AreaView {
        self.areas[self.area_index(vpn)]
    }

    /// Whether user code may read page `vpn`.
    pub open spec fn page_readable(self, vpn: int) -> bool {
        self.page_mapped(vpn) && self.area_of_page(vpn).perm.user && self.area_of_page(
            vpn,
        ).perm.read
    }

    /// Whether user code may write to page `vpn`.
    pub open spec fn page_writable(self, vpn: int) -> bool {
        self.page_mapped(vpn) && self.area_of_page(vpn).perm.user && self.area_of_page(
            vpn,
        ).perm.write
    }

    /// Whether `addr` is an address that user code may read.
    pub open spec fn user_readable(self, addr: int) -> bool {
        0 <= addr <= usize::MAX && self.page_readable(page_of(addr))
    }

    /// Whether `addr` is an address that user code may write to.
    pub open spec fn user_writable(self, addr: int) -> bool {
        0 <= addr <= usize::MAX && self.page_writable(page_of(addr))
    }

    /// Whether user code may read each of the `len` bytes from `ptr` on.
    pub open spec fn range_readable(self, ptr: int, len: int) -> bool {
        forall|a: int| ptr <= a < ptr + len ==> #[trigger] self.user_readable(a)
    }

    /// Whether user code may write to each of the `len` bytes from `ptr` on.
    pub open spec fn range_writable(self, ptr: int, len: int) -> bool {
        forall|a: int| ptr <= a < ptr + len ==> #[trigger] self.user_writable(a)
    }

    /// The byte at `addr`, an address of a page that belongs to a region.
    pub open spec fn byte(self, addr: int) -> u8 {
        let area = self.area_of_page(page_of(addr));
        area.data[addr - area.base()]
    }

    /// The `len` bytes from `ptr` on.
    pub open spec fn read(self, ptr: int, len: nat) -> Seq<u8> {
        Seq::new(len, |i: int| self.byte(ptr + i))
    }

    /// The address space after `bytes` were stored from `ptr` on.
    pub open spec fn write(self, ptr: int, bytes: Seq<u8>) -> MemoryView {
        MemoryView {
            areas: Seq::new(self.areas.len(), |i: int| self.areas[i].overlay(ptr, bytes)),
            ..self
        }
    }

    /// Whether `start .. end` is a range of whole pages that may be mapped
    /// (where `is_map` is set: no region has a page in it) or unmapped (where
    /// it is not: the task mapped a region over exactly these pages).
    pub open spec fn mmap_check(self, start: int, end: int, is_map: bool) -> bool {
        &&& page_aligned(start)
        &&& page_aligned(end)
        &&& if is_map {
            self.range_free(page_of(start), page_of(end))
        } else {
            self.mapping_index(page_of(start), page_of(end)) < self.areas.len()
        }
    }

    /// Whether a task may map the `len` bytes from `start` on with the
    /// permission bits `port`: the range ends inside the address space,
    /// starts and ends at a page boundary and shares no page with a region,
    /// and `port` names at least one kind of access and sets no other bit.
    pub open spec fn mmap_ok(self, start: int, len: int, port: usize) -> bool {
        &&& start + len <= usize::MAX
        &&& self.mmap_check(start, start + len, true)
        &&& MapPermission::port_valid(port)
    }

    /// The address space after the task mapped the `len` bytes from `start`
    /// on with the permission bits `port`: one more region, filled with
    /// zeros, which user code may reach.
    pub open spec fn mmap(self, start: int, len: int, port: usize) -> MemoryView {
        self.with_area(
            AreaView {
                start_vpn: page_of(start) as usize,
                end_vpn: page_of(start + len) as usize,
                perm: MapPermission::of_port(port),
                kind: AreaKind::Mapped,
                data: zeros(len as nat),
            },
        )
    }

    /// Whether a task may unmap the `len` bytes from `start` on: they are
    /// exactly the bytes of a region that it mapped.
    pub open spec fn munmap_ok(self, start: int, len: int) -> bool {
        &&& start + len <= usize::MAX
        &&& self.mmap_check(start, start + len, false)
    }

    /// The address space after the task unmapped the `len` bytes from
    /// `start` on: without the first region that it mapped over them.
    pub open spec fn munmap(self, start: int, len: int) -> MemoryView {
        self.without_area(self.mapping_index(page_of(start), page_of(start + len)))
    }

    /// Whether the program break may move by `delta` bytes: the address
    /// space is that of a loaded program, the break stays at or above the
    /// start of the heap, and the pages that the heap then spans belong to
    /// no other region.
    pub open spec fn brk_ok(self, delta: int) -> bool {
        &&& self.loaded()
        &&& self.heap_bottom <= self.program_brk + delta
        &&& forall|i: int|
            0 <= i < self.areas.len() && i != 2 ==> !(#[trigger] self.areas[i]).overlaps(
                self.areas[2].start_vpn as int,
                pages_up(self.program_brk + delta),
            )
    }

    /// The address space after the program break moved by `delta` bytes: the
    /// heap region spans the pages up to the new break, and the pages that it
    /// gained hold zeros.
    pub open spec fn moved_brk(self, delta: int) -> MemoryView {
        MemoryView {
            areas: self.areas.update(
                2,
                self.areas[2].resized(pages_up(self.program_brk + delta) as usize),
            ),
            program_brk: (self.program_brk + delta) as usize,
            ..self
        }
    }

    /// Whether a program image of `len` bytes leaves room for a guard page,
    /// the user stack and the heap below the page of the trap context.
    pub open spec fn image_fits(len: int) -> bool {
        pages_up(len) + stack_pages() + 2 <= TRAMPOLINE_PAGE
    }

    /// The address space of a freshly loaded program: the image from address
    /// 0 on, one page left out as a guard, the user stack, an empty heap
    /// right above the stack, the page of the trap context and the
    /// trampoline page.
    pub open spec fn of_image(image: Seq<u8>) -> MemoryView {
        let n = pages_up(image.len() as int);
        let stack_start = n + 1;
        let stack_end = stack_start + stack_pages();
        MemoryView {
            areas: seq![
                AreaView {
                    start_vpn: 0,
                    end_vpn: n as usize,
                    perm: MapPermission { read: true, write: true, execute: true, user: true },
                    kind: AreaKind::Program,
                    data: image + zeros((n * PAGE_SIZE - image.len()) as nat),
                },
                AreaView {
                    start_vpn: stack_start as usize,
                    end_vpn: stack_end as usize,
                    perm: MapPermission { read: true, write: true, execute: false, user: true },
                    kind: AreaKind::Stack,
                    data: zeros(USER_STACK_SIZE as nat),
                },
                AreaView {
                    start_vpn: stack_end as usize,
                    end_vpn: stack_end as usize,
                    perm: MapPermission { read: true, write: true, execute: false, user: true },
                    kind: AreaKind::Heap,
                    data: zeros(0),
                },
                AreaView {
                    start_vpn: (TRAMPOLINE_PAGE - 1) as usize,
                    end_vpn: TRAMPOLINE_PAGE,
                    perm: MapPermission { read: true, write: true, execute: false, user: false },
                    kind: AreaKind::TrapContext,
                    data: zeros(PAGE_SIZE as nat),
                },
                AreaView {
                    start_vpn: TRAMPOLINE_PAGE,
                    end_vpn: (TRAMPOLINE_PAGE + 1) as usize,
                    perm: MapPermission { read: true, write: false, execute: true, user: false },
                    kind: AreaKind::Trampoline,
                    data: zeros(PAGE_SIZE as nat),
                },
            ],
            heap_bottom: (stack_end * PAGE_SIZE) as usize,
            program_brk: (stack_end * PAGE_SIZE) as usize,
        }
    }
}

/// The address space of a loaded program is well formed, and is that of a
/// loaded program.
pub proof fn lemma_of_image_wf(image: Seq<u8>)
    requires
        MemoryView::image_fits(image.len() as int),
    ensures
        MemoryView::of_image(image).wf(),
        MemoryView::of_image(image).loaded(),
{
    let m = MemoryView::of_image(image);
    assert(m.loaded());
    assert forall|i: int| 0 <= i < m.areas.len() implies #[trigger] m.area_wf(i) by {
    }
    assert forall|i: int, j: int|
        0 <= i < m.areas.len() && 0 <= j < m.areas.len() && i != j implies #[trigger] m.apart(
        i,
        j,
    ) by {
    }
}

/// In a well-formed address space, a page belongs to the region at `i` alone
/// if it belongs to it at all.
pub proof fn lemma_area_index(m: MemoryView, vpn: int, i: int)
    requires
        m.wf(),
        0 <= i < m.areas.len(),
        m.areas[i].contains_page(vpn),
    ensures
        m.area_index(vpn) == i,
        m.page_mapped(vpn),
{
    let p = |a: AreaView| a.contains_page(vpn);
    lemma_first_index(m.areas, p);
    let r = m.area_index(vpn);
    if r != i {
        assert(m.apart(r, i));
    }
}

/// Storing bytes changes neither which pages belong to which region nor
/// what may be done with them, and leaves the address space well formed.
pub proof fn lemma_write_keeps_layout(m: MemoryView, ptr: int, bytes: Seq<u8>)
    requires
        m.wf(),
    ensures
        m.write(ptr, bytes).wf(),
        m.write(ptr, bytes).loaded() == m.loaded(),
        m.write(ptr, bytes).areas.len() == m.areas.len(),
        forall|vpn: int| #[trigger] m.write(ptr, bytes).area_index(vpn) == m.area_index(vpn),
        forall|vpn: int| #[trigger] m.write(ptr, bytes).page_readable(vpn) == m.page_readable(vpn),
        forall|vpn: int| #[trigger] m.write(ptr, bytes).page_writable(vpn) == m.page_writable(vpn),
        forall|a: int, n: int| #[trigger]
            m.write(ptr, bytes).range_readable(a, n) == m.range_readable(a, n),
        forall|a: int, n: int| #[trigger]
            m.write(ptr, bytes).range_writable(a, n) == m.range_writable(a, n),
{
    let w = m.write(ptr, bytes);
    assert forall|i: int| 0 <= i < w.areas.len() implies #[trigger] w.area_wf(i) by {
        assert(m.area_wf(i));
    }
    assert forall|i: int, j: int|
        0 <= i < w.areas.len() && 0 <= j < w.areas.len() && i != j implies #[trigger] w.apart(
        i,
        j,
    ) by {
        assert(m.apart(i, j));
    }
    if m.loaded() {
        assert forall|i: int| 5 <= i < w.areas.len() implies w.is_mapped_kind(i) by {
            assert(m.is_mapped_kind(i));
        }
        assert(w.loaded());
    } else {
        assert forall|i: int| 0 <= i < w.areas.len() implies w.is_mapped_kind(i) by {
            assert(m.is_mapped_kind(i));
        }
        if w.loaded() {
            assert(m.is_mapped_kind(0));
        }
    }
    assert forall|vpn: int| #[trigger] w.area_index(vpn) == m.area_index(vpn) by {
        let p = |a: AreaView| a.contains_page(vpn);
        lemma_first_index(m.areas, p);
        let r = m.area_index(vpn);
        assert forall|j: int| 0 <= j < r implies !p(#[trigger] w.areas[j]) by {
            assert(!p(m.areas[j]));
        }
        assert(is_first_index(w.areas, p, r));
        lemma_first_index_unique(w.areas, p, r);
    }
    assert forall|vpn: int| #[trigger] w.page_readable(vpn) == m.page_readable(vpn) by {
        assert(w.area_index(vpn) == m.area_index(vpn));
        lemma_first_index(m.areas, |a: AreaView| a.contains_page(vpn));
    }
    assert forall|vpn: int| #[trigger] w.page_writable(vpn) == m.page_writable(vpn) by {
        assert(w.area_index(vpn) == m.area_index(vpn));
        lemma_first_index(m.areas, |a: AreaView| a.contains_page(vpn));
    }
    assert forall|a: int, n: int| #[trigger]
        w.range_readable(a, n) == m.range_readable(a, n) by {
        if m.range_readable(a, n) {
            assert forall|x: int| a <= x < a + n implies #[trigger] w.user_readable(x) by {
                assert(m.user_readable(x));
                assert(w.page_readable(page_of(x)) == m.page_readable(page_of(x)));
            }
        }
        if w.range_readable(a, n) {
            assert forall|x: int| a <= x < a + n implies #[trigger] m.user_readable(x) by {
                assert(w.user_readable(x));
                assert(w.page_readable(page_of(x)) == m.page_readable(page_of(x)));
            }
        }
    }
    assert forall|a: int, n: int| #[trigger]
        w.range_writable(a, n) == m.range_writable(a, n) by {
        if m.range_writable(a, n) {
            assert forall|x: int| a <= x < a + n implies #[trigger] w.user_writable(x) by {
                assert(m.user_writable(x));
                assert(w.page_writable(page_of(x)) == m.page_writable(page_of(x)));
            }
        }
        if w.range_writable(a, n) {
            assert forall|x: int| a <= x < a + n implies #[trigger] m.user_writable(x) by {
                assert(w.user_writable(x));
                assert(w.page_writable(page_of(x)) == m.page_writable(page_of(x)));
            }
        }
    }
}

/// After bytes were stored, an address inside what was stored holds the
/// byte that was stored there, and every other address holds what it held.
pub proof fn lemma_write_byte(m: MemoryView, ptr: int, bytes: Seq<u8>, addr: int)
    requires
        m.wf(),
        0 <= addr <= usize::MAX,
        m.page_mapped(page_of(addr)),
    ensures
        m.write(ptr, bytes).byte(addr) == if ptr <= addr < ptr + bytes.len() {
            bytes[addr - ptr]
        } else {
            m.byte(addr)
        },
{
    lemma_write_keeps_layout(m, ptr, bytes);
    let w = m.write(ptr, bytes);
    let vpn = page_of(addr);
    assert(w.area_index(vpn) == m.area_index(vpn));
    let i = m.area_index(vpn);
    lemma_first_index(m.areas, |a: AreaView| a.contains_page(vpn));
    assert(m.area_wf(i));
}

/// Storing one run of bytes and then a second one right behind it is the
/// same as storing the two runs as one.
pub proof fn lemma_write_append(m: MemoryView, ptr: int, first: Seq<u8>, second: Seq<u8>)
    ensures
        m.write(ptr, first).write(ptr + first.len(), second) == m.write(ptr, first + second),
{
    let a = m.write(ptr, first).write(ptr + first.len(), second);
    let b = m.write(ptr, first + second);
    assert(a.areas.len() == b.areas.len());
    assert forall|i: int| 0 <= i < a.areas.len() implies a.areas[i] == b.areas[i] by {
        assert(a.areas[i].data =~= b.areas[i].data);
    }
    assert(a.areas =~= b.areas);
}

/// Storing no bytes changes nothing.
pub proof fn lemma_write_nothing(m: MemoryView, ptr: int)
    ensures
        m.write(ptr, Seq::empty()) == m,
{
    let a = m.write(ptr, Seq::empty());
    assert forall|i: int| 0 <= i < a.areas.len() implies a.areas[i] == m.areas[i] by {
        assert(a.areas[i].data =~= m.areas[i].data);
    }
    assert(a.areas =~= m.areas);
}

/// One more region that the task mapped for itself, over pages that no
/// region has, leaves the address space well formed.
pub proof fn lemma_with_area_wf(m: MemoryView, area: AreaView)
    requires
        m.wf(),
        area.wf(),
        area.kind == AreaKind::Mapped,
        m.range_free(area.start_vpn as int, area.end_vpn as int),
    ensures
        m.with_area(area).wf(),
        m.with_area(area).loaded() == m.loaded(),
{
    let after = m.with_area(area);
    assert forall|i: int| 0 <= i < after.areas.len() implies #[trigger] after.area_wf(i) by {
        if i < m.areas.len() {
            assert(m.area_wf(i));
        }
    }
    assert forall|i: int, j: int|
        0 <= i < after.areas.len() && 0 <= j < after.areas.len() && i
            != j implies #[trigger] after.apart(i, j) by {
        if i < m.areas.len() && j < m.areas.len() {
            assert(m.apart(i, j));
        } else if i < m.areas.len() {
            assert(!m.areas[i].overlaps(area.start_vpn as int, area.end_vpn as int));
        } else {
            assert(!m.areas[j].overlaps(area.start_vpn as int, area.end_vpn as int));
        }
    }
    if m.loaded() {
        assert forall|i: int| 5 <= i < after.areas.len() implies after.is_mapped_kind(i) by {
            if i < m.areas.len() {
                assert(m.is_mapped_kind(i));
            }
        }
        assert(after.loaded());
    } else {
        assert forall|i: int| 0 <= i < after.areas.len() implies after.is_mapped_kind(i) by {
            if i < m.areas.len() {
                assert(m.is_mapped_kind(i));
            }
        }
        if after.loaded() {
            assert(after.is_mapped_kind(0));
        }
    }
}

/// Without one of the regions that the task mapped for itself, the address
/// space is still well formed.
pub proof fn lemma_without_area_wf(m: MemoryView, i: int)
    requires
        m.wf(),
        0 <= i < m.areas.len(),
        m.areas[i].kind == AreaKind::Mapped,
    ensures
        m.without_area(i).wf(),
        m.without_area(i).loaded() == m.loaded(),
{
    let after = m.without_area(i);
    assert forall|a: int| 0 <= a < after.areas.len() implies #[trigger] after.area_wf(a) by {
        let a0 = if a < i {
            a
        } else {
            a + 1
        };
        assert(m.area_wf(a0));
    }
    assert forall|a: int, b: int|
        0 <= a < after.areas.len() && 0 <= b < after.areas.len() && a
            != b implies #[trigger] after.apart(a, b) by {
        let a0 = if a < i {
            a
        } else {
            a + 1
        };
        let b0 = if b < i {
            b
        } else {
            b + 1
        };
        assert(m.apart(a0, b0));
    }
    if m.loaded() {
        assert(i >= 5);
        assert forall|a: int| 5 <= a < after.areas.len() implies after.is_mapped_kind(a) by {
            let a0 = if a < i {
                a
            } else {
                a + 1
            };
            assert(m.is_mapped_kind(a0));
        }
        assert(after.loaded());
    } else {
        assert forall|a: int| 0 <= a < after.areas.len() implies after.is_mapped_kind(a) by {
            let a0 = if a < i {
                a
            } else {
                a + 1
            };
            assert(m.is_mapped_kind(a0));
        }
        if after.loaded() {
            assert(after.is_mapped_kind(0));
        }
    }
}

/// Where the program break may move, the heap ends below the kernel's pages
/// afterwards, and the address space is still well formed and that of a
/// loaded program.
pub proof fn lemma_moved_brk_wf(m: MemoryView, delta: int)
    requires
        m.wf(),
        m.brk_ok(delta),
    ensures
        0 <= m.program_brk + delta <= usize::MAX,
        pages_up(m.program_brk + delta) <= TRAMPOLINE_PAGE,
        m.areas[2].start_vpn <= pages_up(m.program_brk + delta),
        m.moved_brk(delta).wf(),
        m.moved_brk(delta).loaded(),
{
    let after = m.moved_brk(delta);
    let start = m.areas[2].start_vpn as int;
    let new_end = pages_up(m.program_brk + delta);
    assert(m.area_wf(2) && m.area_wf(3) && m.area_wf(4));
    assert(!m.areas[3].overlaps(start, new_end));
    assert(!m.areas[4].overlaps(start, new_end));
    assert(start <= new_end);
    assert(new_end <= TRAMPOLINE_PAGE);
    assert forall|a: int| 0 <= a < after.areas.len() implies #[trigger] after.area_wf(a) by {
        if a != 2 {
            assert(m.area_wf(a));
        }
    }
    assert forall|a: int, b: int|
        0 <= a < after.areas.len() && 0 <= b < after.areas.len() && a
            != b implies #[trigger] after.apart(a, b) by {
        if a != 2 && b != 2 {
            assert(m.apart(a, b));
        } else if a == 2 {
            assert(!m.areas[b].overlaps(start, new_end));
        } else {
            assert(!m.areas[a].overlaps(start, new_end));
        }
    }
    assert forall|a: int| 5 <= a < after.areas.len() implies after.is_mapped_kind(a) by {
        assert(m.is_mapped_kind(a));
    }
    assert(after.loaded());
}

/// Mapping a range that may be mapped leaves the address space well formed.
pub proof fn lemma_mmap_wf(m: MemoryView, start: int, len: int, port: usize)
    requires
        m.wf(),
        0 <= start,
        0 <= len,
        m.mmap_ok(start, len, port),
    ensures
        m.mmap(start, len, port).wf(),
        m.mmap(start, len, port).loaded() == m.loaded(),
{
    let area = AreaView {
        start_vpn: page_of(start) as usize,
        end_vpn: page_of(start + len) as usize,
        perm: MapPermission::of_port(port),
        kind: AreaKind::Mapped,
        data: zeros(len as nat),
    };
    lemma_with_area_wf(m, area);
}

/// Unmapping a range that may be unmapped leaves the address space well
/// formed.
pub proof fn lemma_munmap_wf(m: MemoryView, start: int, len: int)
    requires
        m.wf(),
        m.munmap_ok(start, len),
    ensures
        m.munmap(start, len).wf(),
        m.munmap(start, len).loaded() == m.loaded(),
{
    let p = |a: AreaView| a.is_mapping_of(page_of(start), page_of(start + len));
    lemma_first_index(m.areas, p);
    lemma_without_area_wf(m, m.mapping_index(page_of(start), page_of(start + len)));
}

/// A range that shares a page with a region cannot be mapped.
pub proof fn lemma_mmap_rejects_region(m: MemoryView, i: int, start: int, len: int, port: usize)
    requires
        0 <= i < m.areas.len(),
        m.areas[i].overlaps(page_of(start), page_of(start + len)),
    ensures
        !m.mmap_ok(start, len, port),
{
}

/// Once a task has mapped a range, it cannot map a range that shares a byte
/// with it, whatever permission it asks for.
pub proof fn lemma_mmap_rejects_overlap(
    m: MemoryView,
    start: int,
    len: int,
    port: usize,
    start2: int,
    len2: int,
    port2: usize,
)
    requires
        0 <= start,
        0 <= start2,
        0 < len,
        0 < len2,
        m.mmap_ok(start, len, port),
        start < start2 + len2,
        start2 < start + len,
    ensures
        !m.mmap(start, len, port).mmap_ok(start2, len2, port2),
{
    let m2 = m.mmap(start, len, port);
    let i = m.areas.len() as int;
    assert(m2.areas[i].start_vpn == page_of(start));
    assert(m2.areas[i].end_vpn == page_of(start + len));
    if page_aligned(start2) && page_aligned(start2 + len2) {
        assert(m2.areas[i].overlaps(page_of(start2), page_of(start2 + len2)));
    }
}

/// After a task has mapped a range and unmapped it again, the address space
/// holds the regions that it held before, and the range can be mapped
/// again.
pub proof fn lemma_mmap_munmap(m: MemoryView, start: int, len: int, port: usize)
    requires
        0 <= start,
        0 < len,
        m.mmap_ok(start, len, port),
    ensures
        m.mmap(start, len, port).munmap_ok(start, len),
        m.mmap(start, len, port).munmap(start, len) == m,
        m.mmap(start, len, port).munmap(start, len).mmap_ok(start, len, port),
{
    let m2 = m.mmap(start, len, port);
    let n = m.areas.len() as int;
    let p = |a: AreaView| a.is_mapping_of(page_of(start), page_of(start + len));
    assert forall|j: int| 0 <= j < n implies !p(#[trigger] m2.areas[j]) by {
        assert(m2.areas[j] == m.areas[j]);
        assert(!m.areas[j].overlaps(page_of(start), page_of(start + len)));
    }
    assert(p(m2.areas[n]));
    assert(is_first_index(m2.areas, p, n));
    lemma_first_index_unique(m2.areas, p, n);
    assert(m2.areas.remove(n) =~= m.areas);
}

/// Unmapping part of a region that a task mapped is refused: a range that
/// starts where the region starts and ends before it ends matches no region.
pub proof fn lemma_munmap_rejects_part(m: MemoryView, i: int, start: int, len: int)
    requires
        m.wf(),
        0 <= start,
        0 <= len,
        0 <= i < m.areas.len(),
        m.areas[i].start_vpn == page_of(start),
        page_of(start + len) < m.areas[i].end_vpn,
        m.areas[i].start_vpn < page_of(start + len) || !page_aligned(start + len),
    ensures
        !m.munmap_ok(start, len),
{
    if m.munmap_ok(start, len) {
        let p = |a: AreaView| a.is_mapping_of(page_of(start), page_of(start + len));
        lemma_first_index(m.areas, p);
        let j = m.mapping_index(page_of(start), page_of(start + len));
        assert(p(m.areas[j]));
        assert(j != i);
        assert(m.apart(i, j));
    }
}

/// The regions of one address space, each with the bytes of its pages.
pub struct MemorySet {
    areas: Vec<MapArea>,
    heap_bottom: usize,
    program_brk: usize,
}

impl View for MemorySet {
    type V = MemoryView;

    closed spec fn view(&self) -> MemoryView {
        MemoryView {
            areas: self.areas@.map_values(|a: MapArea| a@),
            heap_bottom: self.heap_bottom,
            program_brk: self.program_brk,
        }
    }
}

impl MemorySet {
    /// Whether the address space is well formed.
    pub open spec fn wf(&self) -> bool {
        self@.wf()
    }

    /// Creates an address space without regions.
    pub fn new_bare() -> (ms: Self)
        ensures
            ms@ == (MemoryView { areas: Seq::empty(), heap_bottom: 0, program_brk: 0 }),
            ms.wf(),
    {
        let ms = MemorySet { areas: Vec::new(), heap_bottom: 0, program_brk: 0 };
        assert(ms@.areas =~= Seq::empty());
        ms
    }

    /// Number of regions.
    pub fn area_count(&self) -> (n: usize)
        ensures
            n == self@.areas.len(),
    {
        self.areas.len()
    }

    /// Region `i`, in the order in which the regions were made.
    pub fn area(&self, i: usize) -> (area: &MapArea)
        requires
            i < self@.areas.len(),
        ensures
            area@ == self@.areas[i as int],
    {
        &self.areas[i]
    }

    /// Address at which the heap starts.
    pub fn heap_bottom(&self) -> (addr: usize)
        ensures
            addr == self@.heap_bottom,
    {
        self.heap_bottom
    }

    /// Address at which the heap ends.
    pub fn program_brk(&self) -> (addr: usize)
        ensures
            addr == self@.program_brk,
    {
        self.program_brk
    }

    /// Finds the region that page `vpn` belongs to.
    pub fn translate(&self, vpn: usize) -> (found: Option<usize>)
        ensures
            found is Some <==> self@.page_mapped(vpn as int),
            found is Some ==> found->0 == self@.area_index(vpn as int),
    {
        let n = self.areas.len();
        let mut i: usize = 0;
        while i < n
            invariant
                n == self.areas@.len(),
                0 <= i <= n,
                forall|j: int|
                    0 <= j < i ==> !(#[trigger] self@.areas[j]).contains_page(vpn as int),
            decreases n - i,
        {
            let area = &self.areas[i];
            if area.start_vpn() <= vpn && vpn < area.end_vpn() {
                proof {
                    let p = |a: AreaView| a.contains_page(vpn as int);
                    assert(is_first_index(self@.areas, p, i as int));
                    lemma_first_index_unique(self@.areas, p, i as int);
                }
                return Some(i);
            }
            i = i + 1;
        }
        proof {
            let p = |a: AreaView| a.contains_page(vpn as int);
            assert(is_first_index(self@.areas, p, n as int));
            lemma_first_index_unique(self@.areas, p, n as int);
        }
        None
    }

    /// Whether no region has a page in `start_vpn .. end_vpn`.
    pub fn range_is_free(&self, start_vpn: usize, end_vpn: usize) -> (free: bool)
        ensures
            free == self@.range_free(start_vpn as int, end_vpn as int),
    {
        let n = self.areas.len();
        let mut i: usize = 0;
        while i < n
            invariant
                n == self.areas@.len(),
                0 <= i <= n,
                forall|j: int|
                    0 <= j < i ==> !(#[trigger] self@.areas[j]).overlaps(
                        start_vpn as int,
                        end_vpn as int,
                    ),
            decreases n - i,
        {
            let area = &self.areas[i];
            if area.start_vpn() < end_vpn && start_vpn < area.end_vpn() && area.start_vpn()
                < area.end_vpn() && start_vpn < end_vpn {
                assert(self@.areas[i as int].overlaps(start_vpn as int, end_vpn as int));
                return false;
            }
            i = i + 1;
        }
        true
    }

    /// Finds the first region that the task mapped over exactly the pages
    /// `start_vpn .. end_vpn`.
    pub fn find_mapping(&self, start_vpn: usize, end_vpn: usize) -> (found: Option<usize>)
        ensures
            found is Some <==> self@.mapping_index(start_vpn as int, end_vpn as int)
                < self@.areas.len(),
            found is Some ==> found->0 == self@.mapping_index(start_vpn as int, end_vpn as int),
    {
        let n = self.areas.len();
        let mut i: usize = 0;
        while i < n
            invariant
                n == self.areas@.len(),
                0 <= i <= n,
                forall|j: int|
                    0 <= j < i ==> !(#[trigger] self@.areas[j]).is_mapping_of(
                        start_vpn as int,
                        end_vpn as int,
                    ),
            decreases n - i,
        {
            let area = &self.areas[i];
            if area.kind() == AreaKind::Mapped && area.start_vpn() == start_vpn && area.end_vpn()
                == end_vpn {
                proof {
                    let p = |a: AreaView| a.is_mapping_of(start_vpn as int, end_vpn as int);
                    assert(is_first_index(self@.areas, p, i as int));
                    lemma_first_index_unique(self@.areas, p, i as int);
                }
                return Some(i);
            }
            i = i + 1;
        }
        proof {
            let p = |a: AreaView| a.is_mapping_of(start_vpn as int, end_vpn as int);
            assert(is_first_index(self@.areas, p, n as int));
            lemma_first_index_unique(self@.areas, p, n as int);
        }
        None
    }

    /// Whether `start .. end` is a range of whole pages that may be mapped
    /// (where `is_map` is set) or unmapped (where it is not).
    pub fn mmap_check(&self, start: usize, end: usize, is_map: bool) -> (ok: bool)
        ensures
            ok == self@.mmap_check(start as int, end as int, is_map),
    {
        if !is_page_aligned(start) || !is_page_aligned(end) {
            return false;
        }
        if is_map {
            self.range_is_free(start / PAGE_SIZE, end / PAGE_SIZE)
        } else {
            self.find_mapping(start / PAGE_SIZE, end / PAGE_SIZE).is_some()
        }
    }

    /// Adds a region over the pages `start_vpn .. end_vpn`, filled with
    /// zeros, as one that the task mapped for itself.
    pub fn insert_framed_area(&mut self, start_vpn: usize, end_vpn: usize, perm: MapPermission)
        requires
            old(self).wf(),
            start_vpn <= end_vpn <= TRAMPOLINE_PAGE + 1,
            (end_vpn - start_vpn) * PAGE_SIZE <= usize::MAX,
            old(self)@.range_free(start_vpn as int, end_vpn as int),
        ensures
            final(self)@ == old(self)@.with_area(
                AreaView {
                    start_vpn,
                    end_vpn,
                    perm,
                    kind: AreaKind::Mapped,
                    data: zeros(((end_vpn - start_vpn) * PAGE_SIZE) as nat),
                },
            ),
            final(self).wf(),
    {
        let area = MapArea::new(start_vpn, end_vpn, perm, AreaKind::Mapped);
        proof {
            lemma_with_area_wf(self@, area@);
        }
        self.areas.push(area);
        assert(self@.areas =~= old(self)@.areas.push(area@));
    }

    /// Takes region `i`, which the task mapped for itself, out of the
    /// address space.
    pub fn remove_area(&mut self, i: usize)
        requires
            old(self).wf(),
            i < old(self)@.areas.len(),
            old(self)@.areas[i as int].kind == AreaKind::Mapped,
        ensures
            final(self)@ == old(self)@.without_area(i as int),
            final(self).wf(),
    {
        proof {
            lemma_without_area_wf(self@, i as int);
        }
        self.areas.remove(i);
        assert(self@.areas =~= old(self)@.areas.remove(i as int));
    }

    /// Moves the program break by `size` bytes and returns the break as it
    /// was before, or changes nothing and returns `None` where the break
    /// would come to lie below the start of the heap or the heap would run
    /// into another region.
    pub fn change_program_brk(&mut self, size: i32) -> (old_brk: Option<usize>)
        requires
            old(self).wf(),
        ensures
            old_brk is Some <==> old(self)@.brk_ok(size as int),
            old_brk is Some ==> old_brk->0 == old(self)@.program_brk,
            old_brk is Some ==> final(self)@ == old(self)@.moved_brk(size as int),
            old_brk is None ==> final(self)@ == old(self)@,
            final(self).wf(),
    {
        if self.areas.len() < 5 || self.areas[2].kind() != AreaKind::Heap {
            proof {
                if self.areas.len() >= 5 {
                    assert(self@.areas[2] == self.areas@[2]@);
                }
            }
            return None;
        }
        proof {
            assert(!self@.is_mapped_kind(2));
            assert(self@.loaded());
            assert(self@.area_wf(2) && self@.area_wf(4));
        }
        let old_brk = self.program_brk;
        let new_brk: i128 = self.program_brk as i128 + size as i128;
        if new_brk < self.heap_bottom as i128 {
            return None;
        }
        if new_brk > usize::MAX as i128 {
            assert(self@.areas[4].overlaps(
                self@.areas[2].start_vpn as int,
                pages_up(self@.program_brk + size),
            ));
            return None;
        }
        let new_brk: usize = new_brk as usize;
        let new_end: usize = new_brk / PAGE_SIZE + if new_brk % PAGE_SIZE != 0 {
            1usize
        } else {
            0usize
        };
        assert(new_end == pages_up(new_brk as int));
        let start = self.areas[2].start_vpn();
        assert(start <= new_end);
        let n = self.areas.len();
        let mut i: usize = 0;
        while i < n
            invariant
                n == self.areas@.len(),
                0 <= i <= n,
                self@ == old(self)@,
                self.wf(),
                self@.loaded(),
                start == self@.areas[2].start_vpn,
                new_end == pages_up(self@.program_brk + size),
                forall|j: int|
                    0 <= j < i && j != 2 ==> !(#[trigger] self@.areas[j]).overlaps(
                        start as int,
                        new_end as int,
                    ),
            decreases n - i,
        {
            if i != 2 {
                let area = &self.areas[i];
                if area.start_vpn() < new_end && start < area.end_vpn() && area.start_vpn()
                    < area.end_vpn() && start < new_end {
                    assert(self@.areas[i as int].overlaps(start as int, new_end as int));
                    return None;
                }
            }
            i = i + 1;
        }
        proof {
            lemma_moved_brk_wf(self@, size as int);
        }
        self.areas[2].resize(new_end);
        self.program_brk = new_brk;
        proof {
            let before = old(self)@;
            assert(self@.areas =~= before.areas.update(2, before.areas[2].resized(new_end)));
            assert(self@ == before.moved_brk(size as int));
        }
        Some(old_brk)
    }

    /// Loads a program: builds the address space that holds the image, the
    /// user stack, an empty heap, the trap context and the trampoline.
    /// Returns `None` where the image is too large to leave room for them.
    pub fn from_image(image: &Vec<u8>) -> (loaded: Option<Self>)
        ensures
            loaded is Some <==> MemoryView::image_fits(image@.len() as int),
            loaded is Some ==> loaded->0@ == MemoryView::of_image(image@) && loaded->0.wf()
                && loaded->0@.loaded(),
    {
        let len = image.len();
        let n: usize = len / PAGE_SIZE + if len % PAGE_SIZE != 0 {
            1usize
        } else {
            0usize
        };
        assert(n == pages_up(len as int));
        let stack_pages: usize = USER_STACK_SIZE / PAGE_SIZE;
        if n > TRAMPOLINE_PAGE - stack_pages - 2 {
            return None;
        }
        let stack_start: usize = n + 1;
        let stack_end: usize = stack_start + stack_pages;
        let mut areas: Vec<MapArea> = Vec::new();
        areas.push(
            MapArea::with_bytes(0, n, MapPermission::user_program(), AreaKind::Program, image),
        );
        areas.push(
            MapArea::new(stack_start, stack_end, MapPermission::user_data(), AreaKind::Stack),
        );
        areas.push(MapArea::new(stack_end, stack_end, MapPermission::user_data(), AreaKind::Heap));
        areas.push(
            MapArea::new(
                TRAMPOLINE_PAGE - 1,
                TRAMPOLINE_PAGE,
                MapPermission::kernel_data(),
                AreaKind::TrapContext,
            ),
        );
        areas.push(
            MapArea::new(
                TRAMPOLINE_PAGE,
                TRAMPOLINE_PAGE + 1,
                MapPermission::kernel_text(),
                AreaKind::Trampoline,
            ),
        );
        let ms = MemorySet {
            areas,
            heap_bottom: stack_end * PAGE_SIZE,
            program_brk: stack_end * PAGE_SIZE,
        };
        proof {
            assert(ms@.areas =~= MemoryView::of_image(image@).areas);
            lemma_of_image_wf(image@);
        }
        Some(ms)
    }

    /// A second address space like this one, with bytes of its own.
    pub fn duplicate(&self) -> (copy: Self)
        ensures
            copy@ == self@,
    {
        let n = self.areas.len();
        let mut areas: Vec<MapArea> = Vec::new();
        let mut i: usize = 0;
        while i < n
            invariant
                n == self.areas@.len(),
                0 <= i <= n,
                areas@.len() == i,
                forall|j: int| 0 <= j < i ==> (#[trigger] areas@[j])@ == self.areas@[j]@,
            decreases n - i,
        {
            areas.push(self.areas[i].duplicate());
            i = i + 1;
        }
        let copy = MemorySet {
            areas,
            heap_bottom: self.heap_bottom,
            program_brk: self.program_brk,
        };
        assert(copy@.areas =~= self@.areas);
        copy
    }

    /// Whether user code may read page `vpn`.
    pub fn is_page_readable(&self, vpn: usize) -> (ok: bool)
        ensures
            ok == self@.page_readable(vpn as int),
    {
        match self.translate(vpn) {
            Some(i) => {
                let perm = self.areas[i].perm();
                perm.user && perm.read
            },
            None => false,
        }
    }

    /// Whether user code may write to page `vpn`.
    pub fn is_page_writable(&self, vpn: usize) -> (ok: bool)
        ensures
            ok == self@.page_writable(vpn as int),
    {
        match self.translate(vpn) {
            Some(i) => {
                let perm = self.areas[i].perm();
                perm.user && perm.write
            },
            None => false,
        }
    }

    /// Reads the byte at `addr` as user code would; `None` where user code
    /// may not read it.
    pub fn load_byte(&self, addr: usize) -> (byte: Option<u8>)
        requires
            self.wf(),
        ensures
            byte is Some <==> self@.user_readable(addr as int),
            byte is Some ==> byte->0 == self@.byte(addr as int),
    {
        let vpn = addr / PAGE_SIZE;
        match self.translate(vpn) {
            Some(i) => {
                let area = &self.areas[i];
                let perm = area.perm();
                if perm.user && perm.read {
                    proof {
                        lemma_first_index(self@.areas, |a: AreaView| a.contains_page(vpn as int));
                        assert(self@.area_wf(i as int));
                    }
                    Some(area.load(addr - area.start_vpn() * PAGE_SIZE))
                } else {
                    None
                }
            },
            None => None,
        }
    }

    /// Stores `byte` at `addr` as user code would. Returns whether user code
    /// may write there; where it may not, nothing changes.
    pub fn store_byte(&mut self, addr: usize, byte: u8) -> (ok: bool)
        requires
            old(self).wf(),
        ensures
            ok == old(self)@.user_writable(addr as int),
            ok ==> final(self)@ == old(self)@.write(addr as int, seq![byte]),
            !ok ==> final(self)@ == old(self)@,
            final(self).wf(),
    {
        let vpn = addr / PAGE_SIZE;
        match self.translate(vpn) {
            Some(i) => {
                let perm = self.areas[i].perm();
                if perm.user && perm.write {
                    proof {
                        lemma_first_index(self@.areas, |a: AreaView| a.contains_page(vpn as int));
                        assert(self@.area_wf(i as int));
                    }
                    let start = self.areas[i].start_vpn();
                    self.areas[i].store(addr - start * PAGE_SIZE, byte);
                    proof {
                        let before = old(self)@;
                        let after = self@;
                        let want = before.write(addr as int, seq![byte]);
                        assert(after.areas.len() == want.areas.len());
                        assert forall|j: int| 0 <= j < after.areas.len() implies after.areas[j]
                            == want.areas[j] by {
                            if j == i {
                                assert(after.areas[j].data =~= want.areas[j].data);
                            } else {
                                assert(before.apart(j, i as int));
                                assert(before.area_wf(j));
                                assert(!before.areas[j].contains_page(vpn as int)) by {
                                    if before.areas[j].contains_page(vpn as int) {
                                        lemma_area_index(before, vpn as int, j);
                                    }
                                }
                                assert(want.areas[j].data =~= before.areas[j].data);
                            }
                        }
                        assert(after.areas =~= want.areas);
                        lemma_write_keeps_layout(before, addr as int, seq![byte]);
                    }
                    true
                } else {
                    false
                }
            },
            None => false,
        }
    }

    /// Gives up every region, and with it the bytes of all pages.
    pub fn recycle_data_pages(&mut self)
        requires
            old(self).wf(),
        ensures
            final(self)@ == old(self)@.released(),
            final(self).wf(),
    {
        self.areas.clear();
        assert(self@.areas =~= Seq::empty());
    }
}

} // verus!
