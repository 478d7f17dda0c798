use proc_core::config::{PAGE_SIZE, TRAMPOLINE_PAGE, USER_STACK_SIZE};
use proc_core::mm::area::{AreaKind, MapArea, MapPermission};
use proc_core::mm::memory_set::MemorySet;
use proc_core::mm::user::{
    copy_from_user, copy_to_user, is_range_readable, is_range_writable, is_user_str,
    translated_byte_buffer, translated_str,
};

const A: usize = 0x1000_0000;

fn rw() -> MapPermission {
    MapPermission { read: true, write: true, execute: false, user: true }
}

fn loaded(image: &[u8]) -> MemorySet {
    MemorySet::from_image(&image.to_vec()).unwrap()
}

fn bounds(ms: &MemorySet) -> Vec<(usize, usize, AreaKind)> {
    (0..ms.area_count())
        .map(|i| (ms.area(i).start_vpn(), ms.area(i).end_vpn(), ms.area(i).kind()))
        .collect()
}

#[test]
fn permission_from_port_bits() {
    assert_eq!(
        MapPermission::from_port(1),
        MapPermission { read: true, write: false, execute: false, user: true }
    );
    assert_eq!(
        MapPermission::from_port(2),
        MapPermission { read: false, write: true, execute: false, user: true }
    );
    assert_eq!(
        MapPermission::from_port(4),
        MapPermission { read: false, write: false, execute: true, user: true }
    );
    assert_eq!(
        MapPermission::from_port(7),
        MapPermission { read: true, write: true, execute: true, user: true }
    );
}

#[test]
fn port_validity() {
    assert!(!MapPermission::is_port_valid(0));
    for port in 1..8 {
        assert!(MapPermission::is_port_valid(port));
    }
    assert!(!MapPermission::is_port_valid(8));
    assert!(!MapPermission::is_port_valid(9));
    assert!(!MapPermission::is_port_valid(usize::MAX));
}

#[test]
fn new_area_is_zero_filled() {
    let area = MapArea::new(3, 5, rw(), AreaKind::Mapped);
    assert_eq!(area.start_vpn(), 3);
    assert_eq!(area.end_vpn(), 5);
    assert_eq!(area.perm(), rw());
    assert_eq!(area.kind(), AreaKind::Mapped);
    for offset in [0, 1, PAGE_SIZE, 2 * PAGE_SIZE - 1] {
        assert_eq!(area.load(offset), 0);
    }
}

#[test]
fn area_with_bytes_pads_with_zeros() {
    let area = MapArea::with_bytes(0, 1, rw(), AreaKind::Program, &vec![7, 8, 9]);
    assert_eq!(area.load(0), 7);
    assert_eq!(area.load(2), 9);
    assert_eq!(area.load(3), 0);
    assert_eq!(area.load(PAGE_SIZE - 1), 0);
}

#[test]
fn area_store_and_resize() {
    let mut area = MapArea::new(2, 3, rw(), AreaKind::Heap);
    area.store(10, 0xAB);
    assert_eq!(area.load(10), 0xAB);
    area.resize(4);
    assert_eq!(area.end_vpn(), 4);
    assert_eq!(area.load(10), 0xAB);
    assert_eq!(area.load(PAGE_SIZE + 10), 0);
    area.resize(2);
    assert_eq!(area.end_vpn(), 2);
    area.resize(3);
    assert_eq!(area.load(10), 0);
}

#[test]
fn area_duplicate_has_bytes_of_its_own() {
    let mut area = MapArea::new(0, 1, rw(), AreaKind::Mapped);
    area.store(5, 1);
    let copy = area.duplicate();
    area.store(5, 2);
    assert_eq!(copy.load(5), 1);
    assert_eq!(area.load(5), 2);
}

#[test]
fn bare_address_space_is_empty() {
    let ms = MemorySet::new_bare();
    assert_eq!(ms.area_count(), 0);
    assert_eq!(ms.heap_bottom(), 0);
    assert_eq!(ms.program_brk(), 0);
    assert_eq!(ms.translate(0), None);
    assert_eq!(ms.load_byte(0), None);
}

#[test]
fn loaded_program_layout() {
    let image: Vec<u8> = (0..5000u32).map(|i| (i % 251) as u8).collect();
    let ms = loaded(&image);
    let stack_pages = USER_STACK_SIZE / PAGE_SIZE;
    assert_eq!(
        bounds(&ms),
        vec![
            (0, 2, AreaKind::Program),
            (3, 3 + stack_pages, AreaKind::Stack),
            (3 + stack_pages, 3 + stack_pages, AreaKind::Heap),
            (TRAMPOLINE_PAGE - 1, TRAMPOLINE_PAGE, AreaKind::TrapContext),
            (TRAMPOLINE_PAGE, TRAMPOLINE_PAGE + 1, AreaKind::Trampoline),
        ]
    );
    assert_eq!(ms.heap_bottom(), (3 + stack_pages) * PAGE_SIZE);
    assert_eq!(ms.program_brk(), ms.heap_bottom());
    assert_eq!(copy_from_user(&ms, 0, 5000), image);
    assert_eq!(ms.load_byte(5000), Some(0));
    assert_eq!(ms.load_byte(2 * PAGE_SIZE - 1), Some(0));
    // The guard page between program and stack belongs to no region.
    assert_eq!(ms.translate(2), None);
    assert_eq!(ms.load_byte(2 * PAGE_SIZE), None);
    assert_eq!(ms.translate(3), Some(1));
}

#[test]
fn empty_image_loads() {
    let ms = loaded(&[]);
    assert_eq!(ms.area_count(), 5);
    assert_eq!(ms.area(0).start_vpn(), 0);
    assert_eq!(ms.area(0).end_vpn(), 0);
    assert_eq!(ms.area(1).start_vpn(), 1);
}

#[test]
fn kernel_pages_are_closed_to_user_code() {
    let ms = loaded(&[1, 2, 3]);
    let trap_cx = (TRAMPOLINE_PAGE - 1) * PAGE_SIZE;
    assert_eq!(ms.translate(TRAMPOLINE_PAGE - 1), Some(3));
    assert_eq!(ms.translate(TRAMPOLINE_PAGE), Some(4));
    assert!(!ms.is_page_readable(TRAMPOLINE_PAGE - 1));
    assert!(!ms.is_page_writable(TRAMPOLINE_PAGE));
    assert_eq!(ms.load_byte(trap_cx), None);
    assert_eq!(ms.load_byte(usize::MAX), None);
    let mut ms = ms;
    assert!(!ms.store_byte(trap_cx, 1));
    assert!(!ms.store_byte(usize::MAX, 1));
}

#[test]
fn insert_and_remove_area() {
    let mut ms = MemorySet::new_bare();
    assert!(ms.range_is_free(16, 18));
    ms.insert_framed_area(16, 18, rw());
    assert_eq!(bounds(&ms), vec![(16, 18, AreaKind::Mapped)]);
    assert!(!ms.range_is_free(17, 20));
    assert!(!ms.range_is_free(0, 17));
    assert!(ms.range_is_free(18, 20));
    assert!(ms.range_is_free(0, 16));
    assert!(ms.range_is_free(17, 17));
    assert_eq!(ms.find_mapping(16, 18), Some(0));
    assert_eq!(ms.find_mapping(16, 17), None);
    assert_eq!(ms.find_mapping(17, 18), None);
    assert_eq!(ms.translate(17), Some(0));
    assert_eq!(ms.translate(18), None);
    ms.remove_area(0);
    assert_eq!(ms.area_count(), 0);
    assert_eq!(ms.translate(17), None);
}

#[test]
fn mmap_check_wants_whole_pages() {
    let mut ms = MemorySet::new_bare();
    assert!(ms.mmap_check(A, A + PAGE_SIZE, true));
    assert!(!ms.mmap_check(A + 1, A + PAGE_SIZE, true));
    assert!(!ms.mmap_check(A, A + PAGE_SIZE + 1, true));
    assert!(!ms.mmap_check(A, A + PAGE_SIZE, false));
    ms.insert_framed_area(A / PAGE_SIZE, A / PAGE_SIZE + 1, rw());
    assert!(!ms.mmap_check(A, A + PAGE_SIZE, true));
    assert!(ms.mmap_check(A, A + PAGE_SIZE, false));
    assert!(!ms.mmap_check(A, A + 2048, false));
    assert!(!ms.mmap_check(A, A + 2 * PAGE_SIZE, false));
}

#[test]
fn program_break_moves_and_returns_old_break() {
    let mut ms = loaded(&[0; 10]);
    let bottom = ms.heap_bottom();
    assert_eq!(ms.change_program_brk(0), Some(bottom));
    assert_eq!(ms.change_program_brk(100), Some(bottom));
    assert_eq!(ms.program_brk(), bottom + 100);
    assert_eq!(ms.area(2).end_vpn(), bottom / PAGE_SIZE + 1);
    assert!(ms.store_byte(bottom + 99, 0x5A));
    assert_eq!(ms.change_program_brk(4096), Some(bottom + 100));
    assert_eq!(ms.area(2).end_vpn(), bottom / PAGE_SIZE + 2);
    assert_eq!(ms.load_byte(bottom + 99), Some(0x5A));
    assert_eq!(ms.load_byte(bottom + 4195), Some(0));
    assert_eq!(ms.change_program_brk(-4196), Some(bottom + 4196));
    assert_eq!(ms.program_brk(), bottom);
    assert_eq!(ms.area(2).end_vpn(), bottom / PAGE_SIZE);
    assert_eq!(ms.load_byte(bottom), None);
    // Pages that the heap gains again hold zeros.
    assert_eq!(ms.change_program_brk(100), Some(bottom));
    assert_eq!(ms.load_byte(bottom + 99), Some(0));
}

#[test]
fn program_break_cannot_fall_below_heap_start() {
    let mut ms = loaded(&[0; 10]);
    let bottom = ms.heap_bottom();
    assert_eq!(ms.change_program_brk(-1), None);
    assert_eq!(ms.program_brk(), bottom);
    assert_eq!(ms.change_program_brk(10), Some(bottom));
    assert_eq!(ms.change_program_brk(-11), None);
    assert_eq!(ms.program_brk(), bottom + 10);
    assert_eq!(ms.change_program_brk(i32::MIN), None);
}

#[test]
fn program_break_cannot_run_into_another_region() {
    let mut ms = loaded(&[0; 10]);
    let bottom = ms.heap_bottom();
    let page = bottom / PAGE_SIZE;
    ms.insert_framed_area(page + 2, page + 3, rw());
    assert_eq!(ms.change_program_brk(2 * 4096), Some(bottom));
    assert_eq!(ms.change_program_brk(1), None);
    assert_eq!(ms.program_brk(), bottom + 2 * 4096);
    assert_eq!(ms.area(2).end_vpn(), page + 2);
}

#[test]
fn program_break_of_bare_address_space_does_not_move() {
    let mut ms = MemorySet::new_bare();
    assert_eq!(ms.change_program_brk(0), None);
    assert_eq!(ms.change_program_brk(4096), None);
}

#[test]
fn byte_buffer_is_cut_at_page_boundaries() {
    let ms = loaded(&[0; 10]);
    let stack = PAGE_SIZE * 2;
    assert_eq!(translated_byte_buffer(&ms, stack, 0, true), Some(vec![]));
    assert_eq!(translated_byte_buffer(&ms, stack + 5, 10, true), Some(vec![(stack + 5, 10)]));
    assert_eq!(
        translated_byte_buffer(&ms, stack + PAGE_SIZE - 2, 10, false),
        Some(vec![(stack + PAGE_SIZE - 2, 2), (stack + PAGE_SIZE, 8)])
    );
    assert_eq!(
        translated_byte_buffer(&ms, stack + 1, 2 * PAGE_SIZE + 1, true),
        Some(vec![
            (stack + 1, PAGE_SIZE - 1),
            (stack + PAGE_SIZE, PAGE_SIZE),
            (stack + 2 * PAGE_SIZE, 2),
        ])
    );
    assert_eq!(
        translated_byte_buffer(&ms, stack, PAGE_SIZE, true),
        Some(vec![(stack, PAGE_SIZE)])
    );
}

#[test]
fn byte_buffer_needs_every_byte_in_reach() {
    let ms = loaded(&[0; 10]);
    // Runs from the program over the guard page.
    assert_eq!(translated_byte_buffer(&ms, PAGE_SIZE - 4, 8, false), None);
    // The guard page alone.
    assert_eq!(translated_byte_buffer(&ms, PAGE_SIZE, 1, false), None);
    // Beyond the end of the address space.
    assert_eq!(translated_byte_buffer(&ms, usize::MAX - 1, 8, false), None);
    assert_eq!(translated_byte_buffer(&ms, usize::MAX, 1, true), None);
    // The kernel's pages.
    assert_eq!(translated_byte_buffer(&ms, (TRAMPOLINE_PAGE - 1) * PAGE_SIZE, 4, false), None);
    assert!(is_range_readable(&ms, 0, PAGE_SIZE));
    assert!(!is_range_readable(&ms, 0, PAGE_SIZE + 1));
    assert!(is_range_writable(&ms, 2 * PAGE_SIZE, USER_STACK_SIZE));
    assert!(!is_range_writable(&ms, 2 * PAGE_SIZE, USER_STACK_SIZE + 1));
}

#[test]
fn write_permission_is_needed_to_write() {
    let mut ms = MemorySet::new_bare();
    let read_only = MapPermission { read: true, write: false, execute: false, user: true };
    let write_only = MapPermission { read: false, write: true, execute: false, user: true };
    ms.insert_framed_area(1, 2, read_only);
    ms.insert_framed_area(2, 3, write_only);
    assert!(is_range_readable(&ms, PAGE_SIZE, PAGE_SIZE));
    assert!(!is_range_writable(&ms, PAGE_SIZE, 1));
    assert!(is_range_writable(&ms, 2 * PAGE_SIZE, PAGE_SIZE));
    assert!(!is_range_readable(&ms, 2 * PAGE_SIZE, 1));
    assert!(!ms.store_byte(PAGE_SIZE, 9));
    assert_eq!(ms.load_byte(PAGE_SIZE), Some(0));
    assert!(ms.store_byte(2 * PAGE_SIZE, 9));
    assert_eq!(ms.load_byte(2 * PAGE_SIZE), None);
    assert_eq!(ms.area(1).load(0), 9);
}

#[test]
fn copy_across_pages_and_regions() {
    let mut ms = MemorySet::new_bare();
    ms.insert_framed_area(5, 6, rw());
    ms.insert_framed_area(4, 5, rw());
    ms.insert_framed_area(6, 8, rw());
    let data: Vec<u8> = (0..3 * PAGE_SIZE).map(|i| (i % 253 + 1) as u8).collect();
    let ptr = 4 * PAGE_SIZE + 100;
    copy_to_user(&mut ms, ptr, &data);
    assert_eq!(copy_from_user(&ms, ptr, data.len()), data);
    // What lies around it is untouched.
    assert_eq!(ms.load_byte(ptr - 1), Some(0));
    assert_eq!(ms.load_byte(ptr + data.len()), Some(0));
    // Each region got its part.
    assert_eq!(ms.area(1).load(100), data[0]);
    assert_eq!(ms.area(0).load(0), data[PAGE_SIZE - 100]);
    assert_eq!(ms.area(2).load(0), data[2 * PAGE_SIZE - 100]);
    assert_eq!(ms.area(2).load(PAGE_SIZE + 99), data[3 * PAGE_SIZE - 1]);
}

#[test]
fn copy_of_nothing_changes_nothing() {
    let mut ms = loaded(&[1, 2, 3]);
    copy_to_user(&mut ms, 0, &vec![]);
    assert_eq!(copy_from_user(&ms, 0, 3), vec![1, 2, 3]);
    assert_eq!(copy_from_user(&ms, 0, 0), Vec::<u8>::new());
}

#[test]
fn string_is_read_up_to_the_zero_byte() {
    let ms = loaded(b"hello\0world\0\0tail");
    assert!(is_user_str(&ms, 0));
    assert_eq!(translated_str(&ms, 0), b"hello".to_vec());
    assert_eq!(translated_str(&ms, 3), b"lo".to_vec());
    assert_eq!(translated_str(&ms, 5), Vec::<u8>::new());
    assert_eq!(translated_str(&ms, 6), b"world".to_vec());
    assert_eq!(translated_str(&ms, 12), Vec::<u8>::new());
    // The bytes behind the image are zeros.
    assert_eq!(translated_str(&ms, 13), b"tail".to_vec());
}

#[test]
fn string_across_a_page_boundary() {
    let mut ms = loaded(&[0; 10]);
    let ptr = 3 * PAGE_SIZE - 3;
    copy_to_user(&mut ms, ptr, &b"abcdef\0".to_vec());
    assert!(is_user_str(&ms, ptr));
    assert_eq!(translated_str(&ms, ptr), b"abcdef".to_vec());
}

#[test]
fn string_without_end_is_no_string() {
    let mut ms = MemorySet::new_bare();
    ms.insert_framed_area(1, 2, rw());
    copy_to_user(&mut ms, PAGE_SIZE, &vec![b'x'; PAGE_SIZE]);
    assert!(!is_user_str(&ms, PAGE_SIZE));
    assert!(!is_user_str(&ms, 2 * PAGE_SIZE - 1));
    assert!(!is_user_str(&ms, 0));
    assert!(ms.store_byte(2 * PAGE_SIZE - 1, 0));
    assert!(is_user_str(&ms, PAGE_SIZE));
    assert_eq!(translated_str(&ms, PAGE_SIZE).len(), PAGE_SIZE - 1);
}

#[test]
fn string_in_unreadable_memory_is_no_string() {
    let mut ms = MemorySet::new_bare();
    let write_only = MapPermission { read: false, write: true, execute: false, user: true };
    ms.insert_framed_area(1, 2, write_only);
    assert!(!is_user_str(&ms, PAGE_SIZE));
    let ms = loaded(&[0; 10]);
    assert!(!is_user_str(&ms, (TRAMPOLINE_PAGE - 1) * PAGE_SIZE));
    assert!(!is_user_str(&ms, usize::MAX));
}

#[test]
fn duplicate_address_space_is_independent() {
    let mut ms = loaded(&[1, 2, 3]);
    ms.insert_framed_area(A / PAGE_SIZE, A / PAGE_SIZE + 1, rw());
    assert!(ms.store_byte(A, 42));
    let copy = ms.duplicate();
    assert_eq!(bounds(&copy), bounds(&ms));
    assert_eq!(copy.heap_bottom(), ms.heap_bottom());
    assert_eq!(copy.program_brk(), ms.program_brk());
    assert!(ms.store_byte(A, 43));
    assert!(ms.store_byte(0, 9));
    assert_eq!(copy.load_byte(A), Some(42));
    assert_eq!(copy.load_byte(0), Some(1));
    assert_eq!(ms.load_byte(A), Some(43));
}

#[test]
fn recycle_gives_up_all_regions() {
    let mut ms = loaded(&[1, 2, 3]);
    let brk = ms.program_brk();
    ms.recycle_data_pages();
    assert_eq!(ms.area_count(), 0);
    assert_eq!(ms.load_byte(0), None);
    assert_eq!(ms.program_brk(), brk);
}
