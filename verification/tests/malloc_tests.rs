use yenx_kernel::mm::frame_alloc::FrameBitmap;
use yenx_kernel::mm::malloc::{kfree, kmalloc, translate_addr, HeapState};
use yenx_kernel::mm::paging::{init, make_pde, make_pte, BOOT_PML4};
use yenx_kernel::mm::phys_mem::PhysMem;

fn booted() -> PhysMem {
    let mut mem = PhysMem::new(0x800000 / 8);
    init(&mut mem);
    mem
}

#[test]
fn boot_tables_map_low_memory_to_itself() {
    let mem = booted();
    for pa in [0u64, 0x1000, 0x123456, 0x1F_FFFF, 0x20_0000, 0x7F_FFFF] {
        assert_eq!(translate_addr(&mem, BOOT_PML4, pa), pa);
    }
}

#[test]
fn unmapped_address_gives_zero() {
    let mem = booted();
    assert_eq!(translate_addr(&mem, BOOT_PML4, 0x80_0000), 0);
    assert_eq!(translate_addr(&mem, BOOT_PML4, 0x1_0000_0000), 0);
}

#[test]
fn search_through_a_page_table() {
    let mut mem = PhysMem::new(0x20000 / 8);
    // top-level entry 1 -> pdpt at 0x14000, entry 2 -> pd at 0x15000,
    // entry 3 -> pt at 0x16000, entry 5 maps frame 0x9000_0000
    mem.write(0x10000 + 8, 0x14003);
    mem.write(0x14000 + 16, 0x15003);
    mem.write(0x15000 + 24, make_pde(false, 0x16000, 3));
    mem.write(0x16000 + 40, make_pte(0x9000_0000, 3));
    let v = translate_addr(&mem, 0x10000, 0x9000_0123);
    assert_eq!(v, (1u64 << 39) | (2u64 << 30) | (3u64 << 21) | (5u64 << 12) | 0x123);
}

#[test]
fn search_finds_huge_page() {
    let mut mem = PhysMem::new(0x20000 / 8);
    mem.write(0x10000, 0x14003);
    mem.write(0x14000 + 8 * 3, 0x4000_0083);
    assert_eq!(translate_addr(&mem, 0x10000, 0x4000_1234), (3u64 << 30) | 0x1234);
}

#[test]
fn kmalloc_of_nothing_is_null() {
    let mut mem = booted();
    let mut bitmap = FrameBitmap::new();
    let mut heap = HeapState::new();
    assert!(kmalloc(&mut heap, &mut bitmap, &mut mem, BOOT_PML4, 0).is_none());
    assert!(!bitmap.is_used(0));
    assert_eq!(heap.pt_count, 0);
}

#[test]
fn kmalloc_maps_one_page_per_4k() {
    let mut mem = booted();
    let mut bitmap = FrameBitmap::new();
    let mut heap = HeapState::new();
    let a = kmalloc(&mut heap, &mut bitmap, &mut mem, BOOT_PML4, 4000).unwrap();
    assert_eq!(a.total_size, 4096 + 8);
    // the heap directory is unset, so entries go to address 0 and the frame
    // is not found under any mapping
    assert_eq!(a.header_addr, 0);
    assert_eq!(a.ptr, 8);
    assert!(bitmap.is_used(0));
    assert!(!bitmap.is_used(1));
    assert_eq!(heap.pt_count, 1);
    assert_eq!(mem.words()[0], 0x800003);

    let b = kmalloc(&mut heap, &mut bitmap, &mut mem, BOOT_PML4, 8193).unwrap();
    assert_eq!(b.total_size, 3 * 4096 + 8);
    assert!(bitmap.is_used(1) && bitmap.is_used(2) && bitmap.is_used(3));
    assert!(!bitmap.is_used(4));
    assert_eq!(heap.pt_count, 4);
    assert_eq!(mem.words()[1], 0x801003);
    assert_eq!(mem.words()[3], 0x803003);
}

#[test]
fn kmalloc_header_address_is_the_mapped_frame() {
    let mut mem = booted();
    // point the heap directory (second entry of the pdpt) at 0x13000
    mem.write(0x11008, 0x13003);
    let mut bitmap = FrameBitmap::new();
    let mut heap = HeapState { pt_current: 0x14000, pde_count: 0, pt_count: 0 };
    let a = kmalloc(&mut heap, &mut bitmap, &mut mem, BOOT_PML4, 100).unwrap();
    // pd entry 0 of 0x13000 now references the table at 0x14000 whose
    // entry 0 maps frame 0x800000: virtual (1 << 30)
    assert_eq!(mem.words()[0x13000 / 8], make_pde(false, 0x14000, 3));
    assert_eq!(mem.words()[0x14000 / 8], 0x800003);
    assert_eq!(a.header_addr, 1u64 << 30);
    assert_eq!(a.ptr, (1u64 << 30) + 8);
}

#[test]
fn kfree_unmaps_and_frees_what_kmalloc_mapped() {
    let mut mem = booted();
    let mut bitmap = FrameBitmap::new();
    let mut heap = HeapState::new();
    let a = kmalloc(&mut heap, &mut bitmap, &mut mem, BOOT_PML4, 10).unwrap();
    assert!(bitmap.is_used(0));
    kfree(&mut bitmap, &mut mem, BOOT_PML4, a.ptr, a.total_size);
    assert!(!bitmap.is_used(0));
    assert_eq!(mem.words()[0], 0);
}

#[test]
fn kfree_of_null_does_nothing() {
    let mut mem = booted();
    let mut bitmap = FrameBitmap::new();
    let mut heap = HeapState::new();
    kmalloc(&mut heap, &mut bitmap, &mut mem, BOOT_PML4, 10).unwrap();
    kfree(&mut bitmap, &mut mem, BOOT_PML4, 0, 4104);
    assert!(bitmap.is_used(0));
}

#[test]
fn kfree_undoes_a_one_page_kmalloc_through_the_heap_directory() {
    let mut mem = booted();
    mem.write(0x11008, 0x13003);
    let mut bitmap = FrameBitmap::new();
    let mut heap = HeapState { pt_current: 0x14000, pde_count: 0, pt_count: 0 };
    let a = kmalloc(&mut heap, &mut bitmap, &mut mem, BOOT_PML4, 4096).unwrap();
    assert!(bitmap.is_used(0));
    assert_eq!(mem.words()[0x14000 / 8], 0x800003);
    kfree(&mut bitmap, &mut mem, BOOT_PML4, a.ptr, a.total_size);
    assert!(!bitmap.is_used(0));
    assert_eq!(mem.words()[0x14000 / 8], 0);
    assert_eq!(mem.words()[0x13000 / 8], make_pde(false, 0x14000, 3));
}

#[test]
fn kfree_undoes_a_three_page_kmalloc_through_the_heap_directory() {
    let mut mem = booted();
    mem.write(0x11008, 0x13003);
    let mut bitmap = FrameBitmap::new();
    let mut heap = HeapState { pt_current: 0x14000, pde_count: 0, pt_count: 0 };
    let a = kmalloc(&mut heap, &mut bitmap, &mut mem, BOOT_PML4, 8193).unwrap();
    assert_eq!(a.total_size, 3 * 4096 + 8);
    for k in 0..3 {
        assert!(bitmap.is_used(k));
    }
    assert!(!bitmap.is_used(3));
    assert_eq!(mem.words()[0x14000 / 8], 0x800003);
    assert_eq!(mem.words()[0x14008 / 8], 0x801003);
    assert_eq!(mem.words()[0x14010 / 8], 0x802003);
    kfree(&mut bitmap, &mut mem, BOOT_PML4, a.ptr, a.total_size);
    for k in 0..3 {
        assert!(!bitmap.is_used(k));
    }
    assert_eq!(mem.words()[0x14000 / 8], 0);
    assert_eq!(mem.words()[0x14008 / 8], 0);
    assert_eq!(mem.words()[0x14010 / 8], 0);
    assert_eq!(mem.words()[0x13000 / 8], make_pde(false, 0x14000, 3));
}

#[test]
fn search_accepts_any_root_below_the_top() {
    let mem = PhysMem::new(16);
    assert_eq!(translate_addr(&mem, u64::MAX - 4095, 0x1000), 0);
}
