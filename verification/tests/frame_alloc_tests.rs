use yenx_kernel::mm::frame_alloc::{
    alloc_frame, dealloc_frame, init_bitmap, zero_page4k, FrameBitmap, FRAME_BASE,
};
use yenx_kernel::mm::phys_mem::PhysMem;

#[test]
fn allocates_lowest_free_frames_in_order() {
    let mut b = FrameBitmap::new();
    assert_eq!(alloc_frame(&mut b), 0x800000);
    assert_eq!(alloc_frame(&mut b), 0x801000);
    assert_eq!(alloc_frame(&mut b), 0x802000);
    assert!(b.is_used(0) && b.is_used(1) && b.is_used(2));
    assert!(!b.is_used(3));
}

#[test]
fn allocation_crosses_bitmap_bytes() {
    let mut b = FrameBitmap::new();
    for k in 0..9u64 {
        assert_eq!(alloc_frame(&mut b), FRAME_BASE + k * 4096);
    }
    assert!(b.is_used(8));
    assert!(!b.is_used(9));
}

#[test]
fn freed_frame_is_handed_out_again() {
    let mut b = FrameBitmap::new();
    let f0 = alloc_frame(&mut b);
    let f1 = alloc_frame(&mut b);
    let f2 = alloc_frame(&mut b);
    assert_ne!(f0, f1);
    dealloc_frame(&mut b, f1);
    assert!(!b.is_used(1));
    assert!(b.is_used(0) && b.is_used(2));
    assert_eq!(alloc_frame(&mut b), f1);
    assert_eq!(alloc_frame(&mut b), f2 + 4096);
}

#[test]
fn dealloc_ignores_addresses_outside_the_bitmap() {
    let mut b = FrameBitmap::new();
    alloc_frame(&mut b);
    dealloc_frame(&mut b, 0x1000);
    dealloc_frame(&mut b, FRAME_BASE + 131696 * 4096);
    assert!(b.is_used(0));
}

#[test]
fn init_bitmap_frees_everything() {
    let mut b = FrameBitmap::new();
    alloc_frame(&mut b);
    alloc_frame(&mut b);
    init_bitmap(&mut b);
    assert!(!b.is_used(0) && !b.is_used(1));
    assert_eq!(alloc_frame(&mut b), 0x800000);
}

#[test]
fn zero_page_clears_exactly_one_page() {
    let mut mem = PhysMem::from_words(vec![7u64; 1536]);
    zero_page4k(&mut mem, 4096);
    let w = mem.words();
    assert_eq!(w[511], 7);
    assert!(w[512..1024].iter().all(|&x| x == 0));
    assert_eq!(w[1024], 7);
}
