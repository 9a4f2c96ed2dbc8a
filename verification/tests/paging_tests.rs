use yenx_kernel::mm::paging::{
    make_pde, make_pdpte, make_pml4e, make_pte, init, BOOT_PML4, PG_PRESENT, PG_WRITEABLE,
    PG_EXECUTABLE, ADDR_MASK,
};
use yenx_kernel::mm::phys_mem::PhysMem;

const FLAGS: u64 = PG_PRESENT | PG_WRITEABLE | PG_EXECUTABLE;

#[test]
fn table_entries_keep_address_bits_and_flags() {
    assert_eq!(make_pml4e(0x11000, FLAGS), 0x11003);
    assert_eq!(make_pdpte(0x12000, FLAGS), 0x12003);
    assert_eq!(make_pte(0x800000, FLAGS), 0x800003);
    assert_eq!(make_pte(0xFFFF_FFFF_FFFF_FFFF, 0), ADDR_MASK);
    assert_eq!(make_pte(0x1234_5678, FLAGS), 0x1234_5003);
}

#[test]
fn directory_entry_for_large_page_sets_page_size_bit() {
    assert_eq!(make_pde(true, 0x200000, FLAGS), 0x200083);
    assert_eq!(make_pde(true, 0, FLAGS), 0x83);
    // the large-page mask keeps bit 12
    assert_eq!(make_pde(true, 0x1000, FLAGS), 0x83);
    assert_eq!(make_pde(true, 0x2000, FLAGS), 0x2083);
    assert_eq!(make_pde(false, 0x1000, FLAGS), 0x1003);
}

#[test]
fn entry_round_trip_on_values() {
    let e = make_pte(0xABC_DEF0_1000, 0x7);
    assert_eq!(e & ADDR_MASK, 0xABC_DEF0_1000);
    assert_eq!(e & !ADDR_MASK, 0x7);
}

#[test]
fn boot_tables_are_written() {
    let mut mem = PhysMem::new(0x14000 / 8);
    let root = init(&mut mem);
    assert_eq!(root, BOOT_PML4);
    let w = mem.words();
    assert_eq!(w[0x10000 / 8], 0x11003);
    assert_eq!(w[0x11000 / 8], 0x12003);
    assert_eq!(w[0x12000 / 8], 0x83);
    assert_eq!(w[0x12008 / 8], 0x200083);
    assert_eq!(w[0x12010 / 8], 0x400083);
    assert_eq!(w[0x12018 / 8], 0x600083);
    assert_eq!(w[0x12020 / 8], 0);
    assert_eq!(w[0x10008 / 8], 0);
}

#[test]
fn memory_read_gives_back_write() {
    let mut mem = PhysMem::new(16);
    mem.write(24, 0xDEAD);
    assert_eq!(mem.read(24), 0xDEAD);
    assert_eq!(mem.read(27), 0xDEAD);
    assert_eq!(mem.read(16), 0);
    mem.write(128, 5);
    assert_eq!(mem.read(128), 0);
    assert_eq!(mem.words().len(), 16);
}
