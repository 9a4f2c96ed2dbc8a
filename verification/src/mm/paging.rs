//! Encoding of x86-64 page-table entries and the boot page tables.

use vstd::prelude::*;
use crate::mm::phys_mem::{PhysMem, mem_write};
use crate::mm::frame_alloc::{zero_page4k, zero_page_spec};

verus! {

/// Entry maps a page or references a table.
pub const PG_PRESENT: u64 = 1;
/// Writes are allowed through this entry.
pub const PG_WRITEABLE: u64 = 2;
/// User-mode accesses are allowed through this entry.
pub const PG_USER: u64 = 4;
/// Page-level write-through.
pub const PG_CACHED: u64 = 8;
/// Execution is never disabled by the kernel: the flag is empty.
pub const PG_EXECUTABLE: u64 = 0;
/// Global mapping, kept across address-space switches.
pub const PG_GLOBAL: u64 = 256;
/// Page-size bit of a directory entry that maps a large page.
pub const PG_PAGE_SIZE: u64 = 128;

/// Bits 12..=51 of an entry: the physical address of a 4 KiB frame or table.
pub const ADDR_MASK: u64 = 0x000F_FFFF_FFFF_F000;
/// The address bits kept for a large-page directory entry (bits 13..=51).
pub const LARGE_ADDR_MASK: u64 = 0x000F_FFFF_FFFF_E000;

/// A PML4, directory-pointer or page-table entry for `physaddr` with `flags`.
pub open spec fn entry_spec(physaddr: u64, flags: u64) -> u64 {
    flags | (physaddr & ADDR_MASK)
}

/// A directory entry; with `ps` it maps a large page and carries the page-size bit.
pub open spec fn pde_spec(ps: bool, physaddr: u64, flags: u64) -> u64 {
    if ps {
        PG_PAGE_SIZE | flags | (physaddr & LARGE_ADDR_MASK)
    } else {
        flags | (physaddr & ADDR_MASK)
    }
}

/// Builds a PML4 entry from a table address and flag bits.
pub fn make_pml4e(physaddr: u64, flags: u64) -> (r: u64)
    ensures
        r == entry_spec(physaddr, flags),
{
    flags | (physaddr & ADDR_MASK)
}

/// Builds a page-directory-pointer-table entry.
pub fn make_pdpte(physaddr: u64, flags: u64) -> (r: u64)
    ensures
        r == entry_spec(physaddr, flags),
{
    flags | (physaddr & ADDR_MASK)
}

/// Builds a page-directory entry; `ps` selects a large-page mapping.
pub fn make_pde(ps: bool, physaddr: u64, flags: u64) -> (r: u64)
    ensures
        r == pde_spec(ps, physaddr, flags),
{
    if ps {
        PG_PAGE_SIZE | flags | (physaddr & LARGE_ADDR_MASK)
    } else {
        flags | (physaddr & ADDR_MASK)
    }
}

/// Builds a page-table entry that maps the 4 KiB frame at `physaddr`.
pub fn make_pte(physaddr: u64, flags: u64) -> (r: u64)
    ensures
        r == entry_spec(physaddr, flags),
{
    flags | (physaddr & ADDR_MASK)
}

/// An entry built from an address and flags that hold no address bits gives
/// back, under the address mask, the address, and outside it, the flags.
pub proof fn lemma_entry_round_trip(physaddr: u64, flags: u64)
    requires
        flags & ADDR_MASK == 0,
    ensures
        entry_spec(physaddr, flags) & ADDR_MASK == physaddr & ADDR_MASK,
        entry_spec(physaddr, flags) & !ADDR_MASK == flags,
        (entry_spec(physaddr, flags) & PG_PRESENT == PG_PRESENT) == (flags & PG_PRESENT == PG_PRESENT),
{
    assert((flags | (physaddr & 0x000F_FFFF_FFFF_F000u64)) & 0x000F_FFFF_FFFF_F000u64
        == physaddr & 0x000F_FFFF_FFFF_F000u64) by (bit_vector)
        requires flags & 0x000F_FFFF_FFFF_F000u64 == 0;
    assert((flags | (physaddr & 0x000F_FFFF_FFFF_F000u64)) & !0x000F_FFFF_FFFF_F000u64 == flags)
        by (bit_vector)
        requires flags & 0x000F_FFFF_FFFF_F000u64 == 0;
    assert((((flags | (physaddr & 0x000F_FFFF_FFFF_F000u64)) & 1u64) == 1u64) == ((flags & 1u64) == 1u64))
        by (bit_vector);
}

/// Physical address of the boot top-level table.
pub const BOOT_PML4: u64 = 0x10000;
/// Physical address of the boot directory-pointer table.
pub const BOOT_PDPT: u64 = 0x11000;
/// Physical address of the boot page directory.
pub const BOOT_PD: u64 = 0x12000;
/// Flags of the boot entries.
pub const BOOT_FLAGS: u64 = PG_PRESENT | PG_WRITEABLE | PG_EXECUTABLE;

/// Memory after the boot page tables are built: the three table pages
/// zeroed, the top-level and directory-pointer tables each referencing the
/// next table in their first entry, and the first four directory entries
/// mapping the first 8 MiB as 2 MiB pages.
pub open spec fn boot_tables_spec(m: Seq<u64>) -> Seq<u64> {
    let z = zero_page_spec(
        zero_page_spec(zero_page_spec(m, BOOT_PML4 as int), BOOT_PDPT as int),
        BOOT_PD as int,
    );
    let m1 = mem_write(z, BOOT_PML4 as int, entry_spec(BOOT_PDPT, BOOT_FLAGS));
    let m2 = mem_write(m1, BOOT_PDPT as int, entry_spec(BOOT_PD, BOOT_FLAGS));
    let m3 = mem_write(m2, BOOT_PD as int, pde_spec(true, 0, BOOT_FLAGS));
    let m4 = mem_write(m3, BOOT_PD + 8, pde_spec(true, 0x200000, BOOT_FLAGS));
    let m5 = mem_write(m4, BOOT_PD + 16, pde_spec(true, 0x400000, BOOT_FLAGS));
    mem_write(m5, BOOT_PD + 24, pde_spec(true, 0x600000, BOOT_FLAGS))
}

/// Builds the boot page tables in memory and gives the address of the
/// top-level table, for the caller to load into CR3.
pub fn init(mem: &mut PhysMem) -> (r: u64)
    ensures
        r == BOOT_PML4,
        final(mem)@ == boot_tables_spec(old(mem)@),
{
    let pml4_addr: u64 = BOOT_PML4;
    let pdpt_addr: u64 = pml4_addr + 4096;
    let pd_addr: u64 = pdpt_addr + 4096;
    zero_page4k(mem, pml4_addr);
    zero_page4k(mem, pdpt_addr);
    zero_page4k(mem, pd_addr);
    let pml4e = make_pml4e(pdpt_addr, BOOT_FLAGS);
    let pdpt = make_pdpte(pd_addr, BOOT_FLAGS);
    let pd1 = make_pde(true, 0, BOOT_FLAGS);
    let pd2 = make_pde(true, 0x200000, BOOT_FLAGS);
    let pd3 = make_pde(true, 0x400000, BOOT_FLAGS);
    let pd4 = make_pde(true, 0x600000, BOOT_FLAGS);
    mem.write(pml4_addr, pml4e);
    mem.write(pdpt_addr, pdpt);
    mem.write(pd_addr, pd1);
    mem.write(pd_addr + 8, pd2);
    mem.write(pd_addr + 16, pd3);
    mem.write(pd_addr + 24, pd4);
    pml4_addr
}

} // verus!
