//! The page-granular kernel heap and the search of the page tables for the
//! virtual address of a physical one.

use vstd::prelude::*;
use crate::mm::phys_mem::{PhysMem, mem_read, mem_write};
use crate::mm::paging::{
    BOOT_PML4, BOOT_PDPT, BOOT_PD, BOOT_FLAGS, boot_tables_spec, ADDR_MASK, PG_PRESENT, PG_WRITEABLE, PG_EXECUTABLE, entry_spec, pde_spec, make_pde, make_pte,
};
use crate::mm::frame_alloc::{
    FrameBitmap, alloc_frame, alloc_frame_spec, dealloc_frame, frame_index_of, zero_page4k,
    zero_page_spec, FRAME_BASE, FRAME_COUNT, frame_address,
};

verus! {

/// Address bits of a directory-pointer entry that maps a 1 GiB page.
pub const HUGE_ADDR_MASK: u64 = 0x000F_FFFF_C000_0000;
/// Address bits of a directory entry that maps a 2 MiB page.
pub const LARGE_ADDR_MASK_2M: u64 = 0x000F_FFFF_FFE0_0000;
/// Entries per table.
pub const ENTRIES: u64 = 512;

/// Whether an entry is present.
pub open spec fn present(e: u64) -> bool {
    e & 1u64 != 0
}

/// Whether a directory entry maps a page instead of referencing a table.
pub open spec fn maps_page(e: u64) -> bool {
    e & 0x80u64 != 0
}

/// The first virtual address found in the page table at `pt_base`, from
/// entry `idx` on, whose 4 KiB page holds `pa`; `prefix` carries the
/// address bits of the upper levels.
pub open spec fn pt_search(m: Seq<u64>, pt_base: u64, pa: u64, prefix: u64, idx: int) -> Option<u64>
    decreases 512 - idx,
{
    if idx < 0 || idx >= 512 {
        None
    } else {
        let pte = mem_read(m, pt_base + idx * 8);
        let page_base = pte & ADDR_MASK;
        if present(pte) && page_base <= pa && pa < page_base + 0x1000 {
            Some(prefix | ((idx as u64) << 12u64) | (pa & 0xFFFu64))
        } else {
            pt_search(m, pt_base, pa, prefix, idx + 1)
        }
    }
}

/// The search of a page directory from entry `idx` on: a 2 MiB page that
/// holds `pa`, or a hit in the page table an entry references.
pub open spec fn pd_search(m: Seq<u64>, pd_base: u64, pa: u64, prefix: u64, idx: int) -> Option<u64>
    decreases 512 - idx,
{
    if idx < 0 || idx >= 512 {
        None
    } else {
        let pde = mem_read(m, pd_base + idx * 8);
        if !present(pde) {
            pd_search(m, pd_base, pa, prefix, idx + 1)
        } else if maps_page(pde) {
            let page_base = pde & LARGE_ADDR_MASK_2M;
            if page_base <= pa && pa < page_base + 0x20_0000 {
                Some(prefix | ((idx as u64) << 21u64) | ((pa - page_base) as u64))
            } else {
                pd_search(m, pd_base, pa, prefix, idx + 1)
            }
        } else {
            match pt_search(m, pde & ADDR_MASK, pa, prefix | ((idx as u64) << 21u64), 0) {
                Some(v) => Some(v),
                None => pd_search(m, pd_base, pa, prefix, idx + 1),
            }
        }
    }
}

/// The search of a page-directory-pointer table from entry `idx` on: a
/// 1 GiB page that holds `pa`, or a hit in a page directory.
pub open spec fn pdpt_search(m: Seq<u64>, pdpt_base: u64, pa: u64, prefix: u64, idx: int) -> Option<
    u64,
>
    decreases 512 - idx,
{
    if idx < 0 || idx >= 512 {
        None
    } else {
        let pdpte = mem_read(m, pdpt_base + idx * 8);
        if !present(pdpte) {
            pdpt_search(m, pdpt_base, pa, prefix, idx + 1)
        } else if maps_page(pdpte) {
            let page_base = pdpte & HUGE_ADDR_MASK;
            if page_base <= pa && pa < page_base + 0x4000_0000 {
                Some(prefix | ((idx as u64) << 30u64) | ((pa - page_base) as u64))
            } else {
                pdpt_search(m, pdpt_base, pa, prefix, idx + 1)
            }
        } else {
            match pd_search(m, pdpte & ADDR_MASK, pa, prefix | ((idx as u64) << 30u64), 0) {
                Some(v) => Some(v),
                None => pdpt_search(m, pdpt_base, pa, prefix, idx + 1),
            }
        }
    }
}

/// The search of the top-level table from entry `idx` on.
pub open spec fn pml4_search(m: Seq<u64>, pml4_base: u64, pa: u64, idx: int) -> Option<u64>
    decreases 512 - idx,
{
    if idx < 0 || idx >= 512 {
        None
    } else {
        let pml4e = mem_read(m, pml4_base + idx * 8);
        if !present(pml4e) {
            pml4_search(m, pml4_base, pa, idx + 1)
        } else {
            match pdpt_search(m, pml4e & ADDR_MASK, pa, (idx as u64) << 39u64, 0) {
                Some(v) => Some(v),
                None => pml4_search(m, pml4_base, pa, idx + 1),
            }
        }
    }
}

/// The virtual address under which the page tables rooted at `pml4_base`
/// first map physical address `pa`, entries taken in table order; 0 when
/// no mapping holds it.
pub open spec fn translate_spec(m: Seq<u64>, pml4_base: u64, pa: u64) -> u64 {
    match pml4_search(m, pml4_base, pa, 0) {
        Some(v) => v,
        None => 0,
    }
}

proof fn lemma_masked_below(e: u64)
    ensures
        e & ADDR_MASK <= ADDR_MASK,
        e & HUGE_ADDR_MASK <= HUGE_ADDR_MASK,
        e & LARGE_ADDR_MASK_2M <= LARGE_ADDR_MASK_2M,
        (e & ADDR_MASK) % 8 == 0,
{
    assert(e & 0x000F_FFFF_FFFF_F000u64 <= 0x000F_FFFF_FFFF_F000u64 && e & 0x000F_FFFF_C000_0000u64
        <= 0x000F_FFFF_C000_0000u64 && e & 0x000F_FFFF_FFE0_0000u64 <= 0x000F_FFFF_FFE0_0000u64
        && (e & 0x000F_FFFF_FFFF_F000u64) % 8 == 0) by (bit_vector);
}

fn search_pt(mem: &PhysMem, pt_base: u64, pa: u64, prefix: u64) -> (r: Option<u64>)
    requires
        pt_base <= ADDR_MASK,
    ensures
        r == pt_search(mem@, pt_base, pa, prefix, 0),
{
    let mut idx: u64 = 0;
    while idx < ENTRIES
        invariant
            idx <= 512,
            pt_base <= ADDR_MASK,
            pt_search(mem@, pt_base, pa, prefix, 0) == pt_search(mem@, pt_base, pa, prefix, idx as int),
        decreases 512 - idx,
    {
        let pte = mem.read(pt_base + idx * 8);
        if pte & 1 != 0 {
            let page_base = pte & ADDR_MASK;
            proof {
                lemma_masked_below(pte);
            }
            if pa >= page_base && pa < page_base + 0x1000 {
                return Some(prefix | (idx << 12) | (pa & 0xFFF));
            }
        }
        idx = idx + 1;
    }
    None
}

fn search_pd(mem: &PhysMem, pd_base: u64, pa: u64, prefix: u64) -> (r: Option<u64>)
    requires
        pd_base <= ADDR_MASK,
    ensures
        r == pd_search(mem@, pd_base, pa, prefix, 0),
{
    let mut idx: u64 = 0;
    while idx < ENTRIES
        invariant
            idx <= 512,
            pd_base <= ADDR_MASK,
            pd_search(mem@, pd_base, pa, prefix, 0) == pd_search(mem@, pd_base, pa, prefix, idx as int),
        decreases 512 - idx,
    {
        let pde = mem.read(pd_base + idx * 8);
        proof {
            lemma_masked_below(pde);
        }
        if pde & 1 != 0 {
            if pde & 0x80 != 0 {
                let page_base = pde & LARGE_ADDR_MASK_2M;
                if pa >= page_base && pa < page_base + 0x20_0000 {
                    return Some(prefix | (idx << 21) | (pa - page_base));
                }
            } else {
                let found = search_pt(mem, pde & ADDR_MASK, pa, prefix | (idx << 21));
                if found.is_some() {
                    return found;
                }
            }
        }
        idx = idx + 1;
    }
    None
}

fn search_pdpt(mem: &PhysMem, pdpt_base: u64, pa: u64, prefix: u64) -> (r: Option<u64>)
    requires
        pdpt_base <= ADDR_MASK,
    ensures
        r == pdpt_search(mem@, pdpt_base, pa, prefix, 0),
{
    let mut idx: u64 = 0;
    while idx < ENTRIES
        invariant
            idx <= 512,
            pdpt_base <= ADDR_MASK,
            pdpt_search(mem@, pdpt_base, pa, prefix, 0) == pdpt_search(
                mem@,
                pdpt_base,
                pa,
                prefix,
                idx as int,
            ),
        decreases 512 - idx,
    {
        let pdpte = mem.read(pdpt_base + idx * 8);
        proof {
            lemma_masked_below(pdpte);
        }
        if pdpte & 1 != 0 {
            if pdpte & 0x80 != 0 {
                let page_base = pdpte & HUGE_ADDR_MASK;
                if pa >= page_base && pa < page_base + 0x4000_0000 {
                    return Some(prefix | (idx << 30) | (pa - page_base));
                }
            } else {
                let found = search_pd(mem, pdpte & ADDR_MASK, pa, prefix | (idx << 30));
                if found.is_some() {
                    return found;
                }
            }
        }
        idx = idx + 1;
    }
    None
}

/// Searches the page tables rooted at `pml4_base` for a mapping that holds
/// physical address `physaddr` and returns the virtual address it has
/// there; 0 when none does.
pub fn translate_addr(mem: &PhysMem, pml4_base: u64, physaddr: u64) -> (r: u64)
    requires
        pml4_base + 511 * 8 <= u64::MAX,
    ensures
        r == translate_spec(mem@, pml4_base, physaddr),
{
    let mut idx: u64 = 0;
    while idx < ENTRIES
        invariant
            idx <= 512,
            pml4_base + 511 * 8 <= u64::MAX,
            pml4_search(mem@, pml4_base, physaddr, 0) == pml4_search(
                mem@,
                pml4_base,
                physaddr,
                idx as int,
            ),
        decreases 512 - idx,
    {
        let pml4e = mem.read(pml4_base + idx * 8);
        proof {
            lemma_masked_below(pml4e);
        }
        if pml4e & 1 != 0 {
            match search_pdpt(mem, pml4e & ADDR_MASK, physaddr, idx << 39) {
                Some(v) => {
                    return v;
                },
                None => {},
            }
        }
        idx = idx + 1;
    }
    0
}

/// Flags of the entries the heap writes.
pub const HEAP_FLAGS: u64 = PG_PRESENT | PG_WRITEABLE | PG_EXECUTABLE;
/// Bytes of a heap page.
pub const PAGE_SIZE: u64 = 4096;
/// Bytes of the size header in front of each block.
pub const HEADER_SIZE: u64 = 8;

/// Where the heap maps its next page: the page table it fills, the
/// directory entry that references it, and the entries used in it.
#[derive(Clone, Copy, Debug)]
pub struct HeapState {
    pub pt_current: usize,
    pub pde_count: usize,
    pub pt_count: usize,
}

impl HeapState {
    /// The state before the first allocation.
    pub fn new() -> (r: Self)
        ensures
            r.pt_current == 0,
            r.pde_count == 0,
            r.pt_count == 0,
    {
        HeapState { pt_current: 0, pde_count: 0, pt_count: 0 }
    }
}

/// A block handed out by `kmalloc`: the header word (the block's size in
/// bytes, header included) belongs at `header_addr`, and the caller's
/// memory starts at `ptr`, just after it.
#[derive(Clone, Copy, Debug)]
pub struct Allocation {
    pub ptr: u64,
    pub header_addr: u64,
    pub total_size: u64,
}

/// Pages needed for `size` bytes.
pub open spec fn pages_for(size: int) -> int {
    if size % 4096 != 0 {
        size / 4096 + 1
    } else {
        size / 4096
    }
}

/// The physical address of the page directory the heap fills: the one
/// referenced by the second entry of the table after the top-level one.
pub open spec fn heap_pd_base(m: Seq<u64>, pml4: u64) -> u64 {
    mem_read(m, pml4 + 4096 + 8) & ADDR_MASK
}

/// The heap state with room for one more entry in the current page table:
/// a full table moves the heap on to a fresh table and directory entry.
pub open spec fn heap_slot(h: HeapState) -> HeapState {
    if h.pt_count == 512 {
        HeapState {
            pt_current: (h.pt_current + 4096) as usize,
            pde_count: (h.pde_count + 1) as usize,
            pt_count: 0,
        }
    } else {
        h
    }
}

/// The address at which `map_step` stores the entry of the frame it maps:
/// the first entry of a table it has just started, or the next entry of
/// the current one.
pub open spec fn map_step_pte_addr(h: HeapState, m: Seq<u64>, pml4: u64) -> int {
    let h1 = heap_slot(h);
    if mem_read(m, heap_pd_base(m, pml4) + h1.pde_count * 8) == 0 {
        h1.pt_current as int
    } else {
        h1.pt_current + h1.pt_count * 8
    }
}

/// Mapping one more heap page: a frame is taken, a fresh page table is
/// started when the current one is full, and the frame is entered in it;
/// a directory entry still empty is first pointed at a zeroed table.
/// Gives the frames, heap state, memory and the frame mapped.
pub open spec fn map_step(frames: Seq<bool>, h: HeapState, m: Seq<u64>, pml4: u64) -> (
    Seq<bool>,
    HeapState,
    Seq<u64>,
    u64,
) {
    let (frames1, frame) = alloc_frame_spec(frames);
    let pd_base = heap_pd_base(m, pml4);
    let h1 = heap_slot(h);
    let pde_addr = pd_base + h1.pde_count * 8;
    let h2 = HeapState { pt_count: (h1.pt_count + 1) as usize, ..h1 };
    if mem_read(m, pde_addr) == 0 {
        let m1 = mem_write(m, pde_addr, pde_spec(false, h1.pt_current as u64, HEAP_FLAGS));
        let m2 = zero_page_spec(m1, h1.pt_current as int);
        let m3 = mem_write(m2, h1.pt_current as int, entry_spec(frame, HEAP_FLAGS));
        (frames1, h2, m3, frame)
    } else {
        let m1 = mem_write(
            m,
            h1.pt_current + h1.pt_count * 8,
            entry_spec(frame, HEAP_FLAGS),
        );
        (frames1, h2, m1, frame)
    }
}

/// The frames, heap state and memory after mapping `n` heap pages.
pub open spec fn map_pages(frames: Seq<bool>, h: HeapState, m: Seq<u64>, pml4: u64, n: nat) -> (
    Seq<bool>,
    HeapState,
    Seq<u64>,
)
    decreases n,
{
    if n == 0 {
        (frames, h, m)
    } else {
        let prev = map_pages(frames, h, m, pml4, (n - 1) as nat);
        let next = map_step(prev.0, prev.1, prev.2, pml4);
        (next.0, next.1, next.2)
    }
}

/// Mapping `pages` more pages keeps the heap's arithmetic in range: the
/// directory-entry count, the page-table address (with the page after it)
/// and the directory-entry address, for any directory address an entry can
/// hold.
pub open spec fn heap_has_room(h: HeapState, pages: int) -> bool {
    &&& h.pt_count <= 512
    &&& h.pde_count + pages <= usize::MAX
    &&& ADDR_MASK + (h.pde_count + pages) * 8 <= u64::MAX
    &&& h.pt_current + 4096 * (pages + 1) <= usize::MAX
}

proof fn lemma_or_below(a: u64, b: u64)
    requires
        a < 0x1_0000_0000_0000u64,
        b < 0x1_0000_0000_0000u64,
    ensures
        a | b < 0x1_0000_0000_0000u64,
{
    assert(a | b < 0x1_0000_0000_0000u64) by (bit_vector)
        requires
            a < 0x1_0000_0000_0000u64,
            b < 0x1_0000_0000_0000u64,
    ;
}

proof fn lemma_shift_below(i: u64, s: u64)
    requires
        i < 512,
        s <= 39,
    ensures
        i << s < 0x1_0000_0000_0000u64,
        s == 12 ==> i << s < 0x20_0000u64,
{
    assert(i << s < 0x1_0000_0000_0000u64) by (bit_vector)
        requires
            i < 512u64,
            s <= 39u64,
    ;
    assert(s == 12 ==> i << s < 0x20_0000u64) by (bit_vector)
        requires
            i < 512u64,
    ;
}

proof fn lemma_pt_search_below(m: Seq<u64>, base: u64, pa: u64, prefix: u64, idx: int)
    requires
        prefix < 0x1_0000_0000_0000u64,
    ensures
        pt_search(m, base, pa, prefix, idx) matches Some(v) ==> v < 0x1_0000_0000_0000u64,
    decreases 512 - idx,
{
    if 0 <= idx < 512 {
        lemma_shift_below(idx as u64, 12);
        lemma_or_below(prefix, (idx as u64) << 12u64);
        assert(pa & 0xFFFu64 <= 0xFFFu64) by (bit_vector);
        lemma_or_below(prefix | ((idx as u64) << 12u64), pa & 0xFFFu64);
        lemma_pt_search_below(m, base, pa, prefix, idx + 1);
    }
}

proof fn lemma_pd_search_below(m: Seq<u64>, base: u64, pa: u64, prefix: u64, idx: int)
    requires
        prefix < 0x1_0000_0000_0000u64,
    ensures
        pd_search(m, base, pa, prefix, idx) matches Some(v) ==> v < 0x1_0000_0000_0000u64,
    decreases 512 - idx,
{
    if 0 <= idx < 512 {
        let pde = mem_read(m, base + idx * 8);
        lemma_shift_below(idx as u64, 21);
        lemma_or_below(prefix, (idx as u64) << 21u64);
        let page_base = pde & LARGE_ADDR_MASK_2M;
        if page_base <= pa && pa < page_base + 0x20_0000 {
            lemma_or_below(prefix | ((idx as u64) << 21u64), (pa - page_base) as u64);
        }
        lemma_pt_search_below(m, pde & ADDR_MASK, pa, prefix | ((idx as u64) << 21u64), 0);
        lemma_pd_search_below(m, base, pa, prefix, idx + 1);
    }
}

proof fn lemma_pdpt_search_below(m: Seq<u64>, base: u64, pa: u64, prefix: u64, idx: int)
    requires
        prefix < 0x1_0000_0000_0000u64,
    ensures
        pdpt_search(m, base, pa, prefix, idx) matches Some(v) ==> v < 0x1_0000_0000_0000u64,
    decreases 512 - idx,
{
    if 0 <= idx < 512 {
        let pdpte = mem_read(m, base + idx * 8);
        lemma_shift_below(idx as u64, 30);
        lemma_or_below(prefix, (idx as u64) << 30u64);
        let page_base = pdpte & HUGE_ADDR_MASK;
        if page_base <= pa && pa < page_base + 0x4000_0000 {
            lemma_or_below(prefix | ((idx as u64) << 30u64), (pa - page_base) as u64);
        }
        lemma_pd_search_below(m, pdpte & ADDR_MASK, pa, prefix | ((idx as u64) << 30u64), 0);
        lemma_pdpt_search_below(m, base, pa, prefix, idx + 1);
    }
}

proof fn lemma_pml4_search_below(m: Seq<u64>, base: u64, pa: u64, idx: int)
    ensures
        pml4_search(m, base, pa, idx) matches Some(v) ==> v < 0x1_0000_0000_0000u64,
    decreases 512 - idx,
{
    if 0 <= idx < 512 {
        let pml4e = mem_read(m, base + idx * 8);
        lemma_shift_below(idx as u64, 39);
        lemma_pdpt_search_below(m, pml4e & ADDR_MASK, pa, (idx as u64) << 39u64, 0);
        lemma_pml4_search_below(m, base, pa, idx + 1);
    }
}

/// Every address the search gives lies below 2^48.
pub proof fn lemma_translate_below(m: Seq<u64>, pml4_base: u64, pa: u64)
    ensures
        translate_spec(m, pml4_base, pa) < 0x1_0000_0000_0000u64,
{
    lemma_pml4_search_below(m, pml4_base, pa, 0);
}

/// The page-table search finds a hit whenever an entry at or after where
/// it starts is present and maps the 4 KiB page holding `pa`.
proof fn lemma_pt_search_complete(m: Seq<u64>, base: u64, pa: u64, prefix: u64, idx: int, t: int)
    requires
        0 <= idx <= t < 512,
        present(mem_read(m, base + t * 8)),
        mem_read(m, base + t * 8) & ADDR_MASK <= pa < (mem_read(m, base + t * 8) & ADDR_MASK)
            + 0x1000,
    ensures
        pt_search(m, base, pa, prefix, idx) is Some,
    decreases t - idx,
{
    if idx < t {
        lemma_pt_search_complete(m, base, pa, prefix, idx + 1, t);
    }
}

/// The directory search finds a hit whenever an entry at or after where it
/// starts references a page table whose search has one.
proof fn lemma_pd_search_complete(m: Seq<u64>, base: u64, pa: u64, prefix: u64, idx: int, d: int)
    requires
        0 <= idx <= d < 512,
        present(mem_read(m, base + d * 8)),
        !maps_page(mem_read(m, base + d * 8)),
        pt_search(
            m,
            mem_read(m, base + d * 8) & ADDR_MASK,
            pa,
            prefix | ((d as u64) << 21u64),
            0,
        ) is Some,
    ensures
        pd_search(m, base, pa, prefix, idx) is Some,
    decreases d - idx,
{
    if idx < d {
        lemma_pd_search_complete(m, base, pa, prefix, idx + 1, d);
    }
}

/// The directory-pointer search finds a hit whenever an entry at or after
/// where it starts references a directory whose search has one.
proof fn lemma_pdpt_search_complete(
    m: Seq<u64>,
    base: u64,
    pa: u64,
    prefix: u64,
    idx: int,
    b: int,
)
    requires
        0 <= idx <= b < 512,
        present(mem_read(m, base + b * 8)),
        !maps_page(mem_read(m, base + b * 8)),
        pd_search(
            m,
            mem_read(m, base + b * 8) & ADDR_MASK,
            pa,
            prefix | ((b as u64) << 30u64),
            0,
        ) is Some,
    ensures
        pdpt_search(m, base, pa, prefix, idx) is Some,
    decreases b - idx,
{
    if idx < b {
        lemma_pdpt_search_complete(m, base, pa, prefix, idx + 1, b);
    }
}

/// The top-level search finds a hit whenever an entry at or after where it
/// starts references a directory-pointer table whose search has one.
proof fn lemma_pml4_search_complete(m: Seq<u64>, base: u64, pa: u64, idx: int, a: int)
    requires
        0 <= idx <= a < 512,
        present(mem_read(m, base + a * 8)),
        pdpt_search(m, mem_read(m, base + a * 8) & ADDR_MASK, pa, (a as u64) << 39u64, 0) is Some,
    ensures
        pml4_search(m, base, pa, idx) is Some,
    decreases a - idx,
{
    if idx < a {
        lemma_pml4_search_complete(m, base, pa, idx + 1, a);
    }
}

/// The search misses no mapping: when entry `a` of the top-level table,
/// entry `b` of the directory-pointer table it references, entry `d` of
/// the directory that references and entry `t` of the page table that
/// references are all present, the middle two reference tables, and the
/// last maps the 4 KiB page holding `pa`, the search finds a virtual
/// address for `pa`, whatever the entries before them hold.
pub proof fn lemma_translate_finds_mapped(
    m: Seq<u64>,
    pml4_base: u64,
    pa: u64,
    a: int,
    b: int,
    d: int,
    t: int,
)
    requires
        0 <= a < 512,
        0 <= b < 512,
        0 <= d < 512,
        0 <= t < 512,
        ({
            let pml4e = mem_read(m, pml4_base + a * 8);
            let pdpte = mem_read(m, (pml4e & ADDR_MASK) + b * 8);
            let pde = mem_read(m, (pdpte & ADDR_MASK) + d * 8);
            let pte = mem_read(m, (pde & ADDR_MASK) + t * 8);
            &&& present(pml4e)
            &&& present(pdpte) && !maps_page(pdpte)
            &&& present(pde) && !maps_page(pde)
            &&& present(pte)
            &&& pte & ADDR_MASK <= pa < (pte & ADDR_MASK) + 0x1000
        }),
    ensures
        pml4_search(m, pml4_base, pa, 0) is Some,
{
    let pml4e = mem_read(m, pml4_base + a * 8);
    let pdpt = pml4e & ADDR_MASK;
    let pdpte = mem_read(m, pdpt + b * 8);
    let pd = pdpte & ADDR_MASK;
    let pde = mem_read(m, pd + d * 8);
    let pt = pde & ADDR_MASK;
    let p39 = (a as u64) << 39u64;
    let p30 = p39 | ((b as u64) << 30u64);
    let p21 = p30 | ((d as u64) << 21u64);
    lemma_pt_search_complete(m, pt, pa, p21, 0, t);
    lemma_pd_search_complete(m, pd, pa, p30, 0, d);
    lemma_pdpt_search_complete(m, pdpt, pa, p39, 0, b);
    lemma_pml4_search_complete(m, pml4_base, pa, 0, a);
}

proof fn lemma_low_bits_facts(prefix: u64, idx: u64, pa: u64, e: u64)
    by (bit_vector)
    requires
        idx < 512,
    ensures
        0u64 & 0xFFFu64 == 0,
        prefix & 0xFFFu64 == 0 ==> (prefix | (idx << 12u64) | (pa & 0xFFFu64)) & 0xFFFu64 == pa
            & 0xFFFu64,
        prefix & 0xFFFu64 == 0 ==> (prefix | (idx << 21u64)) & 0xFFFu64 == 0,
        prefix & 0xFFFu64 == 0 ==> (prefix | (idx << 30u64)) & 0xFFFu64 == 0,
        (idx << 39u64) & 0xFFFu64 == 0,
        prefix & 0xFFFu64 == 0 && e & 0x000F_FFFF_FFE0_0000u64 <= pa ==> (prefix | (idx << 21u64)
            | ((pa - (e & 0x000F_FFFF_FFE0_0000u64)) as u64)) & 0xFFFu64 == pa & 0xFFFu64,
        prefix & 0xFFFu64 == 0 && e & 0x000F_FFFF_C000_0000u64 <= pa ==> (prefix | (idx << 30u64)
            | ((pa - (e & 0x000F_FFFF_C000_0000u64)) as u64)) & 0xFFFu64 == pa & 0xFFFu64,
{
}

proof fn lemma_pt_search_offset(m: Seq<u64>, base: u64, pa: u64, prefix: u64, idx: int)
    requires
        prefix & 0xFFFu64 == 0,
    ensures
        pt_search(m, base, pa, prefix, idx) matches Some(v) ==> v & 0xFFFu64 == pa & 0xFFFu64,
    decreases 512 - idx,
{
    if 0 <= idx < 512 {
        lemma_low_bits_facts(prefix, idx as u64, pa, 0);
        lemma_pt_search_offset(m, base, pa, prefix, idx + 1);
    }
}

proof fn lemma_pd_search_offset(m: Seq<u64>, base: u64, pa: u64, prefix: u64, idx: int)
    requires
        prefix & 0xFFFu64 == 0,
    ensures
        pd_search(m, base, pa, prefix, idx) matches Some(v) ==> v & 0xFFFu64 == pa & 0xFFFu64,
    decreases 512 - idx,
{
    if 0 <= idx < 512 {
        let pde = mem_read(m, base + idx * 8);
        lemma_low_bits_facts(prefix, idx as u64, pa, pde);
        lemma_pt_search_offset(m, pde & ADDR_MASK, pa, prefix | ((idx as u64) << 21u64), 0);
        lemma_pd_search_offset(m, base, pa, prefix, idx + 1);
    }
}

proof fn lemma_pdpt_search_offset(m: Seq<u64>, base: u64, pa: u64, prefix: u64, idx: int)
    requires
        prefix & 0xFFFu64 == 0,
    ensures
        pdpt_search(m, base, pa, prefix, idx) matches Some(v) ==> v & 0xFFFu64 == pa & 0xFFFu64,
    decreases 512 - idx,
{
    if 0 <= idx < 512 {
        let pdpte = mem_read(m, base + idx * 8);
        lemma_low_bits_facts(prefix, idx as u64, pa, pdpte);
        lemma_pd_search_offset(m, pdpte & ADDR_MASK, pa, prefix | ((idx as u64) << 30u64), 0);
        lemma_pdpt_search_offset(m, base, pa, prefix, idx + 1);
    }
}

proof fn lemma_pml4_search_offset(m: Seq<u64>, base: u64, pa: u64, idx: int)
    ensures
        pml4_search(m, base, pa, idx) matches Some(v) ==> v & 0xFFFu64 == pa & 0xFFFu64,
    decreases 512 - idx,
{
    if 0 <= idx < 512 {
        let pml4e = mem_read(m, base + idx * 8);
        lemma_low_bits_facts(0, idx as u64, pa, 0);
        lemma_pdpt_search_offset(m, pml4e & ADDR_MASK, pa, (idx as u64) << 39u64, 0);
        lemma_pml4_search_offset(m, base, pa, idx + 1);
    }
}

/// A virtual address the search gives lies at the same offset in its
/// 4 KiB page as the physical address it was asked for.
pub proof fn lemma_translate_keeps_page_offset(m: Seq<u64>, pml4_base: u64, pa: u64)
    ensures
        pml4_search(m, pml4_base, pa, 0) matches Some(v) ==> v & 0xFFFu64 == pa & 0xFFFu64,
{
    lemma_pml4_search_offset(m, pml4_base, pa, 0);
}

proof fn lemma_alloc_frame_spec_address(s: Seq<bool>)
    requires
        s.len() == FRAME_COUNT,
    ensures
        alloc_frame_spec(s).1 >= FRAME_BASE,
{
    if crate::mm::frame_alloc::has_free(s) {
        let w = choose|w: int| 0 <= w < s.len() && !#[trigger] s[w];
        crate::mm::frame_alloc::lemma_first_free_exists(s, w);
        let k = crate::mm::frame_alloc::first_free(s);
        assert(0 <= k < FRAME_COUNT);
        assert(FRAME_BASE <= frame_address(k) < 0x1_0000_0000_0000) by (nonlinear_arith)
            requires 0 <= k < FRAME_COUNT;
    }
}

/// Maps enough frames for `size` bytes into the heap's page tables, one
/// page at a time, and gives the block: its header sits at the virtual
/// address under which the tables map the first frame (found right after
/// that frame is mapped), its memory just after the header. A request for
/// no bytes gives `None` and changes nothing.
pub fn kmalloc(
    heap: &mut HeapState,
    bitmap: &mut FrameBitmap,
    mem: &mut PhysMem,
    pml4_base: u64,
    size: usize,
) -> (r: Option<Allocation>)
    requires
        old(bitmap).wf(),
        pml4_base <= ADDR_MASK,
        pages_for(size as int) * 4096 + 8 <= usize::MAX,
        size > 0 ==> heap_has_room(*old(heap), pages_for(size as int)),
    ensures
        final(bitmap).wf(),
        size == 0 ==> {
            &&& r is None
            &&& final(bitmap)@ == old(bitmap)@
            &&& *final(heap) == *old(heap)
            &&& final(mem)@ == old(mem)@
        },
        size > 0 ==> {
            let after = map_pages(
                old(bitmap)@,
                *old(heap),
                old(mem)@,
                pml4_base,
                pages_for(size as int) as nat,
            );
            let first = map_step(old(bitmap)@, *old(heap), old(mem)@, pml4_base);
            let virt = translate_spec(first.2, pml4_base, first.3);
            &&& final(bitmap)@ == after.0
            &&& *final(heap) == after.1
            &&& final(mem)@ == after.2
            &&& r == Some(
                Allocation {
                    ptr: (virt + HEADER_SIZE) as u64,
                    header_addr: virt,
                    total_size: (pages_for(size as int) * 4096 + 8) as u64,
                },
            )
        },
{
    if size == 0 {
        return None;
    }
    let mut count = size / 4096;
    if size % 4096 != 0 {
        count = count + 1;
    }
    let total_size = count * 4096 + 8;
    let ghost b0 = bitmap@;
    let ghost h0 = *heap;
    let ghost m0 = mem@;
    let ghost first = map_step(b0, h0, m0, pml4_base);
    let mut virt_addr: u64 = 0;
    let mut i: usize = 0;
    while i < count
        invariant
            i <= count,
            count == pages_for(size as int),
            bitmap.wf(),
            pml4_base <= ADDR_MASK,
            heap_has_room(h0, count as int),
            first == map_step(b0, h0, m0, pml4_base),
            (bitmap@, *heap, mem@) == map_pages(b0, h0, m0, pml4_base, i as nat),
            heap.pt_count <= 512,
            heap.pde_count <= h0.pde_count + i,
            heap.pt_current <= h0.pt_current + 4096 * i,
            i > 0 ==> virt_addr == translate_spec(first.2, pml4_base, first.3),
        decreases count - i,
    {
        let ghost prev = (bitmap@, *heap, mem@);
        proof {
            bitmap.lemma_len();
            lemma_alloc_frame_spec_address(bitmap@);
        }
        let frame = alloc_frame(bitmap);
        if frame == 0 {
            return None;
        }
        let pdpte_addr = pml4_base + 4096 + 8;
        let pdpte = mem.read(pdpte_addr);
        let pd_base = pdpte & ADDR_MASK;
        proof {
            lemma_masked_below(pdpte);
        }
        if heap.pt_count == 512 {
            heap.pt_count = 0;
            heap.pde_count = heap.pde_count + 1;
            heap.pt_current = heap.pt_current + 4096;
        }
        let pde_addr = pd_base + heap.pde_count as u64 * 8;
        let pde = mem.read(pde_addr);
        if pde == 0 {
            mem.write(pde_addr, make_pde(false, heap.pt_current as u64, HEAP_FLAGS));
            zero_page4k(mem, heap.pt_current as u64);
            mem.write(heap.pt_current as u64, make_pte(frame, HEAP_FLAGS));
            heap.pt_count = heap.pt_count + 1;
        } else {
            mem.write((heap.pt_current + heap.pt_count * 8) as u64, make_pte(frame, HEAP_FLAGS));
            heap.pt_count = heap.pt_count + 1;
        }
        proof {
            assert((bitmap@, *heap, mem@) == {
                let next = map_step(prev.0, prev.1, prev.2, pml4_base);
                (next.0, next.1, next.2)
            });
        }
        if i == 0 {
            virt_addr = translate_addr(mem, pml4_base, frame);
        }
        i = i + 1;
    }
    proof {
        lemma_translate_below(first.2, pml4_base, first.3);
    }
    Some(Allocation { ptr: virt_addr + HEADER_SIZE, header_addr: virt_addr, total_size: total_size as u64 })
}

/// The 9-bit table index of virtual address `v` at the level whose
/// entries cover `1 << shift` bytes.
pub open spec fn table_index(v: u64, shift: u64) -> u64 {
    (v >> shift) & 0x1FFu64
}

/// The address of the page-table entry for virtual address `v`, found by
/// following present entries down from the top-level table; `None` when an
/// upper entry is not present.
pub open spec fn walk_pte_addr(m: Seq<u64>, pml4: u64, v: u64) -> Option<u64> {
    let pml4e = mem_read(m, pml4 + table_index(v, 39) * 8);
    if !present(pml4e) {
        None
    } else {
        let pdpte = mem_read(m, (pml4e & ADDR_MASK) + table_index(v, 30) * 8);
        if !present(pdpte) {
            None
        } else {
            let pde = mem_read(m, (pdpte & ADDR_MASK) + table_index(v, 21) * 8);
            if !present(pde) {
                None
            } else {
                Some(((pde & ADDR_MASK) + table_index(v, 12) * 8) as u64)
            }
        }
    }
}

/// The frames after `dealloc_frame` of the frame at `frame`.
pub open spec fn dealloc_spec(frames: Seq<bool>, frame: u64) -> Seq<bool> {
    match frame_index_of(frame) {
        Some(k) => frames.update(k, false),
        None => frames,
    }
}

/// Unmapping the page at virtual address `v`: when its entry is present,
/// the frame it maps is freed and the entry cleared.
pub open spec fn unmap_step(frames: Seq<bool>, m: Seq<u64>, pml4: u64, v: u64) -> (
    Seq<bool>,
    Seq<u64>,
) {
    match walk_pte_addr(m, pml4, v) {
        None => (frames, m),
        Some(a) => {
            let pte = mem_read(m, a as int);
            if !present(pte) {
                (frames, m)
            } else {
                (dealloc_spec(frames, pte & ADDR_MASK), mem_write(m, a as int, 0))
            }
        },
    }
}

/// The frames and memory after unmapping the `n` pages from `vaddr` on.
pub open spec fn unmap_pages(frames: Seq<bool>, m: Seq<u64>, pml4: u64, vaddr: u64, n: nat) -> (
    Seq<bool>,
    Seq<u64>,
)
    decreases n,
{
    if n == 0 {
        (frames, m)
    } else {
        let prev = unmap_pages(frames, m, pml4, vaddr, (n - 1) as nat);
        unmap_step(prev.0, prev.1, pml4, (vaddr + (n - 1) * 4096) as u64)
    }
}

proof fn lemma_table_index_below(v: u64, shift: u64)
    ensures
        table_index(v, shift) < 512,
{
    assert((v >> shift) & 0x1FFu64 < 512) by (bit_vector);
}

/// Frees the block whose memory starts at `virt_addr` and whose header word
/// holds `total_size`: each whole page of the block, counted from the
/// header, has its frame freed and its page-table entry cleared, where the
/// tables map it. A null block is ignored.
pub fn kfree(
    bitmap: &mut FrameBitmap,
    mem: &mut PhysMem,
    pml4_base: u64,
    virt_addr: u64,
    total_size: u64,
)
    requires
        old(bitmap).wf(),
        pml4_base <= ADDR_MASK,
        virt_addr != 0 ==> virt_addr >= HEADER_SIZE && (virt_addr - HEADER_SIZE) + (total_size / 4096)
            * 4096 <= u64::MAX,
    ensures
        final(bitmap).wf(),
        virt_addr == 0 ==> final(bitmap)@ == old(bitmap)@ && final(mem)@ == old(mem)@,
        virt_addr != 0 ==> (final(bitmap)@, final(mem)@) == unmap_pages(
            old(bitmap)@,
            old(mem)@,
            pml4_base,
            (virt_addr - HEADER_SIZE) as u64,
            (total_size / 4096) as nat,
        ),
{
    if virt_addr == 0 {
        return;
    }
    let count = total_size / 4096;
    let vaddr = virt_addr - HEADER_SIZE;
    let ghost b0 = bitmap@;
    let ghost m0 = mem@;
    let mut i: u64 = 0;
    while i < count
        invariant
            i <= count,
            bitmap.wf(),
            pml4_base <= ADDR_MASK,
            vaddr + count * 4096 <= u64::MAX,
            (bitmap@, mem@) == unmap_pages(b0, m0, pml4_base, vaddr, i as nat),
        decreases count - i,
    {
        let ghost prev = (bitmap@, mem@);
        proof {
            assert(vaddr + i * 4096 <= vaddr + count * 4096) by (nonlinear_arith)
                requires i <= count;
        }
        let v = vaddr + i * 4096;
        let pml4_idx = (v >> 39) & 0x1FF;
        let pdpt_idx = (v >> 30) & 0x1FF;
        let pd_idx = (v >> 21) & 0x1FF;
        let pt_idx = (v >> 12) & 0x1FF;
        proof {
            lemma_table_index_below(v, 39);
            lemma_table_index_below(v, 30);
            lemma_table_index_below(v, 21);
            lemma_table_index_below(v, 12);
        }
        let pml4e = mem.read(pml4_base + pml4_idx * 8);
        if pml4e & 1 != 0 {
            let pdpt_base = pml4e & ADDR_MASK;
            proof {
                lemma_masked_below(pml4e);
            }
            let pdpte = mem.read(pdpt_base + pdpt_idx * 8);
            if pdpte & 1 != 0 {
                let pd_base = pdpte & ADDR_MASK;
                proof {
                    lemma_masked_below(pdpte);
                }
                let pde = mem.read(pd_base + pd_idx * 8);
                if pde & 1 != 0 {
                    let pt_base = pde & ADDR_MASK;
                    proof {
                        lemma_masked_below(pde);
                    }
                    let pte_addr = pt_base + pt_idx * 8;
                    let pte = mem.read(pte_addr);
                    if pte & 1 != 0 {
                        let frame = pte & ADDR_MASK;
                        dealloc_frame(bitmap, frame);
                        mem.write(pte_addr, 0);
                    }
                }
            }
        }
        proof {
            assert((bitmap@, mem@) == unmap_step(prev.0, prev.1, pml4_base, v));
        }
        i = i + 1;
    }
}

proof fn lemma_boot_pd_search(b: Seq<u64>, pa: u64, k: int)
    requires
        pa < 0x800000,
        0 <= k <= pa / 0x200000,
        forall|j: int|
            0 <= j < 4 ==> #[trigger] mem_read(b, BOOT_PD + j * 8) == 0x83 + j * 0x200000,
    ensures
        pd_search(b, BOOT_PD, pa, 0, k) == Some(pa),
    decreases pa / 0x200000 - k,
{
    let pde = mem_read(b, BOOT_PD + k * 8);
    assert(pde == 0x83 + k * 0x200000);
    let kk = k as u64;
    assert(pde & 1u64 != 0 && pde & 0x80u64 != 0 && pde & 0x000F_FFFF_FFE0_0000u64 == kk
        * 0x200000u64) by (bit_vector)
        requires
            kk < 4u64,
            pde == 0x83u64 + kk * 0x200000u64,
    ;
    if k < pa / 0x200000 {
        lemma_boot_pd_search(b, pa, k + 1);
    } else {
        assert(0u64 | (kk << 21u64) | ((pa - kk * 0x200000u64) as u64) == pa) by (bit_vector)
            requires
                kk < 4u64,
                kk * 0x200000u64 <= pa,
                pa < kk * 0x200000u64 + 0x200000u64,
        ;
    }
}

/// The boot page tables map each address of the first 8 MiB to itself:
/// the search of them for such a physical address gives that address.
pub proof fn lemma_boot_tables_identity(m: Seq<u64>, pa: u64)
    requires
        m.len() >= 0x13000int / 8,
        pa < 0x800000,
    ensures
        translate_spec(boot_tables_spec(m), BOOT_PML4, pa) == pa,
{
    let b = boot_tables_spec(m);
    assert(crate::mm::paging::entry_spec(BOOT_PDPT, BOOT_FLAGS) == 0x11003u64) by (bit_vector);
    assert(crate::mm::paging::entry_spec(BOOT_PD, BOOT_FLAGS) == 0x12003u64) by (bit_vector);
    assert(crate::mm::paging::pde_spec(true, 0, BOOT_FLAGS) == 0x83u64) by (bit_vector);
    assert(crate::mm::paging::pde_spec(true, 0x200000, BOOT_FLAGS) == 0x200083u64) by (bit_vector);
    assert(crate::mm::paging::pde_spec(true, 0x400000, BOOT_FLAGS) == 0x400083u64) by (bit_vector);
    assert(crate::mm::paging::pde_spec(true, 0x600000, BOOT_FLAGS) == 0x600083u64) by (bit_vector);
    assert(mem_read(b, BOOT_PML4 as int) == 0x11003u64);
    assert(mem_read(b, BOOT_PDPT as int) == 0x12003u64);
    assert forall|j: int| 0 <= j < 4 implies #[trigger] mem_read(b, BOOT_PD + j * 8) == 0x83 + j
        * 0x200000 by {
        assert((BOOT_PD + j * 8) / 8 == BOOT_PD / 8 + j);
    }
    assert(0x11003u64 & 1u64 != 0 && 0x11003u64 & 0x000F_FFFF_FFFF_F000u64 == 0x11000u64)
        by (bit_vector);
    assert(0x12003u64 & 1u64 != 0 && 0x12003u64 & 0x80u64 == 0 && 0x12003u64
        & 0x000F_FFFF_FFFF_F000u64 == 0x12000u64) by (bit_vector);
    assert(0u64 << 39u64 == 0u64 && (0u64 | (0u64 << 30u64)) == 0u64) by (bit_vector);
    lemma_boot_pd_search(b, pa, 0);
    assert(pdpt_search(b, BOOT_PDPT, pa, 0, 0) == Some(pa));
    assert(pml4_search(b, BOOT_PML4, pa, 0) == Some(pa));
}

/// The pages `kmalloc` maps hold the request: less than a page is left
/// over.
pub proof fn lemma_pages_cover_request(size: int)
    requires
        size > 0,
    ensures
        size <= pages_for(size) * 4096 < size + 4096,
{
}

/// The entry address and the frame of each page `kmalloc` maps, page by
/// page, over `n` pages.
pub open spec fn map_trace(frames: Seq<bool>, h: HeapState, m: Seq<u64>, pml4: u64, n: nat) -> Seq<
    (int, u64),
>
    decreases n,
{
    if n == 0 {
        Seq::empty()
    } else {
        let st = map_pages(frames, h, m, pml4, (n - 1) as nat);
        map_trace(frames, h, m, pml4, (n - 1) as nat).push(
            (map_step_pte_addr(st.1, st.2, pml4), map_step(st.0, st.1, st.2, pml4).3),
        )
    }
}

/// Memory after clearing the entries of the first `j` pages of trace `t`,
/// in order.
pub open spec fn clear_entries(m: Seq<u64>, t: Seq<(int, u64)>, j: nat) -> Seq<u64>
    decreases j,
{
    if j == 0 || j > t.len() {
        m
    } else {
        mem_write(clear_entries(m, t, (j - 1) as nat), t[j - 1].0, 0)
    }
}

/// The memory words the walk for virtual address `v` reads above the page
/// table: its top-level, directory-pointer and directory entries.
pub open spec fn walk_words(m: Seq<u64>, pml4: u64, v: u64) -> (int, int, int) {
    let a0 = pml4 + table_index(v, 39) * 8;
    let a1 = (mem_read(m, a0) & ADDR_MASK) + table_index(v, 30) * 8;
    let a2 = (mem_read(m, a1) & ADDR_MASK) + table_index(v, 21) * 8;
    (a0 / 8, a1 / 8, a2 / 8)
}

/// The virtual address of page `k` of a block whose first page is at `virt`.
pub open spec fn page_va(virt: u64, k: int) -> u64 {
    (virt + k * 4096) as u64
}

/// Some page of trace `t` from `lo` up to `hi` maps frame number `q`.
pub open spec fn in_trace(t: Seq<(int, u64)>, lo: int, hi: int, q: int) -> bool {
    exists|k: int| lo <= k < hi && #[trigger] frame_index_of(t[k].1) == Some(q)
}

proof fn lemma_trace_entry(frames: Seq<bool>, h: HeapState, m: Seq<u64>, pml4: u64, n: nat, k: int)
    requires
        0 <= k < n,
    ensures
        map_trace(frames, h, m, pml4, n).len() == n,
        ({
            let st = map_pages(frames, h, m, pml4, k as nat);
            map_trace(frames, h, m, pml4, n)[k] == (
                map_step_pte_addr(st.1, st.2, pml4),
                map_step(st.0, st.1, st.2, pml4).3,
            )
        }),
    decreases n,
{
    lemma_trace_len(frames, h, m, pml4, (n - 1) as nat);
    if k < n - 1 {
        lemma_trace_entry(frames, h, m, pml4, (n - 1) as nat, k);
    }
}

proof fn lemma_trace_len(frames: Seq<bool>, h: HeapState, m: Seq<u64>, pml4: u64, n: nat)
    ensures
        map_trace(frames, h, m, pml4, n).len() == n,
    decreases n,
{
    if n > 0 {
        lemma_trace_len(frames, h, m, pml4, (n - 1) as nat);
    }
}

/// The frame `alloc_frame` hands out while one is free is the frame of the
/// lowest free index, and that index is free.
proof fn lemma_alloc_frame_index(s: Seq<bool>)
    requires
        s.len() == FRAME_COUNT,
        crate::mm::frame_alloc::has_free(s),
    ensures
        ({
            let k = crate::mm::frame_alloc::first_free(s);
            &&& 0 <= k < FRAME_COUNT
            &&& !s[k]
            &&& alloc_frame_spec(s).0 == s.update(k, true)
            &&& frame_index_of(alloc_frame_spec(s).1) == Some(k)
            &&& alloc_frame_spec(s).1 % 4096 == 0
            &&& alloc_frame_spec(s).1 < 0x1_0000_0000_0000
        }),
{
    let w = choose|w: int| 0 <= w < s.len() && !#[trigger] s[w];
    crate::mm::frame_alloc::lemma_first_free_exists(s, w);
    let k = crate::mm::frame_alloc::first_free(s);
    let a = alloc_frame_spec(s).1;
    assert(a == FRAME_BASE + k * 4096 && a % 4096 == 0 && a < 0x1_0000_0000_0000) by (nonlinear_arith)
        requires
            a == (FRAME_BASE + k * 4096) as u64,
            0 <= k < FRAME_COUNT,
    ;
    assert((a - FRAME_BASE) / 4096 == k) by (nonlinear_arith)
        requires
            a == FRAME_BASE + k * 4096,
            0 <= k,
    ;
}

/// While frames stay free, the bitmap after `i` heap pages is the first
/// bitmap with the frames of those pages marked used.
proof fn lemma_frames_after_maps(
    frames: Seq<bool>,
    h: HeapState,
    m: Seq<u64>,
    pml4: u64,
    n: nat,
    i: nat,
)
    requires
        frames.len() == FRAME_COUNT,
        i <= n,
        forall|k: int|
            0 <= k < n ==> crate::mm::frame_alloc::has_free(
                #[trigger] map_pages(frames, h, m, pml4, k as nat).0,
            ),
    ensures
        map_pages(frames, h, m, pml4, i).0.len() == FRAME_COUNT,
        forall|q: int|
            0 <= q < FRAME_COUNT ==> #[trigger] map_pages(frames, h, m, pml4, i).0[q] == (frames[q]
                || in_trace(map_trace(frames, h, m, pml4, n), 0, i as int, q)),
    decreases i,
{
    let t = map_trace(frames, h, m, pml4, n);
    lemma_trace_len(frames, h, m, pml4, n);
    if i > 0 {
        let i1 = (i - 1) as nat;
        lemma_frames_after_maps(frames, h, m, pml4, n, i1);
        let st = map_pages(frames, h, m, pml4, i1);
        assert(crate::mm::frame_alloc::has_free(st.0));
        lemma_alloc_frame_index(st.0);
        lemma_trace_entry(frames, h, m, pml4, n, i1 as int);
        let ff = crate::mm::frame_alloc::first_free(st.0);
        assert(map_pages(frames, h, m, pml4, i).0 == st.0.update(ff, true));
        assert forall|q: int| 0 <= q < FRAME_COUNT implies #[trigger] map_pages(
            frames,
            h,
            m,
            pml4,
            i,
        ).0[q] == (frames[q] || in_trace(t, 0, i as int, q)) by {
            if q == ff {
                assert(frame_index_of(t[i1 as int].1) == Some(q));
            } else {
                if in_trace(t, 0, i as int, q) {
                    let k = choose|k: int| 0 <= k < i && #[trigger] frame_index_of(t[k].1) == Some(q);
                    assert(k != i1);
                    assert(in_trace(t, 0, i1 as int, q));
                }
                if in_trace(t, 0, i1 as int, q) {
                    let k = choose|k: int| 0 <= k < i1 && #[trigger] frame_index_of(t[k].1) == Some(q);
                    assert(in_trace(t, 0, i as int, q));
                }
            }
        }
    }
}

proof fn lemma_clear_entries_agrees(f: Seq<u64>, t: Seq<(int, u64)>, j: nat, w: int)
    requires
        forall|k: int| 0 <= k < j && k < t.len() ==> #[trigger] t[k].0 / 8 != w,
    ensures
        clear_entries(f, t, j).len() == f.len(),
        0 <= w < f.len() ==> clear_entries(f, t, j)[w] == f[w],
    decreases j,
{
    if j > 0 && j <= t.len() {
        lemma_clear_entries_agrees(f, t, (j - 1) as nat, w);
        assert(t[j - 1].0 / 8 != w);
    }
}

proof fn lemma_read_agrees(a: Seq<u64>, b: Seq<u64>, addr: int)
    requires
        a.len() == b.len(),
        0 <= addr / 8 < a.len() ==> a[addr / 8] == b[addr / 8],
    ensures
        mem_read(a, addr) == mem_read(b, addr),
{
}

proof fn lemma_walk_agrees(mm: Seq<u64>, f: Seq<u64>, pml4: u64, v: u64)
    requires
        mm.len() == f.len(),
        ({
            let (w0, w1, w2) = walk_words(f, pml4, v);
            &&& (0 <= w0 < f.len() ==> mm[w0] == f[w0])
            &&& (0 <= w1 < f.len() ==> mm[w1] == f[w1])
            &&& (0 <= w2 < f.len() ==> mm[w2] == f[w2])
        }),
    ensures
        walk_pte_addr(mm, pml4, v) == walk_pte_addr(f, pml4, v),
{
    let a0 = pml4 + table_index(v, 39) * 8;
    lemma_read_agrees(mm, f, a0);
    let a1 = (mem_read(f, a0) & ADDR_MASK) + table_index(v, 30) * 8;
    lemma_read_agrees(mm, f, a1);
    let a2 = (mem_read(f, a1) & ADDR_MASK) + table_index(v, 21) * 8;
    lemma_read_agrees(mm, f, a2);
}

/// The block `kmalloc` mapped over `n` pages can be taken apart again by
/// `kfree`: a frame was free for each page; each page's entry lies in
/// memory, holds the entry written for it and is where the walk for the
/// page's virtual address (counted from the header) leads; the entries lie
/// in different words, and none of them is read by the walk of a page
/// above its page table.
pub open spec fn heap_block_reachable(
    frames: Seq<bool>,
    h: HeapState,
    m: Seq<u64>,
    pml4: u64,
    n: nat,
) -> bool {
    let f = map_pages(frames, h, m, pml4, n).2;
    let t = map_trace(frames, h, m, pml4, n);
    let first = map_step(frames, h, m, pml4);
    let virt = translate_spec(first.2, pml4, first.3);
    &&& forall|k: int|
        0 <= k < n ==> crate::mm::frame_alloc::has_free(
            #[trigger] map_pages(frames, h, m, pml4, k as nat).0,
        )
    &&& forall|k: int|
        0 <= k < n ==> 0 <= #[trigger] t[k].0 <= u64::MAX && t[k].0 / 8 < f.len()
            && walk_pte_addr(f, pml4, page_va(virt, k)) == Some(t[k].0 as u64) && mem_read(
            f,
            t[k].0,
        ) == entry_spec(t[k].1, HEAP_FLAGS)
    &&& forall|j: int, k: int|
        0 <= j < n && 0 <= k < n && j != k ==> #[trigger] t[j].0 / 8 != #[trigger] t[k].0 / 8
    &&& forall|j: int, k: int|
        0 <= j < n && 0 <= k < n ==> {
            &&& #[trigger] t[j].0 / 8 != #[trigger] walk_words(f, pml4, page_va(virt, k)).0
            &&& t[j].0 / 8 != walk_words(f, pml4, page_va(virt, k)).1
            &&& t[j].0 / 8 != walk_words(f, pml4, page_va(virt, k)).2
        }
}

proof fn lemma_unmap_trace(
    frames: Seq<bool>,
    h: HeapState,
    m: Seq<u64>,
    pml4: u64,
    n: nat,
    j: nat,
)
    requires
        frames.len() == FRAME_COUNT,
        j <= n,
        heap_block_reachable(frames, h, m, pml4, n),
    ensures
        ({
            let fin = map_pages(frames, h, m, pml4, n);
            let t = map_trace(frames, h, m, pml4, n);
            let first = map_step(frames, h, m, pml4);
            let virt = translate_spec(first.2, pml4, first.3);
            let u = unmap_pages(fin.0, fin.2, pml4, virt, j);
            &&& u.1 == clear_entries(fin.2, t, j)
            &&& u.0.len() == FRAME_COUNT
            &&& forall|q: int|
                0 <= q < FRAME_COUNT ==> #[trigger] u.0[q] == (frames[q] || in_trace(
                    t,
                    j as int,
                    n as int,
                    q,
                ))
        }),
    decreases j,
{
    let fin = map_pages(frames, h, m, pml4, n);
    let t = map_trace(frames, h, m, pml4, n);
    let first = map_step(frames, h, m, pml4);
    let virt = translate_spec(first.2, pml4, first.3);
    lemma_trace_len(frames, h, m, pml4, n);
    if j == 0 {
        lemma_frames_after_maps(frames, h, m, pml4, n, n);
    } else {
        let j1 = (j - 1) as nat;
        lemma_unmap_trace(frames, h, m, pml4, n, j1);
        let u = unmap_pages(fin.0, fin.2, pml4, virt, j1);
        let v = (virt + j1 * 4096) as u64;
        let a = t[j1 as int].0;
        let cl = clear_entries(fin.2, t, j1);
        // the walk and the entry are as kmalloc left them
        let ws = walk_words(fin.2, pml4, page_va(virt, j1 as int));
        assert(v == page_va(virt, j1 as int));
        assert forall|k: int| 0 <= k < j1 && k < t.len() implies #[trigger] t[k].0 / 8 != ws.0 by {
            assert(t[k].0 / 8 != ws.0);
        }
        lemma_clear_entries_agrees(fin.2, t, j1, ws.0);
        assert forall|k: int| 0 <= k < j1 && k < t.len() implies #[trigger] t[k].0 / 8 != ws.1 by {
            assert(t[k].0 / 8 != ws.1);
        }
        lemma_clear_entries_agrees(fin.2, t, j1, ws.1);
        assert forall|k: int| 0 <= k < j1 && k < t.len() implies #[trigger] t[k].0 / 8 != ws.2 by {
            assert(t[k].0 / 8 != ws.2);
        }
        lemma_clear_entries_agrees(fin.2, t, j1, ws.2);
        lemma_walk_agrees(cl, fin.2, pml4, v);
        assert(walk_pte_addr(cl, pml4, v) == Some(a as u64));
        assert forall|k: int| 0 <= k < j1 && k < t.len() implies #[trigger] t[k].0 / 8 != a / 8 by {
            assert(t[k].0 / 8 != t[j1 as int].0 / 8);
        }
        lemma_clear_entries_agrees(fin.2, t, j1, a / 8);
        lemma_read_agrees(cl, fin.2, a);
        assert(mem_read(cl, a) == entry_spec(t[j1 as int].1, HEAP_FLAGS));
        // the frame of the page
        let st = map_pages(frames, h, m, pml4, j1);
        assert(crate::mm::frame_alloc::has_free(st.0));
        lemma_frames_after_maps(frames, h, m, pml4, n, j1);
        lemma_alloc_frame_index(st.0);
        lemma_trace_entry(frames, h, m, pml4, n, j1 as int);
        let frame = t[j1 as int].1;
        let idx = crate::mm::frame_alloc::first_free(st.0);
        let entry = entry_spec(frame, HEAP_FLAGS);
        assert(HEAP_FLAGS == 3u64) by (bit_vector);
        assert(entry & 1u64 != 0 && entry & ADDR_MASK == frame) by (bit_vector)
            requires
                entry == 3u64 | (frame & 0x000F_FFFF_FFFF_F000u64),
                frame % 4096 == 0,
                frame < 0x1_0000_0000_0000u64,
        ;
        assert(unmap_pages(fin.0, fin.2, pml4, virt, j) == unmap_step(u.0, u.1, pml4, v));
        let nu = unmap_pages(fin.0, fin.2, pml4, virt, j);
        assert(nu.0 == u.0.update(idx, false));
        assert(nu.1 == mem_write(cl, a, 0));
        // the bitmap
        assert(!frames[idx] && !in_trace(t, 0, j1 as int, idx));
        assert forall|q: int| 0 <= q < FRAME_COUNT implies #[trigger] nu.0[q] == (frames[q]
            || in_trace(t, j as int, n as int, q)) by {
            if q == idx {
                if in_trace(t, j as int, n as int, q) {
                    let k = choose|k: int|
                        j <= k < n && #[trigger] frame_index_of(t[k].1) == Some(q);
                    let stk = map_pages(frames, h, m, pml4, k as nat);
                    assert(crate::mm::frame_alloc::has_free(stk.0));
                    lemma_frames_after_maps(frames, h, m, pml4, n, k as nat);
                    lemma_alloc_frame_index(stk.0);
                    lemma_trace_entry(frames, h, m, pml4, n, k);
                    assert(!stk.0[q]);
                    assert(in_trace(t, 0, k, q));
                }
            } else {
                if in_trace(t, j1 as int, n as int, q) {
                    let k = choose|k: int|
                        j1 <= k < n && #[trigger] frame_index_of(t[k].1) == Some(q);
                    assert(k != j1);
                    assert(in_trace(t, j as int, n as int, q));
                }
                if in_trace(t, j as int, n as int, q) {
                    let k = choose|k: int|
                        j <= k < n && #[trigger] frame_index_of(t[k].1) == Some(q);
                    assert(in_trace(t, j1 as int, n as int, q));
                }
            }
        }
    }
}

/// Freeing a block undoes its allocation wherever the page tables lead
/// `kfree` back to what `kmalloc` mapped (`heap_block_reachable`): every
/// frame of the block is free again, leaving the bitmap as before the
/// allocation, and exactly the entries of the block's pages are cleared.
pub proof fn lemma_kfree_undoes_kmalloc(
    frames: Seq<bool>,
    h: HeapState,
    m: Seq<u64>,
    pml4: u64,
    size: int,
)
    requires
        frames.len() == FRAME_COUNT,
        size > 0,
        heap_block_reachable(frames, h, m, pml4, pages_for(size) as nat),
    ensures
        ({
            let n = pages_for(size) as nat;
            let fin = map_pages(frames, h, m, pml4, n);
            let first = map_step(frames, h, m, pml4);
            let virt = translate_spec(first.2, pml4, first.3);
            let total = pages_for(size) * 4096 + 8;
            unmap_pages(fin.0, fin.2, pml4, virt, (total / 4096) as nat) == (
                frames,
                clear_entries(fin.2, map_trace(frames, h, m, pml4, n), n),
            )
        }),
{
    let n = pages_for(size) as nat;
    let fin = map_pages(frames, h, m, pml4, n);
    let first = map_step(frames, h, m, pml4);
    let virt = translate_spec(first.2, pml4, first.3);
    assert((pages_for(size) * 4096 + 8) / 4096 == pages_for(size)) by (nonlinear_arith)
        requires pages_for(size) >= 0;
    lemma_unmap_trace(frames, h, m, pml4, n, n);
    let u = unmap_pages(fin.0, fin.2, pml4, virt, n);
    assert(u.0 =~= frames);
}

/// How many times the heap moves on to a fresh page table while mapping
/// `n` pages (at least one) from state `h`, at most.
pub open spec fn heap_moves(h: HeapState, n: nat) -> int {
    (h.pt_count + n - 1) / 512
}

/// The layout under which mapping `n` heap pages touches only the heap's
/// own words: the page tables it fills (from `pt_current` on, one table
/// per move and the current one), the directory entries it uses (from
/// entry `pde_count` on) and the directory-pointer entry that locates the
/// directory lie in memory and apart from one another.
pub open spec fn heap_layout_apart(h: HeapState, m: Seq<u64>, pml4: u64, n: nat) -> bool {
    let w = heap_moves(h, n);
    let pt_lo = h.pt_current / 8;
    let pt_hi = pt_lo + 512 * (w + 1);
    let dir_lo = heap_pd_base(m, pml4) / 8 + h.pde_count;
    let dir_hi = dir_lo + w + 1;
    let root = (pml4 + 4096 + 8) / 8;
    &&& n >= 1
    &&& heap_has_room(h, n as int)
    &&& h.pt_current % 8 == 0
    &&& pt_hi <= m.len()
    &&& dir_hi <= m.len()
    &&& (dir_hi <= pt_lo || pt_hi <= dir_lo)
    &&& (root < pt_lo || pt_hi <= root)
    &&& (root < dir_lo || dir_hi <= root)
}

/// The address of directory entry `q` counted from the heap's current one.
pub open spec fn heap_dir_slot(h: HeapState, m: Seq<u64>, pml4: u64, q: int) -> int {
    heap_pd_base(m, pml4) + (h.pde_count + q) * 8
}

/// The address of the entry written for page `j` of a run of heap pages.
pub open spec fn heap_entry_addr(frames: Seq<bool>, h: HeapState, m: Seq<u64>, pml4: u64, j: int) -> int {
    let st = map_pages(frames, h, m, pml4, j as nat);
    map_step_pte_addr(st.1, st.2, pml4)
}

/// The frame mapped for page `j` of a run of heap pages.
pub open spec fn heap_entry_frame(frames: Seq<bool>, h: HeapState, m: Seq<u64>, pml4: u64, j: int) -> u64 {
    let st = map_pages(frames, h, m, pml4, j as nat);
    map_step(st.0, st.1, st.2, pml4).3
}

/// What holds after mapping `k` heap pages: the directory stays where it
/// was, the heap has moved on one table per 512 entries, the current
/// directory entry is set, and every entry written so far lies in the
/// heap's tables below the next free slot, still holds its frame, and
/// comes after the entries written before it.
pub open spec fn heap_map_inv(frames: Seq<bool>, h: HeapState, m: Seq<u64>, pml4: u64, k: nat) -> bool {
    let st = map_pages(frames, h, m, pml4, k);
    let hk = st.1;
    let mk = st.2;
    let w = hk.pde_count - h.pde_count;
    &&& mk.len() == m.len()
    &&& mem_read(mk, pml4 + 4096 + 8) == mem_read(m, pml4 + 4096 + 8)
    &&& w >= 0
    &&& hk.pt_current == h.pt_current + 4096 * w
    &&& 512 * w + hk.pt_count == h.pt_count + k
    &&& hk.pt_count <= 512
    &&& k > 0 ==> hk.pt_count >= 1
    &&& k > 0 ==> mem_read(mk, heap_pd_base(m, pml4) + hk.pde_count * 8) != 0
    &&& forall|j: int|
        0 <= j < k ==> {
            &&& h.pt_current <= #[trigger] heap_entry_addr(frames, h, m, pml4, j)
            &&& heap_entry_addr(frames, h, m, pml4, j) % 8 == 0
            &&& heap_entry_addr(frames, h, m, pml4, j) < hk.pt_current + hk.pt_count * 8
            &&& mem_read(mk, heap_entry_addr(frames, h, m, pml4, j)) == entry_spec(
                heap_entry_frame(frames, h, m, pml4, j),
                HEAP_FLAGS,
            )
        }
    &&& forall|i: int, j: int|
        0 <= i < j < k ==> #[trigger] heap_entry_addr(frames, h, m, pml4, i)
            < #[trigger] heap_entry_addr(frames, h, m, pml4, j)
}

proof fn lemma_heap_pde_present(a: u64)
    ensures
        pde_spec(false, a, HEAP_FLAGS) != 0,
{
    assert(HEAP_FLAGS == 3u64) by (bit_vector);
    assert((3u64 | (a & 0x000F_FFFF_FFFF_F000u64)) != 0) by (bit_vector);
}

#[verifier::rlimit(100)]
proof fn lemma_heap_map_step(frames: Seq<bool>, h: HeapState, m: Seq<u64>, pml4: u64, n: nat, k: nat)
    requires
        heap_layout_apart(h, m, pml4, n),
        k < n,
        heap_map_inv(frames, h, m, pml4, k),
    ensures
        heap_map_inv(frames, h, m, pml4, k + 1),
        ({
            let st = map_pages(frames, h, m, pml4, k);
            let h1 = heap_slot(st.1);
            let slot = heap_dir_slot(h, m, pml4, h1.pde_count - h.pde_count);
            let mn = map_pages(frames, h, m, pml4, k + 1).2;
            &&& h1.pde_count - h.pde_count <= heap_moves(h, n)
            &&& h1.pt_current == h.pt_current + 4096 * (h1.pde_count - h.pde_count)
            &&& (st.1.pt_count == 512 ==> h1.pde_count == st.1.pde_count + 1)
            &&& (st.1.pt_count != 512 ==> h1.pde_count == st.1.pde_count)
            &&& map_pages(frames, h, m, pml4, k + 1).1.pde_count == h1.pde_count
            &&& forall|q: int|
                0 <= q <= heap_moves(h, n) && q != h1.pde_count - h.pde_count ==> mem_read(
                    mn,
                    #[trigger] heap_dir_slot(h, m, pml4, q),
                ) == mem_read(st.2, heap_dir_slot(h, m, pml4, q))
            &&& mem_read(mn, slot) == if mem_read(st.2, slot) == 0 {
                pde_spec(false, h1.pt_current as u64, HEAP_FLAGS)
            } else {
                mem_read(st.2, slot)
            }
        }),
{
    let st = map_pages(frames, h, m, pml4, k);
    let hk = st.1;
    let mk = st.2;
    let next = map_step(st.0, hk, mk, pml4);
    assert(map_pages(frames, h, m, pml4, k + 1) == (next.0, next.1, next.2));
    let pdb = heap_pd_base(m, pml4);
    assert(heap_pd_base(mk, pml4) == pdb);
    lemma_masked_below(mem_read(m, pml4 + 4096 + 8));
    let ww = heap_moves(h, n);
    let w = hk.pde_count - h.pde_count;
    let h1 = heap_slot(hk);
    let wrap = hk.pt_count == 512;
    let w1: int = if wrap { w + 1 } else { w };
    assert(ww <= n) by (nonlinear_arith)
        requires
            ww == (h.pt_count + n - 1) / 512,
            h.pt_count <= 512,
            n >= 1,
    ;
    assert(512 * w1 + (if wrap { 0int } else { hk.pt_count as int }) == h.pt_count + k);
    assert(w1 <= ww) by (nonlinear_arith)
        requires
            512 * w1 <= h.pt_count + k,
            k < n,
            ww == (h.pt_count + n - 1) / 512,
    ;
    assert(h1.pde_count == h.pde_count + w1);
    assert(h1.pt_current == h.pt_current + 4096 * w1);
    assert(h1.pt_count < 512);
    assert(h1.pt_count == (if wrap { 0int } else { hk.pt_count as int }));
    let pt_lo = h.pt_current / 8;
    let pt_hi = pt_lo + 512 * (ww + 1);
    let dir_lo = pdb / 8 + h.pde_count;
    let dir_hi = dir_lo + ww + 1;
    let root = pml4 + 4096 + 8;
    let pde_addr = pdb + h1.pde_count * 8;
    assert(pde_addr / 8 == dir_lo + w1);
    let cur = h1.pt_current as int;
    assert(cur / 8 == pt_lo + 512 * w1);
    assert(cur / 8 + 512 <= pt_hi) by (nonlinear_arith)
        requires
            cur / 8 == pt_lo + 512 * w1,
            pt_hi == pt_lo + 512 * (ww + 1),
            w1 <= ww,
    ;
    let pde = mem_read(mk, pde_addr);
    let a = map_step_pte_addr(hk, mk, pml4);
    let frame = next.3;
    let entry = entry_spec(frame, HEAP_FLAGS);
    assert(a == if pde == 0 { cur } else { cur + h1.pt_count * 8 });
    assert(a % 8 == 0 && cur <= a < cur + 4096);
    assert(a / 8 == cur / 8 + (a - cur) / 8);
    // Earlier entries lie below the new one.
    assert(k > 0 && !wrap ==> pde != 0);
    assert forall|j: int| 0 <= j < k implies #[trigger] heap_entry_addr(frames, h, m, pml4, j)
        < a && heap_entry_addr(frames, h, m, pml4, j) / 8 < a / 8 && (pde == 0
        ==> heap_entry_addr(frames, h, m, pml4, j) / 8 < cur / 8) by {
        let e = heap_entry_addr(frames, h, m, pml4, j);
        assert(e < hk.pt_current + hk.pt_count * 8);
        assert(e % 8 == 0);
    }
    // Memory after the step.
    let mn = next.2;
    assert(mn.len() == m.len());
    assert forall|r: int|
        0 <= r && r / 8 != pde_addr / 8 && r / 8 != a / 8 && (pde == 0 ==> !(cur / 8 <= r / 8
            < cur / 8 + 512)) implies #[trigger] mem_read(mn, r) == mem_read(mk, r) by {}
    assert(mem_read(mn, a) == entry);
    assert(pde == 0 ==> mem_read(mn, pde_addr) == pde_spec(false, h1.pt_current as u64, HEAP_FLAGS));
    lemma_heap_pde_present(h1.pt_current as u64);
    assert(mem_read(mn, pde_addr) != 0);
    assert(mem_read(mn, root) == mem_read(mk, root));
    assert(heap_dir_slot(h, m, pml4, w1) == pde_addr);
    assert forall|q: int|
        0 <= q <= ww && q != w1 implies mem_read(mn, #[trigger] heap_dir_slot(h, m, pml4, q))
        == mem_read(mk, heap_dir_slot(h, m, pml4, q)) by {
        let r = heap_dir_slot(h, m, pml4, q);
        assert(r / 8 == dir_lo + q);
    }
    let hn = next.1;
    assert(hn.pde_count == h1.pde_count && hn.pt_current == h1.pt_current && hn.pt_count
        == h1.pt_count + 1);
    assert(heap_entry_addr(frames, h, m, pml4, k as int) == a);
    assert(heap_entry_frame(frames, h, m, pml4, k as int) == frame);
    assert forall|j: int| 0 <= j < k + 1 implies {
        &&& h.pt_current <= #[trigger] heap_entry_addr(frames, h, m, pml4, j)
        &&& heap_entry_addr(frames, h, m, pml4, j) % 8 == 0
        &&& heap_entry_addr(frames, h, m, pml4, j) < hn.pt_current + hn.pt_count * 8
        &&& mem_read(mn, heap_entry_addr(frames, h, m, pml4, j)) == entry_spec(
            heap_entry_frame(frames, h, m, pml4, j),
            HEAP_FLAGS,
        )
    } by {
        if j < k {
            let e = heap_entry_addr(frames, h, m, pml4, j);
            assert(e < hk.pt_current + hk.pt_count * 8);
            assert(e / 8 >= pt_lo);
            assert(hk.pt_current + hk.pt_count * 8 <= h.pt_current + 4096 * (w + 1));
            assert(h.pt_current + 4096 * (w + 1) <= pt_hi * 8) by (nonlinear_arith)
                requires
                    w <= w1,
                    w1 <= ww,
                    pt_hi == h.pt_current / 8 + 512 * (ww + 1),
                    h.pt_current % 8 == 0,
            ;
            assert(e / 8 < pt_hi);
            assert(mem_read(mn, e) == mem_read(mk, e));
        }
    }
    assert forall|i: int, j: int| 0 <= i < j < k + 1 implies #[trigger] heap_entry_addr(
        frames,
        h,
        m,
        pml4,
        i,
    ) < #[trigger] heap_entry_addr(frames, h, m, pml4, j) by {
        if j == k {
            assert(heap_entry_addr(frames, h, m, pml4, i) < a);
        }
    }
}

proof fn lemma_heap_map_inv(frames: Seq<bool>, h: HeapState, m: Seq<u64>, pml4: u64, n: nat, k: nat)
    requires
        heap_layout_apart(h, m, pml4, n),
        k <= n,
    ensures
        heap_map_inv(frames, h, m, pml4, k),
    decreases k,
{
    if k == 0 {
        assert(map_pages(frames, h, m, pml4, 0) == (frames, h, m));
    } else {
        lemma_heap_map_inv(frames, h, m, pml4, n, (k - 1) as nat);
        lemma_heap_map_step(frames, h, m, pml4, n, (k - 1) as nat);
    }
}

/// The first directory entry the heap uses: the next one when the current
/// page table is already full.
pub open spec fn heap_first_slot(h: HeapState) -> int {
    if h.pt_count == 512 {
        1
    } else {
        0
    }
}

/// What holds of the directory after mapping `k` of `n` heap pages: the
/// entries not reached yet are untouched, and each entry reached that was
/// empty now references the heap's page table for it.
pub open spec fn heap_dir_inv(
    frames: Seq<bool>,
    h: HeapState,
    m: Seq<u64>,
    pml4: u64,
    n: nat,
    k: nat,
) -> bool {
    let st = map_pages(frames, h, m, pml4, k);
    let w = st.1.pde_count - h.pde_count;
    &&& forall|q: int|
        0 <= q <= heap_moves(h, n) && (k == 0 || w < q) ==> mem_read(
            st.2,
            #[trigger] heap_dir_slot(h, m, pml4, q),
        ) == mem_read(m, heap_dir_slot(h, m, pml4, q))
    &&& forall|q: int|
        k > 0 && heap_first_slot(h) <= q <= w && mem_read(m, #[trigger] heap_dir_slot(h, m, pml4, q))
            == 0 ==> mem_read(st.2, heap_dir_slot(h, m, pml4, q)) == pde_spec(
            false,
            (h.pt_current + 4096 * q) as u64,
            HEAP_FLAGS,
        )
}

proof fn lemma_heap_dir_inv(frames: Seq<bool>, h: HeapState, m: Seq<u64>, pml4: u64, n: nat, k: nat)
    requires
        heap_layout_apart(h, m, pml4, n),
        k <= n,
    ensures
        heap_dir_inv(frames, h, m, pml4, n, k),
    decreases k,
{
    if k == 0 {
        assert(map_pages(frames, h, m, pml4, 0) == (frames, h, m));
    } else {
        let k0 = (k - 1) as nat;
        lemma_heap_dir_inv(frames, h, m, pml4, n, k0);
        lemma_heap_map_inv(frames, h, m, pml4, n, k0);
        lemma_heap_map_step(frames, h, m, pml4, n, k0);
        let st = map_pages(frames, h, m, pml4, k0);
        let mk = st.2;
        let mn = map_pages(frames, h, m, pml4, k).2;
        let w = st.1.pde_count - h.pde_count;
        let h1 = heap_slot(st.1);
        let w1 = h1.pde_count - h.pde_count;
        let wrap = st.1.pt_count == 512;
        let slot = heap_dir_slot(h, m, pml4, w1);
        assert(map_pages(frames, h, m, pml4, k).1.pde_count - h.pde_count == w1);
        assert(k0 == 0 ==> st.1 == h);
        assert forall|q: int|
            0 <= q <= heap_moves(h, n) && w1 < q implies mem_read(
            mn,
            #[trigger] heap_dir_slot(h, m, pml4, q),
        ) == mem_read(m, heap_dir_slot(h, m, pml4, q)) by {
            assert(mem_read(mn, heap_dir_slot(h, m, pml4, q)) == mem_read(
                mk,
                heap_dir_slot(h, m, pml4, q),
            ));
        }
        lemma_heap_pde_present(h1.pt_current as u64);
        assert forall|q: int|
            heap_first_slot(h) <= q <= w1 && mem_read(m, #[trigger] heap_dir_slot(h, m, pml4, q))
                == 0 implies mem_read(mn, heap_dir_slot(h, m, pml4, q)) == pde_spec(
            false,
            (h.pt_current + 4096 * q) as u64,
            HEAP_FLAGS,
        ) by {
            if q < w1 {
                assert(k0 > 0);
                assert(mem_read(mn, heap_dir_slot(h, m, pml4, q)) == mem_read(
                    mk,
                    heap_dir_slot(h, m, pml4, q),
                ));
            } else if k0 == 0 || wrap {
                assert(mem_read(mk, slot) == mem_read(m, slot));
            } else {
                assert(mem_read(mk, slot) == pde_spec(
                    false,
                    (h.pt_current + 4096 * q) as u64,
                    HEAP_FLAGS,
                ));
            }
        }
    }
}

/// Mapping `n` pages never overwrites an entry it wrote: every page's
/// entry still holds its frame at the end, the entries come one after
/// another in the heap's tables (so no two share a word), and the heap
/// moves on to the next table, 4 KiB further up, and the next directory
/// entry each time a table has taken 512 entries; each directory entry it
/// reaches that was empty now references the page table the heap fills
/// under it.
pub proof fn lemma_kmalloc_keeps_its_entries(
    frames: Seq<bool>,
    h: HeapState,
    m: Seq<u64>,
    pml4: u64,
    n: nat,
)
    requires
        heap_layout_apart(h, m, pml4, n),
    ensures
        ({
            let t = map_trace(frames, h, m, pml4, n);
            let fin = map_pages(frames, h, m, pml4, n);
            let moved = fin.1.pde_count - h.pde_count;
            &&& t.len() == n
            &&& forall|k: int|
                0 <= k < n ==> {
                    &&& h.pt_current <= #[trigger] t[k].0
                    &&& t[k].0 < h.pt_current + 4096 * (heap_moves(h, n) + 1)
                    &&& t[k].0 % 8 == 0
                    &&& mem_read(fin.2, t[k].0) == entry_spec(t[k].1, HEAP_FLAGS)
                }
            &&& forall|j: int, k: int| 0 <= j < k < n ==> #[trigger] t[j].0 < #[trigger] t[k].0
            &&& moved >= 0
            &&& fin.1.pt_current == h.pt_current + 4096 * moved
            &&& 512 * moved + fin.1.pt_count == h.pt_count + n
            &&& 1 <= fin.1.pt_count <= 512
            &&& forall|q: int|
                heap_first_slot(h) <= q <= moved && mem_read(
                    m,
                    #[trigger] heap_dir_slot(h, m, pml4, q),
                ) == 0 ==> mem_read(fin.2, heap_dir_slot(h, m, pml4, q)) == pde_spec(
                    false,
                    (h.pt_current + 4096 * q) as u64,
                    HEAP_FLAGS,
                )
        }),
{
    lemma_heap_map_inv(frames, h, m, pml4, n, n);
    lemma_heap_dir_inv(frames, h, m, pml4, n, n);
    lemma_trace_len(frames, h, m, pml4, n);
    let t = map_trace(frames, h, m, pml4, n);
    let fin = map_pages(frames, h, m, pml4, n);
    let moved = fin.1.pde_count - h.pde_count;
    let ww = heap_moves(h, n);
    assert(moved <= ww) by (nonlinear_arith)
        requires
            512 * moved + fin.1.pt_count == h.pt_count + n,
            fin.1.pt_count >= 1,
            ww == (h.pt_count + n - 1) / 512,
    ;
    assert forall|k: int| 0 <= k < n implies t[k] == (
        heap_entry_addr(frames, h, m, pml4, k),
        heap_entry_frame(frames, h, m, pml4, k),
    ) by {
        lemma_trace_entry(frames, h, m, pml4, n, k);
    }
    assert forall|k: int| 0 <= k < n implies {
        &&& h.pt_current <= #[trigger] t[k].0
        &&& t[k].0 < h.pt_current + 4096 * (heap_moves(h, n) + 1)
        &&& t[k].0 % 8 == 0
        &&& mem_read(fin.2, t[k].0) == entry_spec(t[k].1, HEAP_FLAGS)
    } by {
        assert(heap_entry_addr(frames, h, m, pml4, k) < fin.1.pt_current + fin.1.pt_count * 8);
        assert(fin.1.pt_current + fin.1.pt_count * 8 <= h.pt_current + 4096 * (ww + 1))
            by (nonlinear_arith)
            requires
                fin.1.pt_current == h.pt_current + 4096 * moved,
                fin.1.pt_count <= 512,
                moved <= ww,
        ;
    }
    assert forall|j: int, k: int| 0 <= j < k < n implies #[trigger] t[j].0 < #[trigger] t[k].0 by {
        assert(heap_entry_addr(frames, h, m, pml4, j) < heap_entry_addr(frames, h, m, pml4, k));
    }
}

/// Whether virtual address `v` leads, through present entries of the
/// tables rooted at `pml4`, to a 1 GiB, 2 MiB or 4 KiB page whose start
/// plus the offset of `v` in it is physical address `pa`.
pub open spec fn maps_to(m: Seq<u64>, pml4: u64, v: u64, pa: u64) -> bool {
    let e4 = mem_read(m, pml4 + table_index(v, 39) * 8);
    let e3 = mem_read(m, (e4 & ADDR_MASK) + table_index(v, 30) * 8);
    let e2 = mem_read(m, (e3 & ADDR_MASK) + table_index(v, 21) * 8);
    let e1 = mem_read(m, (e2 & ADDR_MASK) + table_index(v, 12) * 8);
    &&& present(e4)
    &&& present(e3)
    &&& if maps_page(e3) {
        (e3 & HUGE_ADDR_MASK) + (v & 0x3FFF_FFFFu64) == pa
    } else {
        &&& present(e2)
        &&& if maps_page(e2) {
            (e2 & LARGE_ADDR_MASK_2M) + (v & 0x1F_FFFFu64) == pa
        } else {
            present(e1) && (e1 & ADDR_MASK) + (v & 0xFFFu64) == pa
        }
    }
}

proof fn lemma_va_bits(a: u64, b: u64, d: u64, t: u64, pa: u64, e: u64)
    by (bit_vector)
    requires
        a < 512,
        b < 512,
        d < 512,
        t < 512,
    ensures
        ({
            let v = (a << 39u64) | (b << 30u64) | (d << 21u64) | (t << 12u64) | (pa & 0xFFFu64);
            &&& (v >> 39u64) & 0x1FFu64 == a
            &&& (v >> 30u64) & 0x1FFu64 == b
            &&& (v >> 21u64) & 0x1FFu64 == d
            &&& (v >> 12u64) & 0x1FFu64 == t
            &&& v & 0xFFFu64 == pa & 0xFFFu64
        }),
        (e & 0x000F_FFFF_FFFF_F000u64) <= pa && pa < (e & 0x000F_FFFF_FFFF_F000u64) + 0x1000
            ==> (e & 0x000F_FFFF_FFFF_F000u64) + (pa & 0xFFFu64) == pa,
        (e & 0x000F_FFFF_FFE0_0000u64) <= pa && pa < (e & 0x000F_FFFF_FFE0_0000u64) + 0x20_0000
            ==> ({
            let v = (a << 39u64) | (b << 30u64) | (d << 21u64) | ((pa - (e
                & 0x000F_FFFF_FFE0_0000u64)) as u64);
            &&& (v >> 39u64) & 0x1FFu64 == a
            &&& (v >> 30u64) & 0x1FFu64 == b
            &&& (v >> 21u64) & 0x1FFu64 == d
            &&& (e & 0x000F_FFFF_FFE0_0000u64) + (v & 0x1F_FFFFu64) == pa
        }),
        (e & 0x000F_FFFF_C000_0000u64) <= pa && pa < (e & 0x000F_FFFF_C000_0000u64) + 0x4000_0000
            ==> ({
            let v = (a << 39u64) | (b << 30u64) | ((pa - (e & 0x000F_FFFF_C000_0000u64)) as u64);
            &&& (v >> 39u64) & 0x1FFu64 == a
            &&& (v >> 30u64) & 0x1FFu64 == b
            &&& (e & 0x000F_FFFF_C000_0000u64) + (v & 0x3FFF_FFFFu64) == pa
        }),
{
}

/// The entry of the page table at `base` through which its search from
/// `idx` on finds a hit, if it finds one.
proof fn lemma_pt_search_witness(m: Seq<u64>, base: u64, pa: u64, prefix: u64, idx: int) -> (t: int)
    ensures
        pt_search(m, base, pa, prefix, idx) matches Some(v) ==> {
            let pte = mem_read(m, base + t * 8);
            &&& 0 <= t < 512
            &&& present(pte)
            &&& (pte & ADDR_MASK) <= pa < (pte & ADDR_MASK) + 0x1000
            &&& v == prefix | ((t as u64) << 12u64) | (pa & 0xFFFu64)
        },
    decreases 512 - idx,
{
    if idx < 0 || idx >= 512 {
        0
    } else {
        let pte = mem_read(m, base + idx * 8);
        let page_base = pte & ADDR_MASK;
        if present(pte) && page_base <= pa && pa < page_base + 0x1000 {
            idx
        } else {
            lemma_pt_search_witness(m, base, pa, prefix, idx + 1)
        }
    }
}

/// The entries of the directory at `base`, and of the page table it
/// references, through which its search from `idx` on finds a hit.
proof fn lemma_pd_search_witness(m: Seq<u64>, base: u64, pa: u64, prefix: u64, idx: int) -> (r: (
    int,
    int,
))
    ensures
        pd_search(m, base, pa, prefix, idx) matches Some(v) ==> {
            let pde = mem_read(m, base + r.0 * 8);
            let pte = mem_read(m, (pde & ADDR_MASK) + r.1 * 8);
            &&& 0 <= r.0 < 512
            &&& present(pde)
            &&& if maps_page(pde) {
                &&& (pde & LARGE_ADDR_MASK_2M) <= pa < (pde & LARGE_ADDR_MASK_2M) + 0x20_0000
                &&& v == prefix | ((r.0 as u64) << 21u64) | ((pa - (pde & LARGE_ADDR_MASK_2M)) as u64)
            } else {
                &&& 0 <= r.1 < 512
                &&& present(pte)
                &&& (pte & ADDR_MASK) <= pa < (pte & ADDR_MASK) + 0x1000
                &&& v == (prefix | ((r.0 as u64) << 21u64)) | ((r.1 as u64) << 12u64) | (pa
                    & 0xFFFu64)
            }
        },
    decreases 512 - idx,
{
    if idx < 0 || idx >= 512 {
        (0, 0)
    } else {
        let pde = mem_read(m, base + idx * 8);
        if !present(pde) {
            lemma_pd_search_witness(m, base, pa, prefix, idx + 1)
        } else if maps_page(pde) {
            let page_base = pde & LARGE_ADDR_MASK_2M;
            if page_base <= pa && pa < page_base + 0x20_0000 {
                (idx, 0)
            } else {
                lemma_pd_search_witness(m, base, pa, prefix, idx + 1)
            }
        } else {
            let t = lemma_pt_search_witness(m, pde & ADDR_MASK, pa, prefix | ((idx as u64) << 21u64), 0);
            if pt_search(m, pde & ADDR_MASK, pa, prefix | ((idx as u64) << 21u64), 0) is Some {
                (idx, t)
            } else {
                lemma_pd_search_witness(m, base, pa, prefix, idx + 1)
            }
        }
    }
}

/// The entries through which the search of the directory-pointer table at
/// `base` from `idx` on finds a hit.
proof fn lemma_pdpt_search_witness(m: Seq<u64>, base: u64, pa: u64, prefix: u64, idx: int) -> (r: (
    int,
    int,
    int,
))
    ensures
        pdpt_search(m, base, pa, prefix, idx) matches Some(v) ==> {
            let pdpte = mem_read(m, base + r.0 * 8);
            let pde = mem_read(m, (pdpte & ADDR_MASK) + r.1 * 8);
            let pte = mem_read(m, (pde & ADDR_MASK) + r.2 * 8);
            let p30 = prefix | ((r.0 as u64) << 30u64);
            &&& 0 <= r.0 < 512
            &&& present(pdpte)
            &&& if maps_page(pdpte) {
                &&& (pdpte & HUGE_ADDR_MASK) <= pa < (pdpte & HUGE_ADDR_MASK) + 0x4000_0000
                &&& v == p30 | ((pa - (pdpte & HUGE_ADDR_MASK)) as u64)
            } else {
                &&& 0 <= r.1 < 512
                &&& present(pde)
                &&& if maps_page(pde) {
                    &&& (pde & LARGE_ADDR_MASK_2M) <= pa < (pde & LARGE_ADDR_MASK_2M) + 0x20_0000
                    &&& v == p30 | ((r.1 as u64) << 21u64) | ((pa - (pde & LARGE_ADDR_MASK_2M)) as u64)
                } else {
                    &&& 0 <= r.2 < 512
                    &&& present(pte)
                    &&& (pte & ADDR_MASK) <= pa < (pte & ADDR_MASK) + 0x1000
                    &&& v == (p30 | ((r.1 as u64) << 21u64)) | ((r.2 as u64) << 12u64) | (pa
                        & 0xFFFu64)
                }
            }
        },
    decreases 512 - idx,
{
    if idx < 0 || idx >= 512 {
        (0, 0, 0)
    } else {
        let pdpte = mem_read(m, base + idx * 8);
        if !present(pdpte) {
            lemma_pdpt_search_witness(m, base, pa, prefix, idx + 1)
        } else if maps_page(pdpte) {
            let page_base = pdpte & HUGE_ADDR_MASK;
            if page_base <= pa && pa < page_base + 0x4000_0000 {
                (idx, 0, 0)
            } else {
                lemma_pdpt_search_witness(m, base, pa, prefix, idx + 1)
            }
        } else {
            let p30 = prefix | ((idx as u64) << 30u64);
            let r = lemma_pd_search_witness(m, pdpte & ADDR_MASK, pa, p30, 0);
            if pd_search(m, pdpte & ADDR_MASK, pa, p30, 0) is Some {
                (idx, r.0, r.1)
            } else {
                lemma_pdpt_search_witness(m, base, pa, prefix, idx + 1)
            }
        }
    }
}

/// The entries through which the top-level search from `idx` on finds a
/// hit.
proof fn lemma_pml4_search_witness(m: Seq<u64>, base: u64, pa: u64, idx: int) -> (r: (
    int,
    int,
    int,
    int,
))
    ensures
        pml4_search(m, base, pa, idx) matches Some(v) ==> {
            let pml4e = mem_read(m, base + r.0 * 8);
            let pdpte = mem_read(m, (pml4e & ADDR_MASK) + r.1 * 8);
            let pde = mem_read(m, (pdpte & ADDR_MASK) + r.2 * 8);
            let pte = mem_read(m, (pde & ADDR_MASK) + r.3 * 8);
            let p39 = (r.0 as u64) << 39u64;
            let p30 = p39 | ((r.1 as u64) << 30u64);
            &&& 0 <= r.0 < 512
            &&& present(pml4e)
            &&& 0 <= r.1 < 512
            &&& present(pdpte)
            &&& if maps_page(pdpte) {
                &&& (pdpte & HUGE_ADDR_MASK) <= pa < (pdpte & HUGE_ADDR_MASK) + 0x4000_0000
                &&& v == p30 | ((pa - (pdpte & HUGE_ADDR_MASK)) as u64)
            } else {
                &&& 0 <= r.2 < 512
                &&& present(pde)
                &&& if maps_page(pde) {
                    &&& (pde & LARGE_ADDR_MASK_2M) <= pa < (pde & LARGE_ADDR_MASK_2M) + 0x20_0000
                    &&& v == p30 | ((r.2 as u64) << 21u64) | ((pa - (pde & LARGE_ADDR_MASK_2M)) as u64)
                } else {
                    &&& 0 <= r.3 < 512
                    &&& present(pte)
                    &&& (pte & ADDR_MASK) <= pa < (pte & ADDR_MASK) + 0x1000
                    &&& v == (p30 | ((r.2 as u64) << 21u64)) | ((r.3 as u64) << 12u64) | (pa
                        & 0xFFFu64)
                }
            }
        },
    decreases 512 - idx,
{
    if idx < 0 || idx >= 512 {
        (0, 0, 0, 0)
    } else {
        let pml4e = mem_read(m, base + idx * 8);
        if !present(pml4e) {
            lemma_pml4_search_witness(m, base, pa, idx + 1)
        } else {
            let p39 = (idx as u64) << 39u64;
            let r = lemma_pdpt_search_witness(m, pml4e & ADDR_MASK, pa, p39, 0);
            if pdpt_search(m, pml4e & ADDR_MASK, pa, p39, 0) is Some {
                (idx, r.0, r.1, r.2)
            } else {
                lemma_pml4_search_witness(m, base, pa, idx + 1)
            }
        }
    }
}

/// Whatever virtual address the search gives for `pa` leads back to `pa`:
/// walking it through the tables reaches a present page whose start plus
/// the address's offset in it is `pa`.
pub proof fn lemma_translate_maps_back(m: Seq<u64>, pml4_base: u64, pa: u64)
    ensures
        pml4_search(m, pml4_base, pa, 0) matches Some(v) ==> maps_to(m, pml4_base, v, pa),
{
    let r = lemma_pml4_search_witness(m, pml4_base, pa, 0);
    if pml4_search(m, pml4_base, pa, 0) is Some {
        let v = pml4_search(m, pml4_base, pa, 0).unwrap();
        let pml4e = mem_read(m, pml4_base + r.0 * 8);
        let pdpte = mem_read(m, (pml4e & ADDR_MASK) + r.1 * 8);
        let pde = mem_read(m, (pdpte & ADDR_MASK) + r.2 * 8);
        let pte = mem_read(m, (pde & ADDR_MASK) + r.3 * 8);
        let a = r.0 as u64;
        let b = r.1 as u64;
        let d = if 0 <= r.2 < 512 { r.2 as u64 } else { 0 };
        let t = if 0 <= r.3 < 512 { r.3 as u64 } else { 0 };
        if maps_page(pdpte) {
            lemma_va_bits(a, b, 0, 0, pa, pdpte);
        } else if maps_page(pde) {
            lemma_va_bits(a, b, d, 0, pa, pde);
        } else {
            lemma_va_bits(a, b, d, t, pa, pte);
        }
        assert(table_index(v, 39) == a);
        assert(table_index(v, 30) == b);
    }
}

} // verus!
