//! Bitmap allocator of 4 KiB physical frames.
//!
//! Frame `k` is recorded in byte `k / 8` of the bitmap, in bit `7 - k % 8`
//! (the most significant bit of a byte is its first frame).

use vstd::prelude::*;
use crate::mm::phys_mem::PhysMem;

verus! {

/// Number of frames the allocator was sized for.
pub const MAX_PAGE: usize = 131702;
/// Bytes in the bitmap (`MAX_PAGE / 8`, rounded down).
pub const BITMAP_LEN: usize = 16462;
/// Frames the bitmap can record (`BITMAP_LEN * 8`).
pub const FRAME_COUNT: usize = 131696;
/// Physical address of frame 0.
pub const FRAME_BASE: u64 = 0x800000;
/// Size of a frame in bytes.
pub const FRAME_SIZE: u64 = 4096;

/// Whether bit `j` (counted from the most significant end) of `b` is set.
pub open spec fn bit_of(b: u8, j: u8) -> bool {
    (b >> ((7u8 - j) as u8)) & 1u8 == 1u8
}

/// Physical address of frame `k`.
pub open spec fn frame_address(k: int) -> int {
    FRAME_BASE + k * FRAME_SIZE
}

/// `k` is the lowest free frame of `s`.
pub open spec fn is_first_free(s: Seq<bool>, k: int) -> bool {
    &&& 0 <= k < s.len()
    &&& !s[k]
    &&& forall|i: int| 0 <= i < k ==> #[trigger] s[i]
}

/// Some frame of `s` is free.
pub open spec fn has_free(s: Seq<bool>) -> bool {
    exists|k: int| 0 <= k < s.len() && !#[trigger] s[k]
}

/// The lowest free frame of `s` (meaningful when one is free).
pub open spec fn first_free(s: Seq<bool>) -> int {
    choose|k: int| is_first_free(s, k)
}

/// The bitmap and the address `alloc_frame` gives back: the lowest free
/// frame, now used; or, when none is free, the bitmap unchanged and the
/// address of the last frame.
pub open spec fn alloc_frame_spec(s: Seq<bool>) -> (Seq<bool>, u64) {
    if has_free(s) {
        (s.update(first_free(s), true), frame_address(first_free(s)) as u64)
    } else {
        (s, frame_address(FRAME_COUNT - 1) as u64)
    }
}

/// The index of the frame at physical address `addr`, if the bitmap
/// records one there.
pub open spec fn frame_index_of(addr: u64) -> Option<int> {
    if addr >= FRAME_BASE && (addr - FRAME_BASE) / (FRAME_SIZE as int) < FRAME_COUNT {
        Some((addr - FRAME_BASE) / (FRAME_SIZE as int))
    } else {
        None
    }
}

/// The lowest free frame is unique.
pub proof fn lemma_first_free_unique(s: Seq<bool>, k: int)
    requires
        is_first_free(s, k),
    ensures
        has_free(s),
        first_free(s) == k,
{
    assert(!s[k]);
    let c = first_free(s);
    assert(is_first_free(s, c));
    if c < k {
        assert(s[c]);
    }
    if k < c {
        assert(s[k]);
    }
}

/// The used/free state of each frame.
pub struct FrameBitmap {
    bits: Vec<u8>,
}

impl View for FrameBitmap {
    type V = Seq<bool>;

    /// Entry `k` is `true` when frame `k` is in use.
    closed spec fn view(&self) -> Seq<bool> {
        Seq::new(FRAME_COUNT as nat, |k: int| bit_of(self.bits@[k / 8], (k % 8) as u8))
    }
}

proof fn lemma_bit_cases(b: u8, j: u8)
    requires
        j < 8,
    ensures
        (b >> ((7u8 - j) as u8)) & 1u8 == 0u8 || (b >> ((7u8 - j) as u8)) & 1u8 == 1u8,
{
    assert((b >> ((7u8 - j) as u8)) & 1u8 == 0u8 || (b >> ((7u8 - j) as u8)) & 1u8 == 1u8) by (bit_vector)
        requires j < 8u8;
}

proof fn lemma_set_bit(b: u8, j: u8, j2: u8)
    requires
        j < 8,
        j2 < 8,
    ensures
        bit_of(b | (1u8 << ((7u8 - j) as u8)), j2) == (j2 == j || bit_of(b, j2)),
{
    assert((((b | (1u8 << ((7u8 - j) as u8))) >> ((7u8 - j2) as u8)) & 1u8 == 1u8) == (j2 == j || (b >> ((7u8 - j2) as u8)) & 1u8 == 1u8)) by (bit_vector)
        requires
            j < 8u8,
            j2 < 8u8,
    ;
}

proof fn lemma_set_first_bit_noop(b: u8)
    requires
        bit_of(b, 0),
    ensures
        b | (1u8 << 7u8) == b,
{
    assert(b | (1u8 << 7u8) == b) by (bit_vector)
        requires (b >> 7u8) & 1u8 == 1u8;
}

proof fn lemma_index_split(i: int, j: int)
    requires
        0 <= i,
        0 <= j < 8,
    ensures
        (8 * i + j) / 8 == i,
        (8 * i + j) % 8 == j,
{
    assert((8 * i + j) / 8 == i && (8 * i + j) % 8 == j) by (nonlinear_arith)
        requires
            0 <= i,
            0 <= j < 8,
    ;
}

impl FrameBitmap {
    /// The bitmap holds one byte per eight frames.
    pub closed spec fn wf(&self) -> bool {
        self.bits@.len() == BITMAP_LEN
    }

    /// The bitmap records `FRAME_COUNT` frames.
    pub proof fn lemma_len(&self)
        ensures
            self@.len() == FRAME_COUNT,
    {
    }

    /// A bitmap in which every frame is free.
    pub fn new() -> (r: Self)
        ensures
            r.wf(),
            r@ == Seq::new(FRAME_COUNT as nat, |k: int| false),
    {
        let mut bits: Vec<u8> = Vec::new();
        let mut i: usize = 0;
        while i < BITMAP_LEN
            invariant
                i <= BITMAP_LEN,
                bits@.len() == i,
                forall|k: int| 0 <= k < i ==> bits@[k] == 0u8,
            decreases BITMAP_LEN - i,
        {
            bits.push(0u8);
            i = i + 1;
        }
        let r = FrameBitmap { bits };
        proof {
            assert forall|k: int| 0 <= k < FRAME_COUNT implies !#[trigger] r@[k] by {
                let j = (k % 8) as u8;
                assert(bit_of(0u8, j) == false) by (bit_vector)
                    requires j < 8u8;
            }
        }
        assert(r@ =~= Seq::new(FRAME_COUNT as nat, |k: int| false));
        r
    }

    /// Whether frame `k` is in use.
    pub fn is_used(&self, k: usize) -> (r: bool)
        requires
            self.wf(),
            k < FRAME_COUNT,
        ensures
            r == self@[k as int],
    {
        let byte = self.bits[k / 8];
        let j = (k % 8) as u8;
        proof {
            lemma_bit_cases(byte, j);
        }
        (byte >> (7 - j)) & 1 == 1
    }
}

/// Marks every frame free.
pub fn init_bitmap(bitmap: &mut FrameBitmap)
    requires
        old(bitmap).wf(),
    ensures
        final(bitmap).wf(),
        final(bitmap)@ == Seq::new(FRAME_COUNT as nat, |k: int| false),
{
    let mut i: usize = 0;
    while i < BITMAP_LEN
        invariant
            i <= BITMAP_LEN,
            bitmap.bits@.len() == BITMAP_LEN,
            forall|k: int| 0 <= k < i ==> bitmap.bits@[k] == 0u8,
        decreases BITMAP_LEN - i,
    {
        bitmap.bits[i] = 0u8;
        i = i + 1;
    }
    proof {
        assert forall|k: int| 0 <= k < FRAME_COUNT implies !#[trigger] bitmap@[k] by {
            let j = (k % 8) as u8;
            assert(bit_of(0u8, j) == false) by (bit_vector)
                requires j < 8u8;
        }
    }
    assert(bitmap@ =~= Seq::new(FRAME_COUNT as nat, |k: int| false));
}

/// Takes the lowest free frame, marks it used and returns its physical
/// address. When every frame is in use the scan runs off the end without
/// reaching `MAX_PAGE`, so the bitmap is left as it is and the address of the
/// last frame is returned.
pub fn alloc_frame(bitmap: &mut FrameBitmap) -> (r: u64)
    requires
        old(bitmap).wf(),
    ensures
        final(bitmap).wf(),
        (final(bitmap)@, r) == alloc_frame_spec(old(bitmap)@),
{
    let ghost s = bitmap@;
    let mut frame_index: usize = 0;
    let mut bitmap_index: usize = 0;
    let mut bit_index: u8 = 0;
    let mut found = false;
    let mut i: usize = 0;
    while i < BITMAP_LEN && !found
        invariant
            i <= BITMAP_LEN,
            bitmap.wf(),
            bitmap@ == s,
            !found ==> frame_index == 8 * i && bitmap_index == 0 && bit_index == 0,
            found ==> bitmap_index < i,
            found ==> {
                &&& bitmap_index < BITMAP_LEN
                &&& bit_index < 8
                &&& frame_index == 8 * bitmap_index + bit_index + 1
                &&& !bit_of(bitmap.bits@[bitmap_index as int], bit_index)
            },
            forall|k: int| 0 <= k < 8 * i && (!found || k < frame_index - 1) ==> #[trigger] s[k],
        decreases BITMAP_LEN - i,
    {
        let byte = bitmap.bits[i];
        let mut j: u8 = 0;
        while j < 8 && !found
            invariant
                i < BITMAP_LEN,
                j <= 8,
                byte == bitmap.bits@[i as int],
                bitmap.wf(),
                bitmap@ == s,
                !found ==> frame_index == 8 * i + j && bitmap_index == 0 && bit_index == 0,
                found ==> {
                    &&& bitmap_index < BITMAP_LEN
                    &&& bit_index < 8
                    &&& frame_index == 8 * bitmap_index + bit_index + 1
                    &&& !bit_of(bitmap.bits@[bitmap_index as int], bit_index)
                    &&& bitmap_index == i
                    &&& bit_index == j
                },
                forall|k: int|
                    0 <= k < 8 * i + j && (!found || k < frame_index - 1) ==> #[trigger] s[k],
            decreases 8 - j + (if found { 0int } else { 1int }),
        {
            frame_index = frame_index + 1;
            proof {
                lemma_bit_cases(byte, j);
                lemma_index_split(i as int, j as int);
            }
            if (byte >> (7 - j)) & 1 == 0 {
                bitmap_index = i;
                bit_index = j;
                found = true;
            } else {
                assert(s[8 * i + j]);
                j = j + 1;
            }
        }
        i = i + 1;
    }
    if frame_index == 0 || frame_index == MAX_PAGE {
        return 0;
    }
    let old_byte = bitmap.bits[bitmap_index];
    let new_byte = old_byte | (1u8 << (7 - bit_index));
    bitmap.bits[bitmap_index] = new_byte;
    let r = FRAME_BASE + ((frame_index as u64) - 1) * FRAME_SIZE;
    proof {
        if found {
            let k = frame_index - 1;
            lemma_index_split(bitmap_index as int, bit_index as int);
            assert(!s[k]);
            assert(is_first_free(s, k));
            assert forall|k2: int| 0 <= k2 < FRAME_COUNT implies #[trigger] bitmap@[k2] == s.update(
                k,
                true,
            )[k2] by {
                lemma_set_bit(old_byte, bit_index, (k2 % 8) as u8);
            }
            assert(bitmap@ =~= s.update(k, true));
            lemma_first_free_unique(s, k);
        } else {
            assert(frame_index == FRAME_COUNT);
            assert(!has_free(s));
            assert(s[0]);
            lemma_set_first_bit_noop(old_byte);
            assert(bitmap.bits@ =~= old(bitmap).bits@);
            assert(bitmap@ =~= s);
        }
    }
    r
}

/// Returns the frame at physical address `frame` to the free frames; an
/// address at which the bitmap records no frame is ignored.
pub fn dealloc_frame(bitmap: &mut FrameBitmap, frame: u64)
    requires
        old(bitmap).wf(),
    ensures
        final(bitmap).wf(),
        final(bitmap)@ == match frame_index_of(frame) {
            Some(k) => old(bitmap)@.update(k, false),
            None => old(bitmap)@,
        },
{
    if frame < FRAME_BASE {
        return;
    }
    let k = (frame - FRAME_BASE) / FRAME_SIZE;
    if k >= FRAME_COUNT as u64 {
        return;
    }
    let k = k as usize;
    let i = k / 8;
    let j = (k % 8) as u8;
    let old_byte = bitmap.bits[i];
    let new_byte = old_byte & !(1u8 << (7 - j));
    bitmap.bits[i] = new_byte;
    proof {
        let ghost s = old(bitmap)@;
        assert forall|k2: int| 0 <= k2 < FRAME_COUNT implies #[trigger] bitmap@[k2] == s.update(
            k as int,
            false,
        )[k2] by {
            if k2 / 8 == i {
                let j2 = (k2 % 8) as u8;
                assert((((old_byte & !(1u8 << ((7u8 - j) as u8))) >> ((7u8 - j2) as u8)) & 1u8
                    == 1u8) == (j2 != j && (old_byte >> ((7u8 - j2) as u8)) & 1u8 == 1u8))
                    by (bit_vector)
                    requires
                        j < 8u8,
                        j2 < 8u8,
                ;
                assert(k2 == k <==> j2 == j);
            }
        }
        assert(bitmap@ =~= s.update(k as int, false));
    }
}

/// Memory after zeroing the 4 KiB that start at byte address `addr`.
pub open spec fn zero_page_spec(m: Seq<u64>, addr: int) -> Seq<u64> {
    Seq::new(m.len(), |k: int| if addr / 8 <= k < addr / 8 + 512 { 0u64 } else { m[k] })
}

/// Zeroes the 4 KiB of memory that start at `addr`.
pub fn zero_page4k(mem: &mut PhysMem, addr: u64)
    requires
        addr + 4096 <= u64::MAX,
    ensures
        final(mem)@ == zero_page_spec(old(mem)@, addr as int),
{
    let mut t: u64 = 0;
    while t < 512
        invariant
            t <= 512,
            addr + 4096 <= u64::MAX,
            mem@.len() == old(mem)@.len(),
            forall|k: int|
                0 <= k < mem@.len() ==> #[trigger] mem@[k] == (if addr / 8 <= k < addr / 8 + t {
                    0u64
                } else {
                    old(mem)@[k]
                }),
        decreases 512 - t,
    {
        let ghost before = mem@;
        mem.write(addr + t * 8, 0);
        assert((addr + t * 8) / 8 == addr / 8 + t);
        t = t + 1;
    }
    assert(mem@ =~= zero_page_spec(old(mem)@, addr as int));
}

/// Two allocations in a row give different frames, while the first left
/// a frame free for the second.
pub proof fn lemma_successive_allocations_differ(s: Seq<bool>)
    requires
        s.len() == FRAME_COUNT,
        has_free(s),
        has_free(alloc_frame_spec(s).0),
    ensures
        alloc_frame_spec(alloc_frame_spec(s).0).1 != alloc_frame_spec(s).1,
{
    let k = first_free(s);
    let w = choose|w: int| 0 <= w < s.len() && !#[trigger] s[w];
    lemma_first_free_exists(s, w);
    let s1 = alloc_frame_spec(s).0;
    let w1 = choose|w: int| 0 <= w < s1.len() && !#[trigger] s1[w];
    lemma_first_free_exists(s1, w1);
    let k1 = first_free(s1);
    assert(is_first_free(s, k));
    assert(is_first_free(s1, k1));
    assert(k1 != k);
    assert(frame_address(k) != frame_address(k1)) by (nonlinear_arith)
        requires k != k1;
    assert(0 <= k < FRAME_COUNT && 0 <= k1 < FRAME_COUNT);
    assert(frame_address(k) < 0x1_0000_0000_0000 && frame_address(k1) < 0x1_0000_0000_0000)
        by (nonlinear_arith)
        requires
            0 <= k < FRAME_COUNT,
            0 <= k1 < FRAME_COUNT,
    ;
}

/// Some free frame is the lowest free frame.
pub proof fn lemma_first_free_exists(s: Seq<bool>, w: int)
    requires
        0 <= w < s.len(),
        !s[w],
    ensures
        is_first_free(s, first_free(s)),
    decreases w,
{
    if forall|i: int| 0 <= i < w ==> #[trigger] s[i] {
        assert(is_first_free(s, w));
    } else {
        let i = choose|i: int| 0 <= i < w && !#[trigger] s[i];
        lemma_first_free_exists(s, i);
    }
}

/// Freeing the frame just allocated gives back the bitmap as it was.
pub proof fn lemma_dealloc_undoes_alloc(s: Seq<bool>)
    requires
        s.len() == FRAME_COUNT,
        has_free(s),
    ensures
        match frame_index_of(alloc_frame_spec(s).1) {
            Some(k) => alloc_frame_spec(s).0.update(k, false) == s,
            None => false,
        },
{
    let w = choose|w: int| 0 <= w < s.len() && !#[trigger] s[w];
    lemma_first_free_exists(s, w);
    let k = first_free(s);
    let a = alloc_frame_spec(s).1;
    assert(0 <= k < FRAME_COUNT);
    assert(a == FRAME_BASE + k * FRAME_SIZE) by (nonlinear_arith)
        requires
            a == (FRAME_BASE + k * FRAME_SIZE) as u64,
            0 <= k < FRAME_COUNT,
    ;
    assert((a - FRAME_BASE) / (FRAME_SIZE as int) == k) by (nonlinear_arith)
        requires
            a == FRAME_BASE + k * FRAME_SIZE,
            0 <= k,
    ;
    assert(s.update(k, true).update(k, false) =~= s);
}

} // verus!
