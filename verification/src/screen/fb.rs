//! A linear 32-bit framebuffer, held as the words of its memory.

use vstd::prelude::*;
use crate::mm::phys_mem::{PhysMem, mem_write};
use crate::mm::paging::{PG_PRESENT, PG_WRITEABLE, entry_spec, pde_spec, make_pde, make_pdpte};
use crate::mm::malloc::{translate_addr, translate_spec};
use crate::screen::output::{Font, draw_char, print_char_to_screen};

verus! {

/// The colour the screen is cleared to.
pub const BACKGROUND: u32 = 0x313131;

/// The pixel memory of a linear framebuffer: rows of `pitch / 4` words,
/// of which the first `width` of each of the `height` rows are shown.
pub struct Framebuffer {
    width: usize,
    height: usize,
    pitch: usize,
    pixels: Vec<u32>,
}

/// The colour word of a red, green and blue triple.
pub open spec fn rgb(r: u8, g: u8, b: u8) -> u32 {
    (r as int * 65536 + g as int * 256 + b as int) as u32
}

/// Words of framebuffer memory for the given geometry: `height` rows of
/// `stride` words, or `height` runs of `width` words where a row is
/// narrower than the visible width. Every visible pixel, and the first
/// `width * height` words, lie inside it.
pub open spec fn fb_words(width: int, stride: int, height: int) -> int {
    if width <= stride {
        stride * height
    } else {
        width * height
    }
}

impl View for Framebuffer {
    type V = Seq<u32>;

    closed spec fn view(&self) -> Seq<u32> {
        self.pixels@
    }
}

impl Framebuffer {
    pub closed spec fn spec_width(&self) -> nat {
        self.width as nat
    }

    pub closed spec fn spec_height(&self) -> nat {
        self.height as nat
    }

    /// Bytes per row.
    pub closed spec fn spec_pitch(&self) -> nat {
        self.pitch as nat
    }

    /// Words per row.
    pub closed spec fn stride(&self) -> nat {
        (self.pitch / 4) as nat
    }

    /// The memory holds every visible pixel.
    pub closed spec fn wf(&self) -> bool {
        self.pixels@.len() == fb_words(self.width as int, (self.pitch / 4) as int, self.height as int)
    }

    /// What well-formedness says of the memory: its size, and that every
    /// visible pixel and the first `width * height` words lie in it.
    pub proof fn lemma_geometry(&self)
        requires
            self.wf(),
        ensures
            self@.len() == fb_words(
                self.spec_width() as int,
                self.stride() as int,
                self.spec_height() as int,
            ),
            self.spec_width() * self.spec_height() <= self@.len(),
            forall|x: int, y: int|
                0 <= x < self.spec_width() && 0 <= y < self.spec_height() ==> #[trigger] self.index_of(
                    x,
                    y,
                ) < self@.len(),
    {
        let w = self.spec_width() as int;
        let h = self.spec_height() as int;
        let s = self.stride() as int;
        assert(w * h <= fb_words(w, s, h)) by (nonlinear_arith)
            requires
                s >= 0,
                h >= 0,
                w >= 0,
                fb_words(w, s, h) == if w <= s {
                    s * h
                } else {
                    w * h
                },
        ;
        assert forall|x: int, y: int| 0 <= x < w && 0 <= y < h implies #[trigger] self.index_of(
            x,
            y,
        ) < self@.len() by {
            assert(y * s + x < fb_words(w, s, h)) by (nonlinear_arith)
                requires
                    0 <= x < w,
                    0 <= y < h,
                    s >= 0,
                    fb_words(w, s, h) == if w <= s {
                        s * h
                    } else {
                        w * h
                    },
            ;
        }
    }

    /// The word index of the pixel at column `x` of row `y`.
    pub open spec fn index_of(&self, x: int, y: int) -> int {
        y * self.stride() + x
    }

    /// A framebuffer of the given geometry, all black; `None` when its
    /// memory would not fit the address space.
    pub fn new(width: usize, height: usize, pitch: usize) -> (r: Option<Self>)
        ensures
            r is Some <==> fb_words(width as int, (pitch / 4) as int, height as int) <= usize::MAX,
            r matches Some(f) ==> {
                &&& f.wf()
                &&& f.spec_width() == width
                &&& f.spec_height() == height
                &&& f.spec_pitch() == pitch
                &&& f.stride() == pitch / 4
                &&& f@ == Seq::new(
                    fb_words(width as int, (pitch / 4) as int, height as int) as nat,
                    |p: int| 0u32,
                )
            },
    {
        let stride = pitch / 4;
        let words = if width <= stride {
            stride.checked_mul(height)
        } else {
            width.checked_mul(height)
        };
        let len = match words {
            Some(l) => l,
            None => {
                return None;
            },
        };
        let mut pixels: Vec<u32> = Vec::new();
        let mut i: usize = 0;
        while i < len
            invariant
                i <= len,
                pixels@.len() == i,
                forall|k: int| 0 <= k < i ==> pixels@[k] == 0u32,
            decreases len - i,
        {
            pixels.push(0u32);
            i = i + 1;
        }
        assert(pixels@ =~= Seq::new(len as nat, |p: int| 0u32));
        Some(Framebuffer { width, height, pitch, pixels })
    }

    pub fn width(&self) -> (r: usize)
        ensures
            r == self.spec_width(),
    {
        self.width
    }

    pub fn height(&self) -> (r: usize)
        ensures
            r == self.spec_height(),
    {
        self.height
    }

    pub fn pitch(&self) -> (r: usize)
        ensures
            r == self.spec_pitch(),
            r / 4 == self.stride(),
    {
        self.pitch
    }

    /// The pixel memory, row after row.
    pub fn pixels(&self) -> (r: &Vec<u32>)
        ensures
            r@ == self@,
    {
        &self.pixels
    }
}

/// Sets the pixel at (`x`, `y`) to `color`; a pixel outside the visible
/// area is ignored.
pub fn put_pixel(fb: &mut Framebuffer, x: usize, y: usize, color: u32)
    requires
        old(fb).wf(),
    ensures
        final(fb).wf(),
        final(fb).spec_width() == old(fb).spec_width(),
        final(fb).spec_height() == old(fb).spec_height(),
        final(fb).stride() == old(fb).stride(),
        final(fb).spec_pitch() == old(fb).spec_pitch(),
        x < old(fb).spec_width() && y < old(fb).spec_height() ==> final(fb)@ == old(fb)@.update(
            old(fb).index_of(x as int, y as int),
            color,
        ),
        !(x < old(fb).spec_width() && y < old(fb).spec_height()) ==> final(fb)@ == old(fb)@,
{
    if x >= fb.width || y >= fb.height {
        return;
    }
    let stride = fb.pitch / 4;
    let len = fb.pixels.len();
    proof {
        fb.lemma_geometry();
        assert(fb.index_of(x as int, y as int) < len);
    }
    let idx = y * stride + x;
    fb.pixels[idx] = color;
}

/// Sets the pixel at (`x`, `y`) to the colour of `r`, `g`, `b`.
pub fn put_pixel_rgb(fb: &mut Framebuffer, x: usize, y: usize, r: u8, g: u8, b: u8)
    requires
        old(fb).wf(),
    ensures
        final(fb).wf(),
        final(fb).spec_width() == old(fb).spec_width(),
        final(fb).spec_height() == old(fb).spec_height(),
        final(fb).stride() == old(fb).stride(),
        final(fb).spec_pitch() == old(fb).spec_pitch(),
        x < old(fb).spec_width() && y < old(fb).spec_height() ==> final(fb)@ == old(fb)@.update(
            old(fb).index_of(x as int, y as int),
            rgb(r, g, b),
        ),
        !(x < old(fb).spec_width() && y < old(fb).spec_height()) ==> final(fb)@ == old(fb)@,
{
    let color = ((r as u32) << 16) | ((g as u32) << 8) | (b as u32);
    proof {
        let (rr, gg, bb) = (r as u32, g as u32, b as u32);
        assert((rr << 16u32) | (gg << 8u32) | bb == rr * 65536 + gg * 256 + bb) by (bit_vector)
            requires
                rr < 256,
                gg < 256,
                bb < 256,
        ;
    }
    put_pixel(fb, x, y, color);
}

/// Fills the whole framebuffer memory with the background colour.
pub fn clean_screen(fb: &mut Framebuffer)
    requires
        old(fb).wf(),
    ensures
        final(fb).wf(),
        final(fb).spec_width() == old(fb).spec_width(),
        final(fb).spec_height() == old(fb).spec_height(),
        final(fb).stride() == old(fb).stride(),
        final(fb).spec_pitch() == old(fb).spec_pitch(),
        final(fb)@ == Seq::new(old(fb)@.len(), |p: int| BACKGROUND),
{
    let len = fb.pixels.len();
    let mut i: usize = 0;
    while i < len
        invariant
            i <= len,
            len == fb.pixels@.len(),
            fb.wf(),
            fb.width == old(fb).width,
            fb.height == old(fb).height,
            fb.pitch == old(fb).pitch,
            forall|k: int| 0 <= k < i ==> fb.pixels@[k] == BACKGROUND,
        decreases len - i,
    {
        fb.pixels[i] = BACKGROUND;
        i = i + 1;
    }
    assert(fb@ =~= Seq::new(old(fb)@.len(), |p: int| BACKGROUND));
}

/// Sets the first `n` words of the framebuffer memory to `color`, in
/// memory order regardless of rows.
pub fn fill_words(fb: &mut Framebuffer, n: usize, color: u32)
    requires
        old(fb).wf(),
        n <= old(fb)@.len(),
    ensures
        final(fb).wf(),
        final(fb).spec_width() == old(fb).spec_width(),
        final(fb).spec_height() == old(fb).spec_height(),
        final(fb).stride() == old(fb).stride(),
        final(fb).spec_pitch() == old(fb).spec_pitch(),
        final(fb)@ == Seq::new(old(fb)@.len(), |p: int| if p < n { color } else { old(fb)@[p] }),
{
    let mut i: usize = 0;
    while i < n
        invariant
            i <= n,
            n <= fb.pixels@.len(),
            fb.pixels@.len() == old(fb).pixels@.len(),
            fb.wf(),
            fb.width == old(fb).width,
            fb.height == old(fb).height,
            fb.pitch == old(fb).pitch,
            forall|k: int|
                0 <= k < fb.pixels@.len() ==> #[trigger] fb.pixels@[k] == if k < i {
                    color
                } else {
                    old(fb).pixels@[k]
                },
        decreases n - i,
    {
        fb.pixels[i] = color;
        i = i + 1;
    }
    assert(fb@ =~= Seq::new(old(fb)@.len(), |p: int| if p < n { color } else { old(fb)@[p] }));
}

/// The little-endian 16-bit value at byte `off` of `b`.
pub open spec fn le_u16(b: Seq<u8>, off: int) -> int {
    b[off] + b[off + 1] * 0x100
}

/// The little-endian 32-bit value at byte `off` of `b`.
pub open spec fn le_u32(b: Seq<u8>, off: int) -> int {
    le_u16(b, off) + le_u16(b, off + 2) * 0x1_0000
}

/// The little-endian 64-bit value at byte `off` of `b`.
pub open spec fn le_u64(b: Seq<u8>, off: int) -> int {
    le_u32(b, off) + le_u32(b, off + 4) * 0x1_0000_0000
}

fn read_u16(b: &[u8], off: usize) -> (r: u16)
    requires
        off + 2 <= b@.len(),
    ensures
        r == le_u16(b@, off as int),
{
    let (x0, x1) = (b[off] as u16, b[off + 1] as u16);
    assert(x0 | (x1 << 8u16) == x0 + x1 * 0x100) by (bit_vector)
        requires
            x0 < 0x100,
            x1 < 0x100,
    ;
    x0 | (x1 << 8)
}

fn read_u32(b: &[u8], off: usize) -> (r: u32)
    requires
        off + 4 <= b@.len(),
    ensures
        r == le_u32(b@, off as int),
{
    let _len = b.len();
    let lo = read_u16(b, off) as u32;
    let hi = read_u16(b, off + 2) as u32;
    assert(lo | (hi << 16u32) == lo + hi * 0x1_0000) by (bit_vector)
        requires
            lo < 0x1_0000,
            hi < 0x1_0000,
    ;
    lo | (hi << 16)
}

fn read_u64(b: &[u8], off: usize) -> (r: u64)
    requires
        off + 8 <= b@.len(),
    ensures
        r == le_u64(b@, off as int),
{
    let _len = b.len();
    let lo = read_u32(b, off) as u64;
    let hi = read_u32(b, off + 4) as u64;
    assert(lo | (hi << 32u64) == lo + hi * 0x1_0000_0000) by (bit_vector)
        requires
            lo < 0x1_0000_0000,
            hi < 0x1_0000_0000,
    ;
    lo | (hi << 32)
}

/// The header every multiboot2 tag starts with.
#[derive(Clone, Copy, Debug)]
pub struct MultibootTagHeader {
    pub typ: u32,
    pub size: u32,
}

/// The multiboot2 framebuffer tag.
#[derive(Clone, Copy, Debug)]
pub struct FramebufferTag {
    pub typ: u32,
    pub size: u32,
    pub addr: u64,
    pub pitch: u32,
    pub width: u32,
    pub height: u32,
    pub bpp: u8,
    pub fb_type: u8,
    pub reserved: u16,
}

/// Tag type of the framebuffer tag.
pub const TAG_FRAMEBUFFER: u32 = 8;
/// Tag type that ends the tag list.
pub const TAG_END: u32 = 0;
/// Bytes of the framebuffer tag's fixed part.
pub const FRAMEBUFFER_TAG_LEN: usize = 32;

/// The offset of the first framebuffer tag at or after offset `off` of the
/// boot information `info`. Tags are walked by their sizes rounded up to 8
/// bytes; the walk ends without a result at the end tag, at a tag whose
/// rounded size is 0 (which would repeat forever), or where a tag header
/// would pass the end of `info`.
pub open spec fn scan_tags(info: Seq<u8>, off: int) -> Option<int>
    decreases info.len() - off,
{
    if off < 0 || off + 8 > info.len() {
        None
    } else {
        let typ = le_u32(info, off);
        let advance = ((le_u32(info, off + 4) + 7) / 8) * 8;
        if typ == TAG_FRAMEBUFFER {
            Some(off)
        } else if typ == TAG_END || advance == 0 || off + advance > info.len() {
            None
        } else {
            scan_tags(info, off + advance)
        }
    }
}

/// The header of the tag at offset `off` of `info`.
pub open spec fn header_at(info: Seq<u8>, off: int) -> MultibootTagHeader {
    MultibootTagHeader { typ: le_u32(info, off) as u32, size: le_u32(info, off + 4) as u32 }
}

/// Reads the tag header at offset `off`.
pub fn read_tag_header(info: &[u8], off: usize) -> (r: MultibootTagHeader)
    requires
        off + 8 <= info@.len(),
    ensures
        r == header_at(info@, off as int),
{
    let _len = info.len();
    MultibootTagHeader { typ: read_u32(info, off), size: read_u32(info, off + 4) }
}

/// Finds the framebuffer tag in the boot information `info`, whose tags
/// start at offset 8.
pub fn find_framebuffer_tag(info: &[u8]) -> (r: Option<usize>)
    ensures
        r matches Some(o) ==> scan_tags(info@, 8) == Some(o as int),
        r is None ==> scan_tags(info@, 8) is None,
{
    let len = info.len();
    let mut off: usize = 8;
    while off <= len && len - off >= 8
        invariant
            len == info@.len(),
            scan_tags(info@, 8) == scan_tags(info@, off as int),
        decreases len - off,
    {
        let tag = read_tag_header(info, off);
        let sz7: u64 = (tag.size as u64) + 7;
        let advance: u64 = sz7 & !7u64;
        assert(sz7 & !7u64 == (sz7 / 8) * 8) by (bit_vector);
        if tag.typ == TAG_FRAMEBUFFER {
            return Some(off);
        }
        if tag.typ == TAG_END || advance == 0 {
            return None;
        }
        if advance > (len - off) as u64 {
            return None;
        }
        off = off + advance as usize;
    }
    None
}

/// The framebuffer tag at offset `off` of `info`.
pub open spec fn tag_at(info: Seq<u8>, off: int) -> FramebufferTag {
    FramebufferTag {
        typ: le_u32(info, off) as u32,
        size: le_u32(info, off + 4) as u32,
        addr: le_u64(info, off + 8) as u64,
        pitch: le_u32(info, off + 16) as u32,
        width: le_u32(info, off + 20) as u32,
        height: le_u32(info, off + 24) as u32,
        bpp: info[off + 28],
        fb_type: info[off + 29],
        reserved: le_u16(info, off + 30) as u16,
    }
}

/// Reads the framebuffer tag at offset `off`; `None` when its fixed part
/// does not fit in `info`.
pub fn parse_framebuffer_tag(info: &[u8], off: usize) -> (r: Option<FramebufferTag>)
    ensures
        r is Some <==> off + FRAMEBUFFER_TAG_LEN <= info@.len(),
        r matches Some(t) ==> t == tag_at(info@, off as int),
{
    if off > info.len() || info.len() - off < FRAMEBUFFER_TAG_LEN {
        return None;
    }
    Some(
        FramebufferTag {
            typ: read_u32(info, off),
            size: read_u32(info, off + 4),
            addr: read_u64(info, off + 8),
            pitch: read_u32(info, off + 16),
            width: read_u32(info, off + 20),
            height: read_u32(info, off + 24),
            bpp: info[off + 28],
            fb_type: info[off + 29],
            reserved: read_u16(info, off + 30),
        },
    )
}

/// Why the framebuffer could not be set up.
#[derive(Clone, Copy, Debug, PartialEq, Eq, Structural)]
pub enum FbError {
    /// Pixels are not 32 bits deep.
    BadDepth,
}

/// The page directory through which the framebuffer is mapped.
pub const FB_PD: u64 = 0x600000;
/// Flags of the framebuffer mapping entries.
pub const FB_FLAGS: u64 = PG_PRESENT | PG_WRITEABLE;

/// Memory after mapping the framebuffer at `addr`: the last two entries of
/// the directory at 0x600000 map 4 MiB from `addr` as two 2 MiB pages, and
/// the last entry of the directory-pointer table after the top-level one
/// references that directory.
pub open spec fn fb_mapping_spec(m: Seq<u64>, pml4: u64, addr: u64) -> Seq<u64> {
    let m1 = mem_write(m, FB_PD + 496, pde_spec(true, addr, FB_FLAGS));
    let m2 = mem_write(m1, FB_PD + 504, pde_spec(true, (addr + 0x200000) as u64, FB_FLAGS));
    mem_write(m2, pml4 + 4096 + 504, entry_spec(FB_PD, FB_FLAGS))
}

/// The screen `init` leaves: the first `width * height` words in the
/// background colour, then "Hi" drawn in white at (10, 10).
pub open spec fn boot_screen(
    pixels: Seq<u32>,
    font: Seq<u8>,
    width: int,
    height: int,
    stride: int,
) -> Seq<u32> {
    let cleared = Seq::new(
        pixels.len(),
        |p: int| if p < width * height { BACKGROUND } else { pixels[p] },
    );
    let h = draw_char(cleared, font, 72u8, 10, 10, width, height, stride, rgb(255, 255, 255));
    draw_char(h, font, 105u8, 19, 10, width, height, stride, rgb(255, 255, 255))
}

/// Sets up the framebuffer the boot loader described in `tag`: checks the
/// depth, maps it, finds the virtual address under which the tables map
/// it, and gives its model (cleared, with a greeting) and that address.
pub fn init(mem: &mut PhysMem, pml4_base: u64, tag: &FramebufferTag, font: &Font) -> (r: Result<
    (Framebuffer, u64),
    FbError,
>)
    requires
        pml4_base <= crate::mm::paging::ADDR_MASK,
        tag.addr + 0x200000 <= u64::MAX,
        fb_words(tag.width as int, (tag.pitch / 4) as int, tag.height as int) <= usize::MAX,
        font.wf(),
    ensures
        tag.bpp != 32 ==> r == Err::<(Framebuffer, u64), FbError>(FbError::BadDepth) && final(mem)@
            == old(mem)@,
        tag.bpp == 32 ==> r is Ok && final(mem)@ == fb_mapping_spec(
            old(mem)@,
            pml4_base,
            tag.addr,
        ),
        r matches Ok((fb, virt)) ==> {
            &&& tag.bpp == 32
            &&& virt == translate_spec(final(mem)@, pml4_base, tag.addr)
            &&& fb.wf()
            &&& fb.spec_width() == tag.width
            &&& fb.spec_height() == tag.height
            &&& fb.spec_pitch() == tag.pitch
            &&& fb.stride() == tag.pitch / 4
            &&& fb@ == boot_screen(
                Seq::new(
                    fb_words(tag.width as int, (tag.pitch / 4) as int, tag.height as int) as nat,
                    |p: int| 0u32,
                ),
                font@,
                tag.width as int,
                tag.height as int,
                (tag.pitch / 4) as int,
            )
        },
{
    if tag.bpp != 32 {
        return Err(FbError::BadDepth);
    }
    mem.write(FB_PD + 496, make_pde(true, tag.addr, FB_FLAGS));
    mem.write(FB_PD + 504, make_pde(true, tag.addr + 2 * 1024 * 1024, FB_FLAGS));
    let pdpte_addr = pml4_base + 4096 + 504;
    mem.write(pdpte_addr, make_pdpte(FB_PD, FB_FLAGS));
    let virt = translate_addr(mem, pml4_base, tag.addr);
    let width = tag.width as usize;
    let height = tag.height as usize;
    let pitch = tag.pitch as usize;
    let mut fb = Framebuffer::new(width, height, pitch).unwrap();
    proof {
        fb.lemma_geometry();
    }
    fill_words(&mut fb, width * height, BACKGROUND);
    print_char_to_screen(&mut fb, font, 72u8, 10, 10, 255, 255, 255);
    print_char_to_screen(&mut fb, font, 105u8, 19, 10, 255, 255, 255);
    Ok((fb, virt))
}

/// The red, green and blue parts can be read back from a colour word.
pub proof fn lemma_rgb_components(r: u8, g: u8, b: u8)
    ensures
        rgb(r, g, b) / 65536 == r,
        (rgb(r, g, b) / 256) % 256 == g,
        rgb(r, g, b) % 256 == b,
{
    assert((r as int) * 65536 + (g as int) * 256 + (b as int) < 0x1_0000_0000);
}

/// The tag the scan finds is a framebuffer tag whose header lies inside the
/// boot information.
pub proof fn lemma_scan_finds_framebuffer(info: Seq<u8>, off: int)
    ensures
        scan_tags(info, off) matches Some(o) ==> {
            &&& off <= o
            &&& o + 8 <= info.len()
            &&& le_u32(info, o) == TAG_FRAMEBUFFER
        },
    decreases info.len() - off,
{
    if 0 <= off && off + 8 <= info.len() {
        let advance = ((le_u32(info, off + 4) + 7) / 8) * 8;
        if le_u32(info, off) != TAG_FRAMEBUFFER && le_u32(info, off) != TAG_END && advance != 0
            && off + advance <= info.len() {
            lemma_scan_finds_framebuffer(info, off + advance);
        }
    }
}

} // verus!
