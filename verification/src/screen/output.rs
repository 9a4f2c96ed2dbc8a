//! Glyph drawing and the scrolling text console.

use vstd::prelude::*;
use vstd::arithmetic::power2::{pow2, lemma2_to64};
use crate::screen::fb::{Framebuffer, put_pixel_rgb, rgb, clean_screen, fb_words, BACKGROUND};

verus! {

/// Glyphs in a font: one per 7-bit character code.
pub const GLYPHS: usize = 128;
/// Pixel rows of a glyph.
pub const GLYPH_ROWS: usize = 16;

/// An 8x16 bitmap font: row `i` of the glyph of character `c` is byte
/// `c * 16 + i`, its most significant bit the leftmost pixel.
pub struct Font {
    rows: Vec<u8>,
}

impl View for Font {
    type V = Seq<u8>;

    closed spec fn view(&self) -> Seq<u8> {
        self.rows@
    }
}

impl Font {
    /// The font holds a full row table.
    pub open spec fn wf(&self) -> bool {
        self@.len() == GLYPHS * GLYPH_ROWS
    }

    /// A font from its row table; `None` unless it holds `128 * 16` rows.
    pub fn new(rows: Vec<u8>) -> (r: Option<Self>)
        ensures
            r is Some <==> rows@.len() == GLYPHS * GLYPH_ROWS,
            r matches Some(f) ==> f@ == rows@,
    {
        if rows.len() == GLYPHS * GLYPH_ROWS {
            Some(Font { rows })
        } else {
            None
        }
    }

    /// Row `i` of the glyph of `c`.
    pub fn glyph_row(&self, c: u8, i: usize) -> (r: u8)
        requires
            self.wf(),
            c < GLYPHS,
            i < GLYPH_ROWS,
        ensures
            r == self@[c * 16 + i],
    {
        self.rows[c as usize * GLYPH_ROWS + i]
    }
}

/// Whether pixel `j` of a glyph row is drawn. The last pixel of a row is
/// drawn only when the whole row byte is 1.
pub open spec fn glyph_on(row: u8, j: int) -> bool {
    if j == 7 {
        row == 1u8
    } else {
        (row >> ((7 - j) as u8)) & 1u8 == 1u8
    }
}

/// The pixels after drawing the first `n` cells of the glyph of `c` at
/// (`x`, `y`) in `color`, cell after cell in row-major order: a cell whose
/// pixel is drawn and lies in the visible area sets the word of that pixel.
/// A character outside the font draws nothing.
pub open spec fn draw_char_upto(
    pixels: Seq<u32>,
    font: Seq<u8>,
    c: u8,
    x: int,
    y: int,
    width: int,
    height: int,
    stride: int,
    color: u32,
    n: nat,
) -> Seq<u32>
    decreases n,
{
    if c >= 128 || n == 0 {
        pixels
    } else {
        let prev = draw_char_upto(pixels, font, c, x, y, width, height, stride, color, (n - 1) as nat);
        let i = (n - 1) / 8;
        let j = (n - 1) % 8;
        if glyph_on(font[c * 16 + i], j) && x + j < width && y + i < height {
            prev.update((y + i) * stride + x + j, color)
        } else {
            prev
        }
    }
}

/// The pixels after drawing the whole glyph of `c` at (`x`, `y`).
pub open spec fn draw_char(
    pixels: Seq<u32>,
    font: Seq<u8>,
    c: u8,
    x: int,
    y: int,
    width: int,
    height: int,
    stride: int,
    color: u32,
) -> Seq<u32> {
    draw_char_upto(pixels, font, c, x, y, width, height, stride, color, 128)
}

proof fn lemma_glyph_bit(row: u8, j: u8)
    requires
        j < 8,
    ensures
        (if j == 0 {
            row >> 7u8
        } else if j == 7 {
            row
        } else {
            (row >> ((7 - j) as u8)) & 1u8
        } == 1u8) == glyph_on(row, j as int),
{
    if j == 0 {
        assert((row >> 7u8 == 1u8) == ((row >> 7u8) & 1u8 == 1u8)) by (bit_vector);
    }
}

/// Draws character `c` from `font` with its top-left corner at (`x`, `y`)
/// in the colour of `r`, `g`, `b`; pixels outside the visible area are
/// skipped. A character of 128 or above draws nothing and is given back,
/// for the caller to report; any other gives `None`.
pub fn print_char_to_screen(
    fb: &mut Framebuffer,
    font: &Font,
    c: u8,
    x: u64,
    y: u64,
    r: u8,
    g: u8,
    b: u8,
) -> (skipped: Option<u8>)
    requires
        old(fb).wf(),
        font.wf(),
        x + 7 <= usize::MAX,
        y + 15 <= usize::MAX,
    ensures
        skipped == if c >= 128 {
            Some(c)
        } else {
            None
        },
        final(fb).wf(),
        final(fb).spec_width() == old(fb).spec_width(),
        final(fb).spec_height() == old(fb).spec_height(),
        final(fb).stride() == old(fb).stride(),
        final(fb).spec_pitch() == old(fb).spec_pitch(),
        final(fb)@.len() == old(fb)@.len(),
        final(fb)@ == draw_char(
            old(fb)@,
            font@,
            c,
            x as int,
            y as int,
            old(fb).spec_width() as int,
            old(fb).spec_height() as int,
            old(fb).stride() as int,
            rgb(r, g, b),
        ),
{
    proof {
        old(fb).lemma_geometry();
    }
    if c >= 128 {
        return Some(c);
    }
    let ghost w = old(fb).spec_width() as int;
    let ghost h = old(fb).spec_height() as int;
    let ghost s = old(fb).stride() as int;
    let ghost color = rgb(r, g, b);
    let ghost start = old(fb)@;
    let mut i: usize = 0;
    while i < 16
        invariant
            i <= 16,
            c < 128,
            font.wf(),
            fb.wf(),
            x + 7 <= usize::MAX,
            y + 15 <= usize::MAX,
            fb.spec_width() == w,
            fb.spec_height() == h,
            fb.stride() == s,
            fb.spec_pitch() == old(fb).spec_pitch(),
            color == rgb(r, g, b),
            fb@ == draw_char_upto(
                start,
                font@,
                c,
                x as int,
                y as int,
                w,
                h,
                s,
                color,
                (i * 8) as nat,
            ),
        decreases 16 - i,
    {
        let row = font.glyph_row(c, i);
        let mut j: u8 = 0;
        while j < 8
            invariant
                i < 16,
                j <= 8,
                c < 128,
                row == font@[c * 16 + i],
                font.wf(),
                fb.wf(),
                x + 7 <= usize::MAX,
                y + 15 <= usize::MAX,
                fb.spec_width() == w,
                fb.spec_height() == h,
                fb.stride() == s,
                fb.spec_pitch() == old(fb).spec_pitch(),
                color == rgb(r, g, b),
                fb@ == draw_char_upto(
                    start,
                    font@,
                    c,
                    x as int,
                    y as int,
                    w,
                    h,
                    s,
                    color,
                    (i * 8 + j) as nat,
                ),
            decreases 8 - j,
        {
            let bit: u8 = if j == 0 {
                row >> 7
            } else if j == 7 {
                row
            } else {
                (row >> (7 - j)) & 1
            };
            proof {
                lemma_glyph_bit(row, j);
                let n = i * 8 + j;
                assert(n / 8 == i && n % 8 == j) by (nonlinear_arith)
                    requires
                        n == i * 8 + j,
                        0 <= j < 8,
                        0 <= i,
                ;
            }
            let px = (j as u64 + x) as usize;
            let py = (i as u64 + y) as usize;
            if bit == 1 {
                put_pixel_rgb(fb, px, py, r, g, b);
            }
            j = j + 1;
        }
        i = i + 1;
    }
    proof {
        fb.lemma_geometry();
    }
    None
}

/// Character code of a line break.
pub const NEWLINE: u8 = 10;
/// Horizontal advance of a console cell in pixels.
pub const CELL_WIDTH: usize = 9;
/// Height of a console line used to size the console.
pub const CELL_HEIGHT: usize = 17;

/// The buffer moved up by one console row, with an empty last row.
pub open spec fn scroll(buf: Seq<u8>, row: int) -> Seq<u8> {
    buf.subrange(row, buf.len() as int) + Seq::new(row as nat, |k: int| 0u8)
}

/// The buffer and write position just after character `c` is stored,
/// before any scroll that a full buffer then takes: a full buffer first
/// scrolls up a row.
pub open spec fn print_write(buf: Seq<u8>, index: int, row: int, c: u8) -> (Seq<u8>, int) {
    let size = buf.len() as int;
    let b1 = if index == size { scroll(buf, row) } else { buf };
    let i1 = if index == size { index - row } else { index };
    (b1.update(i1, c), i1 + 1)
}

/// The buffer, write position and whether the screen is redrawn, after
/// the console takes character `c`.
pub open spec fn print_step(buf: Seq<u8>, index: int, row: int, c: u8) -> (Seq<u8>, int, bool) {
    let size = buf.len() as int;
    let (b2, i2) = print_write(buf, index, row, c);
    if i2 == size {
        (scroll(b2, row), i2 - row, true)
    } else {
        (b2, i2, c == NEWLINE)
    }
}

/// The characters of 128 or above among the placed glyphs `ps`, in order:
/// the ones drawing skips and reports.
pub open spec fn skipped_chars(ps: Seq<(u8, int, int)>) -> Seq<u8>
    decreases ps.len(),
{
    if ps.len() == 0 {
        Seq::empty()
    } else {
        let prev = skipped_chars(ps.drop_last());
        if ps.last().0 >= 128 {
            prev.push(ps.last().0)
        } else {
            prev
        }
    }
}

/// The characters reported while the console takes `c`: those skipped by
/// the redraw after a line break, then those skipped by the redraw after
/// the buffer fills and scrolls.
pub open spec fn print_log(buf: Seq<u8>, index: int, row: int, line: int, c: u8) -> Seq<u8> {
    let size = buf.len() as int;
    let (b2, i2) = print_write(buf, index, row, c);
    let first = if c == NEWLINE {
        skipped_chars(layout(b2, row, line))
    } else {
        Seq::empty()
    };
    let second = if i2 == size {
        skipped_chars(layout(scroll(b2, row), row, line))
    } else {
        Seq::empty()
    };
    first + second
}

/// The layout of the first `n` buffer cells on a console of `row` columns
/// and `line` lines: the cursor column and line, whether the screen is full,
/// and the glyphs placed so far as (character, x, y).
pub open spec fn layout_upto(buf: Seq<u8>, row: int, line: int, n: nat) -> (
    int,
    int,
    bool,
    Seq<(u8, int, int)>,
)
    decreases n,
{
    if n == 0 || n > buf.len() {
        (0, 0, false, Seq::empty())
    } else {
        let prev = layout_upto(buf, row, line, (n - 1) as nat);
        let cx = prev.0;
        let cy = prev.1;
        let ps = prev.3;
        if prev.2 {
            prev
        } else {
            let c = buf[n - 1];
            if c == NEWLINE {
                (0, cy + 1, cy + 1 >= line, ps)
            } else {
                let ps2 = if c != 0 {
                    ps.push((c, cx * 9, 1 + cy * 16))
                } else {
                    ps
                };
                if cx + 1 == row {
                    (0, cy + 1, cy + 1 >= line, ps2)
                } else {
                    (cx + 1, cy, false, ps2)
                }
            }
        }
    }
}

/// The glyphs the whole buffer places on the screen.
pub open spec fn layout(buf: Seq<u8>, row: int, line: int) -> Seq<(u8, int, int)> {
    layout_upto(buf, row, line, buf.len()).3
}

/// The pixels after drawing each glyph of `ps` in turn.
pub open spec fn draw_glyphs(
    pixels: Seq<u32>,
    font: Seq<u8>,
    ps: Seq<(u8, int, int)>,
    width: int,
    height: int,
    stride: int,
    color: u32,
) -> Seq<u32>
    decreases ps.len(),
{
    if ps.len() == 0 {
        pixels
    } else {
        let last = ps.last();
        draw_char(
            draw_glyphs(pixels, font, ps.drop_last(), width, height, stride, color),
            font,
            last.0,
            last.1,
            last.2,
            width,
            height,
            stride,
            color,
        )
    }
}

/// The colour text is drawn in.
pub open spec fn white() -> u32 {
    rgb(255, 255, 255)
}

/// The screen showing buffer `buf`: a cleared framebuffer of `len` words
/// with the buffer's glyphs drawn in white.
pub open spec fn render(
    len: nat,
    font: Seq<u8>,
    buf: Seq<u8>,
    row: int,
    line: int,
    width: int,
    height: int,
    stride: int,
) -> Seq<u32> {
    draw_glyphs(
        Seq::new(len, |p: int| BACKGROUND),
        font,
        layout(buf, row, line),
        width,
        height,
        stride,
        white(),
    )
}

/// A text console of `row` columns and `line` lines over a character
/// buffer that scrolls up by a row when full.
pub struct Writer {
    row: usize,
    line: usize,
    size: usize,
    buffer: Vec<u8>,
    index: usize,
}

impl Writer {
    pub closed spec fn spec_row(&self) -> nat {
        self.row as nat
    }

    pub closed spec fn spec_line(&self) -> nat {
        self.line as nat
    }

    pub closed spec fn spec_size(&self) -> nat {
        self.size as nat
    }

    /// The character buffer, row after row.
    pub closed spec fn spec_buffer(&self) -> Seq<u8> {
        self.buffer@
    }

    /// Where the next character goes.
    pub closed spec fn spec_index(&self) -> nat {
        self.index as nat
    }

    pub closed spec fn wf(&self) -> bool {
        &&& self.size == self.row * self.line
        &&& self.buffer@.len() == self.size
        &&& self.index <= self.size
        &&& self.row * CELL_WIDTH <= usize::MAX
        &&& self.line * CELL_HEIGHT <= usize::MAX
    }

    /// What well-formedness says of the console.
    pub proof fn lemma_wf(&self)
        requires
            self.wf(),
        ensures
            self.spec_size() == self.spec_row() * self.spec_line(),
            self.spec_buffer().len() == self.spec_size(),
            self.spec_index() <= self.spec_size(),
            self.spec_row() * 9 <= usize::MAX,
            self.spec_line() * 17 <= usize::MAX,
    {
    }

    /// A console for a screen `x` pixels wide and `y` high: a column per 9
    /// pixels, a line per 17, and an empty buffer.
    pub fn new(x: usize, y: usize) -> (r: Self)
        requires
            (x / 9) * (y / 17) <= usize::MAX,
        ensures
            r.wf(),
            r.spec_row() == x / 9,
            r.spec_line() == y / 17,
            r.spec_size() == (x / 9) * (y / 17),
            r.spec_index() == 0,
            r.spec_buffer() == Seq::new(r.spec_size(), |k: int| 0u8),
    {
        let row = x / CELL_WIDTH;
        let line = y / CELL_HEIGHT;
        let size = row * line;
        let mut buffer: Vec<u8> = Vec::new();
        let mut i: usize = 0;
        while i < size
            invariant
                i <= size,
                buffer@.len() == i,
                forall|k: int| 0 <= k < i ==> buffer@[k] == 0u8,
            decreases size - i,
        {
            buffer.push(0u8);
            i = i + 1;
        }
        assert(buffer@ =~= Seq::new(size as nat, |k: int| 0u8));
        Writer { row, line, size, buffer, index: 0 }
    }

    /// Columns of the console.
    pub fn row(&self) -> (r: usize)
        ensures
            r == self.spec_row(),
    {
        self.row
    }

    /// Lines of the console.
    pub fn line(&self) -> (r: usize)
        ensures
            r == self.spec_line(),
    {
        self.line
    }

    /// Cells of the buffer.
    pub fn size(&self) -> (r: usize)
        ensures
            r == self.spec_size(),
    {
        self.size
    }

    /// Where the next character goes.
    pub fn index(&self) -> (r: usize)
        ensures
            r == self.spec_index(),
    {
        self.index
    }

    /// The character buffer.
    pub fn buffer(&self) -> (r: &Vec<u8>)
        ensures
            r@ == self.spec_buffer(),
    {
        &self.buffer
    }

    /// Moves every row of the buffer up by one and empties the last row.
    pub fn row_buffer(&mut self)
        requires
            old(self).wf(),
            old(self).spec_row() <= old(self).spec_size(),
        ensures
            final(self).wf(),
            final(self).spec_row() == old(self).spec_row(),
            final(self).spec_line() == old(self).spec_line(),
            final(self).spec_size() == old(self).spec_size(),
            final(self).spec_index() == old(self).spec_index(),
            final(self).spec_buffer() == scroll(old(self).spec_buffer(), old(self).spec_row() as int),
    {
        let row = self.row;
        let size = self.size;
        let ghost b0 = self.buffer@;
        let mut i: usize = row;
        while i < size
            invariant
                row <= i <= size,
                size == self.size,
                row == self.row,
                self.wf(),
                self.line == old(self).line,
                self.index == old(self).index,
                b0 == old(self).buffer@,
                forall|k: int| 0 <= k < i - row ==> self.buffer@[k] == b0[k + row],
                forall|k: int| i - row <= k < size ==> self.buffer@[k] == b0[k],
            decreases size - i,
        {
            let v = self.buffer[i];
            self.buffer[i - row] = v;
            i = i + 1;
        }
        let mut i: usize = size - row;
        while i < size
            invariant
                row <= size,
                size - row <= i <= size,
                size == self.size,
                row == self.row,
                self.wf(),
                self.line == old(self).line,
                self.index == old(self).index,
                b0 == old(self).buffer@,
                forall|k: int| 0 <= k < size - row ==> self.buffer@[k] == b0[k + row],
                forall|k: int| size - row <= k < i ==> self.buffer@[k] == 0u8,
            decreases size - i,
        {
            self.buffer[i] = 0u8;
            i = i + 1;
        }
        assert(self.buffer@ =~= scroll(b0, row as int));
    }

    /// Redraws the screen: clears it, then lays the buffer out cell by
    /// cell, a line break or a full row moving to the next line, and draws
    /// each non-empty cell in white until the lines run out. Gives back, in
    /// order, the characters the font has no glyph for, which draw nothing.
    pub fn flush_buffer(&self, fb: &mut Framebuffer, font: &Font) -> (skipped: Vec<u8>)
        requires
            self.wf(),
            old(fb).wf(),
            font.wf(),
        ensures
            skipped@ == skipped_chars(
                layout(self.spec_buffer(), self.spec_row() as int, self.spec_line() as int),
            ),
            final(fb).wf(),
            final(fb).spec_width() == old(fb).spec_width(),
            final(fb).spec_height() == old(fb).spec_height(),
            final(fb).stride() == old(fb).stride(),
            final(fb).spec_pitch() == old(fb).spec_pitch(),
            final(fb)@.len() == old(fb)@.len(),
            final(fb)@ == render(
                old(fb)@.len(),
                font@,
                self.spec_buffer(),
                self.spec_row() as int,
                self.spec_line() as int,
                old(fb).spec_width() as int,
                old(fb).spec_height() as int,
                old(fb).stride() as int,
            ),
    {
        let ghost w = old(fb).spec_width() as int;
        let ghost h = old(fb).spec_height() as int;
        let ghost s = old(fb).stride() as int;
        let ghost buf = self.buffer@;
        let ghost row = self.row as int;
        let ghost line = self.line as int;
        clean_screen(fb);
        let ghost cleared = fb@;
        let mut cx: u64 = 0;
        let mut cy: u64 = 0;
        let mut stop = false;
        let mut k: usize = 0;
        let len = self.buffer.len();
        let ghost mut ps: Seq<(u8, int, int)> = Seq::empty();
        let mut skipped: Vec<u8> = Vec::new();
        proof {
            if len > 0 {
                assert(self.row > 0 && self.line > 0) by (nonlinear_arith)
                    requires
                        len == self.row * self.line,
                        len > 0,
                ;
            }
        }
        while k < len && !stop
            invariant
                self.wf(),
                len == buf.len(),
                buf == self.buffer@,
                row == self.row,
                line == self.line,
                k <= len,
                font.wf(),
                fb.wf(),
                fb.spec_width() == w,
                fb.spec_height() == h,
                fb.stride() == s,
                fb.spec_pitch() == old(fb).spec_pitch(),
                cleared.len() == fb@.len(),
                layout_upto(buf, row, line, k as nat) == (cx as int, cy as int, stop, ps),
                len > 0 ==> row > 0 && line > 0,
                !stop && len > 0 ==> cx < row && cy < line,
                fb@ == draw_glyphs(cleared, font@, ps, w, h, s, white()),
                skipped@ == skipped_chars(ps),
            decreases len - k,
        {
            let c = self.buffer[k];
            let ghost prev_ps = ps;
            if c == NEWLINE {
                cx = 0;
                cy = cy + 1;
                if cy >= self.line as u64 {
                    stop = true;
                }
            } else {
                if c != 0 {
                    proof {
                        assert(cx * 9 + 8 <= self.row * 9) by (nonlinear_arith)
                            requires cx < self.row;
                        assert(1 + cy * 16 + 16 <= self.line * 17) by (nonlinear_arith)
                            requires cy < self.line;
                    }
                    let missing = print_char_to_screen(
                        fb,
                        font,
                        c,
                        cx * 9,
                        1 + cy * 16,
                        255,
                        255,
                        255,
                    );
                    if let Some(m) = missing {
                        skipped.push(m);
                    }
                    proof {
                        ps = ps.push((c, cx * 9, 1 + cy * 16));
                        assert(ps.drop_last() =~= prev_ps);
                    }
                }
                cx = cx + 1;
                if cx == self.row as u64 {
                    cx = 0;
                    cy = cy + 1;
                    if cy >= self.line as u64 {
                        stop = true;
                    }
                }
            }
            k = k + 1;
        }
        proof {
            if stop {
                lemma_layout_stops(buf, row, line, k as nat, buf.len());
            }
            assert(cleared =~= Seq::new(old(fb)@.len(), |p: int| BACKGROUND));
            fb.lemma_geometry();
            old(fb).lemma_geometry();
        }
        skipped
    }

    /// Puts character `c` into the buffer: a full buffer first scrolls up a
    /// row; the screen is redrawn after a line break, and when the buffer
    /// fills it scrolls and the screen is redrawn. Gives back the
    /// characters each redraw had no glyph for, in order.
    pub fn print_char(&mut self, c: u8, fb: &mut Framebuffer, font: &Font) -> (skipped: Vec<u8>)
        requires
            old(self).wf(),
            old(self).spec_size() > 0,
            old(fb).wf(),
            font.wf(),
        ensures
            final(self).wf(),
            final(self).spec_row() == old(self).spec_row(),
            final(self).spec_line() == old(self).spec_line(),
            final(self).spec_size() == old(self).spec_size(),
            final(self).spec_index() < final(self).spec_size(),
            skipped@ == print_log(
                old(self).spec_buffer(),
                old(self).spec_index() as int,
                old(self).spec_row() as int,
                old(self).spec_line() as int,
                c,
            ),
            ({
                let (b, i, flushed) = print_step(
                    old(self).spec_buffer(),
                    old(self).spec_index() as int,
                    old(self).spec_row() as int,
                    c,
                );
                &&& final(self).spec_buffer() == b
                &&& final(self).spec_index() == i
                &&& flushed ==> final(fb)@ == render(
                    old(fb)@.len(),
                    font@,
                    b,
                    old(self).spec_row() as int,
                    old(self).spec_line() as int,
                    old(fb).spec_width() as int,
                    old(fb).spec_height() as int,
                    old(fb).stride() as int,
                )
                &&& !flushed ==> final(fb)@ == old(fb)@
            }),
            final(fb).wf(),
            final(fb).spec_width() == old(fb).spec_width(),
            final(fb).spec_height() == old(fb).spec_height(),
            final(fb).stride() == old(fb).stride(),
            final(fb).spec_pitch() == old(fb).spec_pitch(),
    {
        proof {
            assert(self.row <= self.size) by (nonlinear_arith)
                requires
                    self.size == self.row * self.line,
                    self.size > 0,
            ;
            assert(self.row > 0) by (nonlinear_arith)
                requires
                    self.size == self.row * self.line,
                    self.size > 0,
            ;
        }
        if self.index == self.size {
            self.row_buffer();
            self.index = self.index - self.row;
        }
        self.buffer[self.index] = c;
        self.index = self.index + 1;
        let mut skipped: Vec<u8> = Vec::new();
        if c == NEWLINE {
            skipped = self.flush_buffer(fb, font);
        }
        if self.index == self.size {
            self.row_buffer();
            let mut more = self.flush_buffer(fb, font);
            skipped.append(&mut more);
            self.index = self.index - self.row;
        }
        skipped
    }
}

/// The buffer, write position, the buffer the screen last showed if it was
/// redrawn, and the characters reported, after the console takes each byte
/// of `s` in turn.
pub open spec fn print_all(buf: Seq<u8>, index: int, row: int, line: int, s: Seq<u8>) -> (
    Seq<u8>,
    int,
    Option<Seq<u8>>,
    Seq<u8>,
)
    decreases s.len(),
{
    if s.len() == 0 {
        (buf, index, None, Seq::empty())
    } else {
        let prev = print_all(buf, index, row, line, s.drop_last());
        let step = print_step(prev.0, prev.1, row, s.last());
        (
            step.0,
            step.1,
            if step.2 {
                Some(step.0)
            } else {
                prev.2
            },
            prev.3 + print_log(prev.0, prev.1, row, line, s.last()),
        )
    }
}

impl Writer {
    /// Puts each byte of `s` into the console in turn, and gives back the
    /// characters the redraws on the way had no glyph for.
    pub fn write_bytes(&mut self, s: &[u8], fb: &mut Framebuffer, font: &Font) -> (skipped: Vec<
        u8,
    >)
        requires
            old(self).wf(),
            s@.len() > 0 ==> old(self).spec_size() > 0,
            old(fb).wf(),
            font.wf(),
        ensures
            final(self).wf(),
            final(self).spec_row() == old(self).spec_row(),
            final(self).spec_line() == old(self).spec_line(),
            final(self).spec_size() == old(self).spec_size(),
            final(fb).wf(),
            final(fb).spec_width() == old(fb).spec_width(),
            final(fb).spec_height() == old(fb).spec_height(),
            final(fb).stride() == old(fb).stride(),
            final(fb).spec_pitch() == old(fb).spec_pitch(),
            ({
                let (b, i, shown, logged) = print_all(
                    old(self).spec_buffer(),
                    old(self).spec_index() as int,
                    old(self).spec_row() as int,
                    old(self).spec_line() as int,
                    s@,
                );
                &&& final(self).spec_buffer() == b
                &&& final(self).spec_index() == i
                &&& skipped@ == logged
                &&& match shown {
                    Some(sb) => final(fb)@ == render(
                        old(fb)@.len(),
                        font@,
                        sb,
                        old(self).spec_row() as int,
                        old(self).spec_line() as int,
                        old(fb).spec_width() as int,
                        old(fb).spec_height() as int,
                        old(fb).stride() as int,
                    ),
                    None => final(fb)@ == old(fb)@,
                }
            }),
    {
        let ghost b0 = self.spec_buffer();
        let ghost i0 = self.spec_index() as int;
        let ghost row = self.spec_row() as int;
        let ghost line = self.spec_line() as int;
        let ghost f0 = fb@;
        let mut skipped: Vec<u8> = Vec::new();
        let mut k: usize = 0;
        while k < s.len()
            invariant
                k <= s@.len(),
                self.wf(),
                s@.len() > 0 ==> self.spec_size() > 0,
                self.spec_row() == row,
                self.spec_line() == line,
                line == old(self).spec_line(),
                self.spec_size() == old(self).spec_size(),
                fb.wf(),
                fb.spec_width() == old(fb).spec_width(),
                fb.spec_height() == old(fb).spec_height(),
                fb.stride() == old(fb).stride(),
                fb.spec_pitch() == old(fb).spec_pitch(),
                fb@.len() == f0.len(),
                font.wf(),
                ({
                    let (b, i, shown, logged) = print_all(
                        b0,
                        i0,
                        row,
                        line,
                        s@.subrange(0, k as int),
                    );
                    &&& self.spec_buffer() == b
                    &&& self.spec_index() == i
                    &&& skipped@ == logged
                    &&& match shown {
                        Some(sb) => fb@ == render(
                            f0.len(),
                            font@,
                            sb,
                            row,
                            line,
                            fb.spec_width() as int,
                            fb.spec_height() as int,
                            fb.stride() as int,
                        ),
                        None => fb@ == f0,
                    }
                }),
            decreases s@.len() - k,
        {
            proof {
                fb.lemma_geometry();
            }
            let mut more = self.print_char(s[k], fb, font);
            skipped.append(&mut more);
            proof {
                fb.lemma_geometry();
                assert(s@.subrange(0, k + 1).drop_last() =~= s@.subrange(0, k as int));
            }
            k = k + 1;
        }
        assert(s@.subrange(0, s@.len() as int) =~= s@);
        skipped
    }
}

/// A character the console takes is what the buffer holds just before the
/// new write position, scrolled or not, and the buffer keeps its size.
pub proof fn lemma_print_shows_char(buf: Seq<u8>, index: int, row: int, c: u8)
    requires
        0 < row <= buf.len(),
        0 <= index <= buf.len(),
    ensures
        print_step(buf, index, row, c).0.len() == buf.len(),
        0 <= print_step(buf, index, row, c).1 < buf.len(),
        print_step(buf, index, row, c).1 > 0 ==> print_step(buf, index, row, c).0[print_step(
            buf,
            index,
            row,
            c,
        ).1 - 1] == c,
{
}

/// Taking the bytes `s` and then byte `c` is taking `s` and then printing
/// `c` as one character: each byte of a string goes through the console
/// in turn, as a single character would.
pub proof fn lemma_print_all_push(buf: Seq<u8>, index: int, row: int, line: int, s: Seq<u8>, c: u8)
    ensures
        ({
            let prev = print_all(buf, index, row, line, s);
            let step = print_step(prev.0, prev.1, row, c);
            let next = print_all(buf, index, row, line, s.push(c));
            &&& next.0 == step.0
            &&& next.1 == step.1
            &&& next.2 == (if step.2 {
                Some(step.0)
            } else {
                prev.2
            })
            &&& next.3 == prev.3 + print_log(prev.0, prev.1, row, line, c)
        }),
{
    assert(s.push(c).drop_last() =~= s);
}

/// Taking `s1` and then `s2` is taking `s1 + s2`: the console ends in the
/// same buffer and position, the screen shows the last redraw of either
/// part, and the reported characters are those of `s1` followed by those of
/// `s2`.
pub proof fn lemma_print_all_concat(
    buf: Seq<u8>,
    index: int,
    row: int,
    line: int,
    s1: Seq<u8>,
    s2: Seq<u8>,
)
    ensures
        ({
            let first = print_all(buf, index, row, line, s1);
            let second = print_all(first.0, first.1, row, line, s2);
            let whole = print_all(buf, index, row, line, s1 + s2);
            &&& whole.0 == second.0
            &&& whole.1 == second.1
            &&& whole.2 == (if second.2 is Some {
                second.2
            } else {
                first.2
            })
            &&& whole.3 == first.3 + second.3
        }),
    decreases s2.len(),
{
    let first = print_all(buf, index, row, line, s1);
    if s2.len() == 0 {
        assert(s1 + s2 =~= s1);
        assert(first.3 + Seq::<u8>::empty() =~= first.3);
    } else {
        let init = s2.drop_last();
        let c = s2.last();
        lemma_print_all_concat(buf, index, row, line, s1, init);
        assert((s1 + s2).drop_last() =~= s1 + init);
        assert((s1 + s2).last() == c);
        assert(init.push(c) =~= s2);
        lemma_print_all_push(first.0, first.1, row, line, init, c);
        let mid = print_all(first.0, first.1, row, line, init);
        let whole_mid = print_all(buf, index, row, line, s1 + init);
        let log = print_log(mid.0, mid.1, row, line, c);
        assert(first.3 + (mid.3 + log) =~= (first.3 + mid.3) + log);
        assert(whole_mid.3 + log =~= first.3 + (mid.3 + log));
    }
}

/// A line break in the buffer, met while the screen still has room, sends
/// the cursor to column 0 of the next line and places no glyph; the
/// screen is full once that line is past the last one.
pub proof fn lemma_newline_starts_next_line(buf: Seq<u8>, row: int, line: int, n: nat)
    requires
        n < buf.len(),
        !layout_upto(buf, row, line, n).2,
        buf[n as int] == NEWLINE,
    ensures
        layout_upto(buf, row, line, n + 1).0 == 0,
        layout_upto(buf, row, line, n + 1).1 == layout_upto(buf, row, line, n).1 + 1,
        layout_upto(buf, row, line, n + 1).2 == (layout_upto(buf, row, line, n).1 + 1 >= line),
        layout_upto(buf, row, line, n + 1).3 == layout_upto(buf, row, line, n).3,
{
    assert(layout_upto(buf, row, line, n + 1) == {
        let prev = layout_upto(buf, row, line, n);
        (0int, prev.1 + 1, prev.1 + 1 >= line, prev.3)
    });
}

/// A character other than a line break or an empty cell, met while the
/// screen still has room, is placed at the cursor: 9 pixels per column,
/// 16 per line and one blank pixel row at the top.
pub proof fn lemma_char_placed_at_cursor(buf: Seq<u8>, row: int, line: int, n: nat)
    requires
        n < buf.len(),
        !layout_upto(buf, row, line, n).2,
        buf[n as int] != NEWLINE,
        buf[n as int] != 0,
    ensures
        layout_upto(buf, row, line, n + 1).3 == layout_upto(buf, row, line, n).3.push(
            (
                buf[n as int],
                layout_upto(buf, row, line, n).0 * 9,
                1 + layout_upto(buf, row, line, n).1 * 16,
            ),
        ),
{
}

/// The glyph of the first character after a line break starts at the left
/// edge of the next line: x is 0 and y is one line further down.
pub proof fn lemma_glyph_after_newline_at_left_edge(buf: Seq<u8>, row: int, line: int, n: nat)
    requires
        n + 1 < buf.len(),
        !layout_upto(buf, row, line, n).2,
        buf[n as int] == NEWLINE,
        layout_upto(buf, row, line, n).1 + 1 < line,
        buf[n + 1int] != NEWLINE,
        buf[n + 1int] != 0,
    ensures
        layout_upto(buf, row, line, n + 2).3.last() == (
            buf[n + 1int],
            0int,
            1 + (layout_upto(buf, row, line, n).1 + 1) * 16,
        ),
{
    lemma_newline_starts_next_line(buf, row, line, n);
    lemma_char_placed_at_cursor(buf, row, line, n + 1);
    assert(n + 2 == (n + 1) + 1);
}

/// Every word of the visible area lies inside the framebuffer memory.
proof fn lemma_visible_word(width: int, height: int, stride: int, px: int, py: int)
    requires
        stride >= 0,
        0 <= px < width,
        0 <= py < height,
    ensures
        0 <= py * stride + px < fb_words(width, stride, height),
{
    assert(0 <= py * stride + px < fb_words(width, stride, height)) by (nonlinear_arith)
        requires
            stride >= 0,
            0 <= px < width,
            0 <= py < height,
            fb_words(width, stride, height) == if width <= stride {
                stride * height
            } else {
                width * height
            },
    ;
}

/// Whether cell `k` of the glyph of `c` at (`x`, `y`) is drawn: its pixel
/// is on and lies in the visible area.
pub open spec fn cell_drawn(font: Seq<u8>, c: u8, x: int, y: int, width: int, height: int, k: int) -> bool {
    glyph_on(font[c * 16 + k / 8], k % 8) && x + k % 8 < width && y + k / 8 < height
}

/// The framebuffer word of cell `k` of a glyph at (`x`, `y`).
pub open spec fn cell_word(x: int, y: int, stride: int, k: int) -> int {
    (y + k / 8) * stride + x + k % 8
}

proof fn lemma_draw_upto_sets_cells(
    pixels: Seq<u32>,
    font: Seq<u8>,
    c: u8,
    x: int,
    y: int,
    width: int,
    height: int,
    stride: int,
    color: u32,
    n: nat,
)
    requires
        c < 128,
        x >= 0,
        y >= 0,
        stride >= 0,
        fb_words(width, stride, height) <= pixels.len(),
    ensures
        draw_char_upto(pixels, font, c, x, y, width, height, stride, color, n).len()
            == pixels.len(),
        forall|k: int|
            0 <= k < n && #[trigger] cell_drawn(font, c, x, y, width, height, k) ==> draw_char_upto(
                pixels,
                font,
                c,
                x,
                y,
                width,
                height,
                stride,
                color,
                n,
            )[cell_word(x, y, stride, k)] == color,
    decreases n,
{
    if n > 0 {
        lemma_draw_upto_sets_cells(pixels, font, c, x, y, width, height, stride, color, (n - 1) as nat);
        let prev = draw_char_upto(pixels, font, c, x, y, width, height, stride, color, (n - 1) as nat);
        let cur = draw_char_upto(pixels, font, c, x, y, width, height, stride, color, n);
        let k1 = n - 1;
        if cell_drawn(font, c, x, y, width, height, k1) {
            lemma_visible_word(width, height, stride, x + k1 % 8, y + k1 / 8);
            assert(cur == prev.update(cell_word(x, y, stride, k1), color));
        } else {
            assert(cur == prev);
        }
        assert forall|k: int|
            0 <= k < n && #[trigger] cell_drawn(font, c, x, y, width, height, k) implies cur[cell_word(
                x,
                y,
                stride,
                k,
            )] == color by {
            lemma_visible_word(width, height, stride, x + k % 8, y + k / 8);
            if k1 != k && cell_drawn(font, c, x, y, width, height, k1) {
                lemma_visible_word(width, height, stride, x + k1 % 8, y + k1 / 8);
            }
        }
    }
}

/// Every pixel of the glyph that is on and lies in the visible area is set
/// to the colour, over all 16 rows and 8 columns of the glyph.
pub proof fn lemma_draw_char_sets_glyph_pixels(
    pixels: Seq<u32>,
    font: Seq<u8>,
    c: u8,
    x: int,
    y: int,
    width: int,
    height: int,
    stride: int,
    color: u32,
    i: int,
    j: int,
)
    requires
        c < 128,
        x >= 0,
        y >= 0,
        stride >= 0,
        fb_words(width, stride, height) <= pixels.len(),
        0 <= i < 16,
        0 <= j < 8,
        glyph_on(font[c * 16 + i], j),
        x + j < width,
        y + i < height,
    ensures
        draw_char(pixels, font, c, x, y, width, height, stride, color).len() == pixels.len(),
        draw_char(pixels, font, c, x, y, width, height, stride, color)[(y + i) * stride + x + j]
            == color,
{
    lemma_draw_upto_sets_cells(pixels, font, c, x, y, width, height, stride, color, 128);
    let k = i * 8 + j;
    assert(k / 8 == i && k % 8 == j);
    assert(cell_drawn(font, c, x, y, width, height, k));
}

/// Any other cell, met while the screen still has room, moves the cursor
/// one column right, or to column 0 of the next line from the last column;
/// an empty cell places no glyph.
pub proof fn lemma_cell_advances_cursor(buf: Seq<u8>, row: int, line: int, n: nat)
    requires
        n < buf.len(),
        !layout_upto(buf, row, line, n).2,
        buf[n as int] != NEWLINE,
    ensures
        ({
            let prev = layout_upto(buf, row, line, n);
            let next = layout_upto(buf, row, line, n + 1);
            &&& prev.0 + 1 == row ==> next.0 == 0 && next.1 == prev.1 + 1 && next.2 == (prev.1
                + 1 >= line)
            &&& prev.0 + 1 != row ==> next.0 == prev.0 + 1 && next.1 == prev.1 && !next.2
            &&& buf[n as int] == 0 ==> next.3 == prev.3
        }),
{
}

/// Pixel `j` of a glyph row, counted from the left, is on when bit `7 - j`
/// of the row byte is set; the rightmost pixel only when the byte is 1.
pub proof fn lemma_glyph_on_bits(row: u8, j: int)
    requires
        0 <= j < 8,
    ensures
        j < 7 ==> (glyph_on(row, j) <==> (row as int / pow2((7 - j) as nat) as int) % 2 == 1),
        j == 7 ==> (glyph_on(row, j) <==> row == 1),
{
    lemma2_to64();
    lemma_row_bits(row);
}

proof fn lemma_row_bits(row: u8)
    by (bit_vector)
    ensures
        ((row >> 7u8) & 1u8 == 1u8) <==> ((row / 128u8) % 2u8 == 1u8),
        ((row >> 6u8) & 1u8 == 1u8) <==> ((row / 64u8) % 2u8 == 1u8),
        ((row >> 5u8) & 1u8 == 1u8) <==> ((row / 32u8) % 2u8 == 1u8),
        ((row >> 4u8) & 1u8 == 1u8) <==> ((row / 16u8) % 2u8 == 1u8),
        ((row >> 3u8) & 1u8 == 1u8) <==> ((row / 8u8) % 2u8 == 1u8),
        ((row >> 2u8) & 1u8 == 1u8) <==> ((row / 4u8) % 2u8 == 1u8),
        ((row >> 1u8) & 1u8 == 1u8) <==> ((row / 2u8) % 2u8 == 1u8),
{
}

/// Some drawn cell among the first `n` of the glyph lands on word `p`.
pub open spec fn drawn_at(
    font: Seq<u8>,
    c: u8,
    x: int,
    y: int,
    width: int,
    height: int,
    stride: int,
    n: int,
    p: int,
) -> bool {
    exists|k: int|
        0 <= k < n && #[trigger] cell_drawn(font, c, x, y, width, height, k) && cell_word(
            x,
            y,
            stride,
            k,
        ) == p
}

proof fn lemma_draw_upto_keeps_others(
    pixels: Seq<u32>,
    font: Seq<u8>,
    c: u8,
    x: int,
    y: int,
    width: int,
    height: int,
    stride: int,
    color: u32,
    n: nat,
)
    requires
        c < 128,
        x >= 0,
        y >= 0,
        stride >= 0,
        fb_words(width, stride, height) <= pixels.len(),
    ensures
        forall|p: int|
            0 <= p < pixels.len() && !drawn_at(font, c, x, y, width, height, stride, n as int, p)
                ==> #[trigger] draw_char_upto(
                pixels,
                font,
                c,
                x,
                y,
                width,
                height,
                stride,
                color,
                n,
            )[p] == pixels[p],
    decreases n,
{
    if n > 0 {
        lemma_draw_upto_keeps_others(pixels, font, c, x, y, width, height, stride, color, (n - 1) as nat);
        lemma_draw_upto_sets_cells(pixels, font, c, x, y, width, height, stride, color, (n - 1) as nat);
        let prev = draw_char_upto(pixels, font, c, x, y, width, height, stride, color, (n - 1) as nat);
        let cur = draw_char_upto(pixels, font, c, x, y, width, height, stride, color, n);
        let k1 = n - 1;
        assert forall|p: int|
            0 <= p < pixels.len() && !drawn_at(font, c, x, y, width, height, stride, n as int, p)
                implies #[trigger] cur[p] == pixels[p] by {
            if drawn_at(font, c, x, y, width, height, stride, k1, p) {
                let k = choose|k: int|
                    0 <= k < k1 && #[trigger] cell_drawn(font, c, x, y, width, height, k)
                        && cell_word(x, y, stride, k) == p;
                assert(drawn_at(font, c, x, y, width, height, stride, n as int, p));
            }
            if cell_drawn(font, c, x, y, width, height, k1) {
                lemma_visible_word(width, height, stride, x + k1 % 8, y + k1 / 8);
                if cell_word(x, y, stride, k1) == p {
                    assert(drawn_at(font, c, x, y, width, height, stride, n as int, p));
                }
            }
        }
    }
}

/// Drawing a glyph changes no word but those of its drawn pixels, and a
/// character outside the font changes nothing.
pub proof fn lemma_draw_char_keeps_other_pixels(
    pixels: Seq<u32>,
    font: Seq<u8>,
    c: u8,
    x: int,
    y: int,
    width: int,
    height: int,
    stride: int,
    color: u32,
    p: int,
)
    requires
        x >= 0,
        y >= 0,
        stride >= 0,
        fb_words(width, stride, height) <= pixels.len(),
        0 <= p < pixels.len(),
        c >= 128 || !drawn_at(font, c, x, y, width, height, stride, 128, p),
    ensures
        draw_char(pixels, font, c, x, y, width, height, stride, color)[p] == pixels[p],
{
    if c < 128 {
        lemma_draw_upto_keeps_others(pixels, font, c, x, y, width, height, stride, color, 128);
    }
}

/// Some drawn pixel of a glyph placed in `ps` lands on word `p`.
pub open spec fn glyphs_cover(
    font: Seq<u8>,
    ps: Seq<(u8, int, int)>,
    width: int,
    height: int,
    stride: int,
    p: int,
) -> bool {
    exists|k: int, cell: int|
        0 <= k < ps.len() && ps[k].0 < 128 && 0 <= cell < 128 && #[trigger] cell_drawn(
            font,
            ps[k].0,
            ps[k].1,
            ps[k].2,
            width,
            height,
            cell,
        ) && cell_word(ps[k].1, ps[k].2, stride, cell) == p
}

/// Drawing a run of glyphs in one colour sets every drawn pixel of each
/// glyph of the font to that colour, whatever the later glyphs overlap,
/// and leaves every other word as it was.
pub proof fn lemma_draw_glyphs_pixels(
    pixels: Seq<u32>,
    font: Seq<u8>,
    ps: Seq<(u8, int, int)>,
    width: int,
    height: int,
    stride: int,
    color: u32,
)
    requires
        stride >= 0,
        fb_words(width, stride, height) <= pixels.len(),
        forall|k: int| 0 <= k < ps.len() ==> #[trigger] ps[k].1 >= 0 && ps[k].2 >= 0,
    ensures
        draw_glyphs(pixels, font, ps, width, height, stride, color).len() == pixels.len(),
        forall|k: int, cell: int|
            0 <= k < ps.len() && ps[k].0 < 128 && 0 <= cell < 128 && #[trigger] cell_drawn(
                font,
                ps[k].0,
                ps[k].1,
                ps[k].2,
                width,
                height,
                cell,
            ) ==> draw_glyphs(pixels, font, ps, width, height, stride, color)[cell_word(
                ps[k].1,
                ps[k].2,
                stride,
                cell,
            )] == color,
        forall|p: int|
            0 <= p < pixels.len() && !glyphs_cover(font, ps, width, height, stride, p)
                ==> #[trigger] draw_glyphs(pixels, font, ps, width, height, stride, color)[p]
                == pixels[p],
    decreases ps.len(),
{
    if ps.len() > 0 {
        let init = ps.drop_last();
        let last = ps.last();
        assert forall|k: int| 0 <= k < init.len() implies #[trigger] init[k].1 >= 0 && init[k].2
            >= 0 by {
            assert(init[k] == ps[k]);
        }
        lemma_draw_glyphs_pixels(pixels, font, init, width, height, stride, color);
        let prev = draw_glyphs(pixels, font, init, width, height, stride, color);
        let cur = draw_glyphs(pixels, font, ps, width, height, stride, color);
        assert(cur == draw_char(prev, font, last.0, last.1, last.2, width, height, stride, color));
        assert(last == ps[ps.len() - 1]);
        if last.0 < 128 {
            lemma_draw_upto_sets_cells(
                prev,
                font,
                last.0,
                last.1,
                last.2,
                width,
                height,
                stride,
                color,
                128,
            );
        }
        assert(cur.len() == pixels.len());
        assert forall|k: int, cell: int|
            0 <= k < ps.len() && ps[k].0 < 128 && 0 <= cell < 128 && #[trigger] cell_drawn(
                font,
                ps[k].0,
                ps[k].1,
                ps[k].2,
                width,
                height,
                cell,
            ) implies cur[cell_word(ps[k].1, ps[k].2, stride, cell)] == color by {
            let q = cell_word(ps[k].1, ps[k].2, stride, cell);
            lemma_visible_word(width, height, stride, ps[k].1 + cell % 8, ps[k].2 + cell / 8);
            if k < ps.len() - 1 {
                assert(init[k] == ps[k]);
                assert(prev[q] == color);
                if last.0 < 128 && drawn_at(font, last.0, last.1, last.2, width, height, stride, 128, q) {
                    let kk = choose|kk: int|
                        0 <= kk < 128 && #[trigger] cell_drawn(
                            font,
                            last.0,
                            last.1,
                            last.2,
                            width,
                            height,
                            kk,
                        ) && cell_word(last.1, last.2, stride, kk) == q;
                    assert(cur[q] == color);
                } else {
                    lemma_draw_char_keeps_other_pixels(
                        prev,
                        font,
                        last.0,
                        last.1,
                        last.2,
                        width,
                        height,
                        stride,
                        color,
                        q,
                    );
                }
            }
        }
        assert forall|p: int|
            0 <= p < pixels.len() && !glyphs_cover(font, ps, width, height, stride, p)
                implies #[trigger] cur[p] == pixels[p] by {
            if glyphs_cover(font, init, width, height, stride, p) {
                let (k, cell) = choose|k: int, cell: int|
                    0 <= k < init.len() && init[k].0 < 128 && 0 <= cell < 128 && #[trigger] cell_drawn(
                        font,
                        init[k].0,
                        init[k].1,
                        init[k].2,
                        width,
                        height,
                        cell,
                    ) && cell_word(init[k].1, init[k].2, stride, cell) == p;
                assert(init[k] == ps[k]);
                assert(glyphs_cover(font, ps, width, height, stride, p));
            }
            if last.0 < 128 && drawn_at(font, last.0, last.1, last.2, width, height, stride, 128, p) {
                let kk = choose|kk: int|
                    0 <= kk < 128 && #[trigger] cell_drawn(
                        font,
                        last.0,
                        last.1,
                        last.2,
                        width,
                        height,
                        kk,
                    ) && cell_word(last.1, last.2, stride, kk) == p;
                assert(cell_drawn(
                    font,
                    ps[ps.len() - 1].0,
                    ps[ps.len() - 1].1,
                    ps[ps.len() - 1].2,
                    width,
                    height,
                    kk,
                ));
                assert(glyphs_cover(font, ps, width, height, stride, p));
            }
            lemma_draw_char_keeps_other_pixels(
                prev,
                font,
                last.0,
                last.1,
                last.2,
                width,
                height,
                stride,
                color,
                p,
            );
        }
    }
}

proof fn lemma_layout_nonneg(buf: Seq<u8>, row: int, line: int, n: nat)
    ensures
        layout_upto(buf, row, line, n).0 >= 0,
        layout_upto(buf, row, line, n).1 >= 0,
        forall|k: int|
            0 <= k < layout_upto(buf, row, line, n).3.len() ==> #[trigger] layout_upto(
                buf,
                row,
                line,
                n,
            ).3[k].1 >= 0 && layout_upto(buf, row, line, n).3[k].2 >= 0,
    decreases n,
{
    if n > 0 && n <= buf.len() {
        lemma_layout_nonneg(buf, row, line, (n - 1) as nat);
        let prev = layout_upto(buf, row, line, (n - 1) as nat);
        let cur = layout_upto(buf, row, line, n);
        assert forall|k: int| 0 <= k < cur.3.len() implies #[trigger] cur.3[k].1 >= 0 && cur.3[k].2
            >= 0 by {
            if k < prev.3.len() {
                assert(prev.3[k].1 >= 0 && prev.3[k].2 >= 0);
                assert(cur.3[k] == prev.3[k]);
            } else {
                assert(cur.3[k] == (buf[n - 1], prev.0 * 9, 1 + prev.1 * 16));
                assert(prev.0 * 9 >= 0 && 1 + prev.1 * 16 >= 0) by (nonlinear_arith)
                    requires
                        prev.0 >= 0,
                        prev.1 >= 0,
                ;
            }
        }
    }
}

/// The screen showing a buffer: every drawn pixel of each glyph the layout
/// places, for characters the font has, is white, and every other word of
/// the framebuffer memory is the background colour.
pub proof fn lemma_render_pixels(
    len: nat,
    font: Seq<u8>,
    buf: Seq<u8>,
    row: int,
    line: int,
    width: int,
    height: int,
    stride: int,
)
    requires
        stride >= 0,
        fb_words(width, stride, height) <= len,
    ensures
        render(len, font, buf, row, line, width, height, stride).len() == len,
        forall|k: int, cell: int|
            0 <= k < layout(buf, row, line).len() && layout(buf, row, line)[k].0 < 128 && 0 <= cell
                < 128 && #[trigger] cell_drawn(
                font,
                layout(buf, row, line)[k].0,
                layout(buf, row, line)[k].1,
                layout(buf, row, line)[k].2,
                width,
                height,
                cell,
            ) ==> render(len, font, buf, row, line, width, height, stride)[cell_word(
                layout(buf, row, line)[k].1,
                layout(buf, row, line)[k].2,
                stride,
                cell,
            )] == white(),
        forall|p: int|
            0 <= p < len && !glyphs_cover(font, layout(buf, row, line), width, height, stride, p)
                ==> #[trigger] render(len, font, buf, row, line, width, height, stride)[p]
                == BACKGROUND,
{
    lemma_layout_nonneg(buf, row, line, buf.len());
    lemma_draw_glyphs_pixels(
        Seq::new(len, |p: int| BACKGROUND),
        font,
        layout(buf, row, line),
        width,
        height,
        stride,
        white(),
    );
}

/// The characters a redraw reports are exactly those of 128 or above among
/// the glyphs laid out, in layout order.
pub proof fn lemma_skipped_chars_filter(ps: Seq<(u8, int, int)>)
    ensures
        skipped_chars(ps) == ps.map_values(|g: (u8, int, int)| g.0).filter(|c: u8| c >= 128),
    decreases ps.len(),
{
    let f = |g: (u8, int, int)| g.0;
    let keep = |c: u8| c >= 128;
    reveal_with_fuel(Seq::filter, 2);
    if ps.len() > 0 {
        lemma_skipped_chars_filter(ps.drop_last());
        assert(ps.map_values(f).drop_last() =~= ps.drop_last().map_values(f));
        assert(ps.map_values(f).last() == ps.last().0);
    } else {
        assert(ps.map_values(f) =~= Seq::<u8>::empty());
    }
}

/// Once the screen is full, laying out more cells changes nothing.
proof fn lemma_layout_stops(buf: Seq<u8>, row: int, line: int, k: nat, n: nat)
    requires
        k <= n <= buf.len(),
        layout_upto(buf, row, line, k).2,
    ensures
        layout_upto(buf, row, line, n) == layout_upto(buf, row, line, k),
    decreases n - k,
{
    if n > k {
        lemma_layout_stops(buf, row, line, k, (n - 1) as nat);
    }
}

} // verus!
