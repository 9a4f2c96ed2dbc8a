use yenx_kernel::screen::fb::{
    clean_screen, fill_words, find_framebuffer_tag, init, parse_framebuffer_tag, put_pixel,
    put_pixel_rgb, read_tag_header, FbError, Framebuffer, FramebufferTag, BACKGROUND,
};
use yenx_kernel::screen::output::{print_char_to_screen, Font, Writer};
use yenx_kernel::mm::paging;
use yenx_kernel::mm::phys_mem::PhysMem;

fn font_with(c: u8, rows: [u8; 16]) -> Font {
    let mut v = vec![0u8; 128 * 16];
    for i in 0..16 {
        v[c as usize * 16 + i] = rows[i];
    }
    Font::new(v).unwrap()
}

fn pixel(fb: &Framebuffer, x: usize, y: usize) -> u32 {
    fb.pixels()[y * (fb.pitch() / 4) + x]
}

#[test]
fn font_needs_a_full_table() {
    assert!(Font::new(vec![0u8; 100]).is_none());
    assert!(Font::new(vec![0u8; 2048]).is_some());
}

#[test]
fn framebuffer_memory_covers_every_visible_pixel() {
    assert_eq!(Framebuffer::new(10, 5, 40).unwrap().pixels().len(), 50);
    // rows narrower than the visible width: width * height words
    assert_eq!(Framebuffer::new(11, 5, 40).unwrap().pixels().len(), 55);
    assert!(Framebuffer::new(usize::MAX, 2, 0).is_none());
    let fb = Framebuffer::new(10, 5, 48).unwrap();
    assert_eq!(fb.pixels().len(), 12 * 5);
}

#[test]
fn put_pixel_uses_pitch_and_ignores_outside() {
    let mut fb = Framebuffer::new(10, 5, 48).unwrap();
    put_pixel(&mut fb, 3, 2, 0xABCDEF);
    assert_eq!(fb.pixels()[2 * 12 + 3], 0xABCDEF);
    put_pixel(&mut fb, 10, 0, 1);
    put_pixel(&mut fb, 0, 5, 1);
    assert_eq!(fb.pixels().iter().filter(|&&p| p != 0).count(), 1);
}

#[test]
fn rgb_packs_red_green_blue() {
    let mut fb = Framebuffer::new(4, 4, 16).unwrap();
    put_pixel_rgb(&mut fb, 1, 1, 0x12, 0x34, 0x56);
    assert_eq!(pixel(&fb, 1, 1), 0x123456);
    put_pixel_rgb(&mut fb, 0, 0, 255, 255, 255);
    assert_eq!(pixel(&fb, 0, 0), 0xFFFFFF);
}

#[test]
fn clean_screen_and_fill() {
    let mut fb = Framebuffer::new(4, 4, 16).unwrap();
    clean_screen(&mut fb);
    assert!(fb.pixels().iter().all(|&p| p == BACKGROUND));
    fill_words(&mut fb, 5, 7);
    assert_eq!(fb.pixels()[4], 7);
    assert_eq!(fb.pixels()[5], BACKGROUND);
}

#[test]
fn glyph_rows_draw_their_set_bits() {
    let mut rows = [0u8; 16];
    rows[0] = 0b1000_0001;
    rows[1] = 0xFF;
    rows[2] = 1;
    let font = font_with(b'A', rows);
    let mut fb = Framebuffer::new(20, 20, 80).unwrap();
    print_char_to_screen(&mut fb, &font, b'A', 2, 3, 255, 0, 0);
    // row 0: the leftmost pixel; the rightmost only when the byte is 1
    assert_eq!(pixel(&fb, 2, 3), 0xFF0000);
    assert_eq!(pixel(&fb, 9, 3), 0);
    // row 1: every pixel but the last
    for j in 0..7 {
        assert_eq!(pixel(&fb, 2 + j, 4), 0xFF0000);
    }
    assert_eq!(pixel(&fb, 9, 4), 0);
    // row 2: byte 1 draws the last pixel
    assert_eq!(pixel(&fb, 9, 5), 0xFF0000);
    assert_eq!(fb.pixels().iter().filter(|&&p| p != 0).count(), 1 + 7 + 1);
}

#[test]
fn characters_outside_the_font_draw_nothing() {
    let font = font_with(b'A', [0xFF; 16]);
    let mut fb = Framebuffer::new(20, 20, 80).unwrap();
    print_char_to_screen(&mut fb, &font, 200, 0, 0, 255, 255, 255);
    assert!(fb.pixels().iter().all(|&p| p == 0));
}

#[test]
fn glyph_is_clipped_at_the_edge() {
    let font = font_with(b'A', [0xFF; 16]);
    let mut fb = Framebuffer::new(4, 4, 16).unwrap();
    print_char_to_screen(&mut fb, &font, b'A', 1, 1, 0, 0, 9);
    assert_eq!(fb.pixels().iter().filter(|&&p| p == 9).count(), 9);
}

#[test]
fn writer_geometry() {
    let w = Writer::new(1024, 768);
    assert_eq!(w.row(), 113);
    assert_eq!(w.line(), 45);
    assert_eq!(w.size(), 113 * 45);
    assert_eq!(w.index(), 0);
    assert!(w.buffer().iter().all(|&c| c == 0));
}

#[test]
fn writer_stores_characters_and_scrolls() {
    let font = font_with(b'a', [0; 16]);
    let mut fb = Framebuffer::new(27, 34, 108).unwrap();
    // 3 columns, 2 lines
    let mut w = Writer::new(27, 34);
    assert_eq!(w.size(), 6);
    w.write_bytes(b"abcde", &mut fb, &font);
    assert_eq!(w.buffer(), &vec![b'a', b'b', b'c', b'd', b'e', 0]);
    assert_eq!(w.index(), 5);
    // the sixth character fills the buffer: it scrolls up a row
    w.print_char(b'f', &mut fb, &font);
    assert_eq!(w.buffer(), &vec![b'd', b'e', b'f', 0, 0, 0]);
    assert_eq!(w.index(), 3);
    assert_eq!(w.buffer()[w.index() - 1], b'f');
}

#[test]
fn row_buffer_moves_rows_up() {
    let font = font_with(b'a', [0; 16]);
    let mut fb = Framebuffer::new(27, 34, 108).unwrap();
    let mut w = Writer::new(27, 34);
    w.write_bytes(b"xyzuv", &mut fb, &font);
    w.row_buffer();
    assert_eq!(w.buffer(), &vec![b'u', b'v', 0, 0, 0, 0]);
}

#[test]
fn newline_redraws_the_screen() {
    let mut rows = [0u8; 16];
    rows[0] = 0x80;
    let font = font_with(b'a', rows);
    let mut fb = Framebuffer::new(27, 34, 108).unwrap();
    let mut w = Writer::new(27, 34);
    w.print_char(b'a', &mut fb, &font);
    // no redraw yet
    assert!(fb.pixels().iter().all(|&p| p == 0));
    w.print_char(b'\n', &mut fb, &font);
    // cleared, and 'a' at cell (0, 0): pixel (0, 1)
    assert_eq!(pixel(&fb, 0, 1), 0xFFFFFF);
    assert_eq!(pixel(&fb, 0, 0), BACKGROUND);
    assert_eq!(fb.pixels().iter().filter(|&&p| p == 0xFFFFFF).count(), 1);
}

#[test]
fn flush_lays_out_cells_and_line_breaks() {
    let mut rows = [0u8; 16];
    rows[0] = 0x80;
    let font = font_with(b'a', rows);
    let mut fb = Framebuffer::new(27, 40, 108).unwrap();
    let mut w = Writer::new(27, 34);
    w.write_bytes(b"\na", &mut fb, &font);
    w.flush_buffer(&mut fb, &font);
    // the line break moves 'a' to line 1: y = 1 + 16
    assert_eq!(pixel(&fb, 0, 17), 0xFFFFFF);
    assert_eq!(fb.pixels().iter().filter(|&&p| p == 0xFFFFFF).count(), 1);
}

fn boot_info(tags: &[Vec<u8>]) -> Vec<u8> {
    let mut v = vec![0u8; 8];
    for t in tags {
        v.extend_from_slice(t);
        while v.len() % 8 != 0 {
            v.push(0);
        }
    }
    let n = v.len() as u32;
    v[0..4].copy_from_slice(&n.to_le_bytes());
    v
}

fn tag(typ: u32, size: u32) -> Vec<u8> {
    let mut t = vec![0u8; (size as usize).max(8)];
    t[0..4].copy_from_slice(&typ.to_le_bytes());
    t[4..8].copy_from_slice(&size.to_le_bytes());
    t
}

fn fb_tag(addr: u64, pitch: u32, width: u32, height: u32, bpp: u8) -> Vec<u8> {
    let mut t = tag(8, 32);
    t[8..16].copy_from_slice(&addr.to_le_bytes());
    t[16..20].copy_from_slice(&pitch.to_le_bytes());
    t[20..24].copy_from_slice(&width.to_le_bytes());
    t[24..28].copy_from_slice(&height.to_le_bytes());
    t[28] = bpp;
    t[29] = 1;
    t
}

#[test]
fn framebuffer_tag_is_found_after_other_tags() {
    let info = boot_info(&[tag(1, 13), tag(4, 16), fb_tag(0xFD00_0000, 4096, 1024, 768, 32), tag(0, 8)]);
    assert_eq!(find_framebuffer_tag(&info), Some(40));
    let h = read_tag_header(&info, 8);
    assert_eq!((h.typ, h.size), (1, 13));
    let t = parse_framebuffer_tag(&info, 40).unwrap();
    assert_eq!(t.addr, 0xFD00_0000);
    assert_eq!(t.pitch, 4096);
    assert_eq!(t.width, 1024);
    assert_eq!(t.height, 768);
    assert_eq!(t.bpp, 32);
    assert_eq!(t.fb_type, 1);
    assert!(parse_framebuffer_tag(&info, info.len() - 16).is_none());
}

#[test]
fn scan_stops_at_end_tag_or_bad_size() {
    let info = boot_info(&[tag(1, 16), tag(0, 8), fb_tag(0, 16, 4, 4, 32)]);
    assert_eq!(find_framebuffer_tag(&info), None);
    let info = boot_info(&[tag(3, 0), fb_tag(0, 16, 4, 4, 32)]);
    assert_eq!(find_framebuffer_tag(&info), None);
    assert_eq!(find_framebuffer_tag(&[0u8; 4]), None);
}

#[test]
fn framebuffer_init_maps_and_greets() {
    let mut mem = PhysMem::new(0x600200 / 8);
    paging::init(&mut mem);
    let font = {
        let mut v = vec![0u8; 2048];
        v[b'H' as usize * 16] = 0x80;
        v[b'i' as usize * 16] = 0x80;
        Font::new(v).unwrap()
    };
    let t = FramebufferTag {
        typ: 8,
        size: 32,
        addr: 0xFD00_0000,
        pitch: 256,
        width: 64,
        height: 32,
        bpp: 32,
        fb_type: 1,
        reserved: 0,
    };
    let (fb, virt) = init(&mut mem, paging::BOOT_PML4, &t, &font).unwrap();
    assert_eq!(virt, (63u64 << 30) | (62u64 << 21));
    assert_eq!(mem.words()[(0x600000 + 496) / 8], 0xFD00_0083);
    assert_eq!(mem.words()[(0x600000 + 504) / 8], 0xFD20_0083);
    assert_eq!(mem.words()[(0x11000 + 504) / 8], 0x60_0003);
    assert_eq!(pixel(&fb, 10, 10), 0xFFFFFF);
    assert_eq!(pixel(&fb, 19, 10), 0xFFFFFF);
    assert_eq!(pixel(&fb, 0, 0), BACKGROUND);
    assert_eq!(fb.pixels().iter().filter(|&&p| p == 0xFFFFFF).count(), 2);
}

#[test]
fn framebuffer_init_refuses_other_depths_and_draws_past_a_narrow_pitch() {
    let mut mem = PhysMem::new(0x600200 / 8);
    paging::init(&mut mem);
    let font = Font::new(vec![0u8; 2048]).unwrap();
    let mut t = FramebufferTag {
        typ: 8,
        size: 32,
        addr: 0xFD00_0000,
        pitch: 256,
        width: 64,
        height: 32,
        bpp: 24,
        fb_type: 1,
        reserved: 0,
    };
    assert!(matches!(init(&mut mem, paging::BOOT_PML4, &t, &font), Err(FbError::BadDepth)));
    t.bpp = 32;
    t.width = 65;
    let (fb, _) = init(&mut mem, paging::BOOT_PML4, &t, &font).unwrap();
    assert_eq!(fb.pixels().len(), 65 * 32);
    assert!(fb.pixels().iter().all(|&p| p == BACKGROUND));
}

#[test]
fn characters_outside_the_font_are_reported() {
    let font = font_with(b'a', [0; 16]);
    let mut fb = Framebuffer::new(20, 20, 80).unwrap();
    assert_eq!(print_char_to_screen(&mut fb, &font, 0x80, 0, 0, 1, 1, 1), Some(0x80));
    assert_eq!(print_char_to_screen(&mut fb, &font, b'a', 0, 0, 1, 1, 1), None);
}

#[test]
fn redraws_report_skipped_characters_in_order() {
    let font = font_with(b'a', [0; 16]);
    let mut fb = Framebuffer::new(27, 34, 108).unwrap();
    let mut w = Writer::new(27, 34);
    // no redraw yet: nothing reported
    assert!(w.write_bytes(&[0x90, b'a'], &mut fb, &font).is_empty());
    // the line break redraws: 0x90 is reported
    assert_eq!(w.print_char(b'\n', &mut fb, &font), vec![0x90]);
    assert_eq!(w.flush_buffer(&mut fb, &font), vec![0x90]);
    // filling the buffer redraws twice: before and after the scroll
    let mut w = Writer::new(27, 34);
    assert_eq!(w.write_bytes(&[b'a', b'a', 0xA0, b'a', b'a'], &mut fb, &font), Vec::<u8>::new());
    assert_eq!(w.print_char(b'\n', &mut fb, &font), vec![0xA0]);
}

#[test]
fn empty_string_on_a_console_without_cells() {
    let font = font_with(b'a', [0; 16]);
    let mut fb = Framebuffer::new(4, 4, 16).unwrap();
    let mut w = Writer::new(8, 8);
    assert_eq!(w.size(), 0);
    assert!(w.write_bytes(b"", &mut fb, &font).is_empty());
    assert_eq!(w.index(), 0);
}

#[test]
fn framebuffer_init_keeps_the_pitch() {
    let mut mem = PhysMem::new(0x600200 / 8);
    paging::init(&mut mem);
    let font = Font::new(vec![0u8; 2048]).unwrap();
    let t = FramebufferTag {
        typ: 8,
        size: 32,
        addr: 0xFD00_0000,
        pitch: 258,
        width: 64,
        height: 4,
        bpp: 32,
        fb_type: 1,
        reserved: 0,
    };
    let (fb, _) = init(&mut mem, paging::BOOT_PML4, &t, &font).unwrap();
    assert_eq!(fb.pitch(), 258);
    assert_eq!(fb.width(), 64);
    assert_eq!(fb.height(), 4);
}

#[test]
fn narrow_pitch_rows_overlap() {
    // 4 visible pixels on rows of 2 words: pixel (2, 0) is the word of (0, 1)
    let mut fb = Framebuffer::new(4, 3, 8).unwrap();
    assert_eq!(fb.pixels().len(), 12);
    put_pixel(&mut fb, 2, 0, 5);
    assert_eq!(fb.pixels()[2], 5);
    put_pixel(&mut fb, 0, 1, 6);
    assert_eq!(fb.pixels()[2], 6);
    put_pixel(&mut fb, 3, 2, 7);
    assert_eq!(fb.pixels()[7], 7);
}

#[test]
fn write_bytes_is_print_char_per_byte() {
    let mut rows = [0u8; 16];
    rows[0] = 0x80;
    let font = font_with(b'a', rows);
    let text: &[u8] = b"a\n\xC0aa\naaa";
    let mut fb1 = Framebuffer::new(27, 34, 108).unwrap();
    let mut w1 = Writer::new(27, 34);
    let skipped1 = w1.write_bytes(text, &mut fb1, &font);
    let mut fb2 = Framebuffer::new(27, 34, 108).unwrap();
    let mut w2 = Writer::new(27, 34);
    let mut skipped2 = Vec::new();
    for &c in text {
        skipped2.extend(w2.print_char(c, &mut fb2, &font));
    }
    assert_eq!(w1.buffer(), w2.buffer());
    assert_eq!(w1.index(), w2.index());
    assert_eq!(fb1.pixels(), fb2.pixels());
    assert_eq!(skipped1, skipped2);
    assert_eq!(skipped1, vec![0xC0]);
    // two writes in a row are one write of the whole
    let mut fb3 = Framebuffer::new(27, 34, 108).unwrap();
    let mut w3 = Writer::new(27, 34);
    let mut skipped3 = w3.write_bytes(&text[..4], &mut fb3, &font);
    skipped3.extend(w3.write_bytes(&text[4..], &mut fb3, &font));
    assert_eq!(w3.buffer(), w1.buffer());
    assert_eq!(w3.index(), w1.index());
    assert_eq!(fb3.pixels(), fb1.pixels());
    assert_eq!(skipped3, skipped1);
}
