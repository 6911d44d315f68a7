use kernel::font::{font_table, pack_glyph, pack_row};
use kernel::video::{Color, FrameInfo, PixelFormat, Screen};

fn info(format: PixelFormat, bpp: usize, width: usize, height: usize, stride: usize) -> FrameInfo {
    FrameInfo {
        byte_len: height * stride * bpp,
        width,
        height,
        pixel_format: format,
        bytes_per_pixel: bpp,
        stride,
    }
}

fn font_with_a() -> Vec<u8> {
    let mut f = vec![0u8; 127 * 16];
    for row in 0..16 {
        f[65 * 16 + row] = 0xf0;
    }
    f
}

#[test]
fn black_is_all_zero() {
    assert_eq!(Color::black(), Color { r: 0, g: 0, b: 0 });
}

#[test]
fn screen_rejects_bad_geometry() {
    let i = info(PixelFormat::U8, 1, 16, 32, 16);
    assert!(Screen::new(i, vec![0; 511], font_with_a()).is_none());
    assert!(Screen::new(i, vec![0; 512], vec![0; 10]).is_none());
    let narrow = info(PixelFormat::U8, 1, 4, 32, 4);
    assert!(Screen::new(narrow, vec![0; 128], font_with_a()).is_none());
    assert!(Screen::new(i, vec![0; 512], font_with_a()).is_some());
}

#[test]
fn clear_fills_pixels_in_format_order() {
    let c = Color { r: 1, g: 2, b: 3 };
    let mut s = Screen::new(info(PixelFormat::Rgb, 4, 8, 16, 8), vec![9; 512], font_with_a()).unwrap();
    s.clear(c);
    assert!(s.frame_buffer().chunks(4).all(|p| p == [1, 2, 3, 0]));
    let mut s = Screen::new(info(PixelFormat::Bgr, 3, 8, 16, 8), vec![9; 384], font_with_a()).unwrap();
    s.clear(c);
    assert!(s.frame_buffer().chunks(3).all(|p| p == [3, 2, 1]));
    let mut s = Screen::new(info(PixelFormat::U8, 1, 8, 16, 8), vec![9; 128], font_with_a()).unwrap();
    s.clear(Color { r: 10, g: 20, b: 31 });
    assert!(s.frame_buffer().iter().all(|p| *p == 20));
}

#[test]
fn characters_are_drawn_and_scrolled() {
    let mut s = Screen::new(info(PixelFormat::U8, 1, 16, 32, 16), vec![0; 512], font_with_a()).unwrap();
    s.write_char(b'A');
    assert_eq!(s.cursor(), (1, 0));
    for row in 0..16 {
        for col in 0..16 {
            let want = if col < 4 { 255 } else { 0 };
            assert_eq!(s.frame_buffer()[row * 16 + col], want);
        }
    }
    s.write_char(b'A');
    assert_eq!(s.cursor(), (1, 0));
    s.write_str(b"\nA");
    assert_eq!(s.cursor(), (1, 1));
    assert_eq!(s.text(), &vec![65, 10, 65, 0]);
    assert_eq!(s.frame_buffer()[16 * 16], 255);
    s.write_char(b'\n');
    assert_eq!(s.cursor(), (0, 1));
    assert_eq!(s.text(), &vec![65, 10, 0, 0]);
    for row in 0..32 {
        for col in 0..16 {
            let want = if row < 16 && col < 4 { 255 } else { 0 };
            assert_eq!(s.frame_buffer()[row * 16 + col], want);
        }
    }
}

#[test]
fn glyph_rows_pack_leftmost_pixel_high() {
    let row = vec![true, false, false, false, false, false, true, true, true];
    assert_eq!(pack_row(&row), 0x83);
    let rows: Vec<Vec<bool>> = (0..16).map(|y| (0..8).map(|x| x == y % 8).collect()).collect();
    let g = pack_glyph(&rows);
    assert_eq!(g.len(), 16);
    assert_eq!(g[0], 0x80);
    assert_eq!(g[7], 0x01);
    assert_eq!(g[9], 0x40);
}

#[test]
fn font_table_places_glyphs_from_first_printable() {
    let glyphs = vec![vec![1u8; 16], vec![2u8; 16]];
    let t = font_table(&glyphs);
    assert_eq!(t.len(), 127 * 16);
    assert!(t[..33 * 16].iter().all(|b| *b == 0));
    assert!(t[33 * 16..34 * 16].iter().all(|b| *b == 1));
    assert!(t[34 * 16..35 * 16].iter().all(|b| *b == 2));
    assert!(t[35 * 16..].iter().all(|b| *b == 0));
}
