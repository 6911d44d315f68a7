//! A text console drawn into a linear frame buffer with an 8x16 bitmap font.
//! The console keeps a buffer of the characters written; a newline on the
//! last text line scrolls both that buffer and the pixels up by one line.
use vstd::prelude::*;
use vstd::arithmetic::div_mod::{lemma_fundamental_div_mod, lemma_fundamental_div_mod_converse};

verus! {

/// Width in pixels of one glyph.
pub const GLYPH_WIDTH: usize = 8;

/// Height in pixels of one glyph, and bytes per glyph in a font table.
pub const GLYPH_HEIGHT: usize = 16;

/// Number of glyphs in a font table: the ASCII codes below 127.
pub const FONT_GLYPHS: usize = 127;

/// The byte order of a pixel in the frame buffer.
#[derive(Clone, Copy, Debug, PartialEq, Eq, Structural)]
pub enum PixelFormat {
    /// Red, green, blue, then padding.
    Rgb,
    /// Blue, green, red, then padding.
    Bgr,
    /// One grey level repeated over the pixel's bytes.
    U8,
    /// A layout this console cannot draw.
    Unknown,
}

/// Geometry of a linear frame buffer.
#[derive(Clone, Copy, Debug, PartialEq, Eq, Structural)]
pub struct FrameInfo {
    /// Length of the buffer in bytes.
    pub byte_len: usize,
    /// Visible pixels per line.
    pub width: usize,
    /// Number of lines.
    pub height: usize,
    pub pixel_format: PixelFormat,
    pub bytes_per_pixel: usize,
    /// Pixels from the start of one line to the start of the next.
    pub stride: usize,
}

/// A colour of 8 bits per channel.
#[derive(Clone, Copy, Debug, PartialEq, Eq, Structural)]
pub struct Color {
    pub r: u8,
    pub g: u8,
    pub b: u8,
}

impl Color {
    /// The colour with every channel at zero.
    pub fn black() -> (c: Color)
        ensures
            c == (Color { r: 0, g: 0, b: 0 }),
    {
        Color { r: 0, g: 0, b: 0 }
    }
}

/// The eight bytes a pixel of colour `c` is made of, in format `f`; the
/// first `bytes_per_pixel` of them are written.
pub open spec fn pixel_bytes(f: PixelFormat, c: Color) -> Seq<u8> {
    match f {
        PixelFormat::Rgb => seq![c.r, c.g, c.b, 0u8, 0u8, 0u8, 0u8, 0u8],
        PixelFormat::Bgr => seq![c.b, c.g, c.r, 0u8, 0u8, 0u8, 0u8, 0u8],
        _ => {
            let m = ((c.r + c.g + c.b) / 3) as u8;
            seq![m, m, m, m, m, m, m, m]
        },
    }
}

/// The byte every byte of glyph pixel `(col, row)` of character `c` takes:
/// 255 where the font's bit is set, 0 elsewhere. Bit 7 of a font byte is
/// the leftmost pixel of its row.
pub open spec fn glyph_byte(font: Seq<u8>, c: int, row: int, col: int) -> u8 {
    if font[c * 16 + row] & (1u8 << ((7 - col) as u8)) == 0 {
        0
    } else {
        255
    }
}

/// The state of a console: its geometry and font, the bytes of its frame
/// buffer, its text buffer and its cursor.
pub struct Console {
    pub info: FrameInfo,
    pub font: Seq<u8>,
    pub pixels: Seq<u8>,
    pub text: Seq<u8>,
    pub cursor_x: int,
    pub cursor_y: int,
}

/// Text columns of a frame buffer.
pub open spec fn cols(info: FrameInfo) -> int {
    info.width as int / 8
}

/// Text lines of a frame buffer.
pub open spec fn rows(info: FrameInfo) -> int {
    info.height as int / 16
}

/// Bytes in one line of pixels.
pub open spec fn line_bytes(info: FrameInfo) -> int {
    info.stride * info.bytes_per_pixel
}

/// Geometry that a console can draw on with a buffer of `len` bytes.
pub open spec fn geometry_ok(info: FrameInfo, len: int) -> bool {
    &&& 1 <= info.bytes_per_pixel <= 8
    &&& info.width >= 8
    &&& info.height >= 16
    &&& info.stride >= info.width
    &&& len == info.height * info.stride * info.bytes_per_pixel
}

/// Byte `b` lies in the glyph cell at text position `(x, y)`.
pub open spec fn in_cell(info: FrameInfo, b: int, x: int, y: int) -> bool {
    let p = b / info.bytes_per_pixel as int;
    let py = p / info.stride as int;
    let px = p % info.stride as int;
    y * 16 <= py < y * 16 + 16 && x * 8 <= px < x * 8 + 8
}

/// Rank of byte `b` of the cell at `(x, y)` in the order the cell is drawn:
/// row by row, pixel by pixel, byte by byte.
pub open spec fn cell_order(info: FrameInfo, b: int, x: int, y: int) -> int {
    let bpp = info.bytes_per_pixel as int;
    let p = b / bpp;
    let py = p / info.stride as int;
    let px = p % info.stride as int;
    ((py - y * 16) * 8 + (px - x * 8)) * bpp + b % bpp
}

/// Byte `b` of the frame buffer `pixels` once character `c` of `font` is
/// drawn at `(x, y)`.
pub open spec fn drawn_byte(
    info: FrameInfo,
    font: Seq<u8>,
    pixels: Seq<u8>,
    x: int,
    y: int,
    c: int,
    b: int,
) -> u8 {
    let p = b / info.bytes_per_pixel as int;
    let py = p / info.stride as int;
    let px = p % info.stride as int;
    if in_cell(info, b, x, y) {
        glyph_byte(font, c, py - y * 16, px - x * 8)
    } else {
        pixels[b]
    }
}

/// The pixels with character `c` of `font` drawn at text position `(x, y)`.
pub open spec fn draw_glyph(
    info: FrameInfo,
    font: Seq<u8>,
    pixels: Seq<u8>,
    x: int,
    y: int,
    c: int,
) -> Seq<u8> {
    Seq::new(pixels.len(), |b: int| drawn_byte(info, font, pixels, x, y, c, b))
}

/// The pixels moved up by one text line, with the last whole text line
/// cleared; lines below it that are too few to make a text line move up
/// too, and the bottom 16 pixel lines keep what they held unless cleared.
pub open spec fn scroll_pixels(info: FrameInfo, p: Seq<u8>) -> Seq<u8> {
    let shift = 16 * line_bytes(info);
    let lo = (rows(info) - 1) * shift;
    Seq::new(
        p.len(),
        |b: int|
            if lo <= b < lo + shift {
                0u8
            } else if b + shift < p.len() {
                p[b + shift]
            } else {
                p[b]
            },
    )
}

/// The text buffer moved up by one line, with its last line cleared.
pub open spec fn scroll_text(t: Seq<u8>, cols: int) -> Seq<u8> {
    Seq::new(t.len(), |i: int| if i + cols < t.len() { t[i + cols] } else { 0u8 })
}

/// The console after character `c` is written: it is stored at the cursor;
/// a newline moves the cursor to the start of the next line, scrolling
/// first when the cursor is on the last line; any other character is drawn
/// and the cursor moves right, staying in the last column once there.
pub open spec fn put_char(s: Console, c: u8) -> Console {
    let x = s.cursor_x;
    let y = s.cursor_y;
    let text = s.text.update(x + y * cols(s.info), c);
    if c == 10 {
        let last = y >= rows(s.info) - 1;
        Console {
            pixels: if last {
                scroll_pixels(s.info, s.pixels)
            } else {
                s.pixels
            },
            text: if last {
                scroll_text(text, cols(s.info))
            } else {
                text
            },
            cursor_x: 0,
            cursor_y: if y + 1 < rows(s.info) - 1 {
                y + 1
            } else {
                rows(s.info) - 1
            },
            ..s
        }
    } else {
        Console {
            pixels: draw_glyph(s.info, s.font, s.pixels, x, y, c as int),
            text,
            cursor_x: if x + 1 < cols(s.info) - 1 {
                x + 1
            } else {
                cols(s.info) - 1
            },
            ..s
        }
    }
}

/// The console after each byte of `t` is written in turn.
pub open spec fn put_str(s: Console, t: Seq<u8>) -> Console
    decreases t.len(),
{
    if t.len() == 0 {
        s
    } else {
        put_char(put_str(s, t.drop_last()), t.last())
    }
}

struct Vector {
    x: usize,
    y: usize,
}

/// A text console over a frame buffer that it owns.
pub struct Screen {
    frame_buffer: Vec<u8>,
    info: FrameInfo,
    cursor: Vector,
    text_size: Vector,
    text_buffer: Vec<u8>,
    font: Vec<u8>,
}

impl View for Screen {
    type V = Console;

    closed spec fn view(&self) -> Console {
        Console {
            info: self.info,
            font: self.font@,
            pixels: self.frame_buffer@,
            text: self.text_buffer@,
            cursor_x: self.cursor.x as int,
            cursor_y: self.cursor.y as int,
        }
    }
}

/// The invariant of a console state.
pub open spec fn console_ok(s: Console) -> bool {
    &&& geometry_ok(s.info, s.pixels.len() as int)
    &&& s.font.len() == FONT_GLYPHS * 16
    &&& s.text.len() == cols(s.info) * rows(s.info)
    &&& 0 <= s.cursor_x < cols(s.info)
    &&& 0 <= s.cursor_y < rows(s.info)
}

/// Where byte `idx` of glyph pixel `(col, row)` of the cell at `(x, y)`
/// lies, and that no other byte of the cell has its rank.
proof fn lemma_cell_byte(info: FrameInfo, len: int, x: int, y: int, row: int, col: int, idx: int)
    requires
        geometry_ok(info, len),
        0 <= x < cols(info),
        0 <= y < rows(info),
        0 <= row < 16,
        0 <= col < 8,
        0 <= idx < info.bytes_per_pixel,
    ensures
        ({
            let bpp = info.bytes_per_pixel as int;
            let b0 = ((y * 16 + row) * info.stride + x * 8 + col) * bpp + idx;
            &&& 0 <= b0 < len
            &&& 0 <= (y * 16 + row) * info.stride
            &&& (y * 16 + row) * info.stride + x * 8 + col <= b0
            &&& in_cell(info, b0, x, y)
            &&& cell_order(info, b0, x, y) == (row * 8 + col) * bpp + idx
            &&& b0 / bpp / info.stride as int - y * 16 == row
            &&& b0 / bpp % info.stride as int - x * 8 == col
            &&& forall|b: int|
                0 <= b < len && in_cell(info, b, x, y) && cell_order(info, b, x, y) == (row * 8
                    + col) * bpp + idx ==> b == b0
        }),
{
    let bpp = info.bytes_per_pixel as int;
    let stride = info.stride as int;
    let height = info.height as int;
    let width = info.width as int;
    let p0 = (y * 16 + row) * stride + x * 8 + col;
    let b0 = p0 * bpp + idx;
    assert(x * 8 + 8 <= width) by (nonlinear_arith)
        requires
            x < width / 8,
    ;
    assert(y * 16 + 16 <= height) by (nonlinear_arith)
        requires
            y < height / 16,
    ;
    assert(0 <= p0 < height * stride) by (nonlinear_arith)
        requires
            p0 == (y * 16 + row) * stride + x * 8 + col,
            y * 16 + row < height,
            x * 8 + col < stride,
            0 <= y,
            0 <= row,
            0 <= x,
            0 <= col,
    ;
    assert(0 <= b0 < len) by (nonlinear_arith)
        requires
            b0 == p0 * bpp + idx,
            0 <= p0 < height * stride,
            0 <= idx < bpp,
            len == height * stride * bpp,
    ;
    assert(0 <= (y * 16 + row) * stride && p0 <= b0) by (nonlinear_arith)
        requires
            p0 == (y * 16 + row) * stride + x * 8 + col,
            b0 == p0 * bpp + idx,
            0 <= p0,
            0 <= y,
            0 <= row,
            stride >= 0,
            bpp >= 1,
            idx >= 0,
    ;
    lemma_fundamental_div_mod_converse(b0, bpp, p0, idx);
    lemma_fundamental_div_mod_converse(p0, stride, y * 16 + row, x * 8 + col);
    assert forall|b: int|
        0 <= b < len && in_cell(info, b, x, y) && cell_order(info, b, x, y) == (row * 8 + col)
            * bpp + idx implies b == b0 by {
        let p = b / bpp;
        let k = b % bpp;
        let py = p / stride;
        let px = p % stride;
        let rr = py - y * 16;
        let cc = px - x * 8;
        lemma_fundamental_div_mod(b, bpp);
        lemma_fundamental_div_mod(p, stride);
        assert(0 <= k < bpp);
        lemma_fundamental_div_mod_converse(
            (row * 8 + col) * bpp + idx,
            bpp,
            rr * 8 + cc,
            k,
        );
        lemma_fundamental_div_mod_converse(
            (row * 8 + col) * bpp + idx,
            bpp,
            row * 8 + col,
            idx,
        );
        lemma_fundamental_div_mod_converse(row * 8 + col, 8, rr, cc);
        lemma_fundamental_div_mod_converse(row * 8 + col, 8, row, col);
        assert(b == b0) by (nonlinear_arith)
            requires
                b == bpp * p + k,
                p == stride * py + px,
                py == y * 16 + row,
                px == x * 8 + col,
                k == idx,
                b0 == ((y * 16 + row) * stride + x * 8 + col) * bpp + idx,
        ;
    }
}

/// Every byte of a cell has a rank below the number of bytes in a cell.
proof fn lemma_cell_order_bound(info: FrameInfo, b: int, x: int, y: int)
    requires
        info.bytes_per_pixel >= 1,
        info.stride >= 1,
        b >= 0,
        in_cell(info, b, x, y),
    ensures
        0 <= cell_order(info, b, x, y) < 128 * info.bytes_per_pixel,
{
    let bpp = info.bytes_per_pixel as int;
    let p = b / bpp;
    let py = p / info.stride as int;
    let px = p % info.stride as int;
    let rr = py - y * 16;
    let cc = px - x * 8;
    let k = b % bpp;
    assert(0 <= (rr * 8 + cc) * bpp + k < 128 * bpp) by (nonlinear_arith)
        requires
            0 <= rr < 16,
            0 <= cc < 8,
            0 <= k < bpp,
    ;
}

/// Moves every byte of `buf` down by `shift` places, dropping the first
/// `shift` bytes and keeping the last `shift` where they were, then clears
/// the `shift` bytes from `lo`.
fn scroll_bytes(buf: &mut Vec<u8>, shift: usize, lo: usize)
    requires
        lo + shift <= old(buf)@.len(),
    ensures
        final(buf)@ == Seq::new(
            old(buf)@.len(),
            |j: int|
                if lo <= j < lo + shift {
                    0u8
                } else if j + shift < old(buf)@.len() {
                    old(buf)@[j + shift]
                } else {
                    old(buf)@[j]
                },
        ),
{
    let ghost pre = buf@;
    let len = buf.len();
    let mut b: usize = 0;
    while b < len - shift
        invariant
            lo + shift <= len,
            len == buf@.len(),
            pre.len() == len,
            b <= len - shift,
            forall|j: int| 0 <= j < b ==> buf@[j] == pre[j + shift],
            forall|j: int| b <= j < len ==> buf@[j] == pre[j],
        decreases len - shift - b,
    {
        let v = buf[b + shift];
        buf.set(b, v);
        b = b + 1;
    }
    let mut b: usize = lo;
    while b < lo + shift
        invariant
            lo + shift <= len,
            len == buf@.len(),
            pre.len() == len,
            lo <= b <= lo + shift,
            forall|j: int|
                0 <= j < len ==> buf@[j] == if lo <= j < b {
                    0u8
                } else if j + shift < len {
                    pre[j + shift]
                } else {
                    pre[j]
                },
        decreases lo + shift - b,
    {
        buf.set(b, 0u8);
        b = b + 1;
    }
    assert(buf@ =~= Seq::new(
        pre.len(),
        |j: int|
            if lo <= j < lo + shift {
                0u8
            } else if j + shift < pre.len() {
                pre[j + shift]
            } else {
                pre[j]
            },
    ));
}

/// Draws glyph `c` of `font` into the cell at text position `(x, y)` of
/// the frame buffer `buf`.
fn draw_into(buf: &mut Vec<u8>, info: FrameInfo, font: &Vec<u8>, x: usize, y: usize, c: u8)
    requires
        geometry_ok(info, old(buf)@.len() as int),
        font@.len() == FONT_GLYPHS * 16,
        x < cols(info),
        y < rows(info),
        c < FONT_GLYPHS,
    ensures
        final(buf)@ == draw_glyph(info, font@, old(buf)@, x as int, y as int, c as int),
{
    let ghost pre = buf@;
    let n = buf.len();
    let ghost len = n as int;
    let bpp = info.bytes_per_pixel;
    let stride = info.stride;
    let offset = c as usize * GLYPH_HEIGHT;
    assert forall|b: int| 0 <= b < len && in_cell(info, b, x as int, y as int) implies cell_order(
        info,
        b,
        x as int,
        y as int,
    ) >= 0 by {
        lemma_cell_order_bound(info, b, x as int, y as int);
    }
    let mut row: usize = 0;
    assert(row * 8 * bpp == 0) by (nonlinear_arith)
        requires
            row == 0,
    ;
    while row < GLYPH_HEIGHT
        invariant
            geometry_ok(info, len),
            len == n,
            font@.len() == FONT_GLYPHS * 16,
            buf@.len() == len,
            pre.len() == len,
            bpp == info.bytes_per_pixel,
            stride == info.stride,
            offset == c * 16,
            c < FONT_GLYPHS,
            x < cols(info),
            y < rows(info),
            row <= 16,
            forall|b: int|
                0 <= b < len ==> buf@[b] == if in_cell(info, b, x as int, y as int) && cell_order(
                    info,
                    b,
                    x as int,
                    y as int,
                ) < row * 8 * bpp {
                    drawn_byte(info, font@, pre, x as int, y as int, c as int, b)
                } else {
                    pre[b]
                },
        decreases 16 - row,
    {
        let line = font[offset + row];
        assert((row * 8 + 0) * bpp == row * 8 * bpp);
        let mut col: usize = 0;
        while col < GLYPH_WIDTH
            invariant
                geometry_ok(info, len),
                len == n,
                font@.len() == FONT_GLYPHS * 16,
                buf@.len() == len,
                pre.len() == len,
                bpp == info.bytes_per_pixel,
                stride == info.stride,
                line == font@[c * 16 + row],
                c < FONT_GLYPHS,
                x < cols(info),
                y < rows(info),
                row < 16,
                col <= 8,
                forall|b: int|
                    0 <= b < len ==> buf@[b] == if in_cell(info, b, x as int, y as int)
                        && cell_order(info, b, x as int, y as int) < (row * 8 + col) * bpp {
                        drawn_byte(info, font@, pre, x as int, y as int, c as int, b)
                    } else {
                        pre[b]
                    },
            decreases 8 - col,
        {
            let color: u8 = if line & (1u8 << ((7 - col) as u8)) == 0 {
                0
            } else {
                255
            };
            proof {
                lemma_cell_byte(info, len, x as int, y as int, row as int, col as int, 0);
            }
            let base = ((y * GLYPH_HEIGHT + row) * stride + x * GLYPH_WIDTH + col) * bpp;
            let mut idx: usize = 0;
            while idx < bpp
                invariant
                    geometry_ok(info, len),
                    len == n,
                    buf@.len() == len,
                    pre.len() == len,
                    bpp == info.bytes_per_pixel,
                    stride == info.stride,
                    base == ((y * 16 + row) * stride + x * 8 + col) * bpp,
                    color == glyph_byte(font@, c as int, row as int, col as int),
                    x < cols(info),
                    y < rows(info),
                    row < 16,
                    col < 8,
                    idx <= bpp,
                    forall|b: int|
                        0 <= b < len ==> buf@[b] == if in_cell(info, b, x as int, y as int)
                            && cell_order(info, b, x as int, y as int) < (row * 8 + col) * bpp
                            + idx {
                            drawn_byte(info, font@, pre, x as int, y as int, c as int, b)
                        } else {
                            pre[b]
                        },
                decreases bpp - idx,
            {
                proof {
                    lemma_cell_byte(info, len, x as int, y as int, row as int, col as int, idx as int);
                }
                buf.set(base + idx, color);
                idx = idx + 1;
            }
            assert((row * 8 + col) * bpp + bpp == (row * 8 + col + 1) * bpp) by (nonlinear_arith);
            col = col + 1;
        }
        assert((row * 8 + 8) * bpp == (row + 1) * 8 * bpp) by (nonlinear_arith);
        row = row + 1;
    }
    assert forall|b: int| 0 <= b < len && in_cell(info, b, x as int, y as int) implies cell_order(
        info,
        b,
        x as int,
        y as int,
    ) < 16 * 8 * bpp by {
        lemma_cell_order_bound(info, b, x as int, y as int);
    }
    assert(buf@ =~= draw_glyph(info, font@, pre, x as int, y as int, c as int));
}

/// The bytes of one pixel of colour `c` in format `f`.
fn pixel_of(f: PixelFormat, c: Color) -> (r: Vec<u8>)
    ensures
        r@ == pixel_bytes(f, c),
{
    let r = match f {
        PixelFormat::Rgb => vec![c.r, c.g, c.b, 0u8, 0u8, 0u8, 0u8, 0u8],
        PixelFormat::Bgr => vec![c.b, c.g, c.r, 0u8, 0u8, 0u8, 0u8, 0u8],
        _ => {
            let m = ((c.r as u16 + c.g as u16 + c.b as u16) / 3) as u8;
            vec![m, m, m, m, m, m, m, m]
        },
    };
    assert(r@ =~= pixel_bytes(f, c));
    r
}

impl Screen {
    /// The invariant: a consistent console state, with the text size kept
    /// in step with the geometry.
    pub closed spec fn wf(&self) -> bool {
        &&& console_ok(self@)
        &&& self.text_size.x == cols(self.info)
        &&& self.text_size.y == rows(self.info)
    }

    /// A console over `frame_buffer`, laid out as `info` says, that draws
    /// with `font` (16 bytes per glyph, one per pixel line). The text buffer
    /// starts empty and the cursor at the top left. `None` when the
    /// geometry or the font table cannot be drawn with.
    pub fn new(info: FrameInfo, frame_buffer: Vec<u8>, font: Vec<u8>) -> (r: Option<Screen>)
        ensures
            r is Some <==> geometry_ok(info, frame_buffer@.len() as int) && font@.len()
                == FONT_GLYPHS * 16,
            r matches Some(s) ==> s.wf() && s@ == (Console {
                info,
                font: font@,
                pixels: frame_buffer@,
                text: Seq::new((cols(info) * rows(info)) as nat, |i: int| 0u8),
                cursor_x: 0,
                cursor_y: 0,
            }),
    {
        if info.bytes_per_pixel < 1 || info.bytes_per_pixel > 8 || info.width < GLYPH_WIDTH
            || info.height < GLYPH_HEIGHT || info.stride < info.width {
            return None;
        }
        if font.len() != FONT_GLYPHS * GLYPH_HEIGHT {
            return None;
        }
        let fb_len = frame_buffer.len();
        let len = match info.height.checked_mul(info.stride) {
            None => {
                assert(info.height * info.stride * info.bytes_per_pixel > fb_len)
                    by (nonlinear_arith)
                    requires
                        info.height * info.stride > usize::MAX,
                        info.bytes_per_pixel >= 1,
                        fb_len <= usize::MAX,
                ;
                return None;
            },
            Some(n) => n.checked_mul(info.bytes_per_pixel),
        };
        match len {
            None => return None,
            Some(n) => {
                if n != frame_buffer.len() {
                    return None;
                }
            },
        }
        let text_size = Vector { x: info.width / GLYPH_WIDTH, y: info.height / GLYPH_HEIGHT };
        assert(text_size.x * text_size.y <= frame_buffer@.len()) by (nonlinear_arith)
            requires
                text_size.x <= info.width,
                text_size.y <= info.height,
                info.width <= info.stride,
                info.bytes_per_pixel >= 1,
                frame_buffer@.len() == info.height * info.stride * info.bytes_per_pixel,
        ;
        let n = text_size.x * text_size.y;
        let mut text_buffer: Vec<u8> = Vec::new();
        while text_buffer.len() < n
            invariant
                text_buffer@.len() <= n,
                forall|i: int| 0 <= i < text_buffer@.len() ==> text_buffer@[i] == 0u8,
            decreases n - text_buffer@.len(),
        {
            text_buffer.push(0u8);
        }
        let s = Screen {
            frame_buffer,
            info,
            cursor: Vector { x: 0, y: 0 },
            text_size,
            text_buffer,
            font,
        };
        assert(s@.text =~= Seq::new((cols(info) * rows(info)) as nat, |i: int| 0u8));
        Some(s)
    }

    /// The frame buffer's bytes.
    pub fn frame_buffer(&self) -> (r: &Vec<u8>)
        ensures
            r@ == self@.pixels,
    {
        &self.frame_buffer
    }

    /// The text buffer: one byte per text cell, line after line.
    pub fn text(&self) -> (r: &Vec<u8>)
        ensures
            r@ == self@.text,
    {
        &self.text_buffer
    }

    /// The cursor's column and line.
    pub fn cursor(&self) -> (r: (usize, usize))
        ensures
            r.0 == self@.cursor_x,
            r.1 == self@.cursor_y,
    {
        (self.cursor.x, self.cursor.y)
    }

    /// Fills every pixel with `color`.
    pub fn clear(&mut self, color: Color)
        requires
            old(self).wf(),
            old(self)@.info.pixel_format != PixelFormat::Unknown,
        ensures
            final(self).wf(),
            final(self)@ == (Console {
                pixels: Seq::new(
                    old(self)@.pixels.len(),
                    |b: int|
                        pixel_bytes(old(self)@.info.pixel_format, color)[b
                            % old(self)@.info.bytes_per_pixel as int],
                ),
                ..old(self)@
            }),
    {
        let pixel = pixel_of(self.info.pixel_format, color);
        let bpp = self.info.bytes_per_pixel;
        let len = self.frame_buffer.len();
        let ghost pre = self@;
        let mut b: usize = 0;
        while b < len
            invariant
                self.wf() || b < len,
                pre == old(self)@,
                old(self).wf(),
                self.info == old(self).info,
                self.cursor == old(self).cursor,
                self.text_size == old(self).text_size,
                self.text_buffer@ == old(self).text_buffer@,
                self.font@ == old(self).font@,
                bpp == self.info.bytes_per_pixel,
                1 <= bpp <= 8,
                pixel@ == pixel_bytes(self.info.pixel_format, color),
                len == self.frame_buffer@.len(),
                len == pre.pixels.len(),
                b <= len,
                forall|j: int| 0 <= j < b ==> self.frame_buffer@[j] == pixel@[j % bpp as int],
            decreases len - b,
        {
            self.frame_buffer.set(b, pixel[b % bpp]);
            b = b + 1;
        }
        assert(self@.pixels =~= Seq::new(
            pre.pixels.len(),
            |j: int| pixel_bytes(pre.info.pixel_format, color)[j % pre.info.bytes_per_pixel as int],
        ));
    }

    /// Writes each byte of `s` in turn, as `write_char` does.
    pub fn write_str(&mut self, s: &[u8])
        requires
            old(self).wf(),
            forall|i: int| 0 <= i < s@.len() ==> s@[i] < FONT_GLYPHS,
        ensures
            final(self).wf(),
            final(self)@ == put_str(old(self)@, s@),
    {
        let mut i: usize = 0;
        while i < s.len()
            invariant
                self.wf(),
                i <= s@.len(),
                forall|k: int| 0 <= k < s@.len() ==> s@[k] < FONT_GLYPHS,
                self@ == put_str(old(self)@, s@.take(i as int)),
            decreases s@.len() - i,
        {
            self.write_char(s[i]);
            assert(s@.take(i + 1).drop_last() =~= s@.take(i as int));
            i = i + 1;
        }
        assert(s@.take(s@.len() as int) =~= s@);
    }

    /// Writes character `c` at the cursor: see `put_char`.
    pub fn write_char(&mut self, c: u8)
        requires
            old(self).wf(),
            c < FONT_GLYPHS,
        ensures
            final(self).wf(),
            final(self)@ == put_char(old(self)@, c),
    {
        let x = self.cursor.x;
        let y = self.cursor.y;
        let tx = self.text_size.x;
        let ty = self.text_size.y;
        assert(y * tx <= x + y * tx < tx * ty) by (nonlinear_arith)
            requires
                x < tx,
                y < ty,
        ;
        let tlen = self.text_buffer.len();
        assert(tx * ty == tlen);
        self.text_buffer.set(x + y * tx, c);
        if c == 10 {
            if y >= ty - 1 {
                self.newline();
            }
            self.cursor = Vector { x: 0, y: if y + 1 < ty - 1 { y + 1 } else { ty - 1 } };
        } else {
            self.draw_char(x, y, c);
            self.cursor = Vector { x: if x + 1 < tx - 1 { x + 1 } else { tx - 1 }, y };
        }
        assert(self@ == put_char(old(self)@, c));
    }

    /// Draws glyph `c` into the cell at text position `(x, y)`.
    fn draw_char(&mut self, x: usize, y: usize, c: u8)
        requires
            old(self).wf(),
            x < cols(old(self).info),
            y < rows(old(self).info),
            c < FONT_GLYPHS,
        ensures
            final(self).wf(),
            final(self)@ == (Console {
                pixels: draw_glyph(
                    old(self)@.info,
                    old(self)@.font,
                    old(self)@.pixels,
                    x as int,
                    y as int,
                    c as int,
                ),
                ..old(self)@
            }),
    {
        draw_into(&mut self.frame_buffer, self.info, &self.font, x, y, c);
    }

    /// Moves the pixels and the text up by one text line and clears the
    /// last one: see `scroll_pixels` and `scroll_text`.
    fn newline(&mut self)
        requires
            old(self).wf(),
        ensures
            final(self).wf(),
            final(self)@ == (Console {
                pixels: scroll_pixels(old(self)@.info, old(self)@.pixels),
                text: scroll_text(old(self)@.text, cols(old(self)@.info)),
                ..old(self)@
            }),
    {
        let ghost info = self.info;
        let len = self.frame_buffer.len();
        let ty = self.text_size.y;
        assert(info.stride * info.bytes_per_pixel * 16 <= len && (ty - 1) * (16 * (info.stride
            * info.bytes_per_pixel)) + 16 * (info.stride * info.bytes_per_pixel) <= len)
            by (nonlinear_arith)
            requires
                len == info.height * info.stride * info.bytes_per_pixel,
                info.height >= 16,
                ty == info.height / 16,
                ty >= 1,
        ;
        let line = self.info.stride * self.info.bytes_per_pixel;
        let shift = 16 * line;
        scroll_bytes(&mut self.frame_buffer, shift, (ty - 1) * shift);
        let tx = self.text_size.x;
        assert(tx <= self.text_buffer@.len()) by (nonlinear_arith)
            requires
                self.text_buffer@.len() == tx * ty,
                ty >= 1,
        ;
        let tlen = self.text_buffer.len();
        scroll_bytes(&mut self.text_buffer, tx, tlen - tx);
        assert(scroll_text(old(self)@.text, tx as int) =~= Seq::new(
            old(self)@.text.len(),
            |j: int|
                if tlen - tx <= j < tlen {
                    0u8
                } else if j + tx < old(self)@.text.len() {
                    old(self)@.text[j + tx]
                } else {
                    old(self)@.text[j]
                },
        ));
    }

}

} // verus!
