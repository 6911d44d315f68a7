//! Bitmap fonts: packing glyph pixels into bytes, and laying the glyphs of
//! the printable ASCII characters out as a table indexed by character code.
use vstd::prelude::*;
use vstd::arithmetic::div_mod::lemma_fundamental_div_mod_converse;
use crate::video::{FONT_GLYPHS, GLYPH_HEIGHT, GLYPH_WIDTH};

verus! {

/// Code of the first character with a glyph in a font table: `'!'`.
pub const FIRST_GLYPH: usize = 33;

/// `2` to the power `k`.
pub open spec fn two_pow(k: int) -> int
    decreases k,
{
    if k <= 0 {
        1
    } else {
        2 * two_pow(k - 1)
    }
}

/// Powers of two up to the eighth stay within a byte's range of values.
proof fn lemma_two_pow_small(k: int)
    requires
        0 <= k <= 8,
    ensures
        two_pow(k) <= 256,
{
    assert(two_pow(0) == 1);
    assert(two_pow(1) == 2);
    assert(two_pow(2) == 4);
    assert(two_pow(3) == 8);
    assert(two_pow(4) == 16);
    assert(two_pow(5) == 32);
    assert(two_pow(6) == 64);
    assert(two_pow(7) == 128);
    assert(two_pow(8) == 256);
}

/// The first `k` pixels of `p` read as a binary number, leftmost pixel
/// first and a set pixel as a one.
pub open spec fn row_value(p: Seq<bool>, k: int) -> int
    decreases k,
{
    if k <= 0 {
        0
    } else {
        2 * row_value(p, k - 1) + if p[k - 1] {
            1int
        } else {
            0int
        }
    }
}

/// The font byte of one pixel row: bit 7 holds the leftmost of its first
/// eight pixels, bit 0 the rightmost.
pub fn pack_row(pixels: &Vec<bool>) -> (r: u8)
    requires
        pixels@.len() >= 8,
    ensures
        r == row_value(pixels@, 8),
{
    let mut acc: u16 = 0;
    let mut x: usize = 0;
    while x < GLYPH_WIDTH
        invariant
            pixels@.len() >= 8,
            x <= 8,
            acc == row_value(pixels@, x as int),
            acc < two_pow(x as int),
            two_pow(x as int) <= 256,
        decreases 8 - x,
    {
        assert(two_pow(x + 1) == 2 * two_pow(x as int));
        let bit: u16 = if pixels[x] {
            1
        } else {
            0
        };
        acc = 2 * acc + bit;
        x = x + 1;
        proof {
            lemma_two_pow_small(x as int);
        }
    }
    acc as u8
}

/// The 16 font bytes of a glyph given as rows of pixels, top row first;
/// only the first eight pixels of the first 16 rows count.
pub fn pack_glyph(rows: &Vec<Vec<bool>>) -> (r: Vec<u8>)
    requires
        rows@.len() >= 16,
        forall|i: int| 0 <= i < 16 ==> (#[trigger] rows@[i])@.len() >= 8,
    ensures
        r@.len() == 16,
        forall|i: int| 0 <= i < 16 ==> r@[i] == row_value((#[trigger] rows@[i])@, 8),
{
    let mut r: Vec<u8> = Vec::new();
    let mut y: usize = 0;
    while y < GLYPH_HEIGHT
        invariant
            rows@.len() >= 16,
            forall|i: int| 0 <= i < 16 ==> (#[trigger] rows@[i])@.len() >= 8,
            y <= 16,
            r@.len() == y,
            forall|i: int| 0 <= i < y ==> r@[i] == row_value((#[trigger] rows@[i])@, 8),
        decreases 16 - y,
    {
        let b = pack_row(&rows[y]);
        r.push(b);
        y = y + 1;
    }
    r
}

/// Byte `i` of the font table made of `glyphs`: glyph `k` stands for the
/// character `FIRST_GLYPH + k`, and the bytes of codes without a glyph are
/// zero.
pub open spec fn table_byte(glyphs: Seq<Vec<u8>>, i: int) -> u8 {
    let c = i / 16;
    if FIRST_GLYPH <= c < FIRST_GLYPH + glyphs.len() {
        glyphs[c - FIRST_GLYPH]@[i % 16]
    } else {
        0u8
    }
}

/// The font table that a `Screen` draws with: 16 bytes for each of the
/// codes below `FONT_GLYPHS`, filled from `glyphs` from code `FIRST_GLYPH`
/// on. Glyphs that would fall past the table are left out.
pub fn font_table(glyphs: &Vec<Vec<u8>>) -> (r: Vec<u8>)
    requires
        forall|k: int| 0 <= k < glyphs@.len() ==> (#[trigger] glyphs@[k])@.len() == 16,
    ensures
        r@.len() == FONT_GLYPHS * 16,
        forall|i: int| 0 <= i < FONT_GLYPHS * 16 ==> r@[i] == table_byte(glyphs@, i),
{
    let mut r: Vec<u8> = Vec::new();
    let mut c: usize = 0;
    while c < FONT_GLYPHS
        invariant
            forall|k: int| 0 <= k < glyphs@.len() ==> (#[trigger] glyphs@[k])@.len() == 16,
            c <= FONT_GLYPHS,
            r@.len() == c * 16,
            forall|i: int| 0 <= i < r@.len() ==> r@[i] == table_byte(glyphs@, i),
        decreases FONT_GLYPHS - c,
    {
        let mut row: usize = 0;
        while row < GLYPH_HEIGHT
            invariant
                forall|k: int| 0 <= k < glyphs@.len() ==> (#[trigger] glyphs@[k])@.len() == 16,
                c < FONT_GLYPHS,
                row <= 16,
                r@.len() == c * 16 + row,
                forall|i: int| 0 <= i < r@.len() ==> r@[i] == table_byte(glyphs@, i),
            decreases 16 - row,
        {
            let v = if FIRST_GLYPH <= c && c - FIRST_GLYPH < glyphs.len() {
                glyphs[c - FIRST_GLYPH][row]
            } else {
                0u8
            };
            proof {
                lemma_fundamental_div_mod_converse(
                    (c * 16 + row) as int,
                    16,
                    c as int,
                    row as int,
                );
            }
            r.push(v);
            row = row + 1;
        }
        c = c + 1;
    }
    r
}

} // verus!
