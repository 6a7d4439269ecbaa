//! Encoding of one 2x4 pixel block as a Unicode Braille character.
//!
//! The Braille Patterns range numbers its dots
//!
//! ```text
//! 1 4
//! 2 5
//! 3 6
//! 7 8
//! ```
//!
//! and a glyph's codepoint is `0x2800` plus the mask whose bit `i - 1` is
//! dot `i`. Pixels that fall outside the buffer read as off, so blocks may
//! overhang the right and bottom edges of the image.

use vstd::prelude::*;

verus! {

/// True when `(x, y)` lies inside the `width` by `height` grid and the
/// pixel there is set in the row-major buffer `fb`.
pub open spec fn pixel_on(fb: Seq<bool>, width: nat, height: nat, x: nat, y: nat) -> bool {
    x < width && y < height && fb[(x + y * width) as int]
}

/// The contribution of the pixel at `(x, y)` to a block mask: 1 when on,
/// 0 when off or outside the grid.
pub open spec fn dot_bit(fb: Seq<bool>, width: nat, height: nat, x: nat, y: nat) -> nat {
    if pixel_on(fb, width, height, x, y) {
        1
    } else {
        0
    }
}

/// The 8-bit mask of the 2x4 block whose top-left pixel is `(x_off, y_off)`:
/// dots 1, 2, 3 run down the left column, dots 4, 5, 6 down the right
/// column, and dots 7 and 8 sit on the bottom row; dot `i` is bit `i - 1`.
pub open spec fn block_mask(fb: Seq<bool>, x_off: nat, y_off: nat, width: nat, height: nat) -> nat {
    dot_bit(fb, width, height, x_off, y_off) + 2 * dot_bit(fb, width, height, x_off, y_off + 1)
        + 4 * dot_bit(fb, width, height, x_off, y_off + 2) + 8 * dot_bit(
        fb,
        width,
        height,
        x_off + 1,
        y_off,
    ) + 16 * dot_bit(fb, width, height, x_off + 1, y_off + 1) + 32 * dot_bit(
        fb,
        width,
        height,
        x_off + 1,
        y_off + 2,
    ) + 64 * dot_bit(fb, width, height, x_off, y_off + 3) + 128 * dot_bit(
        fb,
        width,
        height,
        x_off + 1,
        y_off + 3,
    )
}

/// The Braille character for a mask: the codepoint `0x2800 + mask`.
pub open spec fn braille_glyph(mask: nat) -> char
    recommends
        mask < 256,
{
    (0x2800 + mask) as char
}

/// Every block mask is an 8-bit value.
pub proof fn lemma_mask_bound(fb: Seq<bool>, x_off: nat, y_off: nat, width: nat, height: nat)
    ensures
        block_mask(fb, x_off, y_off, width, height) < 256,
{
}

/// Relies on `char::from_u32` of std: the character with the given scalar
/// value when that value is a Unicode scalar value (below the surrogate
/// range at 0xD800, or between 0xE000 and 0x10FFFF), and `None` otherwise.
pub assume_specification[ char::from_u32 ](i: u32) -> (r: Option<char>)
    ensures
        (i < 0xD800 || (0xE000 <= i && i <= 0x10FFFF)) ==> r == Some(i as char),
        !(i < 0xD800 || (0xE000 <= i && i <= 0x10FFFF)) ==> r is None,
;

/// The Braille character whose dot pattern is `mask`.
pub fn braille_char(mask: u8) -> (c: char)
    ensures
        c == braille_glyph(mask as nat),
{
    let code: u32 = 0x2800 + mask as u32;
    match char::from_u32(code) {
        Some(c) => c,
        None => unreached(),
    }
}

/// A row-major index stays inside a `width` by `height` buffer.
proof fn lemma_row_major_index(x: nat, y: nat, width: nat, height: nat)
    requires
        x < width,
        y < height,
    ensures
        x + y * width < width * height,
{
    assert(x + y * width < width * height) by (nonlinear_arith)
        requires
            x < width,
            y < height,
    ;
}

/// One dot of a block: 1 when the pixel at `(x, y)` is inside the grid and
/// set, 0 otherwise.
fn read_dot(framebuffer: &[bool], x: usize, y: usize, width: usize, height: usize) -> (b: u8)
    requires
        framebuffer@.len() == width * height,
    ensures
        b as nat == dot_bit(framebuffer@, width as nat, height as nat, x as nat, y as nat),
        b <= 1,
{
    // The buffer length, a usize, bounds the row-major index below.
    let total: usize = framebuffer.len();
    if x < width && y < height {
        proof {
            assert(total as int == width * height);
            lemma_row_major_index(x as nat, y as nat, width as nat, height as nat);
        }
        if framebuffer[x + y * width] {
            1
        } else {
            0
        }
    } else {
        0
    }
}

/// The Braille character of the 2x4 block whose top-left pixel is
/// `(x_offset, y_offset)`; pixels outside the grid read as off.
pub fn get_char(
    framebuffer: &[bool],
    x_offset: usize,
    y_offset: usize,
    width: usize,
    height: usize,
) -> (c: char)
    requires
        framebuffer@.len() == width * height,
        x_offset + 1 <= usize::MAX,
        y_offset + 3 <= usize::MAX,
    ensures
        c == braille_glyph(
            block_mask(framebuffer@, x_offset as nat, y_offset as nat, width as nat, height as nat),
        ),
{
    let d1 = read_dot(framebuffer, x_offset, y_offset, width, height);
    let d2 = read_dot(framebuffer, x_offset, y_offset + 1, width, height);
    let d3 = read_dot(framebuffer, x_offset, y_offset + 2, width, height);
    let d4 = read_dot(framebuffer, x_offset + 1, y_offset, width, height);
    let d5 = read_dot(framebuffer, x_offset + 1, y_offset + 1, width, height);
    let d6 = read_dot(framebuffer, x_offset + 1, y_offset + 2, width, height);
    let d7 = read_dot(framebuffer, x_offset, y_offset + 3, width, height);
    let d8 = read_dot(framebuffer, x_offset + 1, y_offset + 3, width, height);
    let mask: u8 = d1 + 2 * d2 + 4 * d3 + 8 * d4 + 16 * d5 + 32 * d6 + 64 * d7 + 128 * d8;
    braille_char(mask)
}

/// The Braille character of a single full 2x4 block, given row-major.
pub fn to_char(f: [bool; 8]) -> (c: char)
    ensures
        c == braille_glyph(block_mask(f@, 0, 0, 2, 4)),
{
    get_char(f.as_slice(), 0, 0, 2, 4)
}

/// Bit order of the encoding: on a full, isolated 2x4 block given row-major,
/// dot 1 is bit 0, dot 2 bit 1, dot 3 bit 2, dot 4 bit 3, dot 5 bit 4,
/// dot 6 bit 5, dot 7 bit 6 and dot 8 bit 7, and the glyph for any mask is
/// the character at codepoint `0x2800` plus the mask.
pub proof fn lemma_bit_order(f: Seq<bool>)
    requires
        f.len() == 8,
    ensures
        block_mask(f, 0, 0, 2, 4) == (if f[0] {
            1nat
        } else {
            0
        }) + 2 * (if f[2] {
            1nat
        } else {
            0
        }) + 4 * (if f[4] {
            1nat
        } else {
            0
        }) + 8 * (if f[1] {
            1nat
        } else {
            0
        }) + 16 * (if f[3] {
            1nat
        } else {
            0
        }) + 32 * (if f[5] {
            1nat
        } else {
            0
        }) + 64 * (if f[6] {
            1nat
        } else {
            0
        }) + 128 * (if f[7] {
            1nat
        } else {
            0
        }),
        braille_glyph(block_mask(f, 0, 0, 2, 4)) as u32 == 0x2800 + block_mask(f, 0, 0, 2, 4),
{
    lemma_mask_bound(f, 0, 0, 2, 4);
}

} // verus!
