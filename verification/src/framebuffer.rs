//! A borrowed pixel buffer viewed as indexable Braille text.
//!
//! A [`Framebuffer`] borrows a row-major slice of pixels together with its
//! width and height and addresses the rendered text by linear character
//! index: each text row holds one character per two pixel columns, rounded
//! up, and ends in one line-break slot; there is one text row per four
//! pixel rows, rounded up. Blocks that overhang the right or bottom edge
//! read the missing pixels as off.

use vstd::arithmetic::div_mod::{
    lemma_fundamental_div_mod, lemma_fundamental_div_mod_converse, lemma_mod_multiples_vanish,
    lemma_mod_pos_bound, lemma_small_mod,
};
use vstd::arithmetic::mul::lemma_mul_inequality;
use vstd::prelude::*;

use crate::encoder::{block_mask, braille_glyph, get_char};

verus! {

/// Where a linear character index of a view lands: inside the image, on a
/// 2x4 block whose top-left pixel is at the carried coordinates; on the
/// line break that ends a row; or past the end of the image.
#[derive(Debug, PartialEq, Eq, Structural)]
pub enum Offsets {
    Char(usize, usize),
    Linebreak,
    End,
}

/// Characters per text row: one per two pixel columns, rounded up, plus one
/// trailing slot for the line break.
pub open spec fn chars_per_row(width: nat) -> nat {
    (width + 1) / 2 + 1
}

/// Text rows: one per four pixel rows, rounded up.
pub open spec fn char_rows(height: nat) -> nat {
    (height + 3) / 4
}

/// A read-only view of a row-major 1-bit pixel buffer as Braille text.
#[derive(Debug, Copy, Clone)]
pub struct Framebuffer<'a> {
    pub framebuffer: &'a [bool],
    pub width: usize,
    pub height: usize,
    pub x_chars_count: usize,
    pub y_chars_count: usize,
}

/// The derived character counts never outgrow a `usize`: the text is one
/// character per 2x4 pixel block plus one line break per row, and the
/// pixel count itself fits.
proof fn lemma_total_count_fits(width: nat, height: nat)
    requires
        width * height <= usize::MAX,
        width <= usize::MAX,
        height <= usize::MAX,
    ensures
        chars_per_row(width) * char_rows(height) <= usize::MAX,
{
    let x = chars_per_row(width);
    let y = char_rows(height);
    assert(2 * x <= width + 3);
    assert(4 * y <= height + 3);
    assert(8 * (x * y) <= (width + 3) * (height + 3)) by (nonlinear_arith)
        requires
            2 * x <= width + 3,
            4 * y <= height + 3,
    ;
    assert((width + 3) * (height + 3) == width * height + 3 * width + 3 * height + 9)
        by (nonlinear_arith);
}

impl<'a> Framebuffer<'a> {
    /// The buffer matches the dimensions, the two character counts are the
    /// derived column and row counts, and the total character count fits in
    /// a `usize`.
    pub open spec fn wf(self) -> bool {
        &&& self.framebuffer@.len() == self.width * self.height
        &&& self.x_chars_count == chars_per_row(self.width as nat)
        &&& self.y_chars_count == char_rows(self.height as nat)
        &&& self.x_chars_count * self.y_chars_count <= usize::MAX
    }

    /// The total number of addressable characters, line breaks included.
    pub open spec fn spec_len(self) -> nat {
        self.x_chars_count as nat * self.y_chars_count as nat
    }

    /// What the given linear index denotes, mirroring the rendered layout:
    /// the last slot of every row past index 0 is the line break; below
    /// that, an index whose text row starts at or past the image height is
    /// past the end; anything else is the block two pixels per column and
    /// four per row into the image.
    pub open spec fn spec_offsets(self, index: int) -> Offsets {
        let cpr = self.x_chars_count as int;
        if index > 0 && (index + 1) % cpr == 0 {
            Offsets::Linebreak
        } else if 4 * (index / cpr) >= self.height {
            Offsets::End
        } else {
            Offsets::Char(((index % cpr) * 2) as usize, ((index / cpr) * 4) as usize)
        }
    }

    /// The character at the given linear index: the Braille glyph of its
    /// block, the line break, or `None` past the end.
    pub open spec fn spec_get(self, index: int) -> Option<char> {
        match self.spec_offsets(index) {
            Offsets::Char(x, y) => Some(
                braille_glyph(
                    block_mask(
                        self.framebuffer@,
                        x as nat,
                        y as nat,
                        self.width as nat,
                        self.height as nat,
                    ),
                ),
            ),
            Offsets::Linebreak => Some('\n'),
            Offsets::End => None,
        }
    }

    /// Create a view of `framebuffer` as `width` by `height` pixels.
    pub fn new(framebuffer: &'a [bool], width: usize, height: usize) -> (r: Self)
        requires
            framebuffer@.len() == width * height,
        ensures
            r.wf(),
            r.framebuffer@ == framebuffer@,
            r.width == width,
            r.height == height,
    {
        // The buffer length, a usize, bounds the pixel count.
        let pixels: usize = framebuffer.len();
        let x_chars_count: usize = width / 2 + width % 2 + 1;
        let y_chars_count: usize = height / 4 + if height % 4 == 0 {
            0
        } else {
            1
        };
        proof {
            assert(pixels as int == width * height);
            lemma_total_count_fits(width as nat, height as nat);
        }
        Framebuffer { framebuffer, width, height, x_chars_count, y_chars_count }
    }

    /// Where the given linear index lands in the rendered text.
    pub fn offsets(&self, index: usize) -> (r: Offsets)
        requires
            self.wf(),
        ensures
            r == self.spec_offsets(index as int),
    {
        let cpr: usize = self.x_chars_count;
        if index > 0 && index % cpr == cpr - 1 {
            proof {
                let q = index as int / cpr as int;
                lemma_fundamental_div_mod(index as int, cpr as int);
                assert(cpr as int * (q + 1) == cpr as int * q + cpr as int) by (nonlinear_arith);
                lemma_mod_multiples_vanish(q + 1, 0, cpr as int);
            }
            return Offsets::Linebreak;
        }
        proof {
            if index > 0 && (index as int + 1) % cpr as int == 0 {
                let k = (index as int + 1) / cpr as int;
                lemma_fundamental_div_mod(index as int + 1, cpr as int);
                assert((k - 1) * cpr as int == cpr as int * k - cpr as int) by (nonlinear_arith);
                lemma_fundamental_div_mod_converse(index as int, cpr as int, k - 1, cpr as int - 1);
            }
        }
        let rows: usize = index / cpr;
        if rows >= self.y_chars_count {
            return Offsets::End;
        }
        let cols: usize = index % cpr;
        Offsets::Char(cols * 2, rows * 4)
    }

    /// A block the layout hands out lies inside the image: its top-left
    /// pixel column is at most the width and its row is below the height.
    pub proof fn lemma_char_offsets_in_range(self, index: int)
        requires
            self.wf(),
            0 <= index,
        ensures
            self.spec_offsets(index) matches Offsets::Char(x, y) ==> x <= self.width && x + 1
                <= usize::MAX && y < self.height && y + 3 <= usize::MAX,
    {
        let cpr = self.x_chars_count as int;
        if self.spec_offsets(index) matches Offsets::Char(x, y) {
            lemma_mod_pos_bound(index, cpr);
            if index > 0 {
                if index % cpr == cpr - 1 {
                    let q = index / cpr;
                    lemma_fundamental_div_mod(index, cpr);
                    assert(cpr * (q + 1) == cpr * q + cpr) by (nonlinear_arith);
                    lemma_mod_multiples_vanish(q + 1, 0, cpr);
                }
                assert(index % cpr != cpr - 1);
                assert((index % cpr) * 2 <= self.width + 1 - 2);
            }
            let q = index / cpr;
            assert(4 * q < self.height);
            assert(q <= (usize::MAX - 1) / 4);
            assert(q * 4 + 3 <= usize::MAX);
        }
    }

    /// The character at the given linear index, or `None` past the end.
    pub fn get(&self, index: usize) -> (r: Option<char>)
        requires
            self.wf(),
        ensures
            r == self.spec_get(index as int),
    {
        proof {
            self.lemma_char_offsets_in_range(index as int);
        }
        match self.offsets(index) {
            Offsets::Char(x_offset, y_offset) => Some(
                get_char(self.framebuffer, x_offset, y_offset, self.width, self.height),
            ),
            Offsets::Linebreak => Some('\n'),
            Offsets::End => None,
        }
    }

    /// The character at the given linear index, which must not be past the
    /// end.
    pub fn index(&self, index: usize) -> (c: char)
        requires
            self.wf(),
            self.spec_get(index as int) is Some,
        ensures
            Some(c) == self.spec_get(index as int),
    {
        match self.get(index) {
            Some(c) => c,
            None => unreached(),
        }
    }

    /// The number of characters across the rendered image, the trailing
    /// line break included.
    pub fn x_chars_count(&self) -> (n: usize)
        ensures
            n == self.x_chars_count,
    {
        self.x_chars_count
    }

    /// The number of characters down the rendered image.
    pub fn y_chars_count(&self) -> (n: usize)
        ensures
            n == self.y_chars_count,
    {
        self.y_chars_count
    }

    /// The number of characters that can be returned, line breaks included.
    pub fn len(&self) -> (n: usize)
        requires
            self.wf(),
        ensures
            n as nat == self.spec_len(),
    {
        proof {
            assert(self.y_chars_count * self.x_chars_count == self.x_chars_count
                * self.y_chars_count) by (nonlinear_arith);
        }
        self.y_chars_count * self.x_chars_count
    }

    /// True when the underlying buffer holds no pixels.
    pub fn is_empty(&self) -> (r: bool)
        ensures
            r == (self.framebuffer@.len() == 0),
    {
        self.framebuffer.len() == 0
    }

    /// Every index below the total length yields a character: the layout
    /// reaches its end only past the last text row.
    pub proof fn lemma_some_before_len(self, index: int)
        requires
            self.wf(),
            0 <= index < self.spec_len(),
        ensures
            self.spec_get(index) is Some,
    {
        let cpr = self.x_chars_count as int;
        let y = self.y_chars_count as int;
        if !(index > 0 && (index + 1) % cpr == 0) {
            let q = index / cpr;
            lemma_fundamental_div_mod(index, cpr);
            lemma_mod_pos_bound(index, cpr);
            if q >= y {
                lemma_mul_inequality(y, q, cpr);
                assert(cpr * q == q * cpr) by (nonlinear_arith);
                assert(cpr * y == y * cpr) by (nonlinear_arith);
                assert(false);
            }
            assert(4 * q < self.height);
        }
    }

    /// The full rendered text: the characters of all indexes in order,
    /// line breaks included.
    pub open spec fn rendered(self) -> Seq<char> {
        Seq::new(self.spec_len(), |i: int| self.spec_get(i).unwrap())
    }

    /// The whole view as text: every character in index order, one line
    /// per text row, each row closed by its line break.
    pub fn render(&self) -> (s: String)
        requires
            self.wf(),
        ensures
            s@ == self.rendered(),
    {
        let total: usize = self.len();
        let mut s = String::new();
        let mut i: usize = 0;
        while i < total
            invariant
                self.wf(),
                i <= total,
                total as nat == self.spec_len(),
                s@ == self.rendered().take(i as int),
            decreases total - i,
        {
            proof {
                self.lemma_some_before_len(i as int);
            }
            match self.get(i) {
                Some(c) => {
                    s.push(c);
                    proof {
                        assert(self.rendered().take(i as int + 1) =~= self.rendered().take(
                            i as int,
                        ).push(c));
                    }
                },
                None => unreached(),
            }
            i = i + 1;
        }
        proof {
            assert(self.rendered().take(total as int) =~= self.rendered());
        }
        s
    }

    /// A fresh traversal of the view, starting at index 0.
    pub fn iter<'s>(&'s self) -> (it: Iter<'s, 'a>)
        ensures
            it.inner == self,
            it.index == 0,
    {
        Iter { inner: self, index: 0 }
    }

    /// Line breaks sit exactly at the reserved slot that ends each text
    /// row: the view yields the line break precisely at the indexes past 0
    /// whose successor is a multiple of the row width. And when the image
    /// has any pixel columns, the index just past the whole text yields
    /// nothing.
    pub proof fn lemma_linebreak_placement(self, index: int)
        requires
            self.wf(),
            0 <= index,
        ensures
            (self.spec_get(index) == Some('\n')) <==> (index > 0 && (index + 1) % (
            self.x_chars_count as int) == 0),
            self.width > 0 ==> self.spec_get(self.spec_len() as int) is None,
    {
        let cpr = self.x_chars_count as int;
        let y = self.y_chars_count as int;
        match self.spec_offsets(index) {
            Offsets::Char(cx, cy) => {
                let mask = block_mask(
                    self.framebuffer@,
                    cx as nat,
                    cy as nat,
                    self.width as nat,
                    self.height as nat,
                );
                crate::encoder::lemma_mask_bound(
                    self.framebuffer@,
                    cx as nat,
                    cy as nat,
                    self.width as nat,
                    self.height as nat,
                );
                assert(braille_glyph(mask) as u32 >= 0x2800);
                assert('\n' as u32 == 10);
            },
            Offsets::Linebreak => {},
            Offsets::End => {},
        }
        if self.width > 0 {
            let total = self.spec_len() as int;
            assert(cpr * y == y * cpr) by (nonlinear_arith);
            lemma_fundamental_div_mod_converse(total, cpr, y, 0);
            lemma_mod_multiples_vanish(y, 1, cpr);
            lemma_small_mod(1, cpr as nat);
        }
    }

    /// One full traversal and the rendered text agree: every index below
    /// the total length yields exactly the character of `rendered`, and
    /// when the image has any pixel columns the traversal ends exactly
    /// there, at the first index the layout maps past the end.
    pub proof fn lemma_render_is_traversal(self)
        requires
            self.wf(),
        ensures
            forall|i: int|
                0 <= i < self.spec_len() ==> self.spec_get(i) == Some(
                    #[trigger] self.rendered()[i],
                ),
            self.width > 0 ==> self.spec_get(self.spec_len() as int) is None,
    {
        assert forall|i: int| 0 <= i < self.spec_len() implies self.spec_get(i) == Some(
            self.rendered()[i],
        ) by {
            self.lemma_some_before_len(i);
        }
        self.lemma_linebreak_placement(0);
    }
}

/// Relies on `String::push` of std: appends the given character to the end
/// of the string.
pub assume_specification[ String::push ](s: &mut String, ch: char)
    ensures
        final(s)@ == old(s)@.push(ch),
;

/// A cursor over the characters of a view, from index 0 forward.
pub struct Iter<'a, 'i> {
    pub inner: &'a Framebuffer<'i>,
    pub index: usize,
}

impl<'a, 'i> Iter<'a, 'i> {
    /// The next character, stepping the cursor; `None` at the end of the
    /// view, where the cursor stays put.
    pub fn next(&mut self) -> (r: Option<char>)
        requires
            old(self).inner.wf(),
            old(self).index == usize::MAX ==> old(self).inner.spec_get(usize::MAX as int)
                is None,
        ensures
            final(self).inner == old(self).inner,
            r == old(self).inner.spec_get(old(self).index as int),
            r is Some ==> final(self).index == old(self).index + 1,
            r is None ==> final(self).index == old(self).index,
    {
        let r = self.inner.get(self.index);
        match r {
            Some(_) => {
                self.index = self.index + 1;
            },
            None => {},
        }
        r
    }

    /// The length of a full traversal from index 0, as both bounds.
    pub fn size_hint(&self) -> (r: (usize, Option<usize>))
        requires
            self.inner.wf(),
        ensures
            r.0 as nat == self.inner.spec_len(),
            r.1 == Some(r.0),
    {
        let size: usize = self.inner.len();
        (size, Some(size))
    }
}

} // verus!
