//! Render a rectangular 1-bit pixel buffer as Unicode Braille text.
//!
//! Each printable character stands for a 2-wide by 4-tall block of pixels:
//! the eight pixels of a block select one of the 256 glyphs of the Unicode
//! Braille Patterns range. A [`Framebuffer`] wraps a borrowed row-major
//! pixel slice and hands out the characters of the rendered text, line
//! breaks included, by linear index or as a full string.

pub mod encoder;
pub mod framebuffer;

pub use encoder::{braille_char, get_char, to_char};
pub use framebuffer::{Framebuffer, Iter, Offsets};
