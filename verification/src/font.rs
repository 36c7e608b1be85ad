//! The built-in 8×8 bitmap font (Basic Latin), from the `font8x8` crate.

use vstd::prelude::*;
use font8x8::UnicodeFonts;

verus! {

/// The 8×8 bitmap of `c` in `font8x8::BASIC_FONTS`, one byte per row with the
/// leftmost pixel in bit 0, or `None` where the table has no entry.
pub uninterp spec fn basic_glyph(c: char) -> Option<Seq<u8>>;

/// Looks `c` up in `font8x8::BASIC_FONTS` (`UnicodeFonts::get`). Trusted: the
/// result is the table entry named by `basic_glyph`, and the table, which
/// covers U+0000..=U+007F in order, has an entry exactly for those code
/// points. The bitmaps themselves are left unstated.
#[verifier::external_body]
pub fn basic_font_get(c: char) -> (g: Option<[u8; 8]>)
    ensures
        g is Some <==> (c as u32) < 128,
        match g {
            Some(bits) => basic_glyph(c) == Some(bits@),
            None => basic_glyph(c) is None,
        },
{
    font8x8::BASIC_FONTS.get(c)
}

} // verus!
