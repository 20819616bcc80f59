//! Glyph lookup in the 8 by 8 bitmap font: each basic Latin character has
//! eight row bitmaps, one byte per row, bit `k` of row `r` telling whether
//! pixel `(k, r)` of the glyph is lit.
use vstd::prelude::*;

verus! {

/// The eight row bitmaps of the basic font's glyph for `c`, where the font
/// defines one. The bitmaps themselves are the font crate's data and are
/// not spelled out here; they depend on the character alone.
pub uninterp spec fn basic_glyph(c: char) -> Option<Seq<u8>>;

/// Relies on font8x8's `BASIC_FONTS.get`: a binary search of the basic
/// Latin table, sorted by character and holding exactly the characters
/// below U+0080, returning that character's eight row bitmaps.
#[verifier::external_body]
pub(crate) fn basic_glyph_lookup(c: char) -> (r: Option<Vec<u8>>)
    ensures
        r is Some <==> basic_glyph(c) is Some,
        r is Some <==> (c as u32) < 128,
        r matches Some(g) ==> basic_glyph(c) == Some(g@) && g@.len() == 8,
{
    match font8x8::UnicodeFonts::get(&font8x8::BASIC_FONTS, c) {
        Some(glyph) => Some(glyph.to_vec()),
        None => None,
    }
}

} // verus!
