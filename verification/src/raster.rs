//! Font data and the coverage bitmaps that rasterizing its glyphs fills.

use vstd::prelude::*;
use ab_glyph::{FontRef, InvalidFont};
use crate::atlas::GLYPH_SIZE;

verus! {

#[verifier::external_type_specification]
#[verifier::external_body]
pub struct ExFontRef<'a>(FontRef<'a>);

#[verifier::external_type_specification]
#[verifier::external_body]
pub struct ExInvalidFont(InvalidFont);

/// Whether `ab_glyph` accepts `data` as a font: `FontRef::try_from_slice`
/// parses it as the first face of a TrueType/OpenType file or collection.
pub uninterp spec fn is_font_data(data: Seq<u8>) -> bool;

/// The font data a parsed font was built from.
pub uninterp spec fn font_source(font: FontRef) -> Seq<u8>;

/// Calls `ab_glyph::FontRef::try_from_slice`. Its source parses the first
/// face with `ttf_parser::Face::parse(data, 0)` and fails with `InvalidFont`
/// exactly when that parse fails; the parse depends on the bytes alone. On
/// success the returned font is the face parsed from `data` itself; what it
/// holds beyond that is left unsaid.
#[verifier::external_body]
fn font_from_slice<'a>(data: &'a [u8]) -> (r: Result<FontRef<'a>, InvalidFont>)
    ensures
        r is Ok <==> is_font_data(data@),
        r matches Ok(font) ==> font_source(font) == data@,
{
    FontRef::try_from_slice(data)
}

/// Why font data could not be used.
#[derive(Clone, Copy, Debug, PartialEq, Eq, Structural)]
pub enum FontError {
    /// The bytes are not a font that `ab_glyph` can parse.
    InvalidFont,
}

/// Maps the outcome of parsing font data to this library's error type.
pub fn font_result<'a>(r: Result<FontRef<'a>, InvalidFont>) -> (out: Result<FontRef<'a>, FontError>)
    ensures
        match r {
            Ok(font) => out == Ok::<FontRef<'a>, FontError>(font),
            Err(_) => out == Err::<FontRef<'a>, FontError>(FontError::InvalidFont),
        },
{
    match r {
        Ok(font) => Ok(font),
        Err(_) => Err(FontError::InvalidFont),
    }
}

/// Parses font file bytes into a font built from those bytes; fails with
/// `FontError::InvalidFont` exactly when `ab_glyph` does not accept them.
pub fn parse_font<'a>(data: &'a [u8]) -> (r: Result<FontRef<'a>, FontError>)
    ensures
        r is Ok <==> is_font_data(data@),
        r is Err ==> r == Err::<FontRef<'a>, FontError>(FontError::InvalidFont),
        r matches Ok(font) ==> font_source(font) == data@,
{
    font_result(font_from_slice(data))
}

/// Number of coverage bytes of one glyph cell: one per pixel.
pub const GLYPH_PATCH_SIZE: usize = 4096;

/// A coverage bitmap for one glyph cell with every pixel uncovered.
pub fn blank_coverage() -> (v: Vec<u8>)
    ensures
        v@.len() == GLYPH_PATCH_SIZE,
        GLYPH_PATCH_SIZE == GLYPH_SIZE * GLYPH_SIZE,
        forall|i: int| 0 <= i < v@.len() ==> v@[i] == 0,
{
    let mut v: Vec<u8> = Vec::new();
    while v.len() < GLYPH_PATCH_SIZE
        invariant
            v@.len() <= GLYPH_PATCH_SIZE,
            forall|i: int| 0 <= i < v@.len() ==> v@[i] == 0,
        decreases GLYPH_PATCH_SIZE - v@.len(),
    {
        v.push(0);
    }
    v
}

/// Position in a glyph's coverage bitmap of the pixel at column `x` and row
/// `y`, rows of `GLYPH_SIZE` bytes one after the other; `None` when that lies
/// past the end of the bitmap.
pub fn coverage_index(x: u32, y: u32) -> (r: Option<usize>)
    ensures
        r == (if x + y * GLYPH_SIZE < GLYPH_PATCH_SIZE {
            Some((x + y * GLYPH_SIZE) as usize)
        } else {
            None::<usize>
        }),
{
    if x >= 4096 || y >= 64 {
        None
    } else {
        let index = x + y * GLYPH_SIZE;
        if index < 4096 {
            Some(index as usize)
        } else {
            None
        }
    }
}

} // verus!
