use ab_glyph::Font;
use showcase::font::{
    count_outlined, fits_atlas, BitmapFont, Glyph, GlyphUpload, RasterizedGlyph,
};
use showcase::raster::{blank_coverage, coverage_index, parse_font, FontError, GLYPH_PATCH_SIZE};

fn outlined(c: char) -> RasterizedGlyph {
    RasterizedGlyph { c, coverage: Some(blank_coverage()) }
}

fn empty(c: char) -> RasterizedGlyph {
    RasterizedGlyph { c, coverage: None }
}

fn glyph(x: u32, y: u32, side: u32) -> Glyph {
    Glyph { x, y, size: 64, atlas_side: side }
}

#[test]
fn four_glyphs_fill_a_two_by_two_atlas() {
    let rasters = vec![outlined('a'), outlined('b'), outlined('c'), outlined('d')];
    assert!(fits_atlas(&rasters));
    let (font, uploads) = BitmapFont::plan(&rasters);
    assert_eq!(font.side(), 128);
    assert_eq!(font.glyph('a'), Some(glyph(0, 0, 128)));
    assert_eq!(font.glyph('b'), Some(glyph(64, 0, 128)));
    assert_eq!(font.glyph('c'), Some(glyph(0, 64, 128)));
    assert_eq!(font.glyph('d'), Some(glyph(64, 64, 128)));
    assert_eq!(font.glyph('e'), None);
    assert_eq!(uploads.len(), 4);
    assert_eq!(
        uploads[2],
        GlyphUpload { c: 'c', source: 2, x: 0, y: 64, size: 64, bytes_per_row: 64 }
    );
}

#[test]
fn rasters_without_outline_take_no_cell() {
    let rasters = vec![empty(' '), outlined('x'), empty('\n'), outlined('y')];
    let (font, uploads) = BitmapFont::plan(&rasters);
    assert_eq!(font.side(), 128);
    assert_eq!(font.glyph(' '), None);
    assert_eq!(font.glyph('\n'), None);
    assert_eq!(font.glyph('x'), Some(glyph(0, 0, 128)));
    assert_eq!(font.glyph('y'), Some(glyph(64, 0, 128)));
    assert_eq!(uploads.len(), 2);
    assert_eq!(uploads[0].source, 1);
    assert_eq!(uploads[1].source, 3);
    assert_eq!(count_outlined(&rasters), 2);
}

#[test]
fn empty_font_has_a_one_cell_atlas() {
    let rasters: Vec<RasterizedGlyph> = Vec::new();
    let (font, uploads) = BitmapFont::plan(&rasters);
    assert_eq!(font.side(), 64);
    assert!(uploads.is_empty());
}

#[test]
fn more_glyphs_than_cells_run_below_the_atlas() {
    // three characters give isqrt(3) = 1 cell per row, a 64-pixel atlas
    let rasters = vec![outlined('a'), outlined('b'), outlined('c')];
    let (font, _) = BitmapFont::plan(&rasters);
    assert_eq!(font.side(), 64);
    assert_eq!(font.glyph('a'), Some(glyph(0, 0, 64)));
    assert_eq!(font.glyph('b'), Some(glyph(0, 64, 64)));
    assert_eq!(font.glyph('c'), Some(glyph(0, 128, 64)));
}

#[test]
fn later_raster_of_same_char_wins() {
    let rasters = vec![outlined('a'), outlined('b'), outlined('a'), outlined('c')];
    let (font, uploads) = BitmapFont::plan(&rasters);
    assert_eq!(font.glyph('a'), Some(glyph(0, 64, 128)));
    assert_eq!(uploads.len(), 4);
}

#[test]
fn bytes_per_row_follows_coverage_length() {
    let rasters = vec![RasterizedGlyph { c: 'q', coverage: Some(vec![0u8; 128]) }];
    let (_, uploads) = BitmapFont::plan(&rasters);
    assert_eq!(uploads[0].bytes_per_row, 2);
}

#[test]
fn distinct_glyphs_of_a_large_font_do_not_overlap() {
    let mut rasters = Vec::new();
    for i in 0..50u32 {
        rasters.push(outlined(char::from_u32(0x41 + i).unwrap()));
    }
    let (font, _) = BitmapFont::plan(&rasters);
    assert_eq!(font.side(), 8 * 64);
    let glyphs: Vec<Glyph> = (0..50u32)
        .map(|i| font.glyph(char::from_u32(0x41 + i).unwrap()).unwrap())
        .collect();
    for (i, a) in glyphs.iter().enumerate() {
        assert!(a.x + a.size <= font.side() && a.y + a.size <= font.side());
        for b in glyphs.iter().skip(i + 1) {
            assert!(
                a.x + a.size <= b.x || b.x + b.size <= a.x || a.y + a.size <= b.y
                    || b.y + b.size <= a.y
            );
        }
    }
}

#[test]
fn blank_coverage_is_one_glyph_cell_of_zeros() {
    let v = blank_coverage();
    assert_eq!(v.len(), GLYPH_PATCH_SIZE);
    assert_eq!(v.len(), 64 * 64);
    assert!(v.iter().all(|b| *b == 0));
}

#[test]
fn coverage_index_is_row_major() {
    assert_eq!(coverage_index(0, 0), Some(0));
    assert_eq!(coverage_index(1, 1), Some(65));
    assert_eq!(coverage_index(63, 63), Some(4095));
    assert_eq!(coverage_index(64, 0), Some(64));
    assert_eq!(coverage_index(64, 63), None);
    assert_eq!(coverage_index(0, 64), None);
    assert_eq!(coverage_index(u32::MAX, u32::MAX), None);
}

#[test]
fn garbage_is_not_a_font() {
    assert_eq!(parse_font(&[1, 2, 3, 4]).err(), Some(FontError::InvalidFont));
    assert_eq!(parse_font(&[]).err(), Some(FontError::InvalidFont));
}

fn push_u16(v: &mut Vec<u8>, x: u16) {
    v.extend_from_slice(&x.to_be_bytes());
}

fn push_u32(v: &mut Vec<u8>, x: u32) {
    v.extend_from_slice(&x.to_be_bytes());
}

/// A font with only the tables a face needs: `head`, `hhea` and `maxp`.
fn minimal_font() -> Vec<u8> {
    font_with_glyph_count(1)
}

fn font_with_glyph_count(glyphs: u16) -> Vec<u8> {
    let mut v = Vec::new();
    push_u32(&mut v, 0x0001_0000);
    push_u16(&mut v, 3);
    push_u16(&mut v, 0);
    push_u16(&mut v, 0);
    push_u16(&mut v, 0);
    let tables: [(&[u8; 4], u32, u32); 3] = [(b"head", 60, 54), (b"hhea", 114, 36), (b"maxp", 150, 6)];
    for (tag, offset, length) in tables.iter() {
        v.extend_from_slice(*tag);
        push_u32(&mut v, 0);
        push_u32(&mut v, *offset);
        push_u32(&mut v, *length);
    }
    let mut head = vec![0u8; 54];
    head[18..20].copy_from_slice(&1000u16.to_be_bytes());
    v.extend_from_slice(&head);
    v.extend_from_slice(&[0u8; 36]);
    push_u32(&mut v, 0x0000_5000);
    push_u16(&mut v, glyphs);
    v
}

#[test]
fn parsed_font_comes_from_the_given_bytes() {
    let three = font_with_glyph_count(3);
    let seven = font_with_glyph_count(7);
    assert_eq!(parse_font(&three).unwrap().glyph_count(), 3);
    assert_eq!(parse_font(&seven).unwrap().glyph_count(), 7);
}

#[test]
fn minimal_font_parses() {
    let data = minimal_font();
    assert!(parse_font(&data).is_ok());
}

#[test]
fn truncated_font_does_not_parse() {
    let data = minimal_font();
    assert_eq!(parse_font(&data[..100]).err(), Some(FontError::InvalidFont));
}
