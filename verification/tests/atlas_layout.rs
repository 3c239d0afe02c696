use showcase::atlas::{
    advance, atlas_side, cursor_origin, glyphs_per_row, isqrt, next_power_of_two, Cursor,
    GLYPH_SIZE, MAX_GLYPHS_PER_ROW,
};

#[test]
fn isqrt_rounds_down() {
    assert_eq!(isqrt(0), 0);
    assert_eq!(isqrt(1), 1);
    assert_eq!(isqrt(3), 1);
    assert_eq!(isqrt(4), 2);
    assert_eq!(isqrt(15), 3);
    assert_eq!(isqrt(16), 4);
    assert_eq!(isqrt(1_000_000), 1000);
    assert_eq!(isqrt(999_999), 999);
}

#[test]
fn isqrt_of_largest_usize() {
    let r = isqrt(usize::MAX) as u128;
    let n = usize::MAX as u128;
    assert!(r * r <= n);
    assert!(n < (r + 1) * (r + 1));
}

#[test]
fn next_power_of_two_values() {
    assert_eq!(next_power_of_two(0), 1);
    assert_eq!(next_power_of_two(1), 1);
    assert_eq!(next_power_of_two(2), 2);
    assert_eq!(next_power_of_two(3), 4);
    assert_eq!(next_power_of_two(5), 8);
    assert_eq!(next_power_of_two(1024), 1024);
    assert_eq!(next_power_of_two(1025), 2048);
    assert_eq!(next_power_of_two(0x8000_0000_0000_0000), 0x8000_0000_0000_0000);
}

#[test]
fn glyphs_per_row_is_next_power_of_two_of_isqrt() {
    assert_eq!(glyphs_per_row(0), 1);
    assert_eq!(glyphs_per_row(3), 1);
    assert_eq!(glyphs_per_row(4), 2);
    assert_eq!(glyphs_per_row(8), 2);
    assert_eq!(glyphs_per_row(9), 4);
    assert_eq!(glyphs_per_row(100), 16);
    assert_eq!(glyphs_per_row(0x10FFFF), 2048);
}

#[test]
fn glyphs_per_row_at_the_limit() {
    let n = (MAX_GLYPHS_PER_ROW as usize + 1) * (MAX_GLYPHS_PER_ROW as usize + 1) - 1;
    assert_eq!(glyphs_per_row(n), MAX_GLYPHS_PER_ROW);
}

#[test]
fn atlas_side_is_cells_times_glyph_size() {
    assert_eq!(GLYPH_SIZE, 64);
    assert_eq!(atlas_side(0), 64);
    assert_eq!(atlas_side(5), 128);
    assert_eq!(atlas_side(100), 1024);
}

#[test]
fn cursor_moves_right_then_wraps() {
    let c = cursor_origin();
    assert_eq!(c, Cursor { x: 0, y: 0 });
    let c = advance(c, 128, 64);
    assert_eq!(c, Cursor { x: 64, y: 0 });
    let c = advance(c, 128, 64);
    assert_eq!(c, Cursor { x: 0, y: 64 });
    let c = advance(c, 128, 64);
    assert_eq!(c, Cursor { x: 64, y: 64 });
}

#[test]
fn cursor_wraps_at_width_not_multiple_of_glyph_size() {
    let c = advance(Cursor { x: 64, y: 0 }, 100, 64);
    assert_eq!(c, Cursor { x: 0, y: 64 });
}

#[test]
fn iterated_steps_reach_slot_formula() {
    let per_row: u32 = 4;
    let width = per_row * GLYPH_SIZE;
    let mut c = cursor_origin();
    for k in 0u32..40 {
        assert_eq!(c.x, (k % per_row) * GLYPH_SIZE);
        assert_eq!(c.y, (k / per_row) * GLYPH_SIZE);
        c = advance(c, width, GLYPH_SIZE);
    }
}

#[test]
fn slots_never_overlap() {
    let per_row: u32 = 3;
    let width = per_row * GLYPH_SIZE;
    let mut seen: Vec<Cursor> = Vec::new();
    let mut c = cursor_origin();
    for _ in 0..20 {
        for s in &seen {
            let apart = s.x + GLYPH_SIZE <= c.x
                || c.x + GLYPH_SIZE <= s.x
                || s.y + GLYPH_SIZE <= c.y
                || c.y + GLYPH_SIZE <= s.y;
            assert!(apart);
        }
        seen.push(c);
        c = advance(c, width, GLYPH_SIZE);
    }
}
