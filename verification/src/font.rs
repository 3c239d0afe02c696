//! A bitmap font: the table of glyph cells in its atlas, and the plan that
//! places rasterized glyphs into that atlas.

use std::collections::HashMap;
use vstd::prelude::*;
use crate::atlas::{
    GLYPH_SIZE, atlas_fits, is_glyphs_per_row, glyphs_per_row, slot, cursor_origin, advance,
    is_isqrt, is_next_power_of_two, lemma_isqrt_unique, lemma_next_power_of_two_unique,
    lemma_step_reaches_next_slot, lemma_slot_x_in_row, lemma_slot_rows_ordered,
    lemma_slots_disjoint, lemma_slot_in_atlas, lemma_glyphs_per_row_bounds,
};

verus! {

/// Where one glyph lies in the atlas: its cell's top-left pixel, the cell's
/// side, and the side of the whole (square) atlas, by which pixel positions
/// are divided to give texture coordinates.
#[derive(Clone, Copy, Debug, PartialEq, Eq, Structural)]
pub struct Glyph {
    pub x: u32,
    pub y: u32,
    pub size: u32,
    pub atlas_side: u32,
}

/// What rasterizing one character gave: its coverage bitmap, one byte per
/// pixel, or nothing when the font has no outline for it.
pub struct RasterizedGlyph {
    pub c: char,
    pub coverage: Option<Vec<u8>>,
}

/// One texture write that the plan asks for: the coverage of
/// `rasters[source]`, copied to the cell at `(x, y)`.
#[derive(Clone, Copy, Debug, PartialEq, Eq, Structural)]
pub struct GlyphUpload {
    pub c: char,
    pub source: usize,
    pub x: u32,
    pub y: u32,
    pub size: u32,
    pub bytes_per_row: u32,
}

/// A font rendered into a square atlas: each character that has a glyph maps
/// (by its code point) to the glyph's cell.
pub struct BitmapFont {
    glyphs: HashMap<u32, Glyph>,
    side: u32,
}

impl View for BitmapFont {
    type V = (Map<u32, Glyph>, u32);

    closed spec fn view(&self) -> (Map<u32, Glyph>, u32) {
        (self.glyphs@, self.side)
    }
}

/// The raster has an outline, so it takes a cell of the atlas.
pub open spec fn is_outlined(r: RasterizedGlyph) -> bool {
    r.coverage is Some
}

/// How many of the rasters have an outline.
pub open spec fn outlined_count(s: Seq<RasterizedGlyph>) -> nat
    decreases s.len(),
{
    if s.len() == 0 {
        0
    } else {
        outlined_count(s.drop_last()) + if is_outlined(s.last()) {
            1nat
        } else {
            0nat
        }
    }
}

/// The glyph that the `k`-th outlined raster gets in an atlas of side `side`.
pub open spec fn glyph_at(k: int, side: int) -> Glyph {
    let (x, y) = slot(k, side / GLYPH_SIZE as int, GLYPH_SIZE as int);
    Glyph { x: x as u32, y: y as u32, size: GLYPH_SIZE, atlas_side: side as u32 }
}

/// The glyph table after the rasters are placed in order: each outlined
/// raster sets its character's entry to its own cell, a later one replacing
/// an earlier one of the same character.
pub open spec fn glyph_table(s: Seq<RasterizedGlyph>, side: int) -> Map<u32, Glyph>
    decreases s.len(),
{
    if s.len() == 0 {
        Map::empty()
    } else {
        let earlier = glyph_table(s.drop_last(), side);
        if is_outlined(s.last()) {
            earlier.insert(s.last().c as u32, glyph_at(outlined_count(s.drop_last()) as int, side))
        } else {
            earlier
        }
    }
}

/// The texture write for raster `i`, which is the `outlined_count` of the
/// rasters before it in the atlas of side `side`.
pub open spec fn upload_for(s: Seq<RasterizedGlyph>, i: int, side: int) -> GlyphUpload {
    let g = glyph_at(outlined_count(s.take(i)) as int, side);
    GlyphUpload {
        c: s[i].c,
        source: i as usize,
        x: g.x,
        y: g.y,
        size: GLYPH_SIZE,
        bytes_per_row: ((s[i].coverage.unwrap().len() as u32) / GLYPH_SIZE) as u32,
    }
}

/// Write number `k` of a plan copies the coverage of an outlined raster of its
/// own character, the raster with exactly `k` outlined rasters before it, into
/// cell `k` of the atlas of side `side`, a whole cell of `GLYPH_SIZE` rows of
/// that coverage's row length.
pub open spec fn upload_copies_raster(s: Seq<RasterizedGlyph>, u: GlyphUpload, k: int, side: int) -> bool {
    let src = u.source as int;
    let (x, y) = slot(k, side / GLYPH_SIZE as int, GLYPH_SIZE as int);
    &&& 0 <= src < s.len()
    &&& is_outlined(s[src])
    &&& s[src].c == u.c
    &&& outlined_count(s.take(src)) == k
    &&& u.x as int == x
    &&& u.y as int == y
    &&& u.size == GLYPH_SIZE
    &&& u.bytes_per_row == (s[src].coverage.unwrap().len() as u32) / GLYPH_SIZE
}

/// The plan can be carried out without any cell coordinate overflowing a
/// `u32`: with `per_row` cells per row, the row after the last glyph still
/// starts at a representable height.
pub open spec fn plan_fits(s: Seq<RasterizedGlyph>) -> bool {
    &&& atlas_fits(s.len() as int)
    &&& forall|per_row: int|
        #[trigger] is_glyphs_per_row(s.len() as int, per_row) ==> (outlined_count(s) as int / per_row)
            * GLYPH_SIZE <= u32::MAX
}

proof fn lemma_outlined_count_prefix(s: Seq<RasterizedGlyph>, i: int)
    requires
        0 <= i <= s.len(),
    ensures
        outlined_count(s.take(i)) <= outlined_count(s),
    decreases s.len() - i,
{
    if i < s.len() {
        lemma_outlined_count_prefix(s, i + 1);
        assert(s.take(i + 1).drop_last() =~= s.take(i));
    } else {
        assert(s.take(i) =~= s);
    }
}

proof fn lemma_outlined_count_monotonic(s: Seq<RasterizedGlyph>, a: int, b: int)
    requires
        0 <= a <= b <= s.len(),
    ensures
        outlined_count(s.take(a)) <= outlined_count(s.take(b)),
        a < b && is_outlined(s[a]) ==> outlined_count(s.take(a)) < outlined_count(s.take(b)),
    decreases b - a,
{
    if a < b {
        lemma_outlined_count_monotonic(s, a, b - 1);
        assert(s.take(b).drop_last() =~= s.take(b - 1));
        if a == b - 1 {
            assert(s.take(b).last() == s[a]);
        }
    }
}

/// Raster `i` has an outline and no later raster with an outline has the
/// same character: it is the one whose cell the character keeps.
pub open spec fn is_last_outlined(s: Seq<RasterizedGlyph>, i: int) -> bool {
    &&& 0 <= i < s.len()
    &&& is_outlined(s[i])
    &&& forall|j: int| i < j < s.len() && is_outlined(#[trigger] s[j]) ==> s[j].c != s[i].c
}

/// Table law: a character has an entry exactly when some raster of it has an
/// outline, and its entry is the cell of its last such raster, the cell
/// numbered by how many outlined rasters come before that one.
pub proof fn lemma_glyph_table_entries(s: Seq<RasterizedGlyph>, side: int)
    ensures
        forall|i: int|
            0 <= i < s.len() && is_outlined(#[trigger] s[i]) ==> glyph_table(s, side).contains_key(
                s[i].c as u32,
            ),
        forall|i: int|
            #[trigger] is_last_outlined(s, i) ==> glyph_table(s, side)[s[i].c as u32] == glyph_at(
                outlined_count(s.take(i)) as int,
                side,
            ),
        forall|key: u32|
            #[trigger] glyph_table(s, side).contains_key(key) ==> exists|i: int|
                #[trigger] is_last_outlined(s, i) && s[i].c as u32 == key,
    decreases s.len(),
{
    if s.len() > 0 {
        let p = s.drop_last();
        let n = s.len() - 1;
        lemma_glyph_table_entries(p, side);
        assert(s.take(n) =~= p);
        assert forall|i: int| 0 <= i < n implies #[trigger] s.take(i) =~= p.take(i) by {}
        assert forall|i: int| 0 <= i < n implies #[trigger] s[i] == p[i] by {}
        assert forall|i: int| 0 <= i < n && #[trigger] is_last_outlined(s, i) implies is_last_outlined(p, i) by {
            assert forall|j: int| i < j < p.len() && is_outlined(#[trigger] p[j]) implies p[j].c != p[i].c by {
                assert(s[j] == p[j]);
            }
        }
        assert forall|key: u32| #[trigger] glyph_table(s, side).contains_key(key) implies exists|i: int|
            #[trigger] is_last_outlined(s, i) && s[i].c as u32 == key by {
            if is_outlined(s.last()) && key == s.last().c as u32 {
                assert(is_last_outlined(s, n));
            } else {
                assert(glyph_table(p, side).contains_key(key));
                let i = choose|i: int| #[trigger] is_last_outlined(p, i) && p[i].c as u32 == key;
                assert(is_last_outlined(s, i)) by {
                    assert forall|j: int| i < j < s.len() && is_outlined(#[trigger] s[j]) implies s[j].c != s[i].c by {
                        if j == n {
                            assert(s[j].c as u32 != key);
                        } else {
                            assert(p[j] == s[j]);
                        }
                    }
                }
            }
        }
        assert forall|i: int| #[trigger] is_last_outlined(s, i) implies glyph_table(s, side)[s[i].c as u32] == glyph_at(
            outlined_count(s.take(i)) as int,
            side,
        ) by {
            if i < n {
                assert(is_last_outlined(p, i));
                if is_outlined(s.last()) {
                    assert(s[n].c != s[i].c);
                    assert(s.last().c as u32 != s[i].c as u32);
                }
            }
        }
    }
}

/// Write law: the write planned for an outlined raster copies that raster
/// itself, of its own character, and when no later raster of the character
/// has an outline it lands exactly on the cell the glyph table gives the
/// character.
pub proof fn lemma_upload_lands_on_glyph_cell(s: Seq<RasterizedGlyph>, i: int, side: int)
    requires
        0 <= i < s.len() <= usize::MAX,
        is_outlined(s[i]),
    ensures
        upload_for(s, i, side).source == i,
        upload_for(s, i, side).c == s[i].c,
        is_outlined(s[upload_for(s, i, side).source as int]),
        is_last_outlined(s, i) ==> glyph_table(s, side).contains_key(s[i].c as u32)
            && glyph_table(s, side)[s[i].c as u32].x == upload_for(s, i, side).x
            && glyph_table(s, side)[s[i].c as u32].y == upload_for(s, i, side).y,
{
    lemma_glyph_table_entries(s, side);
}

/// Table law: the cells of two different characters of the font never
/// overlap, as long as the atlas has at least one cell per row.
pub proof fn lemma_glyph_table_disjoint(s: Seq<RasterizedGlyph>, side: int, key1: u32, key2: u32)
    requires
        GLYPH_SIZE <= side <= u32::MAX,
        side % GLYPH_SIZE as int == 0,
        (outlined_count(s) as int / (side / GLYPH_SIZE as int)) * GLYPH_SIZE <= u32::MAX,
        glyph_table(s, side).contains_key(key1),
        glyph_table(s, side).contains_key(key2),
        key1 != key2,
    ensures
        ({
            let g1 = glyph_table(s, side)[key1];
            let g2 = glyph_table(s, side)[key2];
            ||| g1.x + g1.size <= g2.x
            ||| g2.x + g2.size <= g1.x
            ||| g1.y + g1.size <= g2.y
            ||| g2.y + g2.size <= g1.y
        }),
{
    lemma_glyph_table_entries(s, side);
    let i1 = choose|i: int| #[trigger] is_last_outlined(s, i) && s[i].c as u32 == key1;
    let i2 = choose|i: int| #[trigger] is_last_outlined(s, i) && s[i].c as u32 == key2;
    assert(i1 != i2);
    if i1 < i2 {
        lemma_outlined_count_monotonic(s, i1, i2);
    } else {
        lemma_outlined_count_monotonic(s, i2, i1);
    }
    let per_row = side / (GLYPH_SIZE as int);
    assert(per_row >= 1);
    let k1 = outlined_count(s.take(i1)) as int;
    let k2 = outlined_count(s.take(i2)) as int;
    let total = outlined_count(s) as int;
    assert(s.take(s.len() as int) =~= s);
    lemma_outlined_count_monotonic(s, i1, s.len() as int);
    lemma_outlined_count_monotonic(s, i2, s.len() as int);
    lemma_slot_x_in_row(k1, per_row, GLYPH_SIZE as int);
    lemma_slot_x_in_row(k2, per_row, GLYPH_SIZE as int);
    lemma_slot_rows_ordered(k1, total, per_row, GLYPH_SIZE as int);
    lemma_slot_rows_ordered(k2, total, per_row, GLYPH_SIZE as int);
    assert(per_row * GLYPH_SIZE == side) by {
        vstd::arithmetic::div_mod::lemma_fundamental_div_mod(side, GLYPH_SIZE as int);
    }
    lemma_slots_disjoint(
        outlined_count(s.take(i1)) as int,
        outlined_count(s.take(i2)) as int,
        side / (GLYPH_SIZE as int),
        GLYPH_SIZE as int,
    );
}

/// Table law: when there are no more outlined rasters than the atlas has
/// cells, every glyph of the table lies wholly inside the atlas. (With more
/// outlined rasters than cells the later ones fall below its bottom edge.)
pub proof fn lemma_glyph_table_in_atlas(s: Seq<RasterizedGlyph>, side: int, key: u32)
    requires
        GLYPH_SIZE <= side <= u32::MAX,
        side % GLYPH_SIZE as int == 0,
        outlined_count(s) <= (side / GLYPH_SIZE as int) * (side / GLYPH_SIZE as int),
        glyph_table(s, side).contains_key(key),
    ensures
        ({
            let g = glyph_table(s, side)[key];
            &&& g.x + g.size <= side
            &&& g.y + g.size <= side
            &&& g.size == GLYPH_SIZE
            &&& g.atlas_side == side
        }),
{
    lemma_glyph_table_entries(s, side);
    let i = choose|i: int| #[trigger] is_last_outlined(s, i) && s[i].c as u32 == key;
    let per_row = side / (GLYPH_SIZE as int);
    let k = outlined_count(s.take(i)) as int;
    assert(s.take(s.len() as int) =~= s);
    lemma_outlined_count_monotonic(s, i, s.len() as int);
    assert(per_row * GLYPH_SIZE == side) by {
        vstd::arithmetic::div_mod::lemma_fundamental_div_mod(side, GLYPH_SIZE as int);
    }
    lemma_slot_in_atlas(k, per_row, GLYPH_SIZE as int);
}

/// How many of the rasters have an outline.
pub fn count_outlined(rasters: &Vec<RasterizedGlyph>) -> (n: usize)
    ensures
        n == outlined_count(rasters@),
{
    let mut n: usize = 0;
    let mut i: usize = 0;
    assert(rasters@.take(0) =~= Seq::<RasterizedGlyph>::empty());
    while i < rasters.len()
        invariant
            0 <= i <= rasters@.len(),
            n == outlined_count(rasters@.take(i as int)),
            n <= i,
        decreases rasters@.len() - i,
    {
        assert(rasters@.take(i + 1).drop_last() =~= rasters@.take(i as int));
        if rasters[i].coverage.is_some() {
            n = n + 1;
        }
        i = i + 1;
    }
    assert(rasters@.take(rasters@.len() as int) =~= rasters@);
    n
}

/// The number of cells per row is determined by the number of characters.
pub proof fn lemma_glyphs_per_row_unique(char_count: int, p1: int, p2: int)
    requires
        is_glyphs_per_row(char_count, p1),
        is_glyphs_per_row(char_count, p2),
    ensures
        p1 == p2,
{
    let s1 = choose|s: int| #[trigger] is_isqrt(char_count, s) && is_next_power_of_two(s, p1);
    let s2 = choose|s: int| #[trigger] is_isqrt(char_count, s) && is_next_power_of_two(s, p2);
    lemma_isqrt_unique(char_count, s1, s2);
    lemma_next_power_of_two_unique(s1, p1, p2);
}

/// Fit law: rasters are accepted for planning whenever the atlas side fits
/// and the row below the last glyph starts at a height a `u32` can hold; no
/// more is asked of them.
pub proof fn lemma_plan_fits_when_rows_fit(s: Seq<RasterizedGlyph>, per_row: int)
    requires
        atlas_fits(s.len() as int),
        is_glyphs_per_row(s.len() as int, per_row),
        (outlined_count(s) as int / per_row) * GLYPH_SIZE <= u32::MAX,
    ensures
        plan_fits(s),
{
    assert forall|p: int| #[trigger] is_glyphs_per_row(s.len() as int, p) implies (outlined_count(
        s,
    ) as int / p) * GLYPH_SIZE <= u32::MAX by {
        lemma_glyphs_per_row_unique(s.len() as int, p, per_row);
    }
}

/// Fit law: whenever the outlined glyphs fit in the atlas's cells (no more of
/// them than `per_row * per_row`), the rasters are accepted for planning.
pub proof fn lemma_plan_fits_when_cells_suffice(s: Seq<RasterizedGlyph>, per_row: int)
    requires
        atlas_fits(s.len() as int),
        is_glyphs_per_row(s.len() as int, per_row),
        outlined_count(s) <= per_row * per_row,
    ensures
        plan_fits(s),
{
    lemma_glyphs_per_row_bounds(s.len() as int, per_row);
    let n = outlined_count(s) as int;
    assert(n / per_row <= per_row) by (nonlinear_arith)
        requires
            0 <= n <= per_row * per_row,
            1 <= per_row,
    {
        vstd::arithmetic::div_mod::lemma_div_is_ordered(n, per_row * per_row, per_row);
        vstd::arithmetic::div_mod::lemma_div_multiples_vanish(per_row, per_row);
    }
    assert((n / per_row) * GLYPH_SIZE <= u32::MAX) by (nonlinear_arith)
        requires
            0 <= n / per_row <= per_row <= 0x200_0000,
    ;
    lemma_plan_fits_when_rows_fit(s, per_row);
}

/// Whether `BitmapFont::plan` can place these rasters without a coordinate
/// overflowing.
pub fn fits_atlas(rasters: &Vec<RasterizedGlyph>) -> (b: bool)
    ensures
        b == plan_fits(rasters@),
        b ==> atlas_fits(rasters@.len() as int),
        forall|per_row: int|
            atlas_fits(rasters@.len() as int) && #[trigger] is_glyphs_per_row(rasters@.len() as int, per_row)
                && (outlined_count(rasters@) as int / per_row) * GLYPH_SIZE <= u32::MAX ==> b,
{
    proof {
        assert forall|per_row: int|
            atlas_fits(rasters@.len() as int) && #[trigger] is_glyphs_per_row(rasters@.len() as int, per_row)
                && (outlined_count(rasters@) as int / per_row) * GLYPH_SIZE <= u32::MAX implies plan_fits(
            rasters@,
        ) by {
            lemma_plan_fits_when_rows_fit(rasters@, per_row);
        }
    }
    let len = rasters.len();
    if len as u64 >= 1125899973951489u64 {
        return false;
    }
    let per_row = glyphs_per_row(len);
    let count = count_outlined(rasters);
    let fits = count / (per_row as usize) <= 0x3ff_ffff;
    proof {
        assert forall|p: int| #[trigger] is_glyphs_per_row(len as int, p) implies p == per_row by {
            lemma_glyphs_per_row_unique(len as int, p, per_row as int);
        }
        let q = count as int / per_row as int;
        assert(q * GLYPH_SIZE <= u32::MAX <==> q <= 0x3ff_ffff);
    }
    fits
}

impl BitmapFont {
    /// Side length, in pixels, of the font's square atlas.
    pub fn side(&self) -> (side: u32)
        ensures
            side == self@.1,
    {
        self.side
    }

    /// The glyph of character `c`, if the font has one.
    pub fn glyph(&self, c: char) -> (g: Option<Glyph>)
        ensures
            g == (if self@.0.contains_key(c as u32) {
                Some(self@.0[c as u32])
            } else {
                None
            }),
    {
        match self.glyphs.get(&(c as u32)) {
            Some(g) => Some(*g),
            None => None,
        }
    }

    /// Places the rasterized characters into an atlas sized for all of them:
    /// each outlined raster, in order, takes the next cell (left to right,
    /// then the next row down) and gets its character's entry in the glyph
    /// table; the returned writes copy each outlined coverage to its cell.
    pub fn plan(rasters: &Vec<RasterizedGlyph>) -> (res: (BitmapFont, Vec<GlyphUpload>))
        requires
            plan_fits(rasters@),
        ensures
            is_glyphs_per_row(rasters@.len() as int, (res.0@.1 as int) / (GLYPH_SIZE as int)),
            res.0@.1 % GLYPH_SIZE == 0,
            res.0@.0 == glyph_table(rasters@, res.0@.1 as int),
            res.1@.len() == outlined_count(rasters@),
            forall|i: int|
                0 <= i < rasters@.len() && is_outlined(#[trigger] rasters@[i]) ==> res.1@[outlined_count(
                    rasters@.take(i),
                ) as int] == upload_for(rasters@, i, res.0@.1 as int),
            forall|k: int|
                0 <= k < res.1@.len() ==> upload_copies_raster(
                    rasters@,
                    #[trigger] res.1@[k],
                    k,
                    res.0@.1 as int,
                ),
            forall|k: int|
                0 <= k < res.1@.len() && is_last_outlined(rasters@, #[trigger] res.1@[k].source as int)
                    ==> res.0@.0.contains_key(res.1@[k].c as u32) && res.0@.0[res.1@[k].c as u32].x
                    == res.1@[k].x && res.0@.0[res.1@[k].c as u32].y == res.1@[k].y,
    {
        let per_row = glyphs_per_row(rasters.len());
        let side = per_row * GLYPH_SIZE;
        assert(side / GLYPH_SIZE == per_row);
        let ghost total = outlined_count(rasters@);
        assert((total as int) / (per_row as int) * GLYPH_SIZE <= u32::MAX);
        let mut glyphs: HashMap<u32, Glyph> = HashMap::new();
        let mut uploads: Vec<GlyphUpload> = Vec::new();
        let mut cursor = cursor_origin();
        let mut i: usize = 0;
        assert(rasters@.take(0) =~= Seq::<RasterizedGlyph>::empty());
        while i < rasters.len()
            invariant
                0 <= i <= rasters@.len(),
                forall|k: int|
                    0 <= k < uploads@.len() ==> #[trigger] uploads@[k].source < i
                        && upload_copies_raster(rasters@, uploads@[k], k, side as int),
                1 <= per_row,
                side == per_row * GLYPH_SIZE,
                side / GLYPH_SIZE == per_row,
                side <= 0x8000_0000,
                total == outlined_count(rasters@),
                (total as int) / (per_row as int) * GLYPH_SIZE <= u32::MAX,
                uploads@.len() == outlined_count(rasters@.take(i as int)),
                (cursor.x as int, cursor.y as int) == slot(
                    uploads@.len() as int,
                    per_row as int,
                    GLYPH_SIZE as int,
                ),
                glyphs@ == glyph_table(rasters@.take(i as int), side as int),
                forall|j: int|
                    0 <= j < i && is_outlined(#[trigger] rasters@[j]) ==> uploads@[outlined_count(
                        rasters@.take(j),
                    ) as int] == upload_for(rasters@, j, side as int),
            decreases rasters@.len() - i,
        {
            let ghost k = uploads@.len() as int;
            assert(rasters@.take(i + 1).drop_last() =~= rasters@.take(i as int));
            match &rasters[i].coverage {
                Some(coverage) => {
                    proof {
                        lemma_outlined_count_prefix(rasters@, i + 1);
                        assert forall|j: int|
                            0 <= j < i && is_outlined(#[trigger] rasters@[j]) implies outlined_count(
                                rasters@.take(j),
                            ) < k by {
                            lemma_outlined_count_monotonic(rasters@, j, i as int);
                        }
                        lemma_slot_x_in_row(k, per_row as int, GLYPH_SIZE as int);
                        lemma_step_reaches_next_slot(cursor, k, per_row as int, GLYPH_SIZE as int);
                        lemma_slot_rows_ordered(k + 1, total as int, per_row as int, GLYPH_SIZE as int);
                        lemma_slot_x_in_row(k + 1, per_row as int, GLYPH_SIZE as int);
                    }
                    let glyph = Glyph { x: cursor.x, y: cursor.y, size: GLYPH_SIZE, atlas_side: side };
                    let upload = GlyphUpload {
                        c: rasters[i].c,
                        source: i,
                        x: cursor.x,
                        y: cursor.y,
                        size: GLYPH_SIZE,
                        bytes_per_row: (coverage.len() as u32) / GLYPH_SIZE,
                    };
                    uploads.push(upload);
                    glyphs.insert(rasters[i].c as u32, glyph);
                    cursor = advance(cursor, side, GLYPH_SIZE);
                },
                None => {},
            }
            i = i + 1;
        }
        assert(rasters@.take(rasters@.len() as int) =~= rasters@);
        proof {
            lemma_glyph_table_entries(rasters@, side as int);
            assert forall|k: int|
                0 <= k < uploads@.len() && is_last_outlined(rasters@, #[trigger] uploads@[k].source as int)
                implies glyphs@.contains_key(uploads@[k].c as u32) && glyphs@[uploads@[k].c as u32].x
                == uploads@[k].x && glyphs@[uploads@[k].c as u32].y == uploads@[k].y by {
                assert(upload_copies_raster(rasters@, uploads@[k], k, side as int));
                let g = glyph_at(k, side as int);
                assert(g.x == uploads@[k].x && g.y == uploads@[k].y);
            }
        }
        (BitmapFont { glyphs, side }, uploads)
    }
}

} // verus!
