//! Integer geometry of a square glyph atlas: its side length and where each
//! glyph goes in it.

use vstd::prelude::*;
use vstd::arithmetic::power2::{pow2, lemma_pow2_unfold, lemma_pow2_strictly_increases, lemma2_to64};
use vstd::arithmetic::div_mod::{lemma_fundamental_div_mod, lemma_fundamental_div_mod_converse};

verus! {

/// `r` is the integer square root of `n`: the largest `r` with `r * r <= n`.
pub open spec fn is_isqrt(n: int, r: int) -> bool {
    &&& 0 <= r
    &&& r * r <= n
    &&& n < (r + 1) * (r + 1)
}

proof fn lemma_square_monotonic(a: int, b: int)
    by (nonlinear_arith)
    requires
        0 <= a <= b,
    ensures
        a * a <= b * b,
{
}

/// There is at most one integer square root.
pub proof fn lemma_isqrt_unique(n: int, r1: int, r2: int)
    requires
        is_isqrt(n, r1),
        is_isqrt(n, r2),
    ensures
        r1 == r2,
{
    if r1 < r2 {
        lemma_square_monotonic(r1 + 1, r2);
    } else if r2 < r1 {
        lemma_square_monotonic(r2 + 1, r1);
    }
}

/// The integer square root of `n`, rounded down.
pub fn isqrt(n: usize) -> (r: usize)
    ensures
        is_isqrt(n as int, r as int),
{
    let target: u64 = n as u64;
    let mut lo: u64 = 0;
    let mut hi: u64 = 0x1_0000_0000;
    assert(target < hi * hi) by (nonlinear_arith)
        requires
            target <= u64::MAX,
            hi == 0x1_0000_0000u64,
    ;
    while hi - lo > 1
        invariant
            lo < hi <= 0x1_0000_0000,
            target == n,
            lo * lo <= target,
            target < hi * hi,
        decreases hi - lo,
    {
        let mid: u64 = lo + (hi - lo) / 2;
        assert(mid * mid <= u64::MAX) by (nonlinear_arith)
            requires
                mid < 0x1_0000_0000,
        ;
        if mid * mid <= target {
            lo = mid;
        } else {
            hi = mid;
        }
    }
    assert(lo <= target) by (nonlinear_arith)
        requires
            lo * lo <= target,
    ;
    lo as usize
}


/// `p` is the smallest power of two that is at least `n` (for `n <= 1` that is `1`).
pub open spec fn is_next_power_of_two(n: int, p: int) -> bool {
    exists|k: nat|
        #![trigger pow2(k)]
        p == pow2(k) && n <= p && (k == 0 || pow2((k - 1) as nat) < n)
}

proof fn lemma_pow2_monotonic(a: nat, b: nat)
    requires
        a <= b,
    ensures
        pow2(a) <= pow2(b),
{
    if a < b {
        lemma_pow2_strictly_increases(a, b);
    }
}

/// There is exactly one smallest power of two at or above `n`.
pub proof fn lemma_next_power_of_two_unique(n: int, p1: int, p2: int)
    requires
        is_next_power_of_two(n, p1),
        is_next_power_of_two(n, p2),
    ensures
        p1 == p2,
{
    let k1 = choose|k: nat|
        #![trigger pow2(k)]
        p1 == pow2(k) && n <= p1 && (k == 0 || pow2((k - 1) as nat) < n);
    let k2 = choose|k: nat|
        #![trigger pow2(k)]
        p2 == pow2(k) && n <= p2 && (k == 0 || pow2((k - 1) as nat) < n);
    if k1 < k2 {
        lemma_pow2_monotonic(k1, (k2 - 1) as nat);
    } else if k2 < k1 {
        lemma_pow2_monotonic(k2, (k1 - 1) as nat);
    }
}

/// The smallest power of two that is at least `n`; `1` for `n == 0`.
pub fn next_power_of_two(n: u64) -> (p: u64)
    requires
        n <= 0x8000_0000_0000_0000,
    ensures
        is_next_power_of_two(n as int, p as int),
{
    let mut p: u64 = 1;
    let ghost mut k: nat = 0;
    assert(pow2(0) == 1) by {
        lemma2_to64();
    }
    while p < n
        invariant
            n <= 0x8000_0000_0000_0000,
            p as int == pow2(k),
            p >= 1,
            k == 0 || pow2((k - 1) as nat) < n,
        decreases (if p < n { n - p } else { 0 }),
    {
        proof {
            lemma_pow2_unfold(k + 1);
        }
        p = p * 2;
        proof {
            k = k + 1;
        }
    }
    p
}


/// Side length, in pixels, of one glyph cell of the atlas.
pub const GLYPH_SIZE: u32 = 64;

/// Largest number of glyph cells per atlas row whose side still fits a `u32`
/// when multiplied by `GLYPH_SIZE`.
pub const MAX_GLYPHS_PER_ROW: u32 = 0x200_0000;

/// The atlas for `char_count` characters has a side that fits a `u32`:
/// the integer square root of `char_count` is at most `MAX_GLYPHS_PER_ROW`.
pub open spec fn atlas_fits(char_count: int) -> bool {
    char_count < (MAX_GLYPHS_PER_ROW + 1) * (MAX_GLYPHS_PER_ROW + 1)
}

/// `per_row` is the number of glyph cells per row of the atlas built for
/// `char_count` characters: the next power of two of the integer square root.
pub open spec fn is_glyphs_per_row(char_count: int, per_row: int) -> bool {
    exists|s: int| #[trigger] is_isqrt(char_count, s) && is_next_power_of_two(s, per_row)
}

/// Number of glyph cells along each side of the atlas for `char_count`
/// characters: the next power of two of the integer square root of the count.
pub fn glyphs_per_row(char_count: usize) -> (per_row: u32)
    requires
        atlas_fits(char_count as int),
    ensures
        is_glyphs_per_row(char_count as int, per_row as int),
        1 <= per_row <= MAX_GLYPHS_PER_ROW,
{
    let s = isqrt(char_count);
    assert(s <= MAX_GLYPHS_PER_ROW) by {
        if s > MAX_GLYPHS_PER_ROW {
            lemma_square_monotonic(MAX_GLYPHS_PER_ROW + 1, s as int);
        }
    }
    let p = next_power_of_two(s as u64);
    proof {
        let k = choose|k: nat|
            #![trigger pow2(k)]
            p == pow2(k) && s <= p && (k == 0 || pow2((k - 1) as nat) < s);
        lemma2_to64();
        if k > 25 {
            lemma_pow2_monotonic(25, (k - 1) as nat);
        }
        lemma_pow2_monotonic(k, 25);
    }
    p as u32
}

/// Within the limit of `atlas_fits`, the atlas has between one and
/// `MAX_GLYPHS_PER_ROW` cells per row.
pub proof fn lemma_glyphs_per_row_bounds(char_count: int, per_row: int)
    requires
        atlas_fits(char_count),
        is_glyphs_per_row(char_count, per_row),
    ensures
        1 <= per_row <= MAX_GLYPHS_PER_ROW,
{
    let s = choose|s: int| #[trigger] is_isqrt(char_count, s) && is_next_power_of_two(s, per_row);
    if s > MAX_GLYPHS_PER_ROW {
        lemma_square_monotonic(MAX_GLYPHS_PER_ROW + 1, s);
    }
    let k = choose|k: nat|
        #![trigger pow2(k)]
        per_row == pow2(k) && s <= per_row && (k == 0 || pow2((k - 1) as nat) < s);
    lemma2_to64();
    if k > 25 {
        lemma_pow2_monotonic(25, (k - 1) as nat);
    }
    lemma_pow2_monotonic(k, 25);
    lemma_pow2_monotonic(0, k);
}

/// Side length in pixels of the square atlas for `char_count` characters.
pub fn atlas_side(char_count: usize) -> (side: u32)
    requires
        atlas_fits(char_count as int),
    ensures
        exists|per_row: int|
            #[trigger] is_glyphs_per_row(char_count as int, per_row)
            && side == per_row * GLYPH_SIZE,
        side % GLYPH_SIZE == 0,
        GLYPH_SIZE <= side <= MAX_GLYPHS_PER_ROW * GLYPH_SIZE,
{
    let per_row = glyphs_per_row(char_count);
    per_row * GLYPH_SIZE
}


/// Where the next glyph of the atlas goes: the top-left pixel of its cell.
#[derive(Clone, Copy, Debug, PartialEq, Eq, Structural)]
pub struct Cursor {
    pub x: u32,
    pub y: u32,
}

/// One step of the cursor after a glyph is placed: move one cell right, and
/// when that reaches the atlas width, go back to the left edge of the next row.
pub open spec fn step(c: Cursor, width: int, glyph_size: int) -> (int, int) {
    if c.x + glyph_size >= width {
        (0, c.y + glyph_size)
    } else {
        (c.x + glyph_size, c.y as int)
    }
}

/// The cell of the `k`-th glyph (counting from zero) in an atlas with
/// `per_row` cells per row of `glyph_size` pixels each.
pub open spec fn slot(k: int, per_row: int, glyph_size: int) -> (int, int) {
    ((k % per_row) * glyph_size, (k / per_row) * glyph_size)
}

/// The cursor where packing starts: the top-left corner of the atlas.
pub fn cursor_origin() -> (c: Cursor)
    ensures
        c.x == 0 && c.y == 0,
{
    Cursor { x: 0, y: 0 }
}

/// Advances the cursor past a glyph just placed at it.
pub fn advance(c: Cursor, width: u32, glyph_size: u32) -> (next: Cursor)
    requires
        c.x + glyph_size <= u32::MAX,
        c.x + glyph_size >= width ==> c.y + glyph_size <= u32::MAX,
    ensures
        (next.x as int, next.y as int) == step(c, width as int, glyph_size as int),
{
    let x = c.x + glyph_size;
    if x >= width {
        Cursor { x: 0, y: c.y + glyph_size }
    } else {
        Cursor { x, y: c.y }
    }
}

proof fn lemma_div_mod_successor(k: int, n: int)
    requires
        0 <= k,
        1 <= n,
    ensures
        k % n + 1 < n ==> (k + 1) % n == k % n + 1 && (k + 1) / n == k / n,
        k % n + 1 >= n ==> (k + 1) % n == 0 && (k + 1) / n == k / n + 1,
{
    lemma_fundamental_div_mod(k, n);
    assert(0 <= k % n < n);
    if k % n + 1 < n {
        assert(k + 1 == (k / n) * n + (k % n + 1)) by (nonlinear_arith)
            requires
                k == n * (k / n) + (k % n),
        ;
        lemma_fundamental_div_mod_converse(k + 1, n, k / n, k % n + 1);
    } else {
        assert(k + 1 == (k / n + 1) * n + 0) by (nonlinear_arith)
            requires
                k == n * (k / n) + (k % n),
                k % n + 1 == n,
        ;
        lemma_fundamental_div_mod_converse(k + 1, n, k / n + 1, 0);
    }
}

/// Packing law: in an atlas whose width is `per_row` cells, a cursor at the
/// cell of glyph `k` steps to the cell of glyph `k + 1`.
pub proof fn lemma_step_reaches_next_slot(c: Cursor, k: int, per_row: int, glyph_size: int)
    requires
        0 <= k,
        1 <= per_row,
        1 <= glyph_size,
        (c.x as int, c.y as int) == slot(k, per_row, glyph_size),
    ensures
        step(c, per_row * glyph_size, glyph_size) == slot(k + 1, per_row, glyph_size),
{
    lemma_div_mod_successor(k, per_row);
    let m = k % per_row;
    assert(0 <= m < per_row) by {
        lemma_fundamental_div_mod(k, per_row);
    }
    if m + 1 < per_row {
        assert(m * glyph_size + glyph_size == (m + 1) * glyph_size) by (nonlinear_arith);
        assert((m + 1) * glyph_size < per_row * glyph_size) by (nonlinear_arith)
            requires
                m + 1 < per_row,
                1 <= glyph_size,
        ;
    } else {
        assert(m * glyph_size + glyph_size == per_row * glyph_size) by (nonlinear_arith)
            requires
                m + 1 == per_row,
        ;
        assert((k / per_row) * glyph_size + glyph_size == (k / per_row + 1) * glyph_size)
            by (nonlinear_arith);
    }
}

/// Packing law: the cells of two different glyphs do not overlap; their
/// top-left corners differ by at least a whole cell along one axis.
pub proof fn lemma_slots_disjoint(k1: int, k2: int, per_row: int, glyph_size: int)
    requires
        0 <= k1,
        0 <= k2,
        k1 != k2,
        1 <= per_row,
        1 <= glyph_size,
    ensures
        ({
            let (x1, y1) = slot(k1, per_row, glyph_size);
            let (x2, y2) = slot(k2, per_row, glyph_size);
            x1 + glyph_size <= x2 || x2 + glyph_size <= x1 || y1 + glyph_size <= y2 || y2
                + glyph_size <= y1
        }),
{
    lemma_fundamental_div_mod(k1, per_row);
    lemma_fundamental_div_mod(k2, per_row);
    let (q1, r1) = (k1 / per_row, k1 % per_row);
    let (q2, r2) = (k2 / per_row, k2 % per_row);
    if q1 == q2 {
        assert(r1 != r2) by (nonlinear_arith)
            requires
                k1 == per_row * q1 + r1,
                k2 == per_row * q2 + r2,
                q1 == q2,
                k1 != k2,
        ;
        if r1 < r2 {
            assert(r1 * glyph_size + glyph_size <= r2 * glyph_size) by (nonlinear_arith)
                requires
                    r1 < r2,
                    1 <= glyph_size,
            ;
        } else {
            assert(r2 * glyph_size + glyph_size <= r1 * glyph_size) by (nonlinear_arith)
                requires
                    r2 < r1,
                    1 <= glyph_size,
            ;
        }
    } else if q1 < q2 {
        assert(q1 * glyph_size + glyph_size <= q2 * glyph_size) by (nonlinear_arith)
            requires
                q1 < q2,
                1 <= glyph_size,
        ;
    } else {
        assert(q2 * glyph_size + glyph_size <= q1 * glyph_size) by (nonlinear_arith)
            requires
                q2 < q1,
                1 <= glyph_size,
        ;
    }
}

/// Every cell of a row lies within the atlas width, starting at or right of
/// its left edge.
pub proof fn lemma_slot_x_in_row(k: int, per_row: int, glyph_size: int)
    requires
        0 <= k,
        1 <= per_row,
        1 <= glyph_size,
    ensures
        0 <= slot(k, per_row, glyph_size).0,
        slot(k, per_row, glyph_size).0 + glyph_size <= per_row * glyph_size,
        0 <= slot(k, per_row, glyph_size).1,
{
    lemma_fundamental_div_mod(k, per_row);
    let (q, r) = (k / per_row, k % per_row);
    assert(0 <= q) by (nonlinear_arith)
        requires
            k == per_row * q + r,
            r < per_row,
            0 <= k,
            1 <= per_row,
    ;
    assert(r * glyph_size + glyph_size <= per_row * glyph_size) by (nonlinear_arith)
        requires
            0 <= r < per_row,
            1 <= glyph_size,
    ;
    assert(0 <= r * glyph_size && 0 <= q * glyph_size) by (nonlinear_arith)
        requires
            0 <= r,
            0 <= q,
            1 <= glyph_size,
    ;
}

/// Rows fill in order: a later glyph never sits in an earlier row.
pub proof fn lemma_slot_rows_ordered(k1: int, k2: int, per_row: int, glyph_size: int)
    requires
        0 <= k1 <= k2,
        1 <= per_row,
        1 <= glyph_size,
    ensures
        slot(k1, per_row, glyph_size).1 <= slot(k2, per_row, glyph_size).1,
{
    vstd::arithmetic::div_mod::lemma_div_is_ordered(k1, k2, per_row);
    assert((k1 / per_row) * glyph_size <= (k2 / per_row) * glyph_size) by (nonlinear_arith)
        requires
            k1 / per_row <= k2 / per_row,
            1 <= glyph_size,
    ;
}

/// Packing law: each of the first `per_row * per_row` glyphs lies wholly
/// inside the square atlas of side `per_row * glyph_size`.
pub proof fn lemma_slot_in_atlas(k: int, per_row: int, glyph_size: int)
    requires
        0 <= k < per_row * per_row,
        1 <= per_row,
        1 <= glyph_size,
    ensures
        ({
            let (x, y) = slot(k, per_row, glyph_size);
            &&& 0 <= x
            &&& x + glyph_size <= per_row * glyph_size
            &&& 0 <= y
            &&& y + glyph_size <= per_row * glyph_size
        }),
{
    lemma_fundamental_div_mod(k, per_row);
    let (q, r) = (k / per_row, k % per_row);
    assert(q < per_row) by (nonlinear_arith)
        requires
            k == per_row * q + r,
            0 <= r,
            k < per_row * per_row,
            1 <= per_row,
    ;
    assert(0 <= q) by (nonlinear_arith)
        requires
            k == per_row * q + r,
            r < per_row,
            0 <= k,
            1 <= per_row,
    ;
    assert(r * glyph_size + glyph_size <= per_row * glyph_size) by (nonlinear_arith)
        requires
            0 <= r < per_row,
            1 <= glyph_size,
    ;
    assert(q * glyph_size + glyph_size <= per_row * glyph_size) by (nonlinear_arith)
        requires
            0 <= q < per_row,
            1 <= glyph_size,
    ;
    assert(0 <= r * glyph_size && 0 <= q * glyph_size) by (nonlinear_arith)
        requires
            0 <= r,
            0 <= q,
            1 <= glyph_size,
    ;
}

} // verus!
