//! Positions, selections and distances on the integer grid.

use vstd::prelude::*;

verus! {

/// One coordinate of the grid.
pub type PosUnit = i32;

/// A grid position `(x, y, z)`.
pub type Pos = (PosUnit, PosUnit, PosUnit);

/// Identifies a player; a team carries its player's id.
pub type PlayerID = u16;

/// The team an entity belongs to, if any.
pub type TeamID = Option<PlayerID>;

/// Simulation time, in ticks.
pub type Ticks = i32;

/// A rectangular region given by two opposite corners.
pub type TilesSelector = (Pos, Pos);

pub open spec fn min_of(a: int, b: int) -> int {
    if a <= b { a } else { b }
}

pub open spec fn max_of(a: int, b: int) -> int {
    if a <= b { b } else { a }
}

pub open spec fn abs_of(a: int) -> int {
    if a < 0 { -a } else { a }
}

/// The selection as its (min corner, max corner) pair.
pub open spec fn normalized(sel: TilesSelector) -> TilesSelector {
    let (a, b) = sel;
    (
        (min_of(a.0 as int, b.0 as int) as i32, min_of(a.1 as int, b.1 as int) as i32, min_of(a.2 as int, b.2 as int) as i32),
        (max_of(a.0 as int, b.0 as int) as i32, max_of(a.1 as int, b.1 as int) as i32, max_of(a.2 as int, b.2 as int) as i32),
    )
}

/// Whether `p` lies in the box spanned by the corners `lo` and `hi`.
pub open spec fn in_box(lo: Pos, hi: Pos, p: Pos) -> bool {
    &&& lo.0 <= p.0 <= hi.0
    &&& lo.1 <= p.1 <= hi.1
    &&& lo.2 <= p.2 <= hi.2
}

/// Chebyshev distance at most one on every axis.
pub open spec fn adjacent(a: Pos, b: Pos) -> bool {
    &&& abs_of(a.0 - b.0) <= 1
    &&& abs_of(a.1 - b.1) <= 1
    &&& abs_of(a.2 - b.2) <= 1
}

/// Squared Euclidean distance.
pub open spec fn sq_dist(a: Pos, b: Pos) -> int {
    (a.0 - b.0) * (a.0 - b.0) + (a.1 - b.1) * (a.1 - b.1) + (a.2 - b.2) * (a.2 - b.2)
}

/// `r` is the integer square root of `n`.
pub open spec fn is_isqrt(n: int, r: int) -> bool {
    0 <= r && r * r <= n < (r + 1) * (r + 1)
}

/// The integer square root is unique.
pub proof fn lemma_isqrt_unique(n: int, r: int)
    requires
        is_isqrt(n, r),
    ensures
        (choose|s: int| is_isqrt(n, s)) == r,
{
    let s = choose|s: int| is_isqrt(n, s);
    assert(is_isqrt(n, s));
    if s < r {
        assert((s + 1) * (s + 1) <= r * r) by (nonlinear_arith) requires 0 <= s < r;
    } else if s > r {
        assert((r + 1) * (r + 1) <= s * s) by (nonlinear_arith) requires 0 <= r < s;
    }
}

/// Bound on the squared distance for which `dist` fits in an `i32`.
pub const MAX_SQ_DIST: u128 = 0x4000_0000_0000_0000;

/// Re-parameterize a selection as its lowest corner and highest corner.
pub fn rotate_selector(selector: TilesSelector) -> (r: TilesSelector)
    ensures
        r == normalized(selector),
{
    let ((x1, y1, z1), (x2, y2, z2)) = selector;
    let nx1 = if x1 <= x2 { x1 } else { x2 };
    let nx2 = if x1 <= x2 { x2 } else { x1 };
    let ny1 = if y1 <= y2 { y1 } else { y2 };
    let ny2 = if y1 <= y2 { y2 } else { y1 };
    let nz1 = if z1 <= z2 { z1 } else { z2 };
    let nz2 = if z1 <= z2 { z2 } else { z1 };
    ((nx1, ny1, nz1), (nx2, ny2, nz2))
}

/// Integer square root of `n`, for `n < 2^66`.
pub fn isqrt(n: u128) -> (r: u128)
    requires
        n < 0x4_0000_0000_0000_0000,
    ensures
        is_isqrt(n as int, r as int),
{
    let mut lo: u128 = 0;
    let mut hi: u128 = 0x2_0000_0000;
    assert(hi * hi > n) by (nonlinear_arith)
        requires hi == 0x2_0000_0000u128, n < 0x4_0000_0000_0000_0000;
    while hi - lo > 1
        invariant
            lo < hi <= 0x2_0000_0000,
            lo * lo <= n,
            n < hi * hi,
        decreases hi - lo,
    {
        let mid = lo + (hi - lo) / 2;
        assert(mid * mid <= 0x2_0000_0000 * 0x2_0000_0000) by (nonlinear_arith)
            requires mid <= 0x2_0000_0000;
        if mid * mid <= n {
            lo = mid;
        } else {
            hi = mid;
        }
    }
    assert(hi == lo + 1);
    lo
}

/// Euclidean distance between two positions, rounded down.
pub fn dist(pos1: &Pos, pos2: &Pos) -> (r: i32)
    requires
        sq_dist(*pos1, *pos2) < MAX_SQ_DIST,
    ensures
        is_isqrt(sq_dist(*pos1, *pos2), r as int),
{
    let dx = pos1.0 as i128 - pos2.0 as i128;
    let dy = pos1.1 as i128 - pos2.1 as i128;
    let dz = pos1.2 as i128 - pos2.2 as i128;
    assert(dx * dx <= 0x1_0000_0000 * 0x1_0000_0000) by (nonlinear_arith)
        requires -0x1_0000_0000 <= dx <= 0x1_0000_0000;
    assert(dy * dy <= 0x1_0000_0000 * 0x1_0000_0000) by (nonlinear_arith)
        requires -0x1_0000_0000 <= dy <= 0x1_0000_0000;
    assert(dz * dz <= 0x1_0000_0000 * 0x1_0000_0000) by (nonlinear_arith)
        requires -0x1_0000_0000 <= dz <= 0x1_0000_0000;
    assert(0 <= dx * dx && 0 <= dy * dy && 0 <= dz * dz) by (nonlinear_arith);
    let sq = (dx * dx + dy * dy + dz * dz) as u128;
    let r = isqrt(sq);
    assert(r < 0x8000_0000) by (nonlinear_arith)
        requires r * r <= sq, sq < 0x4000_0000_0000_0000u128;
    r as i32
}

/// Euclidean distance between any two positions, rounded down.
pub fn ground_dist(pos1: &Pos, pos2: &Pos) -> (r: i64)
    ensures
        is_isqrt(sq_dist(*pos1, *pos2), r as int),
{
    let dx = pos1.0 as i128 - pos2.0 as i128;
    let dy = pos1.1 as i128 - pos2.1 as i128;
    let dz = pos1.2 as i128 - pos2.2 as i128;
    assert(dx * dx <= 0x1_0000_0000 * 0x1_0000_0000) by (nonlinear_arith)
        requires -0x1_0000_0000 <= dx <= 0x1_0000_0000;
    assert(dy * dy <= 0x1_0000_0000 * 0x1_0000_0000) by (nonlinear_arith)
        requires -0x1_0000_0000 <= dy <= 0x1_0000_0000;
    assert(dz * dz <= 0x1_0000_0000 * 0x1_0000_0000) by (nonlinear_arith)
        requires -0x1_0000_0000 <= dz <= 0x1_0000_0000;
    assert(0 <= dx * dx && 0 <= dy * dy && 0 <= dz * dz) by (nonlinear_arith);
    let sq = (dx * dx + dy * dy + dz * dz) as u128;
    let r = isqrt(sq);
    assert(r < 0x2_0000_0000) by (nonlinear_arith)
        requires r * r <= sq, sq < 0x4_0000_0000_0000_0000u128;
    r as i64
}

/// Whether two positions are within one step of each other on every axis.
pub fn is_adjacent(a: &Pos, b: &Pos) -> (r: bool)
    ensures
        r == adjacent(*a, *b),
{
    let dx = a.0 as i64 - b.0 as i64;
    let dy = a.1 as i64 - b.1 as i64;
    let dz = a.2 as i64 - b.2 as i64;
    -1 <= dx && dx <= 1 && -1 <= dy && dy <= 1 && -1 <= dz && dz <= 1
}

} // verus!
