//! Integer vectors and the rounding rule used by the coordinate math.

use vstd::arithmetic::div_mod::lemma_div_multiples_vanish_fancy;
use vstd::prelude::*;

verus! {

/// Largest magnitude allowed for one component of a grid's configuration
/// vectors (`cell_size`, `cell_gap`, `offset`), in world units.
pub const CONFIG_LIMIT: i64 = 1048576;

/// Largest per-axis step between adjacent cells: `cell_size + cell_gap`
/// component-wise, each component at most `CONFIG_LIMIT`.
pub const MAX_STEP: i64 = 2 * CONFIG_LIMIT;

/// Largest magnitude allowed for a position the host writes directly
/// (grid positions and externally placed cells alike).
pub const HOST_POS_LIMIT: i64 = 1099511627776;

/// Largest magnitude a cell's world offset within its grid can take:
/// a `u32` coordinate times the largest step, plus the grid's offset.
pub const CELL_OFFSET_LIMIT: i64 = 4294967295 * MAX_STEP + CONFIG_LIMIT;

/// Largest magnitude any stored position can take: a host-written grid
/// position plus a cell's offset within that grid.
pub const WORLD_POS_LIMIT: i64 = HOST_POS_LIMIT + CELL_OFFSET_LIMIT;

/// Largest magnitude of a cell position expressed local to its grid
/// (cell position minus grid position minus the grid's offset).
pub const LOCAL_LIMIT: i64 = WORLD_POS_LIMIT + HOST_POS_LIMIT + CONFIG_LIMIT;

/// A two-component integer vector (world units).
#[derive(Clone, Copy, PartialEq, Eq, Structural, Debug)]
pub struct Vec2 {
    pub x: i64,
    pub y: i64,
}

/// A three-component integer vector (world units).
#[derive(Clone, Copy, PartialEq, Eq, Structural, Debug)]
pub struct Vec3 {
    pub x: i64,
    pub y: i64,
    pub z: i64,
}

/// An unsigned two-component vector: a lattice coordinate.
#[derive(Clone, Copy, PartialEq, Eq, Structural, Debug)]
pub struct UVec2 {
    pub x: u32,
    pub y: u32,
}

impl Vec3 {
    /// Every component lies within `[-bound, bound]`.
    pub open spec fn bounded(self, bound: int) -> bool {
        &&& -bound <= self.x <= bound
        &&& -bound <= self.y <= bound
        &&& -bound <= self.z <= bound
    }

    /// The origin.
    pub fn zero() -> (r: Vec3)
        ensures
            r == (Vec3 { x: 0, y: 0, z: 0 }),
    {
        Vec3 { x: 0, y: 0, z: 0 }
    }
}

/// Nearest-integer rounding of the quotient `n / d` for positive `d`, with
/// ties rounded away from zero. This is the one rounding rule of the library:
/// a position exactly halfway between two cells snaps to the one further from
/// the grid's origin side.
pub open spec fn round_half_away(n: int, d: int) -> int
    recommends
        0 < d,
{
    if n >= 0 {
        (2 * n + d) / (2 * d)
    } else {
        -((2 * (-n) + d) / (2 * d))
    }
}

/// Saturation into the signed 32-bit range. Raw derived coordinates are
/// confined to this range before they are clamped or validated.
pub open spec fn sat_i32(v: int) -> int {
    if v < -2147483648 {
        -2147483648
    } else if v > 2147483647 {
        2147483647
    } else {
        v
    }
}

/// Computes `round_half_away(n / d)` in integer arithmetic.
pub fn round_div(n: i64, d: i64) -> (r: i64)
    requires
        0 < d <= MAX_STEP,
        -LOCAL_LIMIT <= n <= LOCAL_LIMIT,
    ensures
        r == round_half_away(n as int, d as int),
{
    if n >= 0 {
        let q: u64 = ((2 * n + d) as u64) / ((2 * d) as u64);
        assert(q == (2 * n + d) / (2 * d));
        assert(q <= 2 * n + d) by {
            vstd::arithmetic::div_mod::lemma_div_nonincreasing((2 * n + d) as int, (2 * d) as int);
        }
        q as i64
    } else {
        let m: i64 = -n;
        let q: u64 = ((2 * m + d) as u64) / ((2 * d) as u64);
        assert(q == (2 * m + d) / (2 * d));
        assert(q <= 2 * m + d) by {
            vstd::arithmetic::div_mod::lemma_div_nonincreasing((2 * m + d) as int, (2 * d) as int);
        }
        -(q as i64)
    }
}

/// A quantity that is an exact multiple of the divisor rounds to exactly
/// that multiplier: `round_half_away(c * s, s) == c`.
pub proof fn lemma_round_half_away_exact(c: int, s: int)
    requires
        0 <= c,
        0 < s,
    ensures
        round_half_away(c * s, s) == c,
{
    assert(0 <= c * s) by (nonlinear_arith)
        requires
            0 <= c,
            0 < s,
    ;
    assert(2 * (c * s) + s == (2 * s) * c + s) by (nonlinear_arith);
    lemma_div_multiples_vanish_fancy(c, s, 2 * s);
}

} // verus!
