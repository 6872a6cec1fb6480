//! The grid and cell records and the pure coordinate math: a coordinate's
//! world offset within its grid, and the inverse derivation of a coordinate
//! from a world position under a clamping or a rejecting policy.

use crate::geometry::{
    round_div, round_half_away, sat_i32, UVec2, Vec2, Vec3, CELL_OFFSET_LIMIT, CONFIG_LIMIT,
    HOST_POS_LIMIT, MAX_STEP, WORLD_POS_LIMIT,
};
use vstd::prelude::*;

verus! {

/// A rectangular lattice: the size of one cell, the extra spacing between
/// adjacent cells, the world offset of coordinate `(0, 0)` relative to the
/// grid's own position, and an optional per-axis bound on valid coordinates
/// (`None` leaves that axis unbounded).
#[derive(Clone, Copy, Debug)]
pub struct Grid {
    pub cell_size: Vec2,
    pub cell_gap: Vec2,
    pub offset: Vec2,
    pub dimensions: (Option<u32>, Option<u32>),
}

/// One lattice-aligned entity: its stored coordinate.
#[derive(Clone, Copy, Debug)]
pub struct GridCell {
    pub coordinate: UVec2,
}

impl Default for GridCell {
    /// A fresh cell sits at the origin coordinate.
    fn default() -> (r: Self)
        ensures
            r.coordinate == (UVec2 { x: 0, y: 0 }),
    {
        GridCell { coordinate: UVec2 { x: 0, y: 0 } }
    }
}

/// One axis of the clamping policy: negative raw values saturate to zero and,
/// where a bound exists, values above it saturate to the bound itself.
pub open spec fn clamp_axis(raw: int, dim: Option<u32>) -> int {
    match dim {
        Some(d) => if raw < 0 {
            0
        } else if raw > d {
            d as int
        } else {
            raw
        },
        None => if raw < 0 {
            0
        } else {
            raw
        },
    }
}

impl Grid {
    /// Distance between the origins of two horizontally adjacent cells.
    pub open spec fn step_x(self) -> int {
        self.cell_size.x + self.cell_gap.x
    }

    /// Distance between the origins of two vertically adjacent cells.
    pub open spec fn step_y(self) -> int {
        self.cell_size.y + self.cell_gap.y
    }

    /// A usable configuration: both steps are strictly positive (the
    /// derivation divides by them), every configuration component is small
    /// enough that the position arithmetic cannot overflow, and a declared
    /// bound is representable as a signed 32-bit value.
    pub open spec fn wf(self) -> bool {
        &&& -CONFIG_LIMIT <= self.cell_size.x <= CONFIG_LIMIT
        &&& -CONFIG_LIMIT <= self.cell_size.y <= CONFIG_LIMIT
        &&& -CONFIG_LIMIT <= self.cell_gap.x <= CONFIG_LIMIT
        &&& -CONFIG_LIMIT <= self.cell_gap.y <= CONFIG_LIMIT
        &&& -CONFIG_LIMIT <= self.offset.x <= CONFIG_LIMIT
        &&& -CONFIG_LIMIT <= self.offset.y <= CONFIG_LIMIT
        &&& 0 < self.step_x()
        &&& 0 < self.step_y()
        &&& match self.dimensions.0 {
            Some(d) => d <= 2147483647,
            None => true,
        }
        &&& match self.dimensions.1 {
            Some(d) => d <= 2147483647,
            None => true,
        }
    }

    /// The x component of a coordinate's world offset within this grid.
    pub open spec fn cell_offset_x(self, c: u32) -> int {
        c * self.step_x() + self.offset.x
    }

    /// The y component of a coordinate's world offset within this grid.
    pub open spec fn cell_offset_y(self, c: u32) -> int {
        c * self.step_y() + self.offset.y
    }

    /// A cell's position expressed local to the grid, x axis.
    pub open spec fn local_x(self, grid_pos: Vec3, cell_pos: Vec3) -> int {
        cell_pos.x - grid_pos.x - self.offset.x
    }

    /// A cell's position expressed local to the grid, y axis.
    pub open spec fn local_y(self, grid_pos: Vec3, cell_pos: Vec3) -> int {
        cell_pos.y - grid_pos.y - self.offset.y
    }

    /// The raw derived coordinate on the x axis: the local position divided
    /// by the step, rounded to the nearest integer (ties away from zero) and
    /// saturated into the signed 32-bit range.
    pub open spec fn raw_x(self, grid_pos: Vec3, cell_pos: Vec3) -> int {
        sat_i32(round_half_away(self.local_x(grid_pos, cell_pos), self.step_x()))
    }

    /// The raw derived coordinate on the y axis.
    pub open spec fn raw_y(self, grid_pos: Vec3, cell_pos: Vec3) -> int {
        sat_i32(round_half_away(self.local_y(grid_pos, cell_pos), self.step_y()))
    }

    /// A coordinate lies strictly below every declared bound.
    pub open spec fn coordinate_valid(self, coordinate: UVec2) -> bool {
        &&& match self.dimensions.0 {
            Some(width) => coordinate.x < width,
            None => true,
        }
        &&& match self.dimensions.1 {
            Some(height) => coordinate.y < height,
            None => true,
        }
    }

    /// What deriving a coordinate returns. With `round_to_nearest` (the
    /// clamping policy) each raw axis is clamped independently and a
    /// coordinate always comes back; without it (the rejecting policy) the
    /// raw coordinate comes back unchanged, or nothing when either axis is
    /// negative or a declared bound excludes it.
    pub open spec fn derive_spec(
        self,
        grid_pos: Vec3,
        cell_pos: Vec3,
        round_to_nearest: bool,
    ) -> Option<UVec2> {
        let rx = self.raw_x(grid_pos, cell_pos);
        let ry = self.raw_y(grid_pos, cell_pos);
        if round_to_nearest {
            Some(
                UVec2 {
                    x: clamp_axis(rx, self.dimensions.0) as u32,
                    y: clamp_axis(ry, self.dimensions.1) as u32,
                },
            )
        } else {
            let candidate = UVec2 { x: rx as u32, y: ry as u32 };
            if 0 <= rx && 0 <= ry && self.coordinate_valid(candidate) {
                Some(candidate)
            } else {
                None
            }
        }
    }

    /// The world offset of `cell`'s coordinate within this grid, as a
    /// three-component vector with zero z. Pure arithmetic: no bound is
    /// checked here; callers that derive coordinates enforce bounds.
    pub fn get_cell_position(&self, cell: &GridCell) -> (r: Vec3)
        requires
            self.wf(),
        ensures
            r.x == self.cell_offset_x(cell.coordinate.x),
            r.y == self.cell_offset_y(cell.coordinate.y),
            r.z == 0,
            r.bounded(CELL_OFFSET_LIMIT as int),
    {
        proof {
            lemma_cell_offset_bounded(*self, cell.coordinate);
        }
        let sx: i64 = self.cell_size.x + self.cell_gap.x;
        let sy: i64 = self.cell_size.y + self.cell_gap.y;
        let px: i64 = (cell.coordinate.x as i64) * sx + self.offset.x;
        let py: i64 = (cell.coordinate.y as i64) * sy + self.offset.y;
        Vec3 { x: px, y: py, z: 0 }
    }

    /// Derives the coordinate for a cell at `cell_transform` on a grid at
    /// `grid_transform`, under the policy chosen by `round_to_nearest`.
    pub fn get_cell_coordinate(
        &self,
        grid_transform: &Vec3,
        cell_transform: &Vec3,
        round_to_nearest: bool,
    ) -> (r: Option<UVec2>)
        requires
            self.wf(),
            grid_transform.bounded(HOST_POS_LIMIT as int),
            cell_transform.bounded(WORLD_POS_LIMIT as int),
        ensures
            r == self.derive_spec(*grid_transform, *cell_transform, round_to_nearest),
    {
        let sx: i64 = self.cell_size.x + self.cell_gap.x;
        let sy: i64 = self.cell_size.y + self.cell_gap.y;
        let lx: i64 = cell_transform.x - grid_transform.x - self.offset.x;
        let ly: i64 = cell_transform.y - grid_transform.y - self.offset.y;
        let rx0: i64 = round_div(lx, sx);
        let ry0: i64 = round_div(ly, sy);
        let rx: i64 = if rx0 > 2147483647 {
            2147483647
        } else if rx0 < -2147483648 {
            -2147483648
        } else {
            rx0
        };
        let ry: i64 = if ry0 > 2147483647 {
            2147483647
        } else if ry0 < -2147483648 {
            -2147483648
        } else {
            ry0
        };
        assert(rx == self.raw_x(*grid_transform, *cell_transform));
        assert(ry == self.raw_y(*grid_transform, *cell_transform));
        if round_to_nearest {
            let cx: u32 = match self.dimensions.0 {
                Some(dim_x) => if rx < 0 {
                    0
                } else if rx > dim_x as i64 {
                    dim_x
                } else {
                    rx as u32
                },
                None => if rx < 0 {
                    0
                } else {
                    rx as u32
                },
            };
            let cy: u32 = match self.dimensions.1 {
                Some(dim_y) => if ry < 0 {
                    0
                } else if ry > dim_y as i64 {
                    dim_y
                } else {
                    ry as u32
                },
                None => if ry < 0 {
                    0
                } else {
                    ry as u32
                },
            };
            Some(UVec2 { x: cx, y: cy })
        } else {
            if rx >= 0 && ry >= 0 {
                let candidate = UVec2 { x: rx as u32, y: ry as u32 };
                if self.is_coordinate_valid(candidate) {
                    Some(candidate)
                } else {
                    None
                }
            } else {
                None
            }
        }
    }

    /// Whether `coordinate` lies strictly below every declared bound.
    pub fn is_coordinate_valid(&self, coordinate: UVec2) -> (r: bool)
        ensures
            r == self.coordinate_valid(coordinate),
    {
        let x_ok = match self.dimensions.0 {
            Some(width) => coordinate.x < width,
            None => true,
        };
        let y_ok = match self.dimensions.1 {
            Some(height) => coordinate.y < height,
            None => true,
        };
        x_ok && y_ok
    }
}

/// A coordinate's world offset within a well-formed grid never exceeds
/// `CELL_OFFSET_LIMIT` on any axis.
pub proof fn lemma_cell_offset_bounded(grid: Grid, c: UVec2)
    requires
        grid.wf(),
    ensures
        -CELL_OFFSET_LIMIT <= grid.cell_offset_x(c.x) <= CELL_OFFSET_LIMIT,
        -CELL_OFFSET_LIMIT <= grid.cell_offset_y(c.y) <= CELL_OFFSET_LIMIT,
{
    assert(0 <= c.x * grid.step_x() <= 4294967295 * MAX_STEP) by (nonlinear_arith)
        requires
            0 <= c.x <= 4294967295,
            0 < grid.step_x() <= MAX_STEP,
    ;
    assert(0 <= c.y * grid.step_y() <= 4294967295 * MAX_STEP) by (nonlinear_arith)
        requires
            0 <= c.y <= 4294967295,
            0 < grid.step_y() <= MAX_STEP,
    ;
}

/// Round trip under the clamping policy: a cell placed exactly at the world
/// position of a coordinate `c` that every declared bound admits (and that is
/// signed-32-bit representable on an unbounded axis) derives back to exactly
/// `c`. The z component of the cell's position plays no part.
pub proof fn lemma_clamp_round_trip(grid: Grid, grid_pos: Vec3, cell_pos: Vec3, c: UVec2)
    requires
        grid.wf(),
        match grid.dimensions.0 {
            Some(width) => c.x < width,
            None => c.x <= 2147483647,
        },
        match grid.dimensions.1 {
            Some(height) => c.y < height,
            None => c.y <= 2147483647,
        },
        cell_pos.x == grid_pos.x + grid.cell_offset_x(c.x),
        cell_pos.y == grid_pos.y + grid.cell_offset_y(c.y),
    ensures
        grid.derive_spec(grid_pos, cell_pos, true) == Some(c),
{
    assert(grid.local_x(grid_pos, cell_pos) == c.x * grid.step_x());
    assert(grid.local_y(grid_pos, cell_pos) == c.y * grid.step_y());
    crate::geometry::lemma_round_half_away_exact(c.x as int, grid.step_x());
    crate::geometry::lemma_round_half_away_exact(c.y as int, grid.step_y());
    assert(grid.raw_x(grid_pos, cell_pos) == c.x);
    assert(grid.raw_y(grid_pos, cell_pos) == c.y);
    assert(clamp_axis(c.x as int, grid.dimensions.0) == c.x);
    assert(clamp_axis(c.y as int, grid.dimensions.1) == c.y);
}

} // verus!
