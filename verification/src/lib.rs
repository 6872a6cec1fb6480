//! A verified core for keeping lattice-aligned entities ("cells") in sync
//! with the grid they are attached to.
//!
//! The library maintains a bidirectional mapping between discrete grid
//! coordinates and world-space positions: pure coordinate math (a coordinate's
//! world offset, and the inverse under a clamping or a rejecting policy), the
//! grid/cell data model with its attachment relation, and the synchronization
//! operations that keep cell positions consistent with grid positions.
//!
//! World positions are integers. A host whose transforms use another unit can
//! convert at its own boundary; every rule below is stated and proved over
//! these integer positions.

pub mod geometry;
pub mod grid;
pub mod model;
pub mod world;

pub use crate::geometry::{UVec2, Vec2, Vec3};
pub use crate::grid::{Grid, GridCell};
pub use crate::world::{
    AttachedCells, AttachedToGrid, GridPlugin, GridWorld, SnapCellToGrid, TrySnapCellToGrid,
    UpdateCellPosition,
};
