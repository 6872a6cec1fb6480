use grid_cells::{Grid, GridCell, UVec2, Vec2, Vec3};

fn unbounded_grid(size: i64, gap: i64) -> Grid {
    Grid {
        cell_size: Vec2 { x: size, y: size },
        cell_gap: Vec2 { x: gap, y: gap },
        offset: Vec2 { x: 0, y: 0 },
        dimensions: (None, None),
    }
}

#[test]
fn cell_position_is_coordinate_times_step_plus_offset() {
    let grid = Grid {
        cell_size: Vec2 { x: 32, y: 16 },
        cell_gap: Vec2 { x: 2, y: 4 },
        offset: Vec2 { x: 7, y: -3 },
        dimensions: (None, None),
    };
    let cell = GridCell { coordinate: UVec2 { x: 3, y: 2 } };
    let p = grid.get_cell_position(&cell);
    assert_eq!(p, Vec3 { x: 3 * 34 + 7, y: 2 * 20 - 3, z: 0 });
}

#[test]
fn derive_rounds_to_nearest_cell() {
    let grid = unbounded_grid(32, 2);
    let origin = Vec3 { x: 0, y: 0, z: 0 };
    // 70 / 34 is nearer to 2 than to 1.
    let r = grid.get_cell_coordinate(&origin, &Vec3 { x: 70, y: 0, z: 5 }, true);
    assert_eq!(r, Some(UVec2 { x: 2, y: 0 }));
    // 16 / 34 is nearer to 0 than to 1.
    let r = grid.get_cell_coordinate(&origin, &Vec3 { x: 16, y: 0, z: 0 }, true);
    assert_eq!(r, Some(UVec2 { x: 0, y: 0 }));
}

#[test]
fn derive_rounds_half_away_from_zero() {
    let grid = unbounded_grid(34, 0);
    let origin = Vec3 { x: 0, y: 0, z: 0 };
    // 17 / 34 is exactly one half: the tie goes away from zero.
    let r = grid.get_cell_coordinate(&origin, &Vec3 { x: 17, y: 0, z: 0 }, true);
    assert_eq!(r, Some(UVec2 { x: 1, y: 0 }));
}

#[test]
fn clamp_saturates_to_declared_bound() {
    let mut grid = unbounded_grid(1, 0);
    grid.dimensions = (Some(3), None);
    let origin = Vec3 { x: 0, y: 0, z: 0 };
    // Raw x of 10 saturates to the bound itself.
    let r = grid.get_cell_coordinate(&origin, &Vec3 { x: 10, y: 0, z: 0 }, true);
    assert_eq!(r, Some(UVec2 { x: 3, y: 0 }));
}

#[test]
fn clamp_floors_negative_raw_at_zero() {
    let grid = unbounded_grid(1, 0);
    let origin = Vec3 { x: 0, y: 0, z: 0 };
    let r = grid.get_cell_coordinate(&origin, &Vec3 { x: -5, y: 0, z: 0 }, true);
    assert_eq!(r, Some(UVec2 { x: 0, y: 0 }));
}

#[test]
fn reject_refuses_the_boundary() {
    let mut grid = unbounded_grid(1, 0);
    grid.dimensions = (Some(3), Some(3));
    let origin = Vec3 { x: 0, y: 0, z: 0 };
    // Raw (3, 1): 3 is outside [0, 3).
    let r = grid.get_cell_coordinate(&origin, &Vec3 { x: 3, y: 1, z: 0 }, false);
    assert_eq!(r, None);
    // Raw (2, 1) is inside and comes back unchanged.
    let r = grid.get_cell_coordinate(&origin, &Vec3 { x: 2, y: 1, z: 0 }, false);
    assert_eq!(r, Some(UVec2 { x: 2, y: 1 }));
}

#[test]
fn reject_refuses_negative_raw() {
    let grid = unbounded_grid(1, 0);
    let origin = Vec3 { x: 0, y: 0, z: 0 };
    let r = grid.get_cell_coordinate(&origin, &Vec3 { x: -2, y: 0, z: 0 }, false);
    assert_eq!(r, None);
}

#[test]
fn coordinate_validity_follows_the_declared_bounds() {
    let mut grid = unbounded_grid(1, 0);
    grid.dimensions = (Some(3), None);
    assert!(grid.is_coordinate_valid(UVec2 { x: 2, y: 1000 }));
    assert!(!grid.is_coordinate_valid(UVec2 { x: 3, y: 0 }));
    let open = unbounded_grid(1, 0);
    assert!(open.is_coordinate_valid(UVec2 { x: 4000000000, y: 4000000000 }));
}

#[test]
fn round_trip_under_clamp_returns_the_same_coordinate() {
    let mut grid = Grid {
        cell_size: Vec2 { x: 9, y: 5 },
        cell_gap: Vec2 { x: 1, y: 2 },
        offset: Vec2 { x: -4, y: 11 },
        dimensions: (Some(6), Some(4)),
    };
    let grid_pos = Vec3 { x: 100, y: -50, z: 2 };
    for x in 0..6u32 {
        for y in 0..4u32 {
            let c = UVec2 { x, y };
            let off = grid.get_cell_position(&GridCell { coordinate: c });
            let cell_pos = Vec3 { x: grid_pos.x + off.x, y: grid_pos.y + off.y, z: 9 };
            assert_eq!(grid.get_cell_coordinate(&grid_pos, &cell_pos, true), Some(c));
        }
    }
    // The same holds on unbounded axes.
    grid.dimensions = (None, None);
    let c = UVec2 { x: 41, y: 17 };
    let off = grid.get_cell_position(&GridCell { coordinate: c });
    let cell_pos = Vec3 { x: grid_pos.x + off.x, y: grid_pos.y + off.y, z: 0 };
    assert_eq!(grid.get_cell_coordinate(&grid_pos, &cell_pos, true), Some(c));
}

#[test]
fn default_cell_sits_at_the_origin_coordinate() {
    let cell = GridCell::default();
    assert_eq!(cell.coordinate, UVec2 { x: 0, y: 0 });
}
