use grid_cells::{
    Grid, GridCell, GridPlugin, GridWorld, SnapCellToGrid, TrySnapCellToGrid, UVec2,
    UpdateCellPosition, Vec2, Vec3,
};

fn square_grid(size: i64, gap: i64, dimensions: (Option<u32>, Option<u32>)) -> Grid {
    Grid {
        cell_size: Vec2 { x: size, y: size },
        cell_gap: Vec2 { x: gap, y: gap },
        offset: Vec2 { x: 0, y: 0 },
        dimensions,
    }
}

const GRID: u64 = 1;
const CELL: u64 = 2;

#[test]
fn example_scenario_snap_then_sync() {
    let mut w = GridWorld::new();
    w.spawn_grid(GRID, square_grid(32, 2, (None, None)));
    w.set_position(GRID, Vec3 { x: 0, y: 0, z: 0 });
    w.spawn_cell(CELL, GridCell { coordinate: UVec2 { x: 0, y: 0 } });
    w.attach(CELL, GRID);
    w.set_position(CELL, Vec3 { x: 70, y: 0, z: 5 });
    SnapCellToGrid { entity: CELL }.observer(&mut w);
    // local (70, 0), raw round((70, 0) / (34, 34)) = (2, 0).
    assert_eq!(w.coordinate_of(CELL), Some(UVec2 { x: 2, y: 0 }));
    // The follow-up position sync lands on (2 * 34, 0) with z preserved.
    assert_eq!(w.position_of(CELL), Some(Vec3 { x: 68, y: 0, z: 5 }));
}

#[test]
fn position_sync_is_idempotent() {
    let mut w = GridWorld::new();
    w.spawn_grid(GRID, square_grid(10, 1, (None, None)));
    w.set_position(GRID, Vec3 { x: 3, y: 4, z: 5 });
    w.spawn_cell(CELL, GridCell { coordinate: UVec2 { x: 2, y: 3 } });
    w.attach(CELL, GRID);
    w.set_position(CELL, Vec3 { x: 0, y: 0, z: 7 });
    UpdateCellPosition { entity: CELL }.observer(&mut w);
    let first = w.position_of(CELL);
    assert_eq!(first, Some(Vec3 { x: 3 + 22, y: 4 + 33, z: 7 }));
    UpdateCellPosition { entity: CELL }.observer(&mut w);
    assert_eq!(w.position_of(CELL), first);
}

#[test]
fn grid_move_shifts_every_attached_cell() {
    let mut w = GridWorld::new();
    w.spawn_grid(GRID, square_grid(4, 0, (None, None)));
    w.set_position(GRID, Vec3 { x: 10, y: 20, z: 0 });
    w.spawn_cell(2, GridCell { coordinate: UVec2 { x: 0, y: 0 } });
    w.spawn_cell(3, GridCell { coordinate: UVec2 { x: 1, y: 0 } });
    w.attach(2, GRID);
    w.attach(3, GRID);
    UpdateCellPosition { entity: 2 }.observer(&mut w);
    UpdateCellPosition { entity: 3 }.observer(&mut w);
    let p2 = w.position_of(2).unwrap();
    let p3 = w.position_of(3).unwrap();
    w.set_position(GRID, Vec3 { x: 25, y: -3, z: 0 });
    GridPlugin::update(&mut w, &vec![GRID]);
    let q2 = w.position_of(2).unwrap();
    let q3 = w.position_of(3).unwrap();
    assert_eq!((q2.x - p2.x, q2.y - p2.y, q2.z), (15, -23, p2.z));
    assert_eq!((q3.x - p3.x, q3.y - p3.y, q3.z), (15, -23, p3.z));
}

#[test]
fn orphan_cell_requests_are_no_ops() {
    let mut w = GridWorld::new();
    w.spawn_cell(CELL, GridCell { coordinate: UVec2 { x: 4, y: 4 } });
    w.set_position(CELL, Vec3 { x: 123, y: -45, z: 6 });
    UpdateCellPosition { entity: CELL }.observer(&mut w);
    SnapCellToGrid { entity: CELL }.observer(&mut w);
    TrySnapCellToGrid { entity: CELL }.observer(&mut w);
    assert_eq!(w.coordinate_of(CELL), Some(UVec2 { x: 4, y: 4 }));
    assert_eq!(w.position_of(CELL), Some(Vec3 { x: 123, y: -45, z: 6 }));
}

#[test]
fn rejected_snap_leaves_the_cell_untouched() {
    let mut w = GridWorld::new();
    w.spawn_grid(GRID, square_grid(1, 0, (Some(3), Some(3))));
    w.spawn_cell(CELL, GridCell { coordinate: UVec2 { x: 1, y: 1 } });
    w.attach(CELL, GRID);
    w.set_position(CELL, Vec3 { x: 3, y: 1, z: 0 });
    TrySnapCellToGrid { entity: CELL }.observer(&mut w);
    assert_eq!(w.coordinate_of(CELL), Some(UVec2 { x: 1, y: 1 }));
    assert_eq!(w.position_of(CELL), Some(Vec3 { x: 3, y: 1, z: 0 }));
}

#[test]
fn accepted_try_snap_stores_and_syncs() {
    let mut w = GridWorld::new();
    w.spawn_grid(GRID, square_grid(1, 0, (Some(3), Some(3))));
    w.spawn_cell(CELL, GridCell { coordinate: UVec2 { x: 0, y: 0 } });
    w.attach(CELL, GRID);
    w.set_position(CELL, Vec3 { x: 2, y: 1, z: 9 });
    TrySnapCellToGrid { entity: CELL }.observer(&mut w);
    assert_eq!(w.coordinate_of(CELL), Some(UVec2 { x: 2, y: 1 }));
    assert_eq!(w.position_of(CELL), Some(Vec3 { x: 2, y: 1, z: 9 }));
}

#[test]
fn clamping_snap_can_move_the_cell_onto_the_bound() {
    let mut w = GridWorld::new();
    w.spawn_grid(GRID, square_grid(1, 0, (Some(3), None)));
    w.spawn_cell(CELL, GridCell { coordinate: UVec2 { x: 0, y: 0 } });
    w.attach(CELL, GRID);
    w.set_position(CELL, Vec3 { x: 10, y: -2, z: 1 });
    SnapCellToGrid { entity: CELL }.observer(&mut w);
    assert_eq!(w.coordinate_of(CELL), Some(UVec2 { x: 3, y: 0 }));
    assert_eq!(w.position_of(CELL), Some(Vec3 { x: 3, y: 0, z: 1 }));
}

#[test]
fn attachment_list_keeps_attachment_order() {
    let mut w = GridWorld::new();
    w.spawn_grid(GRID, square_grid(2, 0, (None, None)));
    w.spawn_cell(2, GridCell::default());
    w.spawn_cell(3, GridCell::default());
    w.spawn_cell(4, GridCell::default());
    w.attach(3, GRID);
    w.attach(2, GRID);
    w.attach(4, GRID);
    assert_eq!(w.attached_list(GRID), vec![3, 2, 4]);
    assert_eq!(w.attached_grid_of(2).map(|t| t.0), Some(GRID));
}

#[test]
fn detach_removes_exactly_the_detached_cell() {
    let mut w = GridWorld::new();
    w.spawn_grid(GRID, square_grid(2, 0, (None, None)));
    w.spawn_cell(2, GridCell::default());
    w.spawn_cell(3, GridCell::default());
    w.attach(2, GRID);
    w.attach(3, GRID);
    w.detach(2);
    assert_eq!(w.attached_list(GRID), vec![3]);
    assert!(w.attached_grid_of(2).is_none());
    // The detached cell no longer synchronizes.
    w.set_position(2, Vec3 { x: 50, y: 0, z: 0 });
    UpdateCellPosition { entity: 2 }.observer(&mut w);
    assert_eq!(w.position_of(2), Some(Vec3 { x: 50, y: 0, z: 0 }));
}

#[test]
fn reattaching_moves_the_cell_between_grids() {
    let mut w = GridWorld::new();
    w.spawn_grid(1, square_grid(2, 0, (None, None)));
    w.spawn_grid(5, square_grid(3, 0, (None, None)));
    w.spawn_cell(2, GridCell { coordinate: UVec2 { x: 1, y: 0 } });
    w.attach(2, 1);
    w.attach(2, 5);
    assert_eq!(w.attached_list(1), vec![]);
    assert_eq!(w.attached_list(5), vec![2]);
    UpdateCellPosition { entity: 2 }.observer(&mut w);
    assert_eq!(w.position_of(2), Some(Vec3 { x: 3, y: 0, z: 0 }));
}

#[test]
fn despawned_grid_leaves_inert_cells_behind() {
    let mut w = GridWorld::new();
    w.spawn_grid(GRID, square_grid(2, 0, (None, None)));
    w.spawn_cell(2, GridCell { coordinate: UVec2 { x: 1, y: 1 } });
    w.attach(2, GRID);
    w.despawn_grid(GRID);
    assert!(w.attached_grid_of(2).is_none());
    assert_eq!(w.coordinate_of(2), Some(UVec2 { x: 1, y: 1 }));
    // Synchronization requests for the orphaned cell become no-ops.
    SnapCellToGrid { entity: 2 }.observer(&mut w);
    assert_eq!(w.coordinate_of(2), Some(UVec2 { x: 1, y: 1 }));
}

#[test]
fn despawned_cell_leaves_its_grid_list() {
    let mut w = GridWorld::new();
    w.spawn_grid(GRID, square_grid(2, 0, (None, None)));
    w.spawn_cell(2, GridCell::default());
    w.spawn_cell(3, GridCell::default());
    w.attach(2, GRID);
    w.attach(3, GRID);
    w.despawn_cell(3);
    assert_eq!(w.attached_list(GRID), vec![2]);
    assert!(w.coordinate_of(3).is_none());
    assert!(w.position_of(3).is_none());
}

#[test]
fn update_pass_skips_grids_without_movement_entries() {
    let mut w = GridWorld::new();
    w.spawn_grid(GRID, square_grid(4, 0, (None, None)));
    w.spawn_cell(2, GridCell { coordinate: UVec2 { x: 2, y: 0 } });
    w.attach(2, GRID);
    w.set_position(2, Vec3 { x: 1, y: 1, z: 1 });
    // No grid is listed as moved: nothing is re-synced.
    GridPlugin::update(&mut w, &vec![]);
    assert_eq!(w.position_of(2), Some(Vec3 { x: 1, y: 1, z: 1 }));
    // Once the grid is listed, its cell snaps into place.
    GridPlugin::update(&mut w, &vec![GRID]);
    assert_eq!(w.position_of(2), Some(Vec3 { x: 8, y: 0, z: 1 }));
}

#[test]
fn offset_shifts_the_whole_lattice() {
    let mut w = GridWorld::new();
    let grid = Grid {
        cell_size: Vec2 { x: 10, y: 10 },
        cell_gap: Vec2 { x: 0, y: 0 },
        offset: Vec2 { x: 5, y: -5 },
        dimensions: (None, None),
    };
    w.spawn_grid(GRID, grid);
    w.set_position(GRID, Vec3 { x: 100, y: 100, z: 0 });
    w.spawn_cell(CELL, GridCell { coordinate: UVec2 { x: 1, y: 1 } });
    w.attach(CELL, GRID);
    UpdateCellPosition { entity: CELL }.observer(&mut w);
    assert_eq!(w.position_of(CELL), Some(Vec3 { x: 115, y: 105, z: 0 }));
    // The derivation subtracts the offset back out.
    w.set_position(CELL, Vec3 { x: 115, y: 105, z: 0 });
    SnapCellToGrid { entity: CELL }.observer(&mut w);
    assert_eq!(w.coordinate_of(CELL), Some(UVec2 { x: 1, y: 1 }));
}
