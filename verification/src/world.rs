//! The executable world: per-entity stores for grid configurations, cell
//! records, positions and the attachment relation, together with the three
//! synchronization operations and the reaction to grid movement. Every
//! operation is specified against the transitions of `model`.

use crate::geometry::{UVec2, Vec3, HOST_POS_LIMIT};
use crate::grid::{Grid, GridCell};
use crate::model::{
    lemma_attach_wf, lemma_despawn_cell_wf, lemma_despawn_grid_wf, lemma_detach_wf,
    lemma_set_position_wf, lemma_spawn_cell_wf, lemma_spawn_grid_wf, lemma_sync_cell_wf,
    WorldModel,
};
use std::collections::HashMap;
use vstd::prelude::*;

verus! {

broadcast use vstd::std_specs::hash::group_hash_axioms;

/// The ordered list of cells currently attached to one grid: one side of
/// the attachment relation, kept in the order the cells were attached.
#[derive(Debug)]
pub struct AttachedCells(pub Vec<u64>);

/// The grid a cell is attached to: the other side of the relation.
#[derive(Clone, Copy, Debug)]
pub struct AttachedToGrid(pub u64);

/// The view of the per-grid attachment lists as a map of sequences.
pub open spec fn lists_view(m: Map<u64, AttachedCells>) -> Map<u64, Seq<u64>> {
    Map::new(|k: u64| m.contains_key(k), |k: u64| m[k].0@)
}

/// The view of the per-cell attachment targets as a map of entities.
pub open spec fn targets_view(m: Map<u64, AttachedToGrid>) -> Map<u64, u64> {
    Map::new(|k: u64| m.contains_key(k), |k: u64| m[k].0)
}

proof fn lemma_lists_view_insert(m: Map<u64, AttachedCells>, k: u64, v: AttachedCells)
    ensures
        lists_view(m.insert(k, v)) == lists_view(m).insert(k, v.0@),
{
    assert(lists_view(m.insert(k, v)) =~= lists_view(m).insert(k, v.0@));
}

/// A world of grids and cells, all keyed by host-chosen `u64` entities.
pub struct GridWorld {
    grids: HashMap<u64, Grid>,
    cells: HashMap<u64, GridCell>,
    transforms: HashMap<u64, Vec3>,
    attached_to: HashMap<u64, AttachedToGrid>,
    attached_cells: HashMap<u64, AttachedCells>,
}

impl View for GridWorld {
    type V = WorldModel;

    closed spec fn view(&self) -> WorldModel {
        WorldModel {
            grids: self.grids@,
            cells: self.cells@,
            transforms: self.transforms@,
            attached_to: targets_view(self.attached_to@),
            attached_cells: lists_view(self.attached_cells@),
        }
    }
}

impl GridWorld {
    /// A world with nothing in it.
    pub fn new() -> (r: GridWorld)
        ensures
            r@ == WorldModel::empty(),
            r@.wf(),
    {
        let r = GridWorld {
            grids: HashMap::new(),
            cells: HashMap::new(),
            transforms: HashMap::new(),
            attached_to: HashMap::new(),
            attached_cells: HashMap::new(),
        };
        proof {
            assert(targets_view(r.attached_to@) =~= Map::<u64, u64>::empty());
            assert(lists_view(r.attached_cells@) =~= Map::<u64, Seq<u64>>::empty());
            assert(r@ =~= WorldModel::empty());
        }
        r
    }

    /// Creates (or reconfigures) the grid `entity`. A grid starts with an
    /// empty attachment list and, like every entity, a position at the
    /// origin unless one is already stored. The configuration must be
    /// usable — a creator upholds the grid invariant once, here, so that
    /// the synchronization hot path never re-validates it — and a grid may
    /// not double as a cell.
    pub fn spawn_grid(&mut self, entity: u64, grid: Grid)
        requires
            old(self)@.wf(),
            grid.wf(),
            !old(self)@.cells.contains_key(entity),
        ensures
            final(self)@.wf(),
            final(self)@.grids == old(self)@.grids.insert(entity, grid),
            final(self)@.cells == old(self)@.cells,
            final(self)@.attached_to == old(self)@.attached_to,
            final(self)@.attached_cells == (if old(self)@.attached_cells.contains_key(entity) {
                old(self)@.attached_cells
            } else {
                old(self)@.attached_cells.insert(entity, Seq::<u64>::empty())
            }),
            final(self)@.transforms == (if old(self)@.transforms.contains_key(entity) {
                old(self)@.transforms
            } else {
                old(self)@.transforms.insert(entity, Vec3 { x: 0, y: 0, z: 0 })
            }),
    {
        self.grids.insert(entity, grid);
        if !self.attached_cells.contains_key(&entity) {
            let fresh = AttachedCells(Vec::new());
            proof {
                lemma_lists_view_insert(self.attached_cells@, entity, fresh);
                assert(fresh.0@ =~= Seq::<u64>::empty());
            }
            self.attached_cells.insert(entity, fresh);
        }
        if !self.transforms.contains_key(&entity) {
            self.transforms.insert(entity, Vec3::zero());
        }
        proof {
            lemma_spawn_grid_wf(old(self)@, self@, entity, grid);
        }
    }

    /// Creates (or resets) the cell `entity` with a stored coordinate. A
    /// cell may not double as a grid; like every entity it starts at the
    /// origin unless a position is already stored.
    pub fn spawn_cell(&mut self, entity: u64, cell: GridCell)
        requires
            old(self)@.wf(),
            !old(self)@.grids.contains_key(entity),
        ensures
            final(self)@.wf(),
            final(self)@.cells == old(self)@.cells.insert(entity, cell),
            final(self)@.grids == old(self)@.grids,
            final(self)@.attached_to == old(self)@.attached_to,
            final(self)@.attached_cells == old(self)@.attached_cells,
            final(self)@.transforms == (if old(self)@.transforms.contains_key(entity) {
                old(self)@.transforms
            } else {
                old(self)@.transforms.insert(entity, Vec3 { x: 0, y: 0, z: 0 })
            }),
    {
        self.cells.insert(entity, cell);
        if !self.transforms.contains_key(&entity) {
            self.transforms.insert(entity, Vec3::zero());
        }
        proof {
            lemma_spawn_cell_wf(old(self)@, self@, entity, cell);
        }
    }

    /// The host's write into the transform store: places `entity` at
    /// `position`. Host-written positions stay within `HOST_POS_LIMIT` so
    /// that no later synchronization arithmetic can overflow.
    pub fn set_position(&mut self, entity: u64, position: Vec3)
        requires
            old(self)@.wf(),
            position.bounded(HOST_POS_LIMIT as int),
        ensures
            final(self)@.wf(),
            final(self)@.transforms == old(self)@.transforms.insert(entity, position),
            final(self)@.grids == old(self)@.grids,
            final(self)@.cells == old(self)@.cells,
            final(self)@.attached_to == old(self)@.attached_to,
            final(self)@.attached_cells == old(self)@.attached_cells,
    {
        self.transforms.insert(entity, position);
        proof {
            lemma_set_position_wf(old(self)@, self@, entity, position);
        }
    }

    /// The stored position of `entity`, when one exists.
    pub fn position_of(&self, entity: u64) -> (r: Option<Vec3>)
        ensures
            match r {
                Some(p) => self@.transforms.contains_key(entity) && p == self@.transforms[entity],
                None => !self@.transforms.contains_key(entity),
            },
    {
        match self.transforms.get(&entity) {
            Some(p) => Some(*p),
            None => None,
        }
    }

    /// The stored coordinate of the cell `entity`, when one exists.
    pub fn coordinate_of(&self, entity: u64) -> (r: Option<UVec2>)
        ensures
            match r {
                Some(c) => self@.cells.contains_key(entity) && c == self@.cells[entity].coordinate,
                None => !self@.cells.contains_key(entity),
            },
    {
        match self.cells.get(&entity) {
            Some(c) => Some(c.coordinate),
            None => None,
        }
    }

    /// The grid configuration stored on `entity`, when there is one.
    pub fn grid_config_of(&self, entity: u64) -> (r: Option<Grid>)
        ensures
            match r {
                Some(g) => self@.grids.contains_key(entity) && g == self@.grids[entity],
                None => !self@.grids.contains_key(entity),
            },
    {
        match self.grids.get(&entity) {
            Some(g) => Some(*g),
            None => None,
        }
    }

    /// The attachment of the cell `entity`, when it has one.
    pub fn attached_grid_of(&self, entity: u64) -> (r: Option<AttachedToGrid>)
        ensures
            match r {
                Some(t) => self@.attached_to.contains_key(entity) && t.0
                    == self@.attached_to[entity],
                None => !self@.attached_to.contains_key(entity),
            },
    {
        match self.attached_to.get(&entity) {
            Some(t) => Some(*t),
            None => None,
        }
    }
}

/// One position sync: recomputes the cell's position from its stored
/// coordinate and its grid's configuration and position. Any failed lookup
/// means there is nothing to synchronize and the world is left untouched.
fn apply_position_sync(world: &mut GridWorld, entity: u64)
    requires
        old(world)@.wf(),
    ensures
        final(world)@.wf(),
        final(world)@ == old(world)@.sync_cell(entity),
{
    proof {
        lemma_sync_cell_wf(old(world)@, entity);
    }
    let cell = match world.cells.get(&entity) {
        Some(c) => *c,
        None => { return; },
    };
    let cell_pos = match world.transforms.get(&entity) {
        Some(p) => *p,
        None => { return; },
    };
    let target = match world.attached_to.get(&entity) {
        Some(t) => t.0,
        None => { return; },
    };
    let grid = match world.grids.get(&target) {
        Some(g) => *g,
        None => { return; },
    };
    let grid_pos = match world.transforms.get(&target) {
        Some(p) => *p,
        None => { return; },
    };
    proof {
        assert(old(world)@.grids.contains_key(target));
        assert(!old(world)@.cells.contains_key(target));
        assert(old(world)@.transforms.contains_key(target));
        assert(grid_pos.bounded(HOST_POS_LIMIT as int));
    }
    let offset_vec = grid.get_cell_position(&cell);
    let new_pos = Vec3 {
        x: grid_pos.x + offset_vec.x,
        y: grid_pos.y + offset_vec.y,
        z: cell_pos.z,
    };
    world.transforms.insert(entity, new_pos);
    proof {
        assert(world@ =~= old(world)@.sync_cell(entity));
    }
}

/// A request to recompute one cell's world position from its stored
/// coordinate.
pub struct UpdateCellPosition {
    pub entity: u64,
}

impl UpdateCellPosition {
    /// Performs the position sync for the requested cell.
    pub fn observer(&self, world: &mut GridWorld)
        requires
            old(world)@.wf(),
        ensures
            final(world)@.wf(),
            final(world)@ == old(world)@.sync_cell(self.entity),
    {
        apply_position_sync(world, self.entity);
    }
}


/// An owned copy of a list of entities.
fn copy_ids(v: &Vec<u64>) -> (r: Vec<u64>)
    ensures
        r@ == v@,
{
    let n = v.len();
    let mut r: Vec<u64> = Vec::new();
    let mut i: usize = 0;
    while i < n
        invariant
            i <= n,
            n == v@.len(),
            r@ == v@.take(i as int),
        decreases n - i,
    {
        r.push(v[i]);
        proof {
            assert(v@.take(i as int + 1) =~= v@.take(i as int).push(v@[i as int]));
        }
        i = i + 1;
    }
    proof {
        assert(v@.take(n as int) =~= v@);
    }
    r
}

/// The first index at which `x` occurs in `v`, when it occurs at all.
fn find_first(v: &Vec<u64>, x: u64) -> (r: Option<usize>)
    ensures
        match r {
            Some(j) => j < v@.len() && v@[j as int] == x && (forall|k: int|
                0 <= k < j ==> v@[k] != x),
            None => !v@.contains(x),
        },
{
    let n = v.len();
    let mut i: usize = 0;
    while i < n
        invariant
            i <= n,
            n == v@.len(),
            forall|k: int| 0 <= k < i ==> v@[k] != x,
        decreases n - i,
    {
        if v[i] == x {
            return Some(i);
        }
        i = i + 1;
    }
    None
}

/// Position syncs for every entity of `list`, in order.
fn sync_list(world: &mut GridWorld, list: &Vec<u64>)
    requires
        old(world)@.wf(),
    ensures
        final(world)@.wf(),
        final(world)@ == old(world)@.sync_seq(list@),
{
    let n = list.len();
    let mut i: usize = 0;
    while i < n
        invariant
            i <= n,
            n == list@.len(),
            world@.wf(),
            world@ == old(world)@.sync_seq(list@.take(i as int)),
        decreases n - i,
    {
        let e = list[i];
        apply_position_sync(world, e);
        proof {
            assert(list@.take(i as int + 1).drop_last() =~= list@.take(i as int));
            assert(list@.take(i as int + 1).last() == list@[i as int]);
        }
        i = i + 1;
    }
    proof {
        assert(list@.take(n as int) =~= list@);
    }
}

/// One snap: derive a coordinate for the cell from its current position
/// under the chosen policy; when one comes back, store it and re-sync the
/// cell's position to it (clamping and rounding can have moved it). A
/// failed lookup, or a rejected position, leaves the world untouched.
fn apply_snap(world: &mut GridWorld, entity: u64, round_to_nearest: bool)
    requires
        old(world)@.wf(),
    ensures
        final(world)@.wf(),
        final(world)@ == old(world)@.snap_result(entity, round_to_nearest),
{
    let cell = match world.cells.get(&entity) {
        Some(c) => *c,
        None => { return; },
    };
    let cell_pos = match world.transforms.get(&entity) {
        Some(p) => *p,
        None => { return; },
    };
    let target = match world.attached_to.get(&entity) {
        Some(t) => t.0,
        None => { return; },
    };
    let grid = match world.grids.get(&target) {
        Some(g) => *g,
        None => { return; },
    };
    let grid_pos = match world.transforms.get(&target) {
        Some(p) => *p,
        None => { return; },
    };
    proof {
        assert(old(world)@.grids.contains_key(target));
        assert(!old(world)@.cells.contains_key(target));
        assert(old(world)@.transforms.contains_key(target));
        assert(grid_pos.bounded(HOST_POS_LIMIT as int));
        assert(!old(world)@.grids.contains_key(entity));
    }
    match grid.get_cell_coordinate(&grid_pos, &cell_pos, round_to_nearest) {
        Some(c) => {
            world.cells.insert(entity, GridCell { coordinate: c });
            proof {
                lemma_spawn_cell_wf(old(world)@, world@, entity, GridCell { coordinate: c });
            }
            apply_position_sync(world, entity);
            proof {
                assert(final(world)@ =~= old(world)@.snap_result(entity, round_to_nearest));
            }
        },
        None => {},
    }
}

impl GridWorld {
    /// Attaches the cell `entity` to the grid entity `target`, appending
    /// it to the target's attachment list; an existing attachment is
    /// undone first, so a cell is attached to at most one grid.
    pub fn attach(&mut self, entity: u64, target: u64)
        requires
            old(self)@.wf(),
            old(self)@.cells.contains_key(entity),
        ensures
            final(self)@.wf(),
            final(self)@ == old(self)@.attach_model(entity, target),
    {
        self.detach(entity);
        let ghost d = self@;
        let ac = match self.attached_cells.remove(&target) {
            Some(ac) => ac,
            None => AttachedCells(Vec::new()),
        };
        let mut v = ac.0;
        v.push(entity);
        self.attached_cells.insert(target, AttachedCells(v));
        self.attached_to.insert(entity, AttachedToGrid(target));
        proof {
            lemma_attach_wf(old(self)@, entity, target);
            assert(self@.attached_to =~= d.attached_to.insert(entity, target));
            assert(self@.attached_cells =~= d.attached_cells.insert(
                target,
                old(self)@.attach_model(entity, target).attached_cells[target],
            ));
            assert(self@ =~= old(self)@.attach_model(entity, target));
        }
    }

    /// Detaches the cell `entity` from its grid, removing it from both
    /// sides of the relation; with no attachment nothing changes.
    pub fn detach(&mut self, entity: u64)
        requires
            old(self)@.wf(),
        ensures
            final(self)@.wf(),
            final(self)@ == old(self)@.detach_model(entity),
    {
        proof {
            lemma_detach_wf(old(self)@, entity);
        }
        let target = match self.attached_to.get(&entity) {
            Some(t) => t.0,
            None => { return; },
        };
        self.attached_to.remove(&entity);
        let ac = match self.attached_cells.remove(&target) {
            Some(ac) => ac,
            None => {
                proof {
                    assert(self@ =~= old(self)@.detach_model(entity));
                }
                return;
            },
        };
        let ghost s = ac.0@;
        let mut v = ac.0;
        match find_first(&v, entity) {
            Some(j) => {
                v.remove(j);
                proof {
                    let i_spec = s.index_of(entity);
                    assert(s[i_spec] == entity);
                    if j < i_spec {
                        assert(s[j as int] != s[i_spec]);
                    }
                    if i_spec < j {
                        assert(s[i_spec] != s[j as int]);
                    }
                    assert(j as int == i_spec);
                }
            },
            None => {},
        }
        self.attached_cells.insert(target, AttachedCells(v));
        proof {
            assert(self@.attached_cells =~= old(self)@.detach_model(entity).attached_cells);
            assert(self@ =~= old(self)@.detach_model(entity));
        }
    }

    /// Destroys the cell `entity`: it is detached and its record and
    /// position disappear. Its grid survives.
    pub fn despawn_cell(&mut self, entity: u64)
        requires
            old(self)@.wf(),
        ensures
            final(self)@.wf(),
            final(self)@ == old(self)@.despawn_cell_model(entity),
    {
        self.detach(entity);
        self.cells.remove(&entity);
        self.transforms.remove(&entity);
        proof {
            lemma_despawn_cell_wf(old(self)@, entity);
            assert(self@ =~= old(self)@.despawn_cell_model(entity));
        }
    }

    /// Destroys the grid `entity`: its configuration, position and
    /// attachment list disappear and its cells lose their attachment; the
    /// cells themselves survive and later synchronization requests for
    /// them become no-ops.
    pub fn despawn_grid(&mut self, entity: u64)
        requires
            old(self)@.wf(),
        ensures
            final(self)@.wf(),
            final(self)@ == old(self)@.despawn_grid_model(entity),
    {
        let ghost m0 = old(self)@;
        let members: Vec<u64> = match self.attached_cells.remove(&entity) {
            Some(ac) => ac.0,
            None => Vec::new(),
        };
        proof {
            assert(self@.attached_cells =~= m0.attached_cells.remove(entity));
        }
        let ghost gmembers = members@;
        let n = members.len();
        let mut i: usize = 0;
        while i < n
            invariant
                i <= n,
                n == gmembers.len(),
                members@ == gmembers,
                self@.grids == m0.grids,
                self@.cells == m0.cells,
                self@.transforms == m0.transforms,
                self@.attached_cells == m0.attached_cells.remove(entity),
                self@.attached_to == m0.attached_to.remove_keys(
                    gmembers.take(i as int).to_set(),
                ),
            decreases n - i,
        {
            let c = members[i];
            let ghost pre = self@.attached_to;
            self.attached_to.remove(&c);
            proof {
                let t0 = gmembers.take(i as int);
                let t1 = gmembers.take(i as int + 1);
                assert(t1 =~= t0.push(c));
                assert forall|x: u64| t1.contains(x) implies (t0.contains(x) || x == c) by {
                    let j = choose|j: int| 0 <= j < t1.len() && t1[j] == x;
                    if j < i as int {
                        assert(t0[j] == x);
                    }
                }
                assert forall|x: u64| t0.contains(x) implies t1.contains(x) by {
                    let j = choose|j: int| 0 <= j < t0.len() && t0[j] == x;
                    assert(t1[j] == x);
                }
                assert(t1[i as int] == c);
                assert(t1.contains(c));
                assert(t1.to_set() =~= t0.to_set().insert(c));
                assert(self@.attached_to =~= pre.remove(c));
                assert(pre.remove(c) =~= m0.attached_to.remove_keys(t1.to_set()));
            }
            i = i + 1;
        }
        self.grids.remove(&entity);
        self.transforms.remove(&entity);
        proof {
            assert(gmembers.take(n as int) =~= gmembers);
            lemma_despawn_grid_wf(m0, entity);
            assert(self@ =~= m0.despawn_grid_model(entity));
        }
    }

    /// The entities attached to `target`, in attachment order (empty when
    /// nothing is attached).
    pub fn attached_list(&self, target: u64) -> (r: Vec<u64>)
        ensures
            (if self@.attached_cells.contains_key(target) {
                r@ == self@.attached_cells[target]
            } else {
                r@ == Seq::<u64>::empty()
            }),
    {
        match self.attached_cells.get(&target) {
            Some(ac) => copy_ids(&ac.0),
            None => Vec::new(),
        }
    }
}

impl Grid {
    /// The reaction to grid movement: every grid of `moved_grids` — the
    /// host's list of grids whose position changed since the last pass —
    /// has each cell of its attachment list re-synced, in order.
    pub fn on_changed(world: &mut GridWorld, moved_grids: &Vec<u64>)
        requires
            old(world)@.wf(),
        ensures
            final(world)@.wf(),
            final(world)@ == old(world)@.grids_moved(moved_grids@),
    {
        let n = moved_grids.len();
        let mut i: usize = 0;
        while i < n
            invariant
                i <= n,
                n == moved_grids@.len(),
                world@.wf(),
                world@ == old(world)@.grids_moved(moved_grids@.take(i as int)),
            decreases n - i,
        {
            let g = moved_grids[i];
            let list: Vec<u64> = world.attached_list(g);
            sync_list(world, &list);
            proof {
                assert(moved_grids@.take(i as int + 1).drop_last() =~= moved_grids@.take(
                    i as int,
                ));
                assert(moved_grids@.take(i as int + 1).last() == moved_grids@[i as int]);
            }
            i = i + 1;
        }
        proof {
            assert(moved_grids@.take(n as int) =~= moved_grids@);
        }
    }
}

/// A request to snap one cell to the lattice under the clamping policy:
/// the derived coordinate always exists, out-of-range axes saturating to
/// the nearest valid value.
pub struct SnapCellToGrid {
    pub entity: u64,
}

impl SnapCellToGrid {
    /// Performs the clamping snap for the requested cell.
    pub fn observer(&self, world: &mut GridWorld)
        requires
            old(world)@.wf(),
        ensures
            final(world)@.wf(),
            final(world)@ == old(world)@.snap_result(self.entity, true),
    {
        apply_snap(world, self.entity, true);
    }
}

/// A request to snap one cell to the lattice under the rejecting policy:
/// a position outside the declared bounds produces no coordinate and the
/// cell is left untouched.
pub struct TrySnapCellToGrid {
    pub entity: u64,
}

impl TrySnapCellToGrid {
    /// Performs the rejecting snap for the requested cell.
    pub fn observer(&self, world: &mut GridWorld)
        requires
            old(world)@.wf(),
        ensures
            final(world)@.wf(),
            final(world)@ == old(world)@.snap_result(self.entity, false),
    {
        apply_snap(world, self.entity, false);
    }
}

/// The library's entry point for a host: once per update pass, hand the
/// world and the list of grids whose position changed to `update`.
#[derive(Default)]
pub struct GridPlugin;

impl GridPlugin {
    /// One update pass: every grid of `moved_grids` re-syncs the positions
    /// of its attached cells.
    pub fn update(world: &mut GridWorld, moved_grids: &Vec<u64>)
        requires
            old(world)@.wf(),
        ensures
            final(world)@.wf(),
            final(world)@ == old(world)@.grids_moved(moved_grids@),
    {
        Grid::on_changed(world, moved_grids);
    }
}

} // verus!
