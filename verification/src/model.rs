//! The mathematical model of a world of grids and cells: which entities
//! carry which records, the attachment relation, and what each
//! synchronization operation does to the world. The executable world in
//! `world` is specified against these transitions.

use crate::geometry::{UVec2, Vec3, HOST_POS_LIMIT, WORLD_POS_LIMIT};
use crate::grid::{lemma_cell_offset_bounded, Grid, GridCell};
use vstd::prelude::*;

verus! {

/// The state of a world: per-entity grid configurations, cell records,
/// world positions, and both sides of the attachment relation. Entities
/// are identified by plain `u64` values handed out by the host.
#[verifier::ext_equal]
pub struct WorldModel {
    pub grids: Map<u64, Grid>,
    pub cells: Map<u64, GridCell>,
    pub transforms: Map<u64, Vec3>,
    pub attached_to: Map<u64, u64>,
    pub attached_cells: Map<u64, Seq<u64>>,
}

/// The list `s` with one occurrence of `e` removed, when `s` holds one.
pub open spec fn seq_remove_one(s: Seq<u64>, e: u64) -> Seq<u64> {
    if s.contains(e) {
        s.remove(s.index_of(e))
    } else {
        s
    }
}

impl WorldModel {
    /// The world with nothing in it.
    pub open spec fn empty() -> WorldModel {
        WorldModel {
            grids: Map::empty(),
            cells: Map::empty(),
            transforms: Map::empty(),
            attached_to: Map::empty(),
            attached_cells: Map::empty(),
        }
    }

    /// Well-formedness, maintained by every operation of the library:
    /// every grid configuration is usable, no entity is both a grid and a
    /// cell, host-written grid positions and all stored positions stay
    /// within their overflow bounds, and the attachment relation is a
    /// consistent bidirectional index (each attached cell appears exactly
    /// once in its grid's list, and every list entry points back).
    pub open spec fn wf(self) -> bool {
        &&& forall|g: u64| #[trigger] self.grids.contains_key(g) ==> self.grids[g].wf()
        &&& forall|g: u64| #[trigger] self.grids.contains_key(g) ==> !self.cells.contains_key(g)
        &&& forall|e: u64| #[trigger]
            self.transforms.contains_key(e) ==> self.transforms[e].bounded(
                WORLD_POS_LIMIT as int,
            )
        &&& forall|e: u64| #[trigger]
            self.transforms.contains_key(e) && !self.cells.contains_key(e)
                ==> self.transforms[e].bounded(HOST_POS_LIMIT as int)
        &&& forall|c: u64| #[trigger] self.attached_to.contains_key(c) ==> {
            let g = self.attached_to[c];
            self.attached_cells.contains_key(g) && self.attached_cells[g].contains(c)
        }
        &&& forall|g: u64, i: int|
            self.attached_cells.contains_key(g) && 0 <= i < self.attached_cells[g].len() ==> {
                let c = #[trigger] self.attached_cells[g][i];
                self.attached_to.contains_key(c) && self.attached_to[c] == g
            }
        &&& forall|g: u64, i: int, j: int|
            self.attached_cells.contains_key(g) && 0 <= i < j < self.attached_cells[g].len()
                ==> #[trigger] self.attached_cells[g][i] != #[trigger] self.attached_cells[g][j]
    }

    /// The position a position sync would write for cell `e`: its grid's
    /// position plus the cell's world offset within the grid, with the
    /// cell's own z preserved. Nothing when any lookup fails — a missing
    /// record means there is nothing to synchronize.
    pub open spec fn sync_target(self, e: u64) -> Option<Vec3> {
        if self.cells.contains_key(e) && self.transforms.contains_key(e)
            && self.attached_to.contains_key(e) {
            let g = self.attached_to[e];
            if self.grids.contains_key(g) && self.transforms.contains_key(g) {
                let grid = self.grids[g];
                let c = self.cells[e].coordinate;
                let gp = self.transforms[g];
                Some(
                    Vec3 {
                        x: (gp.x + grid.cell_offset_x(c.x)) as i64,
                        y: (gp.y + grid.cell_offset_y(c.y)) as i64,
                        z: self.transforms[e].z,
                    },
                )
            } else {
                None
            }
        } else {
            None
        }
    }

    /// One position sync of cell `e`: writes the target position, or
    /// leaves the world unchanged when there is nothing to synchronize.
    pub open spec fn sync_cell(self, e: u64) -> WorldModel {
        match self.sync_target(e) {
            Some(p) => WorldModel { transforms: self.transforms.insert(e, p), ..self },
            None => self,
        }
    }

    /// Position syncs of the cells of `s`, in order.
    pub open spec fn sync_seq(self, s: Seq<u64>) -> WorldModel
        decreases s.len(),
    {
        if s.len() == 0 {
            self
        } else {
            self.sync_seq(s.drop_last()).sync_cell(s.last())
        }
    }

    /// One snap of cell `e`: derive a coordinate from the cell's current
    /// position under the chosen policy; when one comes back, store it and
    /// sync the cell's position to it; otherwise leave the world unchanged.
    pub open spec fn snap_result(self, e: u64, round_to_nearest: bool) -> WorldModel {
        if self.cells.contains_key(e) && self.transforms.contains_key(e)
            && self.attached_to.contains_key(e) {
            let g = self.attached_to[e];
            if self.grids.contains_key(g) && self.transforms.contains_key(g) {
                match self.grids[g].derive_spec(
                    self.transforms[g],
                    self.transforms[e],
                    round_to_nearest,
                ) {
                    Some(c) => (WorldModel {
                        cells: self.cells.insert(e, GridCell { coordinate: c }),
                        ..self
                    }).sync_cell(e),
                    None => self,
                }
            } else {
                self
            }
        } else {
            self
        }
    }

    /// Detaching cell `e`: its attachment entry disappears and it leaves
    /// its grid's list; without an attachment nothing changes.
    pub open spec fn detach_model(self, e: u64) -> WorldModel {
        if self.attached_to.contains_key(e) {
            let g = self.attached_to[e];
            let lists = if self.attached_cells.contains_key(g) {
                self.attached_cells.insert(g, seq_remove_one(self.attached_cells[g], e))
            } else {
                self.attached_cells
            };
            WorldModel { attached_to: self.attached_to.remove(e), attached_cells: lists, ..self }
        } else {
            self
        }
    }

    /// Attaching cell `e` to `g`: any existing attachment is undone first,
    /// then `e` is appended to `g`'s list and its entry set to `g` — both
    /// sides of the relation change together.
    pub open spec fn attach_model(self, e: u64, g: u64) -> WorldModel {
        let d = self.detach_model(e);
        let list = if d.attached_cells.contains_key(g) {
            d.attached_cells[g]
        } else {
            Seq::<u64>::empty()
        };
        WorldModel {
            attached_to: d.attached_to.insert(e, g),
            attached_cells: d.attached_cells.insert(g, list.push(e)),
            ..d
        }
    }

    /// Destroying cell `e`: detach it, then drop its record and position.
    pub open spec fn despawn_cell_model(self, e: u64) -> WorldModel {
        let d = self.detach_model(e);
        WorldModel { cells: d.cells.remove(e), transforms: d.transforms.remove(e), ..d }
    }

    /// Destroying grid `g`: its attached cells lose their attachment (they
    /// are not destroyed themselves), and the grid's configuration,
    /// position and attachment list disappear.
    pub open spec fn despawn_grid_model(self, g: u64) -> WorldModel {
        let members = if self.attached_cells.contains_key(g) {
            self.attached_cells[g]
        } else {
            Seq::<u64>::empty()
        };
        WorldModel {
            grids: self.grids.remove(g),
            transforms: self.transforms.remove(g),
            attached_to: self.attached_to.remove_keys(members.to_set()),
            attached_cells: self.attached_cells.remove(g),
            ..self
        }
    }

    /// The reaction to grid `g` having moved: every cell of its attachment
    /// list gets a position sync, in attachment order.
    pub open spec fn grid_moved(self, g: u64) -> WorldModel {
        if self.attached_cells.contains_key(g) {
            self.sync_seq(self.attached_cells[g])
        } else {
            self
        }
    }

    /// The reactions to the grids of `s` having moved, in order.
    pub open spec fn grids_moved(self, s: Seq<u64>) -> WorldModel
        decreases s.len(),
    {
        if s.len() == 0 {
            self
        } else {
            self.grids_moved(s.drop_last()).grid_moved(s.last())
        }
    }
}

/// A sync target is always within the stored-position bound, and a sync
/// preserves well-formedness.
pub proof fn lemma_sync_cell_wf(m: WorldModel, e: u64)
    requires
        m.wf(),
    ensures
        m.sync_cell(e).wf(),
        m.sync_cell(e).grids == m.grids,
        m.sync_cell(e).cells == m.cells,
        m.sync_cell(e).attached_to == m.attached_to,
        m.sync_cell(e).attached_cells == m.attached_cells,
{
    match m.sync_target(e) {
        Some(p) => {
            let g = m.attached_to[e];
            assert(!m.cells.contains_key(g));
            assert(m.transforms[g].bounded(HOST_POS_LIMIT as int));
            lemma_cell_offset_bounded(m.grids[g], m.cells[e].coordinate);
            assert(p.bounded(WORLD_POS_LIMIT as int));
            let m2 = m.sync_cell(e);
            assert forall|e2: u64| #[trigger]
                m2.transforms.contains_key(e2) && !m2.cells.contains_key(e2)
                implies m2.transforms[e2].bounded(HOST_POS_LIMIT as int) by {
                assert(e2 != e);
            }
        },
        None => {},
    }
}

/// Detaching preserves well-formedness: the cell leaves both sides of the
/// relation at once.
pub proof fn lemma_detach_wf(m: WorldModel, e: u64)
    requires
        m.wf(),
    ensures
        m.detach_model(e).wf(),
{
    if m.attached_to.contains_key(e) {
        let g = m.attached_to[e];
        assert(m.attached_cells.contains_key(g) && m.attached_cells[g].contains(e));
        let s = m.attached_cells[g];
        let i = s.index_of(e);
        assert(0 <= i < s.len() && s[i] == e);
        let s2 = seq_remove_one(s, e);
        assert(s2.len() == s.len() - 1);
        assert(forall|k: int| 0 <= k < i ==> s2[k] == s[k]);
        assert(forall|k: int| i <= k < s2.len() ==> s2[k] == s[k + 1]);
        let m2 = m.detach_model(e);
        assert forall|c: u64| #[trigger] m2.attached_to.contains_key(c) implies {
            let g2 = m2.attached_to[c];
            m2.attached_cells.contains_key(g2) && m2.attached_cells[g2].contains(c)
        } by {
            let g2 = m.attached_to[c];
            assert(m.attached_cells.contains_key(g2) && m.attached_cells[g2].contains(c));
            if g2 == g {
                let j = choose|j: int| 0 <= j < s.len() && s[j] == c;
                assert(s[j] == c);
                if j < i {
                    assert(s2[j] == c);
                } else {
                    assert(s2[j - 1] == c);
                }
                assert(m2.attached_cells[g].contains(c));
            }
        }
        assert forall|g2: u64, k: int|
            m2.attached_cells.contains_key(g2) && 0 <= k < m2.attached_cells[g2].len() implies {
            let c = #[trigger] m2.attached_cells[g2][k];
            m2.attached_to.contains_key(c) && m2.attached_to[c] == g2
        } by {
            if g2 == g {
                let c = s2[k];
                let idx: int = if k < i {
                    k
                } else {
                    k + 1
                };
                assert(s[idx] == c);
                assert(m.attached_to.contains_key(c) && m.attached_to[c] == g);
                if c == e {
                    if idx < i {
                        assert(s[idx] != s[i]);
                    } else {
                        assert(s[i] != s[idx]);
                    }
                    assert(false);
                }
            } else {
                let c = m.attached_cells[g2][k];
                assert(m.attached_to.contains_key(c) && m.attached_to[c] == g2);
            }
        }
        assert forall|g2: u64, k: int, l: int|
            m2.attached_cells.contains_key(g2) && 0 <= k < l < m2.attached_cells[g2].len()
            implies #[trigger] m2.attached_cells[g2][k] != #[trigger] m2.attached_cells[g2][l] by {
            if g2 == g {
                let ik: int = if k < i {
                    k
                } else {
                    k + 1
                };
                let il: int = if l < i {
                    l
                } else {
                    l + 1
                };
                assert(m2.attached_cells[g][k] == s[ik]);
                assert(m2.attached_cells[g][l] == s[il]);
                assert(s[ik] != s[il]);
            }
        }
    }
}

/// A detached cell is attached nowhere: no attachment list of the detached
/// world holds it.
pub proof fn lemma_detached_not_listed(m: WorldModel, e: u64)
    requires
        m.wf(),
    ensures
        !m.detach_model(e).attached_to.contains_key(e),
        forall|g2: u64| #[trigger]
            m.detach_model(e).attached_cells.contains_key(g2) ==> !(m.detach_model(
                e,
            ).attached_cells[g2].contains(e)),
{
    lemma_detach_wf(m, e);
    let d = m.detach_model(e);
    assert forall|g2: u64| #[trigger] d.attached_cells.contains_key(g2)
        implies !(d.attached_cells[g2].contains(e)) by {
        if d.attached_cells[g2].contains(e) {
            let j = choose|j: int| 0 <= j < d.attached_cells[g2].len() && d.attached_cells[g2][j]
                == e;
            assert(d.attached_cells[g2][j] == e);
            assert(d.attached_to.contains_key(e));
        }
    }
}

/// Attaching preserves well-formedness.
pub proof fn lemma_attach_wf(m: WorldModel, e: u64, g: u64)
    requires
        m.wf(),
    ensures
        m.attach_model(e, g).wf(),
{
    lemma_detach_wf(m, e);
    lemma_detached_not_listed(m, e);
    let d = m.detach_model(e);
    let list = if d.attached_cells.contains_key(g) {
        d.attached_cells[g]
    } else {
        Seq::<u64>::empty()
    };
    let m2 = m.attach_model(e, g);
    assert(!list.contains(e));
    assert forall|c: u64| #[trigger] m2.attached_to.contains_key(c) implies {
        let g2 = m2.attached_to[c];
        m2.attached_cells.contains_key(g2) && m2.attached_cells[g2].contains(c)
    } by {
        if c == e {
            assert(m2.attached_cells[g][list.len() as int] == e);
            assert(m2.attached_cells[g].contains(e));
        } else {
            let g2 = d.attached_to[c];
            assert(d.attached_cells.contains_key(g2) && d.attached_cells[g2].contains(c));
            if g2 == g {
                let j = choose|j: int| 0 <= j < d.attached_cells[g].len() && d.attached_cells[g][j]
                    == c;
                assert(m2.attached_cells[g][j] == c);
                assert(m2.attached_cells[g].contains(c));
            }
        }
    }
    assert forall|g2: u64, k: int|
        m2.attached_cells.contains_key(g2) && 0 <= k < m2.attached_cells[g2].len() implies {
        let c = #[trigger] m2.attached_cells[g2][k];
        m2.attached_to.contains_key(c) && m2.attached_to[c] == g2
    } by {
        if g2 == g {
            let c = m2.attached_cells[g][k];
            if k < list.len() {
                assert(c == list[k]);
                assert(d.attached_cells.contains_key(g));
                assert(d.attached_to.contains_key(c) && d.attached_to[c] == g);
                assert(c != e);
            } else {
                assert(c == e);
            }
        } else {
            let c = d.attached_cells[g2][k];
            assert(d.attached_to.contains_key(c) && d.attached_to[c] == g2);
            assert(c != e);
        }
    }
    assert forall|g2: u64, k: int, l: int|
        m2.attached_cells.contains_key(g2) && 0 <= k < l < m2.attached_cells[g2].len()
        implies #[trigger] m2.attached_cells[g2][k] != #[trigger] m2.attached_cells[g2][l] by {
        if g2 == g {
            if l == list.len() {
                assert(m2.attached_cells[g][l] == e);
                assert(m2.attached_cells[g][k] == list[k]);
                assert(!list.contains(e));
                if list[k] == e {
                    assert(list.contains(e));
                }
            }
        }
    }
}

/// Destroying a cell preserves well-formedness.
pub proof fn lemma_despawn_cell_wf(m: WorldModel, e: u64)
    requires
        m.wf(),
    ensures
        m.despawn_cell_model(e).wf(),
{
    lemma_detach_wf(m, e);
    let d = m.detach_model(e);
    let m2 = m.despawn_cell_model(e);
    assert forall|e2: u64| #[trigger]
        m2.transforms.contains_key(e2) && !m2.cells.contains_key(e2)
        implies m2.transforms[e2].bounded(HOST_POS_LIMIT as int) by {
        assert(e2 != e);
        assert(d.transforms.contains_key(e2) && !d.cells.contains_key(e2));
    }
}

/// Destroying a grid preserves well-formedness: its cells survive with
/// their attachments cleared.
pub proof fn lemma_despawn_grid_wf(m: WorldModel, g: u64)
    requires
        m.wf(),
    ensures
        m.despawn_grid_model(g).wf(),
{
    let members = if m.attached_cells.contains_key(g) {
        m.attached_cells[g]
    } else {
        Seq::<u64>::empty()
    };
    let m2 = m.despawn_grid_model(g);
    assert forall|c: u64| #[trigger] m2.attached_to.contains_key(c) implies {
        let g2 = m2.attached_to[c];
        m2.attached_cells.contains_key(g2) && m2.attached_cells[g2].contains(c)
    } by {
        let g2 = m.attached_to[c];
        assert(m.attached_cells.contains_key(g2) && m.attached_cells[g2].contains(c));
        assert(!members.contains(c));
        if g2 == g {
            assert(members.contains(c));
        }
    }
    assert forall|g2: u64, k: int|
        m2.attached_cells.contains_key(g2) && 0 <= k < m2.attached_cells[g2].len() implies {
        let c = #[trigger] m2.attached_cells[g2][k];
        m2.attached_to.contains_key(c) && m2.attached_to[c] == g2
    } by {
        let c = m.attached_cells[g2][k];
        assert(m.attached_to.contains_key(c) && m.attached_to[c] == g2);
        if members.contains(c) {
            let j = choose|j: int| 0 <= j < members.len() && members[j] == c;
            assert(m.attached_cells[g][j] == c);
            assert(m.attached_to[c] == g);
        }
        assert(!members.to_set().contains(c));
    }
}

/// Creating a well-formed grid on an entity that is no cell preserves
/// well-formedness (`m2` is `m` after the creation).
pub proof fn lemma_spawn_grid_wf(m: WorldModel, m2: WorldModel, e: u64, grid: Grid)
    requires
        m.wf(),
        grid.wf(),
        !m.cells.contains_key(e),
        m2.grids == m.grids.insert(e, grid),
        m2.cells == m.cells,
        m2.attached_to == m.attached_to,
        m2.attached_cells == (if m.attached_cells.contains_key(e) {
            m.attached_cells
        } else {
            m.attached_cells.insert(e, Seq::<u64>::empty())
        }),
        m2.transforms == (if m.transforms.contains_key(e) {
            m.transforms
        } else {
            m.transforms.insert(e, Vec3 { x: 0, y: 0, z: 0 })
        }),
    ensures
        m2.wf(),
{
    assert forall|c: u64| #[trigger] m2.attached_to.contains_key(c) implies {
        let g = m2.attached_to[c];
        m2.attached_cells.contains_key(g) && m2.attached_cells[g].contains(c)
    } by {
        let g = m.attached_to[c];
        assert(m.attached_cells.contains_key(g) && m.attached_cells[g].contains(c));
        assert(m2.attached_cells[g] == m.attached_cells[g]);
    }
}

/// Creating a cell on an entity that is no grid preserves well-formedness
/// (`m2` is `m` after the creation).
pub proof fn lemma_spawn_cell_wf(m: WorldModel, m2: WorldModel, e: u64, cell: GridCell)
    requires
        m.wf(),
        !m.grids.contains_key(e),
        m2.cells == m.cells.insert(e, cell),
        m2.grids == m.grids,
        m2.attached_to == m.attached_to,
        m2.attached_cells == m.attached_cells,
        m2.transforms == (if m.transforms.contains_key(e) {
            m.transforms
        } else {
            m.transforms.insert(e, Vec3 { x: 0, y: 0, z: 0 })
        }),
    ensures
        m2.wf(),
{
}

/// A host write of a bounded position preserves well-formedness (`m2` is
/// `m` after the write).
pub proof fn lemma_set_position_wf(m: WorldModel, m2: WorldModel, e: u64, p: Vec3)
    requires
        m.wf(),
        p.bounded(HOST_POS_LIMIT as int),
        m2.transforms == m.transforms.insert(e, p),
        m2.grids == m.grids,
        m2.cells == m.cells,
        m2.attached_to == m.attached_to,
        m2.attached_cells == m.attached_cells,
    ensures
        m2.wf(),
{
    assert(HOST_POS_LIMIT < WORLD_POS_LIMIT);
}

/// Idempotence of position sync: syncing a cell twice in succession, with no
/// intervening change, writes the same position both times and leaves the
/// same world as syncing it once.
pub proof fn lemma_sync_idempotent(m: WorldModel, e: u64)
    requires
        m.wf(),
    ensures
        m.sync_cell(e).sync_cell(e) == m.sync_cell(e),
{
    match m.sync_target(e) {
        Some(p) => {
            let m2 = m.sync_cell(e);
            let g = m.attached_to[e];
            assert(g != e);
            assert(m2.sync_target(e) == Some(p));
            assert(m2.sync_cell(e).transforms =~= m2.transforms);
            assert(m2.sync_cell(e) =~= m2);
        },
        None => {},
    }
}

/// Orphan no-op: for a cell with no attachment, a position sync and a snap
/// under either policy leave the world exactly as it was.
pub proof fn lemma_orphan_noop(m: WorldModel, e: u64, round_to_nearest: bool)
    requires
        !m.attached_to.contains_key(e),
    ensures
        m.sync_cell(e) == m,
        m.snap_result(e, round_to_nearest) == m,
{
}

/// Propagation of a grid move: after grid `g` moves from its old position to
/// `p2`, the position sync of an attached cell `e` writes a position shifted
/// by exactly the grid's own displacement on x and y, with z unchanged.
pub proof fn lemma_grid_move_shifts_cell(m: WorldModel, g: u64, p2: Vec3, e: u64)
    requires
        m.wf(),
        m.grids.contains_key(g),
        m.transforms.contains_key(g),
        m.cells.contains_key(e),
        m.transforms.contains_key(e),
        m.attached_to.contains_key(e),
        m.attached_to[e] == g,
        p2.bounded(HOST_POS_LIMIT as int),
    ensures
        ({
            let moved = WorldModel { transforms: m.transforms.insert(g, p2), ..m };
            let before = m.sync_cell(e).transforms[e];
            let after = moved.sync_cell(e).transforms[e];
            &&& after.x - before.x == p2.x - m.transforms[g].x
            &&& after.y - before.y == p2.y - m.transforms[g].y
            &&& after.z == before.z
        }),
{
    let moved = WorldModel { transforms: m.transforms.insert(g, p2), ..m };
    assert(g != e);
    lemma_cell_offset_bounded(m.grids[g], m.cells[e].coordinate);
    assert(!m.cells.contains_key(g));
    assert(m.transforms[g].bounded(HOST_POS_LIMIT as int));
    assert(m.transforms[e].bounded(WORLD_POS_LIMIT as int));
    assert(m.sync_target(e) is Some);
    assert(moved.sync_target(e) is Some);
}

} // verus!
