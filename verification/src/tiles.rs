//! The persistent grid state: wall flags, light levels, campfires, structure
//! placements, the reality bubble, and renderer bookkeeping.

use crate::structures::StructureType;
use crate::utils::{all_fit, TilePos, MAP_RADIUS};
use vstd::prelude::*;

verus! {

/// A square matrix of side `width`, stored row by row.
pub open spec fn matrix_wf<T>(m: Seq<Vec<T>>, width: int) -> bool {
    &&& m.len() == width
    &&& forall|i: int| 0 <= i < width ==> (#[trigger] m[i])@.len() == width
}

/// A square matrix of side `width` as a pure sequence of sequences.
pub open spec fn seq_matrix_wf(g: Seq<Seq<bool>>, width: int) -> bool {
    &&& g.len() == width
    &&& forall|i: int| 0 <= i < width ==> (#[trigger] g[i]).len() == width
}

/// The purely mathematical value of a boolean matrix.
pub open spec fn grid_seq(v: Vec<Vec<bool>>) -> Seq<Seq<bool>> {
    Seq::new(v@.len(), |i: int| v@[i]@)
}

/// The grid state of the world. It is owned and mutated by the simulator;
/// renderers only read it between ticks.
#[derive(Clone, Debug)]
pub struct TileManager {
    /// `true` is a wall, `false` is open floor.
    pub is_wall: Vec<Vec<bool>>,
    /// Light level per tile, in fixed point from 0 (dark) to `LIGHT_ONE`.
    pub lightmap: Vec<Vec<u32>>,
    /// Tiles currently materialized as visual entities (renderer bookkeeping,
    /// not simulation truth).
    pub spawned_tiles: Vec<Vec<bool>>,
    /// Tiles the player has manually ignited; never removed automatically.
    pub campfires: Vec<TilePos>,
    /// Structure placements with their kinds; positions never move once
    /// chosen, and no position appears twice.
    pub structures: Vec<(TilePos, StructureType)>,
    /// Tiles the simulation currently remembers; grown at reveal time and
    /// shrunk only by the forgetting pass.
    pub reality_bubble: Vec<Vec<bool>>,
}

/// Full light in the fixed-point scale of `lightmap`.
pub const LIGHT_ONE: u32 = 1024;

impl TileManager {
    /// All four matrices are `width` by `width`, campfire and structure
    /// coordinates fit the 32-bit range, structure positions lie on the grid
    /// and are pairwise distinct.
    pub open spec fn wf(&self, width: int) -> bool {
        &&& matrix_wf(self.is_wall@, width)
        &&& matrix_wf(self.lightmap@, width)
        &&& matrix_wf(self.spawned_tiles@, width)
        &&& matrix_wf(self.reality_bubble@, width)
        &&& all_fit(self.campfires@)
        &&& forall|k1: int, k2: int|
            0 <= k1 < k2 < self.campfires@.len() ==> self.campfires@[k1] != self.campfires@[k2]
        &&& forall|k: int|
            0 <= k < self.structures@.len() ==> {
                &&& (#[trigger] self.structures@[k]).0.fits()
                &&& self.structures@[k].0.x < width
                &&& self.structures@[k].0.y < width
            }
        &&& forall|k1: int, k2: int|
            0 <= k1 < k2 < self.structures@.len() ==> self.structures@[k1].0
                != self.structures@[k2].0
    }

    pub open spec fn wall_at(&self, i: int, j: int) -> bool {
        self.is_wall@[i]@[j]
    }

    pub open spec fn bubble_at(&self, i: int, j: int) -> bool {
        self.reality_bubble@[i]@[j]
    }

    pub open spec fn spawned_at(&self, i: int, j: int) -> bool {
        self.spawned_tiles@[i]@[j]
    }

    pub open spec fn light_at(&self, i: int, j: int) -> int {
        self.lightmap@[i]@[j] as int
    }

    pub open spec fn has_campfire(&self, p: TilePos) -> bool {
        self.campfires@.contains(p)
    }

    pub open spec fn has_structure_at(&self, p: TilePos) -> bool {
        exists|k: int| 0 <= k < self.structures@.len() && (#[trigger] self.structures@[k]).0 == p
    }

    /// A fresh, fully dark, fully open, fully forgotten grid.
    pub fn new(width: usize) -> (tm: TileManager)
        ensures
            tm.wf(width as int),
            forall|i: int, j: int| 0 <= i < width && 0 <= j < width ==> !tm.wall_at(i, j),
            forall|i: int, j: int| 0 <= i < width && 0 <= j < width ==> !tm.bubble_at(i, j),
            forall|i: int, j: int| 0 <= i < width && 0 <= j < width ==> !tm.spawned_at(i, j),
            forall|i: int, j: int| 0 <= i < width && 0 <= j < width ==> tm.light_at(i, j) == 0,
            tm.campfires@.len() == 0,
            tm.structures@.len() == 0,
    {
        TileManager {
            is_wall: filled_matrix(width, false),
            lightmap: filled_matrix(width, 0u32),
            spawned_tiles: filled_matrix(width, false),
            campfires: Vec::new(),
            structures: Vec::new(),
            reality_bubble: filled_matrix(width, false),
        }
    }
}

impl Default for TileManager {
    /// The default grid spans the default world: a square of side
    /// `2 * MAP_RADIUS`.
    fn default() -> (tm: TileManager)
        ensures
            tm.wf(2 * MAP_RADIUS),
            forall|i: int, j: int|
                0 <= i < 2 * MAP_RADIUS && 0 <= j < 2 * MAP_RADIUS ==> !tm.wall_at(i, j),
            forall|i: int, j: int|
                0 <= i < 2 * MAP_RADIUS && 0 <= j < 2 * MAP_RADIUS ==> !tm.bubble_at(i, j),
            forall|i: int, j: int|
                0 <= i < 2 * MAP_RADIUS && 0 <= j < 2 * MAP_RADIUS ==> !tm.spawned_at(i, j),
            forall|i: int, j: int|
                0 <= i < 2 * MAP_RADIUS && 0 <= j < 2 * MAP_RADIUS ==> tm.light_at(i, j) == 0,
            tm.campfires@.len() == 0,
            tm.structures@.len() == 0,
    {
        TileManager::new(MAP_RADIUS * 2)
    }
}

/// A row of `width` copies of `v`.
fn filled_row<T: Copy>(width: usize, v: T) -> (row: Vec<T>)
    ensures
        row@.len() == width,
        forall|j: int| 0 <= j < width ==> row@[j] == v,
{
    let mut row: Vec<T> = Vec::new();
    let mut j: usize = 0;
    while j < width
        invariant
            j <= width,
            row@.len() == j,
            forall|k: int| 0 <= k < j ==> row@[k] == v,
        decreases width - j,
    {
        row.push(v);
        j = j + 1;
    }
    row
}

/// A `width` by `width` matrix of copies of `v`.
fn filled_matrix<T: Copy>(width: usize, v: T) -> (m: Vec<Vec<T>>)
    ensures
        matrix_wf(m@, width as int),
        forall|i: int, j: int| 0 <= i < width && 0 <= j < width ==> m@[i]@[j] == v,
{
    let mut m: Vec<Vec<T>> = Vec::new();
    let mut i: usize = 0;
    while i < width
        invariant
            i <= width,
            m@.len() == i,
            forall|k: int| 0 <= k < i ==> (#[trigger] m@[k])@.len() == width,
            forall|k: int, j: int| 0 <= k < i && 0 <= j < width ==> m@[k]@[j] == v,
        decreases width - i,
    {
        m.push(filled_row(width, v));
        i = i + 1;
    }
    m
}

} // verus!
