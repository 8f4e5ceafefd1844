//! The autotile classifier: a pure map from a tile's local wall/open
//! neighborhood to the index of the tile art to draw, via an ordered table
//! of neighborhood patterns in which the first match wins.

use crate::tilesim::Simulator;
use crate::utils::TilePos;
use vstd::prelude::*;

verus! {

/// The local neighborhood the classifier reads: a 3-wide, 4-tall window
/// around the tile — one row above it, the tile's own row, and two rows
/// below, since wall tops need deeper lookahead downward. Cells outside the
/// grid read as open.
#[derive(Clone, Copy, Debug, PartialEq, Eq, Structural)]
pub struct Window {
    /// `(x - 1, y + 1)`
    pub ul: bool,
    /// `(x, y + 1)`
    pub up: bool,
    /// `(x + 1, y + 1)`
    pub ur: bool,
    /// `(x - 1, y)`
    pub left: bool,
    /// `(x, y)`
    pub center: bool,
    /// `(x + 1, y)`
    pub right: bool,
    /// `(x - 1, y - 1)`
    pub dl: bool,
    /// `(x, y - 1)`
    pub down: bool,
    /// `(x + 1, y - 1)`
    pub dr: bool,
    /// `(x, y - 2)`
    pub down2: bool,
}

/// The number of patterns in the table.
pub const PATTERN_COUNT: usize = 11;

/// Whether the window matches the `k`-th pattern of the table, in table
/// order: up-facing wall top; upper-left and upper-right wall corners;
/// right- and left-facing wall sides; three depths of down-facing wall
/// faces; solid wall interior; then the two catch-alls, open center and
/// wall center. Patterns overlap, so the table's order carries priority.
pub open spec fn pattern_matches(w: Window, k: int) -> bool {
    if k == 0 {
        !w.up && w.left && w.center && w.right
    } else if k == 1 {
        !w.up && !w.left && w.center && w.right && w.down
    } else if k == 2 {
        !w.up && w.left && w.center && !w.right && w.down
    } else if k == 3 {
        w.up && w.left && w.center && !w.right && w.down
    } else if k == 4 {
        w.up && !w.left && w.center && w.right && w.down
    } else if k == 5 {
        w.up && !w.center
    } else if k == 6 {
        w.up && w.center && !w.down
    } else if k == 7 {
        w.up && w.center && w.down && !w.down2
    } else if k == 8 {
        w.ul && w.up && w.ur && w.left && w.center && w.right && w.dl && w.down && w.dr
    } else if k == 9 {
        !w.center
    } else if k == 10 {
        w.center
    } else {
        false
    }
}

/// The index of the first pattern in table order that the window matches.
pub open spec fn first_match(w: Window) -> int {
    if pattern_matches(w, 0) {
        0
    } else if pattern_matches(w, 1) {
        1
    } else if pattern_matches(w, 2) {
        2
    } else if pattern_matches(w, 3) {
        3
    } else if pattern_matches(w, 4) {
        4
    } else if pattern_matches(w, 5) {
        5
    } else if pattern_matches(w, 6) {
        6
    } else if pattern_matches(w, 7) {
        7
    } else if pattern_matches(w, 8) {
        8
    } else if pattern_matches(w, 9) {
        9
    } else {
        10
    }
}

/// The atlas index the `k`-th pattern yields, given the tile's position
/// hash `v`, which picks a stable art variant where a pattern has several.
pub open spec fn arm_value(k: int, v: int) -> int {
    if k == 0 {
        613 + v % 4
    } else if k == 1 {
        2
    } else if k == 2 {
        7
    } else if k == 3 {
        58 + 51 * (v % 6)
    } else if k == 4 {
        53 + 51 * (v % 6)
    } else if k == 5 {
        562 + v % 4
    } else if k == 6 {
        511 + v % 4
    } else if k == 7 {
        460 + v % 4
    } else if k == 8 {
        54 + v % 4 + 51 * ((v / 4) % 5)
    } else if k == 9 {
        1775 + v % 3 + 51 * ((v / 3) % 3)
    } else {
        208
    }
}

/// A deterministic hash of a tile position, used to pick stable art
/// variants without storing per-tile state.
pub open spec fn pos_hash_spec(p: TilePos) -> u64 {
    (((31 * p.x + 37 * p.y + 1337) as u64) ^ ((7 * p.x + 11 * p.y) as u64))
}

/// Whether `(xi, yi)` is an in-bounds wall cell of the simulator's grid;
/// cells outside the grid read as open.
pub open spec fn probe_spec(sim: Simulator, xi: int, yi: int) -> bool {
    0 <= xi < sim.width && 0 <= yi < sim.width && sim.grid.wall_at(xi, yi)
}

/// The window the classifier reads around `p`.
pub open spec fn window_of(sim: Simulator, p: TilePos) -> Window {
    let x = p.x as int;
    let y = p.y as int;
    Window {
        ul: probe_spec(sim, x - 1, y + 1),
        up: probe_spec(sim, x, y + 1),
        ur: probe_spec(sim, x + 1, y + 1),
        left: probe_spec(sim, x - 1, y),
        center: probe_spec(sim, x, y),
        right: probe_spec(sim, x + 1, y),
        dl: probe_spec(sim, x - 1, y - 1),
        down: probe_spec(sim, x, y - 1),
        dr: probe_spec(sim, x + 1, y - 1),
        down2: probe_spec(sim, x, y - 2),
    }
}

/// What the classifier returns for a tile: the value of the first matching
/// pattern, varied by the position hash.
pub open spec fn atlas_index_spec(sim: Simulator, p: TilePos) -> int {
    arm_value(first_match(window_of(sim, p)), pos_hash_spec(p) as int)
}

/// The pattern table is exhaustive: every possible neighborhood window
/// matches some pattern, because the two final catch-all patterns split on
/// the center cell alone. Feeding the classifier any neighborhood therefore
/// yields a value; a miss is impossible.
pub proof fn lemma_autotile_exhaustive(w: Window)
    ensures
        exists|k: int| 0 <= k < PATTERN_COUNT && #[trigger] pattern_matches(w, k),
{
    if w.center {
        assert(pattern_matches(w, 10));
    } else {
        assert(pattern_matches(w, 9));
    }
}

/// The table's order carries priority: `first_match` picks a pattern that
/// matches, and no earlier pattern matches. Several patterns can match the
/// same window, so reordering the table would change the classifier.
pub proof fn lemma_first_match_is_first(w: Window)
    ensures
        0 <= first_match(w) < PATTERN_COUNT,
        pattern_matches(w, first_match(w)),
        forall|k: int| 0 <= k < first_match(w) ==> !(#[trigger] pattern_matches(w, k)),
{
    lemma_autotile_exhaustive(w);
}

impl Simulator {
    /// Whether `(xi, yi)` is an in-bounds wall cell; out of bounds is open.
    fn probe(&self, xi: i64, yi: i64) -> (r: bool)
        requires
            self.wf(),
        ensures
            r == probe_spec(*self, xi as int, yi as int),
    {
        if 0 <= xi && 0 <= yi && xi < self.width as i64 && yi < self.width as i64 {
            self.grid.is_wall[xi as usize][yi as usize]
        } else {
            false
        }
    }

    /// Reads the classifier's window around `p` from the wall grid.
    fn pattern_window(&self, p: TilePos) -> (w: Window)
        requires
            self.wf(),
            p.fits(),
        ensures
            w == window_of(*self, p),
    {
        let x = p.x as i64;
        let y = p.y as i64;
        Window {
            ul: self.probe(x - 1, y + 1),
            up: self.probe(x, y + 1),
            ur: self.probe(x + 1, y + 1),
            left: self.probe(x - 1, y),
            center: self.probe(x, y),
            right: self.probe(x + 1, y),
            dl: self.probe(x - 1, y - 1),
            down: self.probe(x, y - 1),
            dr: self.probe(x + 1, y - 1),
            down2: self.probe(x, y - 2),
        }
    }
}

/// The position hash: two linear mixes of the coordinates, xor-combined.
pub fn tile_position_rand(tile_position: TilePos) -> (v: u64)
    requires
        tile_position.fits(),
    ensures
        v == pos_hash_spec(tile_position),
{
    let x = tile_position.x as u64;
    let y = tile_position.y as u64;
    (31 * x + 37 * y + 1337) ^ (7 * x + 11 * y)
}

/// Classifies the tile at `tile_position`: scans the pattern table in order
/// against the tile's neighborhood and returns the first matching pattern's
/// atlas index, varied by the position hash. The table's final catch-alls
/// make it exhaustive, so every tile gets an index.
pub fn tile_atlas_index(simulator: &Simulator, tile_position: TilePos) -> (idx: usize)
    requires
        simulator.wf(),
        tile_position.fits(),
    ensures
        idx == atlas_index_spec(*simulator, tile_position),
{
    let w = simulator.pattern_window(tile_position);
    let v = tile_position_rand(tile_position);
    if !w.up && w.left && w.center && w.right {
        (613 + v % 4) as usize
    } else if !w.up && !w.left && w.center && w.right && w.down {
        2
    } else if !w.up && w.left && w.center && !w.right && w.down {
        7
    } else if w.up && w.left && w.center && !w.right && w.down {
        (58 + 51 * (v % 6)) as usize
    } else if w.up && !w.left && w.center && w.right && w.down {
        (53 + 51 * (v % 6)) as usize
    } else if w.up && !w.center {
        (562 + v % 4) as usize
    } else if w.up && w.center && !w.down {
        (511 + v % 4) as usize
    } else if w.up && w.center && w.down && !w.down2 {
        (460 + v % 4) as usize
    } else if w.ul && w.up && w.ur && w.left && w.center && w.right && w.dl && w.down && w.dr {
        (54 + v % 4 + 51 * ((v / 4) % 5)) as usize
    } else if !w.center {
        (1775 + v % 3 + 51 * ((v / 3) % 3)) as usize
    } else {
        208
    }
}

} // verus!
