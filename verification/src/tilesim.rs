//! The world simulator: initializes the grid, steps the cellular automaton
//! inside the reality band around the player each tick, protects cells near
//! campfires and structures, and stochastically forgets far cells back to
//! freshly re-rolled terrain.

use crate::decay::{survival_factor, survival_factor_ok, FIX_ONE};
use crate::rng::rand_below;
use crate::structures::{decide_structure_type, is_flavor_or_altar, StructureType};
use crate::tiles::{grid_seq, matrix_wf, seq_matrix_wf, TileManager, LIGHT_ONE};
use crate::utils::{dist2, dist2i, dist2_spec, poisson_disk_sample, radius2, TilePos, COORD_MAX};
use vstd::prelude::*;

verus! {

/// World generation failed in a way the tuning parameters are responsible
/// for; the world is not usable and must be rebuilt with other parameters.
#[derive(Clone, Copy, Debug, PartialEq, Eq, Structural, Hash)]
pub enum WorldGenError {
    /// Poisson-disk sampling could not place the requested number of
    /// structures at the requested spacing.
    SamplingExhausted,
}

/// The world simulator. It owns the grid; everything else reads the grid
/// between ticks and feeds `step` a player tile position.
pub struct Simulator {
    /// Side length of the square grid.
    pub width: usize,
    /// `(k, b)` of the automaton: at most `k` wall neighbors opens a cell, at
    /// least `b` walls it, anything between leaves it alone.
    pub ca_params: (usize, usize),
    /// `(inner, outer)` world-generation radii around the world center:
    /// closer than `inner` is always open, farther than `outer` always wall.
    pub radii: (usize, usize),
    /// `(e, w)` weights of the generation coin: a re-rolled cell between the
    /// radii is a wall with probability `w / (e + w)`.
    pub weights: (usize, usize),
    /// Cells closer than this to a campfire can never be forgotten.
    pub campfire_radius: usize,
    /// `(inner, outer)` reality radii around the player: the automaton runs
    /// in the band between them, and cells are revealed below the outer one.
    pub reality_params: (usize, usize),
    /// After this many ticks of continuous eligibility a far cell has had
    /// about an even chance of being forgotten.
    pub half_life: usize,
    /// Per-tick forgetting probability in 32-bit fixed point, derived from
    /// `half_life`.
    pub forget_threshold: u64,
    /// How many structures world generation places.
    pub n_structures: usize,
    /// Minimum pairwise distance between placed structures.
    pub structure_dist: usize,
    /// Cells within this distance of a structure are cleared at generation
    /// and frozen thereafter.
    pub structure_radius: usize,
    /// The placement that reveals as the boss altar; designated by
    /// `post_init`.
    pub boss_room: Option<TilePos>,
    /// The grid state.
    pub grid: TileManager,
}

impl Simulator {
    /// All tuning parameters fit the 32-bit coordinate range, the weight coin
    /// has at least one side, the forgetting threshold matches the half-life,
    /// the grid is a well-formed `width` square, a placed structure implies a
    /// designated boss room, and only the boss room can hold the boss altar.
    pub open spec fn wf(&self) -> bool {
        &&& self.width <= COORD_MAX
        &&& self.ca_params.0 <= COORD_MAX && self.ca_params.1 <= COORD_MAX
        &&& self.radii.0 <= self.radii.1 <= COORD_MAX
        &&& self.weights.0 <= COORD_MAX && self.weights.1 <= COORD_MAX
        &&& self.weights.0 + self.weights.1 >= 1
        &&& self.campfire_radius <= COORD_MAX
        &&& self.reality_params.0 <= COORD_MAX && self.reality_params.1 <= COORD_MAX
        &&& self.half_life <= COORD_MAX
        &&& self.n_structures <= COORD_MAX
        &&& self.structure_dist <= COORD_MAX
        &&& self.structure_radius <= COORD_MAX
        &&& self.forget_threshold <= FIX_ONE
        &&& survival_factor_ok(FIX_ONE - self.forget_threshold, self.half_life as nat)
        &&& self.grid.wf(self.width as int)
        &&& (self.boss_room matches Some(b) ==> b.fits() && self.grid.has_structure_at(b))
        &&& (self.grid.structures@.len() > 0 ==> self.boss_room is Some)
        &&& forall|k: int|
            0 <= k < self.grid.structures@.len() ==> ((#[trigger] self.grid.structures@[k]).1
                is BossAltar ==> Some(self.grid.structures@[k].0) == self.boss_room)
    }

    /// The center of the world, around which initial terrain is rolled.
    pub open spec fn world_center_spec(&self) -> TilePos {
        TilePos { x: self.width / 2, y: self.width / 2 }
    }

    /// The cell lies within the campfire radius of some campfire: it can
    /// never be forgotten.
    pub open spec fn cannot_forget_at(&self, x: int, y: int) -> bool {
        exists|k: int|
            0 <= k < self.grid.campfires@.len() && dist2i(
                (#[trigger] self.grid.campfires@[k]).x as int,
                self.grid.campfires@[k].y as int,
                x,
                y,
            ) < (self.campfire_radius as int) * (self.campfire_radius as int)
    }

    /// The cell lies within the structure radius of some structure.
    pub open spec fn structure_near_at(&self, x: int, y: int) -> bool {
        exists|k: int|
            0 <= k < self.grid.structures@.len() && dist2i(
                (#[trigger] self.grid.structures@[k]).0.x as int,
                self.grid.structures@[k].0.y as int,
                x,
                y,
            ) <= (self.structure_radius as int) * (self.structure_radius as int)
    }

    /// Protected cells are frozen: the automaton never toggles them and
    /// forgetting never re-rolls them.
    pub open spec fn protected_at(&self, x: int, y: int) -> bool {
        self.cannot_forget_at(x, y) || self.structure_near_at(x, y)
    }

    /// Squared inner reality radius: the automaton band starts here.
    pub open spec fn band_lo(&self) -> int {
        (self.reality_params.0 as int) * (self.reality_params.0 as int)
    }

    /// Squared outer reality radius: reveal below it, forget beyond it.
    pub open spec fn band_hi(&self) -> int {
        (self.reality_params.1 as int) * (self.reality_params.1 as int)
    }

    /// Squared inner generation radius: the guaranteed clearing.
    pub open spec fn gen_lo(&self) -> int {
        (self.radii.0 as int) * (self.radii.0 as int)
    }

    /// Squared outer generation radius: the guaranteed wall border.
    pub open spec fn gen_hi(&self) -> int {
        (self.radii.1 as int) * (self.radii.1 as int)
    }

    pub fn world_center(&self) -> (c: TilePos)
        ensures
            c == self.world_center_spec(),
    {
        TilePos { x: self.width / 2, y: self.width / 2 }
    }

    /// Whether the cell is within the campfire radius of any campfire.
    fn cannot_forget(&self, loc: TilePos) -> (r: bool)
        requires
            self.wf(),
            loc.fits(),
        ensures
            r == self.cannot_forget_at(loc.x as int, loc.y as int),
    {
        let bound = radius2(self.campfire_radius);
        let mut k: usize = 0;
        while k < self.grid.campfires.len()
            invariant
                self.wf(),
                loc.fits(),
                k <= self.grid.campfires@.len(),
                bound == (self.campfire_radius as int) * (self.campfire_radius as int),
                forall|i: int|
                    0 <= i < k ==> dist2_spec(#[trigger] self.grid.campfires@[i], loc) >= (
                    self.campfire_radius as int) * (self.campfire_radius as int),
            decreases self.grid.campfires@.len() - k,
        {
            if dist2(self.grid.campfires[k], loc) < bound {
                return true;
            }
            k = k + 1;
        }
        false
    }

    /// Whether the cell is protected by a campfire or a nearby structure.
    fn protected(&self, loc: TilePos) -> (r: bool)
        requires
            self.wf(),
            loc.fits(),
        ensures
            r == self.protected_at(loc.x as int, loc.y as int),
    {
        if self.cannot_forget(loc) {
            return true;
        }
        self.structure_near(loc)
    }

    /// Whether the cell is within the structure radius of any structure.
    fn structure_near(&self, loc: TilePos) -> (r: bool)
        requires
            self.wf(),
            loc.fits(),
        ensures
            r == self.structure_near_at(loc.x as int, loc.y as int),
    {
        let bound = radius2(self.structure_radius);
        let mut k: usize = 0;
        while k < self.grid.structures.len()
            invariant
                self.wf(),
                loc.fits(),
                k <= self.grid.structures@.len(),
                bound == (self.structure_radius as int) * (self.structure_radius as int),
                forall|i: int|
                    0 <= i < k ==> dist2_spec((#[trigger] self.grid.structures@[i]).0, loc) > (
                    self.structure_radius as int) * (self.structure_radius as int),
            decreases self.grid.structures@.len() - k,
        {
            if dist2(self.grid.structures[k].0, loc) <= bound {
                return true;
            }
            k = k + 1;
        }
        false
    }

    /// Re-rolls a cell from scratch: deterministically open near the world
    /// center, deterministically wall beyond the outer radius, and a weighted
    /// coin in between.
    pub fn calc_new_cell(&self, loc: TilePos) -> (w: bool)
        requires
            self.wf(),
            loc.fits(),
        ensures
            dist2_spec(loc, self.world_center_spec()) < (self.radii.0 as int) * (
            self.radii.0 as int) ==> !w,
            dist2_spec(loc, self.world_center_spec()) > (self.radii.1 as int) * (
            self.radii.1 as int) ==> w,
    {
        proof {
            assert((self.radii.0 as int) * (self.radii.0 as int) <= (self.radii.1 as int) * (
            self.radii.1 as int)) by (nonlinear_arith)
                requires
                    0 <= self.radii.0 <= self.radii.1,
            ;
        }
        let d2 = dist2(loc, self.world_center());
        if d2 < radius2(self.radii.0) {
            return false;
        }
        if d2 > radius2(self.radii.1) {
            return true;
        }
        let (e, w) = self.weights;
        rand_below((e as u64) + (w as u64)) < (w as u64)
    }

    /// A fresh simulator over an all-open, all-forgotten grid. World
    /// generation happens separately in `post_init`.
    pub fn new(
        width: usize,
        ca_params: (usize, usize),
        radii: (usize, usize),
        weights: (usize, usize),
        campfire_radius: usize,
        reality_params: (usize, usize),
        half_life: usize,
        n_structures: usize,
        structure_dist: usize,
        structure_radius: usize,
    ) -> (sim: Simulator)
        requires
            width <= COORD_MAX,
            ca_params.0 <= COORD_MAX && ca_params.1 <= COORD_MAX,
            radii.0 <= radii.1 <= COORD_MAX,
            weights.0 <= COORD_MAX && weights.1 <= COORD_MAX,
            weights.0 + weights.1 >= 1,
            campfire_radius <= COORD_MAX,
            reality_params.0 <= COORD_MAX && reality_params.1 <= COORD_MAX,
            half_life <= COORD_MAX,
            n_structures <= COORD_MAX,
            structure_dist <= COORD_MAX,
            structure_radius <= COORD_MAX,
        ensures
            sim.wf(),
            sim.width == width,
            sim.ca_params == ca_params,
            sim.radii == radii,
            sim.weights == weights,
            sim.campfire_radius == campfire_radius,
            sim.reality_params == reality_params,
            sim.half_life == half_life,
            sim.n_structures == n_structures,
            sim.structure_dist == structure_dist,
            sim.structure_radius == structure_radius,
            sim.boss_room is None,
            forall|i: int, j: int|
                0 <= i < width && 0 <= j < width ==> !sim.grid.wall_at(i, j) && !sim.grid.bubble_at(
                    i,
                    j,
                ),
            forall|i: int, j: int|
                0 <= i < width && 0 <= j < width ==> !sim.grid.spawned_at(i, j)
                    && sim.grid.light_at(i, j) == 0,
            sim.grid.campfires@.len() == 0,
            sim.grid.structures@.len() == 0,
    {
        let t = survival_factor(half_life);
        Simulator {
            width,
            ca_params,
            radii,
            weights,
            campfire_radius,
            reality_params,
            half_life,
            forget_threshold: FIX_ONE - t,
            n_structures,
            structure_dist,
            structure_radius,
            boss_room: None,
            grid: TileManager::new(width),
        }
    }

    /// One-time world generation, called exactly once after construction and
    /// before any `step`. Rolls every cell from scratch around the world
    /// center, places structures by Poisson-disk sampling over the open cells
    /// outside the clearing, designates the first placement as the boss
    /// room, and clears the ground around every structure. Fails only when
    /// the sampler cannot place the requested structures at the requested
    /// spacing, which is a configuration error.
    #[verifier::loop_isolation(false)]
    #[verifier::rlimit(100)]
    pub fn post_init(&mut self) -> (r: Result<(), WorldGenError>)
        requires
            old(self).wf(),
            old(self).grid.structures@.len() == 0,
            old(self).boss_room is None,
        ensures
            final(self).wf(),
            (*final(self) == Simulator {
                boss_room: final(self).boss_room,
                grid: final(self).grid,
                ..*old(self)
            }),
            (final(self).grid == TileManager {
                is_wall: final(self).grid.is_wall,
                structures: final(self).grid.structures,
                ..old(self).grid
            }),
            forall|a: int, b: int|
                #![all_triggers]
                0 <= a < old(self).width && 0 <= b < old(self).width && dist2i(
                    a,
                    b,
                    old(self).world_center_spec().x as int,
                    old(self).world_center_spec().y as int,
                ) < old(self).gen_lo() ==> !final(self).grid.wall_at(a, b),
            forall|a: int, b: int|
                #![all_triggers]
                0 <= a < old(self).width && 0 <= b < old(self).width
                    && final(self).structure_near_at(a, b) ==> !final(self).grid.wall_at(a, b),
            forall|a: int, b: int|
                #![all_triggers]
                0 <= a < old(self).width && 0 <= b < old(self).width && dist2i(
                    a,
                    b,
                    old(self).world_center_spec().x as int,
                    old(self).world_center_spec().y as int,
                ) > old(self).gen_hi() && !final(self).structure_near_at(a, b)
                    ==> final(self).grid.wall_at(a, b),
            forall|k: int|
                0 <= k < final(self).grid.structures@.len() ==> {
                    let e = #[trigger] final(self).grid.structures@[k];
                    &&& e.1 is Unspawned
                    &&& 1 <= e.0.x < old(self).width
                    &&& 1 <= e.0.y < old(self).width
                    &&& dist2i(
                        e.0.x as int,
                        e.0.y as int,
                        old(self).world_center_spec().x as int,
                        old(self).world_center_spec().y as int,
                    ) > old(self).gen_lo()
                    &&& dist2i(
                        e.0.x as int,
                        e.0.y as int,
                        old(self).world_center_spec().x as int,
                        old(self).world_center_spec().y as int,
                    ) <= old(self).gen_hi()
                    &&& !final(self).grid.wall_at(e.0.x as int, e.0.y as int)
                },
            forall|k1: int, k2: int|
                #![all_triggers]
                0 <= k1 < final(self).grid.structures@.len()
                    && 0 <= k2 < final(self).grid.structures@.len() && k1 != k2 ==> dist2_spec(
                    final(self).grid.structures@[k1].0,
                    final(self).grid.structures@[k2].0,
                ) >= (old(self).structure_dist as int) * (old(self).structure_dist as int),
            old(self).n_structures == 0 ==> r is Ok,
            r is Ok ==> final(self).grid.structures@.len() <= old(self).n_structures,
            r is Ok && old(self).n_structures > 0 ==> final(self).grid.structures@.len() > 0
                && final(self).boss_room == Some(final(self).grid.structures@[0].0),
            r is Ok && old(self).structure_dist >= 1 ==> final(self).grid.structures@.len()
                == old(self).n_structures,
            r is Err ==> final(self).grid.structures@.len() == 0 && final(self).boss_room is None,
    {
        let ghost o = *old(self);
        let width = self.width;
        // Roll every cell from scratch.
        let mut i: usize = 0;
        while i < width
            invariant
                i <= width,
                self.wf(),
                (*self == Simulator { grid: self.grid, ..o }),
                (self.grid == TileManager { is_wall: self.grid.is_wall, ..o.grid }),
                rolled_ok(o, self.grid, width as int, i as int, 0),
            decreases width - i,
        {
            let mut j: usize = 0;
            while j < width
                invariant
                    j <= width,
                    i < width,
                    self.wf(),
                    (*self == Simulator { grid: self.grid, ..o }),
                    (self.grid == TileManager { is_wall: self.grid.is_wall, ..o.grid }),
                    rolled_ok(o, self.grid, width as int, i as int, j as int),
                decreases width - j,
            {
                let loc = TilePos { x: i, y: j };
                let ghost hd = *self;
                let w = self.calc_new_cell(loc);
                self.grid.is_wall[i][j] = w;
                proof {
                    assert(rolled_ok(o, self.grid, width as int, i as int, j + 1)) by {
                        assert(rolled_ok(o, hd.grid, width as int, i as int, j as int));
                        assert forall|a: int, b: int|
                            0 <= a < width && 0 <= b < width && processed_before(
                                a,
                                b,
                                i as int,
                                j + 1,
                            ) implies {
                            let dc2 = dist2i(
                                a,
                                b,
                                o.world_center_spec().x as int,
                                o.world_center_spec().y as int,
                            );
                            &&& (dc2 < o.gen_lo() ==> !(#[trigger] self.grid.wall_at(a, b)))
                            &&& (dc2 > o.gen_hi() ==> self.grid.wall_at(a, b))
                        } by {
                            if a == i && b == j {
                                assert(dist2_spec(loc, o.world_center_spec()) == dist2i(
                                    a,
                                    b,
                                    o.world_center_spec().x as int,
                                    o.world_center_spec().y as int,
                                ));
                            } else {
                                assert(processed_before(a, b, i as int, j as int));
                                assert(self.grid.wall_at(a, b) == hd.grid.wall_at(a, b));
                            }
                        }
                    }
                }
                j = j + 1;
            }
            proof {
                assert(rolled_ok(o, self.grid, width as int, i + 1, 0)) by {
                    assert forall|a: int, b: int|
                        0 <= a < width && 0 <= b < width && processed_before(a, b, i + 1, 0)
                        implies {
                        let dc2 = dist2i(
                            a,
                            b,
                            o.world_center_spec().x as int,
                            o.world_center_spec().y as int,
                        );
                        &&& (dc2 < o.gen_lo() ==> !(#[trigger] self.grid.wall_at(a, b)))
                        &&& (dc2 > o.gen_hi() ==> self.grid.wall_at(a, b))
                    } by {
                        assert(processed_before(a, b, i as int, width as int));
                    }
                }
            }
            i = i + 1;
        }
        // Gather the open cells outside the clearing as placement candidates.
        let center = self.world_center();
        let lo2 = radius2(self.radii.0);
        let mut cands: Vec<TilePos> = Vec::new();
        let mut ci: usize = 1;
        while ci < width
            invariant
                1 <= ci <= width || width == 0,
                forall|k: int|
                    0 <= k < cands@.len() ==> {
                        let p = #[trigger] cands@[k];
                        &&& 1 <= p.x < width
                        &&& 1 <= p.y < width
                        &&& dist2_spec(p, o.world_center_spec()) > o.gen_lo()
                        &&& dist2_spec(p, o.world_center_spec()) <= o.gen_hi()
                    },
            decreases width - ci,
        {
            let mut cj: usize = 1;
            while cj < width
                invariant
                    1 <= cj <= width,
                    1 <= ci < width,
                    forall|k: int|
                        0 <= k < cands@.len() ==> {
                            let p = #[trigger] cands@[k];
                            &&& 1 <= p.x < width
                            &&& 1 <= p.y < width
                            &&& dist2_spec(p, o.world_center_spec()) > o.gen_lo()
                            &&& dist2_spec(p, o.world_center_spec()) <= o.gen_hi()
                        },
                decreases width - cj,
            {
                let loc = TilePos { x: ci, y: cj };
                if !self.grid.is_wall[ci][cj] && dist2(loc, center) > lo2 {
                    // An open cell cannot lie past the outer generation
                    // radius: the roll walled everything out there.
                    proof {
                        assert(processed_before(ci as int, cj as int, width as int, 0));
                        assert(!self.grid.wall_at(ci as int, cj as int));
                    }
                    cands.push(loc);
                }
                cj = cj + 1;
            }
            ci = ci + 1;
        }
        // Place the structures with the minimum pairwise spacing.
        if self.n_structures > 0 && cands.len() == 0 {
            proof {
                assert forall|a: int, b: int|
                    0 <= a < width && 0 <= b < width implies {
                    let dc2 = dist2i(
                        a,
                        b,
                        o.world_center_spec().x as int,
                        o.world_center_spec().y as int,
                    );
                    &&& (dc2 < o.gen_lo() ==> !(#[trigger] self.grid.wall_at(a, b)))
                    &&& (dc2 > o.gen_hi() ==> self.grid.wall_at(a, b))
                    &&& !self.structure_near_at(a, b)
                } by {
                    assert(processed_before(a, b, width as int, 0));
                }
            }
            return Err(WorldGenError::SamplingExhausted);
        }
        let samples = match poisson_disk_sample(&cands, self.structure_dist, self.n_structures) {
            Some(samples) => samples,
            None => {
                proof {
                    assert forall|a: int, b: int|
                        0 <= a < width && 0 <= b < width implies {
                        let dc2 = dist2i(
                                a,
                                b,
                                o.world_center_spec().x as int,
                                o.world_center_spec().y as int,
                        );
                        &&& (dc2 < o.gen_lo() ==> !(#[trigger] self.grid.wall_at(a, b)))
                        &&& (dc2 > o.gen_hi() ==> self.grid.wall_at(a, b))
                        &&& !self.structure_near_at(a, b)
                    } by {
                        assert(processed_before(a, b, width as int, 0));
                    }
                }
                return Err(WorldGenError::SamplingExhausted);
            },
        };
        let ghost sb = *self;
        let mut k: usize = 0;
        while k < samples.len()
            invariant
                k <= samples@.len(),
                (*self == Simulator { grid: self.grid, ..sb }),
                (self.grid == TileManager { structures: self.grid.structures, ..sb.grid }),
                self.grid.structures@.len() <= k,
                k > 0 ==> self.grid.structures@.len() > 0,
                forall|m: int|
                    0 <= m < self.grid.structures@.len() ==> (#[trigger] self.grid.structures@[
                        m
                    ]).1 is Unspawned && (exists|km: int|
                        0 <= km < k && samples@[km] == self.grid.structures@[m].0),
                forall|m1: int, m2: int|
                    0 <= m1 < m2 < self.grid.structures@.len() ==> self.grid.structures@[m1].0
                        != self.grid.structures@[m2].0,
                o.structure_dist >= 1 ==> self.grid.structures@.len() == k,
            decreases samples@.len() - k,
        {
            let s = samples[k];
            let dup = self.structure_index(s);
            match dup {
                None => {
                    self.grid.structures.push((s, StructureType::Unspawned));
                },
                Some(d) => {
                    // A sample that is already placed is skipped; with any
                    // positive spacing the samples are pairwise distinct, so
                    // this arm is unreachable then.
                    proof {
                        if o.structure_dist >= 1 {
                            let m = d as int;
                            let km = choose|km: int|
                                0 <= km < k && samples@[km] == self.grid.structures@[m].0;
                            assert(samples@[km] == samples@[k as int]);
                            assert(dist2_spec(samples@[km], samples@[k as int]) == 0)
                                by (nonlinear_arith)
                                requires
                                    samples@[km] == samples@[k as int],
                            ;
                            assert(dist2_spec(samples@[km], samples@[k as int]) >= (
                            o.structure_dist as int) * (o.structure_dist as int));
                            assert((o.structure_dist as int) * (o.structure_dist as int) >= 1)
                                by (nonlinear_arith)
                                requires
                                    o.structure_dist >= 1,
                            ;
                        }
                    }
                },
            }
            k = k + 1;
        }
        if self.grid.structures.len() > 0 {
            let first = self.grid.structures[0].0;
            self.boss_room = Some(first);
        }
        proof {
            assert(self.grid.wf(width as int)) by {
                assert forall|m: int|
                    0 <= m < self.grid.structures@.len() implies {
                    &&& (#[trigger] self.grid.structures@[m]).0.fits()
                    &&& self.grid.structures@[m].0.x < width
                    &&& self.grid.structures@[m].0.y < width
                } by {
                    let p = self.grid.structures@[m].0;
                    let kk = choose|kk: int| 0 <= kk < samples@.len() && samples@[kk] == p;
                    assert(cands@.contains(samples@[kk]));
                    let cc = choose|cc: int| 0 <= cc < cands@.len() && cands@[cc] == p;
                    assert(1 <= p.x < width && 1 <= p.y < width);
                }
            }
            assert(self.wf());
        }
        // Clear the ground around every structure.
        let ghost sc = *self;
        let mut i: usize = 0;
        while i < width
            invariant
                i <= width,
                self.wf(),
                (*self == Simulator { grid: self.grid, ..sc }),
                (self.grid == TileManager { is_wall: self.grid.is_wall, ..sc.grid }),
                cleared_ok(sc, sc.grid, self.grid, width as int, i as int, 0),
            decreases width - i,
        {
            let mut j: usize = 0;
            while j < width
                invariant
                    j <= width,
                    i < width,
                    self.wf(),
                    (*self == Simulator { grid: self.grid, ..sc }),
                    (self.grid == TileManager { is_wall: self.grid.is_wall, ..sc.grid }),
                    cleared_ok(sc, sc.grid, self.grid, width as int, i as int, j as int),
                decreases width - j,
            {
                let loc = TilePos { x: i, y: j };
                let ghost hd = *self;
                let near = self.structure_near(loc);
                proof {
                    lemma_protection_congruent(*self, sc, loc.x as int, loc.y as int);
                }
                if near {
                    self.grid.is_wall[i][j] = false;
                }
                proof {
                    assert(cleared_ok(sc, sc.grid, self.grid, width as int, i as int, j + 1)) by {
                        assert(cleared_ok(sc, sc.grid, hd.grid, width as int, i as int, j as int));
                        assert forall|a: int, b: int|
                            0 <= a < width && 0 <= b < width implies if processed_before(
                            a,
                            b,
                            i as int,
                            j + 1,
                        ) {
                            (#[trigger] self.grid.wall_at(a, b)) == (sc.grid.wall_at(a, b)
                                && !sc.structure_near_at(a, b))
                        } else {
                            self.grid.wall_at(a, b) == sc.grid.wall_at(a, b)
                        } by {
                            if a == i && b == j {
                                assert(hd.grid.wall_at(a, b) == sc.grid.wall_at(a, b));
                            } else {
                                assert(self.grid.wall_at(a, b) == hd.grid.wall_at(a, b));
                            }
                        }
                    }
                }
                j = j + 1;
            }
            proof {
                assert(cleared_ok(sc, sc.grid, self.grid, width as int, i + 1, 0)) by {
                    assert forall|a: int, b: int|
                        0 <= a < width && 0 <= b < width implies if processed_before(
                        a,
                        b,
                        i + 1,
                        0,
                    ) {
                        (#[trigger] self.grid.wall_at(a, b)) == (sc.grid.wall_at(a, b)
                            && !sc.structure_near_at(a, b))
                    } else {
                        self.grid.wall_at(a, b) == sc.grid.wall_at(a, b)
                    } by {
                        assert(processed_before(a, b, i + 1, 0) == processed_before(
                            a,
                            b,
                            i as int,
                            width as int,
                        ));
                    }
                }
            }
            i = i + 1;
        }
        // The distance rule survives the clearing pass, which only opens
        // cells, and the ground near every structure is now open.
        proof {
            assert forall|a: int, b: int|
                0 <= a < width && 0 <= b < width implies {
                let dc2 = dist2i(
                    a,
                    b,
                    o.world_center_spec().x as int,
                    o.world_center_spec().y as int,
                );
                &&& (self.structure_near_at(a, b) ==> !(#[trigger] self.grid.wall_at(a, b)))
                &&& (dc2 < o.gen_lo() ==> !self.grid.wall_at(a, b))
                &&& (dc2 > o.gen_hi() && !self.structure_near_at(a, b) ==> self.grid.wall_at(a, b))
            } by {
                assert(processed_before(a, b, width as int, 0));
                assert(self.grid.wall_at(a, b) == (sc.grid.wall_at(a, b)
                    && !sc.structure_near_at(a, b)));
                lemma_protection_congruent(*self, sc, a, b);
                assert(rolled_ok(o, sc.grid, width as int, width as int, 0));
            }
            assert forall|k1: int, k2: int|
                #![all_triggers]
                0 <= k1 < self.grid.structures@.len() && 0 <= k2 < self.grid.structures@.len()
                    && k1 != k2 implies dist2_spec(
                self.grid.structures@[k1].0,
                self.grid.structures@[k2].0,
            ) >= (o.structure_dist as int) * (o.structure_dist as int) by {
                let p1 = self.grid.structures@[k1].0;
                let p2 = self.grid.structures@[k2].0;
                let m1 = choose|m1: int| 0 <= m1 < samples@.len() && samples@[m1] == p1;
                let m2 = choose|m2: int| 0 <= m2 < samples@.len() && samples@[m2] == p2;
                assert(p1 != p2);
                assert(m1 != m2);
                assert(dist2_spec(samples@[m1], samples@[m2]) >= (o.structure_dist as int) * (
                o.structure_dist as int));
            }
            assert forall|k: int|
                0 <= k < self.grid.structures@.len() implies {
                let e = #[trigger] self.grid.structures@[k];
                &&& e.1 is Unspawned
                &&& 1 <= e.0.x < width
                &&& 1 <= e.0.y < width
                &&& dist2i(
                    e.0.x as int,
                    e.0.y as int,
                    o.world_center_spec().x as int,
                    o.world_center_spec().y as int,
                ) > o.gen_lo()
            } by {
                let p = self.grid.structures@[k].0;
                let kk = choose|kk: int| 0 <= kk < samples@.len() && samples@[kk] == p;
                assert(cands@.contains(samples@[kk]));
                let cc = choose|cc: int| 0 <= cc < cands@.len() && cands@[cc] == p;
                assert(dist2_spec(p, o.world_center_spec()) == dist2i(
                    p.x as int,
                    p.y as int,
                    o.world_center_spec().x as int,
                    o.world_center_spec().y as int,
                ));
            }
        }
        Ok(())
    }

    /// Whether a campfire burns exactly at `loc`.
    pub fn has_campfire(&self, loc: TilePos) -> (r: bool)
        ensures
            r == self.grid.has_campfire(loc),
    {
        let mut k: usize = 0;
        while k < self.grid.campfires.len()
            invariant
                k <= self.grid.campfires@.len(),
                forall|i: int| 0 <= i < k ==> self.grid.campfires@[i] != loc,
            decreases self.grid.campfires@.len() - k,
        {
            if self.grid.campfires[k].x == loc.x && self.grid.campfires[k].y == loc.y {
                return true;
            }
            k = k + 1;
        }
        false
    }

    /// Ignites a campfire at `loc`. Placing one where one already burns
    /// changes nothing.
    pub fn place_campfire(&mut self, loc: TilePos)
        requires
            old(self).wf(),
            loc.fits(),
        ensures
            final(self).wf(),
            forall|p: TilePos|
                final(self).grid.has_campfire(p) == (old(self).grid.has_campfire(p) || p == loc),
            (*final(self) == Simulator {
                grid: TileManager {
                    campfires: final(self).grid.campfires,
                    ..old(self).grid
                },
                ..*old(self)
            }),
    {
        if !self.has_campfire(loc) {
            self.grid.campfires.push(loc);
            proof {
                let oldc = old(self).grid.campfires@;
                let newc = self.grid.campfires@;
                assert(newc == oldc.push(loc));
                assert forall|p: TilePos|
                    self.grid.has_campfire(p) == (old(self).grid.has_campfire(p) || p == loc) by {
                    if p == loc {
                        assert(newc[oldc.len() as int] == p);
                        assert(newc.contains(p));
                    }
                    if old(self).grid.has_campfire(p) {
                        let k = choose|k: int| 0 <= k < oldc.len() && oldc[k] == p;
                        assert(newc[k] == p);
                        assert(newc.contains(p));
                    }
                    if self.grid.has_campfire(p) && p != loc {
                        let k = choose|k: int| 0 <= k < newc.len() && newc[k] == p;
                        assert(k < oldc.len());
                        assert(oldc[k] == p);
                        assert(oldc.contains(p));
                    }
                }
            }
        }
    }

    /// Puts out the campfire at `loc`, if one burns there.
    pub fn remove_campfire(&mut self, loc: TilePos)
        requires
            old(self).wf(),
        ensures
            final(self).wf(),
            forall|p: TilePos|
                final(self).grid.has_campfire(p) == (old(self).grid.has_campfire(p) && p != loc),
            (*final(self) == Simulator {
                grid: TileManager {
                    campfires: final(self).grid.campfires,
                    ..old(self).grid
                },
                ..*old(self)
            }),
    {
        let mut k: usize = 0;
        let n = self.grid.campfires.len();
        while k < n
            invariant
                k <= n,
                n == self.grid.campfires@.len(),
                *self == *old(self),
                old(self).wf(),
                forall|i: int| 0 <= i < k ==> self.grid.campfires@[i] != loc,
            decreases n - k,
        {
            if self.grid.campfires[k].x == loc.x && self.grid.campfires[k].y == loc.y {
                proof {
                    assert(self.grid.campfires@[k as int] == loc);
                }
                self.grid.campfires.remove(k);
                proof {
                    let oldc = old(self).grid.campfires@;
                    let newc = self.grid.campfires@;
                    oldc.remove_ensures(k as int);
                    assert forall|p: TilePos|
                        self.grid.has_campfire(p) == (old(self).grid.has_campfire(p) && p
                            != loc) by {
                        if self.grid.has_campfire(p) {
                            let m = choose|m: int| 0 <= m < newc.len() && newc[m] == p;
                            if m < k {
                                assert(oldc[m] == p);
                            } else {
                                assert(oldc[m + 1] == p);
                            }
                            assert(oldc.contains(p));
                        }
                        if old(self).grid.has_campfire(p) && p != loc {
                            let m = choose|m: int| 0 <= m < oldc.len() && oldc[m] == p;
                            assert(m != k);
                            if m < k {
                                assert(newc[m] == p);
                            } else {
                                assert(newc[m - 1] == p);
                            }
                            assert(newc.contains(p));
                        }
                    }
                    assert forall|m1: int, m2: int| 0 <= m1 < m2 < newc.len() implies newc[m1]
                        != newc[m2] by {
                        let s1: int = if m1 < k { m1 } else { m1 + 1 };
                        let s2: int = if m2 < k { m2 } else { m2 + 1 };
                        assert(newc[m1] == oldc[s1]);
                        assert(newc[m2] == oldc[s2]);
                        assert(oldc[s1] != oldc[s2]);
                    }
                    assert forall|m: int| 0 <= m < newc.len() implies (#[trigger] newc[m]).fits()
                        by {
                        let s: int = if m < k { m } else { m + 1 };
                        assert(newc[m] == oldc[s]);
                    }
                }
                return ;
            }
            k = k + 1;
        }
    }

    /// One tick of the living map, with the player at `player_pos`.
    ///
    /// The first pass recomputes every cell in place and in row-major order
    /// (`pass1_full`): cells within the outer reality radius are revealed —
    /// entering the reality bubble, and typing a still-unspawned structure
    /// there at that moment — and cells in the reality band follow the
    /// automaton unless protected. The second pass then visits every
    /// remembered cell farther than the outer reality radius and forgets it
    /// with the half-life probability, unless a campfire holds it; a
    /// forgotten cell leaves the bubble and, unless protected, is re-rolled
    /// from scratch. Reveal runs strictly before forgetting, so a cell
    /// revealed this tick cannot be forgotten this tick; protected cells keep
    /// their wall value through any number of ticks.
    #[verifier::loop_isolation(false)]
    #[verifier::rlimit(100)]
    pub fn step(&mut self, player_pos: TilePos)
        requires
            old(self).wf(),
            player_pos.fits(),
        ensures
            final(self).wf(),
            (*final(self) == Simulator { grid: final(self).grid, ..*old(self) }),
            (final(self).grid == TileManager {
                is_wall: final(self).grid.is_wall,
                reality_bubble: final(self).grid.reality_bubble,
                structures: final(self).grid.structures,
                ..old(self).grid
            }),
            final(self).grid.structures@.len() == old(self).grid.structures@.len(),
            forall|k: int|
                0 <= k < old(self).grid.structures@.len()
                    ==> (#[trigger] final(self).grid.structures@[k]).0
                    == old(self).grid.structures@[k].0,
            forall|k: int|
                0 <= k < old(self).grid.structures@.len() ==> structure_type_transition(
                    *old(self),
                    player_pos,
                    old(self).grid.structures@[k].0,
                    #[trigger] old(self).grid.structures@[k],
                    final(self).grid.structures@[k].1,
                ),
            forall|a: int, b: int|
                #![auto]
                0 <= a < old(self).width && 0 <= b < old(self).width && dist2i(
                    a,
                    b,
                    player_pos.x as int,
                    player_pos.y as int,
                ) < old(self).band_hi() ==> final(self).grid.bubble_at(a, b),
            forall|a: int, b: int|
                #![auto]
                0 <= a < old(self).width && 0 <= b < old(self).width && final(self).grid.bubble_at(
                    a,
                    b,
                ) ==> old(self).grid.bubble_at(a, b) || dist2i(
                    a,
                    b,
                    player_pos.x as int,
                    player_pos.y as int,
                ) < old(self).band_hi(),
            forall|a: int, b: int|
                #![auto]
                0 <= a < old(self).width && 0 <= b < old(self).width
                    && old(self).grid.bubble_at(a, b) && !final(self).grid.bubble_at(a, b)
                    ==> dist2i(a, b, player_pos.x as int, player_pos.y as int)
                    > old(self).band_hi() && !old(self).cannot_forget_at(a, b),
            forall|a: int, b: int|
                #![auto]
                0 <= a < old(self).width && 0 <= b < old(self).width
                    && !(old(self).grid.bubble_at(a, b) && !final(self).grid.bubble_at(a, b))
                    ==> final(self).grid.wall_at(a, b)
                    == pass1_full(*old(self), player_pos)[a][b],
            forall|a: int, b: int|
                #![auto]
                0 <= a < old(self).width && 0 <= b < old(self).width && (old(self).grid.bubble_at(
                    a,
                    b,
                ) && !final(self).grid.bubble_at(a, b)) && old(self).protected_at(a, b)
                    ==> final(self).grid.wall_at(a, b)
                    == pass1_full(*old(self), player_pos)[a][b],
            forall|a: int, b: int|
                #![auto]
                0 <= a < old(self).width && 0 <= b < old(self).width && (old(self).grid.bubble_at(
                    a,
                    b,
                ) && !final(self).grid.bubble_at(a, b)) && !old(self).protected_at(a, b) ==> {
                    let dc2 = dist2i(
                        a,
                        b,
                        old(self).world_center_spec().x as int,
                        old(self).world_center_spec().y as int,
                    );
                    &&& (dc2 < old(self).gen_lo() ==> !final(self).grid.wall_at(a, b))
                    &&& (dc2 > old(self).gen_hi() ==> final(self).grid.wall_at(a, b))
                },
            forall|a: int, b: int|
                #![auto]
                0 <= a < old(self).width && 0 <= b < old(self).width
                    && old(self).protected_at(a, b)
                    ==> final(self).grid.wall_at(a, b) == old(self).grid.wall_at(a, b),
            forall|a: int, b: int|
                #![auto]
                0 <= a < old(self).width && 0 <= b < old(self).width
                    && !(old(self).band_lo()
                    <= dist2i(a, b, player_pos.x as int, player_pos.y as int)
                    <= old(self).band_hi())
                    && !(old(self).grid.bubble_at(a, b) && !final(self).grid.bubble_at(a, b))
                    ==> final(self).grid.wall_at(a, b) == old(self).grid.wall_at(a, b),
            forall|a: int, b: int|
                #![auto]
                final(self).protected_at(a, b) == old(self).protected_at(a, b)
                    && final(self).cannot_forget_at(a, b) == old(self).cannot_forget_at(a, b),
    {
        let ghost o = *old(self);
        let width = self.width;
        // First pass: reveal and step the automaton, cell by cell in place.
        let mut i: usize = 0;
        while i < width
            invariant
                i <= width,
                self.wf(),
                (*self == Simulator { grid: self.grid, ..o }),
                (self.grid == TileManager {
                    is_wall: self.grid.is_wall,
                    reality_bubble: self.grid.reality_bubble,
                    structures: self.grid.structures,
                    ..o.grid
                }),
                grid_seq(self.grid.is_wall) == pass1_upto(o, player_pos, i as int, 0),
                bubble_evolved(o, self.grid, player_pos, width as int, i as int, 0),
                structures_evolved(o, self.grid, player_pos, i as int, 0),
            decreases width - i,
        {
            let mut j: usize = 0;
            while j < width
                invariant
                    j <= width,
                    i < width,
                    self.wf(),
                    (*self == Simulator { grid: self.grid, ..o }),
                    (self.grid == TileManager {
                        is_wall: self.grid.is_wall,
                        reality_bubble: self.grid.reality_bubble,
                        structures: self.grid.structures,
                        ..o.grid
                    }),
                    grid_seq(self.grid.is_wall) == pass1_upto(o, player_pos, i as int, j as int),
                    bubble_evolved(o, self.grid, player_pos, width as int, i as int, j as int),
                    structures_evolved(o, self.grid, player_pos, i as int, j as int),
                decreases width - j,
            {
                let loc = TilePos { x: i, y: j };
                let ghost pre = *self;
                let w = self.calc(loc, player_pos);
                proof {
                    lemma_cell_next_congruent(
                        pre,
                        o,
                        grid_seq(pre.grid.is_wall),
                        player_pos,
                        i as int,
                        j as int,
                    );
                }
                let ghost pc = *self;
                self.grid.is_wall[i][j] = w;
                proof {
                    let prev = pass1_upto(o, player_pos, i as int, j as int);
                    let curg = grid_seq(self.grid.is_wall);
                    lemma_pass1_wf(o, player_pos, i as int, j as int);
                    assert forall|a: int| 0 <= a < width implies #[trigger] curg[a] == step_cell(
                        o,
                        player_pos,
                        prev,
                        i as int,
                        j as int,
                    )[a] by {
                        if a == i {
                            assert(curg[a] == prev[a].update(j as int, w));
                        } else {
                            assert(curg[a] == self.grid.is_wall@[a]@);
                            assert(self.grid.is_wall@[a] == pre.grid.is_wall@[a]);
                        }
                    }
                    assert(curg =~= step_cell(o, player_pos, prev, i as int, j as int));
                    assert(pass1_upto(o, player_pos, i as int, j + 1) == step_cell(
                        o,
                        player_pos,
                        prev,
                        i as int,
                        j as int,
                    ));
                    assert(bubble_evolved(o, self.grid, player_pos, width as int, i as int, j + 1))
                        by {
                        assert forall|a: int, b: int|
                            0 <= a < width && 0 <= b < width implies (#[trigger] self.grid.bubble_at(
                            a,
                            b,
                        )) == (o.grid.bubble_at(a, b) || (processed_before(a, b, i as int, j + 1)
                            && dist2i(a, b, player_pos.x as int, player_pos.y as int)
                            < o.band_hi())) by {
                            assert(self.grid.reality_bubble == pc.grid.reality_bubble);
                            assert(self.grid.bubble_at(a, b) == pc.grid.bubble_at(a, b));
                            assert(pc.grid.bubble_at(a, b) == (pre.grid.bubble_at(a, b) || (a
                                == loc.x && b == loc.y && dist2_spec(loc, player_pos)
                                < pre.band_hi())));
                            assert(pre.band_hi() == o.band_hi());
                            assert(pre.grid.bubble_at(a, b) == (o.grid.bubble_at(a, b) || (
                            processed_before(a, b, i as int, j as int) && dist2i(
                                a,
                                b,
                                player_pos.x as int,
                                player_pos.y as int,
                            ) < o.band_hi())));
                            if a == i && b == j {
                                assert(dist2_spec(loc, player_pos) == dist2i(
                                    a,
                                    b,
                                    player_pos.x as int,
                                    player_pos.y as int,
                                ));
                            }
                        }
                    }
                    assert(structures_evolved(o, self.grid, player_pos, i as int, j + 1)) by {
                        assert forall|k: int|
                            #![auto]
                            0 <= k < o.grid.structures@.len() implies if processed_before(
                            o.grid.structures@[k].0.x as int,
                            o.grid.structures@[k].0.y as int,
                            i as int,
                            j + 1,
                        ) {
                            structure_type_transition(
                                o,
                                player_pos,
                                o.grid.structures@[k].0,
                                o.grid.structures@[k],
                                self.grid.structures@[k].1,
                            )
                        } else {
                            self.grid.structures@[k].1 == o.grid.structures@[k].1
                        } by {
                            let p = o.grid.structures@[k].0;
                            assert(pre.grid.structures@[k].0 == p);
                            if p == loc {
                                assert(!processed_before(
                                    p.x as int,
                                    p.y as int,
                                    i as int,
                                    j as int,
                                ));
                                assert(pre.grid.structures@[k].1 == o.grid.structures@[k].1);
                                assert(pre.grid.bubble_at(loc.x as int, loc.y as int)
                                    == o.grid.bubble_at(loc.x as int, loc.y as int));
                                assert(structure_type_transition(
                                    pre,
                                    player_pos,
                                    loc,
                                    pre.grid.structures@[k],
                                    self.grid.structures@[k].1,
                                ));
                            } else {
                                assert(structure_type_transition(
                                    pre,
                                    player_pos,
                                    loc,
                                    pre.grid.structures@[k],
                                    self.grid.structures@[k].1,
                                ));
                                assert(self.grid.structures@[k].1 == pre.grid.structures@[k].1);
                            }
                        }
                    }
                }
                j = j + 1;
            }
            proof {
                assert(pass1_upto(o, player_pos, i + 1, 0) == pass1_upto(
                    o,
                    player_pos,
                    i as int,
                    width as int,
                ));
                assert(bubble_evolved(o, self.grid, player_pos, width as int, i + 1, 0)) by {
                    assert forall|a: int, b: int|
                        0 <= a < width && 0 <= b < width implies (#[trigger] self.grid.bubble_at(
                        a,
                        b,
                    )) == (o.grid.bubble_at(a, b) || (processed_before(a, b, i + 1, 0) && dist2i(
                        a,
                        b,
                        player_pos.x as int,
                        player_pos.y as int,
                    ) < o.band_hi())) by {
                        assert(self.grid.bubble_at(a, b) == (o.grid.bubble_at(a, b) || (
                        processed_before(a, b, i as int, width as int) && dist2i(
                            a,
                            b,
                            player_pos.x as int,
                            player_pos.y as int,
                        ) < o.band_hi())));
                        assert(processed_before(a, b, i + 1, 0) == processed_before(
                            a,
                            b,
                            i as int,
                            width as int,
                        ));
                    }
                }
                assert(structures_evolved(o, self.grid, player_pos, i + 1, 0)) by {
                    assert forall|k: int|
                        #![auto]
                        0 <= k < o.grid.structures@.len() implies if processed_before(
                        o.grid.structures@[k].0.x as int,
                        o.grid.structures@[k].0.y as int,
                        i + 1,
                        0,
                    ) {
                        structure_type_transition(
                            o,
                            player_pos,
                            o.grid.structures@[k].0,
                            o.grid.structures@[k],
                            self.grid.structures@[k].1,
                        )
                    } else {
                        self.grid.structures@[k].1 == o.grid.structures@[k].1
                    } by {
                        let p = o.grid.structures@[k].0;
                        assert(p.y < width);
                        assert(processed_before(p.x as int, p.y as int, i + 1, 0)
                            == processed_before(p.x as int, p.y as int, i as int, width as int));
                    }
                }
            }
            i = i + 1;
        }
        let ghost mid = *self;
        proof {
            assert(grid_seq(mid.grid.is_wall) == pass1_full(o, player_pos));
        }
        // Second pass: stochastic forgetting of remembered cells far from the
        // player.
        let ro2 = radius2(self.reality_params.1);
        let mut i: usize = 0;
        while i < width
            invariant
                i <= width,
                self.wf(),
                (*self == Simulator { grid: self.grid, ..mid }),
                (self.grid == TileManager {
                    is_wall: self.grid.is_wall,
                    reality_bubble: self.grid.reality_bubble,
                    ..mid.grid
                }),
                forget_scan_ok(o, mid, self.grid, player_pos, width as int, i as int, 0),
            decreases width - i,
        {
            let mut j: usize = 0;
            while j < width
                invariant
                    j <= width,
                    i < width,
                    self.wf(),
                    (*self == Simulator { grid: self.grid, ..mid }),
                    (self.grid == TileManager {
                        is_wall: self.grid.is_wall,
                        reality_bubble: self.grid.reality_bubble,
                        ..mid.grid
                    }),
                    forget_scan_ok(o, mid, self.grid, player_pos, width as int, i as int, j as int),
                decreases width - j,
            {
                let ghost hd = *self;
                let loc = TilePos { x: i, y: j };
                if self.grid.reality_bubble[i][j] {
                    let d2p = dist2(loc, player_pos);
                    if d2p > ro2 {
                        let roll = rand_below(FIX_ONE);
                        if roll < self.forget_threshold {
                            let forget = !self.cannot_forget(loc);
                            proof {
                                lemma_protection_congruent(*self, o, loc.x as int, loc.y as int);
                            }
                            if forget {
                                self.grid.reality_bubble[i][j] = false;
                                let prot = self.protected(loc);
                                proof {
                                    lemma_protection_congruent(
                                        *self,
                                        o,
                                        loc.x as int,
                                        loc.y as int,
                                    );
                                }
                                if !prot {
                                    let w = self.calc_new_cell(loc);
                                    self.grid.is_wall[i][j] = w;
                                }
                            }
                        }
                    }
                }
                proof {
                    assert(forget_scan_ok(
                        o,
                        mid,
                        self.grid,
                        player_pos,
                        width as int,
                        i as int,
                        j + 1,
                    )) by {
                        assert(ro2 == o.band_hi());
                        assert(forget_scan_ok(
                            o,
                            mid,
                            hd.grid,
                            player_pos,
                            width as int,
                            i as int,
                            j as int,
                        ));
                        assert forall|a: int, b: int|
                            0 <= a < width && 0 <= b < width && !processed_before(
                                a,
                                b,
                                i as int,
                                j + 1,
                            ) implies (#[trigger] self.grid.bubble_at(a, b))
                            == mid.grid.bubble_at(a, b) && self.grid.wall_at(a, b)
                            == mid.grid.wall_at(a, b) by {
                            assert(!processed_before(a, b, i as int, j as int));
                            assert(hd.grid.bubble_at(a, b) == mid.grid.bubble_at(a, b)
                                && hd.grid.wall_at(a, b) == mid.grid.wall_at(a, b));
                            assert(self.grid.bubble_at(a, b) == hd.grid.bubble_at(a, b));
                            assert(self.grid.wall_at(a, b) == hd.grid.wall_at(a, b));
                        }
                        assert forall|a: int, b: int|
                            0 <= a < width && 0 <= b < width && processed_before(
                                a,
                                b,
                                i as int,
                                j + 1,
                            ) implies {
                            &&& ((#[trigger] self.grid.bubble_at(a, b)) ==> mid.grid.bubble_at(
                                a,
                                b,
                            ))
                            &&& (mid.grid.bubble_at(a, b) && !self.grid.bubble_at(a, b) ==> dist2i(
                                a,
                                b,
                                player_pos.x as int,
                                player_pos.y as int,
                            ) > o.band_hi() && !o.cannot_forget_at(a, b))
                            &&& (!(mid.grid.bubble_at(a, b) && !self.grid.bubble_at(a, b))
                                ==> self.grid.wall_at(a, b) == mid.grid.wall_at(a, b))
                            &&& ((mid.grid.bubble_at(a, b) && !self.grid.bubble_at(a, b))
                                && o.protected_at(a, b) ==> self.grid.wall_at(a, b)
                                == mid.grid.wall_at(a, b))
                            &&& ((mid.grid.bubble_at(a, b) && !self.grid.bubble_at(a, b))
                                && !o.protected_at(a, b) ==> {
                                let dc2 = dist2i(
                                    a,
                                    b,
                                    o.world_center_spec().x as int,
                                    o.world_center_spec().y as int,
                                );
                                &&& (dc2 < o.gen_lo() ==> !self.grid.wall_at(a, b))
                                &&& (dc2 > o.gen_hi() ==> self.grid.wall_at(a, b))
                            })
                        } by {
                            if a == i && b == j {
                                assert(hd.grid.bubble_at(a, b) == mid.grid.bubble_at(a, b)
                                    && hd.grid.wall_at(a, b) == mid.grid.wall_at(a, b));
                                assert(dist2_spec(loc, player_pos) == dist2i(
                                    a,
                                    b,
                                    player_pos.x as int,
                                    player_pos.y as int,
                                ));
                            } else {
                                assert(processed_before(a, b, i as int, j as int));
                                assert(self.grid.bubble_at(a, b) == hd.grid.bubble_at(a, b));
                                assert(self.grid.wall_at(a, b) == hd.grid.wall_at(a, b));
                            }
                        }
                    }
                }
                j = j + 1;
            }
            proof {
                assert(forget_scan_ok(
                    o,
                    mid,
                    self.grid,
                    player_pos,
                    width as int,
                    i + 1,
                    0,
                )) by {
                    assert forall|a: int, b: int|
                        0 <= a < width && 0 <= b < width implies processed_before(a, b, i + 1, 0)
                        == processed_before(a, b, i as int, width as int) && ((
                        #[trigger] self.grid.bubble_at(a, b)) == self.grid.bubble_at(a, b)) by {}
                }
            }
            i = i + 1;
        }
        // Translate what both passes guarantee into the tick's contract.
        proof {
            let p1 = pass1_full(o, player_pos);
            assert forall|a: int, b: int|
                #![all_triggers]
                0 <= a < width && 0 <= b < width implies {
                &&& (self.grid.bubble_at(a, b) ==> mid.grid.bubble_at(a, b))
                &&& (mid.grid.bubble_at(a, b) && !self.grid.bubble_at(a, b) ==> dist2i(
                    a,
                    b,
                    player_pos.x as int,
                    player_pos.y as int,
                ) > o.band_hi() && !o.cannot_forget_at(a, b))
                &&& (!(mid.grid.bubble_at(a, b) && !self.grid.bubble_at(a, b))
                    ==> self.grid.wall_at(a, b) == mid.grid.wall_at(a, b))
                &&& ((mid.grid.bubble_at(a, b) && !self.grid.bubble_at(a, b)) && o.protected_at(
                    a,
                    b,
                ) ==> self.grid.wall_at(a, b) == mid.grid.wall_at(a, b))
                &&& ((mid.grid.bubble_at(a, b) && !self.grid.bubble_at(a, b)) && !o.protected_at(
                    a,
                    b,
                ) ==> {
                    let dc2 = dist2i(
                        a,
                        b,
                        o.world_center_spec().x as int,
                        o.world_center_spec().y as int,
                    );
                    &&& (dc2 < o.gen_lo() ==> !self.grid.wall_at(a, b))
                    &&& (dc2 > o.gen_hi() ==> self.grid.wall_at(a, b))
                })
                &&& (mid.grid.bubble_at(a, b) == (o.grid.bubble_at(a, b) || dist2i(
                    a,
                    b,
                    player_pos.x as int,
                    player_pos.y as int,
                ) < o.band_hi()))
                &&& (mid.grid.wall_at(a, b) == p1[a][b])
            } by {
                assert(processed_before(a, b, width as int, 0));
                assert(mid.grid.bubble_at(a, b) == (o.grid.bubble_at(a, b) || (processed_before(
                    a,
                    b,
                    width as int,
                    0,
                ) && dist2i(a, b, player_pos.x as int, player_pos.y as int) < o.band_hi())));
                assert(mid.grid.wall_at(a, b) == grid_seq(mid.grid.is_wall)[a][b]);
            }
            assert forall|a: int, b: int|
                #![all_triggers]
                0 <= a < width && 0 <= b < width && !(o.grid.bubble_at(a, b)
                    && !self.grid.bubble_at(a, b)) implies self.grid.wall_at(a, b) == p1[a][b] by {
                if mid.grid.bubble_at(a, b) && !self.grid.bubble_at(a, b) {
                    assert(!o.grid.bubble_at(a, b));
                    assert(dist2i(a, b, player_pos.x as int, player_pos.y as int) > o.band_hi());
                    assert(mid.grid.bubble_at(a, b));
                    assert(false);
                }
                assert(self.grid.wall_at(a, b) == mid.grid.wall_at(a, b));
            }
            assert forall|a: int, b: int|
                #![all_triggers]
                0 <= a < width && 0 <= b < width && (o.grid.bubble_at(a, b)
                    && !self.grid.bubble_at(a, b)) implies (o.protected_at(a, b)
                ==> self.grid.wall_at(a, b) == p1[a][b]) && (!o.protected_at(a, b) ==> {
                let dc2 = dist2i(
                    a,
                    b,
                    o.world_center_spec().x as int,
                    o.world_center_spec().y as int,
                );
                &&& (dc2 < o.gen_lo() ==> !self.grid.wall_at(a, b))
                &&& (dc2 > o.gen_hi() ==> self.grid.wall_at(a, b))
            }) && dist2i(a, b, player_pos.x as int, player_pos.y as int) > o.band_hi()
                && !o.cannot_forget_at(a, b) by {
                assert(mid.grid.bubble_at(a, b));
            }
            assert forall|a: int, b: int|
                #![all_triggers]
                0 <= a < width && 0 <= b < width && dist2i(
                    a,
                    b,
                    player_pos.x as int,
                    player_pos.y as int,
                ) < o.band_hi() implies self.grid.bubble_at(a, b) by {
                assert(mid.grid.bubble_at(a, b));
                if !self.grid.bubble_at(a, b) {
                    assert(dist2i(a, b, player_pos.x as int, player_pos.y as int) > o.band_hi());
                    assert(false);
                }
            }
            assert forall|a: int, b: int|
                #![all_triggers]
                0 <= a < width && 0 <= b < width && o.protected_at(a, b) implies self.grid.wall_at(
                a,
                b,
            ) == o.grid.wall_at(a, b) by {
                lemma_pass1_frozen(o, player_pos, a, b);
                assert(p1[a][b] == grid_seq(o.grid.is_wall)[a][b]);
                assert(grid_seq(o.grid.is_wall)[a][b] == o.grid.wall_at(a, b));
                if mid.grid.bubble_at(a, b) && !self.grid.bubble_at(a, b) {
                    assert(self.grid.wall_at(a, b) == mid.grid.wall_at(a, b));
                } else {
                    assert(self.grid.wall_at(a, b) == mid.grid.wall_at(a, b));
                }
            }
            assert forall|a: int, b: int|
                #![all_triggers]
                0 <= a < width && 0 <= b < width && !(o.band_lo() <= dist2i(
                    a,
                    b,
                    player_pos.x as int,
                    player_pos.y as int,
                ) <= o.band_hi()) && !(o.grid.bubble_at(a, b) && !self.grid.bubble_at(a, b))
                implies self.grid.wall_at(a, b) == o.grid.wall_at(a, b) by {
                lemma_pass1_frozen(o, player_pos, a, b);
                assert(p1[a][b] == grid_seq(o.grid.is_wall)[a][b]);
                assert(grid_seq(o.grid.is_wall)[a][b] == o.grid.wall_at(a, b));
                assert(self.grid.wall_at(a, b) == p1[a][b]);
            }
            assert forall|a: int, b: int| #![all_triggers] self.protected_at(a, b) == o.protected_at(a, b)
                && self.cannot_forget_at(a, b) == o.cannot_forget_at(a, b) by {
                lemma_protection_congruent(*self, o, a, b);
            }
            assert forall|k: int|
                0 <= k < o.grid.structures@.len() implies structure_type_transition(
                o,
                player_pos,
                o.grid.structures@[k].0,
                #[trigger] o.grid.structures@[k],
                self.grid.structures@[k].1,
            ) by {
                let p = o.grid.structures@[k].0;
                assert(p.x < width && p.y < width);
                assert(processed_before(p.x as int, p.y as int, width as int, 0));
            }
        }
    }

    /// The light one source at squared distance `d2` sheds on a cell, in the
    /// fixed-point scale of the lightmap: full at the source, fading
    /// quadratically to dark at the source's radius `r`.
    pub open spec fn falloff(d2: int, r: int) -> int {
        if d2 >= r * r {
            0
        } else {
            ((r * r - d2) * (LIGHT_ONE as int)) / (r * r)
        }
    }

    /// The light level at `(x, y)` shed by the campfires `cf` with radius
    /// `r`: the brightest single contribution.
    pub open spec fn light_from(cf: Seq<TilePos>, r: int, x: int, y: int) -> int
        decreases cf.len(),
    {
        if cf.len() == 0 {
            0
        } else {
            let rest = Self::light_from(cf.drop_last(), r, x, y);
            let here = Self::falloff(dist2i(cf.last().x as int, cf.last().y as int, x, y), r);
            if here > rest {
                here
            } else {
                rest
            }
        }
    }

    /// The light level at `loc` under the current campfires.
    fn light_level(&self, loc: TilePos) -> (l: u32)
        requires
            self.wf(),
            loc.fits(),
        ensures
            l == Self::light_from(
                self.grid.campfires@,
                self.campfire_radius as int,
                loc.x as int,
                loc.y as int,
            ),
            l <= LIGHT_ONE,
    {
        let r2 = radius2(self.campfire_radius);
        let mut acc: u32 = 0;
        let mut k: usize = 0;
        while k < self.grid.campfires.len()
            invariant
                self.wf(),
                loc.fits(),
                k <= self.grid.campfires@.len(),
                r2 == (self.campfire_radius as int) * (self.campfire_radius as int),
                acc <= LIGHT_ONE,
                acc == Self::light_from(
                    self.grid.campfires@.subrange(0, k as int),
                    self.campfire_radius as int,
                    loc.x as int,
                    loc.y as int,
                ),
            decreases self.grid.campfires@.len() - k,
        {
            let cf = self.grid.campfires[k];
            let d2 = dist2(cf, loc);
            let here: u32 = if d2 >= r2 {
                0
            } else {
                proof {
                    assert(r2 <= 0xFFFF_FFFFu128 * 0xFFFF_FFFFu128) by (nonlinear_arith)
                        requires
                            r2 == (self.campfire_radius as int) * (self.campfire_radius as int),
                            self.campfire_radius <= 0xFFFF_FFFFusize,
                    ;
                    assert((r2 - d2) * (LIGHT_ONE as int) <= r2 * (LIGHT_ONE as int))
                        by (nonlinear_arith)
                        requires
                            0 <= d2 <= r2,
                    ;
                    assert(r2 * (LIGHT_ONE as int) <= u128::MAX) by (nonlinear_arith)
                        requires
                            0 <= r2 <= 0xFFFF_FFFFu128 * 0xFFFF_FFFFu128,
                    ;
                    assert((r2 - d2) * (LIGHT_ONE as int) / (r2 as int) <= LIGHT_ONE)
                        by (nonlinear_arith)
                        requires
                            0 <= d2 < r2,
                    ;
                }
                (((r2 - d2) * (LIGHT_ONE as u128)) / r2) as u32
            };
            proof {
                let pre = self.grid.campfires@.subrange(0, k as int);
                let cur = self.grid.campfires@.subrange(0, k + 1);
                assert(cur.drop_last() =~= pre);
                assert(cur.last() == self.grid.campfires@[k as int]);
                assert(here == Self::falloff(
                    dist2i(cf.x as int, cf.y as int, loc.x as int, loc.y as int),
                    self.campfire_radius as int,
                ));
            }
            if here > acc {
                acc = here;
            }
            k = k + 1;
        }
        proof {
            assert(self.grid.campfires@.subrange(0, self.grid.campfires@.len() as int)
                =~= self.grid.campfires@);
        }
        acc
    }

    /// Recomputes the whole light field from the campfires. Light comes from
    /// the campfires alone; the player's tile is accepted alongside the same
    /// per-tick inputs the other tick work takes.
    #[verifier::loop_isolation(false)]
    #[allow(unused_variables)]
    pub fn recalc_lightmap(&mut self, player_pos: TilePos)
        requires
            old(self).wf(),
        ensures
            final(self).wf(),
            (*final(self) == Simulator { grid: final(self).grid, ..*old(self) }),
            (final(self).grid == TileManager {
                lightmap: final(self).grid.lightmap,
                ..old(self).grid
            }),
            forall|a: int, b: int|
                #![all_triggers]
                0 <= a < old(self).width && 0 <= b < old(self).width ==> final(self).grid.light_at(
                    a,
                    b,
                ) == Self::light_from(
                    old(self).grid.campfires@,
                    old(self).campfire_radius as int,
                    a,
                    b,
                ),
    {
        let ghost o = *old(self);
        let width = self.width;
        let mut i: usize = 0;
        while i < width
            invariant
                i <= width,
                self.wf(),
                (*self == Simulator { grid: self.grid, ..o }),
                (self.grid == TileManager { lightmap: self.grid.lightmap, ..o.grid }),
                lit_ok(o, self.grid, width as int, i as int, 0),
            decreases width - i,
        {
            let mut j: usize = 0;
            while j < width
                invariant
                    j <= width,
                    i < width,
                    self.wf(),
                    (*self == Simulator { grid: self.grid, ..o }),
                    (self.grid == TileManager { lightmap: self.grid.lightmap, ..o.grid }),
                    lit_ok(o, self.grid, width as int, i as int, j as int),
                decreases width - j,
            {
                let loc = TilePos { x: i, y: j };
                let ghost hd = *self;
                let l = self.light_level(loc);
                self.grid.lightmap[i][j] = l;
                proof {
                    assert(lit_ok(o, self.grid, width as int, i as int, j + 1)) by {
                        assert(lit_ok(o, hd.grid, width as int, i as int, j as int));
                        assert forall|a: int, b: int|
                            0 <= a < width && 0 <= b < width && processed_before(
                                a,
                                b,
                                i as int,
                                j + 1,
                            ) implies (#[trigger] self.grid.light_at(a, b)) == Simulator::light_from(
                            o.grid.campfires@,
                            o.campfire_radius as int,
                            a,
                            b,
                        ) by {
                            if !(a == i && b == j) {
                                assert(processed_before(a, b, i as int, j as int));
                                assert(self.grid.light_at(a, b) == hd.grid.light_at(a, b));
                            }
                        }
                    }
                }
                j = j + 1;
            }
            proof {
                assert(lit_ok(o, self.grid, width as int, i + 1, 0)) by {
                    assert forall|a: int, b: int|
                        0 <= a < width && 0 <= b < width && processed_before(a, b, i + 1, 0)
                        implies (#[trigger] self.grid.light_at(a, b)) == Simulator::light_from(
                        o.grid.campfires@,
                        o.campfire_radius as int,
                        a,
                        b,
                    ) by {
                        assert(processed_before(a, b, i as int, width as int));
                    }
                }
            }
            i = i + 1;
        }
        proof {
            assert forall|a: int, b: int|
                0 <= a < width && 0 <= b < width implies (#[trigger] self.grid.light_at(a, b))
                == Simulator::light_from(o.grid.campfires@, o.campfire_radius as int, a, b) by {
                assert(processed_before(a, b, width as int, 0));
            }
        }
    }

    /// The number of wall cells on the whole grid.
    #[verifier::loop_isolation(false)]
    pub fn wall_count(&self) -> (c: u64)
        requires
            self.wf(),
        ensures
            c == grid_wall_count(grid_seq(self.grid.is_wall), self.width as int, self.width as int),
    {
        let width = self.width;
        let mut c: u64 = 0;
        let mut i: usize = 0;
        while i < width
            invariant
                i <= width,
                c == grid_wall_count(grid_seq(self.grid.is_wall), i as int, width as int),
                c <= (i as int) * (width as int),
            decreases width - i,
        {
            let mut j: usize = 0;
            let mut rc: u64 = 0;
            while j < width
                invariant
                    j <= width,
                    i < width,
                    rc == row_wall_count(grid_seq(self.grid.is_wall)[i as int], j as int),
                    rc <= j,
                decreases width - j,
            {
                if self.grid.is_wall[i][j] {
                    rc = rc + 1;
                }
                j = j + 1;
            }
            proof {
                assert((i as int) * (width as int) + (width as int) == (i + 1) * (width as int))
                    by (nonlinear_arith);
                assert((i + 1) * (width as int) <= 0xFFFF_FFFFu64 * 0xFFFF_FFFFu64)
                    by (nonlinear_arith)
                    requires
                        0 <= i + 1 <= 0xFFFF_FFFFu64,
                        0 <= width <= 0xFFFF_FFFFu64,
                ;
            }
            c = c + rc;
            i = i + 1;
        }
        c
    }

    /// The designated boss-room placement, once `post_init` has chosen one.
    pub fn boss_room_loc(&self) -> (r: Option<TilePos>)
        ensures
            r == self.boss_room,
    {
        self.boss_room
    }

    /// The index of the structure placed at `loc`, if any.
    fn structure_index(&self, loc: TilePos) -> (r: Option<usize>)
        ensures
            r matches Some(k) ==> k < self.grid.structures@.len() && self.grid.structures@[
                k as int].0 == loc,
            r is None ==> !self.grid.has_structure_at(loc),
    {
        let mut k: usize = 0;
        while k < self.grid.structures.len()
            invariant
                k <= self.grid.structures@.len(),
                forall|i: int| 0 <= i < k ==> (#[trigger] self.grid.structures@[i]).0 != loc,
            decreases self.grid.structures@.len() - k,
        {
            let p = self.grid.structures[k].0;
            if p.x == loc.x && p.y == loc.y {
                return Some(k);
            }
            k = k + 1;
        }
        None
    }

    /// The number of wall cells among the up to eight in-bounds neighbors.
    fn count_wall_neighbors(&self, loc: TilePos) -> (tot: usize)
        requires
            matrix_wf(self.grid.is_wall@, self.width as int),
            loc.x < self.width,
            loc.y < self.width,
        ensures
            tot == neighbor_count(
                grid_seq(self.grid.is_wall),
                self.width as int,
                loc.x as int,
                loc.y as int,
            ),
            tot <= 8,
    {
        let w = self.width;
        let x = loc.x;
        let y = loc.y;
        let mut tot: usize = 0;
        if x > 0 && y > 0 && self.grid.is_wall[x - 1][y - 1] {
            tot = tot + 1;
        }
        if x > 0 && self.grid.is_wall[x - 1][y] {
            tot = tot + 1;
        }
        if x > 0 && y + 1 < w && self.grid.is_wall[x - 1][y + 1] {
            tot = tot + 1;
        }
        if y > 0 && self.grid.is_wall[x][y - 1] {
            tot = tot + 1;
        }
        if y + 1 < w && self.grid.is_wall[x][y + 1] {
            tot = tot + 1;
        }
        if x + 1 < w && y > 0 && self.grid.is_wall[x + 1][y - 1] {
            tot = tot + 1;
        }
        if x + 1 < w && self.grid.is_wall[x + 1][y] {
            tot = tot + 1;
        }
        if x + 1 < w && y + 1 < w && self.grid.is_wall[x + 1][y + 1] {
            tot = tot + 1;
        }
        tot
    }

    /// Recomputes one cell for a tick: reveals it when the player is near
    /// (typing a still-unspawned structure there at that moment), and returns
    /// the cell's next wall value — the automaton's choice inside the reality
    /// band, the current value elsewhere. The caller writes the value back.
    fn calc(&mut self, loc: TilePos, player_pos: TilePos) -> (w: bool)
        requires
            old(self).wf(),
            loc.x < old(self).width,
            loc.y < old(self).width,
            player_pos.fits(),
        ensures
            final(self).wf(),
            w == cell_next(
                *old(self),
                grid_seq(old(self).grid.is_wall),
                player_pos,
                loc.x as int,
                loc.y as int,
            ),
            (*final(self) == Simulator { grid: final(self).grid, ..*old(self) }),
            (final(self).grid == TileManager {
                reality_bubble: final(self).grid.reality_bubble,
                structures: final(self).grid.structures,
                ..old(self).grid
            }),
            forall|a: int, b: int|
                0 <= a < old(self).width && 0 <= b < old(self).width
                    ==> final(self).grid.bubble_at(a, b) == (old(self).grid.bubble_at(a, b)
                    || (a == loc.x && b == loc.y && dist2_spec(loc, player_pos)
                    < old(self).band_hi())),
            final(self).grid.structures@.len() == old(self).grid.structures@.len(),
            forall|k: int|
                0 <= k < old(self).grid.structures@.len()
                    ==> (#[trigger] final(self).grid.structures@[k]).0
                    == old(self).grid.structures@[k].0,
            forall|k: int|
                0 <= k < old(self).grid.structures@.len() ==> structure_type_transition(
                    *old(self),
                    player_pos,
                    loc,
                    #[trigger] old(self).grid.structures@[k],
                    final(self).grid.structures@[k].1,
                ),
    {
        let d2p = dist2(loc, player_pos);
        let ro2 = radius2(self.reality_params.1);
        let ri2 = radius2(self.reality_params.0);
        if d2p < ro2 && !self.grid.reality_bubble[loc.x][loc.y] {
            self.grid.reality_bubble[loc.x][loc.y] = true;
            if let Some(k) = self.structure_index(loc) {
                let unspawned = matches!(self.grid.structures[k].1, StructureType::Unspawned);
                if unspawned {
                    proof {
                        assert(self.grid.structures@.len() > 0);
                    }
                    // A placed structure implies a designated boss room, so
                    // the fallback arm below is unreachable.
                    let b = match self.boss_room {
                        Some(b) => b,
                        None => loc,
                    };
                    let t = decide_structure_type(b, loc);
                    self.grid.structures[k] = (loc, t);
                }
            }
        }
        proof {
            match old(self).boss_room {
                Some(bb) => {
                    let olds = old(self).grid.structures@;
                    let kk = choose|kk: int| 0 <= kk < olds.len() && (#[trigger] olds[kk]).0 == bb;
                    assert(self.grid.structures@[kk].0 == bb);
                },
                None => {},
            }
            assert(self.wf());
        }
        let in_band = ri2 <= d2p && d2p <= ro2;
        let res = if in_band {
            if self.protected(loc) {
                self.grid.is_wall[loc.x][loc.y]
            } else {
                let tot = self.count_wall_neighbors(loc);
                if tot <= self.ca_params.0 {
                    false
                } else if tot >= self.ca_params.1 {
                    true
                } else {
                    self.grid.is_wall[loc.x][loc.y]
                }
            }
        } else {
            self.grid.is_wall[loc.x][loc.y]
        };
        proof {
            lemma_protection_congruent(*self, *old(self), loc.x as int, loc.y as int);
        }
        res
    }
}

/// The cell `loc` enters the reality bubble this tick: the player is within
/// the outer reality radius and the cell is not yet remembered.
pub open spec fn newly_revealed(sim: Simulator, player: TilePos, loc: TilePos) -> bool {
    dist2_spec(loc, player) < sim.band_hi() && !sim.grid.bubble_at(loc.x as int, loc.y as int)
}

/// How the kind of the structure entry `e_old` may change while cell `loc`
/// is recomputed against the pre-tick state `oldsim`: a still-unspawned
/// structure at a newly revealed cell takes its concrete kind now — the boss
/// altar exactly at the boss room — and every other entry keeps its kind.
pub open spec fn structure_type_transition(
    oldsim: Simulator,
    player: TilePos,
    loc: TilePos,
    e_old: (TilePos, StructureType),
    t_new: StructureType,
) -> bool {
    if e_old.0 == loc && e_old.1 is Unspawned && newly_revealed(oldsim, player, loc) {
        &&& (Some(loc) == oldsim.boss_room ==> t_new is BossAltar)
        &&& (Some(loc) != oldsim.boss_room ==> is_flavor_or_altar(t_new))
    } else {
        t_new == e_old.1
    }
}

/// How a tick's first pass, having scanned the cells before `(i, j)`, has
/// grown the reality bubble of the pre-tick state `o` into the bubble of `g`:
/// every scanned cell within the outer reality radius of the player has been
/// revealed, and nothing has left.
pub open spec fn bubble_evolved(
    o: Simulator,
    g: TileManager,
    player: TilePos,
    w: int,
    i: int,
    j: int,
) -> bool {
    forall|a: int, b: int|
        0 <= a < w && 0 <= b < w ==> (#[trigger] g.bubble_at(a, b)) == (o.grid.bubble_at(a, b) || (
        processed_before(a, b, i, j) && dist2i(a, b, player.x as int, player.y as int)
            < o.band_hi()))
}

/// How a tick's first pass, having scanned the cells before `(i, j)`, has
/// changed the structure entries of the pre-tick state `o` into those of `g`:
/// positions are fixed, a scanned entry's kind has taken its reveal
/// transition, and every other kind is unchanged.
pub open spec fn structures_evolved(
    o: Simulator,
    g: TileManager,
    player: TilePos,
    i: int,
    j: int,
) -> bool {
    &&& g.structures@.len() == o.grid.structures@.len()
    &&& forall|k: int|
        0 <= k < o.grid.structures@.len() ==> (#[trigger] g.structures@[k]).0
            == o.grid.structures@[k].0
    &&& forall|k: int|
        #![all_triggers]
        0 <= k < o.grid.structures@.len() ==> if processed_before(
            o.grid.structures@[k].0.x as int,
            o.grid.structures@[k].0.y as int,
            i,
            j,
        ) {
            structure_type_transition(
                o,
                player,
                o.grid.structures@[k].0,
                o.grid.structures@[k],
                g.structures@[k].1,
            )
        } else {
            g.structures@[k].1 == o.grid.structures@[k].1
        }
}

/// How a tick's forgetting pass, having scanned the cells before `(i, j)`,
/// has turned the first pass's outcome `mid` into `g`: an unscanned cell is
/// untouched; a scanned cell may have left the bubble only if it lay beyond
/// the outer reality radius and no campfire held it, in which case its wall
/// value was re-rolled unless the cell was protected.
pub open spec fn forget_scan_ok(
    o: Simulator,
    mid: Simulator,
    g: TileManager,
    player: TilePos,
    w: int,
    i: int,
    j: int,
) -> bool {
    &&& forall|a: int, b: int|
        #![all_triggers]
        0 <= a < w && 0 <= b < w && !processed_before(a, b, i, j) ==> g.bubble_at(a, b)
            == mid.grid.bubble_at(a, b) && g.wall_at(a, b) == mid.grid.wall_at(a, b)
    &&& forall|a: int, b: int|
        #![all_triggers]
        0 <= a < w && 0 <= b < w && processed_before(a, b, i, j) ==> {
            &&& (g.bubble_at(a, b) ==> mid.grid.bubble_at(a, b))
            &&& (mid.grid.bubble_at(a, b) && !g.bubble_at(a, b) ==> dist2i(
                a,
                b,
                player.x as int,
                player.y as int,
            ) > o.band_hi() && !o.cannot_forget_at(a, b))
            &&& (!(mid.grid.bubble_at(a, b) && !g.bubble_at(a, b)) ==> g.wall_at(a, b)
                == mid.grid.wall_at(a, b))
            &&& ((mid.grid.bubble_at(a, b) && !g.bubble_at(a, b)) && o.protected_at(a, b)
                ==> g.wall_at(a, b) == mid.grid.wall_at(a, b))
            &&& ((mid.grid.bubble_at(a, b) && !g.bubble_at(a, b)) && !o.protected_at(a, b) ==> {
                let dc2 = dist2i(
                    a,
                    b,
                    o.world_center_spec().x as int,
                    o.world_center_spec().y as int,
                );
                &&& (dc2 < o.gen_lo() ==> !g.wall_at(a, b))
                &&& (dc2 > o.gen_hi() ==> g.wall_at(a, b))
            })
        }
}

/// How far the lightmap recomputation has come by cell `(i, j)`: every
/// scanned cell already holds the light the campfires shed on it.
pub open spec fn lit_ok(o: Simulator, g: TileManager, w: int, i: int, j: int) -> bool {
    forall|a: int, b: int|
        #![all_triggers]
        0 <= a < w && 0 <= b < w && processed_before(a, b, i, j) ==> g.light_at(a, b)
            == Simulator::light_from(o.grid.campfires@, o.campfire_radius as int, a, b)
}

/// The number of walls among the first `n` cells of a row.
pub open spec fn row_wall_count(row: Seq<bool>, n: int) -> int
    decreases n,
{
    if n <= 0 {
        0
    } else {
        row_wall_count(row, n - 1) + if row[n - 1] {
            1int
        } else {
            0int
        }
    }
}

/// The number of walls among the first `m` rows of the grid, each `w` wide.
pub open spec fn grid_wall_count(g: Seq<Seq<bool>>, m: int, w: int) -> int
    decreases m,
{
    if m <= 0 {
        0
    } else {
        grid_wall_count(g, m - 1, w) + row_wall_count(g[m - 1], w)
    }
}

/// How far world generation's first pass has come by cell `(i, j)`: every
/// scanned cell obeys the distance rule around the world center — open
/// inside the inner generation radius, wall beyond the outer one.
pub open spec fn rolled_ok(sim: Simulator, g: TileManager, w: int, i: int, j: int) -> bool {
    forall|a: int, b: int|
        #![all_triggers]
        0 <= a < w && 0 <= b < w && processed_before(a, b, i, j) ==> {
            let dc2 = dist2i(
                a,
                b,
                sim.world_center_spec().x as int,
                sim.world_center_spec().y as int,
            );
            &&& (dc2 < sim.gen_lo() ==> !g.wall_at(a, b))
            &&& (dc2 > sim.gen_hi() ==> g.wall_at(a, b))
        }
}

/// How far world generation's clearing pass has come by cell `(i, j)`:
/// every scanned cell near a structure of `sim_c` has been opened and every
/// other cell keeps the wall value it had in `g2`.
pub open spec fn cleared_ok(
    sim_c: Simulator,
    g2: TileManager,
    g: TileManager,
    w: int,
    i: int,
    j: int,
) -> bool {
    forall|a: int, b: int|
        #![all_triggers]
        0 <= a < w && 0 <= b < w ==> if processed_before(a, b, i, j) {
            g.wall_at(a, b) == (g2.wall_at(a, b) && !sim_c.structure_near_at(a, b))
        } else {
            g.wall_at(a, b) == g2.wall_at(a, b)
        }
}

/// 1 when `(a, b)` is an in-bounds wall cell of `g`, else 0.
pub open spec fn wall_ind(g: Seq<Seq<bool>>, width: int, a: int, b: int) -> int {
    if 0 <= a < width && 0 <= b < width && g[a][b] {
        1int
    } else {
        0int
    }
}

/// The number of wall cells among the up to eight in-bounds neighbors of
/// `(i, j)`; neighborhoods clamp at the grid edge, there is no wraparound.
pub open spec fn neighbor_count(g: Seq<Seq<bool>>, width: int, i: int, j: int) -> int {
    wall_ind(g, width, i - 1, j - 1) + wall_ind(g, width, i - 1, j) + wall_ind(
        g,
        width,
        i - 1,
        j + 1,
    ) + wall_ind(g, width, i, j - 1) + wall_ind(g, width, i, j + 1) + wall_ind(
        g,
        width,
        i + 1,
        j - 1,
    ) + wall_ind(g, width, i + 1, j) + wall_ind(g, width, i + 1, j + 1)
}

/// The next wall value of cell `(i, j)` when the walls currently read `g` and
/// the player stands at `player`: inside the reality band an unprotected cell
/// follows the automaton (at most `k` wall neighbors opens it, at least `b`
/// walls it, in between it keeps its value); protected cells and cells
/// outside the band keep their value.
pub open spec fn cell_next(sim: Simulator, g: Seq<Seq<bool>>, player: TilePos, i: int, j: int) -> bool {
    let d2 = dist2i(i, j, player.x as int, player.y as int);
    if sim.band_lo() <= d2 <= sim.band_hi() {
        if sim.protected_at(i, j) {
            g[i][j]
        } else {
            let tot = neighbor_count(g, sim.width as int, i, j);
            if tot <= sim.ca_params.0 as int {
                false
            } else if tot >= sim.ca_params.1 as int {
                true
            } else {
                g[i][j]
            }
        }
    } else {
        g[i][j]
    }
}

/// Cell `(a, b)` comes before cell `(i, j)` in the row-major order in which a
/// tick scans the grid.
pub open spec fn processed_before(a: int, b: int, i: int, j: int) -> bool {
    a < i || (a == i && b < j)
}

/// One cell of the tick's first pass: write the next value of cell `(i, j)`
/// into the wall grid `g`.
pub open spec fn step_cell(
    sim: Simulator,
    player: TilePos,
    g: Seq<Seq<bool>>,
    i: int,
    j: int,
) -> Seq<Seq<bool>> {
    g.update(i, g[i].update(j, cell_next(sim, g, player, i, j)))
}

/// The wall grid after the tick's first pass has recomputed, in place and in
/// row-major order, every cell before `(i, j)`: all rows before `i` and the
/// first `j` cells of row `i`. Each cell's update reads the grid as the
/// previous updates left it, which is what stepping the automaton in place
/// means.
pub open spec fn pass1_upto(sim: Simulator, player: TilePos, i: int, j: int) -> Seq<Seq<bool>>
    decreases i, j,
{
    if i <= 0 && j <= 0 {
        grid_seq(sim.grid.is_wall)
    } else if j <= 0 {
        pass1_upto(sim, player, i - 1, sim.width as int)
    } else {
        step_cell(sim, player, pass1_upto(sim, player, i, j - 1), i, j - 1)
    }
}

/// The wall grid after the tick's first pass has recomputed every cell.
pub open spec fn pass1_full(sim: Simulator, player: TilePos) -> Seq<Seq<bool>> {
    pass1_upto(sim, player, sim.width as int, 0)
}

/// The first pass preserves the grid's shape.
proof fn lemma_pass1_wf(sim: Simulator, player: TilePos, i: int, j: int)
    requires
        sim.wf(),
        0 <= i <= sim.width,
        0 <= j <= sim.width,
        j > 0 ==> i < sim.width,
    ensures
        seq_matrix_wf(pass1_upto(sim, player, i, j), sim.width as int),
    decreases i, j,
{
    let cur = pass1_upto(sim, player, i, j);
    if i <= 0 && j <= 0 {
        assert forall|a: int| 0 <= a < sim.width implies (#[trigger] cur[a]).len()
            == sim.width by {
            assert(cur[a] == sim.grid.is_wall@[a]@);
        }
    } else if j <= 0 {
        lemma_pass1_wf(sim, player, i - 1, sim.width as int);
    } else {
        lemma_pass1_wf(sim, player, i, j - 1);
        let prev = pass1_upto(sim, player, i, j - 1);
        assert forall|a: int| 0 <= a < sim.width implies (#[trigger] cur[a]).len()
            == sim.width by {
            if a == i {
                assert(cur[a] == prev[i].update(j - 1, cell_next(sim, prev, player, i, j - 1)));
            } else {
                assert(cur[a] == prev[a]);
            }
        }
    }
}

/// Cells the first pass has not reached yet still hold their pre-tick value.
proof fn lemma_pass1_untouched(sim: Simulator, player: TilePos, i: int, j: int)
    requires
        sim.wf(),
        0 <= i <= sim.width,
        0 <= j <= sim.width,
        j > 0 ==> i < sim.width,
    ensures
        forall|a: int, b: int|
            0 <= a < sim.width && 0 <= b < sim.width && !processed_before(a, b, i, j)
                ==> #[trigger] pass1_upto(sim, player, i, j)[a][b] == grid_seq(
                sim.grid.is_wall,
            )[a][b],
    decreases i, j,
{
    let cur = pass1_upto(sim, player, i, j);
    let g0 = grid_seq(sim.grid.is_wall);
    if i <= 0 && j <= 0 {
    } else if j <= 0 {
        lemma_pass1_untouched(sim, player, i - 1, sim.width as int);
        assert forall|a: int, b: int|
            0 <= a < sim.width && 0 <= b < sim.width && !processed_before(a, b, i, j) implies (
        #[trigger] cur[a][b]) == g0[a][b] by {
            assert(cur == pass1_upto(sim, player, i - 1, sim.width as int));
            assert(!processed_before(a, b, i - 1, sim.width as int));
            assert(pass1_upto(sim, player, i - 1, sim.width as int)[a][b] == g0[a][b]);
        }
    } else {
        lemma_pass1_untouched(sim, player, i, j - 1);
        lemma_pass1_wf(sim, player, i, j - 1);
        let prev = pass1_upto(sim, player, i, j - 1);
        assert forall|a: int, b: int|
            0 <= a < sim.width && 0 <= b < sim.width && !processed_before(a, b, i, j) implies (
        #[trigger] cur[a][b]) == g0[a][b] by {
            if a == i {
                assert(cur[a] == prev[i].update(j - 1, cell_next(sim, prev, player, i, j - 1)));
                assert(cur[a][b] == prev[a][b]);
            } else {
                assert(cur[a] == prev[a]);
            }
            assert(prev[a][b] == g0[a][b]);
        }
    }
}

/// Once the first pass has recomputed a cell, later cells' updates leave it
/// alone.
proof fn lemma_pass1_stable(sim: Simulator, player: TilePos, i: int, j: int, i2: int, j2: int)
    requires
        sim.wf(),
        0 <= i <= sim.width,
        0 <= j <= sim.width,
        0 <= i2 <= sim.width,
        0 <= j2 <= sim.width,
        j > 0 ==> i < sim.width,
        j2 > 0 ==> i2 < sim.width,
        i < i2 || (i == i2 && j <= j2),
    ensures
        forall|a: int, b: int|
            0 <= a < sim.width && 0 <= b < sim.width && processed_before(a, b, i, j)
                ==> #[trigger] pass1_upto(sim, player, i2, j2)[a][b] == pass1_upto(
                sim,
                player,
                i,
                j,
            )[a][b],
    decreases i2, j2,
{
    let cur = pass1_upto(sim, player, i2, j2);
    let base = pass1_upto(sim, player, i, j);
    if i == i2 && j == j2 {
    } else if j2 > 0 {
        lemma_pass1_stable(sim, player, i, j, i2, j2 - 1);
        lemma_pass1_wf(sim, player, i2, j2 - 1);
        let prev = pass1_upto(sim, player, i2, j2 - 1);
        assert forall|a: int, b: int|
            0 <= a < sim.width && 0 <= b < sim.width && processed_before(a, b, i, j) implies (
        #[trigger] cur[a][b]) == base[a][b] by {
            if a == i2 {
                assert(cur[a] == prev[i2].update(j2 - 1, cell_next(sim, prev, player, i2, j2 - 1)));
                assert(!(a == i2 && b == j2 - 1));
                assert(cur[a][b] == prev[a][b]);
            } else {
                assert(cur[a] == prev[a]);
            }
            assert(prev[a][b] == base[a][b]);
        }
    } else {
        lemma_pass1_stable(sim, player, i, j, i2 - 1, sim.width as int);
        assert forall|a: int, b: int|
            0 <= a < sim.width && 0 <= b < sim.width && processed_before(a, b, i, j) implies (
        #[trigger] cur[a][b]) == base[a][b] by {
            assert(cur == pass1_upto(sim, player, i2 - 1, sim.width as int));
            assert(pass1_upto(sim, player, i2 - 1, sim.width as int)[a][b] == base[a][b]);
        }
    }
}

/// What the first pass writes into each cell: the automaton's choice for
/// that cell, read against the grid as the pass had left it just before.
proof fn lemma_pass1_cell_value(sim: Simulator, player: TilePos, a: int, b: int)
    requires
        sim.wf(),
        0 <= a < sim.width,
        0 <= b < sim.width,
    ensures
        pass1_full(sim, player)[a][b] == cell_next(
            sim,
            pass1_upto(sim, player, a, b),
            player,
            a,
            b,
        ),
{
    let g = pass1_upto(sim, player, a, b);
    lemma_pass1_wf(sim, player, a, b);
    assert(pass1_upto(sim, player, a, b + 1) == step_cell(sim, player, g, a, b));
    lemma_pass1_stable(sim, player, a, b + 1, sim.width as int, 0);
}

/// Protection overrides the automaton: a cell within the campfire radius of
/// a campfire or the structure radius of a structure — and likewise any cell
/// outside the reality band — comes out of a tick's first pass with the wall
/// value it went in with, whatever its neighborhood holds.
pub proof fn lemma_pass1_frozen(sim: Simulator, player: TilePos, a: int, b: int)
    requires
        sim.wf(),
        0 <= a < sim.width,
        0 <= b < sim.width,
        sim.protected_at(a, b) || !(sim.band_lo() <= dist2i(
            a,
            b,
            player.x as int,
            player.y as int,
        ) <= sim.band_hi()),
    ensures
        pass1_full(sim, player)[a][b] == grid_seq(sim.grid.is_wall)[a][b],
{
    lemma_pass1_cell_value(sim, player, a, b);
    lemma_pass1_untouched(sim, player, a, b);
}

/// The reveal pass only adds to the reality bubble: however far a tick's
/// first pass has come, every cell that was remembered before the tick is
/// still remembered. Cells leave the bubble only through the forgetting
/// pass.
pub proof fn lemma_reveal_only_adds(
    o: Simulator,
    g: TileManager,
    player: TilePos,
    w: int,
    i: int,
    j: int,
)
    requires
        bubble_evolved(o, g, player, w, i, j),
    ensures
        forall|a: int, b: int|
            #![all_triggers]
            0 <= a < w && 0 <= b < w && o.grid.bubble_at(a, b) ==> g.bubble_at(a, b),
{
}

/// The next value of a cell reads only the wall grid, the player, the
/// automaton tuning, and what protection reads; the structure kinds and the
/// reality bubble play no part.
proof fn lemma_cell_next_congruent(
    s1: Simulator,
    s2: Simulator,
    g: Seq<Seq<bool>>,
    player: TilePos,
    i: int,
    j: int,
)
    requires
        s1.width == s2.width,
        s1.ca_params == s2.ca_params,
        s1.reality_params == s2.reality_params,
        s1.campfire_radius == s2.campfire_radius,
        s1.structure_radius == s2.structure_radius,
        s1.grid.campfires@ == s2.grid.campfires@,
        s1.grid.structures@.len() == s2.grid.structures@.len(),
        forall|k: int|
            0 <= k < s1.grid.structures@.len() ==> (#[trigger] s1.grid.structures@[k]).0
                == s2.grid.structures@[k].0,
    ensures
        cell_next(s1, g, player, i, j) == cell_next(s2, g, player, i, j),
{
    lemma_protection_congruent(s1, s2, i, j);
}

/// Protection reads only the campfires, the structure positions, and the two
/// protection radii; two simulator states that agree on those protect the
/// same cells.
proof fn lemma_protection_congruent(s1: Simulator, s2: Simulator, x: int, y: int)
    requires
        s1.campfire_radius == s2.campfire_radius,
        s1.structure_radius == s2.structure_radius,
        s1.grid.campfires@ == s2.grid.campfires@,
        s1.grid.structures@.len() == s2.grid.structures@.len(),
        forall|k: int|
            0 <= k < s1.grid.structures@.len() ==> (#[trigger] s1.grid.structures@[k]).0
                == s2.grid.structures@[k].0,
    ensures
        s1.cannot_forget_at(x, y) == s2.cannot_forget_at(x, y),
        s1.structure_near_at(x, y) == s2.structure_near_at(x, y),
        s1.protected_at(x, y) == s2.protected_at(x, y),
{
    if s1.cannot_forget_at(x, y) {
        let k = choose|k: int|
            0 <= k < s1.grid.campfires@.len() && dist2i(
                (#[trigger] s1.grid.campfires@[k]).x as int,
                s1.grid.campfires@[k].y as int,
                x,
                y,
            ) < (s1.campfire_radius as int) * (s1.campfire_radius as int);
        assert(s2.grid.campfires@[k] == s1.grid.campfires@[k]);
    }
    if s2.cannot_forget_at(x, y) {
        let k = choose|k: int|
            0 <= k < s2.grid.campfires@.len() && dist2i(
                (#[trigger] s2.grid.campfires@[k]).x as int,
                s2.grid.campfires@[k].y as int,
                x,
                y,
            ) < (s2.campfire_radius as int) * (s2.campfire_radius as int);
        assert(s1.grid.campfires@[k] == s2.grid.campfires@[k]);
    }
    if s1.structure_near_at(x, y) {
        let k = choose|k: int|
            0 <= k < s1.grid.structures@.len() && dist2i(
                (#[trigger] s1.grid.structures@[k]).0.x as int,
                s1.grid.structures@[k].0.y as int,
                x,
                y,
            ) <= (s1.structure_radius as int) * (s1.structure_radius as int);
        assert(s2.grid.structures@[k].0 == s1.grid.structures@[k].0);
    }
    if s2.structure_near_at(x, y) {
        let k = choose|k: int|
            0 <= k < s2.grid.structures@.len() && dist2i(
                (#[trigger] s2.grid.structures@[k]).0.x as int,
                s2.grid.structures@[k].0.y as int,
                x,
                y,
            ) <= (s2.structure_radius as int) * (s2.structure_radius as int);
        assert(s1.grid.structures@[k].0 == s2.grid.structures@[k].0);
    }
}

} // verus!
