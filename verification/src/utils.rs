//! Shared geometry and spatial sampling: tile coordinates, squared Euclidean
//! distance, and Poisson-disk sampling with a minimum pairwise separation.

use crate::rng::rand_below;
use vstd::prelude::*;

verus! {

/// Half the default grid side: the world is a `2 * MAP_RADIUS` square of tiles.
pub const MAP_RADIUS: usize = 100;

/// Largest coordinate value the grid addresses (32-bit tile coordinates).
pub const COORD_MAX: usize = 0xFFFF_FFFF;

/// A tile coordinate on the square grid.
#[derive(Clone, Copy, Debug, PartialEq, Eq, Structural, Hash)]
pub struct TilePos {
    pub x: usize,
    pub y: usize,
}

impl TilePos {
    /// Both coordinates fit the 32-bit tile-coordinate range, so squared
    /// distances fit comfortably in 128-bit arithmetic.
    pub open spec fn fits(self) -> bool {
        self.x <= COORD_MAX && self.y <= COORD_MAX
    }
}

/// Squared Euclidean distance between two points given by coordinates.
pub open spec fn dist2i(ax: int, ay: int, bx: int, by: int) -> int {
    (ax - bx) * (ax - bx) + (ay - by) * (ay - by)
}

/// Squared Euclidean distance between two tile positions.
pub open spec fn dist2_spec(a: TilePos, b: TilePos) -> int {
    dist2i(a.x as int, a.y as int, b.x as int, b.y as int)
}

/// Squared distance, computed exactly in 128-bit arithmetic.
pub fn dist2(a: TilePos, b: TilePos) -> (r: u128)
    requires
        a.fits(),
        b.fits(),
    ensures
        r == dist2_spec(a, b),
{
    let dx: u128 = if a.x >= b.x {
        (a.x - b.x) as u128
    } else {
        (b.x - a.x) as u128
    };
    let dy: u128 = if a.y >= b.y {
        (a.y - b.y) as u128
    } else {
        (b.y - a.y) as u128
    };
    proof {
        assert((a.x - b.x) * (a.x - b.x) == dx * dx) by (nonlinear_arith)
            requires
                dx == if a.x >= b.x { a.x - b.x } else { b.x - a.x },
        ;
        assert((a.y - b.y) * (a.y - b.y) == dy * dy) by (nonlinear_arith)
            requires
                dy == if a.y >= b.y { a.y - b.y } else { b.y - a.y },
        ;
        assert(dx * dx + dy * dy <= u128::MAX) by (nonlinear_arith)
            requires
                dx <= 0xFFFF_FFFFu64 && dy <= 0xFFFF_FFFFu64,
        ;
    }
    dx * dx + dy * dy
}

/// The square of a radius, for comparing against squared distances.
pub fn radius2(r: usize) -> (s: u128)
    requires
        r <= COORD_MAX,
    ensures
        s == r * r,
{
    proof {
        assert(r * r <= u128::MAX) by (nonlinear_arith)
            requires
                r <= 0xFFFF_FFFFusize,
        ;
    }
    (r as u128) * (r as u128)
}

/// Squared distance does not depend on the order of its endpoints.
pub proof fn lemma_dist2_symmetric(a: TilePos, b: TilePos)
    ensures
        dist2_spec(a, b) == dist2_spec(b, a),
{
    assert((a.x - b.x) * (a.x - b.x) == (b.x - a.x) * (b.x - a.x)) by (nonlinear_arith);
    assert((a.y - b.y) * (a.y - b.y) == (b.y - a.y) * (b.y - a.y)) by (nonlinear_arith);
}

/// Squared distance is never negative.
pub proof fn lemma_dist2_nonneg(a: TilePos, b: TilePos)
    ensures
        dist2_spec(a, b) >= 0,
{
    assert((a.x - b.x) * (a.x - b.x) >= 0) by (nonlinear_arith);
    assert((a.y - b.y) * (a.y - b.y) >= 0) by (nonlinear_arith);
}

/// Every two distinct points of the sequence lie at least `min_dist` apart.
pub open spec fn pairwise_separated(s: Seq<TilePos>, min_dist: int) -> bool {
    forall|i: int, j: int|
        0 <= i < s.len() && 0 <= j < s.len() && i != j ==> dist2_spec(s[i], s[j])
            >= min_dist * min_dist
}

/// All coordinates of the sequence fit the 32-bit range.
pub open spec fn all_fit(s: Seq<TilePos>) -> bool {
    forall|k: int| 0 <= k < s.len() ==> s[k].fits()
}

/// Whether `a` keeps the minimum separation from every already accepted point.
fn separated_from_all(pts: &Vec<TilePos>, a: TilePos, min_dist: usize) -> (r: bool)
    requires
        all_fit(pts@),
        a.fits(),
        min_dist <= COORD_MAX,
    ensures
        r == forall|k: int| 0 <= k < pts@.len() ==> dist2_spec(pts@[k], a) >= min_dist * min_dist,
{
    let bound = radius2(min_dist);
    let mut k: usize = 0;
    while k < pts.len()
        invariant
            k <= pts@.len(),
            all_fit(pts@),
            a.fits(),
            min_dist <= COORD_MAX,
            bound == min_dist * min_dist,
            forall|i: int| 0 <= i < k ==> dist2_spec(pts@[i], a) >= min_dist * min_dist,
        decreases pts@.len() - k,
    {
        if dist2(pts[k], a) < bound {
            return false;
        }
        k = k + 1;
    }
    true
}

/// Poisson-disk sampling: draw `count` random points from `elems` such that
/// every two accepted points lie at least `min_dist` apart. Each slot accepts
/// the first draw that keeps the separation and gives up after a hard cap of
/// 1000 redraws, which signals that the candidate space cannot support the
/// requested density. Where no draw can ever be rejected — at most one point
/// wanted, or no separation demanded — success is certain and promised.
pub fn poisson_disk_sample(elems: &Vec<TilePos>, min_dist: usize, count: usize) -> (r: Option<
    Vec<TilePos>,
>)
    requires
        all_fit(elems@),
        min_dist <= COORD_MAX,
        count > 0 ==> elems@.len() > 0,
    ensures
        r matches Some(v) ==> {
            &&& v@.len() == count
            &&& forall|k: int| 0 <= k < v@.len() ==> elems@.contains(v@[k])
            &&& pairwise_separated(v@, min_dist as int)
        },
        count <= 1 ==> r is Some,
        min_dist == 0 ==> r is Some,
{
    let mut res: Vec<TilePos> = Vec::new();
    let mut slot: usize = 0;
    while slot < count
        invariant
            slot <= count,
            res@.len() == slot,
            all_fit(elems@),
            min_dist <= COORD_MAX,
            count > 0 ==> elems@.len() > 0,
            all_fit(res@),
            forall|k: int| 0 <= k < res@.len() ==> elems@.contains(res@[k]),
            pairwise_separated(res@, min_dist as int),
        decreases count - slot,
    {
        let idx = rand_below(elems.len() as u64) as usize;
        let mut a = elems[idx];
        let mut tries: u32 = 1000;
        let mut ok = separated_from_all(&res, a, min_dist);
        proof {
            if min_dist == 0 {
                assert(min_dist * min_dist == 0) by (nonlinear_arith)
                    requires
                        min_dist == 0,
                ;
                assert forall|k: int| 0 <= k < res@.len() implies dist2_spec(res@[k], a)
                    >= min_dist * min_dist by {
                    lemma_dist2_nonneg(res@[k], a);
                }
            }
        }
        while !ok && tries > 0
            invariant
                all_fit(elems@),
                all_fit(res@),
                min_dist <= COORD_MAX,
                elems@.len() > 0,
                a.fits(),
                elems@.contains(a),
                ok == forall|k: int|
                    0 <= k < res@.len() ==> dist2_spec(res@[k], a) >= min_dist * min_dist,
                min_dist == 0 || res@.len() == 0 ==> ok && tries == 1000,
            decreases tries,
        {
            let idx2 = rand_below(elems.len() as u64) as usize;
            a = elems[idx2];
            tries = tries - 1;
            ok = separated_from_all(&res, a, min_dist);
        }
        if tries == 0 {
            // Unreachable when success is owed: with no separation demanded,
            // or an empty accepted set, the first draw was already in place.
            proof {
                if count <= 1 || min_dist == 0 {
                    assert(res@.len() == 0 || min_dist == 0);
                    assert(false);
                }
            }
            return None;
        }
        proof {
            assert forall|i: int, j: int|
                0 <= i < res@.len() + 1 && 0 <= j < res@.len() + 1 && i != j implies dist2_spec(
                res@.push(a)[i],
                res@.push(a)[j],
            ) >= (min_dist as int) * (min_dist as int) by {
                if i == res@.len() {
                    lemma_dist2_symmetric(res@[j], a);
                } else if j == res@.len() {
                } else {
                }
            }
        }
        res.push(a);
        slot = slot + 1;
    }
    Some(res)
}

} // verus!
