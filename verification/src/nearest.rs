//! The pickup nearest to a player, which is shown highlighted.

use vstd::prelude::*;
use crate::geometry::{dist_sq, lemma_square_bounded, CollideType, Position};
use crate::resolve::lemma_same_live;
use crate::world::{Body, World, WorldView, COORD_LIMIT};

verus! {

/// A change of the highlighted pickup: the one to highlight and the one to
/// show plainly again, each if there is one.
#[derive(Clone, Copy, Debug, PartialEq, Eq, Structural)]
pub struct Highlight {
    pub on: Option<usize>,
    pub off: Option<usize>,
}

/// Whether `p` is the handle of a live player and `k` that of a live pickup.
pub open spec fn is_pair(bodies: Seq<Body>, p: int, k: int) -> bool {
    &&& 0 <= p < bodies.len()
    &&& 0 <= k < bodies.len()
    &&& bodies[p].is_live(CollideType::Player)
    &&& bodies[k].is_live(CollideType::Pickup)
}

/// Squared distance between the bodies with handles `p` and `k`.
pub open spec fn pair_dist(bodies: Seq<Body>, p: int, k: int) -> int {
    dist_sq(bodies[p].position, bodies[k].position)
}

/// Whether the pair `(pa, ka)` is looked at before the pair `(pb, kb)`:
/// players are taken by rising handle, and for each the pickups likewise.
pub open spec fn looked_at_before(pa: int, ka: int, pb: int, kb: int) -> bool {
    pa < pb || (pa == pb && ka < kb)
}

/// Whether `(p, k)` is the first pair of a live player and a live pickup at
/// the least distance: no pair is nearer, and every pair looked at before it
/// is farther.
pub open spec fn is_nearest(bodies: Seq<Body>, p: int, k: int) -> bool {
    &&& is_pair(bodies, p, k)
    &&& forall|pb: int, kb: int| #[trigger]
        is_pair(bodies, pb, kb) ==> pair_dist(bodies, p, k) <= pair_dist(bodies, pb, kb)
    &&& forall|pb: int, kb: int|
        #[trigger] is_pair(bodies, pb, kb) && looked_at_before(pb, kb, p, k) ==> pair_dist(
            bodies,
            p,
            k,
        ) < pair_dist(bodies, pb, kb)
}

/// Whether `r` is the pickup to highlight: the pickup of the first nearest
/// pair, or none where there is no pair at all.
pub open spec fn nearest_is(bodies: Seq<Body>, r: Option<usize>) -> bool {
    if r is Some {
        exists|p: int| #[trigger] is_nearest(bodies, p, r->0 as int)
    } else {
        forall|p: int, k: int| !#[trigger] is_pair(bodies, p, k)
    }
}

/// A first nearest pair gives the pickup to highlight.
proof fn lemma_nearest_witness(bodies: Seq<Body>, p: int, k: usize)
    requires
        is_nearest(bodies, p, k as int),
    ensures
        nearest_is(bodies, Some(k)),
{
    let r = Some(k);
    assert(r is Some);
    assert(r->0 == k);
    assert(exists|q: int| #[trigger] is_nearest(bodies, q, r->0 as int));
}

/// The pickup to highlight.
pub open spec fn nearest_of(bodies: Seq<Body>) -> Option<usize> {
    choose|r: Option<usize>| nearest_is(bodies, r)
}

/// There is only one pickup to highlight, so [`nearest_of`] names it.
pub proof fn lemma_nearest_unique(bodies: Seq<Body>, r: Option<usize>)
    requires
        nearest_is(bodies, r),
    ensures
        nearest_of(bodies) == r,
{
    let c = nearest_of(bodies);
    assert(nearest_is(bodies, c));
    match (r, c) {
        (Some(ka), Some(kb)) => {
            let pa = choose|p: int| is_nearest(bodies, p, ka as int);
            let pb = choose|p: int| is_nearest(bodies, p, kb as int);
            assert(is_pair(bodies, pa, ka as int));
            assert(is_pair(bodies, pb, kb as int));
            if looked_at_before(pa, ka as int, pb, kb as int) {
                assert(false);
            } else if looked_at_before(pb, kb as int, pa, ka as int) {
                assert(false);
            }
        },
        (Some(ka), None) => {
            let pa = choose|p: int| is_nearest(bodies, p, ka as int);
            assert(is_pair(bodies, pa, ka as int));
        },
        (None, Some(kb)) => {
            let pb = choose|p: int| is_nearest(bodies, p, kb as int);
            assert(is_pair(bodies, pb, kb as int));
        },
        (None, None) => {},
    }
}

/// What changes in the highlighting between the pickup remembered and the
/// one found: nothing while they are the same; else the one found is
/// highlighted and the one remembered is shown plainly.
pub open spec fn highlight_between(last: Option<usize>, found: Option<usize>) -> Option<Highlight> {
    if found == last {
        None
    } else {
        Some(Highlight { on: found, off: last })
    }
}

impl WorldView {
    /// The world after the nearest pickup was looked up and remembered.
    pub open spec fn nearest_picked(self) -> WorldView {
        WorldView { nearest: nearest_of(self.bodies), ..self }
    }

    /// What changes in the highlighting when the nearest pickup is looked
    /// up.
    pub open spec fn highlight_change(self) -> Option<Highlight> {
        highlight_between(self.nearest, nearest_of(self.bodies))
    }
}

/// Squared distance between two points within the coordinate limit.
fn distance_squared(a: Position, b: Position) -> (d: i128)
    requires
        -COORD_LIMIT <= a.x <= COORD_LIMIT,
        -COORD_LIMIT <= a.y <= COORD_LIMIT,
        -COORD_LIMIT <= b.x <= COORD_LIMIT,
        -COORD_LIMIT <= b.y <= COORD_LIMIT,
    ensures
        d == dist_sq(a, b),
{
    let dx: i128 = a.x as i128 - b.x as i128;
    let dy: i128 = a.y as i128 - b.y as i128;
    proof {
        lemma_square_bounded(dx as int, 0x4000_0000_0000_0000);
        lemma_square_bounded(dy as int, 0x4000_0000_0000_0000);
        assert(0x4000_0000_0000_0000int * 0x4000_0000_0000_0000int
            == 0x1000_0000_0000_0000_0000_0000_0000_0000int) by (nonlinear_arith);
    }
    dx * dx + dy * dy
}

/// What a search has found once every pair before `(p, k)` is looked at:
/// the first of the nearest pairs among them, or nothing where there is no
/// pair among them.
pub open spec fn found_so_far(bodies: Seq<Body>, best: Option<(int, int)>, p: int, k: int) -> bool {
    match best {
        Some((bp, bk)) => {
            &&& is_pair(bodies, bp, bk)
            &&& looked_at_before(bp, bk, p, k)
            &&& forall|pb: int, kb: int|
                #[trigger] is_pair(bodies, pb, kb) && looked_at_before(pb, kb, p, k) ==> pair_dist(
                    bodies,
                    bp,
                    bk,
                ) <= pair_dist(bodies, pb, kb)
            &&& forall|pb: int, kb: int|
                #[trigger] is_pair(bodies, pb, kb) && looked_at_before(pb, kb, bp, bk) ==> pair_dist(
                    bodies,
                    bp,
                    bk,
                ) < pair_dist(bodies, pb, kb)
        },
        None => forall|pb: int, kb: int|
            looked_at_before(pb, kb, p, k) ==> !#[trigger] is_pair(bodies, pb, kb),
    }
}

/// A search through the pairs before `(p, k)` always has a result.
proof fn lemma_search(bodies: Seq<Body>, p: int, k: int) -> (best: Option<(int, int)>)
    requires
        0 <= p,
        0 <= k <= bodies.len(),
    ensures
        found_so_far(bodies, best, p, k),
    decreases p, k,
{
    if k > 0 {
        let earlier = lemma_search(bodies, p, k - 1);
        let nearer = match earlier {
            Some((bp, bk)) => pair_dist(bodies, p, k - 1) < pair_dist(bodies, bp, bk),
            None => true,
        };
        if is_pair(bodies, p, k - 1) && nearer {
            Some((p, k - 1))
        } else {
            earlier
        }
    } else if p > 0 {
        let earlier = lemma_search(bodies, p - 1, bodies.len() as int);
        assert forall|pb: int, kb: int| #[trigger]
            is_pair(bodies, pb, kb) && looked_at_before(pb, kb, p, 0) implies looked_at_before(
            pb,
            kb,
            p - 1,
            bodies.len() as int,
        ) by {}
        earlier
    } else {
        None
    }
}

/// Every arena has a pickup to highlight, or none where no player has a
/// pickup to go to: [`nearest_of`] names what [`nearest_is`] describes.
pub proof fn lemma_nearest_exists(bodies: Seq<Body>)
    requires
        bodies.len() <= usize::MAX,
    ensures
        nearest_is(bodies, nearest_of(bodies)),
{
    let n = bodies.len() as int;
    let best = lemma_search(bodies, n, 0);
    assert forall|pb: int, kb: int| #[trigger] is_pair(bodies, pb, kb) implies looked_at_before(
        pb,
        kb,
        n,
        0,
    ) by {}
    match best {
        Some((bp, bk)) => {
            assert(is_nearest(bodies, bp, bk));
            lemma_nearest_witness(bodies, bp, bk as usize);
        },
        None => {
            assert(nearest_is(bodies, None));
        },
    }
}

/// The pair that the search holds, without its distance.
spec fn held_pair(best: Option<(usize, usize, i128)>) -> Option<(int, int)> {
    match best {
        Some((bp, bk, _)) => Some((bp as int, bk as int)),
        None => None,
    }
}

/// Whether the distance that the search holds is that of its pair.
spec fn holds_distance(bodies: Seq<Body>, best: Option<(usize, usize, i128)>) -> bool {
    match best {
        Some((bp, bk, bd)) => bd == pair_dist(bodies, bp as int, bk as int),
        None => true,
    }
}

impl World {
    /// The pickup nearest to a player, by the first nearest pair.
    pub fn find_nearest(&self) -> (r: Option<usize>)
        requires
            self.wf(),
        ensures
            r == nearest_of(self@.bodies),
            nearest_is(self@.bodies, r),
    {
        let n: usize = self.bodies.len();
        let mut best: Option<(usize, usize, i128)> = None;
        let mut p: usize = 0;
        while p < n
            invariant
                self.wf(),
                n == self@.bodies.len(),
                p <= n,
                found_so_far(self@.bodies, held_pair(best), p as int, 0),
                holds_distance(self@.bodies, best),
            decreases n - p,
        {
            let player = self.bodies[p];
            if player.alive && player.collider.kind == CollideType::Player {
                let mut k: usize = 0;
                while k < n
                    invariant
                        self.wf(),
                        n == self@.bodies.len(),
                        p < n,
                        k <= n,
                        player == self@.bodies[p as int],
                        player.is_live(CollideType::Player),
                        found_so_far(self@.bodies, held_pair(best), p as int, k as int),
                        holds_distance(self@.bodies, best),
                    decreases n - k,
                {
                    let pickup = self.bodies[k];
                    if pickup.alive && pickup.collider.kind == CollideType::Pickup {
                        assert(self@.bodies[p as int].wf());
                        assert(self@.bodies[k as int].wf());
                        let d: i128 = distance_squared(player.position, pickup.position);
                        let nearer: bool = match best {
                            Some((_, _, bd)) => d < bd,
                            None => true,
                        };
                        if nearer {
                            best = Some((p, k, d));
                        }
                    }
                    k += 1;
                }
            }
            assert(found_so_far(self@.bodies, held_pair(best), p as int + 1, 0));
            p += 1;
        }
        let r: Option<usize> = match best {
            Some((_, bk, _)) => Some(bk),
            None => None,
        };
        proof {
            match best {
                Some((bp, bk, bd)) => {
                    assert forall|pb: int, kb: int| #[trigger]
                        is_pair(self@.bodies, pb, kb) implies looked_at_before(pb, kb, n as int, 0) by {}
                    assert(is_nearest(self@.bodies, bp as int, bk as int));
                    lemma_nearest_witness(self@.bodies, bp as int, bk);
                },
                None => {
                    assert forall|pb: int, kb: int| !#[trigger] is_pair(self@.bodies, pb, kb) by {
                        if is_pair(self@.bodies, pb, kb) {
                            assert(looked_at_before(pb, kb, n as int, 0));
                        }
                    }
                },
            }
            lemma_nearest_unique(self@.bodies, r);
        }
        r
    }

    /// Looks the nearest pickup up, remembers it, and says what changes in
    /// the highlighting.
    pub fn nearest_pick(&mut self) -> (change: Option<Highlight>)
        requires
            old(self).wf(),
        ensures
            final(self).wf(),
            final(self)@ == old(self)@.nearest_picked(),
            nearest_is(final(self)@.bodies, final(self)@.nearest),
            change == old(self)@.highlight_change(),
    {
        let found = self.find_nearest();
        let last = self.nearest;
        let same: bool = match (found, last) {
            (Some(a), Some(b)) => a == b,
            (None, None) => true,
            _ => false,
        };
        self.nearest = found;
        proof {
            assert(self@.bodies == old(self)@.bodies);
            assert(self@.stars == old(self)@.stars);
            lemma_same_live(old(self)@.bodies, self@.bodies, CollideType::Pickup);
        }
        if same {
            None
        } else {
            Some(Highlight { on: found, off: last })
        }
    }
}

} // verus!
