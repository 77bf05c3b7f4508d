//! The collision detector: every pair of live bodies is tested once, and each
//! touching pair is reported with the lower kind first.

use vstd::prelude::*;
use crate::geometry::{lemma_overlap_symmetric, overlap, touching, CollideType};
use crate::world::{Body, World};

verus! {

/// Two bodies touch. The first handle is that of the body whose kind comes
/// first in the order of kinds.
#[derive(Clone, Copy, Debug, PartialEq, Eq, Structural, Hash)]
pub struct CollisionEvent(pub usize, pub usize);

/// Whether the pair of handles `a < b` is reported: both bodies are live and
/// their disks touch.
pub open spec fn reports(bodies: Seq<Body>, a: int, b: int) -> bool {
    &&& 0 <= a < b < bodies.len()
    &&& bodies[a].alive
    &&& bodies[b].alive
    &&& touching(
        bodies[a].position,
        bodies[a].collider.radius as int,
        bodies[b].position,
        bodies[b].collider.radius as int,
    )
}

/// The event for the pair `a < b`: the body of the strictly lower kind comes
/// first; between bodies of one kind the higher handle comes first.
pub open spec fn event_of(bodies: Seq<Body>, a: int, b: int) -> CollisionEvent {
    if bodies[a].collider.kind.precedes(bodies[b].collider.kind) {
        CollisionEvent(a as usize, b as usize)
    } else {
        CollisionEvent(b as usize, a as usize)
    }
}

/// The events of body `a` with the bodies after it and before `b`, by rising
/// handle.
pub open spec fn row_events(bodies: Seq<Body>, a: int, b: int) -> Seq<CollisionEvent>
    decreases b - a,
{
    if b <= a + 1 {
        Seq::empty()
    } else if reports(bodies, a, b - 1) {
        row_events(bodies, a, b - 1).push(event_of(bodies, a, b - 1))
    } else {
        row_events(bodies, a, b - 1)
    }
}

/// The events of the bodies before `a`, each with all bodies after it.
pub open spec fn scan_events(bodies: Seq<Body>, a: int) -> Seq<CollisionEvent>
    decreases a,
{
    if a <= 0 {
        Seq::empty()
    } else {
        scan_events(bodies, a - 1) + row_events(bodies, a - 1, bodies.len() as int)
    }
}

/// What the detector reports for an arena: the events of all pairs `a < b`
/// that touch, ordered by `a` and then by `b`.
pub open spec fn detect_events(bodies: Seq<Body>) -> Seq<CollisionEvent> {
    scan_events(bodies, bodies.len() as int)
}

/// Scans all pairs of bodies and reports those that touch.
pub fn detect(bodies: &Vec<Body>) -> (events: Vec<CollisionEvent>)
    ensures
        events@ == detect_events(bodies@),
{
    let n: usize = bodies.len();
    let mut events: Vec<CollisionEvent> = Vec::new();
    let mut a: usize = 0;
    while a < n
        invariant
            n == bodies.len(),
            a <= n,
            events@ == scan_events(bodies@, a as int),
        decreases n - a,
    {
        let ghost before = events@;
        let first = bodies[a];
        let mut b: usize = a + 1;
        while b < n
            invariant
                n == bodies.len(),
                a < n,
                a + 1 <= b <= n,
                first == bodies@[a as int],
                events@ == before + row_events(bodies@, a as int, b as int),
            decreases n - b,
        {
            let second = bodies[b];
            if first.alive && second.alive && overlap(
                first.position,
                first.collider,
                second.position,
                second.collider,
            ) {
                let event = if first.collider.kind.comes_before(second.collider.kind) {
                    CollisionEvent(a, b)
                } else {
                    CollisionEvent(b, a)
                };
                events.push(event);
                assert(events@ == before + row_events(bodies@, a as int, b as int + 1));
            }
            b += 1;
        }
        a += 1;
    }
    events
}

/// The lower of the two handles of an event.
pub open spec fn low(e: CollisionEvent) -> int {
    if e.0 <= e.1 {
        e.0 as int
    } else {
        e.1 as int
    }
}

/// The higher of the two handles of an event.
pub open spec fn high(e: CollisionEvent) -> int {
    if e.0 <= e.1 {
        e.1 as int
    } else {
        e.0 as int
    }
}

/// Whether `e` is the event of a reported pair of `bodies`.
pub open spec fn is_reported(bodies: Seq<Body>, e: CollisionEvent) -> bool {
    &&& reports(bodies, low(e), high(e))
    &&& e == event_of(bodies, low(e), high(e))
}

/// Whether the pair of `e1` comes before the pair of `e2` in the order of the
/// scan: by lower handle, then by higher handle.
pub open spec fn scanned_before(e1: CollisionEvent, e2: CollisionEvent) -> bool {
    low(e1) < low(e2) || (low(e1) == low(e2) && high(e1) < high(e2))
}

/// The event of a pair holds its two handles.
proof fn lemma_event_handles(bodies: Seq<Body>, a: int, b: int)
    requires
        0 <= a < b < bodies.len() <= usize::MAX,
    ensures
        low(event_of(bodies, a, b)) == a,
        high(event_of(bodies, a, b)) == b,
{
}

/// The events of one body: each is that of a reported pair with a later
/// body, they come by rising handle, and no reported pair is missing.
proof fn lemma_row(bodies: Seq<Body>, a: int, b: int)
    requires
        0 <= a,
        b <= bodies.len() <= usize::MAX,
    ensures
        row_events(bodies, a, b).len() <= (if b > a + 1 {
            b - a - 1
        } else {
            0
        }),
        forall|k: int|
            0 <= k < row_events(bodies, a, b).len() ==> {
                let e = #[trigger] row_events(bodies, a, b)[k];
                low(e) == a && high(e) < b && is_reported(bodies, e)
            },
        forall|k1: int, k2: int|
            0 <= k1 < k2 < row_events(bodies, a, b).len() ==> high(
                #[trigger] row_events(bodies, a, b)[k1],
            ) < high(#[trigger] row_events(bodies, a, b)[k2]),
        forall|j: int|
            a < j < b && #[trigger] reports(bodies, a, j) ==> row_events(bodies, a, b).contains(
                event_of(bodies, a, j),
            ),
    decreases b - a,
{
    if b > a + 1 {
        lemma_row(bodies, a, b - 1);
        let shorter = row_events(bodies, a, b - 1);
        let row = row_events(bodies, a, b);
        if reports(bodies, a, b - 1) {
            lemma_event_handles(bodies, a, b - 1);
            assert forall|j: int| a < j < b && #[trigger] reports(bodies, a, j) implies row.contains(
                event_of(bodies, a, j),
            ) by {
                if j < b - 1 {
                    let k = choose|k: int|
                        0 <= k < shorter.len() && shorter[k] == event_of(bodies, a, j);
                    assert(row[k] == event_of(bodies, a, j));
                } else {
                    assert(row[shorter.len() as int] == event_of(bodies, a, j));
                }
            }
        }
    }
}

/// The events of the first `a` bodies: each is that of a reported pair,
/// they come in the order of the scan, no reported pair is missing, and
/// there are no more of them than there are pairs.
proof fn lemma_scan(bodies: Seq<Body>, a: int)
    requires
        0 <= a <= bodies.len() <= usize::MAX,
    ensures
        2 * scan_events(bodies, a).len() <= a * (2 * bodies.len() - a - 1),
        forall|k: int|
            0 <= k < scan_events(bodies, a).len() ==> {
                let e = #[trigger] scan_events(bodies, a)[k];
                low(e) < a && is_reported(bodies, e)
            },
        forall|k1: int, k2: int|
            0 <= k1 < k2 < scan_events(bodies, a).len() ==> scanned_before(
                #[trigger] scan_events(bodies, a)[k1],
                #[trigger] scan_events(bodies, a)[k2],
            ),
        forall|i: int, j: int|
            0 <= i < a && #[trigger] reports(bodies, i, j) ==> scan_events(bodies, a).contains(
                event_of(bodies, i, j),
            ),
    decreases a,
{
    if a > 0 {
        let n = bodies.len() as int;
        lemma_scan(bodies, a - 1);
        lemma_row(bodies, a - 1, n);
        let head = scan_events(bodies, a - 1);
        let row = row_events(bodies, a - 1, n);
        let scan = scan_events(bodies, a);
        assert(scan == head + row);
        assert(2 * scan.len() <= a * (2 * n - a - 1)) by (nonlinear_arith)
            requires
                scan.len() == head.len() + row.len(),
                2 * head.len() <= (a - 1) * (2 * n - (a - 1) - 1),
                row.len() <= n - a,
                0 < a <= n,
        ;
        assert forall|k: int| 0 <= k < scan.len() implies {
            let e = #[trigger] scan[k];
            low(e) < a && is_reported(bodies, e)
        } by {
            if k < head.len() {
                assert(scan[k] == head[k]);
            } else {
                assert(scan[k] == row[k - head.len()]);
            }
        }
        assert forall|k1: int, k2: int| 0 <= k1 < k2 < scan.len() implies scanned_before(
            #[trigger] scan[k1],
            #[trigger] scan[k2],
        ) by {
            if k2 < head.len() {
                assert(scan[k1] == head[k1]);
                assert(scan[k2] == head[k2]);
            } else if k1 < head.len() {
                assert(scan[k1] == head[k1]);
                assert(scan[k2] == row[k2 - head.len()]);
            } else {
                assert(scan[k1] == row[k1 - head.len()]);
                assert(scan[k2] == row[k2 - head.len()]);
            }
        }
        assert forall|i: int, j: int| 0 <= i < a && #[trigger] reports(bodies, i, j) implies scan.contains(
            event_of(bodies, i, j),
        ) by {
            if i < a - 1 {
                let k = choose|k: int| 0 <= k < head.len() && head[k] == event_of(bodies, i, j);
                assert(scan[k] == event_of(bodies, i, j));
            } else {
                let k = choose|k: int| 0 <= k < row.len() && row[k] == event_of(bodies, i, j);
                assert(scan[head.len() + k] == event_of(bodies, i, j));
            }
        }
    }
}

/// Every event of the detector names two different live bodies that touch,
/// and the kind of the second does not come before the kind of the first.
pub proof fn lemma_detect_sound(bodies: Seq<Body>, k: int)
    requires
        bodies.len() <= usize::MAX,
        0 <= k < detect_events(bodies).len(),
    ensures
        is_reported(bodies, detect_events(bodies)[k]),
        detect_events(bodies)[k].0 != detect_events(bodies)[k].1,
        !bodies[detect_events(bodies)[k].1 as int].collider.kind.precedes(
            bodies[detect_events(bodies)[k].0 as int].collider.kind,
        ),
{
    lemma_scan(bodies, bodies.len() as int);
}

/// Every pair of live bodies that touch has its event among those of the
/// detector.
pub proof fn lemma_detect_complete(bodies: Seq<Body>, a: int, b: int)
    requires
        bodies.len() <= usize::MAX,
        reports(bodies, a, b),
    ensures
        detect_events(bodies).contains(event_of(bodies, a, b)),
{
    lemma_scan(bodies, bodies.len() as int);
}

/// No pair of bodies is reported twice: two events at different places of
/// the detector's output differ in a handle, whatever their direction.
pub proof fn lemma_detect_no_duplicates(bodies: Seq<Body>, k1: int, k2: int)
    requires
        bodies.len() <= usize::MAX,
        0 <= k1 < detect_events(bodies).len(),
        0 <= k2 < detect_events(bodies).len(),
        k1 != k2,
    ensures
        low(detect_events(bodies)[k1]) != low(detect_events(bodies)[k2]) || high(
            detect_events(bodies)[k1],
        ) != high(detect_events(bodies)[k2]),
{
    lemma_scan(bodies, bodies.len() as int);
    let events = detect_events(bodies);
    if k1 < k2 {
        assert(scanned_before(events[k1], events[k2]));
    } else {
        assert(scanned_before(events[k2], events[k1]));
    }
}

/// Among `n` bodies the detector reports at most `n * (n - 1) / 2` events.
pub proof fn lemma_detect_bound(bodies: Seq<Body>)
    requires
        bodies.len() <= usize::MAX,
    ensures
        2 * detect_events(bodies).len() <= bodies.len() * (bodies.len() - 1),
{
    lemma_scan(bodies, bodies.len() as int);
}

/// A player and a pickup that touch are reported with the player first,
/// whichever of the two has the lower handle, and never the other way round.
pub proof fn lemma_player_reported_first(bodies: Seq<Body>, player: int, pickup: int)
    requires
        bodies.len() <= usize::MAX,
        0 <= player < bodies.len(),
        0 <= pickup < bodies.len(),
        bodies[player].is_live(CollideType::Player),
        bodies[pickup].is_live(CollideType::Pickup),
        touching(
            bodies[player].position,
            bodies[player].collider.radius as int,
            bodies[pickup].position,
            bodies[pickup].collider.radius as int,
        ),
    ensures
        detect_events(bodies).contains(CollisionEvent(player as usize, pickup as usize)),
        !detect_events(bodies).contains(CollisionEvent(pickup as usize, player as usize)),
{
    let events = detect_events(bodies);
    let forward = CollisionEvent(player as usize, pickup as usize);
    let backward = CollisionEvent(pickup as usize, player as usize);
    if player < pickup {
        lemma_detect_complete(bodies, player, pickup);
    } else {
        lemma_overlap_symmetric(
            bodies[player].position,
            bodies[player].collider.radius as int,
            bodies[pickup].position,
            bodies[pickup].collider.radius as int,
        );
        lemma_detect_complete(bodies, pickup, player);
    }
    if events.contains(backward) {
        let k = choose|k: int| 0 <= k < events.len() && events[k] == backward;
        lemma_detect_sound(bodies, k);
    }
}

impl World {
    /// The collisions among the bodies as they stand. The world is only read.
    pub fn detect_collisions(&self) -> (events: Vec<CollisionEvent>)
        ensures
            events@ == detect_events(self@.bodies),
    {
        detect(&self.bodies)
    }
}

} // verus!
