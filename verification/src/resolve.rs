//! The collision resolver: each event is dispatched on the kinds of its two
//! bodies and changes the score, the difficulty, the arena or the game state.

use vstd::prelude::*;
use crate::detect::CollisionEvent;
use crate::geometry::CollideType;
use crate::state::GameState;
use crate::world::{has_live, Body, OrbsRGB, Speed, World, WorldView, COLOR_FULL, COLOR_STEP, THRESHOLD};

verus! {

/// A pickup was consumed or displaced and has to be relocated.
#[derive(Clone, Copy, Debug, PartialEq, Eq, Structural, Hash)]
pub struct PickupCollision(pub usize);

/// The arena after the body with handle `id` was despawned.
pub open spec fn despawned(bodies: Seq<Body>, id: int) -> Seq<Body> {
    bodies.update(id, Body { alive: false, ..bodies[id] })
}

/// The arena after every body of the given kind was despawned.
pub open spec fn without_kind(bodies: Seq<Body>, kind: CollideType) -> Seq<Body> {
    Seq::new(
        bodies.len(),
        |i: int|
            if bodies[i].collider.kind == kind {
                Body { alive: false, ..bodies[i] }
            } else {
                bodies[i]
            },
    )
}

/// The radius of the player's growth indicator at the given score.
pub open spec fn growth_at(player_size: u32, score: u32) -> u32 {
    (player_size as int * score / (THRESHOLD as int)) as u32
}

impl WorldView {
    /// The world after the player collected a pickup. The score rises by one.
    /// Up to the threshold the player's indicator grows with the score, the
    /// orbs gain a step of speed and their colour a step of blue. From the
    /// threshold on all pickups are despawned.
    pub open spec fn collected(self) -> WorldView {
        let score = (self.score + 1) as u32;
        let ramped = if score <= THRESHOLD {
            WorldView {
                score,
                growth: growth_at(self.sizes.player, score),
                speed: Speed {
                    orb: (self.speed.orb + self.field.orb_speed_step()) as u32,
                    ..self.speed
                },
                color: self.color.shifted(),
                ..self
            }
        } else {
            WorldView { score, ..self }
        };
        if score >= THRESHOLD {
            WorldView { bodies: without_kind(ramped.bodies, CollideType::Pickup), ..ramped }
        } else {
            ramped
        }
    }

    /// The world after the player ran into the orb with handle `orb`: below
    /// the threshold the player is dead, from the threshold on the orb is
    /// despawned.
    pub open spec fn struck(self, orb: int) -> WorldView {
        if self.score < THRESHOLD {
            WorldView { state: GameState::Dead, ..self }
        } else {
            WorldView { bodies: despawned(self.bodies, orb), ..self }
        }
    }

    /// The world after one event. An event that names a body which is not
    /// live, or a pair of kinds other than player and pickup or player and
    /// orb, changes nothing.
    pub open spec fn resolve(self, e: CollisionEvent) -> WorldView {
        match (self.live_kind(e.0 as int), self.live_kind(e.1 as int)) {
            (Some(CollideType::Player), Some(CollideType::Pickup)) => self.collected(),
            (Some(CollideType::Player), Some(CollideType::Orb)) => self.struck(e.1 as int),
            _ => self,
        }
    }

    /// The pickup that one event sends away: the one the player collected,
    /// or the one an orb ran over.
    pub open spec fn follow_up(self, e: CollisionEvent) -> Option<PickupCollision> {
        match (self.live_kind(e.0 as int), self.live_kind(e.1 as int)) {
            (Some(CollideType::Player), Some(CollideType::Pickup)) => Some(PickupCollision(e.1)),
            (Some(CollideType::Pickup), Some(CollideType::Orb)) => Some(PickupCollision(e.0)),
            _ => None,
        }
    }

    /// The world after the events, each resolved in full before the next.
    pub open spec fn resolve_all(self, events: Seq<CollisionEvent>) -> WorldView
        decreases events.len(),
    {
        if events.len() == 0 {
            self
        } else {
            self.resolve_all(events.drop_last()).resolve(events.last())
        }
    }

    /// The pickups that the events send away, in the order of the events.
    /// Each event is judged in the world that the events before it left.
    pub open spec fn follow_ups(self, events: Seq<CollisionEvent>) -> Seq<PickupCollision>
        decreases events.len(),
    {
        if events.len() == 0 {
            Seq::empty()
        } else {
            let sent = self.follow_ups(events.drop_last());
            match self.resolve_all(events.drop_last()).follow_up(events.last()) {
                Some(p) => sent.push(p),
                None => sent,
            }
        }
    }
}

/// One more point allows the orbs one more step of speed.
proof fn lemma_ramp_step(base: int, score: int, step: int)
    by (nonlinear_arith)
    ensures
        base + score * step + step == base + (score + 1) * step,
{
}

/// Up to the threshold the steps of speed come to at most a hundred.
pub(crate) proof fn lemma_ramp_bounded(score: int, step: int)
    by (nonlinear_arith)
    requires
        0 <= score <= 100,
        0 <= step,
    ensures
        0 <= score * step <= 100 * step,
{
}

/// Up to the threshold the indicator is no larger than the player.
proof fn lemma_growth_fits(size: int, score: int)
    by (nonlinear_arith)
    requires
        0 <= size,
        0 <= score <= 100,
    ensures
        0 <= size * score / 100 <= size,
{
}

/// Where no body changes its kind or comes to life, no kind gains a live
/// body.
pub(crate) proof fn lemma_same_live(before: Seq<Body>, after: Seq<Body>, kind: CollideType)
    requires
        before.len() == after.len(),
        forall|i: int|
            0 <= i < after.len() && (#[trigger] after[i]).is_live(kind) ==> before[i].is_live(kind),
    ensures
        has_live(after, kind) ==> has_live(before, kind),
{
    if has_live(after, kind) {
        let i = choose|i: int| 0 <= i < after.len() && (#[trigger] after[i]).is_live(kind);
        assert(before[i].is_live(kind));
    }
}

/// Despawning bodies brings no kind to life.
proof fn lemma_fewer_live(before: Seq<Body>, after: Seq<Body>, kind: CollideType)
    requires
        before.len() == after.len(),
        forall|i: int|
            0 <= i < after.len() && (#[trigger] after[i]).is_live(kind) ==> before[i].is_live(kind),
        !has_live(before, kind),
    ensures
        !has_live(after, kind),
{
    if has_live(after, kind) {
        let i = choose|i: int| 0 <= i < after.len() && (#[trigger] after[i]).is_live(kind);
        assert(before[i].is_live(kind));
    }
}

/// Every event keeps the invariant of the world.
pub proof fn lemma_resolve_keeps_wf(w: WorldView, e: CollisionEvent)
    requires
        w.wf(),
    ensures
        w.resolve(e).wf(),
{
    let first = w.live_kind(e.0 as int);
    let second = w.live_kind(e.1 as int);
    let after = w.resolve(e);
    if first == Some(CollideType::Player) && second == Some(CollideType::Pickup) {
        assert(w.bodies[e.1 as int].is_live(CollideType::Pickup));
        lemma_growth_fits(w.sizes.player as int, w.score + 1);
        lemma_ramp_step(
            w.field.initial_orb_speed() as int,
            w.score as int,
            w.field.orb_speed_step() as int,
        );
        lemma_ramp_bounded(w.score as int, w.field.orb_speed_step() as int);
        assert forall|i: int| 0 <= i < after.bodies.len() implies (#[trigger] after.bodies[i]).wf() by {
            assert(w.bodies[i].wf());
        }
        if after.score == THRESHOLD {
            if has_live(after.bodies, CollideType::Pickup) {
                let i = choose|i: int|
                    0 <= i < after.bodies.len() && (#[trigger] after.bodies[i]).is_live(
                        CollideType::Pickup,
                    );
                assert(false);
            }
        }
    } else if first == Some(CollideType::Player) && second == Some(CollideType::Orb) {
        if w.score >= THRESHOLD {
            assert forall|i: int| 0 <= i < after.bodies.len() implies (#[trigger] after.bodies[i]).wf() by {
                assert(w.bodies[i].wf());
            }
            lemma_fewer_live(w.bodies, after.bodies, CollideType::Pickup);
        }
    }
}

/// A sequence of events keeps the invariant and never lowers the score.
pub proof fn lemma_resolve_all_keeps_wf(w: WorldView, events: Seq<CollisionEvent>)
    requires
        w.wf(),
    ensures
        w.resolve_all(events).wf(),
        w.resolve_all(events).score >= w.score,
    decreases events.len(),
{
    if events.len() > 0 {
        lemma_resolve_all_keeps_wf(w, events.drop_last());
        lemma_resolve_keeps_wf(w.resolve_all(events.drop_last()), events.last());
        lemma_score_never_falls(w.resolve_all(events.drop_last()), events.last());
    }
}

/// What no event touches: the playfield, the stars, the timer, the sizes,
/// the remembered pickup, and of every body its collider and its place. No
/// event brings a body to life.
pub open spec fn only_resolved(before: WorldView, after: WorldView) -> bool {
    &&& after.field == before.field
    &&& after.stars == before.stars
    &&& after.timer_ms == before.timer_ms
    &&& after.sizes == before.sizes
    &&& after.nearest == before.nearest
    &&& after.bodies.len() == before.bodies.len()
    &&& forall|i: int|
        0 <= i < before.bodies.len() ==> {
            &&& (#[trigger] after.bodies[i]).collider == before.bodies[i].collider
            &&& after.bodies[i].position == before.bodies[i].position
            &&& after.bodies[i].alive ==> before.bodies[i].alive
        }
}

/// Resolving events changes nothing but the score, the difficulty, the game
/// state and which bodies are live.
pub proof fn lemma_resolve_all_frame(w: WorldView, events: Seq<CollisionEvent>)
    ensures
        only_resolved(w, w.resolve_all(events)),
    decreases events.len(),
{
    if events.len() > 0 {
        lemma_resolve_all_frame(w, events.drop_last());
        let mid = w.resolve_all(events.drop_last());
        let after = mid.resolve(events.last());
        assert forall|i: int| 0 <= i < w.bodies.len() implies {
            &&& (#[trigger] after.bodies[i]).collider == w.bodies[i].collider
            &&& after.bodies[i].position == w.bodies[i].position
            &&& after.bodies[i].alive ==> w.bodies[i].alive
        } by {
            assert(mid.bodies[i].collider == w.bodies[i].collider);
        }
    }
}

/// While no orb is live, no event changes the game state.
pub proof fn lemma_resolve_all_without_orbs(w: WorldView, events: Seq<CollisionEvent>)
    requires
        !has_live(w.bodies, CollideType::Orb),
    ensures
        w.resolve_all(events).state == w.state,
        !has_live(w.resolve_all(events).bodies, CollideType::Orb),
    decreases events.len(),
{
    lemma_resolve_all_frame(w, events);
    lemma_same_live(w.bodies, w.resolve_all(events).bodies, CollideType::Orb);
    if events.len() > 0 {
        lemma_resolve_all_without_orbs(w, events.drop_last());
        let mid = w.resolve_all(events.drop_last());
        let e = events.last();
        if mid.live_kind(e.1 as int) == Some(CollideType::Orb) {
            assert(mid.bodies[e.1 as int].is_live(CollideType::Orb));
        }
    }
}

/// A live player that meets a live pickup scores exactly one point, and the
/// pickup is sent away. The score was below the threshold, for at the
/// threshold no pickup is live.
pub proof fn lemma_pickup_scores(w: WorldView, e: CollisionEvent)
    requires
        w.wf(),
        w.live_kind(e.0 as int) == Some(CollideType::Player),
        w.live_kind(e.1 as int) == Some(CollideType::Pickup),
    ensures
        w.score < THRESHOLD,
        w.resolve(e).score == w.score + 1,
        w.follow_up(e) == Some(PickupCollision(e.1)),
{
    assert(w.bodies[e.1 as int].is_live(CollideType::Pickup));
}

/// No event lowers the score, and only a player's pickup changes it.
pub proof fn lemma_score_never_falls(w: WorldView, e: CollisionEvent)
    requires
        w.wf(),
    ensures
        w.resolve(e).score >= w.score,
        !(w.live_kind(e.0 as int) == Some(CollideType::Player) && w.live_kind(e.1 as int) == Some(
            CollideType::Pickup,
        )) ==> w.resolve(e).score == w.score,
{
}

/// A live player that runs into a live orb dies while the score is below
/// the threshold, and nothing else changes. From the threshold on the orb is
/// despawned instead, and the game state stays as it is.
pub proof fn lemma_orb_strike(w: WorldView, e: CollisionEvent)
    requires
        w.live_kind(e.0 as int) == Some(CollideType::Player),
        w.live_kind(e.1 as int) == Some(CollideType::Orb),
    ensures
        w.follow_up(e) is None,
        w.score < THRESHOLD ==> w.resolve(e).state == GameState::Dead && w.resolve(e).bodies
            == w.bodies && w.resolve(e).score == w.score,
        w.score >= THRESHOLD ==> w.resolve(e).state == w.state && w.resolve(e).score == w.score
            && w.resolve(e).live_kind(e.1 as int) is None && forall|i: int|
            0 <= i < w.bodies.len() && i != e.1 ==> w.resolve(e).bodies[i] == #[trigger] w.bodies[i],
{
}

/// The pickup that brings the score to the threshold takes all pickups with
/// it and leaves every other body as it was.
pub proof fn lemma_threshold_clears_pickups(w: WorldView, e: CollisionEvent)
    requires
        w.live_kind(e.0 as int) == Some(CollideType::Player),
        w.live_kind(e.1 as int) == Some(CollideType::Pickup),
        w.score + 1 == THRESHOLD,
    ensures
        w.resolve(e).score == THRESHOLD,
        !has_live(w.resolve(e).bodies, CollideType::Pickup),
        w.resolve(e).bodies.len() == w.bodies.len(),
        forall|i: int|
            0 <= i < w.bodies.len() && (#[trigger] w.bodies[i]).collider.kind
                != CollideType::Pickup ==> w.resolve(e).bodies[i] == w.bodies[i],
{
    let after = w.resolve(e).bodies;
    if has_live(after, CollideType::Pickup) {
        let i = choose|i: int|
            0 <= i < after.len() && (#[trigger] after[i]).is_live(CollideType::Pickup);
        assert(false);
    }
}

/// An event that names a body which is not live changes nothing and sends
/// no pickup away: what was despawned is not matched again.
pub proof fn lemma_despawned_ignored(w: WorldView, e: CollisionEvent)
    requires
        w.live_kind(e.0 as int) is None || w.live_kind(e.1 as int) is None,
    ensures
        w.resolve(e) == w,
        w.follow_up(e) is None,
{
}

/// Marks every body of the given kind as despawned.
fn despawn_kind(bodies: &mut Vec<Body>, kind: CollideType)
    ensures
        final(bodies)@ == without_kind(old(bodies)@, kind),
{
    let n: usize = bodies.len();
    let mut i: usize = 0;
    while i < n
        invariant
            n == old(bodies)@.len(),
            bodies@.len() == n,
            i <= n,
            forall|j: int| 0 <= j < i ==> bodies@[j] == without_kind(old(bodies)@, kind)[j],
            forall|j: int| i <= j < n ==> bodies@[j] == old(bodies)@[j],
        decreases n - i,
    {
        let body = bodies[i];
        if body.collider.kind == kind {
            bodies[i] = Body { collider: body.collider, position: body.position, alive: false };
        }
        i += 1;
    }
    assert(bodies@ =~= without_kind(old(bodies)@, kind));
}

impl World {
    /// The kind of the body with the given handle, if that body is live.
    pub fn live_kind(&self, id: usize) -> (kind: Option<CollideType>)
        ensures
            kind == self@.live_kind(id as int),
    {
        if id < self.bodies.len() && self.bodies[id].alive {
            Some(self.bodies[id].collider.kind)
        } else {
            None
        }
    }

    fn collect(&mut self)
        requires
            old(self).wf(),
            has_live(old(self)@.bodies, CollideType::Pickup),
        ensures
            final(self).wf(),
            final(self)@ == old(self)@.collected(),
    {
        let score: u32 = self.score + 1;
        self.score = score;
        if score <= THRESHOLD {
            proof {
                lemma_growth_fits(self.sizes.player as int, score as int);
                lemma_ramp_step(
                    self.field.initial_orb_speed() as int,
                    old(self).score as int,
                    self.field.orb_speed_step() as int,
                );
                lemma_ramp_bounded(old(self).score as int, self.field.orb_speed_step() as int);
            }
            self.growth = (self.sizes.player as u64 * score as u64 / THRESHOLD as u64) as u32;
            self.speed.orb = self.speed.orb + self.field.orb_speed_step();
            self.color = OrbsRGB {
                r: if self.color.r >= COLOR_STEP {
                    self.color.r - COLOR_STEP
                } else {
                    0
                },
                g: self.color.g,
                b: if self.color.b + COLOR_STEP <= COLOR_FULL {
                    self.color.b + COLOR_STEP
                } else {
                    COLOR_FULL
                },
            };
        }
        if score >= THRESHOLD {
            despawn_kind(&mut self.bodies, CollideType::Pickup);
            proof {
                let after = self@.bodies;
                assert forall|i: int| 0 <= i < after.len() implies (#[trigger] after[i]).wf() by {
                    assert(old(self)@.bodies[i].wf());
                }
                assert(!has_live(after, CollideType::Pickup)) by {
                    if has_live(after, CollideType::Pickup) {
                        let i = choose|i: int|
                            0 <= i < after.len() && (#[trigger] after[i]).is_live(
                                CollideType::Pickup,
                            );
                        assert(false);
                    }
                }
            }
        }
    }

    fn strike(&mut self, orb: usize)
        requires
            old(self).wf(),
            old(self)@.live_kind(orb as int) == Some(CollideType::Orb),
        ensures
            final(self).wf(),
            final(self)@ == old(self)@.struck(orb as int),
    {
        if self.score < THRESHOLD {
            self.state = GameState::Dead;
        } else {
            let body = self.bodies[orb];
            self.bodies[orb] = Body { collider: body.collider, position: body.position, alive: false };
            proof {
                let before = old(self)@.bodies;
                let after = self@.bodies;
                assert(after =~= despawned(before, orb as int));
                assert forall|i: int| 0 <= i < after.len() implies (#[trigger] after[i]).wf() by {
                    assert(before[i].wf());
                }
                lemma_fewer_live(before, after, CollideType::Pickup);
            }
        }
    }

    /// Resolves one collision event and answers the pickup to relocate, if
    /// the event sends one away.
    pub fn resolve_event(&mut self, event: CollisionEvent) -> (follow: Option<PickupCollision>)
        requires
            old(self).wf(),
        ensures
            final(self).wf(),
            final(self)@ == old(self)@.resolve(event),
            follow == old(self)@.follow_up(event),
    {
        let first = self.live_kind(event.0);
        let second = self.live_kind(event.1);
        match (first, second) {
            (Some(CollideType::Player), Some(CollideType::Pickup)) => {
                assert(self@.bodies[event.1 as int].is_live(CollideType::Pickup));
                self.collect();
                Some(PickupCollision(event.1))
            },
            (Some(CollideType::Player), Some(CollideType::Orb)) => {
                self.strike(event.1);
                None
            },
            (Some(CollideType::Pickup), Some(CollideType::Orb)) => Some(PickupCollision(event.0)),
            _ => None,
        }
    }

    /// Resolves the events of a tick in their order and answers the pickups
    /// to relocate. A body that an earlier event despawned is not matched by
    /// a later one.
    pub fn manage_collisions(&mut self, events: &Vec<CollisionEvent>) -> (follow: Vec<
        PickupCollision,
    >)
        requires
            old(self).wf(),
        ensures
            final(self).wf(),
            final(self)@ == old(self)@.resolve_all(events@),
            follow@ == old(self)@.follow_ups(events@),
    {
        let mut follow: Vec<PickupCollision> = Vec::new();
        let n: usize = events.len();
        let mut k: usize = 0;
        while k < n
            invariant
                n == events.len(),
                k <= n,
                self.wf(),
                self@ == old(self)@.resolve_all(events@.take(k as int)),
                follow@ == old(self)@.follow_ups(events@.take(k as int)),
            decreases n - k,
        {
            assert(events@.take(k as int + 1).drop_last() == events@.take(k as int));
            match self.resolve_event(events[k]) {
                Some(p) => {
                    follow.push(p);
                },
                None => {},
            }
            k += 1;
        }
        assert(events@.take(n as int) == events@);
        follow
    }
}

} // verus!
