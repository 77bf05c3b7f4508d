//! Setting a level up and restarting it: where the bodies of a level stand,
//! and what a restart brings back to its first value.

use vstd::prelude::*;
use crate::field::{in_spawn_range, Playfield};
use crate::geometry::{CollideType, Collider, Position};
use crate::motion::sole_player;
use crate::random::{gen_range, thread_rng};
use crate::state::GameState;
use crate::world::{
    has_live, Body, OrbsRGB, Sizes, Speed, World, WorldView, COLOR_FULL, MAX_BODIES, ORB_COUNT,
    PICKUP_COUNT, THRESHOLD,
};

verus! {

/// Whether `p` is a place where a body of radius `size` may appear at random:
/// inside the playfield, with the margin of its radius.
pub open spec fn random_place(field: Playfield, size: u32, p: Position) -> bool {
    &&& in_spawn_range(p.x as int, size as int, field.width as int)
    &&& in_spawn_range(p.y as int, size as int, field.height as int)
}

/// Whether `b` is a live pickup of radius `size` at a random place.
pub open spec fn random_pickup(field: Playfield, size: u32, b: Body) -> bool {
    &&& b.alive
    &&& b.collider == (Collider { radius: size, kind: CollideType::Pickup })
    &&& random_place(field, size, b.position)
}

/// Whether `b` is a live orb of radius `size` at the start of its run: at
/// the horizontal start of the orb with running number `index`, at a random
/// height.
pub open spec fn start_orb(field: Playfield, size: u32, index: int, b: Body) -> bool {
    &&& b.alive
    &&& b.collider == (Collider { radius: size, kind: CollideType::Orb })
    &&& b.position.x == field.orb_start_x(size as int, index)
    &&& in_spawn_range(b.position.y as int, size as int, field.height as int)
}

/// Number of live bodies of the given kind among the first `k` bodies.
pub open spec fn live_before(bodies: Seq<Body>, kind: CollideType, k: int) -> nat
    decreases k,
{
    if k <= 0 {
        0
    } else {
        live_before(bodies, kind, k - 1) + (if bodies[k - 1].is_live(kind) {
            1nat
        } else {
            0nat
        })
    }
}

/// Whether `after` holds the bodies of `before` and behind them the orbs of
/// a level, of radius `size`.
pub open spec fn orbs_added(field: Playfield, size: u32, before: Seq<Body>, after: Seq<Body>) -> bool {
    &&& after.len() == before.len() + ORB_COUNT
    &&& forall|i: int| 0 <= i < before.len() ==> #[trigger] after[i] == before[i]
    &&& forall|j: int|
        0 <= j < ORB_COUNT ==> start_orb(field, size, j, #[trigger] after[before.len() + j])
}

/// Whether `after` holds the bodies of `before` and behind them the pickups
/// of a level, of radius `size`.
pub open spec fn pickups_added(
    field: Playfield,
    size: u32,
    before: Seq<Body>,
    after: Seq<Body>,
) -> bool {
    &&& after.len() == before.len() + PICKUP_COUNT
    &&& forall|i: int| 0 <= i < before.len() ==> #[trigger] after[i] == before[i]
    &&& forall|i: int|
        before.len() <= i < after.len() ==> random_pickup(field, size, #[trigger] after[i])
}

impl Playfield {
    /// The radii of a level.
    pub open spec fn sizes(self) -> Sizes {
        Sizes {
            player: self.player_size(),
            star: self.star_size(),
            pickup: self.pickup_size(),
            orb: self.orb_size(),
        }
    }

    /// The speeds of a level when it is first set up.
    pub open spec fn initial_speed(self) -> Speed {
        Speed {
            player: self.player_speed(),
            star: self.star_speed(),
            orb: self.initial_orb_speed(),
        }
    }
}

impl WorldView {
    /// Whether `after` is a level set up on the world `self`, which is in
    /// state `Init` and so holds nothing yet. The game is on; sizes and
    /// speeds are those of the playfield; the arena holds the pickups at
    /// random places, then the orbs beyond the right edge, then the player
    /// at the centre; the stars are at random places.
    pub open spec fn is_level(self, after: WorldView) -> bool {
        let f = self.field;
        &&& after.field == f
        &&& after.score == self.score
        &&& after.color == self.color
        &&& after.timer_ms == self.timer_ms
        &&& after.growth == self.growth
        &&& after.nearest == self.nearest
        &&& after.state == GameState::Game
        &&& after.sizes == f.sizes()
        &&& after.speed == f.initial_speed()
        &&& pickups_added(f, f.pickup_size(), Seq::empty(), after.bodies.take(PICKUP_COUNT as int))
        &&& orbs_added(
            f,
            f.orb_size(),
            after.bodies.take(PICKUP_COUNT as int),
            after.bodies.take(PICKUP_COUNT + ORB_COUNT),
        )
        &&& after.bodies.len() == PICKUP_COUNT + ORB_COUNT + 1
        &&& after.bodies[PICKUP_COUNT + ORB_COUNT] == Body::fresh(
            CollideType::Player,
            f.player_size(),
            0,
            0,
        )
        &&& after.stars.len() == f.star_count()
        &&& forall|i: int|
            0 <= i < after.stars.len() ==> random_place(f, f.star_size(), #[trigger] after.stars[i])
    }

    /// What a restart makes of the body with handle `k`, where `b` is the
    /// body after it. A live player stands at the restart point. A live orb
    /// is back at the start of its run, by its running number among the live
    /// orbs, at a random height. Every other body is as it was.
    pub open spec fn restarts_body(self, k: int, b: Body) -> bool {
        let old_body = self.bodies[k];
        if old_body.is_live(CollideType::Player) {
            b == (Body {
                position: Position { x: self.field.restart_player_x() as i64, y: 0 },
                ..old_body
            })
        } else if old_body.is_live(CollideType::Orb) {
            &&& b.alive
            &&& b.collider == old_body.collider
            &&& b.position.x == self.field.orb_start_x(
                self.sizes.orb as int,
                live_before(self.bodies, CollideType::Orb, k) as int,
            )
            &&& in_spawn_range(
                b.position.y as int,
                self.sizes.orb as int,
                self.field.height as int,
            )
        } else {
            b == old_body
        }
    }

    /// Whether `after` is a restart of the session of `self`. Score and
    /// timer are zero, the colour is the first one, the orbs have their
    /// restart speed, the player's indicator is gone, and the game is on,
    /// whatever these were before. The bodies are reset one by one. If no
    /// orb was live, a new set of orbs and then of pickups is added, with
    /// the radii of the playfield.
    pub open spec fn is_restart(self, after: WorldView) -> bool {
        let f = self.field;
        let n = self.bodies.len() as int;
        &&& after.field == f
        &&& after.stars == self.stars
        &&& after.nearest == self.nearest
        &&& after.score == 0
        &&& after.timer_ms == 0
        &&& after.color == OrbsRGB::initial()
        &&& after.growth == 0
        &&& after.state == GameState::Game
        &&& after.speed == (Speed { orb: f.restart_orb_speed(), ..self.speed })
        &&& after.bodies.len() >= n
        &&& forall|k: int| 0 <= k < n ==> self.restarts_body(k, #[trigger] after.bodies[k])
        &&& if has_live(self.bodies, CollideType::Orb) {
            &&& after.bodies.len() == n
            &&& after.sizes == self.sizes
        } else {
            &&& after.sizes == (Sizes { orb: f.orb_size(), pickup: f.pickup_size(), ..self.sizes })
            &&& after.bodies.len() == n + ORB_COUNT + PICKUP_COUNT
            &&& orbs_added(f, f.orb_size(), after.bodies.take(n), after.bodies.take(n + ORB_COUNT))
            &&& pickups_added(f, f.pickup_size(), after.bodies.take(n + ORB_COUNT), after.bodies)
        }
    }
}

/// A restart does not depend on what the session had reached: two worlds
/// that differ only in score, timer, colour, indicator, orb speed and game
/// state have the same restarts.
pub proof fn lemma_restart_forgets_session(w1: WorldView, w2: WorldView, after: WorldView)
    requires
        w1.is_restart(after),
        w2 == (WorldView {
            score: w2.score,
            timer_ms: w2.timer_ms,
            color: w2.color,
            growth: w2.growth,
            speed: Speed { orb: w2.speed.orb, ..w1.speed },
            state: w2.state,
            ..w1
        }),
    ensures
        w2.is_restart(after),
{
    assert forall|k: int| 0 <= k < w2.bodies.len() implies w2.restarts_body(
        k,
        #[trigger] after.bodies[k],
    ) by {
        assert(w1.restarts_body(k, after.bodies[k]));
    }
}

/// After a restart the score and the timer are zero, the colour is the
/// first one, and every player that was live stands at the restart point.
pub proof fn lemma_restart_values(w: WorldView, after: WorldView, k: int)
    requires
        w.is_restart(after),
        0 <= k < w.bodies.len(),
        w.bodies[k].is_live(CollideType::Player),
    ensures
        after.score == 0,
        after.timer_ms == 0,
        after.color == OrbsRGB::initial(),
        after.state == GameState::Game,
        after.bodies[k].is_live(CollideType::Player),
        after.bodies[k].position.x == w.field.restart_player_x(),
        after.bodies[k].position.y == 0,
{
    assert(w.restarts_body(k, after.bodies[k]));
}

/// The count of live bodies of a kind depends only on which bodies are live
/// and of that kind.
proof fn lemma_live_count_same(a: Seq<Body>, b: Seq<Body>, kind: CollideType, k: int)
    requires
        0 <= k <= a.len(),
        a.len() == b.len(),
        forall|i: int| 0 <= i < k ==> (#[trigger] a[i]).is_live(kind) == b[i].is_live(kind),
    ensures
        live_before(a, kind, k) == live_before(b, kind, k),
    decreases k,
{
    if k > 0 {
        lemma_live_count_same(a, b, kind, k - 1);
        assert(a[k - 1].is_live(kind) == b[k - 1].is_live(kind));
    }
}

/// A restart brings no body to life and takes none away, and leaves every
/// collider as it is.
pub proof fn lemma_restart_keeps_bodies(w: WorldView, after: WorldView, k: int)
    requires
        w.is_restart(after),
        0 <= k < w.bodies.len(),
    ensures
        after.bodies[k].alive == w.bodies[k].alive,
        after.bodies[k].collider == w.bodies[k].collider,
{
    assert(w.restarts_body(k, after.bodies[k]));
}

/// After a restart the only live player is still the only one, and stands
/// at the restart point, wherever it stood before.
pub proof fn lemma_restart_keeps_sole_player(w: WorldView, after: WorldView, k: int)
    requires
        w.is_restart(after),
        sole_player(w.bodies, k),
    ensures
        sole_player(after.bodies, k),
        after.bodies[k].position.x == w.field.restart_player_x(),
        after.bodies[k].position.y == 0,
{
    let n = w.bodies.len() as int;
    assert(w.restarts_body(k, after.bodies[k]));
    assert forall|j: int| 0 <= j < after.bodies.len() && j != k implies !(
    #[trigger] after.bodies[j]).is_live(CollideType::Player) by {
        if j < n {
            assert(w.restarts_body(j, after.bodies[j]));
            assert(!w.bodies[j].is_live(CollideType::Player));
        } else if j < n + ORB_COUNT {
            let with_orbs = after.bodies.take(n + ORB_COUNT);
            assert(start_orb(w.field, w.field.orb_size(), j - n, with_orbs[n + (j - n)]));
        } else {
            assert(random_pickup(w.field, w.field.pickup_size(), after.bodies[j]));
        }
    }
}

/// Two restarts in a row of a session with a live orb end in the same
/// session: score, timer, colour, speeds, sizes and indicator are equal,
/// no body is added, every body has the same collider and is live or not as
/// before, every orb has the same horizontal place, and every body that is
/// no live orb is wholly the same. Only the heights of the orbs are drawn
/// anew.
pub proof fn lemma_restart_twice(before: WorldView, once: WorldView, twice: WorldView)
    requires
        has_live(before.bodies, CollideType::Orb),
        before.is_restart(once),
        (WorldView { state: GameState::Dead, ..once }).is_restart(twice),
    ensures
        twice.score == once.score,
        twice.timer_ms == once.timer_ms,
        twice.color == once.color,
        twice.speed == once.speed,
        twice.sizes == once.sizes,
        twice.growth == once.growth,
        twice.state == once.state,
        twice.bodies.len() == once.bodies.len(),
        forall|k: int|
            0 <= k < once.bodies.len() ==> {
                &&& (#[trigger] twice.bodies[k]).alive == once.bodies[k].alive
                &&& twice.bodies[k].collider == once.bodies[k].collider
                &&& twice.bodies[k].position.x == once.bodies[k].position.x
                &&& !once.bodies[k].is_live(CollideType::Orb) ==> twice.bodies[k] == once.bodies[k]
            },
{
    let n = before.bodies.len() as int;
    let again = WorldView { state: GameState::Dead, ..once };
    assert forall|i: int| 0 <= i < n implies (#[trigger] before.bodies[i]).is_live(
        CollideType::Orb,
    ) == once.bodies[i].is_live(CollideType::Orb) by {
        lemma_restart_keeps_bodies(before, once, i);
    }
    let orb = choose|i: int|
        0 <= i < n && (#[trigger] before.bodies[i]).is_live(CollideType::Orb);
    assert(once.bodies[orb].is_live(CollideType::Orb));
    assert(has_live(again.bodies, CollideType::Orb));
    assert forall|k: int| 0 <= k < once.bodies.len() implies {
        &&& (#[trigger] twice.bodies[k]).alive == once.bodies[k].alive
        &&& twice.bodies[k].collider == once.bodies[k].collider
        &&& twice.bodies[k].position.x == once.bodies[k].position.x
        &&& !once.bodies[k].is_live(CollideType::Orb) ==> twice.bodies[k] == once.bodies[k]
    } by {
        assert(before.restarts_body(k, once.bodies[k]));
        assert(again.restarts_body(k, twice.bodies[k]));
        lemma_live_count_same(before.bodies, once.bodies, CollideType::Orb, k);
    }
}

/// No body of a kind is live exactly when the count of its live bodies is
/// zero.
pub proof fn lemma_live_count(bodies: Seq<Body>, kind: CollideType, k: int)
    requires
        0 <= k <= bodies.len(),
    ensures
        live_before(bodies, kind, k) <= k,
        live_before(bodies, kind, k) == 0 <==> forall|i: int|
            0 <= i < k ==> !(#[trigger] bodies[i]).is_live(kind),
    decreases k,
{
    if k > 0 {
        lemma_live_count(bodies, kind, k - 1);
        if live_before(bodies, kind, k) != 0 && !bodies[k - 1].is_live(kind) {
            let i = choose|i: int| 0 <= i < k - 1 && (#[trigger] bodies[i]).is_live(kind);
            assert(0 <= i < k && bodies[i].is_live(kind));
        }
    }
}

/// A random coordinate for a body of radius `size` along an axis of length
/// `extent`.
pub(crate) fn random_coordinate(rng: &mut rand::rngs::ThreadRng, size: u32, extent: u32) -> (v: i64)
    requires
        size < extent / 2,
    ensures
        in_spawn_range(v as int, size as int, extent as int),
{
    let half: i64 = (extent / 2) as i64;
    gen_range(rng, size as i64 - half, half - size as i64)
}

/// A random place for a body of radius `size`.
pub(crate) fn random_position(rng: &mut rand::rngs::ThreadRng, field: Playfield, size: u32) -> (p: Position)
    requires
        size < field.width / 2,
        size < field.height / 2,
    ensures
        random_place(field, size, p),
{
    let x: i64 = random_coordinate(rng, size, field.width);
    let y: i64 = random_coordinate(rng, size, field.height);
    Position { x, y }
}

/// The horizontal start of the orb with running number `index`.
fn orb_start(field: Playfield, size: u32, index: usize) -> (x: i64)
    requires
        field.wf(),
        size <= field.orb_size(),
        index <= MAX_BODIES,
    ensures
        x == field.orb_start_x(size as int, index as int),
        0 <= x <= 0x4_0000_0000_0000,
{
    let s: i64 = size as i64;
    let i: i64 = index as i64;
    assert(0 <= i * s <= 0x10_0000 * 0x1000_0000) by (nonlinear_arith)
        requires
            0 <= i <= 0x10_0000,
            0 <= s <= 0x1000_0000,
    ;
    (field.width as i64 + s + i * s * 2 + i * s) - (field.width / 2) as i64
}

impl World {
    /// Whether the arena has room for the orbs and pickups of a new level.
    pub fn has_room(&self) -> (r: bool)
        ensures
            r == self@.has_room(),
    {
        self.bodies.len() <= MAX_BODIES - ORB_COUNT - PICKUP_COUNT
    }

    /// Whether the session can be restarted.
    pub fn can_restart(&self) -> (r: bool)
        ensures
            r == self@.can_restart(),
    {
        self.has_live(CollideType::Orb) || self.has_room()
    }

    /// Adds the pickups of a level at random places.
    fn place_pickups(&mut self, rng: &mut rand::rngs::ThreadRng)
        requires
            old(self).wf(),
            old(self)@.state != GameState::Init,
            old(self)@.score < THRESHOLD,
            old(self)@.bodies.len() + PICKUP_COUNT <= MAX_BODIES,
            old(self)@.sizes.pickup == old(self)@.field.pickup_size(),
        ensures
            final(self).wf(),
            final(self)@ == (WorldView { bodies: final(self)@.bodies, ..old(self)@ }),
            pickups_added(
                old(self)@.field,
                old(self)@.sizes.pickup,
                old(self)@.bodies,
                final(self)@.bodies,
            ),
    {
        let size: u32 = self.sizes.pickup;
        let mut i: usize = 0;
        while i < PICKUP_COUNT
            invariant
                i <= PICKUP_COUNT,
                self.wf(),
                size == old(self)@.field.pickup_size(),
                old(self)@.field.wf(),
                old(self)@.bodies.len() + PICKUP_COUNT <= MAX_BODIES,
                self@ == (WorldView { bodies: self@.bodies, ..old(self)@ }),
                self@.state != GameState::Init,
                self@.score < THRESHOLD,
                self@.bodies.len() == old(self)@.bodies.len() + i,
                forall|k: int|
                    0 <= k < old(self)@.bodies.len() ==> #[trigger] self@.bodies[k] == old(
                        self,
                    )@.bodies[k],
                forall|k: int|
                    old(self)@.bodies.len() <= k < self@.bodies.len() ==> random_pickup(
                        old(self)@.field,
                        size,
                        #[trigger] self@.bodies[k],
                    ),
            decreases PICKUP_COUNT - i,
        {
            let position = random_position(rng, self.field, size);
            self.push_body(
                Body { collider: Collider { radius: size, kind: CollideType::Pickup }, position, alive: true },
            );
            i += 1;
        }
    }

    /// Adds the orbs of a level at the start of their run.
    fn place_orbs(&mut self, rng: &mut rand::rngs::ThreadRng)
        requires
            old(self).wf(),
            old(self)@.state != GameState::Init,
            old(self)@.bodies.len() + ORB_COUNT <= MAX_BODIES,
            old(self)@.sizes.orb == old(self)@.field.orb_size(),
        ensures
            final(self).wf(),
            final(self)@ == (WorldView { bodies: final(self)@.bodies, ..old(self)@ }),
            orbs_added(
                old(self)@.field,
                old(self)@.sizes.orb,
                old(self)@.bodies,
                final(self)@.bodies,
            ),
    {
        let size: u32 = self.sizes.orb;
        let mut i: usize = 0;
        while i < ORB_COUNT
            invariant
                i <= ORB_COUNT,
                self.wf(),
                size == old(self)@.field.orb_size(),
                old(self)@.field.wf(),
                old(self)@.bodies.len() + ORB_COUNT <= MAX_BODIES,
                self@ == (WorldView { bodies: self@.bodies, ..old(self)@ }),
                self@.state != GameState::Init,
                self@.bodies.len() == old(self)@.bodies.len() + i,
                forall|k: int|
                    0 <= k < old(self)@.bodies.len() ==> #[trigger] self@.bodies[k] == old(
                        self,
                    )@.bodies[k],
                forall|j: int|
                    0 <= j < i ==> start_orb(
                        old(self)@.field,
                        size,
                        j,
                        #[trigger] self@.bodies[old(self)@.bodies.len() + j],
                    ),
            decreases ORB_COUNT - i,
        {
            let x: i64 = orb_start(self.field, size, i);
            let y: i64 = random_coordinate(rng, size, self.field.height);
            self.push_body(
                Body {
                    collider: Collider { radius: size, kind: CollideType::Orb },
                    position: Position { x, y },
                    alive: true,
                },
            );
            i += 1;
        }
    }

    /// Adds the background stars of a level at random places.
    fn place_stars(&mut self, rng: &mut rand::rngs::ThreadRng)
        requires
            old(self).wf(),
            old(self)@.state != GameState::Init,
            old(self)@.stars.len() == 0,
            old(self)@.sizes.star == old(self)@.field.star_size(),
        ensures
            final(self).wf(),
            final(self)@ == (WorldView { stars: final(self)@.stars, ..old(self)@ }),
            final(self)@.stars.len() == old(self)@.field.star_count(),
            forall|i: int|
                0 <= i < final(self)@.stars.len() ==> random_place(
                    old(self)@.field,
                    old(self)@.sizes.star,
                    #[trigger] final(self)@.stars[i],
                ),
    {
        let size: u32 = self.sizes.star;
        let count: u32 = self.field.star_count();
        let mut i: u32 = 0;
        while i < count
            invariant
                i <= count,
                self.wf(),
                size == old(self)@.field.star_size(),
                old(self)@.field.wf(),
                self@ == (WorldView { stars: self@.stars, ..old(self)@ }),
                self@.state != GameState::Init,
                self@.stars.len() == i,
                forall|k: int|
                    0 <= k < self@.stars.len() ==> random_place(
                        old(self)@.field,
                        size,
                        #[trigger] self@.stars[k],
                    ),
            decreases count - i,
        {
            let position = random_position(rng, self.field, size);
            self.add_star(position);
            i += 1;
        }
    }

    /// Sets the level up and starts the game: the way out of state `Init`.
    /// Where the pickups, the stars and the heights of the orbs come to lie
    /// is drawn at random, so the contract gives the region for each.
    pub fn setup(&mut self)
        requires
            old(self).wf(),
            old(self)@.state == GameState::Init,
        ensures
            final(self).wf(),
            old(self)@.is_level(final(self)@),
    {
        let mut rng = thread_rng();
        let field = self.field;
        self.state = GameState::Game;
        self.sizes.pickup = field.pickup_size();
        assert(self.wf()) by {
            assert(!has_live(self@.bodies, CollideType::Pickup));
        }
        self.place_pickups(&mut rng);
        let ghost with_pickups = self@.bodies;
        self.sizes.orb = field.orb_size();
        self.speed.orb = field.initial_orb_speed();
        assert(self.wf()) by {
            assert(self@.score * field.orb_speed_step() >= 0) by (nonlinear_arith)
                requires
                    self@.score >= 0,
                    field.orb_speed_step() >= 0,
            ;
        }
        self.place_orbs(&mut rng);
        let ghost with_orbs = self@.bodies;
        self.sizes.star = field.star_size();
        self.speed.star = field.star_speed();
        self.place_stars(&mut rng);
        self.sizes.player = field.player_size();
        self.speed.player = field.player_speed();
        self.push_body(
            Body {
                collider: Collider { radius: field.player_size(), kind: CollideType::Player },
                position: Position { x: 0, y: 0 },
                alive: true,
            },
        );
        proof {
            let after = self@.bodies;
            assert(after.take(PICKUP_COUNT as int) =~= with_pickups);
            assert(after.take(PICKUP_COUNT + ORB_COUNT) =~= with_orbs);
        }
    }

    /// Restarts the session and resumes the game: the way out of `Dead` and
    /// `Victory`. The heights of the orbs, and the places of the pickups of
    /// a new level, are drawn at random, so the contract gives the region
    /// for each. Where no orb is live a new level is added, and the arena
    /// must have room for it.
    pub fn reset_game(&mut self)
        requires
            old(self).wf(),
            old(self)@.state.restarts(),
            old(self)@.can_restart(),
        ensures
            final(self).wf(),
            old(self)@.is_restart(final(self)@),
    {
        let mut rng = thread_rng();
        let field = self.field;
        self.score = 0;
        self.timer_ms = 0;
        self.color = OrbsRGB { r: COLOR_FULL, g: 0, b: 0 };
        self.speed.orb = field.restart_orb_speed();
        self.growth = 0;
        self.state = GameState::Game;
        let ghost resources = self@;
        assert(self.wf()) by {
            assert(self@.score * field.orb_speed_step() == 0) by (nonlinear_arith)
                requires
                    self@.score == 0,
            ;
            assert(field.width / 8 <= field.width as int * 2 / 15);
            assert(self@.bodies == old(self)@.bodies);
            assert(self@.stars == old(self)@.stars);
        }
        let n: usize = self.bodies.len();
        let restart_x: i64 = -((field.width / 4) as i64);
        let size: u32 = self.sizes.orb;
        let mut orbs: usize = 0;
        let mut k: usize = 0;
        while k < n
            invariant
                self.wf(),
                field == old(self)@.field,
                field.wf(),
                size == old(self)@.sizes.orb,
                restart_x == field.restart_player_x(),
                n == old(self)@.bodies.len(),
                n == self@.bodies.len(),
                k <= n <= MAX_BODIES,
                orbs == live_before(old(self)@.bodies, CollideType::Orb, k as int),
                orbs <= k,
                self@ == (WorldView { bodies: self@.bodies, ..resources }),
                resources.score == 0,
                resources.state == GameState::Game,
                resources.sizes == old(self)@.sizes,
                resources.field == field,
                forall|j: int|
                    0 <= j < k ==> old(self)@.restarts_body(j, #[trigger] self@.bodies[j]),
                forall|j: int| k <= j < n ==> #[trigger] self@.bodies[j] == old(self)@.bodies[j],
            decreases n - k,
        {
            let body = self.bodies[k];
            let ghost before = self@.bodies;
            assert(old(self)@.bodies[k as int].wf());
            if body.alive && body.collider.kind == CollideType::Player {
                self.move_body(k, Position { x: restart_x, y: 0 });
            } else if body.alive && body.collider.kind == CollideType::Orb {
                let x: i64 = orb_start(field, size, orbs);
                let y: i64 = random_coordinate(&mut rng, size, field.height);
                self.move_body(k, Position { x, y });
                orbs += 1;
            }
            proof {
                let after = self@.bodies;
                assert forall|j: int| 0 <= j < k + 1 implies old(self)@.restarts_body(
                    j,
                    #[trigger] after[j],
                ) by {
                    if j < k {
                        assert(after[j] == before[j]);
                    }
                }
            }
            k += 1;
        }
        proof {
            lemma_live_count(old(self)@.bodies, CollideType::Orb, n as int);
        }
        let ghost reset_bodies = self@.bodies;
        if orbs == 0 {
            self.sizes.orb = field.orb_size();
            self.place_orbs(&mut rng);
            let ghost with_orbs = self@.bodies;
            self.sizes.pickup = field.pickup_size();
            self.place_pickups(&mut rng);
            proof {
                let after = self@.bodies;
                assert(after.take(n as int) =~= reset_bodies);
                assert(after.take(n + ORB_COUNT) =~= with_orbs);
                assert(!has_live(old(self)@.bodies, CollideType::Orb));
                assert forall|j: int| 0 <= j < n implies old(self)@.restarts_body(
                    j,
                    #[trigger] after[j],
                ) by {
                    assert(after[j] == with_orbs[j]);
                    assert(with_orbs[j] == reset_bodies[j]);
                }
            }
        }
    }
}

} // verus!
