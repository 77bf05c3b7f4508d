//! The world: an arena of bodies, the background stars and the resources of a
//! session, with the invariant that every operation keeps.

use vstd::prelude::*;
use crate::field::Playfield;
use crate::geometry::{CollideType, Collider, Position};
use crate::state::GameState;

verus! {

/// Largest number of bodies, live or not, that the arena holds.
pub const MAX_BODIES: usize = 0x10_0000;

/// Largest absolute value of a coordinate.
pub const COORD_LIMIT: i64 = 0x2000_0000_0000_0000;

/// The score at which the player survives orbs and the pickups disappear.
pub const THRESHOLD: u32 = 100;

/// Number of pickups of a level.
pub const PICKUP_COUNT: usize = 10;

/// Number of orbs of a level.
pub const ORB_COUNT: usize = 4;

/// Full intensity of a colour channel; channels are counted in hundredths.
pub const COLOR_FULL: u8 = 100;

/// What a collected pickup shifts from the red to the blue channel.
pub const COLOR_STEP: u8 = 1;

/// A slot of the arena: a collider at a position. A body that was despawned
/// keeps its slot, so the handles of the others stay valid.
#[derive(Clone, Copy, Debug, PartialEq, Eq, Structural, Hash)]
pub struct Body {
    pub collider: Collider,
    pub position: Position,
    pub alive: bool,
}

impl Body {
    /// A live body of the given kind and radius at the given place.
    pub open spec fn fresh(kind: CollideType, radius: u32, x: i64, y: i64) -> Body {
        Body { collider: Collider { radius, kind }, position: Position { x, y }, alive: true }
    }

    /// A body has a positive radius and lies within the coordinate limit.
    pub open spec fn wf(self) -> bool {
        &&& self.collider.radius > 0
        &&& in_limit(self.position)
    }

    /// Whether the body is live and of the given kind.
    pub open spec fn is_live(self, kind: CollideType) -> bool {
        self.alive && self.collider.kind == kind
    }
}

/// Whether both coordinates are within [`COORD_LIMIT`] of the origin.
pub open spec fn in_limit(p: Position) -> bool {
    &&& -COORD_LIMIT <= p.x <= COORD_LIMIT
    &&& -COORD_LIMIT <= p.y <= COORD_LIMIT
}

/// Whether some body of the sequence is live and of the given kind.
pub open spec fn has_live(bodies: Seq<Body>, kind: CollideType) -> bool {
    exists|i: int| 0 <= i < bodies.len() && (#[trigger] bodies[i]).is_live(kind)
}

/// Radii in use, by kind. All are zero until a level is set up.
#[derive(Clone, Copy, Debug, PartialEq, Eq, Structural)]
pub struct Sizes {
    pub player: u32,
    pub star: u32,
    pub pickup: u32,
    pub orb: u32,
}

/// Speeds in use. Those of the player and the orbs are per second, that of
/// the stars is per tick.
#[derive(Clone, Copy, Debug, PartialEq, Eq, Structural)]
pub struct Speed {
    pub player: u32,
    pub star: u32,
    pub orb: u32,
}

/// The colour of the orbs' borders, each channel in hundredths.
#[derive(Clone, Copy, Debug, PartialEq, Eq, Structural)]
pub struct OrbsRGB {
    pub r: u8,
    pub g: u8,
    pub b: u8,
}

impl OrbsRGB {
    /// The colour at the start of a session: pure red.
    pub open spec fn initial() -> OrbsRGB {
        OrbsRGB { r: COLOR_FULL, g: 0, b: 0 }
    }

    /// The colour after one more pickup: red gives a step to blue, and both
    /// stay between zero and full.
    pub open spec fn shifted(self) -> OrbsRGB {
        OrbsRGB {
            r: if self.r >= COLOR_STEP {
                (self.r - COLOR_STEP) as u8
            } else {
                0
            },
            g: self.g,
            b: if self.b + COLOR_STEP <= COLOR_FULL {
                (self.b + COLOR_STEP) as u8
            } else {
                COLOR_FULL
            },
        }
    }

    /// No channel is beyond full intensity.
    pub open spec fn wf(self) -> bool {
        self.r <= COLOR_FULL && self.g <= COLOR_FULL && self.b <= COLOR_FULL
    }
}

/// The mathematical content of a [`World`].
pub struct WorldView {
    pub field: Playfield,
    pub bodies: Seq<Body>,
    pub stars: Seq<Position>,
    pub sizes: Sizes,
    pub speed: Speed,
    pub score: u32,
    pub color: OrbsRGB,
    pub timer_ms: u64,
    pub state: GameState,
    pub growth: u32,
    pub nearest: Option<usize>,
}

impl WorldView {
    /// The kind of the body with the given handle, if that body is live.
    pub open spec fn live_kind(self, id: int) -> Option<CollideType> {
        if 0 <= id < self.bodies.len() && self.bodies[id].alive {
            Some(self.bodies[id].collider.kind)
        } else {
            None
        }
    }

    /// Upper bound of the orbs' speed at the current score: the speed of a
    /// fresh level and one step for each point.
    pub open spec fn orb_speed_cap(self) -> int {
        self.field.initial_orb_speed() + self.score * self.field.orb_speed_step()
    }

    /// The invariant of a world.
    ///
    /// In state `Init` nothing is set up yet: there are no bodies and no
    /// stars, and the score is zero. The score never passes [`THRESHOLD`],
    /// and once it is there no pickup is left. Sizes and speeds are at most
    /// what the playfield gives, and the orbs are no faster than the pickups
    /// collected so far allow.
    pub open spec fn wf(self) -> bool {
        &&& self.field.wf()
        &&& self.bodies.len() <= MAX_BODIES
        &&& forall|i: int| 0 <= i < self.bodies.len() ==> (#[trigger] self.bodies[i]).wf()
        &&& forall|i: int| 0 <= i < self.stars.len() ==> in_limit(#[trigger] self.stars[i])
        &&& self.sizes.player <= self.field.player_size()
        &&& self.sizes.star <= self.field.star_size()
        &&& self.sizes.pickup <= self.field.pickup_size()
        &&& self.sizes.orb <= self.field.orb_size()
        &&& self.speed.player <= self.field.player_speed()
        &&& self.speed.star <= self.field.star_speed()
        &&& self.speed.orb <= self.orb_speed_cap()
        &&& self.score <= THRESHOLD
        &&& self.score == THRESHOLD ==> !has_live(self.bodies, CollideType::Pickup)
        &&& self.color.wf()
        &&& self.growth <= self.sizes.player
        &&& self.state == GameState::Init ==> self.bodies.len() == 0 && self.stars.len() == 0
            && self.score == 0
    }

    /// The world with the body of handle `id` at `place`.
    pub open spec fn with_body_at(self, id: int, place: Position) -> WorldView {
        WorldView {
            bodies: self.bodies.update(id, Body { position: place, ..self.bodies[id] }),
            ..self
        }
    }

    /// The world with one more star, at `place`.
    pub open spec fn with_star(self, place: Position) -> WorldView {
        WorldView { stars: self.stars.push(place), ..self }
    }

    /// Whether the arena has room for the orbs and pickups of a new level.
    pub open spec fn has_room(self) -> bool {
        self.bodies.len() + ORB_COUNT + PICKUP_COUNT <= MAX_BODIES
    }

    /// Whether the session can be restarted: a restart brings a new level
    /// only where no orb is live, and only then needs the room for it.
    pub open spec fn can_restart(self) -> bool {
        has_live(self.bodies, CollideType::Orb) || self.has_room()
    }

    /// The world before anything was set up, in the given state and with the
    /// given score.
    pub open spec fn blank(field: Playfield, state: GameState, score: u32) -> WorldView {
        WorldView {
            field,
            bodies: Seq::empty(),
            stars: Seq::empty(),
            sizes: Sizes { player: 0, star: 0, pickup: 0, orb: 0 },
            speed: Speed { player: 0, star: 0, orb: 0 },
            score,
            color: OrbsRGB::initial(),
            timer_ms: 0,
            state,
            growth: 0,
            nearest: None,
        }
    }
}

/// Why a body was not spawned.
#[derive(Clone, Copy, Debug, PartialEq, Eq, Structural)]
pub enum SpawnError {
    /// The radius is zero.
    ZeroRadius,
    /// A coordinate is beyond [`COORD_LIMIT`].
    OutOfRange,
    /// The world is in state `Init`: bodies come with the level.
    NotSetUp,
    /// The arena already holds [`MAX_BODIES`] bodies.
    ArenaFull,
    /// The body is a pickup and the score has reached [`THRESHOLD`].
    PickupsGone,
}

/// What [`World::spawn`] answers for the given world and body.
pub open spec fn spawn_outcome(w: WorldView, body: Body) -> Result<usize, SpawnError> {
    if body.collider.radius == 0 {
        Err(SpawnError::ZeroRadius)
    } else if !in_limit(body.position) {
        Err(SpawnError::OutOfRange)
    } else if w.state == GameState::Init {
        Err(SpawnError::NotSetUp)
    } else if w.bodies.len() >= MAX_BODIES {
        Err(SpawnError::ArenaFull)
    } else if body.collider.kind == CollideType::Pickup && w.score >= THRESHOLD {
        Err(SpawnError::PickupsGone)
    } else {
        Ok(w.bodies.len() as usize)
    }
}

/// The state of a game: bodies, stars, score, difficulty and game state.
pub struct World {
    pub(crate) field: Playfield,
    pub(crate) bodies: Vec<Body>,
    pub(crate) stars: Vec<Position>,
    pub(crate) sizes: Sizes,
    pub(crate) speed: Speed,
    pub(crate) score: u32,
    pub(crate) color: OrbsRGB,
    pub(crate) timer_ms: u64,
    pub(crate) state: GameState,
    pub(crate) growth: u32,
    pub(crate) nearest: Option<usize>,
}

impl World {
    /// What the world holds, with sequences in place of vectors.
    pub open(crate) spec fn view(&self) -> WorldView {
        WorldView {
            field: self.field,
            bodies: self.bodies@,
            stars: self.stars@,
            sizes: self.sizes,
            speed: self.speed,
            score: self.score,
            color: self.color,
            timer_ms: self.timer_ms,
            state: self.state,
            growth: self.growth,
            nearest: self.nearest,
        }
    }

    /// The invariant, on the world itself.
    pub open spec fn wf(&self) -> bool {
        self@.wf()
    }

    /// An empty world in state `Init` with score zero.
    pub fn new(field: Playfield) -> (world: World)
        requires
            field.wf(),
        ensures
            world.wf(),
            world@ == WorldView::blank(field, GameState::Init, 0),
    {
        World {
            field,
            bodies: Vec::new(),
            stars: Vec::new(),
            sizes: Sizes { player: 0, star: 0, pickup: 0, orb: 0 },
            speed: Speed { player: 0, star: 0, orb: 0 },
            score: 0,
            color: OrbsRGB { r: COLOR_FULL, g: 0, b: 0 },
            timer_ms: 0,
            state: GameState::Init,
            growth: 0,
            nearest: None,
        }
    }

    /// An empty world in state `Game` with the given score, or nothing if
    /// the score is beyond [`THRESHOLD`]. Sizes and speeds are zero, as
    /// before a level is set up.
    pub fn with_score(field: Playfield, score: u32) -> (world: Option<World>)
        requires
            field.wf(),
        ensures
            world is Some <==> score <= THRESHOLD,
            world is Some ==> world->0.wf() && world->0@ == WorldView::blank(
                field,
                GameState::Game,
                score,
            ),
    {
        if score > THRESHOLD {
            return None;
        }
        let world = World {
            field,
            bodies: Vec::new(),
            stars: Vec::new(),
            sizes: Sizes { player: 0, star: 0, pickup: 0, orb: 0 },
            speed: Speed { player: 0, star: 0, orb: 0 },
            score,
            color: OrbsRGB { r: COLOR_FULL, g: 0, b: 0 },
            timer_ms: 0,
            state: GameState::Game,
            growth: 0,
            nearest: None,
        };
        proof {
            assert(!has_live(world@.bodies, CollideType::Pickup));
            assert(world@.score * field.orb_speed_step() >= 0) by (nonlinear_arith)
                requires
                    world@.score >= 0,
                    field.orb_speed_step() >= 0,
            ;
        }
        Some(world)
    }

    /// The playfield.
    pub fn field(&self) -> (r: Playfield)
        ensures
            r == self@.field,
    {
        self.field
    }

    /// The score.
    pub fn score(&self) -> (r: u32)
        ensures
            r == self@.score,
    {
        self.score
    }

    /// The game state.
    pub fn state(&self) -> (r: GameState)
        ensures
            r == self@.state,
    {
        self.state
    }

    /// The time played in this session, in milliseconds.
    pub fn timer_ms(&self) -> (r: u64)
        ensures
            r == self@.timer_ms,
    {
        self.timer_ms
    }

    /// The colour of the orbs' borders.
    pub fn color(&self) -> (r: OrbsRGB)
        ensures
            r == self@.color,
    {
        self.color
    }

    /// The radii in use.
    pub fn sizes(&self) -> (r: Sizes)
        ensures
            r == self@.sizes,
    {
        self.sizes
    }

    /// The speeds in use.
    pub fn speed(&self) -> (r: Speed)
        ensures
            r == self@.speed,
    {
        self.speed
    }

    /// The radius of the player's growth indicator.
    pub fn growth(&self) -> (r: u32)
        ensures
            r == self@.growth,
    {
        self.growth
    }

    /// The pickup that was nearest to a player when last looked up.
    pub fn nearest(&self) -> (r: Option<usize>)
        ensures
            r == self@.nearest,
    {
        self.nearest
    }

    /// Number of slots of the arena, live or not.
    pub fn len(&self) -> (r: usize)
        ensures
            r == self@.bodies.len(),
    {
        self.bodies.len()
    }

    /// The body with the given handle, live or not.
    pub fn body(&self, id: usize) -> (r: Option<Body>)
        ensures
            r == (if id < self@.bodies.len() {
                Some(self@.bodies[id as int])
            } else {
                None
            }),
    {
        if id < self.bodies.len() {
            Some(self.bodies[id])
        } else {
            None
        }
    }

    /// Number of background stars.
    pub fn star_count(&self) -> (r: usize)
        ensures
            r == self@.stars.len(),
    {
        self.stars.len()
    }

    /// The place of the star with the given index.
    pub fn star(&self, index: usize) -> (r: Option<Position>)
        ensures
            r == (if index < self@.stars.len() {
                Some(self@.stars[index as int])
            } else {
                None
            }),
    {
        if index < self.stars.len() {
            Some(self.stars[index])
        } else {
            None
        }
    }

    /// Appends a body to the arena.
    pub(crate) fn push_body(&mut self, body: Body)
        requires
            old(self).wf(),
            body.wf(),
            old(self)@.state != GameState::Init,
            old(self)@.bodies.len() < MAX_BODIES,
            body.is_live(CollideType::Pickup) ==> old(self)@.score < THRESHOLD,
        ensures
            final(self).wf(),
            final(self)@ == (WorldView { bodies: old(self)@.bodies.push(body), ..old(self)@ }),
    {
        self.bodies.push(body);
        proof {
            let before = old(self)@.bodies;
            let after = self@.bodies;
            assert forall|i: int| 0 <= i < after.len() implies (#[trigger] after[i]).wf() by {
                if i < before.len() {
                    assert(after[i] == before[i]);
                }
            }
            if self@.score == THRESHOLD {
                if has_live(after, CollideType::Pickup) {
                    let i = choose|i: int|
                        0 <= i < after.len() && (#[trigger] after[i]).is_live(CollideType::Pickup);
                    assert(i < before.len());
                    assert(before[i].is_live(CollideType::Pickup));
                }
            }
        }
    }

    /// Adds a live body to the arena and answers its handle, or says why the
    /// body cannot be part of the world. Nothing else changes.
    pub fn spawn(&mut self, kind: CollideType, radius: u32, x: i64, y: i64) -> (r: Result<
        usize,
        SpawnError,
    >)
        requires
            old(self).wf(),
        ensures
            final(self).wf(),
            r == spawn_outcome(old(self)@, Body::fresh(kind, radius, x, y)),
            r is Ok ==> final(self)@ == (WorldView {
                bodies: old(self)@.bodies.push(Body::fresh(kind, radius, x, y)),
                ..old(self)@
            }),
            r is Err ==> final(self)@ == old(self)@,
    {
        if radius == 0 {
            return Err(SpawnError::ZeroRadius);
        }
        if x < -COORD_LIMIT || x > COORD_LIMIT || y < -COORD_LIMIT || y > COORD_LIMIT {
            return Err(SpawnError::OutOfRange);
        }
        if self.state == GameState::Init {
            return Err(SpawnError::NotSetUp);
        }
        if self.bodies.len() >= MAX_BODIES {
            return Err(SpawnError::ArenaFull);
        }
        if kind == CollideType::Pickup && self.score >= THRESHOLD {
            return Err(SpawnError::PickupsGone);
        }
        let id: usize = self.bodies.len();
        self.push_body(
            Body { collider: Collider { radius, kind }, position: Position { x, y }, alive: true },
        );
        Ok(id)
    }

    /// Puts the live body with the given handle at `place`, and says whether
    /// it did: a body that is not live stays where it is, and so does every
    /// body if `place` is beyond [`COORD_LIMIT`].
    pub fn move_body(&mut self, id: usize, place: Position) -> (moved: bool)
        requires
            old(self).wf(),
        ensures
            final(self).wf(),
            moved == (old(self)@.live_kind(id as int) is Some && in_limit(place)),
            final(self)@ == (if moved {
                old(self)@.with_body_at(id as int, place)
            } else {
                old(self)@
            }),
    {
        if id >= self.bodies.len() || !self.bodies[id].alive {
            return false;
        }
        if place.x < -COORD_LIMIT || place.x > COORD_LIMIT || place.y < -COORD_LIMIT || place.y
            > COORD_LIMIT {
            return false;
        }
        let body = self.bodies[id];
        self.bodies[id] = Body { collider: body.collider, position: place, alive: body.alive };
        proof {
            let before = old(self)@.bodies;
            let after = self@.bodies;
            assert(after =~= old(self)@.with_body_at(id as int, place).bodies);
            assert(self@.stars == old(self)@.stars);
            assert forall|i: int| 0 <= i < after.len() implies (#[trigger] after[i]).wf() by {
                assert(before[i].wf());
            }
            if has_live(after, CollideType::Pickup) {
                let i = choose|i: int|
                    0 <= i < after.len() && (#[trigger] after[i]).is_live(CollideType::Pickup);
                assert(before[i].is_live(CollideType::Pickup));
            }
        }
        true
    }

    /// Adds a background star at `place`, and says whether it did: there are
    /// no stars in state `Init`, and none beyond [`COORD_LIMIT`].
    pub fn add_star(&mut self, place: Position) -> (added: bool)
        requires
            old(self).wf(),
        ensures
            final(self).wf(),
            added == (old(self)@.state != GameState::Init && in_limit(place)),
            final(self)@ == (if added {
                old(self)@.with_star(place)
            } else {
                old(self)@
            }),
    {
        if self.state == GameState::Init {
            return false;
        }
        if place.x < -COORD_LIMIT || place.x > COORD_LIMIT || place.y < -COORD_LIMIT || place.y
            > COORD_LIMIT {
            return false;
        }
        self.stars.push(place);
        proof {
            let before = old(self)@.stars;
            let after = self@.stars;
            assert(self@.bodies == old(self)@.bodies);
            assert forall|i: int| 0 <= i < after.len() implies in_limit(#[trigger] after[i]) by {
                if i < before.len() {
                    assert(after[i] == before[i]);
                }
            }
        }
        true
    }
}

} // verus!
