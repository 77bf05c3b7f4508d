//! The simulation step: the player follows the directional input and stays
//! inside the playfield, the orbs drift to the left and come back on the
//! right, the stars scroll behind them.

use vstd::prelude::*;
use crate::field::in_spawn_range;
use crate::geometry::{CollideType, Position};
use crate::random::thread_rng;
use crate::resolve::{lemma_ramp_bounded, PickupCollision};
use crate::session::{random_coordinate, random_place, random_position};
use crate::world::{in_limit, Body, World, WorldView, COORD_LIMIT};

verus! {

/// The directional input of one tick: which of the four keys are held.
#[derive(Clone, Copy, Debug, PartialEq, Eq, Structural)]
pub struct MoveInput {
    pub up: bool,
    pub down: bool,
    pub left: bool,
    pub right: bool,
}

/// The direction along one axis: forward, backward, or none when neither or
/// both apply.
pub open spec fn axis(forward: bool, backward: bool) -> int {
    (if forward {
        1int
    } else {
        0int
    }) - (if backward {
        1int
    } else {
        0int
    })
}

/// Whether `d` is the length `step` divided by the square root of two and
/// rounded down: what each axis gets of a diagonal move of length `step`.
pub open spec fn is_diagonal(step: int, d: int) -> bool {
    &&& 0 <= d
    &&& 2 * d * d <= step * step
    &&& step * step < 2 * (d + 1) * (d + 1)
}

/// The length `step` divided by the square root of two, rounded down.
pub open spec fn diagonal(step: int) -> int {
    choose|d: int| is_diagonal(step, d)
}

/// The length covered in `dt_ms` milliseconds at `speed` units per second.
pub open spec fn travel(speed: int, dt_ms: int) -> int {
    speed * dt_ms / 1000
}

/// What a move of length `step` adds to a coordinate, given the direction
/// along its own axis and along the other one. A move along both axes has
/// length `step` too, so each axis gets the diagonal share.
pub open spec fn stride(step: int, along: int, across: int) -> int {
    if along == 0 {
        0
    } else if across == 0 {
        along * step
    } else {
        along * diagonal(step)
    }
}

/// `v` brought into the interval from `lo` to `hi`.
pub open spec fn clamp(v: int, lo: int, hi: int) -> int {
    if v > hi {
        hi
    } else if v < lo {
        lo
    } else {
        v
    }
}

/// Whether the body with handle `k` is the only live player.
pub open spec fn sole_player(bodies: Seq<Body>, k: int) -> bool {
    &&& 0 <= k < bodies.len()
    &&& bodies[k].is_live(CollideType::Player)
    &&& forall|j: int|
        0 <= j < bodies.len() && j != k ==> !(#[trigger] bodies[j]).is_live(CollideType::Player)
}

/// Squares of non-negative numbers keep their order.
proof fn lemma_square_order(a: int, b: int)
    by (nonlinear_arith)
    requires
        0 <= a <= b,
    ensures
        a * a <= b * b,
        2 * a * a <= 2 * b * b,
{
}

/// A product of bounded non-negative numbers is bounded by the product of
/// the bounds.
proof fn lemma_product_bound(a: int, b: int, a_max: int, b_max: int)
    by (nonlinear_arith)
    requires
        0 <= a <= a_max,
        0 <= b <= b_max,
    ensures
        0 <= a * b <= a_max * b_max,
{
}

/// From a share that is not too large, the search upwards ends at the
/// diagonal share.
proof fn lemma_diagonal_search(length: int, d: int) -> (e: int)
    requires
        0 <= d <= length,
        2 * d * d <= length * length,
    ensures
        is_diagonal(length, e),
    decreases length - d,
{
    if length * length < 2 * (d + 1) * (d + 1) {
        d
    } else {
        assert(d + 1 <= length) by (nonlinear_arith)
            requires
                0 <= d,
                0 <= length,
                2 * (d + 1) * (d + 1) <= length * length,
        ;
        lemma_diagonal_search(length, d + 1)
    }
}

/// Every step has a diagonal share: [`diagonal`] names what
/// [`is_diagonal`] describes.
pub proof fn lemma_diagonal_exists(step: int)
    ensures
        is_diagonal(step, diagonal(step)),
{
    let length = if step >= 0 {
        step
    } else {
        -step
    };
    assert(length * length == step * step) by (nonlinear_arith)
        requires
            length == step || length == -step,
    ;
    let e = lemma_diagonal_search(length, 0);
    assert(is_diagonal(step, e));
}

/// The diagonal share of a step is unique, so [`diagonal`] names it.
pub proof fn lemma_diagonal_unique(step: int, d: int)
    requires
        is_diagonal(step, d),
    ensures
        diagonal(step) == d,
{
    let c = diagonal(step);
    assert(is_diagonal(step, c));
    if c < d {
        lemma_square_order(c + 1, d);
    } else if d < c {
        lemma_square_order(d + 1, c);
    }
}

/// Computes the diagonal share of a step by bisection.
pub fn diagonal_step(step: u64) -> (d: u64)
    ensures
        d == diagonal(step as int),
        is_diagonal(step as int, d as int),
        d <= step,
{
    proof {
        lemma_product_bound(
            step as int,
            step as int,
            0xffff_ffff_ffff_ffff,
            0xffff_ffff_ffff_ffff,
        );
    }
    let target: u128 = step as u128 * step as u128;
    let half: u128 = target / 2;
    let mut lo: u128 = 0;
    let mut hi: u128 = step as u128 + 1;
    proof {
        assert(step * step < 2 * (step + 1) * (step + 1)) by (nonlinear_arith)
            requires
                0 <= step,
        ;
    }
    while hi - lo > 1
        invariant
            target == step * step,
            half == target / 2,
            lo < hi <= step + 1,
            2 * lo * lo <= target,
            target < 2 * hi * hi,
        decreases hi - lo,
    {
        let mid: u128 = lo + (hi - lo) / 2;
        proof {
            lemma_product_bound(mid as int, mid as int, step as int, step as int);
        }
        let square: u128 = mid * mid;
        assert(2 * mid * mid == 2 * square) by (nonlinear_arith)
            requires
                square == mid * mid,
        ;
        if square <= half {
            lo = mid;
        } else {
            hi = mid;
        }
    }
    proof {
        assert(hi == lo + 1);
        assert(2 * (lo + 1) * (lo + 1) == 2 * hi * hi) by (nonlinear_arith)
            requires
                hi == lo + 1,
        ;
        lemma_diagonal_unique(step as int, lo as int);
    }
    lo as u64
}

impl WorldView {
    /// Where the player at `p` stands after a tick of `dt_ms` milliseconds
    /// under the given input. The direction comes from the keys alone, and
    /// opposing keys cancel. The move has the length that the player's speed
    /// covers in the time, and the result is brought back inside the walls.
    pub open spec fn player_moved(self, p: Position, input: MoveInput, dt_ms: u32) -> Position {
        let size = self.sizes.player as int;
        let half_w = self.field.half_width() as int;
        let half_h = self.field.half_height() as int;
        let dir_x = axis(input.right, input.left);
        let dir_y = axis(input.up, input.down);
        let step = travel(self.speed.player as int, dt_ms as int);
        Position {
            x: clamp(p.x + stride(step, dir_x, dir_y), size - half_w, half_w - size) as i64,
            y: clamp(p.y + stride(step, dir_y, dir_x), size - half_h, half_h - size) as i64,
        }
    }

    /// The world after the player's move. Without exactly one live player
    /// the tick is skipped and nothing moves.
    pub open spec fn moved(self, input: MoveInput, dt_ms: u32) -> WorldView {
        if exists|k: int| sole_player(self.bodies, k) {
            let k = choose|k: int| sole_player(self.bodies, k);
            WorldView {
                bodies: self.bodies.update(
                    k,
                    Body {
                        position: self.player_moved(self.bodies[k].position, input, dt_ms),
                        ..self.bodies[k]
                    },
                ),
                ..self
            }
        } else {
            self
        }
    }
}

impl WorldView {
    /// What a tick of `dt_ms` milliseconds makes of a body, where `b` is the
    /// body after it. A live orb that has passed the left edge by its radius
    /// comes back beyond the right edge at a random height; any other live
    /// orb drifts to the left by what its speed covers in the time. A body
    /// that is no live orb stays as it is.
    pub open spec fn drifts_body(self, dt_ms: u32, before: Body, b: Body) -> bool {
        let size = self.sizes.orb as int;
        let half_w = self.field.half_width() as int;
        if !before.is_live(CollideType::Orb) {
            b == before
        } else if before.position.x <= -half_w - size {
            &&& b.alive
            &&& b.collider == before.collider
            &&& b.position.x == half_w + size
            &&& in_spawn_range(b.position.y as int, size, self.field.height as int)
        } else {
            b == (Body {
                position: Position {
                    x: (before.position.x - travel(self.speed.orb as int, dt_ms as int)) as i64,
                    y: before.position.y,
                },
                ..before
            })
        }
    }

    /// Whether `after` is the world `self` after the orbs moved for `dt_ms`
    /// milliseconds.
    pub open spec fn is_drift(self, dt_ms: u32, after: WorldView) -> bool {
        &&& after == (WorldView { bodies: after.bodies, ..self })
        &&& after.bodies.len() == self.bodies.len()
        &&& forall|k: int|
            0 <= k < self.bodies.len() ==> self.drifts_body(
                dt_ms,
                self.bodies[k],
                #[trigger] after.bodies[k],
            )
    }

    /// Where the star at `p` is after a tick: a step to the left, or behind
    /// the right edge once it has left the playfield on the left.
    pub open spec fn star_scrolled(self, p: Position) -> Position {
        let size = self.sizes.star as int;
        let half_w = self.field.half_width() as int;
        if p.x + size > -half_w {
            Position { x: (p.x - self.speed.star) as i64, y: p.y }
        } else {
            Position { x: (half_w + size) as i64, y: p.y }
        }
    }

    /// The world after the stars scrolled for one tick.
    pub open spec fn scrolled(self) -> WorldView {
        WorldView {
            stars: Seq::new(self.stars.len(), |i: int| self.star_scrolled(self.stars[i])),
            ..self
        }
    }

    /// Whether the pickup with handle `k` is to be relocated: it is live and
    /// one of the events names it.
    pub open spec fn is_sent_away(self, events: Seq<PickupCollision>, k: int) -> bool {
        &&& 0 <= k < self.bodies.len()
        &&& self.bodies[k].is_live(CollideType::Pickup)
        &&& events.contains(PickupCollision(k as usize))
    }

    /// Whether `after` is the world `self` after the pickups that the events
    /// name were relocated. Each of them lies at a random place inside the
    /// playfield, with the margin of the pickup radius; nothing else has
    /// changed.
    pub open spec fn is_relocation(self, events: Seq<PickupCollision>, after: WorldView) -> bool {
        &&& after == (WorldView { bodies: after.bodies, ..self })
        &&& after.bodies.len() == self.bodies.len()
        &&& forall|k: int|
            0 <= k < self.bodies.len() ==> if self.is_sent_away(events, k) {
                &&& (#[trigger] after.bodies[k]).alive
                &&& after.bodies[k].collider == self.bodies[k].collider
                &&& random_place(self.field, self.sizes.pickup, after.bodies[k].position)
            } else {
                after.bodies[k] == self.bodies[k]
            }
    }
}

/// Among the first `i + 1` events are those among the first `i`, and the
/// one at `i`.
proof fn lemma_one_more_event(events: Seq<PickupCollision>, i: int)
    requires
        0 <= i < events.len(),
    ensures
        forall|e: PickupCollision|
            events.take(i + 1).contains(e) <==> events.take(i).contains(e) || e == events[i],
{
    let seen = events.take(i);
    let next = events.take(i + 1);
    assert forall|e: PickupCollision| next.contains(e) implies seen.contains(e) || e
        == events[i] by {
        let j = choose|j: int| 0 <= j < next.len() && next[j] == e;
        if j < seen.len() {
            assert(seen[j] == e);
        }
    }
    assert forall|e: PickupCollision| seen.contains(e) || e == events[i] implies next.contains(
        e,
    ) by {
        if seen.contains(e) {
            let j = choose|j: int| 0 <= j < seen.len() && seen[j] == e;
            assert(next[j] == e);
        } else {
            assert(next[i] == e);
        }
    }
}

/// With no key held, or only opposing keys, a player inside the walls stays
/// where it is.
pub proof fn lemma_idle_player_stays(w: WorldView, p: Position, input: MoveInput, dt_ms: u32)
    requires
        input.left == input.right,
        input.up == input.down,
        w.sizes.player - w.field.half_width() <= p.x <= w.field.half_width() - w.sizes.player,
        w.sizes.player - w.field.half_height() <= p.y <= w.field.half_height() - w.sizes.player,
    ensures
        w.player_moved(p, input, dt_ms) == p,
{
}

/// The sign of a direction and its size in one value: `-1`, `0` or `1`.
fn direction(forward: bool, backward: bool) -> (d: i64)
    ensures
        d == axis(forward, backward),
{
    let plus: i64 = if forward {
        1
    } else {
        0
    };
    let minus: i64 = if backward {
        1
    } else {
        0
    };
    plus - minus
}

/// One coordinate after the move, brought back between the walls.
fn advance(v: i64, step: i64, diagonal_share: i64, along: i64, across: i64, lo: i64, hi: i64) -> (r: i64)
    requires
        -COORD_LIMIT <= v <= COORD_LIMIT,
        0 <= diagonal_share <= step <= 0x20_0000_0000_0000,
        diagonal_share == diagonal(step as int),
        -1 <= along <= 1,
        -0x4000_0000 <= lo <= hi <= 0x4000_0000,
    ensures
        r == clamp(v + stride(step as int, along as int, across as int), lo as int, hi as int),
        lo <= r <= hi,
{
    let length: i64 = if across == 0 {
        step
    } else {
        diagonal_share
    };
    let delta: i64 = if along == 0 {
        0
    } else if along > 0 {
        length
    } else {
        -length
    };
    assert(delta == stride(step as int, along as int, across as int)) by {
        assert(along == 1 ==> along * length == length);
        assert(along == -1 ==> along * length == -length);
    }
    let moved: i64 = v + delta;
    if moved > hi {
        hi
    } else if moved < lo {
        lo
    } else {
        moved
    }
}

impl World {
    /// The handle of the only live player, if there is exactly one.
    pub fn find_sole_player(&self) -> (found: Option<usize>)
        ensures
            match found {
                Some(k) => sole_player(self@.bodies, k as int),
                None => !exists|k: int| sole_player(self@.bodies, k),
            },
    {
        let n: usize = self.bodies.len();
        let mut found: Option<usize> = None;
        let mut i: usize = 0;
        while i < n
            invariant
                n == self@.bodies.len(),
                i <= n,
                match found {
                    Some(k) => k < i && self@.bodies[k as int].is_live(CollideType::Player)
                        && forall|j: int|
                        0 <= j < i && j != k ==> !(#[trigger] self@.bodies[j]).is_live(
                            CollideType::Player,
                        ),
                    None => forall|j: int|
                        0 <= j < i ==> !(#[trigger] self@.bodies[j]).is_live(CollideType::Player),
                },
            decreases n - i,
        {
            let body = self.bodies[i];
            if body.alive && body.collider.kind == CollideType::Player {
                match found {
                    Some(k) => {
                        assert forall|c: int| !sole_player(self@.bodies, c) by {
                            if sole_player(self@.bodies, c) {
                                if c == k as int {
                                    assert(!self@.bodies[i as int].is_live(CollideType::Player));
                                } else {
                                    assert(!self@.bodies[k as int].is_live(CollideType::Player));
                                }
                            }
                        }
                        return None;
                    },
                    None => {
                        found = Some(i);
                    },
                }
            }
            i += 1;
        }
        proof {
            if found is None {
                assert forall|c: int| !sole_player(self@.bodies, c) by {
                    if sole_player(self@.bodies, c) {
                        assert(!self@.bodies[c].is_live(CollideType::Player));
                    }
                }
            }
        }
        found
    }

    /// Moves the player by the directional input of a tick of `dt_ms`
    /// milliseconds and keeps it inside the playfield.
    pub fn movement(&mut self, input: MoveInput, dt_ms: u32)
        requires
            old(self).wf(),
        ensures
            final(self).wf(),
            final(self)@ == old(self)@.moved(input, dt_ms),
    {
        match self.find_sole_player() {
            None => {},
            Some(k) => {
                proof {
                    let c = choose|c: int| sole_player(self@.bodies, c);
                    assert(sole_player(self@.bodies, c));
                    assert(c == k) by {
                        if c != k as int {
                            assert(!self@.bodies[c].is_live(CollideType::Player));
                        }
                    }
                    assert(self@.bodies[k as int].wf());
                }
                let body = self.bodies[k];
                let p = body.position;
                let size: i64 = self.sizes.player as i64;
                let half_w: i64 = self.field.half_width() as i64;
                let half_h: i64 = self.field.half_height() as i64;
                let dir_x: i64 = direction(input.right, input.left);
                let dir_y: i64 = direction(input.up, input.down);
                proof {
                    lemma_product_bound(
                        self.speed.player as int,
                        dt_ms as int,
                        0x4000_0000,
                        0x1_0000_0000,
                    );
                }
                let step: i64 = self.speed.player as i64 * dt_ms as i64 / 1000;
                let share: i64 = diagonal_step(step as u64) as i64;
                let x: i64 = advance(p.x, step, share, dir_x, dir_y, size - half_w, half_w - size);
                let y: i64 = advance(p.y, step, share, dir_y, dir_x, size - half_h, half_h - size);
                self.move_body(k, Position { x, y });
            },
        }
    }

    /// Moves the orbs for a tick of `dt_ms` milliseconds. The height at
    /// which an orb comes back is drawn at random, so the contract gives
    /// its range.
    pub fn orb_movement(&mut self, dt_ms: u32)
        requires
            old(self).wf(),
        ensures
            final(self).wf(),
            old(self)@.is_drift(dt_ms, final(self)@),
    {
        let mut rng = thread_rng();
        let size: i64 = self.sizes.orb as i64;
        let half_w: i64 = self.field.half_width() as i64;
        proof {
            lemma_ramp_bounded(
                self@.score as int,
                self@.field.orb_speed_step() as int,
            );
            lemma_product_bound(self.speed.orb as int, dt_ms as int, 0x4000_0000, 0x1_0000_0000);
        }
        let step: i64 = self.speed.orb as i64 * dt_ms as i64 / 1000;
        let n: usize = self.bodies.len();
        let mut k: usize = 0;
        while k < n
            invariant
                self.wf(),
                n == old(self)@.bodies.len(),
                n == self@.bodies.len(),
                k <= n,
                size == old(self)@.sizes.orb,
                half_w == old(self)@.field.half_width(),
                step == travel(old(self)@.speed.orb as int, dt_ms as int),
                0 <= step <= 0x20_0000_0000_0000,
                self@ == (WorldView { bodies: self@.bodies, ..old(self)@ }),
                forall|j: int|
                    0 <= j < k ==> old(self)@.drifts_body(
                        dt_ms,
                        old(self)@.bodies[j],
                        #[trigger] self@.bodies[j],
                    ),
                forall|j: int| k <= j < n ==> #[trigger] self@.bodies[j] == old(self)@.bodies[j],
            decreases n - k,
        {
            let body = self.bodies[k];
            let ghost before = self@.bodies;
            assert(before[k as int].wf());
            if body.alive && body.collider.kind == CollideType::Orb {
                let position = if body.position.x <= -half_w - size {
                    let y: i64 = random_coordinate(&mut rng, self.sizes.orb, self.field.height);
                    Position { x: half_w + size, y }
                } else {
                    Position { x: body.position.x - step, y: body.position.y }
                };
                self.move_body(k, position);
            }
            proof {
                let after = self@.bodies;
                assert forall|j: int| 0 <= j < k + 1 implies old(self)@.drifts_body(
                    dt_ms,
                    old(self)@.bodies[j],
                    #[trigger] after[j],
                ) by {
                    if j < k {
                        assert(after[j] == before[j]);
                    }
                }
            }
            k += 1;
        }
    }

    /// Scrolls the background stars by one tick.
    pub fn move_scene(&mut self)
        requires
            old(self).wf(),
        ensures
            final(self).wf(),
            final(self)@ == old(self)@.scrolled(),
    {
        let size: i64 = self.sizes.star as i64;
        let speed: i64 = self.speed.star as i64;
        let half_w: i64 = self.field.half_width() as i64;
        let n: usize = self.stars.len();
        let ghost bodies = self@.bodies;
        let mut i: usize = 0;
        while i < n
            invariant
                n == old(self)@.stars.len(),
                n == self@.stars.len(),
                i <= n,
                size == old(self)@.sizes.star,
                speed == old(self)@.speed.star,
                half_w == old(self)@.field.half_width(),
                old(self).wf(),
                bodies == old(self)@.bodies,
                self@ == (WorldView { stars: self@.stars, ..old(self)@ }),
                forall|j: int|
                    0 <= j < i ==> #[trigger] self@.stars[j] == old(self)@.star_scrolled(
                        old(self)@.stars[j],
                    ),
                forall|j: int| i <= j < n ==> #[trigger] self@.stars[j] == old(self)@.stars[j],
            decreases n - i,
        {
            let p = self.stars[i];
            assert(in_limit(old(self)@.stars[i as int]));
            let x: i64 = if p.x + size > -half_w {
                p.x - speed
            } else {
                half_w + size
            };
            self.stars[i] = Position { x, y: p.y };
            assert(self@.bodies == bodies);
            i += 1;
        }
        proof {
            assert(self@.stars =~= old(self)@.scrolled().stars);
            assert forall|j: int| 0 <= j < self@.stars.len() implies in_limit(
                #[trigger] self@.stars[j],
            ) by {
                assert(in_limit(old(self)@.stars[j]));
            }
        }
    }

    /// Relocates the pickups that the events name to random places inside
    /// the playfield. An event that names no live pickup is passed over.
    pub fn handle_pickup_collision(&mut self, events: &Vec<PickupCollision>)
        requires
            old(self).wf(),
        ensures
            final(self).wf(),
            old(self)@.is_relocation(events@, final(self)@),
    {
        let mut rng = thread_rng();
        let size: u32 = self.sizes.pickup;
        let field = self.field;
        let n: usize = events.len();
        let mut i: usize = 0;
        while i < n
            invariant
                self.wf(),
                n == events.len(),
                i <= n,
                size == old(self)@.sizes.pickup,
                field == old(self)@.field,
                old(self).wf(),
                old(self)@.is_relocation(events@.take(i as int), self@),
            decreases n - i,
        {
            let id: usize = events[i].0;
            let ghost before = self@.bodies;
            let ghost next = events@.take(i as int + 1);
            proof {
                lemma_one_more_event(events@, i as int);
            }
            if id < self.bodies.len() {
                let body = self.bodies[id];
                assert(before[id as int].is_live(CollideType::Pickup) == old(self)@.bodies[id as int].is_live(
                    CollideType::Pickup,
                ));
                if body.alive && body.collider.kind == CollideType::Pickup {
                    let position = random_position(&mut rng, field, size);
                    self.move_body(id, position);
                }
            }
            proof {
                let after = self@.bodies;
                assert forall|k: int| 0 <= k < old(self)@.bodies.len() implies if old(
                    self,
                )@.is_sent_away(next, k) {
                    &&& (#[trigger] after[k]).alive
                    &&& after[k].collider == old(self)@.bodies[k].collider
                    &&& random_place(field, size, after[k].position)
                } else {
                    after[k] == old(self)@.bodies[k]
                } by {
                    if k != id {
                        assert(after[k] == before[k]);
                        assert(PickupCollision(k as usize) != events@[i as int]);
                    }
                }
            }
            i += 1;
        }
        assert(events@.take(n as int) == events@);
    }
}

} // verus!
