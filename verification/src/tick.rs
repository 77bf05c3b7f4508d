//! The tick: what runs in which game state, and in which order.

use vstd::prelude::*;
use crate::detect::{detect_events, CollisionEvent};
use crate::geometry::CollideType;
use crate::motion::MoveInput;
use crate::nearest::{highlight_between, nearest_is, nearest_of, Highlight};
use crate::resolve::{
    lemma_resolve_all_frame, lemma_resolve_all_keeps_wf, lemma_resolve_all_without_orbs,
    lemma_same_live,
};
use crate::state::GameState;
use crate::world::{has_live, World, WorldView};

verus! {

/// The input of one tick: whether the start key was pressed in it, and the
/// directional keys that are held.
#[derive(Clone, Copy, Debug, PartialEq, Eq, Structural)]
pub struct FrameInput {
    pub start: bool,
    pub moves: MoveInput,
}

impl WorldView {
    /// The world after `dt_ms` milliseconds were added to the timer.
    pub open spec fn timed(self, dt_ms: u32) -> WorldView {
        WorldView { timer_ms: (self.timer_ms + dt_ms) as u64, ..self }
    }

    /// The world after the check for a win: a game without a live orb is won.
    pub open spec fn win_checked(self) -> WorldView {
        if self.state == GameState::Game && !has_live(self.bodies, CollideType::Orb) {
            WorldView { state: GameState::Victory, ..self }
        } else {
            self
        }
    }

    /// Whether `after` is what the start input makes of the world `self`:
    /// out of `Init` the level is set up, a running game is paused and a
    /// paused one resumed, and after a defeat or a victory the session is
    /// restarted.
    pub open spec fn is_toggle(self, after: WorldView) -> bool {
        match self.state {
            GameState::Init => self.is_level(after),
            GameState::Game => after == (WorldView { state: GameState::Pause, ..self }),
            GameState::Pause => after == (WorldView { state: GameState::Game, ..self }),
            GameState::Dead => self.is_restart(after),
            GameState::Victory => self.is_restart(after),
        }
    }

    /// Whether `after` is the world `self` after one step of a running
    /// game. The player moves, then the orbs; the collisions among the
    /// bodies as they then stand are resolved in the order of the detector;
    /// the pickups sent away are relocated; the timer advances; the stars
    /// scroll; the nearest pickup is looked up; at last the win is checked.
    pub open spec fn is_step(self, input: MoveInput, dt_ms: u32, after: WorldView) -> bool {
        exists|drifted: WorldView, relocated: WorldView|
            {
                &&& #[trigger] self.moved(input, dt_ms).is_drift(dt_ms, drifted)
                &&& #[trigger] drifted.resolve_all(detect_events(drifted.bodies)).is_relocation(
                    drifted.follow_ups(detect_events(drifted.bodies)),
                    relocated,
                )
                &&& after == relocated.timed(dt_ms).scrolled().nearest_picked().win_checked()
            }
    }

    /// What a tick does once the start input is dealt with: a running game
    /// takes a step, after a defeat or a victory only the stars scroll, and
    /// otherwise nothing happens.
    pub open spec fn is_update(self, input: MoveInput, dt_ms: u32, after: WorldView) -> bool {
        match self.state {
            GameState::Game => self.is_step(input, dt_ms, after),
            GameState::Dead => after == self.scrolled(),
            GameState::Victory => after == self.scrolled(),
            _ => after == self,
        }
    }

    /// Whether a tick under the given input takes a step of the game: a
    /// running game without start input, or any other state that the start
    /// input turns into a running game.
    pub open spec fn runs_step(self, input: FrameInput) -> bool {
        if input.start {
            self.state != GameState::Game
        } else {
            self.state == GameState::Game
        }
    }

    /// Whether a tick under the given input begins with a world whose step
    /// runs: a running game without start input, or a game that the start
    /// input sets up or resumes.
    pub open spec fn tick_steps(self, input: FrameInput) -> bool {
        if input.start {
            self.state == GameState::Init || self.state == GameState::Pause
        } else {
            self.state == GameState::Game
        }
    }

    /// Whether the world can take a tick: where the tick restarts the
    /// session and has to add a new level the arena has room for it, and
    /// where the step runs the timer can take the time of the tick.
    pub open spec fn can_tick(self, input: FrameInput, dt_ms: u32) -> bool {
        &&& input.start && self.state.restarts() ==> self.can_restart()
        &&& self.tick_steps(input) ==> self.timer_ms + dt_ms <= u64::MAX
    }

    /// The timer after a tick: where the step runs it has the time of the
    /// tick added, after a restart it holds just that time, and otherwise it
    /// stands.
    pub open spec fn ticked_timer(self, input: FrameInput, dt_ms: u32) -> int {
        if self.tick_steps(input) {
            self.timer_ms + dt_ms
        } else if input.start && self.state.restarts() {
            dt_ms as int
        } else {
            self.timer_ms as int
        }
    }

    /// Whether `after` is the world `self` after one tick: first the start
    /// input, if there is one, then the update of the state reached.
    pub open spec fn is_tick(self, input: FrameInput, dt_ms: u32, after: WorldView) -> bool {
        if input.start {
            exists|toggled: WorldView| #[trigger]
                self.is_toggle(toggled) && toggled.is_update(input.moves, dt_ms, after)
        } else {
            self.is_update(input.moves, dt_ms, after)
        }
    }
}

/// A step adds the time of the tick to the timer and keeps the playfield,
/// the sizes, the number of bodies and the number of stars.
pub proof fn lemma_step_frame(w: WorldView, input: MoveInput, dt_ms: u32, after: WorldView)
    requires
        w.is_step(input, dt_ms, after),
    ensures
        after.timer_ms == (w.timer_ms + dt_ms) as u64,
        after.field == w.field,
        after.sizes == w.sizes,
        after.bodies.len() == w.bodies.len(),
        after.stars.len() == w.stars.len(),
        after.nearest == nearest_of(after.bodies),
{
    let (drifted, relocated) = choose|drifted: WorldView, relocated: WorldView|
        {
            &&& #[trigger] w.moved(input, dt_ms).is_drift(dt_ms, drifted)
            &&& #[trigger] drifted.resolve_all(detect_events(drifted.bodies)).is_relocation(
                drifted.follow_ups(detect_events(drifted.bodies)),
                relocated,
            )
            &&& after == relocated.timed(dt_ms).scrolled().nearest_picked().win_checked()
        };
    lemma_resolve_all_frame(drifted, detect_events(drifted.bodies));
}

/// A running game in which no orb is live at the start of a step is won by
/// the end of it, whatever the score.
pub proof fn lemma_step_without_orbs_wins(w: WorldView, input: MoveInput, dt_ms: u32, after: WorldView)
    requires
        w.state == GameState::Game,
        !has_live(w.bodies, CollideType::Orb),
        w.is_step(input, dt_ms, after),
    ensures
        after.state == GameState::Victory,
{
    let (drifted, relocated) = choose|drifted: WorldView, relocated: WorldView|
        {
            &&& #[trigger] w.moved(input, dt_ms).is_drift(dt_ms, drifted)
            &&& #[trigger] drifted.resolve_all(detect_events(drifted.bodies)).is_relocation(
                drifted.follow_ups(detect_events(drifted.bodies)),
                relocated,
            )
            &&& after == relocated.timed(dt_ms).scrolled().nearest_picked().win_checked()
        };
    let moved = w.moved(input, dt_ms);
    lemma_same_live(w.bodies, moved.bodies, CollideType::Orb);
    assert forall|i: int| 0 <= i < drifted.bodies.len() && (#[trigger] drifted.bodies[i]).is_live(
        CollideType::Orb,
    ) implies moved.bodies[i].is_live(CollideType::Orb) by {
        assert(moved.drifts_body(dt_ms, moved.bodies[i], drifted.bodies[i]));
        if !moved.bodies[i].is_live(CollideType::Orb) {
            assert(drifted.bodies[i] == moved.bodies[i]);
        }
    }
    lemma_same_live(moved.bodies, drifted.bodies, CollideType::Orb);
    let events = detect_events(drifted.bodies);
    let resolved = drifted.resolve_all(events);
    lemma_resolve_all_without_orbs(drifted, events);
    assert forall|i: int| 0 <= i < relocated.bodies.len() && (#[trigger] relocated.bodies[i]).is_live(
        CollideType::Orb,
    ) implies resolved.bodies[i].is_live(CollideType::Orb) by {
        if resolved.is_sent_away(drifted.follow_ups(events), i) {
            assert(relocated.bodies[i].collider == resolved.bodies[i].collider);
        } else {
            assert(relocated.bodies[i] == resolved.bodies[i]);
        }
    }
    lemma_same_live(resolved.bodies, relocated.bodies, CollideType::Orb);
}

/// A tick without start input on a running game in which no orb is live
/// ends in victory, whatever the score.
pub proof fn lemma_tick_without_orbs_wins(w: WorldView, input: FrameInput, dt_ms: u32, after: WorldView)
    requires
        w.state == GameState::Game,
        !has_live(w.bodies, CollideType::Orb),
        !input.start,
        w.is_tick(input, dt_ms, after),
    ensures
        after.state == GameState::Victory,
{
    lemma_step_without_orbs_wins(w, input.moves, dt_ms, after);
}

impl World {
    /// Whether some body of the given kind is live.
    pub fn has_live(&self, kind: CollideType) -> (r: bool)
        ensures
            r == has_live(self@.bodies, kind),
    {
        let n: usize = self.bodies.len();
        let mut i: usize = 0;
        while i < n
            invariant
                n == self@.bodies.len(),
                i <= n,
                forall|j: int| 0 <= j < i ==> !(#[trigger] self@.bodies[j]).is_live(kind),
            decreases n - i,
        {
            let body = self.bodies[i];
            if body.alive && body.collider.kind == kind {
                assert(self@.bodies[i as int].is_live(kind));
                return true;
            }
            i += 1;
        }
        false
    }

    /// Adds the time of a tick to the timer.
    pub fn update_time(&mut self, dt_ms: u32)
        requires
            old(self).wf(),
            old(self)@.timer_ms + dt_ms <= u64::MAX,
        ensures
            final(self).wf(),
            final(self)@ == old(self)@.timed(dt_ms),
    {
        self.timer_ms = self.timer_ms + dt_ms as u64;
        proof {
            assert(self@.bodies == old(self)@.bodies);
            assert(self@.stars == old(self)@.stars);
        }
    }

    /// Declares the victory if the game is running and no orb is left.
    pub fn check_win(&mut self)
        requires
            old(self).wf(),
        ensures
            final(self).wf(),
            final(self)@ == old(self)@.win_checked(),
    {
        if self.state == GameState::Game && !self.has_live(CollideType::Orb) {
            self.state = GameState::Victory;
            proof {
                assert(self@.bodies == old(self)@.bodies);
                assert(self@.stars == old(self)@.stars);
            }
        }
    }

    /// Reacts to the start input: sets the level up, pauses, resumes or
    /// restarts, by the state the game is in.
    pub fn toggle_state(&mut self)
        requires
            old(self).wf(),
            old(self)@.state.restarts() ==> old(self)@.can_restart(),
        ensures
            final(self).wf(),
            old(self)@.is_toggle(final(self)@),
            final(self)@.state == old(self)@.state.toggled(),
    {
        match self.state {
            GameState::Init => {
                self.setup();
            },
            GameState::Game => {
                self.state = GameState::Pause;
                proof {
                    assert(self@.bodies == old(self)@.bodies);
                    assert(self@.stars == old(self)@.stars);
                }
            },
            GameState::Pause => {
                self.state = GameState::Game;
                proof {
                    assert(self@.bodies == old(self)@.bodies);
                    assert(self@.stars == old(self)@.stars);
                }
            },
            GameState::Dead => {
                self.reset_game();
            },
            GameState::Victory => {
                self.reset_game();
            },
        }
    }

    /// One step of a running game. Answers what changes in the
    /// highlighting.
    fn step(&mut self, input: MoveInput, dt_ms: u32) -> (change: Option<Highlight>)
        requires
            old(self).wf(),
            old(self)@.timer_ms + dt_ms <= u64::MAX,
        ensures
            final(self).wf(),
            old(self)@.is_step(input, dt_ms, final(self)@),
            final(self)@.score >= old(self)@.score,
            nearest_is(final(self)@.bodies, final(self)@.nearest),
            change == highlight_between(old(self)@.nearest, final(self)@.nearest),
    {
        self.movement(input, dt_ms);
        self.orb_movement(dt_ms);
        let ghost drifted = self@;
        let events: Vec<CollisionEvent> = self.detect_collisions();
        proof {
            lemma_resolve_all_frame(drifted, events@);
            lemma_resolve_all_keeps_wf(drifted, events@);
        }
        let sent = self.manage_collisions(&events);
        self.handle_pickup_collision(&sent);
        let ghost relocated = self@;
        self.update_time(dt_ms);
        self.move_scene();
        let change = self.nearest_pick();
        self.check_win();
        proof {
            assert(old(self)@.moved(input, dt_ms).is_drift(dt_ms, drifted));
            assert(drifted.resolve_all(detect_events(drifted.bodies)).is_relocation(
                drifted.follow_ups(detect_events(drifted.bodies)),
                relocated,
            ));
        }
        change
    }

    /// What a tick does once the start input is dealt with. Answers what
    /// changes in the highlighting.
    fn update(&mut self, input: MoveInput, dt_ms: u32) -> (change: Option<Highlight>)
        requires
            old(self).wf(),
            old(self)@.state == GameState::Game ==> old(self)@.timer_ms + dt_ms <= u64::MAX,
        ensures
            final(self).wf(),
            old(self)@.is_update(input, dt_ms, final(self)@),
            final(self)@.score >= old(self)@.score,
            old(self)@.state == GameState::Game ==> nearest_is(
                final(self)@.bodies,
                final(self)@.nearest,
            ),
            change == highlight_between(old(self)@.nearest, final(self)@.nearest),
    {
        match self.state {
            GameState::Game => self.step(input, dt_ms),
            GameState::Dead => {
                self.move_scene();
                None
            },
            GameState::Victory => {
                self.move_scene();
                None
            },
            _ => None,
        }
    }

    /// Whether the world can take a tick of `dt_ms` milliseconds under the
    /// given input.
    pub fn can_tick(&self, input: FrameInput, dt_ms: u32) -> (r: bool)
        ensures
            r == self@.can_tick(input, dt_ms),
    {
        let restarts: bool = self.state == GameState::Dead || self.state == GameState::Victory;
        let steps: bool = if input.start {
            self.state == GameState::Init || self.state == GameState::Pause
        } else {
            self.state == GameState::Game
        };
        let room: bool = !(input.start && restarts) || self.has_room() || self.has_live(
            CollideType::Orb,
        );
        room && (!steps || self.timer_ms <= u64::MAX - dt_ms as u64)
    }

    /// Runs one tick of `dt_ms` milliseconds under the given input, and
    /// answers what changes in the highlighting of the nearest pickup.
    ///
    /// The arena must have room for a new level where the tick restarts a
    /// session in which no orb is live, and the timer must be able to take
    /// the time of the tick where the step runs.
    pub fn tick(&mut self, input: FrameInput, dt_ms: u32) -> (change: Option<Highlight>)
        requires
            old(self).wf(),
            old(self)@.can_tick(input, dt_ms),
        ensures
            final(self).wf(),
            old(self)@.is_tick(input, dt_ms, final(self)@),
            final(self)@.field == old(self)@.field,
            final(self)@.timer_ms == old(self)@.ticked_timer(input, dt_ms),
            !(input.start && old(self)@.state.restarts()) ==> final(self)@.score >= old(
                self,
            )@.score,
            old(self)@.runs_step(input) ==> nearest_is(final(self)@.bodies, final(self)@.nearest),
            change == highlight_between(old(self)@.nearest, final(self)@.nearest),
    {
        if input.start {
            self.toggle_state();
            let ghost toggled = self@;
            let change = self.update(input.moves, dt_ms);
            proof {
                assert(old(self)@.is_toggle(toggled) && toggled.is_update(
                    input.moves,
                    dt_ms,
                    self@,
                ));
                if toggled.state == GameState::Game {
                    lemma_step_frame(toggled, input.moves, dt_ms, self@);
                }
            }
            change
        } else {
            let change = self.update(input.moves, dt_ms);
            proof {
                if old(self)@.state == GameState::Game {
                    lemma_step_frame(old(self)@, input.moves, dt_ms, self@);
                }
            }
            change
        }
    }
}

} // verus!
