//! The states of the game and the transition on the start input.

use vstd::prelude::*;

verus! {

/// The state of the game. A run starts in `Init`; no state is final.
#[derive(Clone, Copy, Debug, PartialEq, Eq, Structural, Hash)]
pub enum GameState {
    Init,
    Game,
    Pause,
    Dead,
    Victory,
}

impl GameState {
    pub open spec fn spec_toggled(self) -> GameState {
        match self {
            GameState::Init => GameState::Game,
            GameState::Game => GameState::Pause,
            GameState::Pause => GameState::Game,
            GameState::Dead => GameState::Game,
            GameState::Victory => GameState::Game,
        }
    }

    /// The state that the start input leads to: it starts the game, pauses
    /// and resumes it, and restarts it after a defeat or a victory.
    #[verifier::when_used_as_spec(spec_toggled)]
    pub fn toggled(self) -> (next: GameState)
        ensures
            next == self.toggled(),
    {
        match self {
            GameState::Init => GameState::Game,
            GameState::Game => GameState::Pause,
            GameState::Pause => GameState::Game,
            GameState::Dead => GameState::Game,
            GameState::Victory => GameState::Game,
        }
    }

    /// Whether leaving this state on the start input begins a new session:
    /// after a defeat or a victory the session is reset.
    pub open spec fn restarts(self) -> bool {
        self == GameState::Dead || self == GameState::Victory
    }
}

} // verus!
