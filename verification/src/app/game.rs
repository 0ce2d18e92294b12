use vstd::prelude::*;

verus! {

/// High-level state of the automation target (the game).
///
/// Perception services publish transitions; policy and executor services react to them.
#[derive(Clone, Copy, Debug, PartialEq, Eq, Structural)]
pub enum GameState {
    NotStarted,
    MainMenu,
    Playing,
    Paused,
    GameSuccess,
    GameFailure,
    /// Nothing perceived yet: the initial state before any recognition.
    Unknown,
}

impl Default for GameState {
    fn default() -> (state: GameState)
        ensures
            state == GameState::Unknown,
    {
        GameState::Unknown
    }
}

impl GameState {
    /// Moves on to `next`. Returns whether that is a transition.
    pub fn publish(&mut self, next: GameState) -> (changed: bool)
        ensures
            *final(self) == next,
            changed == (*old(self) != next),
    {
        if *self == next {
            return false;
        }
        *self = next;
        true
    }
}

} // verus!
