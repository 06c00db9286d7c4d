use vstd::prelude::*;

use crate::tile::Response;

verus! {

/// Which screen the game shows.
#[derive(Clone, Copy, Debug, Default, PartialEq, Eq, Hash, Structural)]
pub enum GameState {
    /// A match is under way.
    #[default]
    Playing,
    /// The last match was won.
    GameWon,
    /// The last match was lost.
    GameLost,
}

impl GameState {
    /// The screen to show after an action's outcome.
    pub fn after(response: &Response) -> (s: GameState)
        ensures
            s == match response {
                Response::GameOver => GameState::GameLost,
                Response::GameWon => GameState::GameWon,
                _ => GameState::Playing,
            },
    {
        match response {
            Response::GameOver => GameState::GameLost,
            Response::GameWon => GameState::GameWon,
            _ => GameState::Playing,
        }
    }
}

} // verus!
