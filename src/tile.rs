use vstd::prelude::*;

verus! {

/// One cell of the grid.
#[derive(Clone, Copy, Debug, PartialEq, Eq, Structural)]
pub struct Tile {
    /// Uncovered by a reveal, directly or through a cascade.
    pub revealed: bool,
    /// Holds a mine; fixed once the board is generated.
    pub bomb: bool,
    /// Marked by the player.
    pub flagged: bool,
    /// Number of mines among the up to eight neighbours; 0 on a mine.
    pub number: u8,
}

impl Tile {
    pub open spec fn hidden_spec() -> Tile {
        Tile { revealed: false, bomb: false, flagged: false, number: 0 }
    }

    /// A covered, unflagged tile without a mine.
    pub fn hidden() -> (t: Tile)
        ensures
            !t.revealed,
            !t.bomb,
            !t.flagged,
            t.number == 0,
            t == Tile::hidden_spec(),
    {
        Tile { revealed: false, bomb: false, flagged: false, number: 0 }
    }
}

/// What a player can do to a tile.
#[derive(Clone, Copy, Debug, PartialEq, Eq, Structural)]
pub enum Action {
    Flag,
    Reveal,
}

/// Why an action or a construction was refused. No refusal changes the game.
#[derive(Clone, Copy, Debug, PartialEq, Eq, Structural)]
pub enum GameError {
    CannotModifyVisibleTile,
    CannotRevealFlaggedTile,
    GameAlreadyOver,
    OutOfBounds,
    InvalidConfiguration,
}

/// The outcome of a successful action.
#[derive(Clone, Debug, PartialEq, Eq)]
pub enum Response {
    GameOver,
    GameWon,
    Flag,
    Unflag,
    /// The cells, as (column, row), that this reveal uncovered.
    Reveal(Vec<(usize, usize)>),
}

} // verus!
