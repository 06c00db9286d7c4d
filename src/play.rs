use vstd::prelude::*;

use crate::flood::{flood_done, lists_exactly};
use crate::game::{all_safe_revealed, Game};
use crate::grid::in_grid;
use crate::board::lemma_same_bombs_keep_board;
use crate::tile::{Action, GameError, Response, Tile};

verus! {

/// `g` with the flag of tile (x, y) toggled.
pub open spec fn toggled(g: Seq<Seq<Tile>>, x: int, y: int) -> Seq<Seq<Tile>> {
    g.update(y, g[y].update(x, Tile { flagged: !g[y][x].flagged, ..g[y][x] }))
}

/// What `perform_action` does to a game it may act on: `g0`/`g1` are the game
/// before and after, and (x, y) a cell of the grid.
pub open spec fn action_effect(g0: Game, g1: Game, x: int, y: int, action: Action, r: Result<Response, GameError>) -> bool {
    let t = g0.at(x, y);
    let w = g0.width as int;
    let h = g0.height as int;
    match action {
        Action::Flag => if t.revealed {
            r == Err::<Response, GameError>(GameError::CannotModifyVisibleTile) && g1 == g0
        } else {
            &&& g1.grid() == toggled(g0.grid(), x, y)
            &&& g1.game_over == g0.game_over && g1.game_won == g0.game_won
            &&& r == Ok::<Response, GameError>(if t.flagged { Response::Unflag } else { Response::Flag })
        },
        Action::Reveal => if t.flagged {
            r == Err::<Response, GameError>(GameError::CannotRevealFlaggedTile) && g1 == g0
        } else if t.bomb {
            &&& r == Ok::<Response, GameError>(Response::GameOver)
            &&& g1.grid() == g0.grid()
            &&& g1.game_over && !g1.game_won
        } else {
            &&& flood_done(g0.grid(), g1.grid(), w, h, x, y)
            &&& g1.game_over == all_safe_revealed(g1.grid(), w, h)
            &&& g1.game_won == g1.game_over
            &&& match r {
                Ok(Response::GameWon) => g1.game_won,
                Ok(Response::Reveal(s)) => !g1.game_over && lists_exactly(s@, g0.grid(), g1.grid(), w, h),
                _ => false,
            }
        },
    }
}

/// What `perform_action(x, y, action)` returns and does, from game `g0` to `g1`.
pub open spec fn action_result(g0: Game, g1: Game, x: int, y: int, action: Action, r: Result<Response, GameError>) -> bool {
    &&& g1.wf()
    &&& g1.width == g0.width && g1.height == g0.height
    &&& g1.bombs == g0.bombs && g1.top_left == g0.top_left
    &&& g0.game_over ==> r == Err::<Response, GameError>(GameError::GameAlreadyOver) && g1 == g0
    &&& !g0.game_over && !in_grid(g0.width as int, g0.height as int, x, y) ==> r == Err::<Response, GameError>(
        GameError::OutOfBounds,
    ) && g1 == g0
    &&& !g0.game_over && in_grid(g0.width as int, g0.height as int, x, y) ==> action_effect(g0, g1, x, y, action, r)
}

impl Game {
    /// Applies `action` to the tile at column `x`, row `y`.
    pub fn perform_action(&mut self, x: usize, y: usize, action: Action) -> (r: Result<Response, GameError>)
        requires
            old(self).wf(),
        ensures
            action_result(*old(self), *final(self), x as int, y as int, action, r),
    {
        if self.game_over {
            return Err(GameError::GameAlreadyOver);
        }
        if x >= self.width || y >= self.height {
            return Err(GameError::OutOfBounds);
        }
        let ghost g0 = self.grid();
        assert(self.board@[y as int]@ == g0[y as int]);
        let t = self.board[y][x];
        match action {
            Action::Flag => {
                if t.revealed {
                    return Err(GameError::CannotModifyVisibleTile);
                }
                self.board[y][x].flagged = !t.flagged;
                proof {
                    let g1 = self.grid();
                    assert(g1 =~= toggled(g0, x as int, y as int));
                    let nt = Tile { flagged: !t.flagged, ..t };
                    lemma_same_bombs_keep_board(g0, g1, self.width as int, self.height as int, x as int, y as int, nt);
                }
                if t.flagged {
                    Ok(Response::Unflag)
                } else {
                    Ok(Response::Flag)
                }
            },
            Action::Reveal => {
                if t.flagged {
                    return Err(GameError::CannotRevealFlaggedTile);
                }
                if t.bomb {
                    self.finish_game(false);
                    return Ok(Response::GameOver);
                }
                let mut tiles: Vec<(usize, usize)> = Vec::new();
                self.reveal_tiles_recursively(&mut tiles, x, y);
                assert(tiles@.subrange(0, tiles@.len() as int) == tiles@);
                if self.all_tiles_revealed() {
                    self.finish_game(true);
                    Ok(Response::GameWon)
                } else {
                    Ok(Response::Reveal(tiles))
                }
            },
        }
    }
}

} // verus!
