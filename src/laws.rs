use vstd::prelude::*;

use crate::game::{all_safe_revealed, Game};
use crate::grid::{
    bomb_tiles, grid_count, has_shape, in_grid, lemma_grid_count_bound, lemma_grid_count_update,
};
use crate::play::{action_result, toggled};
use crate::tile::{Action, GameError, Response, Tile};

verus! {

/// Flagging a covered, unflagged tile twice answers `Flag`, then `Unflag`,
/// and gives back the grid it started from.
pub proof fn lemma_flag_twice(
    g0: Game,
    g1: Game,
    g2: Game,
    x: int,
    y: int,
    r1: Result<Response, GameError>,
    r2: Result<Response, GameError>,
)
    requires
        g0.wf(),
        !g0.game_over,
        in_grid(g0.width as int, g0.height as int, x, y),
        !g0.at(x, y).revealed,
        !g0.at(x, y).flagged,
        action_result(g0, g1, x, y, Action::Flag, r1),
        action_result(g1, g2, x, y, Action::Flag, r2),
    ensures
        r1 == Ok::<Response, GameError>(Response::Flag),
        g1.at(x, y).flagged,
        r2 == Ok::<Response, GameError>(Response::Unflag),
        g2.grid() == g0.grid(),
        !g2.at(x, y).flagged,
        g2.at(x, y).revealed == g0.at(x, y).revealed,
{
    let g = g0.grid();
    assert(g1.grid() == toggled(g, x, y));
    assert(g1.grid()[y][x] == Tile { flagged: true, ..g[y][x] });
    assert(g2.grid() =~= toggled(toggled(g, x, y), x, y));
    assert(toggled(toggled(g, x, y), x, y)[y] =~= g[y]);
    assert(toggled(toggled(g, x, y), x, y) =~= g);
}

/// Once an action has ended the match, every later action is refused with
/// `GameAlreadyOver` and changes nothing.
pub proof fn lemma_finished_game_is_frozen(
    g0: Game,
    g1: Game,
    g2: Game,
    x1: int,
    y1: int,
    a1: Action,
    r1: Result<Response, GameError>,
    x2: int,
    y2: int,
    a2: Action,
    r2: Result<Response, GameError>,
)
    requires
        g0.wf(),
        action_result(g0, g1, x1, y1, a1, r1),
        r1 == Ok::<Response, GameError>(Response::GameOver) || r1 == Ok::<Response, GameError>(Response::GameWon),
        action_result(g1, g2, x2, y2, a2, r2),
    ensures
        g1.game_over,
        r2 == Err::<Response, GameError>(GameError::GameAlreadyOver),
        g2 == g1,
{
}

/// On a grid where every cell but one holds a mine, the mine-free cell is
/// the only cell without a mine.
proof fn lemma_single_safe_cell(g: Seq<Seq<Tile>>, w: int, h: int, x: int, y: int, a: int, b: int)
    requires
        has_shape(g, w, h),
        grid_count(g, bomb_tiles()) == w * h - 1,
        in_grid(w, h, x, y),
        !g[y][x].bomb,
        in_grid(w, h, a, b),
        !(a == x && b == y),
    ensures
        g[b][a].bomb,
{
    if !g[b][a].bomb {
        let t1 = Tile { bomb: true, ..g[y][x] };
        let g1 = g.update(y, g[y].update(x, t1));
        lemma_grid_count_update(g, x, y, t1, bomb_tiles());
        assert(g1[b][a] == g[b][a]) by {
            if b == y {
                assert(g1[b] == g[b].update(x, t1));
            }
        }
        let t2 = Tile { bomb: true, ..g[b][a] };
        let g2 = g1.update(b, g1[b].update(a, t2));
        assert(has_shape(g1, w, h));
        lemma_grid_count_update(g1, a, b, t2, bomb_tiles());
        assert(has_shape(g2, w, h));
        lemma_grid_count_bound(g2, w, bomb_tiles());
        assert(h * w == w * h) by (nonlinear_arith);
        assert(bomb_tiles()(t1) && bomb_tiles()(t2) && !bomb_tiles()(g[y][x]) && !bomb_tiles()(g1[b][a]));
    }
}

/// With mines on every cell but one, revealing that cell wins the match.
pub proof fn lemma_last_safe_cell_wins(g0: Game, g1: Game, x: int, y: int, r: Result<Response, GameError>)
    requires
        g0.wf(),
        !g0.game_over,
        g0.bombs == g0.width * g0.height - 1,
        in_grid(g0.width as int, g0.height as int, x, y),
        !g0.at(x, y).bomb,
        !g0.at(x, y).flagged,
        action_result(g0, g1, x, y, Action::Reveal, r),
    ensures
        r == Ok::<Response, GameError>(Response::GameWon),
        g1.game_over && g1.game_won,
{
    let w = g0.width as int;
    let h = g0.height as int;
    let ga = g0.grid();
    let gb = g1.grid();
    assert forall|a: int, b: int| #![trigger gb[b][a]] in_grid(w, h, a, b) && !gb[b][a].bomb implies gb[b][a].revealed by {
        if !(a == x && b == y) {
            lemma_single_safe_cell(ga, w, h, x, y, a, b);
        }
    }
    assert(all_safe_revealed(gb, w, h));
}

} // verus!
