use vstd::prelude::*;

use crate::board::{blank_grid, count_bombs, fill_numbers, place_given_bombs, place_random_bombs};
use crate::coords::{top_left_of, Point};
use crate::grid::{
    bomb_tiles, grid_count, grid_of, has_shape, in_grid, lemma_grid_count_agree, lemma_grid_count_all,
    lemma_grid_count_bound, lemma_grid_count_none, listed,
    numbers_ok, safe_tiles,
};
use crate::tile::{GameError, Tile};

verus! {

/// One match: the grid, its terminal flags and its placement in rendering space.
pub struct Game {
    /// Rows of tiles, indexed `[row][column]`.
    pub board: Vec<Vec<Tile>>,
    pub game_over: bool,
    pub game_won: bool,
    /// Rendering-space centre of cell (0, 0).
    pub top_left: Point,
    pub width: usize,
    pub height: usize,
    pub bombs: usize,
}

/// Dimensions and mine count that a game can be built from: a non-empty grid
/// whose size fits in memory, with at least one cell free of mines.
pub open spec fn valid_config(width: int, height: int, bombs: int) -> bool {
    width > 0 && height > 0 && width * height <= usize::MAX && bombs < width * height
}

/// Every tile of the grid is covered and unflagged.
pub open spec fn all_covered(g: Seq<Seq<Tile>>, w: int, h: int) -> bool {
    forall|x: int, y: int|
        #![trigger g[y][x]]
        in_grid(w, h, x, y) ==> !g[y][x].revealed && !g[y][x].flagged
}

/// Every tile without a mine is revealed.
pub open spec fn all_safe_revealed(g: Seq<Seq<Tile>>, w: int, h: int) -> bool {
    forall|x: int, y: int| #![trigger g[y][x]] in_grid(w, h, x, y) && !g[y][x].bomb ==> g[y][x].revealed
}

/// No tile is both flagged and revealed.
pub open spec fn flags_hidden(g: Seq<Seq<Tile>>, w: int, h: int) -> bool {
    forall|x: int, y: int| #![trigger g[y][x]] in_grid(w, h, x, y) ==> !(g[y][x].revealed && g[y][x].flagged)
}

/// A freshly generated grid: the right shape, `bombs` mines, correct numbers,
/// nothing revealed or flagged.
pub open spec fn fresh_board(g: Seq<Seq<Tile>>, w: int, h: int, bombs: int) -> bool {
    &&& has_shape(g, w, h)
    &&& grid_count(g, bomb_tiles()) == bombs
    &&& numbers_ok(g, w, h)
    &&& all_covered(g, w, h)
}

impl Game {
    /// The grid as rows of tiles.
    pub open spec fn grid(&self) -> Seq<Seq<Tile>> {
        grid_of(self.board)
    }

    /// The tile at column `x`, row `y`.
    pub open spec fn at(&self, x: int, y: int) -> Tile {
        self.grid()[y][x]
    }

    pub open spec fn wf(&self) -> bool {
        &&& valid_config(self.width as int, self.height as int, self.bombs as int)
        &&& has_shape(self.grid(), self.width as int, self.height as int)
        &&& grid_count(self.grid(), bomb_tiles()) == self.bombs
        &&& numbers_ok(self.grid(), self.width as int, self.height as int)
        &&& flags_hidden(self.grid(), self.width as int, self.height as int)
        &&& self.top_left == top_left_of(self.width as int, self.height as int)
        &&& self.game_won ==> self.game_over
    }

    /// A new match on a `width` by `height` grid with `bombs` mines placed at random.
    pub fn new(width: usize, height: usize, bombs: usize) -> (r: Result<Game, GameError>)
        ensures
            match r {
                Ok(g) => {
                    &&& valid_config(width as int, height as int, bombs as int)
                    &&& g.wf()
                    &&& g.width == width && g.height == height && g.bombs == bombs
                    &&& fresh_board(g.grid(), width as int, height as int, bombs as int)
                    &&& !g.game_over && !g.game_won
                },
                Err(e) => !valid_config(width as int, height as int, bombs as int) && e
                    == GameError::InvalidConfiguration,
            },
    {
        if !Self::check_config(width, height, bombs) {
            return Err(GameError::InvalidConfiguration);
        }
        let board = Self::initialize_board(width, height, bombs);
        Ok(Self::assemble(board, width, height, bombs))
    }

    /// A new match on a `width` by `height` grid with mines on exactly the
    /// listed (column, row) cells; a cell may be listed more than once.
    /// Refused when the dimensions are empty or too large, a cell lies outside
    /// the grid, or no cell is left free of mines.
    pub fn with_bombs(width: usize, height: usize, cells: &Vec<(usize, usize)>) -> (r: Result<Game, GameError>)
        ensures
            match r {
                Ok(g) => {
                    &&& g.wf()
                    &&& g.width == width && g.height == height
                    &&& fresh_board(g.grid(), width as int, height as int, g.bombs as int)
                    &&& forall|x: int, y: int|
                        #![trigger g.grid()[y][x]]
                        in_grid(width as int, height as int, x, y) ==> (g.grid()[y][x].bomb <==> listed(
                            cells@,
                            x,
                            y,
                        ))
                    &&& !g.game_over && !g.game_won
                },
                Err(e) => e == GameError::InvalidConfiguration && !(width > 0 && height > 0 && width
                    * height <= usize::MAX && (forall|k: int|
                    0 <= k < cells@.len() ==> #[trigger] cells@[k].0 < width && cells@[k].1 < height)
                    && exists|x: int, y: int| in_grid(width as int, height as int, x, y) && !listed(cells@, x, y)),
            },
    {
        if !Self::check_config(width, height, 0) {
            assert(width > 0 && height > 0 ==> width * height > 0) by (nonlinear_arith);
            return Err(GameError::InvalidConfiguration);
        }
        let mut i: usize = 0;
        while i < cells.len()
            invariant
                i <= cells@.len(),
                forall|k: int| 0 <= k < i ==> #[trigger] cells@[k].0 < width && cells@[k].1 < height,
            decreases cells@.len() - i,
        {
            if cells[i].0 >= width || cells[i].1 >= height {
                return Err(GameError::InvalidConfiguration);
            }
            i += 1;
        }
        let mut board = blank_grid(width, height);
        place_given_bombs(&mut board, width, height, cells);
        let bombs = count_bombs(&board, width, height);
        proof {
            lemma_grid_count_bound(grid_of(board), width as int, bomb_tiles());
            assert(height * width == width * height) by (nonlinear_arith);
        }
        if bombs == width * height {
            proof {
                let g = grid_of(board);
                assert forall|x: int, y: int| in_grid(width as int, height as int, x, y) implies listed(cells@, x, y) by {
                    assert(g[y][x] == g[y][x]);
                    if !listed(cells@, x, y) {
                        lemma_one_safe(g, width as int, height as int, x, y);
                    }
                }
            }
            return Err(GameError::InvalidConfiguration);
        }
        let ghost g1 = grid_of(board);
        fill_numbers(&mut board, width, height);
        proof {
            let g = grid_of(board);
            lemma_grid_count_agree(g1, g, width as int, height as int, bomb_tiles());
            assert forall|x: int, y: int| #![trigger g[y][x]] in_grid(width as int, height as int, x, y) implies !g[y][x].revealed && !g[y][x].flagged by {}
        }
        Ok(Self::assemble(board, width, height, bombs))
    }

    /// Whether a game can be built with these dimensions and mine count.
    fn check_config(width: usize, height: usize, bombs: usize) -> (r: bool)
        ensures
            r == valid_config(width as int, height as int, bombs as int),
    {
        if width == 0 || height == 0 {
            return false;
        }
        match width.checked_mul(height) {
            Some(n) => bombs < n,
            None => false,
        }
    }

    /// A playing match around a fresh board.
    fn assemble(board: Vec<Vec<Tile>>, width: usize, height: usize, bombs: usize) -> (g: Game)
        requires
            valid_config(width as int, height as int, bombs as int),
            fresh_board(grid_of(board), width as int, height as int, bombs as int),
        ensures
            g.wf(),
            g.board == board,
            g.width == width && g.height == height && g.bombs == bombs,
            !g.game_over && !g.game_won,
    {
        let top_left = Point { x: -(17 * width as i128), y: 17 * height as i128 };
        Game { board, game_over: false, game_won: false, top_left, width, height, bombs }
    }

    /// A fresh grid with `bombs` mines at random cells and every number filled in.
    pub fn initialize_board(width: usize, height: usize, bombs: usize) -> (b: Vec<Vec<Tile>>)
        requires
            valid_config(width as int, height as int, bombs as int),
        ensures
            fresh_board(grid_of(b), width as int, height as int, bombs as int),
    {
        let mut b = blank_grid(width, height);
        proof {
            let g = grid_of(b);
            lemma_grid_count_none(g, bomb_tiles());
            assert forall|y: int, x: int| 0 <= y < g.len() && 0 <= x < width implies #[trigger] safe_tiles()(g[y][x]) by {
                assert(g[y][x] == Tile::hidden_spec());
            }
            lemma_grid_count_all(g, width as int, safe_tiles());
            assert(height * width == width * height) by (nonlinear_arith);
        }
        let ghost g0 = grid_of(b);
        place_random_bombs(&mut b, width, height, bombs);
        let ghost g1 = grid_of(b);
        fill_numbers(&mut b, width, height);
        proof {
            let g = grid_of(b);
            lemma_grid_count_agree(g1, g, width as int, height as int, bomb_tiles());
            assert forall|x: int, y: int| #![trigger g[y][x]] in_grid(width as int, height as int, x, y) implies !g[y][x].revealed && !g[y][x].flagged by {
                assert(g0[y][x] == Tile::hidden_spec());
                assert(g1[y][x] == g1[y][x]);
            }
        }
        b
    }

    /// Starts a new match of the same dimensions and mine count.
    pub fn reset(&mut self)
        requires
            old(self).wf(),
        ensures
            final(self).wf(),
            final(self).width == old(self).width && final(self).height == old(self).height,
            final(self).bombs == old(self).bombs && final(self).top_left == old(self).top_left,
            fresh_board(final(self).grid(), final(self).width as int, final(self).height as int, final(self).bombs as int),
            !final(self).game_over && !final(self).game_won,
    {
        self.board = Self::initialize_board(self.width, self.height, self.bombs);
        self.game_over = false;
        self.game_won = false;
    }

    /// The tile at column `x`, row `y`.
    pub fn tile(&self, x: usize, y: usize) -> (t: Tile)
        requires
            self.wf(),
            x < self.width,
            y < self.height,
        ensures
            t == self.at(x as int, y as int),
    {
        assert(self.board@[y as int]@ == self.grid()[y as int]);
        self.board[y][x]
    }

    /// The number of the tile at column `x`, row `y`; 0 outside the grid.
    pub fn tile_number(&self, x: usize, y: usize) -> (n: u8)
        requires
            self.wf(),
        ensures
            n == if in_grid(self.width as int, self.height as int, x as int, y as int) {
                self.at(x as int, y as int).number
            } else {
                0
            },
    {
        if x < self.width && y < self.height {
            assert(self.board@[y as int]@ == self.grid()[y as int]);
            self.board[y][x].number
        } else {
            0
        }
    }

    /// Ends the match, won or lost.
    pub fn finish_game(&mut self, won: bool)
        ensures
            final(self).game_over,
            final(self).game_won == won,
            final(self).board == old(self).board,
            final(self).top_left == old(self).top_left,
            final(self).width == old(self).width && final(self).height == old(self).height,
            final(self).bombs == old(self).bombs,
    {
        self.game_over = true;
        self.game_won = won;
    }

    /// Whether every tile without a mine is revealed.
    pub fn all_tiles_revealed(&self) -> (r: bool)
        requires
            self.wf(),
        ensures
            r == all_safe_revealed(self.grid(), self.width as int, self.height as int),
    {
        let ghost g = self.grid();
        let mut y: usize = 0;
        while y < self.height
            invariant
                y <= self.height,
                self.wf(),
                g == self.grid(),
                forall|xx: int, yy: int|
                    #![trigger g[yy][xx]]
                    in_grid(self.width as int, y as int, xx, yy) && !g[yy][xx].bomb ==> g[yy][xx].revealed,
            decreases self.height - y,
        {
            let mut x: usize = 0;
            while x < self.width
                invariant
                    x <= self.width,
                    y < self.height,
                    self.wf(),
                    g == self.grid(),
                    forall|xx: int, yy: int|
                        #![trigger g[yy][xx]]
                        (in_grid(self.width as int, y as int, xx, yy) || (yy == y && 0 <= xx < x))
                            && !g[yy][xx].bomb ==> g[yy][xx].revealed,
                decreases self.width - x,
            {
                assert(self.board@[y as int]@ == g[y as int]);
                let t = self.board[y][x];
                if !t.revealed && !t.bomb {
                    return false;
                }
                x += 1;
            }
            y += 1;
        }
        true
    }
}

/// A grid with a cell free of mines counts fewer mines than cells.
proof fn lemma_one_safe(g: Seq<Seq<Tile>>, w: int, h: int, x: int, y: int)
    requires
        has_shape(g, w, h),
        in_grid(w, h, x, y),
        !g[y][x].bomb,
    ensures
        grid_count(g, bomb_tiles()) < w * h,
{
    let t = Tile { bomb: true, ..g[y][x] };
    let g2 = g.update(y, g[y].update(x, t));
    crate::grid::lemma_grid_count_update(g, x, y, t, bomb_tiles());
    crate::grid::lemma_grid_count_bound(g2, w, bomb_tiles());
}

} // verus!
