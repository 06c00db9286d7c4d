use vstd::prelude::*;

use rand::Rng;

use crate::grid::{
    bomb_at, bomb_tiles, bombs_around, grid_count, grid_of, has_shape, in_grid, lemma_grid_count_update, listed,
    numbers_ok, row_count, safe_tiles, same_marks, lemma_bombs_around_agree,
};
use crate::game::flags_hidden;
use crate::tile::Tile;

verus! {

/// Relies on rand's `rng().random_range(0..n)`: a value drawn from `0..n`,
/// which panics only on an empty range.
#[verifier::external_body]
fn random_below(n: usize) -> (r: usize)
    requires
        n > 0,
    ensures
        r < n,
{
    rand::rng().random_range(0..n)
}

/// A `width` by `height` grid of covered, unflagged tiles without mines.
pub(crate) fn blank_grid(width: usize, height: usize) -> (b: Vec<Vec<Tile>>)
    ensures
        has_shape(grid_of(b), width as int, height as int),
        forall|x: int, y: int|
            #![trigger grid_of(b)[y][x]]
            in_grid(width as int, height as int, x, y) ==> grid_of(b)[y][x] == Tile::hidden_spec(),
{
    let mut b: Vec<Vec<Tile>> = Vec::new();
    let mut y: usize = 0;
    while y < height
        invariant
            y <= height,
            has_shape(grid_of(b), width as int, y as int),
            forall|x: int, yy: int|
                #![trigger grid_of(b)[yy][x]]
                in_grid(width as int, y as int, x, yy) ==> grid_of(b)[yy][x] == Tile::hidden_spec(),
        decreases height - y,
    {
        let mut row: Vec<Tile> = Vec::new();
        let mut x: usize = 0;
        while x < width
            invariant
                x <= width,
                row@.len() == x,
                forall|i: int| 0 <= i < x ==> #[trigger] row@[i] == Tile::hidden_spec(),
            decreases width - x,
        {
            row.push(Tile::hidden());
            x += 1;
        }
        let ghost before = grid_of(b);
        b.push(row);
        assert(grid_of(b) =~= before.push(row@));
        y += 1;
    }
    b
}

/// The cell holding the `r`-th tile without a mine, in row-major order.
fn nth_safe_cell(b: &Vec<Vec<Tile>>, width: usize, height: usize, r: usize) -> (c: (usize, usize))
    requires
        has_shape(grid_of(*b), width as int, height as int),
        r < grid_count(grid_of(*b), safe_tiles()),
    ensures
        in_grid(width as int, height as int, c.0 as int, c.1 as int),
        !grid_of(*b)[c.1 as int][c.0 as int].bomb,
{
    let ghost g = grid_of(*b);
    let mut seen: usize = 0;
    let mut y: usize = 0;
    while y < height
        invariant
            y <= height,
            g == grid_of(*b),
            has_shape(g, width as int, height as int),
            seen == grid_count(g.take(y as int), safe_tiles()),
            seen <= r,
        decreases height - y,
    {
        let mut x: usize = 0;
        while x < width
            invariant
                x <= width,
                y < height,
                g == grid_of(*b),
                has_shape(g, width as int, height as int),
                seen == grid_count(g.take(y as int), safe_tiles()) + row_count(
                    g[y as int].take(x as int),
                    safe_tiles(),
                ),
                seen <= r,
            decreases width - x,
        {
            assert(g[y as int].take(x + 1).drop_last() =~= g[y as int].take(x as int));
            assert((*b)@[y as int]@ == g[y as int]);
            if !b[y][x].bomb {
                if seen == r {
                    return (x, y);
                }
                seen = seen + 1;
            }
            x += 1;
        }
        assert(g[y as int].take(width as int) =~= g[y as int]);
        assert(g.take(y + 1).drop_last() =~= g.take(y as int));
        y += 1;
    }
    assert(g.take(height as int) =~= g);
    (0, 0)
}

/// Marks `bombs` distinct cells, each drawn uniformly among the cells still free.
pub(crate) fn place_random_bombs(b: &mut Vec<Vec<Tile>>, width: usize, height: usize, bombs: usize)
    requires
        has_shape(grid_of(*old(b)), width as int, height as int),
        grid_count(grid_of(*old(b)), bomb_tiles()) == 0,
        grid_count(grid_of(*old(b)), safe_tiles()) == width * height,
        bombs < width * height,
        width * height <= usize::MAX,
    ensures
        has_shape(grid_of(*final(b)), width as int, height as int),
        grid_count(grid_of(*final(b)), bomb_tiles()) == bombs,
        forall|x: int, y: int|
            #![trigger grid_of(*final(b))[y][x]]
            in_grid(width as int, height as int, x, y) ==> {
                let t = grid_of(*final(b))[y][x];
                let t0 = grid_of(*old(b))[y][x];
                t.revealed == t0.revealed && t.flagged == t0.flagged && t.number == t0.number
            },
{
    let ghost g0 = grid_of(*b);
    let mut i: usize = 0;
    while i < bombs
        invariant
            i <= bombs,
            bombs < width * height,
            width * height <= usize::MAX,
            has_shape(g0, width as int, height as int),
            has_shape(grid_of(*b), width as int, height as int),
            grid_count(grid_of(*b), bomb_tiles()) == i,
            grid_count(grid_of(*b), safe_tiles()) == width * height - i,
            forall|x: int, y: int|
                #![trigger grid_of(*b)[y][x]]
                in_grid(width as int, height as int, x, y) ==> {
                    let t = grid_of(*b)[y][x];
                    let t0 = g0[y][x];
                    t.revealed == t0.revealed && t.flagged == t0.flagged && t.number == t0.number
                },
        decreases bombs - i,
    {
        let ghost g = grid_of(*b);
        let free = width * height - i;
        let r = random_below(free);
        let (x, y) = nth_safe_cell(b, width, height, r);
        let ghost t = g[y as int][x as int];
        let ghost nt = Tile { bomb: true, ..t };
        b[y][x].bomb = true;
        proof {
            assert(grid_of(*b) =~= g.update(y as int, g[y as int].update(x as int, nt)));
            lemma_grid_count_update(g, x as int, y as int, nt, bomb_tiles());
            lemma_grid_count_update(g, x as int, y as int, nt, safe_tiles());
        }
        i += 1;
    }
}

} // verus!

verus! {

/// 1 where the cell at offset (dx - 1, dy - 1) from (x, y) holds a mine, else 0.
fn bomb_near(b: &Vec<Vec<Tile>>, width: usize, height: usize, x: usize, y: usize, dx: usize, dy: usize) -> (r: u8)
    requires
        has_shape(grid_of(*b), width as int, height as int),
        x < width,
        y < height,
        dx <= 2,
        dy <= 2,
    ensures
        r == bomb_at(grid_of(*b), width as int, height as int, x + dx - 1, y + dy - 1),
{
    if (dx == 0 && x == 0) || (dy == 0 && y == 0) {
        return 0;
    }
    let nx = if dx == 0 { x - 1 } else { x + (dx - 1) };
    let ny = if dy == 0 { y - 1 } else { y + (dy - 1) };
    if nx < width && ny < height {
        assert(b@[ny as int]@ == grid_of(*b)[ny as int]);
        if b[ny][nx].bomb {
            1
        } else {
            0
        }
    } else {
        0
    }
}

/// Writes into every tile the number of mines around it, and 0 into each mine.
pub(crate) fn fill_numbers(b: &mut Vec<Vec<Tile>>, width: usize, height: usize)
    requires
        has_shape(grid_of(*old(b)), width as int, height as int),
    ensures
        has_shape(grid_of(*final(b)), width as int, height as int),
        same_marks(grid_of(*old(b)), grid_of(*final(b)), width as int, height as int),
        numbers_ok(grid_of(*final(b)), width as int, height as int),
{
    let ghost g0 = grid_of(*b);
    let ghost w = width as int;
    let ghost h = height as int;
    let mut y: usize = 0;
    while y < height
        invariant
            y <= height,
            w == width,
            h == height,
            has_shape(g0, w, h),
            has_shape(grid_of(*b), w, h),
            same_marks(g0, grid_of(*b), w, h),
            forall|xx: int, yy: int|
                #![trigger grid_of(*b)[yy][xx]]
                in_grid(w, y as int, xx, yy) ==> grid_of(*b)[yy][xx].number == if g0[yy][xx].bomb {
                    0
                } else {
                    bombs_around(g0, w, h, xx, yy)
                },
        decreases height - y,
    {
        let mut x: usize = 0;
        while x < width
            invariant
                x <= width,
                y < height,
                w == width,
                h == height,
                has_shape(g0, w, h),
                has_shape(grid_of(*b), w, h),
                same_marks(g0, grid_of(*b), w, h),
                forall|xx: int, yy: int|
                    #![trigger grid_of(*b)[yy][xx]]
                    (in_grid(w, y as int, xx, yy) || (yy == y && 0 <= xx < x)) ==> grid_of(
                        *b,
                    )[yy][xx].number == if g0[yy][xx].bomb {
                        0
                    } else {
                        bombs_around(g0, w, h, xx, yy)
                    },
            decreases width - x,
        {
            let ghost g = grid_of(*b);
            assert((*b)@[y as int]@ == g[y as int]);
            let n: u8 = if b[y][x].bomb {
                0
            } else {
                let a = bomb_near(b, width, height, x, y, 0, 0);
                let c = bomb_near(b, width, height, x, y, 1, 0);
                let d = bomb_near(b, width, height, x, y, 2, 0);
                let e = bomb_near(b, width, height, x, y, 0, 1);
                let f = bomb_near(b, width, height, x, y, 2, 1);
                let i = bomb_near(b, width, height, x, y, 0, 2);
                let j = bomb_near(b, width, height, x, y, 1, 2);
                let k = bomb_near(b, width, height, x, y, 2, 2);
                assert(bombs_around(g, w, h, x as int, y as int) == bombs_around(g0, w, h, x as int, y as int));
                a + c + d + e + f + i + j + k
            };
            b[y][x].number = n;
            proof {
                let nt = Tile { number: n, ..g[y as int][x as int] };
                assert(grid_of(*b) =~= g.update(y as int, g[y as int].update(x as int, nt)));
            }
            x += 1;
        }
        y += 1;
    }
    proof {
        let g1 = grid_of(*b);
        lemma_bombs_around_agree(g0, g1, w, h);
        assert forall|xx: int, yy: int| #![trigger g1[yy][xx]] in_grid(w, h, xx, yy) implies g1[yy][xx].number == if g1[yy][xx].bomb {
            0
        } else {
            bombs_around(g1, w, h, xx, yy)
        } by {
            assert(g0[yy][xx] == g0[yy][xx]);
        }
    }
}

/// Adds a mine to each listed cell.
pub(crate) fn place_given_bombs(b: &mut Vec<Vec<Tile>>, width: usize, height: usize, cells: &Vec<(usize, usize)>)
    requires
        has_shape(grid_of(*old(b)), width as int, height as int),
        forall|k: int| 0 <= k < cells@.len() ==> #[trigger] cells@[k].0 < width && cells@[k].1 < height,
    ensures
        has_shape(grid_of(*final(b)), width as int, height as int),
        forall|x: int, y: int|
            #![trigger grid_of(*final(b))[y][x]]
            in_grid(width as int, height as int, x, y) ==> {
                let t = grid_of(*final(b))[y][x];
                let t0 = grid_of(*old(b))[y][x];
                t.revealed == t0.revealed && t.flagged == t0.flagged && t.number == t0.number
                    && t.bomb == (t0.bomb || listed(cells@, x, y))
            },
{
    let ghost g0 = grid_of(*b);
    let mut i: usize = 0;
    while i < cells.len()
        invariant
            i <= cells@.len(),
            forall|k: int| 0 <= k < cells@.len() ==> #[trigger] cells@[k].0 < width && cells@[k].1 < height,
            has_shape(g0, width as int, height as int),
            has_shape(grid_of(*b), width as int, height as int),
            forall|x: int, y: int|
                #![trigger grid_of(*b)[y][x]]
                in_grid(width as int, height as int, x, y) ==> {
                    let t = grid_of(*b)[y][x];
                    let t0 = g0[y][x];
                    t.revealed == t0.revealed && t.flagged == t0.flagged && t.number == t0.number
                        && t.bomb == (t0.bomb || listed(cells@.take(i as int), x, y))
                },
        decreases cells@.len() - i,
    {
        let ghost g = grid_of(*b);
        let (x, y) = cells[i];
        let ghost nt = Tile { bomb: true, ..g[y as int][x as int] };
        b[y][x].bomb = true;
        proof {
            assert(grid_of(*b) =~= g.update(y as int, g[y as int].update(x as int, nt)));
            let s0 = cells@.take(i as int);
            let s1 = cells@.take(i + 1);
            assert forall|xx: int, yy: int| listed(s1, xx, yy) <==> (listed(s0, xx, yy) || (xx == x && yy == y)) by {
                if listed(s1, xx, yy) {
                    let k = choose|k: int| 0 <= k < s1.len() && s1[k].0 == xx && s1[k].1 == yy;
                    if k < i {
                        assert(s0[k] == s1[k]);
                    }
                }
                if listed(s0, xx, yy) {
                    let k = choose|k: int| 0 <= k < s0.len() && s0[k].0 == xx && s0[k].1 == yy;
                    assert(s0[k] == s1[k]);
                }
                if xx == x && yy == y {
                    assert(s1[i as int] == (x, y));
                }
            }
        }
        i += 1;
    }
    assert(cells@.take(cells@.len() as int) =~= cells@);
}

/// The number of mines on the grid.
pub(crate) fn count_bombs(b: &Vec<Vec<Tile>>, width: usize, height: usize) -> (r: usize)
    requires
        has_shape(grid_of(*b), width as int, height as int),
        width * height <= usize::MAX,
    ensures
        r == grid_count(grid_of(*b), bomb_tiles()),
{
    let ghost g = grid_of(*b);
    let mut n: usize = 0;
    let mut y: usize = 0;
    while y < height
        invariant
            y <= height,
            g == grid_of(*b),
            has_shape(g, width as int, height as int),
            width * height <= usize::MAX,
            n == grid_count(g.take(y as int), bomb_tiles()),
            n <= y * width,
        decreases height - y,
    {
        let mut x: usize = 0;
        while x < width
            invariant
                x <= width,
                y < height,
                g == grid_of(*b),
                has_shape(g, width as int, height as int),
                width * height <= usize::MAX,
                n == grid_count(g.take(y as int), bomb_tiles()) + row_count(
                    g[y as int].take(x as int),
                    bomb_tiles(),
                ),
                n <= y * width + x,
            decreases width - x,
        {
            assert(g[y as int].take(x + 1).drop_last() =~= g[y as int].take(x as int));
            assert((*b)@[y as int]@ == g[y as int]);
            assert(y * width + x < width * height) by (nonlinear_arith)
                requires y < height, x < width;
            if b[y][x].bomb {
                n = n + 1;
            }
            x += 1;
        }
        assert(g[y as int].take(width as int) =~= g[y as int]);
        assert(g.take(y + 1).drop_last() =~= g.take(y as int));
        assert(y * width + width == (y + 1) * width) by (nonlinear_arith);
        y += 1;
    }
    assert(g.take(height as int) =~= g);
    n
}

/// Changing one tile's flags keeps the mine count, the numbers, and the rule
/// that no flagged tile is revealed, as long as that tile ends up not both.
#[verifier::spinoff_prover]
pub proof fn lemma_same_bombs_keep_board(g0: Seq<Seq<Tile>>, g1: Seq<Seq<Tile>>, w: int, h: int, x: int, y: int, nt: Tile)
    requires
        has_shape(g0, w, h),
        in_grid(w, h, x, y),
        g1 == g0.update(y, g0[y].update(x, nt)),
        nt.bomb == g0[y][x].bomb,
        nt.number == g0[y][x].number,
        !(nt.revealed && nt.flagged),
        numbers_ok(g0, w, h),
        flags_hidden(g0, w, h),
    ensures
        has_shape(g1, w, h),
        numbers_ok(g1, w, h),
        flags_hidden(g1, w, h),
        grid_count(g1, bomb_tiles()) == grid_count(g0, bomb_tiles()),
{
    assert forall|px: int, py: int| #![trigger g1[py][px]] in_grid(w, h, px, py) implies g1[py][px].bomb == g0[py][px].bomb
        && g1[py][px].number == g0[py][px].number && !(g1[py][px].revealed && g1[py][px].flagged) by {
        if py == y {
            assert(g1[py] == g0[py].update(x, nt));
        }
    }
    lemma_bombs_around_agree(g0, g1, w, h);
    assert forall|px: int, py: int| #![trigger g1[py][px]] in_grid(w, h, px, py) implies g1[py][px].number == if g1[py][px].bomb {
        0
    } else {
        bombs_around(g1, w, h, px, py)
    } by {
        assert(g0[py][px] == g0[py][px]);
    }
    lemma_grid_count_update(g0, x, y, nt, bomb_tiles());
}

} // verus!
