use vstd::prelude::*;

use crate::tile::Tile;

verus! {

/// The grid as rows of tiles, indexed `[row][column]`.
pub open spec fn grid_of(b: Vec<Vec<Tile>>) -> Seq<Seq<Tile>> {
    b@.map_values(|r: Vec<Tile>| r@)
}

/// (x, y) is a cell of a `w` by `h` grid.
pub open spec fn in_grid(w: int, h: int, x: int, y: int) -> bool {
    0 <= x < w && 0 <= y < h
}

/// `g` has `h` rows of `w` tiles.
pub open spec fn has_shape(g: Seq<Seq<Tile>>, w: int, h: int) -> bool {
    g.len() == h && forall|y: int| 0 <= y < h ==> (#[trigger] g[y]).len() == w
}

/// Selects the tiles that hold a mine.
pub open spec fn bomb_tiles() -> spec_fn(Tile) -> bool {
    |t: Tile| t.bomb
}

/// Selects the tiles without a mine.
pub open spec fn safe_tiles() -> spec_fn(Tile) -> bool {
    |t: Tile| !t.bomb
}

/// Selects the covered tiles.
pub open spec fn covered_tiles() -> spec_fn(Tile) -> bool {
    |t: Tile| !t.revealed
}

/// How many tiles of a row satisfy `p`.
pub open spec fn row_count(r: Seq<Tile>, p: spec_fn(Tile) -> bool) -> nat
    decreases r.len(),
{
    if r.len() == 0 {
        0
    } else {
        row_count(r.drop_last(), p) + if p(r.last()) { 1nat } else { 0nat }
    }
}

/// How many tiles of a grid satisfy `p`.
pub open spec fn grid_count(g: Seq<Seq<Tile>>, p: spec_fn(Tile) -> bool) -> nat
    decreases g.len(),
{
    if g.len() == 0 {
        0
    } else {
        grid_count(g.drop_last(), p) + row_count(g.last(), p)
    }
}

/// 1 where (x, y) is a cell of the grid holding a mine, else 0.
pub open spec fn bomb_at(g: Seq<Seq<Tile>>, w: int, h: int, x: int, y: int) -> nat {
    if in_grid(w, h, x, y) && g[y][x].bomb {
        1
    } else {
        0
    }
}

/// The number of mines among the eight cells around (x, y), clipped at the edges.
pub open spec fn bombs_around(g: Seq<Seq<Tile>>, w: int, h: int, x: int, y: int) -> nat {
    bomb_at(g, w, h, x - 1, y - 1) + bomb_at(g, w, h, x, y - 1) + bomb_at(g, w, h, x + 1, y - 1)
        + bomb_at(g, w, h, x - 1, y) + bomb_at(g, w, h, x + 1, y)
        + bomb_at(g, w, h, x - 1, y + 1) + bomb_at(g, w, h, x, y + 1) + bomb_at(g, w, h, x + 1, y + 1)
}

/// Every tile's number counts the mines around it; a mine's number is 0.
pub open spec fn numbers_ok(g: Seq<Seq<Tile>>, w: int, h: int) -> bool {
    forall|x: int, y: int|
        #![trigger g[y][x]]
        in_grid(w, h, x, y) ==> g[y][x].number == if g[y][x].bomb {
            0
        } else {
            bombs_around(g, w, h, x, y)
        }
}

/// Apart from numbers, `g1` marks every cell of a `w` by `h` grid as `g0` does.
pub open spec fn same_marks(g0: Seq<Seq<Tile>>, g1: Seq<Seq<Tile>>, w: int, h: int) -> bool {
    forall|x: int, y: int|
        #![trigger g1[y][x]]
        in_grid(w, h, x, y) ==> g1[y][x].revealed == g0[y][x].revealed && g1[y][x].bomb
            == g0[y][x].bomb && g1[y][x].flagged == g0[y][x].flagged
}

/// Some entry of `cells` is (x, y).
pub open spec fn listed(cells: Seq<(usize, usize)>, x: int, y: int) -> bool {
    exists|k: int| 0 <= k < cells.len() && cells[k].0 == x && cells[k].1 == y
}

/// (nx, ny) is one of the eight cells around (x, y).
pub open spec fn adjacent(x: int, y: int, nx: int, ny: int) -> bool {
    x - 1 <= nx <= x + 1 && y - 1 <= ny <= y + 1 && !(nx == x && ny == y)
}

/// Replacing one tile changes a row's count by what the tile contributes.
pub proof fn lemma_row_count_update(r: Seq<Tile>, x: int, t: Tile, p: spec_fn(Tile) -> bool)
    requires
        0 <= x < r.len(),
    ensures
        row_count(r.update(x, t), p) + (if p(r[x]) { 1int } else { 0int })
            == row_count(r, p) + (if p(t) { 1int } else { 0int }),
    decreases r.len(),
{
    let r2 = r.update(x, t);
    if x == r.len() - 1 {
        assert(r2.drop_last() =~= r.drop_last());
    } else {
        assert(r2.drop_last() =~= r.drop_last().update(x, t));
        lemma_row_count_update(r.drop_last(), x, t, p);
    }
}

/// Replacing one tile changes a grid's count by what the tile contributes.
pub proof fn lemma_grid_count_update(
    g: Seq<Seq<Tile>>,
    x: int,
    y: int,
    t: Tile,
    p: spec_fn(Tile) -> bool,
)
    requires
        0 <= y < g.len(),
        0 <= x < g[y].len(),
    ensures
        grid_count(g.update(y, g[y].update(x, t)), p) + (if p(g[y][x]) { 1int } else { 0int })
            == grid_count(g, p) + (if p(t) { 1int } else { 0int }),
    decreases g.len(),
{
    let g2 = g.update(y, g[y].update(x, t));
    if y == g.len() - 1 {
        assert(g2.drop_last() =~= g.drop_last());
        lemma_row_count_update(g[y], x, t, p);
    } else {
        assert(g2.drop_last() =~= g.drop_last().update(y, g[y].update(x, t)));
        lemma_grid_count_update(g.drop_last(), x, y, t, p);
    }
}

/// A row where every tile satisfies `p` counts all of them.
pub proof fn lemma_row_count_all(r: Seq<Tile>, p: spec_fn(Tile) -> bool)
    requires
        forall|i: int| 0 <= i < r.len() ==> p(#[trigger] r[i]),
    ensures
        row_count(r, p) == r.len(),
    decreases r.len(),
{
    if r.len() > 0 {
        lemma_row_count_all(r.drop_last(), p);
    }
}

/// A row where no tile satisfies `p` counts none.
pub proof fn lemma_row_count_none(r: Seq<Tile>, p: spec_fn(Tile) -> bool)
    requires
        forall|i: int| 0 <= i < r.len() ==> !p(#[trigger] r[i]),
    ensures
        row_count(r, p) == 0,
    decreases r.len(),
{
    if r.len() > 0 {
        lemma_row_count_none(r.drop_last(), p);
    }
}

/// A `w`-wide grid where every tile satisfies `p` counts all its cells.
pub proof fn lemma_grid_count_all(g: Seq<Seq<Tile>>, w: int, p: spec_fn(Tile) -> bool)
    requires
        has_shape(g, w, g.len() as int),
        forall|y: int, x: int| 0 <= y < g.len() && 0 <= x < w ==> p(#[trigger] g[y][x]),
    ensures
        grid_count(g, p) == g.len() * w,
    decreases g.len(),
{
    if g.len() > 0 {
        let y = g.len() - 1;
        assert forall|i: int| 0 <= i < g[y].len() implies p(#[trigger] g[y][i]) by {}
        lemma_row_count_all(g[y], p);
        assert(has_shape(g.drop_last(), w, g.len() - 1));
        assert forall|yy: int, x: int| 0 <= yy < g.drop_last().len() && 0 <= x < w implies p(
            #[trigger] g.drop_last()[yy][x],
        ) by {
            assert(g.drop_last()[yy] == g[yy]);
        }
        lemma_grid_count_all(g.drop_last(), w, p);
        assert(grid_count(g, p) == (g.len() - 1) * w + w);
        assert((g.len() - 1) * w + w == g.len() * w) by (nonlinear_arith);
    }
}

/// A `w`-wide grid counts at most all its cells.
pub proof fn lemma_grid_count_bound(g: Seq<Seq<Tile>>, w: int, p: spec_fn(Tile) -> bool)
    requires
        has_shape(g, w, g.len() as int),
    ensures
        grid_count(g, p) <= g.len() * w,
    decreases g.len(),
{
    if g.len() > 0 {
        lemma_row_count_bound(g.last(), p);
        assert(has_shape(g.drop_last(), w, g.len() - 1));
        lemma_grid_count_bound(g.drop_last(), w, p);
        assert((g.len() - 1) * w + w == g.len() * w) by (nonlinear_arith);
    }
}

/// Two rows whose tiles agree on `p` count the same.
pub proof fn lemma_row_count_agree(r1: Seq<Tile>, r2: Seq<Tile>, p: spec_fn(Tile) -> bool)
    requires
        r1.len() == r2.len(),
        forall|i: int| 0 <= i < r1.len() ==> p(#[trigger] r1[i]) == p(r2[i]),
    ensures
        row_count(r1, p) == row_count(r2, p),
    decreases r1.len(),
{
    if r1.len() > 0 {
        lemma_row_count_agree(r1.drop_last(), r2.drop_last(), p);
    }
}

/// Two `w` by `h` grids whose tiles agree on `p` count the same.
pub proof fn lemma_grid_count_agree(g1: Seq<Seq<Tile>>, g2: Seq<Seq<Tile>>, w: int, h: int, p: spec_fn(Tile) -> bool)
    requires
        has_shape(g1, w, h),
        has_shape(g2, w, h),
        forall|x: int, y: int| #![trigger g1[y][x]] in_grid(w, h, x, y) ==> p(g1[y][x]) == p(g2[y][x]),
    ensures
        grid_count(g1, p) == grid_count(g2, p),
    decreases h,
{
    if h > 0 {
        let y = h - 1;
        assert forall|i: int| 0 <= i < g1[y].len() implies p(#[trigger] g1[y][i]) == p(g2[y][i]) by {
            assert(in_grid(w, h, i, y));
        }
        lemma_row_count_agree(g1[y], g2[y], p);
        assert forall|x: int, yy: int| #![trigger g1.drop_last()[yy][x]] in_grid(w, h - 1, x, yy) implies p(g1.drop_last()[yy][x]) == p(g2.drop_last()[yy][x]) by {
            assert(in_grid(w, h, x, yy));
            assert(g1[yy][x] == g1.drop_last()[yy][x]);
        }
        lemma_grid_count_agree(g1.drop_last(), g2.drop_last(), w, h - 1, p);
    }
}

/// A row counts at most all its tiles.
pub proof fn lemma_row_count_bound(r: Seq<Tile>, p: spec_fn(Tile) -> bool)
    ensures
        row_count(r, p) <= r.len(),
    decreases r.len(),
{
    if r.len() > 0 {
        lemma_row_count_bound(r.drop_last(), p);
    }
}

/// A grid where no tile satisfies `p` counts none.
pub proof fn lemma_grid_count_none(g: Seq<Seq<Tile>>, p: spec_fn(Tile) -> bool)
    requires
        forall|y: int, x: int| 0 <= y < g.len() && 0 <= x < g[y].len() ==> !p(#[trigger] g[y][x]),
    ensures
        grid_count(g, p) == 0,
    decreases g.len(),
{
    if g.len() > 0 {
        let y = g.len() - 1;
        assert forall|i: int| 0 <= i < g[y].len() implies !p(#[trigger] g[y][i]) by {}
        lemma_row_count_none(g[y], p);
        assert forall|yy: int, x: int|
            0 <= yy < g.drop_last().len() && 0 <= x < g.drop_last()[yy].len() implies !p(
            #[trigger] g.drop_last()[yy][x],
        ) by {
            assert(g.drop_last()[yy] == g[yy]);
        }
        lemma_grid_count_none(g.drop_last(), p);
    }
}

/// Two `w` by `h` grids with mines in the same cells count the same mines
/// around every cell.
#[verifier::spinoff_prover]
pub proof fn lemma_bombs_around_agree(g0: Seq<Seq<Tile>>, g1: Seq<Seq<Tile>>, w: int, h: int)
    requires
        has_shape(g0, w, h),
        has_shape(g1, w, h),
        forall|x: int, y: int| #![trigger g1[y][x]] in_grid(w, h, x, y) ==> g1[y][x].bomb == g0[y][x].bomb,
    ensures
        forall|x: int, y: int|
            #![trigger bombs_around(g1, w, h, x, y)]
            bombs_around(g1, w, h, x, y) == bombs_around(g0, w, h, x, y),
{
    assert forall|a: int, b: int| #[trigger] bomb_at(g1, w, h, a, b) == bomb_at(g0, w, h, a, b) by {
        if in_grid(w, h, a, b) {
            assert(g1[b][a].bomb == g0[b][a].bomb);
        }
    }
    assert forall|x: int, y: int| #![trigger bombs_around(g1, w, h, x, y)] bombs_around(g1, w, h, x, y) == bombs_around(
        g0,
        w,
        h,
        x,
        y,
    ) by {}
}

} // verus!
