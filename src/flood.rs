use vstd::prelude::*;

use crate::game::{flags_hidden, Game};
use crate::grid::{
    adjacent, bomb_tiles, bombs_around, covered_tiles, grid_count, grid_of, has_shape, in_grid,
    lemma_bombs_around_agree, lemma_grid_count_agree, lemma_grid_count_update, listed, numbers_ok,
};
use crate::tile::Tile;

verus! {

/// (x, y) was covered in `g0` and is revealed in `g1`.
pub open spec fn newly(g0: Seq<Seq<Tile>>, g1: Seq<Seq<Tile>>, x: int, y: int) -> bool {
    !g0[y][x].revealed && g1[y][x].revealed
}

/// (x, y) was uncovered between `g0` and `g1` and has no mine around it, so
/// the reveal spreads from it to its neighbours.
pub open spec fn opens(g0: Seq<Seq<Tile>>, g1: Seq<Seq<Tile>>, w: int, h: int, x: int, y: int) -> bool {
    in_grid(w, h, x, y) && newly(g0, g1, x, y) && g1[y][x].number == 0 && !g1[y][x].bomb
}

/// Between `g0` and `g1` only `revealed` flags were set.
pub open spec fn only_reveals(g0: Seq<Seq<Tile>>, g1: Seq<Seq<Tile>>, w: int, h: int) -> bool {
    &&& has_shape(g1, w, h)
    &&& forall|x: int, y: int|
        #![trigger g1[y][x]]
        in_grid(w, h, x, y) ==> g1[y][x].bomb == g0[y][x].bomb && g1[y][x].flagged == g0[y][x].flagged
            && g1[y][x].number == g0[y][x].number && (g0[y][x].revealed ==> g1[y][x].revealed)
}

/// No tile uncovered between `g0` and `g1` holds a mine or a flag.
pub open spec fn newly_clean(g0: Seq<Seq<Tile>>, g1: Seq<Seq<Tile>>, w: int, h: int) -> bool {
    forall|cx: int, cy: int|
        #![trigger g1[cy][cx]]
        in_grid(w, h, cx, cy) && newly(g0, g1, cx, cy) ==> !g1[cy][cx].bomb && !g1[cy][cx].flagged
}

/// From every uncovered tile with no mine around it, each neighbour is
/// revealed, flagged, or still `pending`.
pub open spec fn spread_from_zeros(
    g0: Seq<Seq<Tile>>,
    g1: Seq<Seq<Tile>>,
    w: int,
    h: int,
    pending: Seq<(usize, usize)>,
) -> bool {
    forall|cx: int, cy: int, nx: int, ny: int|
        #![trigger opens(g0, g1, w, h, cx, cy), g1[ny][nx]]
        opens(g0, g1, w, h, cx, cy) && in_grid(w, h, nx, ny) && adjacent(cx, cy, nx, ny) ==> g1[ny][nx].revealed
            || g1[ny][nx].flagged || listed(pending, nx, ny)
}

/// (cx, cy) is the start (x, y) or a neighbour of an uncovered tile with no mine around it.
pub open spec fn reached(g0: Seq<Seq<Tile>>, g1: Seq<Seq<Tile>>, w: int, h: int, x: int, y: int, cx: int, cy: int) -> bool {
    (cx == x && cy == y) || exists|mx: int, my: int| adjacent(mx, my, cx, cy) && #[trigger] opens(g0, g1, w, h, mx, my)
}

/// Every tile uncovered between `g0` and `g1` was reached from the start (x, y).
pub open spec fn all_reached(g0: Seq<Seq<Tile>>, g1: Seq<Seq<Tile>>, w: int, h: int, x: int, y: int) -> bool {
    forall|cx: int, cy: int|
        #![trigger g1[cy][cx]]
        in_grid(w, h, cx, cy) && newly(g0, g1, cx, cy) ==> reached(g0, g1, w, h, x, y, cx, cy)
}

/// `g1` is `g0` after a flood reveal from (x, y): the start is revealed; no
/// mine and no flagged tile was uncovered; from every uncovered tile with no
/// mine around it, each neighbour is revealed or flagged; and every uncovered
/// tile is the start or a neighbour of such a tile.
pub open spec fn flood_done(g0: Seq<Seq<Tile>>, g1: Seq<Seq<Tile>>, w: int, h: int, x: int, y: int) -> bool {
    &&& only_reveals(g0, g1, w, h)
    &&& g1[y][x].revealed
    &&& newly_clean(g0, g1, w, h)
    &&& spread_from_zeros(g0, g1, w, h, Seq::empty())
    &&& all_reached(g0, g1, w, h, x, y)
}

/// `s` lists, once each, exactly the cells uncovered between `g0` and `g1`.
pub open spec fn lists_exactly(s: Seq<(usize, usize)>, g0: Seq<Seq<Tile>>, g1: Seq<Seq<Tile>>, w: int, h: int) -> bool {
    &&& forall|i: int, j: int| 0 <= i < j < s.len() ==> #[trigger] s[i] != #[trigger] s[j]
    &&& forall|k: int|
        0 <= k < s.len() ==> in_grid(w, h, #[trigger] s[k].0 as int, s[k].1 as int) && newly(
            g0,
            g1,
            s[k].0 as int,
            s[k].1 as int,
        )
    &&& forall|x: int, y: int|
        #![trigger g1[y][x]]
        in_grid(w, h, x, y) && newly(g0, g1, x, y) ==> listed(s, x, y)
}

/// A neighbour of a tile with no mine around it holds no mine.
proof fn lemma_zero_neighbour_safe(g: Seq<Seq<Tile>>, w: int, h: int, cx: int, cy: int, nx: int, ny: int)
    requires
        has_shape(g, w, h),
        numbers_ok(g, w, h),
        in_grid(w, h, cx, cy),
        in_grid(w, h, nx, ny),
        adjacent(cx, cy, nx, ny),
        !g[cy][cx].bomb,
        g[cy][cx].number == 0,
    ensures
        !g[ny][nx].bomb,
{
    assert(bombs_around(g, w, h, cx, cy) == 0);
}

/// Pushes the cell at offset (dx - 1, dy - 1) from (x, y) when it lies in the
/// grid and is neither revealed nor flagged.
fn push_if_hidden(
    b: &Vec<Vec<Tile>>,
    width: usize,
    height: usize,
    x: usize,
    y: usize,
    dx: usize,
    dy: usize,
    stack: &mut Vec<(usize, usize)>,
)
    requires
        has_shape(grid_of(*b), width as int, height as int),
        x < width,
        y < height,
        dx <= 2,
        dy <= 2,
        !(dx == 1 && dy == 1),
    ensures
        final(stack)@.len() >= old(stack)@.len(),
        final(stack)@.subrange(0, old(stack)@.len() as int) == old(stack)@,
        forall|k: int|
            old(stack)@.len() <= k < final(stack)@.len() ==> in_grid(
                width as int,
                height as int,
                #[trigger] final(stack)@[k].0 as int,
                final(stack)@[k].1 as int,
            ) && adjacent(x as int, y as int, final(stack)@[k].0 as int, final(stack)@[k].1 as int),
        forall|nx: int, ny: int| listed(old(stack)@, nx, ny) ==> listed(final(stack)@, nx, ny),
        ({
            let nx = x + dx - 1;
            let ny = y + dy - 1;
            let g = grid_of(*b);
            in_grid(width as int, height as int, nx, ny) && !g[ny][nx].revealed && !g[ny][nx].flagged ==> listed(
                final(stack)@,
                nx,
                ny,
            )
        }),
{
    let ghost s0 = stack@;
    if (dx == 0 && x == 0) || (dy == 0 && y == 0) {
        assert(stack@.subrange(0, s0.len() as int) =~= s0);
        return;
    }
    let nx = if dx == 0 { x - 1 } else { x + (dx - 1) };
    let ny = if dy == 0 { y - 1 } else { y + (dy - 1) };
    if nx < width && ny < height {
        assert(b@[ny as int]@ == grid_of(*b)[ny as int]);
        let t = b[ny][nx];
        if !t.revealed && !t.flagged {
            stack.push((nx, ny));
            assert(stack@[s0.len() as int] == (nx, ny));
        }
    }
    assert(stack@.subrange(0, s0.len() as int) =~= s0);
    assert forall|px: int, py: int| listed(s0, px, py) implies listed(stack@, px, py) by {
        let k = choose|k: int| 0 <= k < s0.len() && s0[k].0 == px && s0[k].1 == py;
        assert(stack@[k] == s0[k]);
    }
}

/// Position of (nx, ny) among the nine cells of the 3 by 3 block centred on (x, y).
pub open spec fn block_rank(x: int, y: int, nx: int, ny: int) -> int {
    (ny - y + 1) * 3 + (nx - x + 1)
}

/// Pushes every neighbour of (x, y) that is neither revealed nor flagged.
fn push_hidden_neighbours(
    b: &Vec<Vec<Tile>>,
    width: usize,
    height: usize,
    x: usize,
    y: usize,
    stack: &mut Vec<(usize, usize)>,
)
    requires
        has_shape(grid_of(*b), width as int, height as int),
        x < width,
        y < height,
    ensures
        final(stack)@.len() >= old(stack)@.len(),
        final(stack)@.subrange(0, old(stack)@.len() as int) == old(stack)@,
        forall|k: int|
            old(stack)@.len() <= k < final(stack)@.len() ==> in_grid(
                width as int,
                height as int,
                #[trigger] final(stack)@[k].0 as int,
                final(stack)@[k].1 as int,
            ) && adjacent(x as int, y as int, final(stack)@[k].0 as int, final(stack)@[k].1 as int),
        forall|nx: int, ny: int|
            #![trigger grid_of(*b)[ny][nx]]
            in_grid(width as int, height as int, nx, ny) && adjacent(x as int, y as int, nx, ny)
                && !grid_of(*b)[ny][nx].revealed && !grid_of(*b)[ny][nx].flagged ==> listed(final(stack)@, nx, ny),
{
    let ghost s0 = stack@;
    let ghost g = grid_of(*b);
    let mut k: usize = 0;
    while k < 9
        invariant
            k <= 9,
            g == grid_of(*b),
            has_shape(g, width as int, height as int),
            x < width,
            y < height,
            stack@.len() >= s0.len(),
            stack@.subrange(0, s0.len() as int) == s0,
            forall|i: int|
                s0.len() <= i < stack@.len() ==> in_grid(
                    width as int,
                    height as int,
                    #[trigger] stack@[i].0 as int,
                    stack@[i].1 as int,
                ) && adjacent(x as int, y as int, stack@[i].0 as int, stack@[i].1 as int),
            forall|nx: int, ny: int|
                #![trigger g[ny][nx]]
                in_grid(width as int, height as int, nx, ny) && adjacent(x as int, y as int, nx, ny)
                    && block_rank(x as int, y as int, nx, ny) < k && !g[ny][nx].revealed && !g[ny][nx].flagged
                    ==> listed(stack@, nx, ny),
        decreases 9 - k,
    {
        let ghost before = stack@;
        if k != 4 {
            push_if_hidden(b, width, height, x, y, k % 3, k / 3, stack);
            assert(stack@.subrange(0, s0.len() as int) =~= before.subrange(0, s0.len() as int));
            assert forall|i: int| s0.len() <= i < stack@.len() implies in_grid(
                width as int,
                height as int,
                #[trigger] stack@[i].0 as int,
                stack@[i].1 as int,
            ) && adjacent(x as int, y as int, stack@[i].0 as int, stack@[i].1 as int) by {
                if i < before.len() {
                    assert(stack@[i] == stack@.subrange(0, before.len() as int)[i]);
                }
            }
        }
        k += 1;
    }
}

/// The state of a flood reveal from (x, y) that started on `g0`: `g` is the
/// grid so far, `st` the cells still to visit and `added` the cells uncovered.
#[verifier::opaque]
spec fn flood_inv(
    g0: Seq<Seq<Tile>>,
    g: Seq<Seq<Tile>>,
    w: int,
    h: int,
    x: int,
    y: int,
    st: Seq<(usize, usize)>,
    added: Seq<(usize, usize)>,
) -> bool {
    &&& has_shape(g0, w, h)
    &&& numbers_ok(g0, w, h)
    &&& in_grid(w, h, x, y)
    &&& !g0[y][x].flagged
    &&& only_reveals(g0, g, w, h)
    &&& newly_clean(g0, g, w, h)
    &&& spread_from_zeros(g0, g, w, h, st)
    &&& all_reached(g0, g, w, h, x, y)
    &&& forall|k: int|
        0 <= k < st.len() ==> in_grid(w, h, #[trigger] st[k].0 as int, st[k].1 as int)
            && !g0[st[k].1 as int][st[k].0 as int].bomb && reached(g0, g, w, h, x, y, st[k].0 as int, st[k].1 as int)
    &&& g[y][x].revealed || listed(st, x, y)
    &&& lists_exactly(added, g0, g, w, h)
}

/// A listed cell other than the last stays listed once the last is dropped.
proof fn lemma_listed_drop_last(st: Seq<(usize, usize)>, nx: int, ny: int)
    requires
        st.len() > 0,
        listed(st, nx, ny),
        !(st.last().0 == nx && st.last().1 == ny),
    ensures
        listed(st.drop_last(), nx, ny),
{
    let k = choose|k: int| 0 <= k < st.len() && st[k].0 == nx && st[k].1 == ny;
    assert(st.drop_last()[k] == st[k]);
}

/// A listed cell stays listed in any sequence that starts with the list.
proof fn lemma_listed_prefix(s: Seq<(usize, usize)>, t: Seq<(usize, usize)>, nx: int, ny: int)
    requires
        listed(s, nx, ny),
        t.len() >= s.len(),
        t.subrange(0, s.len() as int) == s,
    ensures
        listed(t, nx, ny),
{
    let k = choose|k: int| 0 <= k < s.len() && s[k].0 == nx && s[k].1 == ny;
    assert(t[k] == t.subrange(0, s.len() as int)[k]);
}

/// Dropping a visited cell that is already revealed or flagged keeps the state.
proof fn lemma_flood_skip(
    g0: Seq<Seq<Tile>>,
    g: Seq<Seq<Tile>>,
    w: int,
    h: int,
    x: int,
    y: int,
    st: Seq<(usize, usize)>,
    added: Seq<(usize, usize)>,
)
    requires
        flood_inv(g0, g, w, h, x, y, st, added),
        st.len() > 0,
        g[st.last().1 as int][st.last().0 as int].revealed || g[st.last().1 as int][st.last().0 as int].flagged,
    ensures
        flood_inv(g0, g, w, h, x, y, st.drop_last(), added),
{
    reveal(flood_inv);
    let c = st.last();
    assert(in_grid(w, h, c.0 as int, c.1 as int));
    let s2 = st.drop_last();
    assert forall|cx: int, cy: int, nx: int, ny: int|
        #![trigger opens(g0, g, w, h, cx, cy), g[ny][nx]]
        opens(g0, g, w, h, cx, cy) && in_grid(w, h, nx, ny) && adjacent(cx, cy, nx, ny) implies g[ny][nx].revealed
            || g[ny][nx].flagged || listed(s2, nx, ny) by {
        if !g[ny][nx].revealed && !g[ny][nx].flagged {
            lemma_listed_drop_last(st, nx, ny);
        }
    }
    assert forall|k: int| 0 <= k < s2.len() implies in_grid(w, h, #[trigger] s2[k].0 as int, s2[k].1 as int)
        && !g0[s2[k].1 as int][s2[k].0 as int].bomb && reached(g0, g, w, h, x, y, s2[k].0 as int, s2[k].1 as int) by {
        assert(s2[k] == st[k]);
    }
    if !g[y][x].revealed {
        assert(g[y][x].flagged == g0[y][x].flagged);
        lemma_listed_drop_last(st, x, y);
    }
}

/// `g2` is `g` with the covered tile (cx, cy) revealed, and nothing else changed.
spec fn one_revealed(g: Seq<Seq<Tile>>, g2: Seq<Seq<Tile>>, w: int, h: int, cx: int, cy: int) -> bool {
    &&& has_shape(g, w, h)
    &&& has_shape(g2, w, h)
    &&& in_grid(w, h, cx, cy)
    &&& !g[cy][cx].revealed
    &&& !g[cy][cx].flagged
    &&& g2[cy][cx] == Tile { revealed: true, ..g[cy][cx] }
    &&& forall|px: int, py: int|
        #![trigger g2[py][px]]
        in_grid(w, h, px, py) && !(px == cx && py == cy) ==> g2[py][px] == g[py][px]
}

proof fn lemma_one_revealed(g: Seq<Seq<Tile>>, w: int, h: int, cx: int, cy: int)
    requires
        has_shape(g, w, h),
        in_grid(w, h, cx, cy),
        !g[cy][cx].revealed,
        !g[cy][cx].flagged,
    ensures
        one_revealed(g, g.update(cy, g[cy].update(cx, Tile { revealed: true, ..g[cy][cx] })), w, h, cx, cy),
{
    let g2 = g.update(cy, g[cy].update(cx, Tile { revealed: true, ..g[cy][cx] }));
    assert forall|px: int, py: int|
        #![trigger g2[py][px]]
        in_grid(w, h, px, py) && !(px == cx && py == cy) implies g2[py][px] == g[py][px] by {
        if py == cy {
            assert(g2[py] == g[py].update(cx, Tile { revealed: true, ..g[cy][cx] }));
        }
    }
}

/// Tiles that opened before a single reveal still open after it.
proof fn lemma_opens_kept(g0: Seq<Seq<Tile>>, g: Seq<Seq<Tile>>, g2: Seq<Seq<Tile>>, w: int, h: int, cx: int, cy: int, mx: int, my: int)
    requires
        one_revealed(g, g2, w, h, cx, cy),
        opens(g0, g, w, h, mx, my),
    ensures
        opens(g0, g2, w, h, mx, my),
{
    assert(g2[my][mx] == g[my][mx]);
}

proof fn lemma_reveal_spread(
    g0: Seq<Seq<Tile>>,
    g: Seq<Seq<Tile>>,
    g2: Seq<Seq<Tile>>,
    w: int,
    h: int,
    st: Seq<(usize, usize)>,
    s2: Seq<(usize, usize)>,
)
    requires
        st.len() > 0,
        one_revealed(g, g2, w, h, st.last().0 as int, st.last().1 as int),
        spread_from_zeros(g0, g, w, h, st),
        s2.len() >= st.len() - 1,
        s2.subrange(0, st.len() - 1) == st.drop_last(),
        g[st.last().1 as int][st.last().0 as int].number == 0 ==> forall|nx: int, ny: int|
            #![trigger g2[ny][nx]]
            in_grid(w, h, nx, ny) && adjacent(st.last().0 as int, st.last().1 as int, nx, ny)
                && !g2[ny][nx].revealed && !g2[ny][nx].flagged ==> listed(s2, nx, ny),
    ensures
        spread_from_zeros(g0, g2, w, h, s2),
{
    let cx = st.last().0 as int;
    let cy = st.last().1 as int;
    assert forall|mx: int, my: int, nx: int, ny: int|
        #![trigger opens(g0, g2, w, h, mx, my), g2[ny][nx]]
        opens(g0, g2, w, h, mx, my) && in_grid(w, h, nx, ny) && adjacent(mx, my, nx, ny) implies g2[ny][nx].revealed
            || g2[ny][nx].flagged || listed(s2, nx, ny) by {
        if !(mx == cx && my == cy) {
            assert(g2[my][mx] == g[my][mx]);
            assert(opens(g0, g, w, h, mx, my));
            if !(nx == cx && ny == cy) {
                assert(g2[ny][nx] == g[ny][nx]);
                if !g[ny][nx].revealed && !g[ny][nx].flagged {
                    lemma_listed_drop_last(st, nx, ny);
                    lemma_listed_prefix(st.drop_last(), s2, nx, ny);
                }
            }
        }
    }
}

proof fn lemma_reveal_reached(
    g0: Seq<Seq<Tile>>,
    g: Seq<Seq<Tile>>,
    g2: Seq<Seq<Tile>>,
    w: int,
    h: int,
    x: int,
    y: int,
    cx: int,
    cy: int,
)
    requires
        one_revealed(g, g2, w, h, cx, cy),
        all_reached(g0, g, w, h, x, y),
        reached(g0, g, w, h, x, y, cx, cy),
        only_reveals(g0, g, w, h),
    ensures
        all_reached(g0, g2, w, h, x, y),
{
    assert forall|px: int, py: int|
        #![trigger g2[py][px]]
        in_grid(w, h, px, py) && newly(g0, g2, px, py) implies reached(g0, g2, w, h, x, y, px, py) by {
        if !(px == cx && py == cy) {
            assert(g2[py][px] == g[py][px]);
            assert(reached(g0, g, w, h, x, y, px, py));
        }
        if !(px == x && py == y) {
            let (mx, my) = choose|mx: int, my: int| adjacent(mx, my, px, py) && #[trigger] opens(g0, g, w, h, mx, my);
            lemma_opens_kept(g0, g, g2, w, h, cx, cy, mx, my);
        }
    }
}

proof fn lemma_reveal_stack(
    g0: Seq<Seq<Tile>>,
    g: Seq<Seq<Tile>>,
    g2: Seq<Seq<Tile>>,
    w: int,
    h: int,
    x: int,
    y: int,
    st: Seq<(usize, usize)>,
    s2: Seq<(usize, usize)>,
)
    requires
        st.len() > 0,
        one_revealed(g, g2, w, h, st.last().0 as int, st.last().1 as int),
        has_shape(g0, w, h),
        numbers_ok(g0, w, h),
        only_reveals(g0, g, w, h),
        !g0[st.last().1 as int][st.last().0 as int].bomb,
        forall|k: int|
            0 <= k < st.len() ==> in_grid(w, h, #[trigger] st[k].0 as int, st[k].1 as int)
                && !g0[st[k].1 as int][st[k].0 as int].bomb && reached(g0, g, w, h, x, y, st[k].0 as int, st[k].1 as int),
        s2.len() >= st.len() - 1,
        s2.subrange(0, st.len() - 1) == st.drop_last(),
        forall|k: int|
            st.len() - 1 <= k < s2.len() ==> in_grid(w, h, #[trigger] s2[k].0 as int, s2[k].1 as int) && adjacent(
                st.last().0 as int,
                st.last().1 as int,
                s2[k].0 as int,
                s2[k].1 as int,
            ),
        s2.len() > st.len() - 1 ==> g[st.last().1 as int][st.last().0 as int].number == 0,
    ensures
        forall|k: int|
            0 <= k < s2.len() ==> in_grid(w, h, #[trigger] s2[k].0 as int, s2[k].1 as int)
                && !g0[s2[k].1 as int][s2[k].0 as int].bomb && reached(g0, g2, w, h, x, y, s2[k].0 as int, s2[k].1 as int),
{
    let cx = st.last().0 as int;
    let cy = st.last().1 as int;
    assert forall|k: int| 0 <= k < s2.len() implies in_grid(w, h, #[trigger] s2[k].0 as int, s2[k].1 as int)
        && !g0[s2[k].1 as int][s2[k].0 as int].bomb && reached(g0, g2, w, h, x, y, s2[k].0 as int, s2[k].1 as int) by {
        if k < st.len() - 1 {
            assert(s2[k] == s2.subrange(0, st.len() - 1)[k]);
            assert(s2[k] == st[k]);
            if !(s2[k].0 == x && s2[k].1 == y) {
                let (mx, my) = choose|mx: int, my: int|
                    adjacent(mx, my, s2[k].0 as int, s2[k].1 as int) && #[trigger] opens(g0, g, w, h, mx, my);
                lemma_opens_kept(g0, g, g2, w, h, cx, cy, mx, my);
            }
        } else {
            assert(g0[cy][cx].number == g[cy][cx].number);
            lemma_zero_neighbour_safe(g0, w, h, cx, cy, s2[k].0 as int, s2[k].1 as int);
            assert(opens(g0, g2, w, h, cx, cy));
        }
    }
}

proof fn lemma_reveal_listed(
    g0: Seq<Seq<Tile>>,
    g: Seq<Seq<Tile>>,
    g2: Seq<Seq<Tile>>,
    w: int,
    h: int,
    cx: int,
    cy: int,
    added: Seq<(usize, usize)>,
)
    requires
        one_revealed(g, g2, w, h, cx, cy),
        only_reveals(g0, g, w, h),
        lists_exactly(added, g0, g, w, h),
        0 <= cx <= usize::MAX,
        0 <= cy <= usize::MAX,
    ensures
        lists_exactly(added.push((cx as usize, cy as usize)), g0, g2, w, h),
{
    let a2 = added.push((cx as usize, cy as usize));
    assert forall|i: int, j: int| 0 <= i < j < a2.len() implies #[trigger] a2[i] != #[trigger] a2[j] by {
        assert(a2[i] == added[i]);
        if j == added.len() {
            assert(newly(g0, g, added[i].0 as int, added[i].1 as int));
        } else {
            assert(a2[j] == added[j]);
        }
    }
    assert forall|k: int| 0 <= k < a2.len() implies in_grid(w, h, #[trigger] a2[k].0 as int, a2[k].1 as int) && newly(
        g0,
        g2,
        a2[k].0 as int,
        a2[k].1 as int,
    ) by {
        if k < added.len() {
            assert(a2[k] == added[k]);
            assert(newly(g0, g, added[k].0 as int, added[k].1 as int));
            assert(g2[a2[k].1 as int][a2[k].0 as int].revealed);
        }
    }
    assert forall|px: int, py: int| #![trigger g2[py][px]] in_grid(w, h, px, py) && newly(g0, g2, px, py) implies listed(
        a2,
        px,
        py,
    ) by {
        if px == cx && py == cy {
            assert(a2[added.len() as int] == (cx as usize, cy as usize));
        } else {
            assert(g2[py][px] == g[py][px]);
            let k = choose|k: int| 0 <= k < added.len() && added[k].0 == px && added[k].1 == py;
            assert(a2[k] == added[k]);
        }
    }
}

proof fn lemma_reveal_marks(g0: Seq<Seq<Tile>>, g: Seq<Seq<Tile>>, g2: Seq<Seq<Tile>>, w: int, h: int, cx: int, cy: int)
    requires
        one_revealed(g, g2, w, h, cx, cy),
        only_reveals(g0, g, w, h),
        newly_clean(g0, g, w, h),
        !g0[cy][cx].bomb,
    ensures
        only_reveals(g0, g2, w, h),
        newly_clean(g0, g2, w, h),
{
    assert forall|px: int, py: int| #![trigger g2[py][px]] in_grid(w, h, px, py) implies g2[py][px].bomb == g0[py][px].bomb
        && g2[py][px].flagged == g0[py][px].flagged && g2[py][px].number == g0[py][px].number && (g0[py][px].revealed
        ==> g2[py][px].revealed) by {
        if !(px == cx && py == cy) {
            assert(g2[py][px] == g[py][px]);
        }
    }
    assert forall|px: int, py: int|
        #![trigger g2[py][px]]
        in_grid(w, h, px, py) && newly(g0, g2, px, py) implies !g2[py][px].bomb && !g2[py][px].flagged by {
        if !(px == cx && py == cy) {
            assert(g2[py][px] == g[py][px]);
        }
    }
}

/// The last cell still to visit lies in the grid.
proof fn lemma_flood_top(
    g0: Seq<Seq<Tile>>,
    g: Seq<Seq<Tile>>,
    w: int,
    h: int,
    x: int,
    y: int,
    st: Seq<(usize, usize)>,
    added: Seq<(usize, usize)>,
)
    requires
        flood_inv(g0, g, w, h, x, y, st, added),
        st.len() > 0,
    ensures
        in_grid(w, h, st.last().0 as int, st.last().1 as int),
{
    reveal(flood_inv);
    assert(st[st.len() - 1] == st.last());
}

/// Revealing the last visited cell and replacing it by its pending neighbours
/// keeps the state.
#[verifier::spinoff_prover]
#[verifier::rlimit(60)]
proof fn lemma_flood_reveal(
    g0: Seq<Seq<Tile>>,
    g: Seq<Seq<Tile>>,
    w: int,
    h: int,
    x: int,
    y: int,
    st: Seq<(usize, usize)>,
    s2: Seq<(usize, usize)>,
    added: Seq<(usize, usize)>,
)
    requires
        flood_inv(g0, g, w, h, x, y, st, added),
        st.len() > 0,
        !g[st.last().1 as int][st.last().0 as int].revealed,
        !g[st.last().1 as int][st.last().0 as int].flagged,
        s2.len() >= st.len() - 1,
        s2.subrange(0, st.len() - 1) == st.drop_last(),
        forall|k: int|
            st.len() - 1 <= k < s2.len() ==> in_grid(w, h, #[trigger] s2[k].0 as int, s2[k].1 as int) && adjacent(
                st.last().0 as int,
                st.last().1 as int,
                s2[k].0 as int,
                s2[k].1 as int,
            ),
        g[st.last().1 as int][st.last().0 as int].number != 0 ==> s2 == st.drop_last(),
        g[st.last().1 as int][st.last().0 as int].number == 0 ==> forall|nx: int, ny: int|
            #![trigger g[ny][nx]]
            in_grid(w, h, nx, ny) && adjacent(st.last().0 as int, st.last().1 as int, nx, ny)
                && !g[ny][nx].revealed && !g[ny][nx].flagged ==> listed(s2, nx, ny),
    ensures
        flood_inv(
            g0,
            g.update(
                st.last().1 as int,
                g[st.last().1 as int].update(st.last().0 as int, Tile { revealed: true, ..g[st.last().1 as int][st.last().0 as int] }),
            ),
            w,
            h,
            x,
            y,
            s2,
            added.push(st.last()),
        ),
{
    reveal(flood_inv);
    let c = st.last();
    let cx = c.0 as int;
    let cy = c.1 as int;
    assert(st[st.len() - 1] == c);
    let g2 = g.update(cy, g[cy].update(cx, Tile { revealed: true, ..g[cy][cx] }));
    lemma_one_revealed(g, w, h, cx, cy);
    lemma_reveal_marks(g0, g, g2, w, h, cx, cy);
    if g[cy][cx].number == 0 {
        assert forall|nx: int, ny: int|
            #![trigger g2[ny][nx]]
            in_grid(w, h, nx, ny) && adjacent(cx, cy, nx, ny) && !g2[ny][nx].revealed && !g2[ny][nx].flagged implies listed(
            s2,
            nx,
            ny,
        ) by {
            assert(g2[ny][nx] == g[ny][nx]);
        }
    } else {
        assert(s2.len() == st.len() - 1);
    }
    lemma_reveal_spread(g0, g, g2, w, h, st, s2);
    lemma_reveal_reached(g0, g, g2, w, h, x, y, cx, cy);
    lemma_reveal_stack(g0, g, g2, w, h, x, y, st, s2);
    lemma_reveal_listed(g0, g, g2, w, h, cx, cy, added);
    if !g2[y][x].revealed {
        lemma_listed_drop_last(st, x, y);
        lemma_listed_prefix(st.drop_last(), s2, x, y);
    }
}

/// Once nothing is left to visit, the flood reveal is complete.
proof fn lemma_flood_done(
    g0: Seq<Seq<Tile>>,
    g: Seq<Seq<Tile>>,
    w: int,
    h: int,
    x: int,
    y: int,
    added: Seq<(usize, usize)>,
)
    requires
        flood_inv(g0, g, w, h, x, y, Seq::empty(), added),
    ensures
        flood_done(g0, g, w, h, x, y),
        lists_exactly(added, g0, g, w, h),
{
    reveal(flood_inv);
}

/// Setting `revealed` flags on tiles that hold neither a mine nor a flag keeps
/// the mine count, the numbers and the rule that no flagged tile is revealed.
proof fn lemma_reveals_keep_board(g0: Seq<Seq<Tile>>, g1: Seq<Seq<Tile>>, w: int, h: int)
    requires
        has_shape(g0, w, h),
        only_reveals(g0, g1, w, h),
        newly_clean(g0, g1, w, h),
        numbers_ok(g0, w, h),
        flags_hidden(g0, w, h),
    ensures
        numbers_ok(g1, w, h),
        flags_hidden(g1, w, h),
        grid_count(g1, bomb_tiles()) == grid_count(g0, bomb_tiles()),
{
    lemma_bombs_around_agree(g0, g1, w, h);
    assert forall|px: int, py: int| #![trigger g1[py][px]] in_grid(w, h, px, py) implies g1[py][px].number == if g1[py][px].bomb {
        0
    } else {
        bombs_around(g1, w, h, px, py)
    } by {
        assert(g0[py][px] == g0[py][px]);
    }
    assert forall|px: int, py: int| #![trigger g0[py][px]] in_grid(w, h, px, py) implies bomb_tiles()(g0[py][px])
        == bomb_tiles()(g1[py][px]) by {
        assert(g1[py][px].bomb == g0[py][px].bomb);
    }
    lemma_grid_count_agree(g0, g1, w, h, bomb_tiles());
}

impl Game {
    /// Uncovers (x, y) and spreads through tiles with no mine around them,
    /// appending each uncovered cell to `tiles`. Works from an explicit
    /// worklist, so its depth does not grow with the grid.
    pub fn reveal_tiles_recursively(&mut self, tiles: &mut Vec<(usize, usize)>, x: usize, y: usize)
        requires
            old(self).wf(),
            in_grid(old(self).width as int, old(self).height as int, x as int, y as int),
            !old(self).at(x as int, y as int).bomb,
            !old(self).at(x as int, y as int).flagged,
        ensures
            final(self).wf(),
            final(self).width == old(self).width && final(self).height == old(self).height,
            final(self).bombs == old(self).bombs && final(self).top_left == old(self).top_left,
            final(self).game_over == old(self).game_over && final(self).game_won == old(self).game_won,
            flood_done(old(self).grid(), final(self).grid(), old(self).width as int, old(self).height as int, x as int, y as int),
            final(tiles)@.len() >= old(tiles)@.len(),
            final(tiles)@.subrange(0, old(tiles)@.len() as int) == old(tiles)@,
            lists_exactly(
                final(tiles)@.subrange(old(tiles)@.len() as int, final(tiles)@.len() as int),
                old(self).grid(),
                final(self).grid(),
                old(self).width as int,
                old(self).height as int,
            ),
    {
        let ghost g0 = self.grid();
        let ghost n0 = tiles@.len();
        let ghost t0 = tiles@;
        let w = self.width;
        let h = self.height;
        let mut stack: Vec<(usize, usize)> = Vec::new();
        stack.push((x, y));
        let ghost mut added: Seq<(usize, usize)> = Seq::empty();
        proof {
            reveal(flood_inv);
            assert(stack@[0] == (x, y));
            assert(flood_inv(g0, self.grid(), w as int, h as int, x as int, y as int, stack@, added));
        }
        while stack.len() > 0
            invariant
                w == self.width && h == self.height,
                self.width == old(self).width && self.height == old(self).height,
                self.bombs == old(self).bombs && self.top_left == old(self).top_left,
                self.game_over == old(self).game_over && self.game_won == old(self).game_won,
                g0 == old(self).grid(),
                old(self).wf(),
                has_shape(self.grid(), w as int, h as int),
                flood_inv(g0, self.grid(), w as int, h as int, x as int, y as int, stack@, added),
                tiles@ == t0 + added,
            decreases grid_count(self.grid(), covered_tiles()), stack@.len(),
        {
            let ghost g = self.grid();
            let ghost st = stack@;
            let (cx, cy) = stack.pop().unwrap();
            proof {
                lemma_flood_top(g0, g, w as int, h as int, x as int, y as int, st, added);
                assert(st[st.len() - 1] == (cx, cy));
                assert(stack@ == st.drop_last());
                assert(in_grid(w as int, h as int, cx as int, cy as int));
            }
            assert(self.board@[cy as int]@ == g[cy as int]);
            let t = self.board[cy][cx];
            if !t.revealed && !t.flagged {
                self.board[cy][cx].revealed = true;
                let ghost g2 = self.grid();
                proof {
                    assert(g2 =~= g.update(cy as int, g[cy as int].update(cx as int, Tile { revealed: true, ..t })));
                    lemma_grid_count_update(g, cx as int, cy as int, Tile { revealed: true, ..t }, covered_tiles());
                }
                tiles.push((cx, cy));
                if t.number == 0 {
                    push_hidden_neighbours(&self.board, w, h, cx, cy, &mut stack);
                    proof {
                        lemma_one_revealed(g, w as int, h as int, cx as int, cy as int);
                        assert forall|nx: int, ny: int|
                            #![trigger g[ny][nx]]
                            in_grid(w as int, h as int, nx, ny) && adjacent(cx as int, cy as int, nx, ny)
                                && !g[ny][nx].revealed && !g[ny][nx].flagged implies listed(stack@, nx, ny) by {
                            assert(g2[ny][nx] == g[ny][nx]);
                        }
                    }
                } else {
                    assert(stack@.subrange(0, st.len() - 1) =~= st.drop_last());
                }
                proof {
                    assert(stack@.subrange(0, st.len() - 1) == st.drop_last());
                    lemma_flood_reveal(g0, g, w as int, h as int, x as int, y as int, st, stack@, added);
                    added = added.push((cx, cy));
                }
            } else {
                proof {
                    lemma_flood_skip(g0, g, w as int, h as int, x as int, y as int, st, added);
                }
            }
        }
        proof {
            assert(stack@ =~= Seq::<(usize, usize)>::empty());
            lemma_flood_done(g0, self.grid(), w as int, h as int, x as int, y as int, added);
            reveal(flood_inv);
            lemma_reveals_keep_board(g0, self.grid(), w as int, h as int);
            assert(tiles@.subrange(0, n0 as int) =~= t0);
            assert(tiles@.subrange(n0 as int, tiles@.len() as int) =~= added);
        }
    }
}

} // verus!
