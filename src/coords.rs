use vstd::prelude::*;

use crate::game::Game;

verus! {

/// Side of a tile in rendering units.
pub const TILE_SIZE: i128 = 32;

/// Space between two neighbouring tiles in rendering units.
pub const TILE_GAP: i128 = 2;

/// Distance between the centres of two neighbouring tiles.
pub const TILE_SIZE_WITH_GAP: i128 = 34;

/// A point of rendering space, in whole units; y grows upwards.
#[derive(Clone, Copy, Debug, PartialEq, Eq, Structural)]
pub struct Point {
    pub x: i128,
    pub y: i128,
}

/// Centre of cell (0, 0) for a `w` by `h` grid centred on the origin.
pub open spec fn top_left_of(w: int, h: int) -> Point {
    Point { x: -(17 * w) as i128, y: (17 * h) as i128 }
}

/// Beyond this distance from the origin no point lies near any grid.
const FAR: i128 = 0x10000000000000000000000000;

/// The nearest integer to `n / 34`, halves rounded away from zero.
pub open spec fn round_pitch(n: int) -> int {
    if n >= 0 {
        (n + 17) / 34
    } else {
        -((17 - n) / 34)
    }
}

/// The index along one axis of extent `e` whose centre lies nearest to the
/// offset `n` from the grid's edge, if it lies in `0..e`.
pub open spec fn axis_cell(n: int, e: int) -> Option<int> {
    let i = round_pitch(n);
    if 0 <= i < e {
        Some(i)
    } else {
        None
    }
}

/// The cell of a `w` by `h` grid, centred on the origin, whose centre is
/// nearest to `p`; `None` when that falls outside the grid.
pub open spec fn cell_at(w: int, h: int, p: Point) -> Option<(usize, usize)> {
    match (axis_cell(p.x + 17 * w, w), axis_cell(17 * h - p.y, h)) {
        (Some(i), Some(j)) => Some((i as usize, j as usize)),
        _ => None,
    }
}

/// Rendering-space centre of cell (x, y) of `g`.
pub open spec fn tile_center(g: Game, x: int, y: int) -> Point {
    Point { x: (g.top_left.x + 34 * x) as i128, y: (g.top_left.y - 34 * y) as i128 }
}

/// The index along one axis for offset `n`, as `axis_cell` gives it.
fn axis_index(n: i128, e: usize) -> (r: Option<usize>)
    requires
        -FAR * 2 < n < FAR * 2,
        e > 0,
    ensures
        match axis_cell(n as int, e as int) {
            Some(i) => r == Some(i as usize),
            None => r is None,
        },
{
    if n >= 0 {
        let i = (n + 17) / 34;
        if i < e as i128 {
            Some(i as usize)
        } else {
            None
        }
    } else if n <= -17 {
        assert((17 - n) / 34 >= 1);
        None
    } else {
        assert((17 - n) / 34 == 0);
        Some(0)
    }
}

impl Game {
    /// Rendering-space centre of cell (x, y).
    pub fn tile_position(&self, x: usize, y: usize) -> (p: Point)
        requires
            self.wf(),
        ensures
            p == tile_center(*self, x as int, y as int),
    {
        Point { x: self.top_left.x + 34 * (x as i128), y: self.top_left.y - 34 * (y as i128) }
    }

    /// Rendering-space point under a cursor at (cursor_x, cursor_y) of a window
    /// of the given size, measured from its top-left corner with y growing
    /// downwards. The window's centre maps to the origin, halves rounded down.
    pub fn window_to_world(&self, window_width: u32, window_height: u32, cursor_x: u32, cursor_y: u32) -> (p: Point)
        ensures
            p.x == cursor_x - window_width / 2,
            p.y == window_height / 2 - cursor_y,
    {
        Point {
            x: cursor_x as i128 - (window_width / 2) as i128,
            y: (window_height / 2) as i128 - cursor_y as i128,
        }
    }

    /// The cell whose centre is nearest to `p`, or `None` outside the grid.
    pub fn world_to_tile(&self, p: Point) -> (r: Option<(usize, usize)>)
        requires
            self.wf(),
        ensures
            r == cell_at(self.width as int, self.height as int, p),
    {
        let w = self.width;
        let h = self.height;
        if p.x > FAR || p.x < -FAR || p.y > FAR || p.y < -FAR {
            proof {
                let nx = p.x + 17 * w;
                let ny = 17 * h - p.y;
                if p.x > FAR {
                    assert(round_pitch(nx) >= w);
                } else if p.x < -FAR {
                    assert(round_pitch(nx) < 0);
                } else if p.y < -FAR {
                    assert(round_pitch(ny) >= h);
                } else {
                    assert(round_pitch(ny) < 0);
                }
            }
            return None;
        }
        let i = axis_index(p.x + 17 * (w as i128), w);
        let j = axis_index(17 * (h as i128) - p.y, h);
        match (i, j) {
            (Some(a), Some(b)) => Some((a, b)),
            _ => None,
        }
    }
}

/// The centre of every cell maps back to that cell.
pub proof fn lemma_tile_position_round_trip(g: Game, x: usize, y: usize)
    requires
        g.wf(),
        x < g.width,
        y < g.height,
    ensures
        cell_at(g.width as int, g.height as int, tile_center(g, x as int, y as int)) == Some((x, y)),
{
    let p = tile_center(g, x as int, y as int);
    assert(p.x + 17 * g.width == 34 * x);
    assert(17 * g.height - p.y == 34 * y);
    assert(round_pitch(34 * x) == x);
    assert(round_pitch(34 * y) == y);
}

/// A point at least half a pitch beyond the outer centres, on any side, maps to no cell.
pub proof fn lemma_outside_grid(g: Game, p: Point)
    requires
        g.wf(),
        p.x <= g.top_left.x - 17 || p.x >= g.top_left.x + 34 * g.width - 17 || p.y >= g.top_left.y + 17 || p.y
            <= g.top_left.y - 34 * g.height + 17,
    ensures
        cell_at(g.width as int, g.height as int, p) is None,
{
    let nx = p.x + 17 * g.width;
    let ny = 17 * g.height - p.y;
    if p.x <= g.top_left.x - 17 {
        assert(round_pitch(nx) < 0);
    } else if p.x >= g.top_left.x + 34 * g.width - 17 {
        assert(round_pitch(nx) >= g.width);
    } else if p.y >= g.top_left.y + 17 {
        assert(round_pitch(ny) < 0);
    } else {
        assert(round_pitch(ny) >= g.height);
    }
}

} // verus!
