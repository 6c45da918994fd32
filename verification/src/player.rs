//! The player's intents and how they move the player through the maze.

use vstd::prelude::*;
use crate::geometry::{
    cell_index, cell_of, floor_div, scaled, spec_wrap_angle, toward_zero, wrap_angle, Direction,
    Point, MAX_CELLS, SCALE, TURN,
};
use crate::maze::{
    charted, dims, grid, height, in_grid, is_wall, rectangular, spec_is_wall, width, Maze,
};

verus! {

/// What the player asks for in one frame.
#[derive(Clone, Copy, Debug, PartialEq, Eq, Structural)]
pub struct InputState {
    pub move_forward: bool,
    pub move_back: bool,
    pub strafe_left: bool,
    pub strafe_right: bool,
    pub turn_left: bool,
    pub turn_right: bool,
}

/// The player: where they stand, which way they look, and how wide they see.
/// Both angles are in millionths of a radian; the heading grows as the player
/// turns to the right, which on the screen, where `y` grows downwards, is
/// clockwise.
#[derive(Clone, Copy, Debug, PartialEq, Eq, Structural)]
pub struct Player {
    pub pos: Point,
    pub ang: i64,
    pub fov: i64,
}

/// A sixth of a full turn: the heading and the field of view that a player
/// starts with.
pub const SIXTH_TURN: i64 = 1_047_198;

/// How far the player turns in one frame: a twenty-fifth of a radian.
pub const TURN_STEP: i64 = 40_000;

/// The heading `ang` after one frame of the intents: a step less for a turn
/// to the left, a step more for one to the right, brought back into the range
/// of a full turn.
pub open spec fn spec_turned(ang: int, inp: InputState) -> int {
    spec_wrap_angle(ang - pull(inp.turn_left, inp.turn_right, TURN_STEP as int))
}

/// The angle of the ray through column `x` of a view that is `w` columns
/// wide, for a player who looks at the angle `ang` and sees `fov` wide: the
/// columns divide the field of view evenly, from half of it to the left of
/// the heading in column 0 to half of it to the right past the last column.
pub open spec fn spec_ray_angle(ang: int, fov: int, x: int, w: int) -> int {
    spec_wrap_angle(ang + (2 * x - w) * fov / (2 * w))
}

impl Player {
    /// A player at `pos` whose heading and whose field of view are a sixth of
    /// a turn each.
    pub fn new(pos: Point) -> (p: Player)
        ensures
            p == (Player { pos, ang: SIXTH_TURN, fov: SIXTH_TURN }),
    {
        Player { pos, ang: SIXTH_TURN, fov: SIXTH_TURN }
    }

    /// The angle of the ray through column `x` of a view that is `width`
    /// columns wide.
    pub fn ray_angle(&self, x: u32, width: u32) -> (a: i64)
        requires
            x < width,
        ensures
            a == spec_ray_angle(self.ang as int, self.fov as int, x as int, width as int),
            0 <= a < TURN,
    {
        let lean: i128 = 2 * (x as i128) - width as i128;
        let fov: i128 = self.fov as i128;
        assert(-0x1_0000_0000 * 0x8000_0000_0000_0000 <= lean * fov <= 0x1_0000_0000
            * 0x8000_0000_0000_0000) by (nonlinear_arith)
            requires
                -0x1_0000_0000 <= lean <= 0x1_0000_0000,
                -0x8000_0000_0000_0000 <= fov <= 0x8000_0000_0000_0000,
        ;
        let across: i128 = lean * fov;
        let whole: i128 = 2 * (width as i128);
        let aside = floor_div(across, whole);
        wrap_angle(self.ang as i128 + aside)
    }

    /// Turns the player as the intents ask.
    pub fn turn(&mut self, inp: &InputState)
        ensures
            final(self).ang == spec_turned(old(self).ang as int, *inp),
            final(self).pos == old(self).pos,
            final(self).fov == old(self).fov,
    {
        let mut a: i128 = self.ang as i128;
        if inp.turn_left {
            a = a - TURN_STEP as i128;
        }
        if inp.turn_right {
            a = a + TURN_STEP as i128;
        }
        self.ang = wrap_angle(a);
    }
}

/// How far the player walks in one frame: a twentieth of a cell.
pub const PACE: i64 = 50_000;

/// How far from the right and the bottom edge of the maze a position is kept:
/// a ten-thousandth of a cell.
pub const EDGE: i64 = 100;

/// One frame's walk along a direction component `d`: `d` times `PACE`, in
/// cells, rounded towards zero.
pub open spec fn spec_stride(d: int) -> int {
    toward_zero(d * PACE, SCALE as int)
}

/// One frame's walk along a direction component.
fn stride(d: i32) -> (s: i64)
    ensures
        s == spec_stride(d as int),
        -0x800_0000 <= s <= 0x800_0000,
{
    (d as i64) * PACE / SCALE
}

/// What a pair of opposite intents makes of a stride `s`: `s` where only the
/// first is set, `-s` where only the second is, and nothing where both or
/// neither are.
pub open spec fn pull(ahead: bool, against: bool, s: int) -> int {
    (if ahead {
        s
    } else {
        0
    }) - (if against {
        s
    } else {
        0
    })
}

/// The displacement that the intents ask for when the player looks in the
/// direction `dir`: a stride along `dir` for forward, one against it for
/// back, and sideways along `(dir.dy, -dir.dx)` for a strafe to the right and
/// against it for one to the left. Opposite intents cancel.
pub open spec fn spec_displacement(inp: InputState, dir: Direction) -> (int, int) {
    let sx = spec_stride(dir.dx as int);
    let sy = spec_stride(dir.dy as int);
    (
        pull(inp.move_forward, inp.move_back, sx) + pull(inp.strafe_right, inp.strafe_left, sy),
        pull(inp.move_forward, inp.move_back, sy) - pull(inp.strafe_right, inp.strafe_left, sx),
    )
}

impl InputState {
    /// The displacement that these intents ask for when the player looks in
    /// the direction `dir`.
    pub fn displacement(&self, dir: Direction) -> (d: (i64, i64))
        ensures
            d.0 == spec_displacement(*self, dir).0,
            d.1 == spec_displacement(*self, dir).1,
    {
        let sx = stride(dir.dx);
        let sy = stride(dir.dy);
        let mut dx: i64 = 0;
        let mut dy: i64 = 0;
        if self.move_forward {
            dx = dx + sx;
            dy = dy + sy;
        }
        if self.move_back {
            dx = dx - sx;
            dy = dy - sy;
        }
        if self.strafe_left {
            dx = dx - sy;
            dy = dy + sx;
        }
        if self.strafe_right {
            dx = dx + sy;
            dy = dy - sx;
        }
        (dx, dy)
    }
}

/// The position lies within the maze, or to the left of it or above it.
pub open spec fn within(g: Seq<Seq<char>>, pos: Point) -> bool {
    pos.x < width(g) * SCALE && pos.y < height(g) * SCALE
}

/// A coordinate kept within the maze along an axis of `n` cells: no less than
/// zero and no nearer than `EDGE` to the far edge.
pub open spec fn kept(p: int, n: int) -> int {
    if p < 0 {
        0
    } else if p > n * SCALE - EDGE {
        n * SCALE - EDGE
    } else {
        p
    }
}

/// The index of the cell that holds the coordinate `p`; the first cell for a
/// coordinate before the maze.
pub open spec fn cell_from_zero(p: int) -> int {
    if p < 0 {
        0
    } else {
        cell_index(p)
    }
}

/// Where the player is after trying to move by `(dx, dy)` from `pos`.
///
/// The target is `pos` moved by `(dx, dy)` and kept within the maze. Where the
/// target's cell is open the player goes there. Where it is a wall the player
/// slides along it: down or up where the cell in the target's row and the
/// player's own column is open, else sideways where the cell in the player's
/// own row and the target's column is open, else not at all.
pub open spec fn moved(g: Seq<Seq<char>>, pos: Point, dx: int, dy: int) -> Point {
    let nx = kept(pos.x + dx, width(g) as int);
    let ny = kept(pos.y + dy, height(g) as int);
    let cx = cell_index(nx);
    let cy = cell_index(ny);
    if !spec_is_wall(g[cy][cx]) {
        Point { x: nx as i64, y: ny as i64 }
    } else if !spec_is_wall(g[cy][cell_from_zero(pos.x as int)]) {
        Point { x: pos.x, y: ny as i64 }
    } else if !spec_is_wall(g[cell_from_zero(pos.y as int)][cx]) {
        Point { x: nx as i64, y: pos.y }
    } else {
        pos
    }
}

/// A player who stands in an open cell of the maze stands in an open cell of
/// the maze after any move: no move leads into a wall or out of the maze.
pub proof fn lemma_move_stays_open(g: Seq<Seq<char>>, pos: Point, dx: int, dy: int)
    requires
        rectangular(g),
        charted(g),
        in_grid(g, cell_index(pos.x as int), cell_index(pos.y as int)),
        !spec_is_wall(g[cell_index(pos.y as int)][cell_index(pos.x as int)]),
    ensures
        in_grid(
            g,
            cell_index(moved(g, pos, dx, dy).x as int),
            cell_index(moved(g, pos, dx, dy).y as int),
        ),
        !spec_is_wall(
            g[cell_index(moved(g, pos, dx, dy).y as int)][cell_index(
                moved(g, pos, dx, dy).x as int,
            )],
        ),
{
    let nx = kept(pos.x + dx, width(g) as int);
    let ny = kept(pos.y + dy, height(g) as int);
    assert(0 <= nx <= width(g) * SCALE - EDGE);
    assert(0 <= ny <= height(g) * SCALE - EDGE);
}

/// A coordinate moved by `d` and kept within the maze along an axis of `n`
/// cells.
fn keep(p: i64, d: i64, n: usize) -> (r: i64)
    requires
        1 <= n < MAX_CELLS,
    ensures
        r == kept(p + d, n as int),
        0 <= r <= n * SCALE - EDGE,
        0 <= cell_index(r as int) < n,
{
    let to: i128 = p as i128 + d as i128;
    let far: i128 = scaled(n as i128) - EDGE as i128;
    if to < 0 {
        0
    } else if to > far {
        far as i64
    } else {
        to as i64
    }
}

/// The cell of a coordinate along an axis of `n` cells, the first cell for a
/// coordinate before the maze.
fn cell_clamped(p: i64, n: usize) -> (c: usize)
    requires
        n >= 1,
        p < n * SCALE,
    ensures
        c == cell_from_zero(p as int),
        c < n,
{
    if p < 0 {
        0
    } else {
        cell_of(p) as usize
    }
}

/// Moves the player by `(dx, dy)` as far as the walls allow.
pub fn try_move(pos: &mut Point, dx: i64, dy: i64, mz: &Maze)
    requires
        rectangular(grid(mz)),
        charted(grid(mz)),
        width(grid(mz)) >= 1,
        height(grid(mz)) >= 1,
        within(grid(mz), *old(pos)),
    ensures
        *final(pos) == moved(grid(mz), *old(pos), dx as int, dy as int),
        within(grid(mz), *final(pos)),
{
    let ghost g = grid(mz);
    let (mw, mh) = dims(mz);
    let nx = keep(pos.x, dx, mw);
    let ny = keep(pos.y, dy, mh);
    let cx = cell_of(nx) as usize;
    let cy = cell_of(ny) as usize;
    assert(mz@[cy as int]@ == g[cy as int]);
    if !is_wall(mz[cy][cx]) {
        pos.x = nx;
        pos.y = ny;
    } else {
        let col = cell_clamped(pos.x, mw);
        let free_y = !is_wall(mz[cy][col]);
        if free_y {
            pos.y = ny;
        }
        let row = cell_clamped(pos.y, mh);
        assert(mz@[row as int]@ == g[row as int]);
        if !is_wall(mz[row][cx]) {
            pos.x = nx;
        }
    }
}

} // verus!
