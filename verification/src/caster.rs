//! Casting a ray through the maze.
//!
//! The ray leaves a point in a direction and goes from cell to cell: in each
//! cell it looks which grid line it meets first, a vertical or a horizontal
//! one, and crosses it. It stops in the first cell that is a wall, or outside
//! the maze.

use vstd::prelude::*;
use crate::geometry::{cell_index, magnitude, scaled, Direction, Point, SCALE};
use crate::maze::{
    dims, enclosed, grid, height, in_grid, is_wall, on_border, rectangular, spec_is_wall, width,
    Maze,
};

verus! {

/// The distance reported for a ray that left the maze: a million cells.
pub const FAR: u128 = 1_000_000_000_000;

/// Where a ray stopped.
#[derive(Clone, Copy, Debug, PartialEq, Eq, Structural)]
pub struct Hit {
    /// The distance to the wall in units of `1 / SCALE` of a cell, measured
    /// along the axis that was crossed last and divided by the direction's
    /// component on that axis.
    pub dist: u128,
    /// The symbol of the wall cell; `#` for a ray that left the maze.
    pub cell: char,
    /// 0 where the ray came in across a vertical grid line, 1 where it came
    /// in across a horizontal one.
    pub side: u8,
}

/// The step from cell to cell that a direction component `d` makes along its
/// axis: backwards where it is negative, else forwards.
pub open spec fn step_of(d: int) -> int {
    if d < 0 {
        -1
    } else {
        1
    }
}

/// How far it is along one axis from the coordinate `o` to the grid line that
/// a ray in cell `m` meets next when its direction component is `d`.
pub open spec fn gap(o: int, d: int, m: int) -> int {
    if d < 0 {
        o - m * SCALE
    } else {
        (m + 1) * SCALE - o
    }
}

/// Whether a ray in the cell `(mx, my)` meets a vertical grid line before it
/// meets a horizontal one. The way to a line is its gap divided by the
/// magnitude of the direction's component; along an axis whose component is
/// zero the ray never meets a line.
pub open spec fn vertical_first(origin: Point, dir: Direction, mx: int, my: int) -> bool {
    dir.dx != 0 && (dir.dy == 0 || gap(origin.x as int, dir.dx as int, mx) * magnitude(
        dir.dy as int,
    ) < gap(origin.y as int, dir.dy as int, my) * magnitude(dir.dx as int))
}

/// The cell `(x, y)` that the ray is in after `k` crossings, and the side that
/// it crossed last: 0 for a vertical grid line, 1 for a horizontal one.
pub open spec fn path(origin: Point, dir: Direction, k: nat) -> (int, int, int)
    decreases k,
{
    if k == 0 {
        (cell_index(origin.x as int), cell_index(origin.y as int), 0)
    } else {
        let (mx, my, _) = path(origin, dir, (k - 1) as nat);
        if vertical_first(origin, dir, mx, my) {
            (mx + step_of(dir.dx as int), my, 0)
        } else {
            (mx, my + step_of(dir.dy as int), 1)
        }
    }
}

/// After `k` crossings the ray is in a wall or outside the maze.
pub open spec fn stops(g: Seq<Seq<char>>, origin: Point, dir: Direction, k: nat) -> bool {
    let (mx, my, _) = path(origin, dir, k);
    !in_grid(g, mx, my) || spec_is_wall(g[my][mx])
}

/// The ray stops after `k` crossings and not before. The cell that it starts
/// in does not stop it.
pub open spec fn first_stop(g: Seq<Seq<char>>, origin: Point, dir: Direction, k: nat) -> bool {
    &&& k >= 1
    &&& stops(g, origin, dir, k)
    &&& forall|j: nat| 1 <= j < k ==> !#[trigger] stops(g, origin, dir, j)
}

/// The distance to the edge through which a ray with direction component `d`
/// comes into cell `m`, from the coordinate `o` along that axis: the length of
/// the way along the axis, divided by the magnitude of `d`, which counts as
/// one millionth where it is less.
pub open spec fn reach(o: int, d: int, m: int) -> int {
    let edge = if d < 0 {
        (m + 1) * SCALE
    } else {
        m * SCALE
    };
    magnitude(edge - o) * SCALE / (if d == 0 {
        1
    } else {
        magnitude(d)
    })
}

/// The distance at which the ray makes its `k`-th crossing: the distance to
/// the edge through which it comes into the cell where it is after `k`
/// crossings.
pub open spec fn crossing_dist(origin: Point, dir: Direction, k: nat) -> int {
    let (mx, my, side) = path(origin, dir, k);
    if side == 0 {
        reach(origin.x as int, dir.dx as int, mx)
    } else {
        reach(origin.y as int, dir.dy as int, my)
    }
}

/// What the ray reports where it stops after `k` crossings: the wall that it
/// is in, the side that it crossed last and the distance of that crossing, or
/// a plain wall at the distance `FAR` where it is outside the maze.
pub open spec fn hit_at(g: Seq<Seq<char>>, origin: Point, dir: Direction, k: nat) -> Hit {
    let (mx, my, side) = path(origin, dir, k);
    if in_grid(g, mx, my) {
        Hit { dist: crossing_dist(origin, dir, k) as u128, cell: g[my][mx], side: side as u8 }
    } else {
        Hit { dist: FAR, cell: '#', side: side as u8 }
    }
}

/// The most crossings that a ray makes in a maze: its width and height
/// together, and one in a maze without cells.
pub open spec fn most_crossings(g: Seq<Seq<char>>) -> nat {
    if width(g) + height(g) == 0 {
        1
    } else {
        width(g) + height(g)
    }
}

/// What a ray from `origin` in the direction `dir` reports.
pub open spec fn spec_cast_ray(g: Seq<Seq<char>>, origin: Point, dir: Direction) -> Hit {
    hit_at(g, origin, dir, choose|k: nat| first_stop(g, origin, dir, k))
}

/// The number of cells that are left along one axis, the cell `m` included,
/// for a ray with direction component `d` in a maze of `n` cells along it.
spec fn cells_left(m: int, d: int, n: int) -> int {
    if d < 0 {
        m + 1
    } else {
        n - m
    }
}

/// A ray that has made `k` crossings without stopping is inside the maze, and
/// each crossing has used up one of the cells that lay before it.
proof fn lemma_crossings_use_cells(g: Seq<Seq<char>>, origin: Point, dir: Direction, k: nat)
    requires
        k >= 1,
        forall|j: nat| 1 <= j <= k ==> !#[trigger] stops(g, origin, dir, j),
    ensures
        in_grid(g, path(origin, dir, k).0, path(origin, dir, k).1),
        k - 1 + cells_left(path(origin, dir, k).0, dir.dx as int, width(g) as int) + cells_left(
            path(origin, dir, k).1,
            dir.dy as int,
            height(g) as int,
        ) <= width(g) + height(g),
    decreases k,
{
    assert(!stops(g, origin, dir, k));
    if k > 1 {
        lemma_crossings_use_cells(g, origin, dir, (k - 1) as nat);
    }
}

/// From `k` crossings on, before which the ray has not stopped, the ray stops
/// for the first time after `n` crossings, and `n` is no more than the most
/// crossings of the maze.
proof fn lemma_stop_from(g: Seq<Seq<char>>, origin: Point, dir: Direction, k: nat) -> (n: nat)
    requires
        k >= 1,
        forall|j: nat| 1 <= j < k ==> !#[trigger] stops(g, origin, dir, j),
    ensures
        first_stop(g, origin, dir, n),
        k <= n <= most_crossings(g),
    decreases width(g) + height(g) + 1 - k,
{
    if k > 1 {
        lemma_crossings_use_cells(g, origin, dir, (k - 1) as nat);
    }
    if stops(g, origin, dir, k) {
        k
    } else {
        lemma_crossings_use_cells(g, origin, dir, k);
        lemma_stop_from(g, origin, dir, k + 1)
    }
}

/// Every ray stops, in any maze, from any point and in any direction, and it
/// does so after no more crossings than the maze is wide and high together
/// (after one where the maze has no cells). The cell that it reports is a wall.
pub proof fn lemma_ray_stops(g: Seq<Seq<char>>, origin: Point, dir: Direction)
    ensures
        exists|k: nat| k <= most_crossings(g) && first_stop(g, origin, dir, k),
        spec_is_wall(spec_cast_ray(g, origin, dir).cell),
{
    let n = lemma_stop_from(g, origin, dir, 1);
    lemma_first_stop_is_one(g, origin, dir, n);
}

/// A ray has one first stop, so what it reports is what it reports there.
pub proof fn lemma_first_stop_is_one(g: Seq<Seq<char>>, origin: Point, dir: Direction, k: nat)
    requires
        first_stop(g, origin, dir, k),
    ensures
        spec_cast_ray(g, origin, dir) == hit_at(g, origin, dir, k),
        spec_is_wall(hit_at(g, origin, dir, k).cell),
{
    let c = choose|c: nat| first_stop(g, origin, dir, c);
    if c < k {
        assert(!stops(g, origin, dir, c));
    }
    if k < c {
        assert(!stops(g, origin, dir, k));
    }
}

/// From the cell that holds the origin, the nearest grid line along an axis
/// is no farther than one cell.
pub proof fn lemma_first_gap(o: int, d: int)
    ensures
        0 <= gap(o, d, cell_index(o)) <= SCALE,
{
}

/// Each crossing adds one cell to the gap along the axis that was crossed and
/// leaves the gap along the other axis as it was: the ray goes from line to
/// line in steps of one cell along each axis.
pub proof fn lemma_crossing_adds_a_cell(origin: Point, dir: Direction, k: nat)
    ensures
        ({
            let (mx, my, _) = path(origin, dir, k);
            let (nx, ny, side) = path(origin, dir, k + 1);
            let (ox, oy) = (origin.x as int, origin.y as int);
            let (dx, dy) = (dir.dx as int, dir.dy as int);
            if side == 0 {
                &&& vertical_first(origin, dir, mx, my)
                &&& gap(ox, dx, nx) == gap(ox, dx, mx) + SCALE
                &&& gap(oy, dy, ny) == gap(oy, dy, my)
            } else {
                &&& side == 1
                &&& !vertical_first(origin, dir, mx, my)
                &&& gap(ox, dx, nx) == gap(ox, dx, mx)
                &&& gap(oy, dy, ny) == gap(oy, dy, my) + SCALE
            }
        }),
{
}

/// The gaps to the next grid lines are never negative.
proof fn lemma_gaps_not_negative(origin: Point, dir: Direction, k: nat)
    ensures
        0 <= gap(origin.x as int, dir.dx as int, path(origin, dir, k).0),
        0 <= gap(origin.y as int, dir.dy as int, path(origin, dir, k).1),
    decreases k,
{
    if k == 0 {
        lemma_first_gap(origin.x as int, dir.dx as int);
        lemma_first_gap(origin.y as int, dir.dy as int);
    } else {
        lemma_gaps_not_negative(origin, dir, (k - 1) as nat);
        lemma_crossing_adds_a_cell(origin, dir, (k - 1) as nat);
    }
}

/// Of two fractions with positive denominators, the lesser one gives the
/// lesser distance: rounding down keeps the order.
proof fn lemma_rounding_keeps_order(a: int, b: int, c: int, d: int)
    requires
        0 <= a,
        0 <= c,
        0 < b,
        0 < d,
        a * d <= c * b,
    ensures
        a * SCALE / b <= c * SCALE / d,
{
    let q1 = a * SCALE / b;
    let q2 = c * SCALE / d;
    vstd::arithmetic::div_mod::lemma_fundamental_div_mod(a * SCALE, b);
    vstd::arithmetic::div_mod::lemma_fundamental_div_mod(c * SCALE, d);
    vstd::arithmetic::div_mod::lemma_mod_bound(a * SCALE, b);
    vstd::arithmetic::div_mod::lemma_mod_bound(c * SCALE, d);
    assert(c * SCALE < d * (q2 + 1)) by (nonlinear_arith)
        requires
            c * SCALE == d * q2 + (c * SCALE) % d,
            (c * SCALE) % d < d,
    ;
    if q1 >= q2 + 1 {
        assert(b * (q2 + 1) <= b * q1) by (nonlinear_arith)
            requires
                q2 + 1 <= q1,
                0 < b,
        ;
        assert((b * (q2 + 1)) * d <= (a * SCALE) * d) by (nonlinear_arith)
            requires
                b * (q2 + 1) <= a * SCALE,
                0 < d,
        ;
        assert((a * SCALE) * d <= (c * SCALE) * b) by (nonlinear_arith)
            requires
                a * d <= c * b,
                0 < SCALE,
        ;
        assert((c * SCALE) * b < (d * (q2 + 1)) * b) by (nonlinear_arith)
            requires
                c * SCALE < d * (q2 + 1),
                0 < b,
        ;
        assert((b * (q2 + 1)) * d == (d * (q2 + 1)) * b) by (nonlinear_arith);
    }
}

/// The crossings come in the order in which they lie along the ray: each is
/// at least as far from the origin as the one before it. So the wall that the
/// ray reports is no nearer than any cell that it has passed.
pub proof fn lemma_crossings_recede(origin: Point, dir: Direction, k: nat)
    requires
        k >= 1,
    ensures
        0 <= crossing_dist(origin, dir, k) <= crossing_dist(origin, dir, k + 1),
{
    let (ox, oy) = (origin.x as int, origin.y as int);
    let (dx, dy) = (dir.dx as int, dir.dy as int);
    let (mx0, my0, _) = path(origin, dir, (k - 1) as nat);
    let (mx1, my1, s1) = path(origin, dir, k);
    let (mx2, my2, s2) = path(origin, dir, k + 1);
    lemma_gaps_not_negative(origin, dir, (k - 1) as nat);
    lemma_gaps_not_negative(origin, dir, k);
    lemma_crossing_adds_a_cell(origin, dir, (k - 1) as nat);
    lemma_crossing_adds_a_cell(origin, dir, k);
    let gx0 = gap(ox, dx, mx0);
    let gy0 = gap(oy, dy, my0);
    let gx1 = gap(ox, dx, mx1);
    let gy1 = gap(oy, dy, my1);
    let ex = magnitude(dx);
    let ey = if dy == 0 {
        1
    } else {
        magnitude(dy)
    };
    let (a, b) = if s1 == 0 {
        (gx0, ex)
    } else {
        (gy0, ey)
    };
    let (c, d) = if s2 == 0 {
        (gx1, ex)
    } else {
        (gy1, ey)
    };
    assert(a * d <= c * b) by (nonlinear_arith)
        requires
            0 <= a,
            0 <= c,
            0 < b,
            0 < d,
            s1 == 0 && s2 == 0 ==> a <= c && b == d,
            s1 != 0 && s2 != 0 ==> a <= c && b == d,
            s1 == 0 && s2 != 0 ==> a * d < c * b,
            s1 != 0 && s2 == 0 ==> a * d <= c * b,
    ;
    lemma_rounding_keeps_order(a, b, c, d);
    vstd::arithmetic::div_mod::lemma_div_pos_is_pos(a * SCALE, b);
    assert(a * SCALE >= 0) by (nonlinear_arith)
        requires
            a >= 0,
            SCALE > 0,
    ;
}

/// A ray whose direction has no `y` component stays in its row: each crossing
/// takes it one column on, across a vertical grid line. The component that
/// its distance is divided by is never zero.
pub proof fn lemma_ray_along_x(origin: Point, dir: Direction, k: nat)
    requires
        dir.dy == 0,
        dir.dx != 0,
    ensures
        path(origin, dir, k).0 == cell_index(origin.x as int) + (if dir.dx < 0 {
            -(k as int)
        } else {
            k as int
        }),
        path(origin, dir, k).1 == cell_index(origin.y as int),
        path(origin, dir, k).2 == 0,
    decreases k,
{
    if k > 0 {
        lemma_ray_along_x(origin, dir, (k - 1) as nat);
    }
}

/// A ray whose direction has no `x` component stays in its column: each
/// crossing takes it one row on, across a horizontal grid line. Where the
/// direction has no `y` component either, the ray goes down, and its distance
/// is divided by one millionth.
pub proof fn lemma_ray_along_y(origin: Point, dir: Direction, k: nat)
    requires
        dir.dx == 0,
    ensures
        path(origin, dir, k).0 == cell_index(origin.x as int),
        path(origin, dir, k).1 == cell_index(origin.y as int) + (if dir.dy < 0 {
            -(k as int)
        } else {
            k as int
        }),
        k >= 1 ==> path(origin, dir, k).2 == 1,
    decreases k,
{
    if k > 0 {
        lemma_ray_along_y(origin, dir, (k - 1) as nat);
    }
}

/// The distance is divided by a component that is not zero, unless the
/// direction has no component at all.
pub proof fn lemma_divisor_not_zero(origin: Point, dir: Direction, k: nat)
    requires
        k >= 1,
        dir.dx != 0 || dir.dy != 0,
    ensures
        path(origin, dir, k).2 == 0 ==> dir.dx != 0,
        path(origin, dir, k).2 == 1 ==> dir.dy != 0,
        path(origin, dir, k).2 == 0 || path(origin, dir, k).2 == 1,
{
}

/// For a direction of full length along an axis, the distance to a cell is
/// the plain distance along that axis to the edge of the cell.
pub proof fn lemma_reach_along_axis(o: int, d: int, m: int)
    requires
        d == SCALE || d == -SCALE,
    ensures
        reach(o, d, m) == magnitude(
            (if d < 0 {
                (m + 1) * SCALE
            } else {
                m * SCALE
            }) - o,
        ),
{
    let edge = if d < 0 {
        (m + 1) * SCALE
    } else {
        m * SCALE
    };
    vstd::arithmetic::div_mod::lemma_div_by_multiple(magnitude(edge - o), SCALE as int);
}

/// In a maze with walls all around, a ray that starts in an open cell stops
/// at a wall inside the maze: it never leaves the maze.
pub proof fn lemma_enclosed_ray_meets_wall(
    g: Seq<Seq<char>>,
    origin: Point,
    dir: Direction,
    k: nat,
)
    requires
        enclosed(g),
        in_grid(g, cell_index(origin.x as int), cell_index(origin.y as int)),
        !spec_is_wall(g[cell_index(origin.y as int)][cell_index(origin.x as int)]),
        first_stop(g, origin, dir, k),
    ensures
        in_grid(g, path(origin, dir, k).0, path(origin, dir, k).1),
        hit_at(g, origin, dir, k).cell == g[path(origin, dir, k).1][path(origin, dir, k).0],
        spec_cast_ray(g, origin, dir) == hit_at(g, origin, dir, k),
{
    let before = path(origin, dir, (k - 1) as nat);
    if k > 1 {
        assert(!stops(g, origin, dir, (k - 1) as nat));
    }
    assert(!on_border(width(g) as int, height(g) as int, before.0, before.1));
    lemma_first_stop_is_one(g, origin, dir, k);
}

/// The magnitude of a direction component.
fn component_size(d: i32) -> (m: i128)
    ensures
        m == magnitude(d as int),
        0 <= m <= 0x8000_0000,
{
    if d < 0 {
        -(d as i128)
    } else {
        d as i128
    }
}

/// The gap from `o` to the grid line that a ray in cell `m` meets next.
fn gap_to_line(o: i64, d: i32, m: i128) -> (r: i128)
    requires
        -0x1_0000_0000_0000_0000 <= m <= 0x1_0000_0000_0000_0000,
    ensures
        r == gap(o as int, d as int, m as int),
        -0x100_0000_0000_0000_0000_0000 <= r <= 0x100_0000_0000_0000_0000_0000,
{
    if d < 0 {
        o as i128 - scaled(m)
    } else {
        scaled(m + 1) - o as i128
    }
}

/// The distance to the edge through which a ray comes into cell `m`.
fn reach_of(o: i64, d: i32, m: i128) -> (r: u128)
    requires
        0 <= m <= 0x1_0000_0000_0000_0000,
    ensures
        r == reach(o as int, d as int, m as int),
{
    let edge: i128 = if d < 0 {
        scaled(m + 1)
    } else {
        scaled(m)
    };
    let along: i128 = if edge < o as i128 {
        o as i128 - edge
    } else {
        edge - o as i128
    };
    let by: i128 = if d == 0 {
        1
    } else {
        component_size(d)
    };
    (scaled(along) / by) as u128
}

/// Casts a ray from `origin` in the direction `dir` and reports the first
/// wall that it meets.
///
/// The ray goes from cell to cell across the grid line that it meets first (a
/// horizontal one where both are equally near). It stops in the first cell
/// after the one that it starts in that is a wall, and reports that cell's
/// symbol, the side through which it came in, and the distance to that side.
/// Where it leaves the maze first, it reports a plain wall at the distance
/// `FAR`.
pub fn cast_ray(maze: &Maze, origin: Point, dir: Direction) -> (hit: Hit)
    requires
        rectangular(grid(maze)),
    ensures
        hit == spec_cast_ray(grid(maze), origin, dir),
        exists|k: nat|
            k <= most_crossings(grid(maze)) && first_stop(grid(maze), origin, dir, k) && hit
                == hit_at(grid(maze), origin, dir, k),
        spec_is_wall(hit.cell),
        hit.side == 0 || hit.side == 1,
{
    let ghost g = grid(maze);
    let (w, h) = dims(maze);
    let (cx, cy) = origin.cell();
    let mut mx: i128 = cx as i128;
    let mut my: i128 = cy as i128;
    let size_x = component_size(dir.dx);
    let size_y = component_size(dir.dy);
    // `k` counts the crossings made so far; the ray is in the cell `(mx, my)`.
    let ghost mut k: nat = 0;
    loop
        invariant
            g == grid(maze),
            rectangular(g),
            w == width(g),
            h == height(g),
            size_x == magnitude(dir.dx as int),
            size_y == magnitude(dir.dy as int),
            path(origin, dir, k).0 == mx,
            path(origin, dir, k).1 == my,
            -0x1_0000_0000_0000_0000 < mx < 0x1_0000_0000_0000_0000,
            -0x1_0000_0000_0000_0000 < my < 0x1_0000_0000_0000_0000,
            forall|j: nat| 1 <= j <= k ==> !#[trigger] stops(g, origin, dir, j),
            k < most_crossings(g) + 1,
        decreases most_crossings(g) + 1 - k,
    {
        let gap_x = gap_to_line(origin.x, dir.dx, mx);
        let gap_y = gap_to_line(origin.y, dir.dy, my);
        // A gap is below 2^88 and a component no more than 2^31, so their
        // products are far from the ends of `i128`.
        assert(-0x100_0000_0000_0000_0000_0000 * 0x8000_0000 <= gap_x * size_y
            <= 0x100_0000_0000_0000_0000_0000 * 0x8000_0000) by (nonlinear_arith)
            requires
                -0x100_0000_0000_0000_0000_0000 <= gap_x <= 0x100_0000_0000_0000_0000_0000,
                0 <= size_y <= 0x8000_0000,
        ;
        assert(-0x100_0000_0000_0000_0000_0000 * 0x8000_0000 <= gap_y * size_x
            <= 0x100_0000_0000_0000_0000_0000 * 0x8000_0000) by (nonlinear_arith)
            requires
                -0x100_0000_0000_0000_0000_0000 <= gap_y <= 0x100_0000_0000_0000_0000_0000,
                0 <= size_x <= 0x8000_0000,
        ;
        let side: u8 = if dir.dx != 0 && (dir.dy == 0 || gap_x * size_y < gap_y * size_x) {
            mx = if dir.dx < 0 {
                mx - 1
            } else {
                mx + 1
            };
            0
        } else {
            my = if dir.dy < 0 {
                my - 1
            } else {
                my + 1
            };
            1
        };
        proof {
            k = k + 1;
        }
        if mx < 0 || my < 0 || mx >= w as i128 || my >= h as i128 {
            proof {
                // The ray stops here for the first time, so `k` is within
                // the most crossings of the maze.
                lemma_first_stop_is_one(g, origin, dir, k);
                lemma_stop_from(g, origin, dir, k);
            }
            return Hit { dist: FAR, cell: '#', side };
        }
        let c = maze[my as usize][mx as usize];
        if is_wall(c) {
            proof {
                lemma_first_stop_is_one(g, origin, dir, k);
                lemma_stop_from(g, origin, dir, k);
            }
            let dist = if side == 0 {
                reach_of(origin.x, dir.dx, mx)
            } else {
                reach_of(origin.y, dir.dy, my)
            };
            return Hit { dist, cell: c, side };
        }
        proof {
            // The ray goes on, so cells are left for it to cross.
            lemma_crossings_use_cells(g, origin, dir, k);
        }
    }
}

} // verus!
