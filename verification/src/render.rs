//! The first-person view: one wall slab for each column of the buffer.
//!
//! A column shows the wall that its ray hits as a slab around the middle row.
//! The slab is as high as the buffer for a wall one cell away and shrinks as
//! the wall recedes. Above the slab the column shows sky, below it floor.

use vstd::prelude::*;
use vstd::arithmetic::div_mod::lemma_div_is_ordered_by_denominator;
use crate::caster::{cast_ray, spec_cast_ray, Hit};
use crate::framebuffer::{Color, Framebuffer, MAX_SIDE};
use crate::geometry::{scaled, Direction, Point, SCALE};
use crate::maze::{grid, rectangular, Maze};

verus! {

/// The least distance that a slab is drawn for, a ten-thousandth of a cell:
/// a wall nearer than this is drawn as if it were this far away.
pub const NEAR: u128 = 100;

/// The colour of a wall by its symbol.
pub open spec fn spec_wall_color(c: char) -> Color {
    if c == '#' {
        Color { r: 40, g: 40, b: 160, a: 255 }
    } else if c == '1' {
        Color { r: 180, g: 60, b: 60, a: 255 }
    } else if c == '2' {
        Color { r: 60, g: 170, b: 80, a: 255 }
    } else if c == '3' {
        Color { r: 200, g: 160, b: 40, a: 255 }
    } else if c == '4' {
        Color { r: 140, g: 80, b: 200, a: 255 }
    } else {
        Color { r: 128, g: 128, b: 128, a: 255 }
    }
}

/// The colour of a wall by its symbol; grey for a symbol that has no colour
/// of its own.
#[verifier::when_used_as_spec(spec_wall_color)]
pub fn wall_color(c: char) -> (color: Color)
    ensures
        color == spec_wall_color(c),
{
    if c == '#' {
        Color::new(40, 40, 160, 255)
    } else if c == '1' {
        Color::new(180, 60, 60, 255)
    } else if c == '2' {
        Color::new(60, 170, 80, 255)
    } else if c == '3' {
        Color::new(200, 160, 40, 255)
    } else if c == '4' {
        Color::new(140, 80, 200, 255)
    } else {
        Color::new(128, 128, 128, 255)
    }
}

/// The colour of the sky, which fills the upper half of the view.
pub open spec fn spec_sky_color() -> Color {
    Color { r: 180, g: 160, b: 200, a: 255 }
}

/// The colour of the sky.
#[verifier::when_used_as_spec(spec_sky_color)]
pub fn sky_color() -> (c: Color)
    ensures
        c == spec_sky_color(),
{
    Color::new(180, 160, 200, 255)
}

/// The colour of the floor, which fills the lower half of the view.
pub open spec fn spec_floor_color() -> Color {
    Color { r: 60, g: 50, b: 70, a: 255 }
}

/// The colour of the floor.
#[verifier::when_used_as_spec(spec_floor_color)]
pub fn floor_color() -> (c: Color)
    ensures
        c == spec_floor_color(),
{
    Color::new(60, 50, 70, 255)
}

/// A wall colour as it shows on the given side: as it is on side 0, and with
/// each of red, green and blue halved, and opaque, on side 1.
pub open spec fn spec_shade(c: Color, side: u8) -> Color {
    if side == 1 {
        Color { r: c.r / 2, g: c.g / 2, b: c.b / 2, a: 255 }
    } else {
        c
    }
}

/// The colour in which a hit is drawn: the colour of the wall, shaded by the
/// side that was hit.
pub open spec fn spec_column_color(hit: Hit) -> Color {
    spec_shade(spec_wall_color(hit.cell), hit.side)
}

/// The colour in which a hit is drawn.
#[verifier::when_used_as_spec(spec_column_color)]
pub fn column_color(hit: Hit) -> (c: Color)
    ensures
        c == spec_column_color(hit),
{
    let c = wall_color(hit.cell);
    if hit.side == 1 {
        Color::new(c.r / 2, c.g / 2, c.b / 2, 255)
    } else {
        c
    }
}

/// A wall that is hit across a horizontal grid line shows at half the red,
/// green and blue of the same wall hit across a vertical one, each rounded
/// down.
pub proof fn lemma_level_side_is_half(cell: char, upright_dist: u128, level_dist: u128)
    ensures
        ({
            let upright = spec_column_color(Hit { dist: upright_dist, cell, side: 0 });
            let level = spec_column_color(Hit { dist: level_dist, cell, side: 1 });
            &&& level.r == upright.r / 2
            &&& level.g == upright.g / 2
            &&& level.b == upright.b / 2
            &&& level.a == upright.a
        }),
{
}

/// The height in pixels of the slab for a wall at distance `dist`, in a
/// buffer of `h` rows: `h` divided by the distance in cells, rounded down.
pub open spec fn spec_slab_height(h: int, dist: int) -> int {
    h * SCALE / (if dist < NEAR {
        NEAR as int
    } else {
        dist
    })
}

/// The height in pixels of the slab for a wall at distance `dist`.
pub fn slab_height(h: u32, dist: u128) -> (n: u64)
    ensures
        n == spec_slab_height(h as int, dist as int),
        n <= h * 10_000,
{
    let by: u128 = if dist < NEAR {
        NEAR
    } else {
        dist
    };
    let n = (scaled(h as i128) as u128) / by;
    proof {
        lemma_div_is_ordered_by_denominator(h * SCALE, NEAR as int, by as int);
    }
    n as u64
}

/// The first row of the slab; above the buffer where it is negative.
pub open spec fn slab_top(h: int, dist: int) -> int {
    h / 2 - spec_slab_height(h, dist) / 2
}

/// The last row of the slab; below the buffer where it is `h` or more.
pub open spec fn slab_bottom(h: int, dist: int) -> int {
    h / 2 + spec_slab_height(h, dist) / 2
}

/// A wall that is farther away gives a slab that is no higher, and that lies
/// within the slab of the nearer wall.
pub proof fn lemma_farther_is_lower(h: nat, near: nat, far: nat)
    requires
        near <= far,
    ensures
        spec_slab_height(h as int, far as int) <= spec_slab_height(h as int, near as int),
        slab_top(h as int, near as int) <= slab_top(h as int, far as int),
        slab_bottom(h as int, far as int) <= slab_bottom(h as int, near as int),
        0 <= spec_slab_height(h as int, far as int),
{
    let a = if near < NEAR {
        NEAR as int
    } else {
        near as int
    };
    let b = if far < NEAR {
        NEAR as int
    } else {
        far as int
    };
    lemma_div_is_ordered_by_denominator(h * SCALE, a, b);
}

/// Paints in the current colour the pixels of column `x` from row `y0` to
/// row `y1`, as far as the buffer has them.
pub fn vline(fb: &mut Framebuffer, x: i32, y0: i64, y1: i64)
    ensures
        final(fb).spec_background_color() == old(fb).spec_background_color(),
        final(fb).spec_current_color() == old(fb).spec_current_color(),
        final(fb).spec_width() == old(fb).spec_width(),
        final(fb).spec_height() == old(fb).spec_height(),
        forall|i: int, j: int|
            old(fb).holds(i, j) ==> #[trigger] final(fb).pixel(i, j) == (if i == x && y0 <= j
                <= y1 {
                old(fb).spec_current_color()
            } else {
                old(fb).pixel(i, j)
            }),
{
    fb.fill_rect(x as i128, y0 as i128, x as i128 + 1, y1 as i128 + 1);
}

/// The colour behind the walls in row `y` of a view of `h` rows: sky in the
/// upper half, floor in the lower half.
pub open spec fn backdrop(h: int, y: int) -> Color {
    if y < h / 2 {
        sky_color()
    } else {
        floor_color()
    }
}

/// The colour of the pixel `(x, y)` in a view of `h` rows, from `origin`, with
/// the ray of column `x` going in the direction `dirs[x]`: the colour of the
/// hit within the slab, the backdrop above and below it, and the backdrop in
/// a column that has no direction.
pub open spec fn view_pixel(
    g: Seq<Seq<char>>,
    origin: Point,
    dirs: Seq<Direction>,
    h: int,
    x: int,
    y: int,
) -> Color {
    if 0 <= x < dirs.len() {
        let hit = spec_cast_ray(g, origin, dirs[x]);
        if slab_top(h, hit.dist as int) <= y <= slab_bottom(h, hit.dist as int) {
            spec_column_color(hit)
        } else {
            backdrop(h, y)
        }
    } else {
        backdrop(h, y)
    }
}

/// The colour that was painted with last in a view of `w` columns: that of
/// the last column that has a direction, or the floor's where none has.
pub open spec fn last_paint(
    g: Seq<Seq<char>>,
    origin: Point,
    dirs: Seq<Direction>,
    w: int,
) -> Color {
    let n = if dirs.len() < w {
        dirs.len() as int
    } else {
        w
    };
    if n > 0 {
        spec_column_color(spec_cast_ray(g, origin, dirs[n - 1]))
    } else {
        floor_color()
    }
}

/// Paints the view from `origin` over the whole buffer. Column `x` shows what
/// the ray in the direction `dirs[x]` hits; the current colour is left at the
/// colour that was painted with last.
pub fn render_3d(fb: &mut Framebuffer, maze: &Maze, origin: Point, dirs: &Vec<Direction>)
    requires
        rectangular(grid(maze)),
    ensures
        final(fb).spec_width() == old(fb).spec_width(),
        final(fb).spec_height() == old(fb).spec_height(),
        final(fb).spec_background_color() == old(fb).spec_background_color(),
        final(fb).spec_current_color() == last_paint(
            grid(maze),
            origin,
            dirs@,
            old(fb).spec_width() as int,
        ),
        forall|x: int, y: int|
            old(fb).holds(x, y) ==> #[trigger] final(fb).pixel(x, y) == view_pixel(
                grid(maze),
                origin,
                dirs@,
                old(fb).spec_height() as int,
                x,
                y,
            ),
{
    let ghost g = grid(maze);
    let w = fb.width();
    let h = fb.height();
    let mid = (h / 2) as i64;
    fb.set_current_color(sky_color());
    fb.fill_rect(0, 0, w as i128, mid as i128);
    fb.set_current_color(floor_color());
    fb.fill_rect(0, mid as i128, w as i128, h as i128);
    let n: usize = if dirs.len() < w as usize {
        dirs.len()
    } else {
        w as usize
    };
    let mut x: usize = 0;
    while x < n
        invariant
            x <= n,
            n <= w <= MAX_SIDE,
            h <= MAX_SIDE,
            n <= dirs@.len(),
            n == dirs@.len() || n == w,
            g == grid(maze),
            rectangular(g),
            mid == h / 2,
            w == fb.spec_width(),
            h == fb.spec_height(),
            fb.spec_width() == old(fb).spec_width(),
            fb.spec_height() == old(fb).spec_height(),
            fb.spec_background_color() == old(fb).spec_background_color(),
            fb.spec_current_color() == (if x > 0 {
                spec_column_color(spec_cast_ray(g, origin, dirs@[x - 1]))
            } else {
                floor_color()
            }),
            forall|i: int, j: int|
                old(fb).holds(i, j) ==> #[trigger] fb.pixel(i, j) == (if i < x {
                    view_pixel(g, origin, dirs@, h as int, i, j)
                } else {
                    backdrop(h as int, j)
                }),
        decreases n - x,
    {
        let hit = cast_ray(maze, origin, dirs[x]);
        let half = (slab_height(h, hit.dist) / 2) as i64;
        fb.set_current_color(column_color(hit));
        vline(fb, x as i32, mid - half, mid + half);
        x += 1;
    }
}

} // verus!
