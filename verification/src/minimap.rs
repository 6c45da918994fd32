//! The overhead map: the maze seen from above, with the player marked on it.

use vstd::prelude::*;
use crate::framebuffer::{Color, Framebuffer, MAX_SIDE};
use crate::geometry::{toward_zero, Direction, Point, SCALE};
use crate::maze::{dims, grid, height, is_wall, rectangular, spec_is_wall, width, Maze};

verus! {

/// The side of a cell on the map, in pixels.
pub const MAP_SCALE: i128 = 4;

/// The distance of the map from the left and from the top of the buffer, in
/// pixels.
pub const MAP_MARGIN: i128 = 8;

/// The length of the mark that shows the heading, in pixels.
pub const HEADING_LENGTH: i128 = 6;

/// The colour of open cells on the map.
pub open spec fn spec_map_ground_color() -> Color {
    Color { r: 230, g: 220, b: 230, a: 255 }
}

/// The colour of open cells on the map.
#[verifier::when_used_as_spec(spec_map_ground_color)]
pub fn map_ground_color() -> (c: Color)
    ensures
        c == spec_map_ground_color(),
{
    Color::new(230, 220, 230, 255)
}

/// The colour of walls on the map.
pub open spec fn spec_map_wall_color() -> Color {
    Color { r: 80, g: 80, b: 120, a: 255 }
}

/// The colour of walls on the map.
#[verifier::when_used_as_spec(spec_map_wall_color)]
pub fn map_wall_color() -> (c: Color)
    ensures
        c == spec_map_wall_color(),
{
    Color::new(80, 80, 120, 255)
}

/// The colour of the player's marker: pure red.
pub open spec fn spec_marker_color() -> Color {
    Color { r: 255, g: 0, b: 0, a: 255 }
}

/// The colour of the player's marker.
#[verifier::when_used_as_spec(spec_marker_color)]
pub fn marker_color() -> (c: Color)
    ensures
        c == spec_marker_color(),
{
    Color::new(255, 0, 0, 255)
}

/// Whether the pixel `(x, y)` lies on the map of the maze.
pub open spec fn on_map(g: Seq<Seq<char>>, x: int, y: int) -> bool {
    &&& MAP_MARGIN <= x < MAP_MARGIN + MAP_SCALE * width(g)
    &&& MAP_MARGIN <= y < MAP_MARGIN + MAP_SCALE * height(g)
}

/// The colour on the map of the pixel `(x, y)`, which shows the cell in
/// column `(x - MAP_MARGIN) / MAP_SCALE` of row `(y - MAP_MARGIN) / MAP_SCALE`.
pub open spec fn map_pixel(g: Seq<Seq<char>>, x: int, y: int) -> Color {
    let row = (y - MAP_MARGIN) / (MAP_SCALE as int);
    let col = (x - MAP_MARGIN) / (MAP_SCALE as int);
    if spec_is_wall(g[row][col]) {
        map_wall_color()
    } else {
        map_ground_color()
    }
}

/// Where a coordinate falls on the map, along one axis.
pub open spec fn marker_at(p: int) -> int {
    toward_zero(p * MAP_SCALE, SCALE as int) + MAP_MARGIN
}

/// How far from the marker the heading mark lies, along one axis.
pub open spec fn heading_offset(d: int) -> int {
    toward_zero(d * HEADING_LENGTH, SCALE as int)
}

/// Whether the pixel `(x, y)` belongs to the player's marker: the pixel where
/// the player stands, the one to its right, the one below it, and the heading
/// mark.
pub open spec fn on_marker(origin: Point, dir: Direction, x: int, y: int) -> bool {
    let px = marker_at(origin.x as int);
    let py = marker_at(origin.y as int);
    ||| (x == px && y == py)
    ||| (x == px + 1 && y == py)
    ||| (x == px && y == py + 1)
    ||| (x == px + heading_offset(dir.dx as int) && y == py + heading_offset(dir.dy as int))
}

/// The colour of the pixel `(x, y)` once the map is drawn over a pixel of
/// colour `under`.
pub open spec fn minimap_pixel(
    g: Seq<Seq<char>>,
    origin: Point,
    dir: Direction,
    under: Color,
    x: int,
    y: int,
) -> Color {
    if on_marker(origin, dir, x, y) {
        marker_color()
    } else if on_map(g, x, y) {
        map_pixel(g, x, y)
    } else {
        under
    }
}

/// Paints the current colour on the pixel `(x, y)`, if the buffer has it.
fn plot(fb: &mut Framebuffer, x: i128, y: i128)
    requires
        x < 0x1_0000_0000_0000_0000_0000,
        y < 0x1_0000_0000_0000_0000_0000,
    ensures
        final(fb).spec_background_color() == old(fb).spec_background_color(),
        final(fb).spec_current_color() == old(fb).spec_current_color(),
        final(fb).spec_width() == old(fb).spec_width(),
        final(fb).spec_height() == old(fb).spec_height(),
        forall|i: int, j: int|
            old(fb).holds(i, j) ==> #[trigger] final(fb).pixel(i, j) == (if i == x && j == y {
                old(fb).spec_current_color()
            } else {
                old(fb).pixel(i, j)
            }),
{
    fb.fill_rect(x, y, x + 1, y + 1);
}

/// Draws the map of the maze over the buffer, and on it the player at
/// `origin` looking in the direction `dir`.
///
/// Each cell shows as a square of `MAP_SCALE` pixels, walls in one colour and
/// all other cells in another. Pixels outside the map and the marker stay as
/// they are. The current colour is left at the marker's.
pub fn render_minimap(fb: &mut Framebuffer, maze: &Maze, origin: Point, dir: Direction)
    requires
        rectangular(grid(maze)),
    ensures
        final(fb).spec_width() == old(fb).spec_width(),
        final(fb).spec_height() == old(fb).spec_height(),
        final(fb).spec_background_color() == old(fb).spec_background_color(),
        final(fb).spec_current_color() == marker_color(),
        forall|x: int, y: int|
            old(fb).holds(x, y) ==> #[trigger] final(fb).pixel(x, y) == minimap_pixel(
                grid(maze),
                origin,
                dir,
                old(fb).pixel(x, y),
                x,
                y,
            ),
{
    let ghost g = grid(maze);
    let (mw, mh) = dims(maze);
    let w = fb.width() as i128;
    let h = fb.height() as i128;
    let right = if MAP_MARGIN + MAP_SCALE * (mw as i128) < w {
        MAP_MARGIN + MAP_SCALE * (mw as i128)
    } else {
        w
    };
    let bottom = if MAP_MARGIN + MAP_SCALE * (mh as i128) < h {
        MAP_MARGIN + MAP_SCALE * (mh as i128)
    } else {
        h
    };
    let mut y: i128 = MAP_MARGIN;
    while y < bottom
        invariant
            MAP_MARGIN <= y,
            y <= bottom || bottom < MAP_MARGIN,
            bottom <= h <= MAX_SIDE,
            bottom <= MAP_MARGIN + MAP_SCALE * mh,
            right <= w <= MAX_SIDE,
            right <= MAP_MARGIN + MAP_SCALE * mw,
            right == w || right == MAP_MARGIN + MAP_SCALE * mw,
            bottom == h || bottom == MAP_MARGIN + MAP_SCALE * mh,
            g == grid(maze),
            rectangular(g),
            mw == width(g),
            mh == height(g),
            w == fb.spec_width(),
            h == fb.spec_height(),
            fb.spec_width() == old(fb).spec_width(),
            fb.spec_height() == old(fb).spec_height(),
            fb.spec_background_color() == old(fb).spec_background_color(),
            forall|i: int, j: int|
                old(fb).holds(i, j) ==> #[trigger] fb.pixel(i, j) == (if on_map(g, i, j) && j < y {
                    map_pixel(g, i, j)
                } else {
                    old(fb).pixel(i, j)
                }),
        decreases bottom - y,
    {
        let row = &maze[((y - MAP_MARGIN) / MAP_SCALE) as usize];
        let mut x: i128 = MAP_MARGIN;
        while x < right
            invariant
                MAP_MARGIN <= x,
                x <= right || right < MAP_MARGIN,
                MAP_MARGIN <= y < bottom <= h <= MAX_SIDE,
                bottom <= MAP_MARGIN + MAP_SCALE * mh,
                right <= w <= MAX_SIDE,
                right <= MAP_MARGIN + MAP_SCALE * mw,
                right == w || right == MAP_MARGIN + MAP_SCALE * mw,
                g == grid(maze),
                rectangular(g),
                mw == width(g),
                mh == height(g),
                row@ == g[(y - MAP_MARGIN) / (MAP_SCALE as int)],
                w == fb.spec_width(),
                h == fb.spec_height(),
                fb.spec_width() == old(fb).spec_width(),
                fb.spec_height() == old(fb).spec_height(),
                fb.spec_background_color() == old(fb).spec_background_color(),
                forall|i: int, j: int|
                    old(fb).holds(i, j) ==> #[trigger] fb.pixel(i, j) == (if on_map(g, i, j) && (j
                        < y || (j == y && i < x)) {
                        map_pixel(g, i, j)
                    } else {
                        old(fb).pixel(i, j)
                    }),
            decreases right - x,
        {
            let c = row[((x - MAP_MARGIN) / MAP_SCALE) as usize];
            if is_wall(c) {
                fb.set_current_color(map_wall_color());
            } else {
                fb.set_current_color(map_ground_color());
            }
            fb.set_pixel(x as i32, y as i32);
            x += 1;
        }
        y += 1;
    }
    let px: i128 = (origin.x as i128) * MAP_SCALE / (SCALE as i128) + MAP_MARGIN;
    let py: i128 = (origin.y as i128) * MAP_SCALE / (SCALE as i128) + MAP_MARGIN;
    let hx: i128 = (dir.dx as i128) * HEADING_LENGTH / (SCALE as i128);
    let hy: i128 = (dir.dy as i128) * HEADING_LENGTH / (SCALE as i128);
    fb.set_current_color(marker_color());
    plot(fb, px, py);
    plot(fb, px + 1, py);
    plot(fb, px, py + 1);
    plot(fb, px + hx, py + hy);
}

} // verus!
