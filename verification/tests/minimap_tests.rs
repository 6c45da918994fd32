use raycaster::framebuffer::{Color, Framebuffer};
use raycaster::geometry::{Direction, Point};
use raycaster::maze::Maze;
use raycaster::minimap::{render_minimap, HEADING_LENGTH, MAP_MARGIN, MAP_SCALE};

const GROUND: Color = Color { r: 230, g: 220, b: 230, a: 255 };
const WALL: Color = Color { r: 80, g: 80, b: 120, a: 255 };
const RED: Color = Color { r: 255, g: 0, b: 0, a: 255 };
const BLACK: Color = Color { r: 0, g: 0, b: 0, a: 255 };
const WHITE: Color = Color { r: 255, g: 255, b: 255, a: 255 };

fn rows(lines: &[&str]) -> Maze {
    lines.iter().map(|l| l.chars().collect()).collect()
}

#[test]
fn map_measures() {
    assert_eq!((MAP_SCALE, MAP_MARGIN, HEADING_LENGTH), (4, 8, 6));
}

#[test]
fn map_shows_cells_as_squares_and_marks_the_player() {
    let maze = rows(&["###", "#.#", "###"]);
    let mut fb = Framebuffer::new(32, 24);
    fb.set_background_color(WHITE);
    let origin = Point { x: 1_500_000, y: 1_500_000 };
    render_minimap(&mut fb, &maze, origin, Direction { dx: 1_000_000, dy: 0 });
    for y in 0..24u32 {
        for x in 0..32u32 {
            let marker = matches!((x, y), (14, 14) | (15, 14) | (14, 15) | (20, 14));
            let on_map = (8..20).contains(&x) && (8..20).contains(&y);
            let open = (12..16).contains(&x) && (12..16).contains(&y);
            let expected = if marker {
                RED
            } else if open {
                GROUND
            } else if on_map {
                WALL
            } else {
                BLACK
            };
            assert_eq!(fb.get_pixel(x, y), Some(expected), "({x}, {y})");
        }
    }
    assert_eq!(fb.current_color(), RED);
    assert_eq!(fb.background_color(), WHITE);
}

#[test]
fn map_shows_every_wall_symbol_as_a_wall() {
    let maze = rows(&["1234", "+-|=", ".pg ", "x#.."]);
    let mut fb = Framebuffer::new(40, 40);
    let origin = Point { x: 7_000_000, y: 7_000_000 };
    render_minimap(&mut fb, &maze, origin, Direction { dx: 0, dy: 0 });
    for cy in 0..4u32 {
        for cx in 0..4u32 {
            let wall = cy < 2 || (cy == 3 && cx == 1);
            for y in 0..4 {
                for x in 0..4 {
                    let at = fb.get_pixel(8 + 4 * cx + x, 8 + 4 * cy + y);
                    assert_eq!(at, Some(if wall { WALL } else { GROUND }), "cell ({cx}, {cy})");
                }
            }
        }
    }
    assert_eq!(fb.get_pixel(36, 36), Some(RED));
    assert_eq!(fb.get_pixel(37, 36), Some(RED));
    assert_eq!(fb.get_pixel(36, 37), Some(RED));
    assert_eq!(fb.get_pixel(37, 37), Some(BLACK));
    assert_eq!(fb.get_pixel(7, 7), Some(BLACK));
    assert_eq!(fb.get_pixel(24, 8), Some(BLACK));
}

#[test]
fn map_heading_mark_lies_six_pixels_along_the_direction() {
    let maze = rows(&["####", "#..#", "#..#", "####"]);
    let origin = Point { x: 2_000_000, y: 2_250_000 };
    let looks = [
        (Direction { dx: 0, dy: 1_000_000 }, (16, 23)),
        (Direction { dx: -1_000_000, dy: 0 }, (10, 17)),
        (Direction { dx: 0, dy: -1_000_000 }, (16, 11)),
        (Direction { dx: 707_106, dy: 707_106 }, (20, 21)),
        (Direction { dx: -866_025, dy: -499_999 }, (11, 15)),
        (Direction { dx: 166_666, dy: -166_667 }, (16, 16)),
    ];
    for (dir, mark) in looks {
        let mut fb = Framebuffer::new(30, 30);
        render_minimap(&mut fb, &maze, origin, dir);
        let mut red = Vec::new();
        for y in 0..30u32 {
            for x in 0..30u32 {
                if fb.get_pixel(x, y) == Some(RED) {
                    red.push((x, y));
                }
            }
        }
        let mut expected = vec![(16, 17), (17, 17), (16, 18), mark];
        expected.sort_by_key(|&(x, y)| (y, x));
        expected.dedup();
        assert_eq!(red, expected, "{dir:?}");
    }
}

#[test]
fn map_is_cut_off_at_the_edge_of_the_buffer() {
    let maze = rows(&["#.#.#.#.", ".#.#.#.#", "#.#.#.#.", ".#.#.#.#"]);
    let mut fb = Framebuffer::new(18, 13);
    let origin = Point { x: 100_000_000, y: -900_000_000 };
    render_minimap(&mut fb, &maze, origin, Direction { dx: 1_000_000, dy: 0 });
    for y in 0..13u32 {
        for x in 0..18u32 {
            let expected = if x < 8 || y < 8 {
                BLACK
            } else if ((x - 8) / 4 + (y - 8) / 4) % 2 == 0 {
                WALL
            } else {
                GROUND
            };
            assert_eq!(fb.get_pixel(x, y), Some(expected), "({x}, {y})");
        }
    }
}

#[test]
fn map_on_a_small_buffer_is_only_the_marker() {
    let maze = rows(&["###", "#.#", "###"]);
    let mut fb = Framebuffer::new(8, 8);
    render_minimap(
        &mut fb,
        &maze,
        Point { x: -1_900_000, y: -1_000_000 },
        Direction { dx: 999_999, dy: 1_000_000 },
    );
    for y in 0..8u32 {
        for x in 0..8u32 {
            let marker = matches!((x, y), (1, 4) | (2, 4) | (1, 5) | (6, 10));
            assert_eq!(fb.get_pixel(x, y), Some(if marker { RED } else { BLACK }), "({x}, {y})");
        }
    }
    assert_eq!(fb.current_color(), RED);
}

#[test]
fn map_of_a_maze_without_cells_is_only_the_marker() {
    let maze: Maze = Vec::new();
    let mut fb = Framebuffer::new(16, 16);
    render_minimap(&mut fb, &maze, Point { x: 0, y: 0 }, Direction { dx: 0, dy: 0 });
    for y in 0..16u32 {
        for x in 0..16u32 {
            let marker = matches!((x, y), (8, 8) | (9, 8) | (8, 9));
            assert_eq!(fb.get_pixel(x, y), Some(if marker { RED } else { BLACK }), "({x}, {y})");
        }
    }
}
