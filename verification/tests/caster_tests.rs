use raycaster::caster::{cast_ray, Hit, FAR};
use raycaster::geometry::{Direction, Point};
use raycaster::maze::{dims, find_player, is_wall, load_maze, Maze};

fn rows(lines: &[&str]) -> Maze {
    lines.iter().map(|l| l.chars().collect()).collect()
}

fn heading(angle: f64) -> Direction {
    Direction { dx: (angle.cos() * 1e6) as i32, dy: (angle.sin() * 1e6) as i32 }
}

const MIDDLE: Point = Point { x: 1_500_000, y: 1_500_000 };

#[test]
fn ray_along_x_from_the_spawn_hits_the_wall_half_a_cell_away() {
    let maze = load_maze("###\n#p#\n###");
    let origin = find_player(&maze);
    assert_eq!(origin, MIDDLE);
    let hit = cast_ray(&maze, origin, Direction { dx: 1_000_000, dy: 0 });
    assert_eq!(hit, Hit { dist: 500_000, cell: '#', side: 0 });
}

#[test]
fn rays_along_the_axes_divide_by_the_full_component() {
    let maze = rows(&["#1#", "4.2", "#3#"]);
    let east = cast_ray(&maze, MIDDLE, heading(0.0));
    let south = cast_ray(&maze, MIDDLE, heading(std::f64::consts::FRAC_PI_2));
    let west = cast_ray(&maze, MIDDLE, heading(std::f64::consts::PI));
    let north = cast_ray(&maze, MIDDLE, heading(3.0 * std::f64::consts::FRAC_PI_2));
    assert_eq!(east, Hit { dist: 500_000, cell: '2', side: 0 });
    assert_eq!(south, Hit { dist: 500_000, cell: '3', side: 1 });
    assert_eq!(west, Hit { dist: 500_000, cell: '4', side: 0 });
    assert_eq!(north, Hit { dist: 500_000, cell: '1', side: 1 });
}

#[test]
fn ray_off_the_middle_measures_to_the_near_edge() {
    let maze = rows(&["###", "#.#", "###"]);
    let origin = Point { x: 1_250_000, y: 1_900_000 };
    assert_eq!(
        cast_ray(&maze, origin, Direction { dx: 1_000_000, dy: 0 }),
        Hit { dist: 750_000, cell: '#', side: 0 }
    );
    assert_eq!(
        cast_ray(&maze, origin, Direction { dx: -1_000_000, dy: 0 }),
        Hit { dist: 250_000, cell: '#', side: 0 }
    );
    assert_eq!(
        cast_ray(&maze, origin, Direction { dx: 0, dy: 1_000_000 }),
        Hit { dist: 100_000, cell: '#', side: 1 }
    );
    assert_eq!(
        cast_ray(&maze, origin, Direction { dx: 0, dy: -1_000_000 }),
        Hit { dist: 900_000, cell: '#', side: 1 }
    );
}

#[test]
fn ray_crosses_open_cells_until_a_wall() {
    let maze = rows(&["#######", "#p....#", "#######"]);
    let hit = cast_ray(&maze, MIDDLE, Direction { dx: 1_000_000, dy: 0 });
    assert_eq!(hit, Hit { dist: 4_500_000, cell: '#', side: 0 });
}

#[test]
fn ray_passes_the_markers() {
    let maze = rows(&["######", "#.pg.1", "######"]);
    let hit = cast_ray(&maze, MIDDLE, Direction { dx: 1_000_000, dy: 0 });
    assert_eq!(hit, Hit { dist: 3_500_000, cell: '1', side: 0 });
}

#[test]
fn ray_on_the_diagonal_crosses_the_horizontal_line_first() {
    let maze = rows(&["###", "#.#", "###"]);
    let hit = cast_ray(&maze, MIDDLE, Direction { dx: 707_106, dy: 707_106 });
    assert_eq!(hit, Hit { dist: 707_107, cell: '#', side: 1 });
    let hit = cast_ray(&maze, MIDDLE, Direction { dx: -707_106, dy: -707_106 });
    assert_eq!(hit, Hit { dist: 707_107, cell: '#', side: 1 });
}

#[test]
fn ray_steps_along_both_axes() {
    let maze = rows(&["#####", "#p..#", "#..2#", "#####"]);
    let hit = cast_ray(&maze, MIDDLE, Direction { dx: 894_427, dy: 447_213 });
    assert_eq!(hit, Hit { dist: 1_677_051, cell: '2', side: 0 });
}

#[test]
fn ray_that_leaves_the_maze_reports_a_far_wall() {
    let maze = rows(&["..", ".."]);
    let origin = Point { x: 500_000, y: 500_000 };
    assert_eq!(FAR, 1_000_000_000_000);
    assert_eq!(
        cast_ray(&maze, origin, Direction { dx: 1_000_000, dy: 0 }),
        Hit { dist: FAR, cell: '#', side: 0 }
    );
    assert_eq!(
        cast_ray(&maze, origin, Direction { dx: 0, dy: -1_000_000 }),
        Hit { dist: FAR, cell: '#', side: 1 }
    );
}

#[test]
fn ray_in_a_maze_without_cells_leaves_at_once() {
    let maze: Maze = Vec::new();
    assert_eq!(
        cast_ray(&maze, MIDDLE, Direction { dx: 1_000_000, dy: 0 }),
        Hit { dist: FAR, cell: '#', side: 0 }
    );
}

#[test]
fn ray_from_outside_comes_into_the_maze() {
    let maze = rows(&[".#"]);
    let origin = Point { x: -500_000, y: 500_000 };
    assert_eq!(
        cast_ray(&maze, origin, Direction { dx: 1_000_000, dy: 0 }),
        Hit { dist: 1_500_000, cell: '#', side: 0 }
    );
    let origin = Point { x: -1_500_000, y: 500_000 };
    assert_eq!(
        cast_ray(&maze, origin, Direction { dx: 1_000_000, dy: 0 }),
        Hit { dist: FAR, cell: '#', side: 0 }
    );
}

#[test]
fn ray_is_not_stopped_by_the_cell_it_starts_in() {
    let maze = rows(&["###", "#.#", "###"]);
    let origin = Point { x: 500_000, y: 1_500_000 };
    assert_eq!(
        cast_ray(&maze, origin, Direction { dx: 1_000_000, dy: 0 }),
        Hit { dist: 1_500_000, cell: '#', side: 0 }
    );
}

#[test]
fn ray_without_a_direction_goes_down() {
    let maze = rows(&["###", "#.#", "#2#"]);
    let hit = cast_ray(&maze, MIDDLE, Direction { dx: 0, dy: 0 });
    assert_eq!(hit, Hit { dist: 500_000_000_000, cell: '2', side: 1 });
}

#[test]
fn ray_with_a_small_component_divides_by_it() {
    let maze = rows(&["###", "#.#", "###"]);
    assert_eq!(
        cast_ray(&maze, MIDDLE, Direction { dx: 1, dy: 0 }),
        Hit { dist: 500_000_000_000, cell: '#', side: 0 }
    );
    assert_eq!(
        cast_ray(&maze, MIDDLE, Direction { dx: 1, dy: 1_000_000 }),
        Hit { dist: 500_000, cell: '#', side: 1 }
    );
    assert_eq!(
        cast_ray(&maze, MIDDLE, Direction { dx: -1_000_000, dy: -1 }),
        Hit { dist: 500_000, cell: '#', side: 0 }
    );
}

#[test]
fn ray_with_the_largest_components_is_exact() {
    let maze = rows(&["###", "#.#", "###"]);
    let hit = cast_ray(&maze, MIDDLE, Direction { dx: i32::MIN, dy: i32::MAX });
    assert_eq!(hit, Hit { dist: 232, cell: '#', side: 0 });
}

const HALLS: &str = "\
################
#p.....#.......#
#..11..#..3333.#
#..1...........#
#......2...4...#
###..........4.#
#....22....4...#
#..............#
################";

#[test]
fn rays_in_every_direction_stop_at_a_wall() {
    let maze = load_maze(HALLS);
    let (w, h) = dims(&maze);
    let reach = ((w + h) as u128) * 1_000_000;
    let origins = [
        find_player(&maze),
        Point { x: 8_250_000, y: 4_750_000 },
        Point { x: 14_999_999, y: 7_999_999 },
        Point { x: 5_000_000, y: 3_000_000 },
    ];
    for origin in origins {
        for step in 0..7200 {
            let angle = step as f64 * std::f64::consts::PI / 3600.0;
            let hit = cast_ray(&maze, origin, heading(angle));
            assert!(is_wall(hit.cell), "{origin:?} at {angle}");
            assert!(hit.side == 0 || hit.side == 1);
            assert!(hit.dist < reach, "{origin:?} at {angle}: {hit:?}");
        }
    }
}

/// The same walk in floating point, as a ray caster is commonly written.
fn float_cast(maze: &Maze, ox: f64, oy: f64, angle: f64) -> (f64, char, u8) {
    let (dx, dy) = (angle.cos(), angle.sin());
    let (mut mx, mut my) = (ox.floor() as i64, oy.floor() as i64);
    let delta_x = if dx.abs() < 1e-6 { 1e30 } else { (1.0 / dx).abs() };
    let delta_y = if dy.abs() < 1e-6 { 1e30 } else { (1.0 / dy).abs() };
    let (step_x, mut side_x) = if dx < 0.0 {
        (-1, (ox - mx as f64) * delta_x)
    } else {
        (1, ((mx + 1) as f64 - ox) * delta_x)
    };
    let (step_y, mut side_y) = if dy < 0.0 {
        (-1, (oy - my as f64) * delta_y)
    } else {
        (1, ((my + 1) as f64 - oy) * delta_y)
    };
    loop {
        let side = if side_x < side_y {
            side_x += delta_x;
            mx += step_x;
            0
        } else {
            side_y += delta_y;
            my += step_y;
            1
        };
        if mx < 0 || my < 0 || my >= maze.len() as i64 || mx >= maze[0].len() as i64 {
            return (1.0e6, '#', side);
        }
        let c = maze[my as usize][mx as usize];
        if is_wall(c) {
            let dist = if side == 0 {
                (mx as f64 - ox + (1 - step_x) as f64 * 0.5) / dx
            } else {
                (my as f64 - oy + (1 - step_y) as f64 * 0.5) / dy
            };
            return (dist.abs(), c, side);
        }
    }
}

#[test]
fn rays_agree_with_the_walk_in_floating_point() {
    let maze = load_maze(HALLS);
    let origin = Point { x: 8_250_000, y: 4_750_000 };
    for step in 0..1000 {
        let angle = 0.0031 + step as f64 * 0.00628;
        let hit = cast_ray(&maze, origin, heading(angle));
        let (dist, cell, side) = float_cast(&maze, 8.25, 4.75, angle);
        assert_eq!((hit.cell, hit.side), (cell, side), "at {angle}");
        let fixed = hit.dist as f64 / 1e6;
        assert!((fixed - dist).abs() <= 1e-4 * dist.max(1.0), "at {angle}: {fixed} and {dist}");
    }
}
