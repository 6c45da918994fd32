use raycaster::geometry::{Direction, Point};
use raycaster::maze::Maze;
use raycaster::player::{try_move, InputState, Player, EDGE, PACE, SIXTH_TURN, TURN_STEP};

const IDLE: InputState = InputState {
    move_forward: false,
    move_back: false,
    strafe_left: false,
    strafe_right: false,
    turn_left: false,
    turn_right: false,
};

fn rows(lines: &[&str]) -> Maze {
    lines.iter().map(|l| l.chars().collect()).collect()
}

fn after(maze: &Maze, from: (i64, i64), by: (i64, i64)) -> (i64, i64) {
    let mut pos = Point { x: from.0, y: from.1 };
    try_move(&mut pos, by.0, by.1, maze);
    (pos.x, pos.y)
}

#[test]
fn player_measures() {
    assert_eq!((PACE, EDGE, SIXTH_TURN, TURN_STEP), (50_000, 100, 1_047_198, 40_000));
}

#[test]
fn new_player_looks_and_sees_a_sixth_of_a_turn() {
    let pos = Point { x: 1_500_000, y: 2_500_000 };
    let p = Player::new(pos);
    assert_eq!(p, Player { pos, ang: 1_047_198, fov: 1_047_198 });
}

#[test]
fn turning_changes_the_heading_by_a_step() {
    let start = Player::new(Point { x: 0, y: 0 });
    let mut p = start;
    p.turn(&InputState { turn_left: true, ..IDLE });
    assert_eq!(p, Player { ang: 1_007_198, ..start });
    let mut p = start;
    p.turn(&InputState { turn_right: true, ..IDLE });
    assert_eq!(p, Player { ang: 1_087_198, ..start });
    let mut p = start;
    p.turn(&InputState { turn_left: true, turn_right: true, ..IDLE });
    assert_eq!(p, start);
    let mut p = start;
    p.turn(&InputState { move_forward: true, strafe_left: true, ..IDLE });
    assert_eq!(p, start);
}

#[test]
fn turning_wraps_around_a_full_turn() {
    let mut p = Player { pos: Point { x: 5, y: 6 }, ang: 10_000, fov: 77 };
    p.turn(&InputState { turn_left: true, ..IDLE });
    assert_eq!(p, Player { pos: Point { x: 5, y: 6 }, ang: 6_253_185, fov: 77 });
    p.turn(&InputState { turn_right: true, ..IDLE });
    assert_eq!(p.ang, 10_000);
    p.ang = 6_283_184;
    p.turn(&InputState { turn_right: true, ..IDLE });
    assert_eq!(p.ang, 39_999);
    p.ang = i64::MAX;
    p.turn(&InputState { turn_right: true, ..IDLE });
    assert_eq!(p.ang, ((i64::MAX as i128 + 40_000) % 6_283_185) as i64);
    p.ang = i64::MIN;
    p.turn(&IDLE);
    assert_eq!(p.ang, (i64::MIN as i128).rem_euclid(6_283_185) as i64);
}

#[test]
fn ray_angles_divide_the_field_of_view() {
    let p = Player::new(Point { x: 0, y: 0 });
    assert_eq!(p.ray_angle(0, 320), 523_599);
    assert_eq!(p.ray_angle(160, 320), 1_047_198);
    assert_eq!(p.ray_angle(319, 320), 1_567_524);
    assert_eq!(p.ray_angle(0, 1), 523_599);
    assert_eq!(p.ray_angle(1, 4), 785_398);
    assert_eq!(p.ray_angle(3, 4), 1_308_997);
}

#[test]
fn ray_angles_stay_within_a_full_turn() {
    let p = Player { pos: Point { x: 0, y: 0 }, ang: 100_000, fov: 1_000_000 };
    assert_eq!(p.ray_angle(0, 2), 5_883_185);
    assert_eq!(p.ray_angle(1, 2), 100_000);
    let p = Player { pos: Point { x: 0, y: 0 }, ang: 6_000_000, fov: 2_000_000 };
    assert_eq!(p.ray_angle(3, 4), 216_815);
    let p = Player { pos: Point { x: 0, y: 0 }, ang: i64::MAX, fov: i64::MIN };
    let a = p.ray_angle(u32::MAX - 1, u32::MAX);
    assert!((0..6_283_185).contains(&a));
}

#[test]
fn intents_move_along_and_across_the_heading() {
    let east = Direction { dx: 1_000_000, dy: 0 };
    assert_eq!(IDLE.displacement(east), (0, 0));
    assert_eq!(InputState { move_forward: true, ..IDLE }.displacement(east), (50_000, 0));
    assert_eq!(InputState { move_back: true, ..IDLE }.displacement(east), (-50_000, 0));
    assert_eq!(InputState { strafe_right: true, ..IDLE }.displacement(east), (0, -50_000));
    assert_eq!(InputState { strafe_left: true, ..IDLE }.displacement(east), (0, 50_000));
    let slant = Direction { dx: 500_000, dy: -866_025 };
    assert_eq!(InputState { move_forward: true, ..IDLE }.displacement(slant), (25_000, -43_301));
    assert_eq!(InputState { move_back: true, ..IDLE }.displacement(slant), (-25_000, 43_301));
    assert_eq!(InputState { strafe_right: true, ..IDLE }.displacement(slant), (-43_301, -25_000));
    assert_eq!(InputState { strafe_left: true, ..IDLE }.displacement(slant), (43_301, 25_000));
}

#[test]
fn intents_add_up_and_cancel() {
    let slant = Direction { dx: 500_000, dy: -866_025 };
    let both = InputState { move_forward: true, strafe_left: true, ..IDLE };
    assert_eq!(both.displacement(slant), (68_301, -18_301));
    let stuck = InputState { move_forward: true, move_back: true, ..IDLE };
    assert_eq!(stuck.displacement(slant), (0, 0));
    let all = InputState {
        move_forward: true,
        move_back: true,
        strafe_left: true,
        strafe_right: true,
        turn_left: true,
        turn_right: true,
    };
    assert_eq!(all.displacement(slant), (0, 0));
    let turning = InputState { turn_left: true, ..IDLE };
    assert_eq!(turning.displacement(slant), (0, 0));
    let wide = Direction { dx: i32::MIN, dy: i32::MAX };
    let run = InputState { move_back: true, strafe_right: true, ..IDLE };
    assert_eq!(run.displacement(wide), (107_374_182 + 107_374_182, -107_374_182 + 107_374_182));
}

const ROOMS: [&str; 5] = ["#####", "#...#", "###.#", "#...#", "#####"];

#[test]
fn move_into_an_open_cell_goes_there() {
    let maze = rows(&ROOMS);
    assert_eq!(after(&maze, (1_500_000, 1_500_000), (400_000, 0)), (1_900_000, 1_500_000));
    assert_eq!(after(&maze, (1_500_000, 1_500_000), (600_000, 300_000)), (2_100_000, 1_800_000));
    assert_eq!(after(&maze, (3_200_000, 1_900_000), (100_000, 200_000)), (3_300_000, 2_100_000));
    assert_eq!(after(&maze, (1_500_000, 1_500_000), (0, 0)), (1_500_000, 1_500_000));
}

#[test]
fn move_into_a_wall_slides_along_it() {
    let maze = rows(&ROOMS);
    assert_eq!(after(&maze, (1_900_000, 1_900_000), (200_000, 200_000)), (2_100_000, 1_900_000));
    assert_eq!(after(&maze, (3_900_000, 1_500_000), (200_000, 300_000)), (3_900_000, 1_800_000));
}

#[test]
fn move_slides_down_before_it_slides_sideways() {
    let maze = rows(&["#####", "#...#", "#.#.#", "#...#", "#####"]);
    assert_eq!(after(&maze, (1_900_000, 1_900_000), (200_000, 200_000)), (1_900_000, 2_100_000));
    assert_eq!(after(&maze, (3_100_000, 3_100_000), (-200_000, -200_000)), (3_100_000, 2_900_000));
}

#[test]
fn move_into_a_corner_stays() {
    let maze = rows(&ROOMS);
    assert_eq!(after(&maze, (1_100_000, 1_100_000), (-200_000, -200_000)), (1_100_000, 1_100_000));
    assert_eq!(after(&maze, (1_100_000, 1_100_000), (-200_000, 0)), (1_100_000, 1_100_000));
    assert_eq!(after(&maze, (1_100_000, 1_900_000), (-200_000, 200_000)), (1_100_000, 1_900_000));
}

#[test]
fn move_is_kept_within_the_maze() {
    let open = rows(&["....", "....", "...."]);
    assert_eq!(after(&open, (3_500_000, 2_500_000), (900_000, 900_000)), (3_999_900, 2_999_900));
    assert_eq!(after(&open, (500_000, 500_000), (-900_000, -900_000)), (0, 0));
    assert_eq!(after(&open, (1, 1), (i64::MAX, i64::MIN)), (3_999_900, 0));
    assert_eq!(after(&open, (3_999_999, 2_999_999), (0, 0)), (3_999_900, 2_999_900));
}

#[test]
fn move_from_before_the_maze_counts_as_the_first_cell() {
    let maze = rows(&["..#", "...", "#.."]);
    assert_eq!(after(&maze, (-700_000, 500_000), (3_000_000, 0)), (-700_000, 500_000));
    assert_eq!(after(&maze, (-700_000, 500_000), (3_000_000, 700_000)), (2_300_000, 1_200_000));
    assert_eq!(after(&maze, (500_000, -200_000), (-100_000, 2_500_000)), (400_000, -200_000));
}

#[test]
fn move_from_an_open_cell_ends_in_an_open_cell() {
    let maze = rows(&["#######", "#..#..#", "#.##.1#", "#....2#", "##.#..#", "#######"]);
    let starts = [(1_500_000, 1_500_000), (4_999_999, 3_000_000), (2_000_001, 4_999_999)];
    let strides = [-2_300_000, -1_000_000, -400_000, -1, 0, 1, 350_000, 1_000_000, 7_000_000];
    for start in starts {
        for dx in strides {
            for dy in strides {
                let (x, y) = after(&maze, start, (dx, dy));
                assert!(x >= 0 && y >= 0, "{start:?} by ({dx}, {dy})");
                let cell = maze[(y / 1_000_000) as usize][(x / 1_000_000) as usize];
                assert!(cell == '.', "{start:?} by ({dx}, {dy}) ends at ({x}, {y})");
            }
        }
    }
}
