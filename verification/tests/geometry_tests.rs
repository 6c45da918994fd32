use raycaster::geometry::{
    cell_of, floor_div, scaled, wrap_angle, Point, MAX_CELLS, SCALE, TURN,
};

#[test]
fn scale_is_a_million_units_to_the_cell() {
    assert_eq!(SCALE, 1_000_000);
    assert_eq!(MAX_CELLS, i64::MAX / SCALE);
    assert_eq!(TURN, 6_283_185);
}

#[test]
fn cell_of_rounds_down() {
    assert_eq!(cell_of(0), 0);
    assert_eq!(cell_of(999_999), 0);
    assert_eq!(cell_of(1_000_000), 1);
    assert_eq!(cell_of(1_500_000), 1);
    assert_eq!(cell_of(-1), -1);
    assert_eq!(cell_of(-1_000_000), -1);
    assert_eq!(cell_of(-1_000_001), -2);
    assert_eq!(cell_of(i64::MAX), 9_223_372_036_854);
    assert_eq!(cell_of(i64::MIN), -9_223_372_036_855);
}

#[test]
fn point_cell_is_column_then_row() {
    assert_eq!(Point { x: 3_250_000, y: 7_999_999 }.cell(), (3, 7));
    assert_eq!(Point { x: -250_000, y: 0 }.cell(), (-1, 0));
}

#[test]
fn center_is_the_middle_of_the_cell() {
    assert_eq!(Point::center(0, 0), Point { x: 500_000, y: 500_000 });
    assert_eq!(Point::center(1, 1), Point { x: 1_500_000, y: 1_500_000 });
    assert_eq!(Point::center(12, 3), Point { x: 12_500_000, y: 3_500_000 });
    assert_eq!(Point::center(12, 3).cell(), (12, 3));
}

#[test]
fn floor_div_rounds_down() {
    assert_eq!(floor_div(7, 2), 3);
    assert_eq!(floor_div(-7, 2), -4);
    assert_eq!(floor_div(-8, 2), -4);
    assert_eq!(floor_div(0, 5), 0);
    assert_eq!(floor_div(-1, 640), -1);
    assert_eq!(floor_div(639, 640), 0);
}

#[test]
fn wrap_angle_keeps_within_a_turn() {
    assert_eq!(wrap_angle(0), 0);
    assert_eq!(wrap_angle(6_283_184), 6_283_184);
    assert_eq!(wrap_angle(6_283_185), 0);
    assert_eq!(wrap_angle(6_283_186), 1);
    assert_eq!(wrap_angle(-1), 6_283_184);
    assert_eq!(wrap_angle(-6_283_185), 0);
    assert_eq!(wrap_angle(2 * 6_283_185 + 17), 17);
}

#[test]
fn scaled_counts_cells_in_units() {
    assert_eq!(scaled(0), 0);
    assert_eq!(scaled(3), 3_000_000);
    assert_eq!(scaled(-2), -2_000_000);
    assert_eq!(scaled(1 << 96), (1i128 << 96) * 1_000_000);
}
