//! Fixed-point points and directions on the grid.

use vstd::prelude::*;

verus! {

/// Number of fixed-point units in one grid cell. Coordinates, direction
/// components and distances are integers counted in these units.
pub const SCALE: i64 = 1_000_000;

/// The number of cells along one axis that have coordinates: `i64::MAX / SCALE`.
/// Cells `0` to `MAX_CELLS - 1` lie wholly within the range of `i64`.
pub const MAX_CELLS: i64 = 9_223_372_036_854;

/// A full turn, in millionths of a radian. Angles are integers in this unit
/// and are kept from zero up to, not including, a full turn.
pub const TURN: i64 = 6_283_185;

/// A position on the grid. The cell `(col, row)` covers the coordinates from
/// `col * SCALE` up to, but not including, `(col + 1) * SCALE`, and likewise for
/// rows; `y` grows downwards.
#[derive(Clone, Copy, Debug, PartialEq, Eq, Structural)]
pub struct Point {
    pub x: i64,
    pub y: i64,
}

/// A direction of travel. For a heading of angle `a` it holds `cos a` and
/// `sin a`, each times `SCALE` and cut towards zero, so a component below one
/// millionth is zero.
#[derive(Clone, Copy, Debug, PartialEq, Eq, Structural)]
pub struct Direction {
    pub dx: i32,
    pub dy: i32,
}

/// The magnitude of a number.
pub open spec fn magnitude(v: int) -> int {
    if v < 0 {
        -v
    } else {
        v
    }
}

/// The quotient of `n` by a positive `d`, rounded towards zero.
pub open spec fn toward_zero(n: int, d: int) -> int {
    if n < 0 {
        -((-n) / d)
    } else {
        n / d
    }
}

/// The index of the cell that holds coordinate `p` along one axis.
pub open spec fn cell_index(p: int) -> int {
    p / (SCALE as int)
}

/// The coordinate of the middle of cell `i` along one axis.
pub open spec fn cell_middle(i: int) -> int {
    i * SCALE + SCALE / 2
}

/// An angle brought into the range from zero up to a full turn.
pub open spec fn spec_wrap_angle(a: int) -> int {
    a % (TURN as int)
}

/// A number of cells in fixed-point units: `n` times `SCALE`.
pub fn scaled(n: i128) -> (r: i128)
    requires
        -0x1_0000_0000_0000_0000_0000_0000 <= n <= 0x1_0000_0000_0000_0000_0000_0000,
    ensures
        r == n * SCALE,
{
    assert(-0x1_0000_0000_0000_0000_0000_0000 * SCALE <= n * SCALE
        <= 0x1_0000_0000_0000_0000_0000_0000 * SCALE) by (nonlinear_arith)
        requires
            -0x1_0000_0000_0000_0000_0000_0000 <= n <= 0x1_0000_0000_0000_0000_0000_0000,
            SCALE > 0,
    ;
    n * (SCALE as i128)
}

/// The quotient of `n` by a positive `d`, rounded down.
pub fn floor_div(n: i128, d: i128) -> (q: i128)
    requires
        d > 0,
    ensures
        q == n as int / d as int,
        n >= 0 ==> 0 <= q <= n,
        n < 0 ==> n <= q < 0,
{
    let q: i128 = n / d;
    let r: i128 = n % d;
    proof {
        if n >= 0 {
            assert(q == n as int / d as int);
            assert(r >= 0);
            vstd::arithmetic::div_mod::lemma_div_nonincreasing(n as int, d as int);
            vstd::arithmetic::div_mod::lemma_div_pos_is_pos(n as int, d as int);
        } else {
            let a = (-n) / (d as int);
            let b = (-n) % (d as int);
            vstd::arithmetic::div_mod::lemma_fundamental_div_mod(-n, d as int);
            vstd::arithmetic::div_mod::lemma_mod_pos_bound(-n, d as int);
            assert(q == -a);
            assert(r == -b);
            vstd::arithmetic::div_mod::lemma_div_pos_is_pos(-n, d as int);
            assert(a <= a * d) by (nonlinear_arith)
                requires
                    a >= 0,
                    d >= 1,
            ;
            if b == 0 {
                assert(n == (-a) * d + 0) by (nonlinear_arith)
                    requires
                        -n == d * a + b,
                        b == 0,
                ;
                vstd::arithmetic::div_mod::lemma_fundamental_div_mod_converse(
                    n as int,
                    d as int,
                    -a,
                    0,
                );
            } else {
                assert(n == (-a - 1) * d + (d - b)) by (nonlinear_arith)
                    requires
                        -n == d * a + b,
                ;
                vstd::arithmetic::div_mod::lemma_fundamental_div_mod_converse(
                    n as int,
                    d as int,
                    -a - 1,
                    d - b,
                );
            }
        }
    }
    if r < 0 {
        q - 1
    } else {
        q
    }
}

/// The cell index of a coordinate: the floor of `p / SCALE`, also for negative `p`.
pub fn cell_of(p: i64) -> (i: i64)
    ensures
        i == cell_index(p as int),
        i * SCALE <= p < (i + 1) * SCALE,
{
    let q: i64 = p / SCALE;
    let r: i64 = p % SCALE;
    if r < 0 {
        q - 1
    } else {
        q
    }
}

/// Brings an angle into the range from zero up to a full turn.
pub fn wrap_angle(a: i128) -> (r: i64)
    ensures
        r == spec_wrap_angle(a as int),
        0 <= r < TURN,
{
    let r: i128 = a % (TURN as i128);
    if r < 0 {
        (r + TURN as i128) as i64
    } else {
        r as i64
    }
}

impl Point {
    /// The column and row of the cell that holds this point.
    pub fn cell(&self) -> (c: (i64, i64))
        ensures
            c.0 == cell_index(self.x as int),
            c.1 == cell_index(self.y as int),
    {
        (cell_of(self.x), cell_of(self.y))
    }

    /// The middle of the cell at column `col` and row `row`.
    pub fn center(col: usize, row: usize) -> (p: Point)
        requires
            col < MAX_CELLS,
            row < MAX_CELLS,
        ensures
            p.x == cell_middle(col as int),
            p.y == cell_middle(row as int),
            cell_index(p.x as int) == col,
            cell_index(p.y as int) == row,
    {
        Point { x: col as i64 * SCALE + SCALE / 2, y: row as i64 * SCALE + SCALE / 2 }
    }
}

} // verus!
