//! Grid cells and directions of travel.
//!
//! A cell is a pair of `u16` coordinates. A direction maps to a unit delta on
//! one axis; stepping saturates at the numeric bounds of `u16`, so a step off
//! the number line lands on a boundary value that the area check then kills.

use vstd::prelude::*;

verus! {

/// A direction of travel on the grid, one unit step per tick.
#[derive(Clone, Copy, Debug, PartialEq, Eq, Structural)]
pub enum Direction {
    UP,
    DOWN,
    LEFT,
    RIGHT,
}

/// The cell one step from `point` in `direction`, saturating at the `u16`
/// bounds instead of wrapping.
pub open spec fn next_point_spec(point: (u16, u16), direction: Direction) -> (u16, u16) {
    match direction {
        Direction::RIGHT => (sat_add(point.0), point.1),
        Direction::LEFT => (sat_sub(point.0), point.1),
        Direction::DOWN => (point.0, sat_add(point.1)),
        Direction::UP => (point.0, sat_sub(point.1)),
    }
}

/// One more, capped at `u16::MAX`.
pub open spec fn sat_add(a: u16) -> u16 {
    if a == u16::MAX {
        u16::MAX
    } else {
        (a + 1) as u16
    }
}

/// One less, floored at zero.
pub open spec fn sat_sub(a: u16) -> u16 {
    if a == 0 {
        0u16
    } else {
        (a - 1) as u16
    }
}

/// Computes the candidate next head cell from the current head and the
/// current direction, saturating so that coordinates never wrap.
pub fn get_next_point(point: &(u16, u16), direction: &Direction) -> (r: (u16, u16))
    ensures
        r == next_point_spec(*point, *direction),
{
    match direction {
        Direction::RIGHT => (point.0.saturating_add(1), point.1),
        Direction::LEFT => (point.0.saturating_sub(1), point.1),
        Direction::DOWN => (point.0, point.1.saturating_add(1)),
        Direction::UP => (point.0, point.1.saturating_sub(1)),
    }
}

/// The cell reached from `point` after stepping once for each direction in
/// `dirs`, in order.
pub open spec fn advance_n(point: (u16, u16), dirs: Seq<Direction>) -> (u16, u16)
    decreases dirs.len(),
{
    if dirs.len() == 0 {
        point
    } else {
        advance_n(next_point_spec(point, dirs[0]), dirs.skip(1))
    }
}

} // verus!
