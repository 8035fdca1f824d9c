//! The normalized input snapshot the engine consumes each tick: button
//! flags plus an 8-way direction vector derived from them.

use vstd::prelude::*;

use crate::shared::Point;

verus! {

/// Direction vector derived from the four cardinal flags: a unit vector
/// for a single direction, a diagonal of magnitude one for two adjacent
/// directions, and zero for no or conflicting input.
pub open spec fn direction_spec(up: bool, down: bool, left: bool, right: bool) -> Point {
    if up && !down && !left && !right {
        Point { x: 0i64, y: -65536i64 }
    } else if !up && down && !left && !right {
        Point { x: 0i64, y: 65536i64 }
    } else if !up && !down && left && !right {
        Point { x: -65536i64, y: 0i64 }
    } else if !up && !down && !left && right {
        Point { x: 65536i64, y: 0i64 }
    } else if up && !down && left && !right {
        Point { x: -46341i64, y: -46341i64 }
    } else if up && !down && !left && right {
        Point { x: 46341i64, y: -46341i64 }
    } else if !up && down && left && !right {
        Point { x: -46341i64, y: 46341i64 }
    } else if !up && down && !left && right {
        Point { x: 46341i64, y: 46341i64 }
    } else {
        Point { x: 0i64, y: 0i64 }
    }
}

/// Translates the four cardinal flags into the 8-way motion vector.
pub fn direction_from(up: bool, down: bool, left: bool, right: bool) -> (d: Point)
    ensures
        d == direction_spec(up, down, left, right),
{
    match (up, down, left, right) {
        (true, false, false, false) => Point::up(),
        (false, true, false, false) => Point::down(),
        (false, false, true, false) => Point::left(),
        (false, false, false, true) => Point::right(),
        (true, false, true, false) => Point::up_left(),
        (true, false, false, true) => Point::up_right(),
        (false, true, true, false) => Point::down_left(),
        (false, true, false, true) => Point::down_right(),
        _ => Point::zero(),
    }
}

/// One tick's snapshot of the input devices, read-only to the engine.
#[derive(Clone, Copy, Debug)]
pub struct InputState {
    pub up: bool,
    pub down: bool,
    pub left: bool,
    pub right: bool,
    pub start: bool,
    pub select: bool,
    pub north: bool,
    pub south: bool,
    pub west: bool,
    pub east: bool,
    pub direction: Point,
}

impl InputState {
    /// Builds a snapshot from the raw button flags, deriving the
    /// normalized direction vector.
    pub fn new(
        up: bool,
        down: bool,
        left: bool,
        right: bool,
        start: bool,
        select: bool,
        north: bool,
        south: bool,
        west: bool,
        east: bool,
    ) -> (s: InputState)
        ensures
            s.up == up,
            s.down == down,
            s.left == left,
            s.right == right,
            s.start == start,
            s.select == select,
            s.north == north,
            s.south == south,
            s.west == west,
            s.east == east,
            s.direction == direction_spec(up, down, left, right),
    {
        InputState {
            up,
            down,
            left,
            right,
            start,
            select,
            north,
            south,
            west,
            east,
            direction: direction_from(up, down, left, right),
        }
    }

    /// The idle snapshot: no buttons held.
    pub fn none() -> (s: InputState)
        ensures
            s == (InputState {
                up: false,
                down: false,
                left: false,
                right: false,
                start: false,
                select: false,
                north: false,
                south: false,
                west: false,
                east: false,
                direction: Point { x: 0i64, y: 0i64 },
            }),
    {
        InputState::new(false, false, false, false, false, false, false, false, false, false)
    }
}

} // verus!
