//! Tests for the fixed-point geometry: point arithmetic, nudging and its
//! invertibility, cell quantization, and the input direction vector.

use josengine::input::{direction_from, InputState};
use josengine::shared::{Point, Size, FP_ONE, SQRT_2};

#[test]
fn nudge_then_unnudge_returns_exactly() {
    let p = Point { x: 5 * FP_ONE + 12345, y: -3 * FP_ONE + 7 };
    let dirs = [
        Point::up(),
        Point::down(),
        Point::left(),
        Point::right(),
        Point::up_left(),
        Point::down_right(),
        Point { x: 12345, y: -98765 },
    ];
    let amounts: [i64; 4] = [FP_ONE, 5 * FP_ONE, 327680, 41];
    for d in dirs {
        for a in amounts {
            let there = p.nudge(d, a);
            let back = there.nudge(d, -a);
            assert_eq!(back, p);
        }
    }
}

#[test]
fn nudge_moves_by_scaled_direction() {
    let p = Point::at(10, 10);
    let moved = p.nudge(Point::right(), 5 * FP_ONE);
    assert_eq!(moved, Point::at(15, 10));
    let diag = p.nudge(Point::down_right(), FP_ONE);
    assert_eq!(diag.x, 10 * FP_ONE + SQRT_2);
    assert_eq!(diag.y, 10 * FP_ONE + SQRT_2);
}

#[test]
fn nudge_self_matches_nudge() {
    let mut p = Point::at(1, 2);
    let q = p.nudge(Point::down(), FP_ONE);
    p.nudge_self(Point::down(), FP_ONE);
    assert_eq!(p, q);
}

#[test]
fn point_arithmetic() {
    let a = Point::at(3, 4);
    let b = Point::at(1, -2);
    assert_eq!(a.plus(b), Point::at(4, 2));
    assert_eq!(a.minus(b), Point::at(2, 6));
    assert_eq!(a.times(Point::at(2, 3)), Point::at(6, 12));
    assert_eq!(a.scaled(2 * FP_ONE), Point::at(6, 8));
    let half = Point { x: FP_ONE / 2, y: FP_ONE / 2 };
    assert_eq!(Point::at(8, 8).times(half), Point::at(4, 4));
}

#[test]
fn point_division_truncates_toward_zero() {
    assert_eq!(Point::at(8, 8).div(Point::at(2, 4)), Point::at(4, 2));
    let r = Point::at(-5, 5).div(Point::at(2, 2));
    assert_eq!(r, Point { x: -163840, y: 163840 });
    let third = Point::at(1, 1).div(Point::at(3, 3));
    assert_eq!(third, Point { x: 21845, y: 21845 });
}

#[test]
fn cell_quantization_truncates_toward_zero() {
    assert_eq!(Point { x: FP_ONE + 1, y: 0 }.cell_x(), 1);
    assert_eq!(Point { x: -1, y: 0 }.cell_x(), 0);
    assert_eq!(Point { x: -FP_ONE - 1, y: 0 }.cell_x(), -1);
    assert_eq!(Point { x: 0, y: 3 * FP_ONE + 65535 }.cell_y(), 3);
}

#[test]
fn size_basics() {
    let s = Size::is(12, 5);
    assert_eq!(s.pixels(), 60);
    assert!(Size::is(3, 4).fits_within(&s));
    assert!(Size::is(13, 1).fits_within(&s) == false);
    assert!(Size::is(12, 5).fits_within(&s));
    assert!(Size::is(1, 1000).fits_within(&s) == false);
    let mut t = s;
    t.change(2, 2);
    assert_eq!(t, Size::is(2, 2));
}

#[test]
fn direction_vectors() {
    assert_eq!(direction_from(true, false, false, false), Point { x: 0, y: -FP_ONE });
    assert_eq!(direction_from(false, true, false, false), Point { x: 0, y: FP_ONE });
    assert_eq!(direction_from(false, false, true, false), Point { x: -FP_ONE, y: 0 });
    assert_eq!(direction_from(false, false, false, true), Point { x: FP_ONE, y: 0 });
    assert_eq!(direction_from(true, false, false, true), Point { x: SQRT_2, y: -SQRT_2 });
    // conflicting or absent input gives the zero vector
    assert_eq!(direction_from(true, true, false, false), Point { x: 0, y: 0 });
    assert_eq!(direction_from(false, false, false, false), Point { x: 0, y: 0 });
}

#[test]
fn input_state_carries_direction() {
    let s = InputState::new(false, true, true, false, false, false, false, false, false, false);
    assert_eq!(s.direction, Point { x: -SQRT_2, y: SQRT_2 });
    let idle = InputState::none();
    assert_eq!(idle.direction, Point { x: 0, y: 0 });
    assert!(!idle.start && !idle.select);
}
