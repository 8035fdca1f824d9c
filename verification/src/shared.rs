//! Geometric primitives: sizes in whole pixels and points in Q47.16
//! fixed-point coordinates (16 fractional bits), with the saturating,
//! truncate-toward-zero arithmetic the rest of the engine builds on.

use vstd::prelude::*;

use vstd::arithmetic::div_mod::{lemma_div_is_ordered, lemma_fundamental_div_mod_converse};

verus! {

/// Bytes per pixel of every buffer in the engine (RGBA).
pub const BPP: usize = 4;

/// One whole pixel in fixed-point coordinate units.
pub const FP_ONE: i64 = 65536;

/// 1/sqrt(2) in fixed-point units; the magnitude of each component of a
/// diagonal unit direction.
pub const SQRT_2: i64 = 46341;

/// Largest whole-pixel cell index representable: i64::MAX / FP_ONE.
pub const MAX_CELL: i64 = 140737488355327;

/// Smallest whole-pixel cell index representable: i64::MIN / FP_ONE.
pub const MIN_CELL: i64 = -140737488355328;

/// Clamps a mathematical integer into the i64 range.
pub open spec fn sat64(v: int) -> int {
    if v < i64::MIN as int {
        i64::MIN as int
    } else if v > i64::MAX as int {
        i64::MAX as int
    } else {
        v
    }
}

/// Division truncating toward zero (the sign convention of hardware
/// division), defined for b != 0 via magnitudes.
pub open spec fn trunc_div(a: int, b: int) -> int {
    let q = abs_int(a) / abs_int(b);
    if (a < 0) != (b < 0) {
        -q
    } else {
        q
    }
}

/// Magnitude of a mathematical integer.
pub open spec fn abs_int(v: int) -> int {
    if v < 0 {
        -v
    } else {
        v
    }
}

/// Product of two fixed-point values, rescaled and saturated: the exact
/// model of `Point::scaled` on one coordinate.
pub open spec fn fp_scale(x: int, a: int) -> int {
    sat64(trunc_div(x * a, FP_ONE as int))
}

/// Saturating sum, the model of coordinate addition.
pub open spec fn sat_plus(a: int, b: int) -> int {
    sat64(a + b)
}

/// Saturating difference, the model of coordinate subtraction.
pub open spec fn sat_minus(a: int, b: int) -> int {
    sat64(a - b)
}

/// Whole-pixel cell that a fixed-point coordinate lands in (truncation
/// toward zero).
pub open spec fn cell_coord(v: int) -> int {
    trunc_div(v, FP_ONE as int)
}

/// A value clamped into the closed interval [lo, hi].
pub open spec fn clamp_spec(v: int, lo: int, hi: int) -> int {
    if v < lo {
        lo
    } else if v > hi {
        hi
    } else {
        v
    }
}

/// A rectangular extent in whole pixels.
#[derive(Clone, Copy, Debug, PartialEq, Eq, Structural)]
pub struct Size {
    pub width: usize,
    pub height: usize,
}

impl Size {
    /// Spec-level pixel count.
    pub open spec fn area(self) -> int {
        self.width * self.height
    }

    pub fn is(width: usize, height: usize) -> (s: Size)
        ensures
            s.width == width,
            s.height == height,
    {
        Size { width, height }
    }

    /// Number of pixels covered by this size.
    pub fn pixels(&self) -> (n: usize)
        requires
            self.width * self.height <= usize::MAX,
        ensures
            n == self.area(),
    {
        self.width * self.height
    }

    pub fn change(&mut self, width: usize, height: usize)
        ensures
            final(self).width == width,
            final(self).height == height,
    {
        self.width = width;
        self.height = height;
    }

    /// Spec-level partial order: a size fits inside another when both
    /// dimensions do.
    pub open spec fn fits_spec(self, other: Size) -> bool {
        self.width <= other.width && self.height <= other.height
    }

    /// True when this size fits inside `other` in both dimensions.
    pub fn fits_within(&self, other: &Size) -> (r: bool)
        ensures
            r == self.fits_spec(*other),
    {
        self.width <= other.width && self.height <= other.height
    }
}

/// A position (or direction) in fixed-point display coordinates.
#[derive(Clone, Copy, Debug, PartialEq, Eq, Structural)]
pub struct Point {
    pub x: i64,
    pub y: i64,
}

/// Spec-level saturating vector sum.
pub open spec fn plus_spec(a: Point, b: Point) -> Point {
    Point { x: sat_plus(a.x as int, b.x as int) as i64, y: sat_plus(a.y as int, b.y as int) as i64 }
}

/// Spec-level scaling of a direction by a fixed-point amount.
pub open spec fn scale_spec(d: Point, amount: int) -> Point {
    Point { x: fp_scale(d.x as int, amount) as i64, y: fp_scale(d.y as int, amount) as i64 }
}

/// Spec-level nudge: the point moved by `dir` scaled by `amount`.
pub open spec fn nudge_spec(p: Point, dir: Point, amount: int) -> Point {
    plus_spec(p, scale_spec(dir, amount))
}

/// Spec-level fixed-point quotient of two coordinates: the dividend is
/// rescaled so the result is again fixed-point, then truncated toward
/// zero and saturated.
pub open spec fn fp_div(a: int, b: int) -> int {
    sat64(trunc_div(a * (FP_ONE as int), b))
}

/// Magnitude of an i64 as a u128, total even at i64::MIN.
fn abs_u128(v: i64) -> (r: u128)
    ensures
        r == abs_int(v as int),
{
    if v < 0 {
        (-(v as i128)) as u128
    } else {
        v as u128
    }
}

/// Saturating addition of two coordinates.
fn sat_add_i64(a: i64, b: i64) -> (r: i64)
    ensures
        r == sat_plus(a as int, b as int),
{
    let wide: i128 = a as i128 + b as i128;
    if wide > i64::MAX as i128 {
        i64::MAX
    } else if wide < i64::MIN as i128 {
        i64::MIN
    } else {
        wide as i64
    }
}

/// Fixed-point multiply of two coordinates with truncation toward zero
/// and saturation, computed on magnitudes so the rounding direction is
/// exact.
fn fp_mul(x: i64, a: i64) -> (r: i64)
    ensures
        r == fp_scale(x as int, a as int),
{
    let neg: bool = (x < 0) != (a < 0);
    let mx: u128 = abs_u128(x);
    let ma: u128 = abs_u128(a);
    proof {
        assert(mx * ma <= 0x8000000000000000u128 * 0x8000000000000000u128) by (nonlinear_arith)
            requires
                mx <= 0x8000000000000000u128,
                ma <= 0x8000000000000000u128,
        ;
        assert(abs_int(x as int) * abs_int(a as int) == abs_int((x as int) * (a as int)))
            by (nonlinear_arith);
        assert((x as int) * (a as int) < 0 <==> (((x as int) < 0) != ((a as int) < 0)) && (x as int)
            * (a as int) != 0) by (nonlinear_arith);
    }
    let prod: u128 = mx * ma;
    let q: u128 = prod / 65536;
    if neg {
        if q > 9223372036854775808u128 {
            i64::MIN
        } else if q == 9223372036854775808u128 {
            i64::MIN
        } else {
            -(q as i64)
        }
    } else {
        if q > i64::MAX as u128 {
            i64::MAX
        } else {
            q as i64
        }
    }
}

/// Fixed-point division of two coordinates on magnitudes, truncating
/// toward zero and saturating.
fn fp_div_i64(x: i64, d: i64) -> (r: i64)
    requires
        d != 0,
    ensures
        r == fp_div(x as int, d as int),
{
    let neg: bool = (x < 0) != (d < 0);
    let mx: u128 = abs_u128(x);
    let md: u128 = abs_u128(d);
    proof {
        assert(mx * 65536 <= 0x8000000000000000u128 * 65536) by (nonlinear_arith)
            requires
                mx <= 0x8000000000000000u128,
        ;
        assert(abs_int((x as int) * 65536) == abs_int(x as int) * 65536) by (nonlinear_arith);
        assert((x as int) * 65536 < 0 <==> (x as int) < 0) by (nonlinear_arith);
    }
    let num: u128 = mx * 65536;
    let q: u128 = num / md;
    if neg {
        if q >= 9223372036854775808u128 {
            i64::MIN
        } else {
            -(q as i64)
        }
    } else {
        if q > i64::MAX as u128 {
            i64::MAX
        } else {
            q as i64
        }
    }
}

impl Point {
    /// The point at whole-pixel coordinates (x, y).
    pub fn at(x: i64, y: i64) -> (p: Point)
        requires
            MIN_CELL <= x <= MAX_CELL,
            MIN_CELL <= y <= MAX_CELL,
        ensures
            p.x == x * FP_ONE,
            p.y == y * FP_ONE,
    {
        Point { x: x * FP_ONE, y: y * FP_ONE }
    }

    /// Whole-pixel column this point lands in.
    pub fn cell_x(&self) -> (c: i64)
        ensures
            c == cell_coord(self.x as int),
    {
        let neg: bool = self.x < 0;
        let mag: u128 = abs_u128(self.x);
        let q: u128 = mag / 65536;
        if neg {
            -(q as i64)
        } else {
            q as i64
        }
    }

    /// Whole-pixel row this point lands in.
    pub fn cell_y(&self) -> (c: i64)
        ensures
            c == cell_coord(self.y as int),
    {
        let neg: bool = self.y < 0;
        let mag: u128 = abs_u128(self.y);
        let q: u128 = mag / 65536;
        if neg {
            -(q as i64)
        } else {
            q as i64
        }
    }

    /// Componentwise saturating sum.
    pub fn plus(self, rhs: Point) -> (r: Point)
        ensures
            r == plus_spec(self, rhs),
    {
        Point { x: sat_add_i64(self.x, rhs.x), y: sat_add_i64(self.y, rhs.y) }
    }

    /// Componentwise saturating difference.
    pub fn minus(self, rhs: Point) -> (r: Point)
        ensures
            r.x == sat_minus(self.x as int, rhs.x as int),
            r.y == sat_minus(self.y as int, rhs.y as int),
    {
        let nx: i64 = if rhs.x == i64::MIN {
            sat_add_i64(sat_add_i64(self.x, i64::MAX), 1)
        } else {
            sat_add_i64(self.x, -rhs.x)
        };
        let ny: i64 = if rhs.y == i64::MIN {
            sat_add_i64(sat_add_i64(self.y, i64::MAX), 1)
        } else {
            sat_add_i64(self.y, -rhs.y)
        };
        proof {
            if rhs.x == i64::MIN {
                assert(sat_plus(sat_plus(self.x as int, i64::MAX as int), 1) == sat_minus(
                    self.x as int,
                    rhs.x as int,
                ));
            }
            if rhs.y == i64::MIN {
                assert(sat_plus(sat_plus(self.y as int, i64::MAX as int), 1) == sat_minus(
                    self.y as int,
                    rhs.y as int,
                ));
            }
        }
        Point { x: nx, y: ny }
    }

    /// Sum with a size used as a (width, height) offset vector.
    pub fn plus_size(self, rhs: Size) -> (r: Point)
        requires
            rhs.width * FP_ONE <= i64::MAX,
            rhs.height * FP_ONE <= i64::MAX,
        ensures
            r.x == sat_plus(self.x as int, rhs.width * FP_ONE),
            r.y == sat_plus(self.y as int, rhs.height * FP_ONE),
    {
        Point {
            x: sat_add_i64(self.x, (rhs.width as i64) * FP_ONE),
            y: sat_add_i64(self.y, (rhs.height as i64) * FP_ONE),
        }
    }

    /// Difference with a size used as a (width, height) offset vector.
    pub fn minus_size(self, rhs: Size) -> (r: Point)
        requires
            rhs.width * FP_ONE <= i64::MAX,
            rhs.height * FP_ONE <= i64::MAX,
        ensures
            r.x == sat_minus(self.x as int, rhs.width * FP_ONE),
            r.y == sat_minus(self.y as int, rhs.height * FP_ONE),
    {
        Point {
            x: sat_add_i64(self.x, -((rhs.width as i64) * FP_ONE)),
            y: sat_add_i64(self.y, -((rhs.height as i64) * FP_ONE)),
        }
    }

    /// Componentwise fixed-point product.
    pub fn times(self, rhs: Point) -> (r: Point)
        ensures
            r.x == fp_scale(self.x as int, rhs.x as int),
            r.y == fp_scale(self.y as int, rhs.y as int),
    {
        Point { x: fp_mul(self.x, rhs.x), y: fp_mul(self.y, rhs.y) }
    }

    /// Componentwise fixed-point quotient.
    pub fn div(self, rhs: Point) -> (r: Point)
        requires
            rhs.x != 0,
            rhs.y != 0,
        ensures
            r.x == fp_div(self.x as int, rhs.x as int),
            r.y == fp_div(self.y as int, rhs.y as int),
    {
        Point { x: fp_div_i64(self.x, rhs.x), y: fp_div_i64(self.y, rhs.y) }
    }

    /// This point (as a direction) scaled by a fixed-point amount.
    pub fn scaled(self, amount: i64) -> (r: Point)
        ensures
            r == scale_spec(self, amount as int),
    {
        Point { x: fp_mul(self.x, amount), y: fp_mul(self.y, amount) }
    }

    /// The point nudged along `dir` by `amount` (both fixed-point).
    pub fn nudge(&self, dir: Point, amount: i64) -> (r: Point)
        ensures
            r == nudge_spec(*self, dir, amount as int),
    {
        self.plus(dir.scaled(amount))
    }

    /// Nudges this point in place.
    pub fn nudge_self(&mut self, dir: Point, amount: i64)
        ensures
            *final(self) == nudge_spec(*old(self), dir, amount as int),
    {
        *self = self.nudge(dir, amount);
    }

    /// The upward unit direction (negative y).
    pub fn up() -> (p: Point)
        ensures
            p == (Point { x: 0i64, y: -65536i64 }),
    {
        Point { x: 0, y: -FP_ONE }
    }

    /// The downward unit direction (positive y).
    pub fn down() -> (p: Point)
        ensures
            p == (Point { x: 0i64, y: 65536i64 }),
    {
        Point { x: 0, y: FP_ONE }
    }

    /// The leftward unit direction (negative x).
    pub fn left() -> (p: Point)
        ensures
            p == (Point { x: -65536i64, y: 0i64 }),
    {
        Point { x: -FP_ONE, y: 0 }
    }

    /// The rightward unit direction (positive x).
    pub fn right() -> (p: Point)
        ensures
            p == (Point { x: 65536i64, y: 0i64 }),
    {
        Point { x: FP_ONE, y: 0 }
    }

    /// Diagonal unit direction up and to the left.
    pub fn up_left() -> (p: Point)
        ensures
            p == (Point { x: -46341i64, y: -46341i64 }),
    {
        Point { x: -SQRT_2, y: -SQRT_2 }
    }

    /// Diagonal unit direction up and to the right.
    pub fn up_right() -> (p: Point)
        ensures
            p == (Point { x: 46341i64, y: -46341i64 }),
    {
        Point { x: SQRT_2, y: -SQRT_2 }
    }

    /// Diagonal unit direction down and to the left.
    pub fn down_left() -> (p: Point)
        ensures
            p == (Point { x: -46341i64, y: 46341i64 }),
    {
        Point { x: -SQRT_2, y: SQRT_2 }
    }

    /// Diagonal unit direction down and to the right.
    pub fn down_right() -> (p: Point)
        ensures
            p == (Point { x: 46341i64, y: 46341i64 }),
    {
        Point { x: SQRT_2, y: SQRT_2 }
    }

    /// The zero point, also the null direction.
    pub fn zero() -> (p: Point)
        ensures
            p == (Point { x: 0i64, y: 0i64 }),
    {
        Point { x: 0, y: 0 }
    }
}

/// Every i64 coordinate lands in a representable whole-pixel cell.
pub proof fn lemma_cell_coord_bounds(v: i64)
    ensures
        MIN_CELL <= cell_coord(v as int) <= MAX_CELL,
{
    let a = abs_int(v as int);
    lemma_fundamental_div_mod_converse(0int, 65536, 0, 0);
    lemma_div_is_ordered(0, a, 65536);
    if v >= 0 {
        lemma_fundamental_div_mod_converse(0x7FFFFFFFFFFFFFFFint, 65536, 140737488355327, 65535);
        lemma_div_is_ordered(a, 0x7FFFFFFFFFFFFFFF, 65536);
    } else {
        lemma_fundamental_div_mod_converse(0x8000000000000000int, 65536, 140737488355328, 0);
        lemma_div_is_ordered(a, 0x8000000000000000, 65536);
    }
}

/// Law: nudging is invertible. Scaling a direction by `-amount` yields
/// exactly the negation of scaling it by `amount` (truncation toward zero
/// is symmetric), so as long as neither step saturates, nudging by an
/// amount and then by its negation returns exactly to the start.
pub proof fn lemma_nudge_invertible(p: Point, dir: Point, amount: i64)
    requires
        amount != i64::MIN,
        -i64::MAX <= trunc_div(dir.x * amount, FP_ONE as int) <= i64::MAX,
        -i64::MAX <= trunc_div(dir.y * amount, FP_ONE as int) <= i64::MAX,
        i64::MIN <= p.x + trunc_div(dir.x * amount, FP_ONE as int) <= i64::MAX,
        i64::MIN <= p.y + trunc_div(dir.y * amount, FP_ONE as int) <= i64::MAX,
    ensures
        nudge_spec(nudge_spec(p, dir, amount as int), dir, -amount as int) == p,
{
    assert(dir.x * (-amount as int) == -(dir.x * amount)) by (nonlinear_arith);
    assert(dir.y * (-amount as int) == -(dir.y * amount)) by (nonlinear_arith);
    assert(trunc_div(-(dir.x * amount), FP_ONE as int) == -trunc_div(
        dir.x * amount,
        FP_ONE as int,
    ));
    assert(trunc_div(-(dir.y * amount), FP_ONE as int) == -trunc_div(
        dir.y * amount,
        FP_ONE as int,
    ));
    assert(nudge_spec(nudge_spec(p, dir, amount as int), dir, -amount as int).x == p.x);
    assert(nudge_spec(nudge_spec(p, dir, amount as int), dir, -amount as int).y == p.y);
}

} // verus!
