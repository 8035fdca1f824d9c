//! A positioned, live instance of a sprite, stored in the display's
//! fixed-capacity object arena.

use vstd::prelude::*;

use crate::shared::{sat_minus, sat_plus, Point, FP_ONE};
use crate::sprite::{valid_size, Sprite};

verus! {

#[derive(Clone, Debug)]
pub struct Object {
    pub sprite: Sprite,
    pub point: Point,
    pub needs_draw: bool,
}

/// Spec-level ordering of points by both coordinates at once.
pub open spec fn point_le(a: Point, b: Point) -> bool {
    a.x <= b.x && a.y <= b.y
}

impl Object {
    pub fn new(point: Point, sprite: Sprite) -> (o: Object)
        ensures
            o.point == point,
            o.sprite == sprite,
            o.needs_draw == true,
    {
        Object { sprite, point, needs_draw: true }
    }

    /// The default arena entry: an empty sprite at the origin, not drawn.
    pub fn default() -> (o: Object)
        ensures
            o.sprite.wf(),
            o.sprite.size.width == 0,
            o.sprite.size.height == 0,
            o.point == (Point { x: 0i64, y: 0i64 }),
            o.needs_draw == false,
    {
        Object { sprite: Sprite::empty(), point: Point { x: 0, y: 0 }, needs_draw: false }
    }

    /// The corner of this object opposite its position: position plus the
    /// sprite extent.
    pub fn bounds(&self) -> (p: Point)
        requires
            valid_size(self.sprite.size),
        ensures
            p.x == sat_plus(self.point.x as int, self.sprite.size.width * FP_ONE),
            p.y == sat_plus(self.point.y as int, self.sprite.size.height * FP_ONE),
    {
        self.point.plus_size(self.sprite.size)
    }

    /// The position displaced backward by the sprite extent.
    pub fn bounds_neg(&self) -> (p: Point)
        requires
            valid_size(self.sprite.size),
        ensures
            p.x == sat_minus(self.point.x as int, self.sprite.size.width * FP_ONE),
            p.y == sat_minus(self.point.y as int, self.sprite.size.height * FP_ONE),
    {
        self.point.minus_size(self.sprite.size)
    }

    /// True when the other object's position or far corner falls inside
    /// this object's rectangle (comparing both coordinates at once).
    pub fn contains(&self, other: &Object) -> (r: bool)
        requires
            valid_size(self.sprite.size),
            valid_size(other.sprite.size),
        ensures
            r == {
                let b = Point {
                    x: sat_plus(self.point.x as int, self.sprite.size.width * FP_ONE) as i64,
                    y: sat_plus(self.point.y as int, self.sprite.size.height * FP_ONE) as i64,
                };
                let ob = Point {
                    x: sat_plus(other.point.x as int, other.sprite.size.width * FP_ONE) as i64,
                    y: sat_plus(other.point.y as int, other.sprite.size.height * FP_ONE) as i64,
                };
                (point_le(self.point, other.point) && point_le(other.point, b)) || (point_le(
                    self.point,
                    ob,
                ) && point_le(ob, b))
            },
    {
        let b = self.bounds();
        let ob = other.bounds();
        if (self.point.x <= other.point.x && self.point.y <= other.point.y && other.point.x <= b.x
            && other.point.y <= b.y) || (self.point.x <= ob.x && self.point.y <= ob.y && ob.x <= b.x
            && ob.y <= b.y) {
            true
        } else {
            false
        }
    }
}

} // verus!
