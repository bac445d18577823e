//! Points, rectangles, transforms and colors.
use crate::scalar::{law_zero_and_one, Scalar};
use vstd::arithmetic::power2::pow2;
use vstd::prelude::*;

verus! {

/// A point or a size in the plane. The vertical axis points down.
#[derive(Clone, Copy, PartialEq, Eq, Structural, Debug)]
pub struct Vec2 {
    pub x: Scalar,
    pub y: Scalar,
}

/// A point in space.
#[derive(Clone, Copy, PartialEq, Eq, Structural, Debug)]
pub struct Vec3 {
    pub x: Scalar,
    pub y: Scalar,
    pub z: Scalar,
}

/// A column of a [`Mat4`].
#[derive(Clone, Copy, PartialEq, Eq, Structural, Debug)]
pub struct Vec4 {
    pub x: Scalar,
    pub y: Scalar,
    pub z: Scalar,
    pub w: Scalar,
}

/// A transform of space, by columns.
#[derive(Clone, Copy, PartialEq, Eq, Structural, Debug)]
pub struct Mat4 {
    pub x_axis: Vec4,
    pub y_axis: Vec4,
    pub z_axis: Vec4,
    pub w_axis: Vec4,
}

/// A color in linear red, green and blue, with its opacity.
#[derive(Clone, Copy, PartialEq, Eq, Structural, Debug)]
pub struct Color {
    pub r: Scalar,
    pub g: Scalar,
    pub b: Scalar,
    pub a: Scalar,
}

/// A rectangle, by its corner at the top left and the one at the bottom right.
#[derive(Clone, Copy, PartialEq, Eq, Structural, Debug)]
pub struct Rect {
    pub min: Vec2,
    pub max: Vec2,
}

impl Vec2 {
    /// The origin.
    pub open spec fn spec_zero() -> Vec2 {
        Vec2 { x: Scalar::spec_zero(), y: Scalar::spec_zero() }
    }

    /// The larger coordinate of the two points, on each axis.
    pub open spec fn spec_max(self, other: Vec2) -> Vec2 {
        Vec2 { x: self.x.spec_max(other.x), y: self.y.spec_max(other.y) }
    }

    /// The smaller coordinate of the two points, on each axis.
    pub open spec fn spec_min(self, other: Vec2) -> Vec2 {
        Vec2 { x: self.x.spec_min(other.x), y: self.y.spec_min(other.y) }
    }

    /// Whether a coordinate is not a number.
    pub open spec fn has_nan(self) -> bool {
        self.x.is_nan() || self.y.is_nan()
    }

    /// The origin.
    pub fn zero() -> (r: Vec2)
        ensures
            r == Vec2::spec_zero(),
    {
        Vec2 { x: Scalar::zero(), y: Scalar::zero() }
    }

    /// The larger coordinate of the two points, on each axis.
    pub fn max(self, other: Vec2) -> (r: Vec2)
        ensures
            r == self.spec_max(other),
    {
        Vec2 { x: self.x.max(other.x), y: self.y.max(other.y) }
    }

    /// The smaller coordinate of the two points, on each axis.
    pub fn min(self, other: Vec2) -> (r: Vec2)
        ensures
            r == self.spec_min(other),
    {
        Vec2 { x: self.x.min(other.x), y: self.y.min(other.y) }
    }
}

impl Color {
    /// Opaque white.
    pub open spec fn spec_white() -> Color {
        Color {
            r: Scalar::spec_one(),
            g: Scalar::spec_one(),
            b: Scalar::spec_one(),
            a: Scalar::spec_one(),
        }
    }

    /// Whether nothing of the color can be seen.
    pub open spec fn spec_is_fully_transparent(self) -> bool {
        self.a.same(Scalar::spec_zero())
    }

    /// Opaque white.
    pub fn white() -> (r: Color)
        ensures
            r == Color::spec_white(),
    {
        Color { r: Scalar::one(), g: Scalar::one(), b: Scalar::one(), a: Scalar::one() }
    }

    /// Whether the opacity is zero.
    pub fn is_fully_transparent(self) -> (r: bool)
        ensures
            r == self.spec_is_fully_transparent(),
    {
        self.a.num_eq(Scalar::zero())
    }
}

impl Rect {
    /// The rectangle between two opposite corners, in whichever order they are given.
    pub open spec fn spec_from_corners(p: Vec2, q: Vec2) -> Rect {
        Rect { min: p.spec_min(q), max: p.spec_max(q) }
    }

    /// Whether the rectangle has an inside.
    pub open spec fn has_area(self) -> bool {
        self.min.x.less(self.max.x) && self.min.y.less(self.max.y)
    }

    /// Whether no side lies beyond the one opposite to it.
    pub open spec fn is_ordered(self) -> bool {
        self.min.x.less_or_same(self.max.x) && self.min.y.less_or_same(self.max.y)
    }

    /// Whether a point lies inside, off the sides.
    pub open spec fn encloses(self, p: Vec2) -> bool {
        &&& self.min.x.less(p.x)
        &&& p.x.less(self.max.x)
        &&& self.min.y.less(p.y)
        &&& p.y.less(self.max.y)
    }

    /// Whether a point lies inside or on a side.
    pub open spec fn covers(self, p: Vec2) -> bool {
        &&& self.min.x.less_or_same(p.x)
        &&& p.x.less_or_same(self.max.x)
        &&& self.min.y.less_or_same(p.y)
        &&& p.y.less_or_same(self.max.y)
    }

    /// The rectangle between two opposite corners, in whichever order they are given.
    pub fn from_corners(p: Vec2, q: Vec2) -> (r: Rect)
        ensures
            r == Rect::spec_from_corners(p, q),
    {
        Rect { min: p.min(q), max: p.max(q) }
    }

    /// Whether the rectangle has an inside.
    pub fn is_drawn(self) -> (r: bool)
        ensures
            r == self.has_area(),
    {
        self.min.x.lt(self.max.x) && self.min.y.lt(self.max.y)
    }
}

/// The coordinates of the larger point are each one of the two, and not less than either; those of
/// the smaller point are not more than either.
pub proof fn law_larger_and_smaller_point(p: Vec2, q: Vec2)
    requires
        !p.has_nan(),
        !q.has_nan(),
    ensures
        ({
            let (max, min) = (p.spec_max(q), p.spec_min(q));
            &&& (max.x == p.x || max.x == q.x) && (max.y == p.y || max.y == q.y)
            &&& (min.x == p.x || min.x == q.x) && (min.y == p.y || min.y == q.y)
            &&& min.x.value() <= p.x.value() <= max.x.value()
            &&& min.x.value() <= q.x.value() <= max.x.value()
            &&& min.y.value() <= p.y.value() <= max.y.value()
            &&& min.y.value() <= q.y.value() <= max.y.value()
        }),
{
}

/// The rectangle between two points has its corners at their coordinates, in order, whichever of
/// the points comes first.
pub proof fn law_rectangle_between_points(p: Vec2, q: Vec2)
    requires
        !p.has_nan(),
        !q.has_nan(),
    ensures
        ({
            let r = Rect::spec_from_corners(p, q);
            let s = Rect::spec_from_corners(q, p);
            &&& r.min.x.value() <= r.max.x.value() && r.min.y.value() <= r.max.y.value()
            &&& r.min.x.value() + r.max.x.value() == p.x.value() + q.x.value()
            &&& r.min.y.value() + r.max.y.value() == p.y.value() + q.y.value()
            &&& r.min.x == p.x || r.min.x == q.x
            &&& r.min.y == p.y || r.min.y == q.y
            &&& r.min.x.same(s.min.x) && r.min.y.same(s.min.y)
            &&& r.max.x.same(s.max.x) && r.max.y.same(s.max.y)
        }),
{
}

/// A rectangle has an inside if and only if its left side is to the left of its right one, and its
/// upper side above its lower one.
pub proof fn law_area(r: Rect)
    ensures
        r.has_area() <==> {
            &&& !r.min.has_nan() && !r.max.has_nan()
            &&& r.min.x.value() < r.max.x.value()
            &&& r.min.y.value() < r.max.y.value()
        },
{
}

/// A color cannot be seen if and only if its opacity is zero. White is opaque and full of each of
/// its parts, and the origin is nowhere but at zero.
pub proof fn law_colors(c: Color)
    ensures
        c.spec_is_fully_transparent() <==> !c.a.is_nan() && c.a.value() == 0,
        Color::spec_white().a.value() == pow2(149),
        Color::spec_white().r.value() == pow2(149),
        Color::spec_white().g.value() == pow2(149),
        Color::spec_white().b.value() == pow2(149),
        Vec2::spec_zero().x.value() == 0 && Vec2::spec_zero().y.value() == 0,
{
    law_zero_and_one();
}

} // verus!
