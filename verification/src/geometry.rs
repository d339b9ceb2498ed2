//! Points and rectangles over encoded coordinates.
use vstd::prelude::*;

use crate::float_bits::Float32;

verus! {

/// A point.
#[derive(Clone, Copy, Debug, PartialEq, Eq, Structural)]
pub struct Point {
    pub x: Float32,
    pub y: Float32,
}

/// A width and a height.
#[derive(Clone, Copy, Debug, PartialEq, Eq, Structural)]
pub struct Size {
    pub width: Float32,
    pub height: Float32,
}

/// A rectangle by its upper left corner and its size.
#[derive(Clone, Copy, Debug, PartialEq, Eq, Structural)]
pub struct Rectangle {
    pub origin: Point,
    pub size: Size,
}

/// A rectangle by its four edges. The right and the bottom edge are the sums of
/// origin and size; whoever makes the rectangle adds them up.
#[derive(Clone, Copy, Debug, PartialEq, Eq, Structural)]
pub struct Bounds {
    pub left: Float32,
    pub top: Float32,
    pub right: Float32,
    pub bottom: Float32,
    /// The size that the rectangle was made with; none where it was made from its
    /// edges, whose differences are its size.
    pub size: Option<Size>,
}

/// The part of the target that a primitive may touch.
#[derive(Clone, Copy, Debug, PartialEq, Eq, Structural)]
pub struct ContentMask {
    pub bounds: Bounds,
}

/// The size of a texture in device pixels.
#[derive(Clone, Copy, Debug, PartialEq, Eq, Structural)]
pub struct DeviceSize {
    pub width: i32,
    pub height: i32,
}

impl Point {
    /// A point at the given coordinates.
    pub fn new(x: Float32, y: Float32) -> (point: Point)
        ensures
            point == (Point { x, y }),
    {
        Point { x, y }
    }
}

impl Size {
    /// No extent.
    pub open spec fn spec_zero() -> Size {
        Size { width: Float32::spec_zero(), height: Float32::spec_zero() }
    }

    /// No extent.
    pub fn zero() -> (size: Size)
        ensures
            size == Size::spec_zero(),
    {
        Size { width: Float32::zero(), height: Float32::zero() }
    }
}

impl Rectangle {
    /// Whether two rectangles have equal corners and equal sizes.
    pub open spec fn equals(self, other: Rectangle) -> bool {
        &&& self.origin.x.equals(other.origin.x)
        &&& self.origin.y.equals(other.origin.y)
        &&& self.size.width.equals(other.size.width)
        &&& self.size.height.equals(other.size.height)
    }

    /// Whether two rectangles have equal corners and equal sizes.
    pub fn is_equal(self, other: Rectangle) -> (same: bool)
        ensures
            same == self.equals(other),
    {
        self.origin.x.is_equal(other.origin.x) && self.origin.y.is_equal(other.origin.y)
            && self.size.width.is_equal(other.size.width) && self.size.height.is_equal(
            other.size.height,
        )
    }
}

impl Bounds {
    /// The rectangle of no extent at the origin.
    pub open spec fn spec_zero() -> Bounds {
        Bounds {
            left: Float32::spec_zero(),
            top: Float32::spec_zero(),
            right: Float32::spec_zero(),
            bottom: Float32::spec_zero(),
            size: Some(Size::spec_zero()),
        }
    }

    /// The rectangle of no extent at the origin.
    pub fn zero() -> (bounds: Bounds)
        ensures
            bounds == Bounds::spec_zero(),
    {
        Bounds {
            left: Float32::zero(),
            top: Float32::zero(),
            right: Float32::zero(),
            bottom: Float32::zero(),
            size: Some(Size::zero()),
        }
    }

    /// The rectangle of no extent at a point.
    pub open spec fn spec_at(point: Point) -> Bounds {
        Bounds {
            left: point.x,
            top: point.y,
            right: point.x,
            bottom: point.y,
            size: Some(Size::spec_zero()),
        }
    }

    /// The rectangle of no extent at a point.
    pub fn at(point: Point) -> (bounds: Bounds)
        ensures
            bounds == Bounds::spec_at(point),
    {
        Bounds {
            left: point.x,
            top: point.y,
            right: point.x,
            bottom: point.y,
            size: Some(Size::zero()),
        }
    }

    /// Whether the width or the height is at most zero.
    pub open spec fn empty(self) -> bool {
        match self.size {
            Some(size) => size.width.at_most(Float32::spec_zero()) || size.height.at_most(
                Float32::spec_zero(),
            ),
            None => self.right.not_above(self.left) || self.bottom.not_above(self.top),
        }
    }

    /// Whether the width or the height is at most zero.
    pub fn is_empty(self) -> (result: bool)
        ensures
            result == self.empty(),
    {
        match self.size {
            Some(size) => size.width.is_at_most(Float32::zero()) || size.height.is_at_most(
                Float32::zero(),
            ),
            None => self.right.is_not_above(self.left) || self.bottom.is_not_above(self.top),
        }
    }

    /// What two rectangles have in common.
    pub open spec fn spec_intersect(self, other: Bounds) -> Bounds {
        Bounds {
            left: self.left.spec_greater(other.left),
            top: self.top.spec_greater(other.top),
            right: self.right.spec_smaller(other.right),
            bottom: self.bottom.spec_smaller(other.bottom),
            size: None,
        }
    }

    /// What two rectangles have in common.
    pub fn intersect(self, other: Bounds) -> (result: Bounds)
        ensures
            result == self.spec_intersect(other),
    {
        Bounds {
            left: self.left.greater(other.left),
            top: self.top.greater(other.top),
            right: self.right.smaller(other.right),
            bottom: self.bottom.smaller(other.bottom),
            size: None,
        }
    }

    /// The smallest rectangle around two rectangles.
    pub open spec fn spec_union(self, other: Bounds) -> Bounds {
        Bounds {
            left: self.left.spec_smaller(other.left),
            top: self.top.spec_smaller(other.top),
            right: self.right.spec_greater(other.right),
            bottom: self.bottom.spec_greater(other.bottom),
            size: None,
        }
    }

    /// The smallest rectangle around two rectangles.
    pub fn union(self, other: Bounds) -> (result: Bounds)
        ensures
            result == self.spec_union(other),
    {
        Bounds {
            left: self.left.smaller(other.left),
            top: self.top.smaller(other.top),
            right: self.right.greater(other.right),
            bottom: self.bottom.greater(other.bottom),
            size: None,
        }
    }

    /// Whether the insides of two rectangles overlap.
    pub open spec fn overlaps(self, other: Bounds) -> bool {
        &&& self.left.less(other.right)
        &&& other.left.less(self.right)
        &&& self.top.less(other.bottom)
        &&& other.top.less(self.bottom)
    }

    /// Whether the insides of two rectangles overlap.
    pub fn intersects(self, other: Bounds) -> (result: bool)
        ensures
            result == self.overlaps(other),
    {
        self.left.is_less(other.right) && other.left.is_less(self.right) && self.top.is_less(
            other.bottom,
        ) && other.top.is_less(self.bottom)
    }

    /// Whether `inner` lies inside `self`, edges included.
    pub open spec fn encloses(self, inner: Bounds) -> bool {
        &&& self.left.at_most(inner.left)
        &&& self.top.at_most(inner.top)
        &&& inner.right.at_most(self.right)
        &&& inner.bottom.at_most(self.bottom)
    }

    /// Whether all four edges are finite numbers.
    pub open spec fn finite(self) -> bool {
        self.left.finite() && self.top.finite() && self.right.finite() && self.bottom.finite()
    }

    /// Whether `inner` lies inside `self`, edges included.
    pub fn contains_bounds(self, inner: Bounds) -> (result: bool)
        ensures
            result == self.encloses(inner),
    {
        self.left.is_at_most(inner.left) && self.top.is_at_most(inner.top)
            && inner.right.is_at_most(self.right) && inner.bottom.is_at_most(self.bottom)
    }
}

/// What two finite rectangles have in common lies inside both.
pub proof fn intersection_lies_inside_both(a: Bounds, b: Bounds)
    requires
        a.finite(),
        b.finite(),
    ensures
        a.encloses(a.spec_intersect(b)),
        b.encloses(a.spec_intersect(b)),
{
}

/// Both of two finite rectangles lie inside their union.
pub proof fn union_encloses_both(a: Bounds, b: Bounds)
    requires
        a.finite(),
        b.finite(),
    ensures
        a.spec_union(b).finite(),
        a.spec_union(b).encloses(a),
        a.spec_union(b).encloses(b),
{
}

/// Two finite rectangles whose edges lie apart overlap exactly where what they have
/// in common is not empty.
pub proof fn overlap_is_a_nonempty_intersection(a: Bounds, b: Bounds)
    requires
        a.finite(),
        b.finite(),
        a.left.less(a.right) && a.top.less(a.bottom),
        b.left.less(b.right) && b.top.less(b.bottom),
    ensures
        a.overlaps(b) <==> !a.spec_intersect(b).empty(),
{
}

} // verus!
