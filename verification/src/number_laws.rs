//! What the encodings of floating-point numbers stand for, and that comparing them
//! compares the numbers.
use vstd::prelude::*;

use vstd::arithmetic::power2::{lemma_pow2_pos, lemma_pow2_unfold, pow2};

use crate::float_bits::{Float32, Float64};
use crate::geometry::{Bounds, Point, Rectangle, Size};

verus! {

/// The number that the exponent and the fraction of an encoding stand for, in units of the
/// smallest number there is. The exponent is above the 23 bits of the fraction; the
/// fraction has a leading one, unless the exponent is zero.
pub open spec fn scaled(exponent: int, fraction: int) -> int {
    if exponent == 0 {
        fraction
    } else {
        (0x80_0000 + fraction) * pow2((exponent - 1) as nat)
    }
}

/// Whether the sign of an encoding is set.
pub open spec fn negative(number: Float32) -> bool {
    number.bits / 0x8000_0000 == 1
}

/// The eight bits of the exponent.
pub open spec fn exponent(number: Float32) -> int {
    (number.bits / 0x80_0000) as int % 256
}

/// The 23 bits of the fraction.
pub open spec fn fraction(number: Float32) -> int {
    number.bits as int % 0x80_0000
}

/// The number that an encoding stands for, in units of the smallest number there is. An
/// infinity comes out beyond all others.
pub open spec fn value(number: Float32) -> int {
    if negative(number) {
        -scaled(exponent(number), fraction(number))
    } else {
        scaled(exponent(number), fraction(number))
    }
}

/// Whether an encoding stands for no number: the highest exponent, and a fraction.
pub open spec fn no_number(number: Float32) -> bool {
    exponent(number) == 255 && fraction(number) != 0
}

proof fn the_next_is_greater(exponent: int, fraction: int)
    requires
        0 <= exponent,
        0 <= fraction < 0x80_0000,
    ensures
        fraction + 1 < 0x80_0000 ==> scaled(exponent, fraction) < scaled(exponent, fraction + 1),
        fraction + 1 == 0x80_0000 ==> scaled(exponent, fraction) < scaled(exponent + 1, 0),
        0 <= scaled(exponent, fraction),
{
    if exponent == 0 {
        vstd::arithmetic::power2::lemma2_to64();
        assert(pow2(0) == 1);
        assert(scaled(1, 0) == 0x80_0000 * pow2(0));
    } else {
        let power = pow2((exponent - 1) as nat) as int;
        lemma_pow2_pos((exponent - 1) as nat);
        lemma_pow2_unfold(exponent as nat);
        assert(pow2(exponent as nat) == 2 * power);
        assert((0x80_0000 + fraction) * power < (0x80_0000 + fraction + 1) * power)
            by (nonlinear_arith)
            requires
                power > 0,
        ;
        assert(0 <= (0x80_0000 + fraction) * power) by (nonlinear_arith)
            requires
                power > 0,
                fraction >= 0,
        ;
        assert((0x80_0000 + 0x80_0000) * power == (0x80_0000 + 0) * (2 * power))
            by (nonlinear_arith);
        assert(scaled(exponent + 1, 0) == (0x80_0000 + 0) * pow2(exponent as nat));
    }
}

/// The number at a magnitude.
spec fn at(magnitude: int) -> int {
    scaled(magnitude / 0x80_0000, magnitude % 0x80_0000)
}

proof fn greater_magnitudes_are_greater(low: int, high: int)
    requires
        0 <= low < high,
    ensures
        0 <= at(low) < at(high),
    decreases high - low,
{
    let before = high - 1;
    let exponent = before / 0x80_0000;
    let fraction = before % 0x80_0000;
    the_next_is_greater(low / 0x80_0000, low % 0x80_0000);
    the_next_is_greater(exponent, fraction);
    if fraction + 1 < 0x80_0000 {
        assert(high / 0x80_0000 == exponent && high % 0x80_0000 == fraction + 1);
    } else {
        assert(high / 0x80_0000 == exponent + 1 && high % 0x80_0000 == 0);
    }
    if low < before {
        greater_magnitudes_are_greater(low, before);
    }
}

proof fn zero_is_nothing()
    ensures
        at(0) == 0,
{
}

proof fn parts_of_an_encoding(number: Float32)
    ensures
        negative(number) <==> number.bits >= 0x8000_0000,
        exponent(number) == number.magnitude() / 0x80_0000,
        fraction(number) == number.magnitude() % 0x80_0000,
        0 <= number.magnitude() < 0x8000_0000,
{
}

/// Encodings are compared as the numbers that they stand for; one that stands for no number
/// is neither equal to, less than nor at most another.
pub proof fn comparing_goes_by_value(a: Float32, b: Float32)
    ensures
        a.nan() <==> no_number(a),
        a.finite() <==> exponent(a) < 255,
        a.equals(b) <==> !no_number(a) && !no_number(b) && value(a) == value(b),
        a.less(b) <==> !no_number(a) && !no_number(b) && value(a) < value(b),
        a.at_most(b) <==> !no_number(a) && !no_number(b) && value(a) <= value(b),
        a.positive_finite() <==> exponent(a) < 255 && value(a) > 0,
        value(Float32::spec_zero()) == 0,
{
    parts_of_an_encoding(a);
    parts_of_an_encoding(b);
    let x = a.magnitude();
    let y = b.magnitude();
    assert(value(a) == if negative(a) {
        -at(x)
    } else {
        at(x)
    });
    assert(value(b) == if negative(b) {
        -at(y)
    } else {
        at(y)
    });
    zero_is_nothing();
    if x > 0 {
        greater_magnitudes_are_greater(0, x);
    }
    if y > 0 {
        greater_magnitudes_are_greater(0, y);
    }
    if x < y {
        greater_magnitudes_are_greater(x, y);
    } else if y < x {
        greater_magnitudes_are_greater(y, x);
    }
    let zero = Float32::spec_zero();
    parts_of_an_encoding(zero);
    assert(zero.magnitude() == 0);
}

/// The greater and the smaller of two numbers are one of them each, and lie above and below
/// both. Where one is no number, or both are equal, it is the second.
pub proof fn the_greater_and_the_smaller(a: Float32, b: Float32)
    ensures
        no_number(a) || no_number(b) || value(a) == value(b) ==> a.spec_greater(b) == b
            && a.spec_smaller(b) == b,
        !no_number(a) && !no_number(b) ==> {
            &&& a.spec_greater(b) == a || a.spec_greater(b) == b
            &&& a.spec_smaller(b) == a || a.spec_smaller(b) == b
            &&& value(a.spec_greater(b)) >= value(a) && value(a.spec_greater(b)) >= value(b)
            &&& value(a.spec_smaller(b)) <= value(a) && value(a.spec_smaller(b)) <= value(b)
        },
{
    comparing_goes_by_value(a, b);
    comparing_goes_by_value(b, a);
}

/// A finite number is not above another exactly where it is at most the other. Two equal
/// infinities have no difference.
pub proof fn a_difference_is_at_most_zero(a: Float32, b: Float32)
    ensures
        exponent(a) < 255 ==> (a.not_above(b) <==> !no_number(b) && value(a) <= value(b)),
        exponent(a) == 255 ==> (a.not_above(b) <==> a.less(b)),
{
    comparing_goes_by_value(a, b);
}

/// A number of double precision is finite and above zero exactly where its sign is clear,
/// its exponent is not the highest, and it is not zero.
pub proof fn a_positive_finite_double(number: Float64)
    ensures
        number.positive_finite() <==> {
            &&& number.bits / 0x8000_0000_0000_0000 == 0
            &&& (number.bits / 0x10_0000_0000_0000) % 2048 < 2047
            &&& number.bits != 0
        },
{
}

/// Whether a point lies in a rectangle, edges included.
pub open spec fn holds_point(bounds: Bounds, x: Float32, y: Float32) -> bool {
    &&& value(bounds.left) <= value(x) <= value(bounds.right)
    &&& value(bounds.top) <= value(y) <= value(bounds.bottom)
}

/// What two finite rectangles have in common holds exactly the points that both hold.
pub proof fn an_intersection_holds_the_points_of_both(
    a: Bounds,
    b: Bounds,
    x: Float32,
    y: Float32,
)
    requires
        a.finite(),
        b.finite(),
    ensures
        holds_point(a.spec_intersect(b), x, y) <==> holds_point(a, x, y) && holds_point(b, x, y),
{
    edges_of_two(a, b);
}

proof fn edges_of_two(a: Bounds, b: Bounds)
    requires
        a.finite(),
        b.finite(),
    ensures
        ({
            let common = a.spec_intersect(b);
            let around = a.spec_union(b);
            &&& value(common.left) == greatest(value(a.left), value(b.left))
            &&& value(common.top) == greatest(value(a.top), value(b.top))
            &&& value(common.right) == least(value(a.right), value(b.right))
            &&& value(common.bottom) == least(value(a.bottom), value(b.bottom))
            &&& value(around.left) == least(value(a.left), value(b.left))
            &&& value(around.top) == least(value(a.top), value(b.top))
            &&& value(around.right) == greatest(value(a.right), value(b.right))
            &&& value(around.bottom) == greatest(value(a.bottom), value(b.bottom))
            &&& common.size is None
            &&& around.size is None
        }),
{
    comparing_goes_by_value(a.left, b.left);
    comparing_goes_by_value(b.left, a.left);
    comparing_goes_by_value(a.top, b.top);
    comparing_goes_by_value(b.top, a.top);
    comparing_goes_by_value(a.right, b.right);
    comparing_goes_by_value(b.right, a.right);
    comparing_goes_by_value(a.bottom, b.bottom);
    comparing_goes_by_value(b.bottom, a.bottom);
}

/// The greater of two.
pub open spec fn greatest(a: int, b: int) -> int {
    if a >= b {
        a
    } else {
        b
    }
}

/// The smaller of two.
pub open spec fn least(a: int, b: int) -> int {
    if a <= b {
        a
    } else {
        b
    }
}

/// The union of two finite rectangles lies around both, and inside every other rectangle
/// around both.
pub proof fn a_union_is_the_smallest_around_both(a: Bounds, b: Bounds, other: Bounds)
    requires
        a.finite(),
        b.finite(),
        other.finite(),
    ensures
        a.spec_union(b).encloses(a),
        a.spec_union(b).encloses(b),
        other.encloses(a) && other.encloses(b) ==> other.encloses(a.spec_union(b)),
        a.spec_union(b).size is None,
{
}

/// Two finite rectangles overlap exactly where each begins before the other ends, in both
/// directions; it does not matter which is asked about which.
pub proof fn overlapping_goes_both_ways(a: Bounds, b: Bounds)
    requires
        a.finite(),
        b.finite(),
    ensures
        a.overlaps(b) == b.overlaps(a),
        a.overlaps(b) <==> {
            &&& value(a.left) < value(b.right) && value(b.left) < value(a.right)
            &&& value(a.top) < value(b.bottom) && value(b.top) < value(a.bottom)
        },
{
    comparing_goes_by_value(a.left, b.right);
    comparing_goes_by_value(b.left, a.right);
    comparing_goes_by_value(a.top, b.bottom);
    comparing_goes_by_value(b.top, a.bottom);
    comparing_goes_by_value(b.right, a.left);
    comparing_goes_by_value(a.right, b.left);
    comparing_goes_by_value(b.bottom, a.top);
    comparing_goes_by_value(a.bottom, b.top);
}

/// A rectangle that overlaps one inside another overlaps that other, too.
pub proof fn overlapping_a_part_overlaps_the_whole(whole: Bounds, part: Bounds, other: Bounds)
    requires
        whole.encloses(part),
        other.overlaps(part),
    ensures
        other.overlaps(whole),
        forall|around: Bounds| around.encloses(whole) ==> #[trigger] around.encloses(part),
{
}

/// A rectangle with a size is empty where a side of it is at most zero. Any other finite one
/// is empty where it ends before it begins, or where it begins.
pub proof fn an_empty_rectangle_has_no_inside(bounds: Bounds)
    ensures
        bounds.size is None && bounds.finite() ==> (bounds.empty() <==> value(bounds.right)
            <= value(bounds.left) || value(bounds.bottom) <= value(bounds.top)),
        bounds.size matches Some(size) ==> !no_number(size.width) && !no_number(size.height) ==> (
        bounds.empty() <==> value(size.width) <= 0 || value(size.height) <= 0),
{
    comparing_goes_by_value(bounds.right, bounds.left);
    comparing_goes_by_value(bounds.bottom, bounds.top);
    comparing_goes_by_value(bounds.left, bounds.right);
    comparing_goes_by_value(bounds.top, bounds.bottom);
    if let Some(size) = bounds.size {
        comparing_goes_by_value(size.width, Float32::spec_zero());
        comparing_goes_by_value(size.height, Float32::spec_zero());
        comparing_goes_by_value(Float32::spec_zero(), Float32::spec_zero());
    }
}

/// A rectangle of no extent begins and ends at its point and is empty; the one at the
/// origin is the one at the point of two zeros.
pub proof fn a_rectangle_at_a_point(point: Point)
    ensures
        Bounds::spec_at(point).left == point.x,
        Bounds::spec_at(point).right == point.x,
        Bounds::spec_at(point).top == point.y,
        Bounds::spec_at(point).bottom == point.y,
        Bounds::spec_at(point).empty(),
        Bounds::spec_zero() == Bounds::spec_at(
            Point { x: Float32 { bits: 0 }, y: Float32 { bits: 0 } },
        ),
        Size::spec_zero() == (Size { width: Float32 { bits: 0 }, height: Float32 { bits: 0 } }),
{
}

/// Two rectangles are equal where all of their four numbers have the same values.
pub proof fn equal_rectangles_have_equal_numbers(a: Rectangle, b: Rectangle)
    ensures
        a.equals(b) <==> {
            &&& a.origin.x.equals(b.origin.x)
            &&& a.origin.y.equals(b.origin.y)
            &&& a.size.width.equals(b.size.width)
            &&& a.size.height.equals(b.size.height)
        },
        a.equals(b) ==> b.equals(a) && a.equals(a),
{
}

/// A finite rectangle lies inside another where none of its edges lies further out.
pub proof fn enclosing_goes_by_the_edges(outer: Bounds, inner: Bounds)
    requires
        outer.finite(),
        inner.finite(),
    ensures
        outer.encloses(inner) <==> {
            &&& value(outer.left) <= value(inner.left) && value(inner.right) <= value(outer.right)
            &&& value(outer.top) <= value(inner.top) && value(inner.bottom) <= value(outer.bottom)
        },
{
    comparing_goes_by_value(outer.left, inner.left);
    comparing_goes_by_value(inner.left, outer.left);
    comparing_goes_by_value(outer.top, inner.top);
    comparing_goes_by_value(inner.top, outer.top);
    comparing_goes_by_value(inner.right, outer.right);
    comparing_goes_by_value(outer.right, inner.right);
    comparing_goes_by_value(inner.bottom, outer.bottom);
    comparing_goes_by_value(outer.bottom, inner.bottom);
}

/// A rectangle with an edge that is no number lies inside none, and none inside it; it
/// overlaps none.
pub proof fn without_an_edge_there_is_no_inside(bounds: Bounds, other: Bounds)
    requires
        no_number(bounds.left) || no_number(bounds.top) || no_number(bounds.right) || no_number(
            bounds.bottom,
        ),
    ensures
        !bounds.encloses(other),
        !other.encloses(bounds),
        !bounds.overlaps(other),
        !other.overlaps(bounds),
{
    comparing_goes_by_value(bounds.left, bounds.left);
    comparing_goes_by_value(bounds.top, bounds.top);
    comparing_goes_by_value(bounds.right, bounds.right);
    comparing_goes_by_value(bounds.bottom, bounds.bottom);
}

} // verus!
