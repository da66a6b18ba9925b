//! Laws on rectangles, by the points that they hold.
use crate::geometry::{Bounds, Point};
use crate::length::Pixels;
use vstd::prelude::*;

verus! {

/// The bound on coordinates and extents below which no sum of a few of them saturates.
pub open spec fn far() -> int {
    0x1000_0000_0000_0000
}

/// Whether a coordinate or an extent is far from the ends of the range.
pub open spec fn near(v: Pixels) -> bool {
    -far() <= v.units <= far()
}

/// Whether a rectangle is far from the ends of the range.
pub open spec fn near_bounds(b: Bounds<Pixels>) -> bool {
    near(b.origin.x) && near(b.origin.y) && near(b.size.width) && near(b.size.height)
}

/// Whether a point lies in a rectangle: not to the left of its left edge nor above its top
/// edge, to the left of its right edge and above its bottom edge.
pub open spec fn holds(b: Bounds<Pixels>, p: Point<Pixels>) -> bool {
    &&& b.origin.x.units <= p.x.units < b.origin.x.units + b.size.width.units
    &&& b.origin.y.units <= p.y.units < b.origin.y.units + b.size.height.units
}

/// A rectangle contains the points between its edges.
pub proof fn law_contains(b: Bounds<Pixels>, p: Point<Pixels>)
    requires
        near_bounds(b),
    ensures
        b.contains_spec(p) <==> holds(b, p),
{
}

/// The rectangle between two corners holds the points between them.
pub proof fn law_from_corners(a: Point<Pixels>, b: Point<Pixels>, p: Point<Pixels>)
    requires
        near(a.x),
        near(a.y),
        near(b.x),
        near(b.y),
    ensures
        holds(Bounds::from_corners_spec(a, b), p) <==> a.x.units <= p.x.units < b.x.units
            && a.y.units <= p.y.units < b.y.units,
        Bounds::from_corners_spec(a, b).origin == a,
        Bounds::from_corners_spec(a, b).bottom_right_spec() == b,
{
}

/// The intersection of two rectangles holds the points that both hold.
pub proof fn law_intersect(a: Bounds<Pixels>, b: Bounds<Pixels>, p: Point<Pixels>)
    requires
        near_bounds(a),
        near_bounds(b),
    ensures
        holds(a.intersect_spec(b), p) <==> holds(a, p) && holds(b, p),
{
}

/// The union of two rectangles holds what either holds, and reaches on each side as far as
/// the one of them that reaches further.
pub proof fn law_union(a: Bounds<Pixels>, b: Bounds<Pixels>, p: Point<Pixels>)
    requires
        near_bounds(a),
        near_bounds(b),
    ensures
        holds(a, p) || holds(b, p) ==> holds(a.union_spec(b), p),
        ({
            let all = a.union_spec(b);
            let end = all.bottom_right_spec();
            &&& all.origin.x == a.origin.x || all.origin.x == b.origin.x
            &&& all.origin.y == a.origin.y || all.origin.y == b.origin.y
            &&& end.x == a.bottom_right_spec().x || end.x == b.bottom_right_spec().x
            &&& end.y == a.bottom_right_spec().y || end.y == b.bottom_right_spec().y
        }),
{
}

/// A rectangle has area if and only if it holds a point.
pub proof fn law_has_area(b: Bounds<Pixels>)
    requires
        near_bounds(b),
    ensures
        b.has_area_spec() <==> exists|p: Point<Pixels>| holds(b, p),
        b.bottom_right_spec().x.units == b.origin.x.units + b.size.width.units,
        b.bottom_right_spec().y.units == b.origin.y.units + b.size.height.units,
{
    if b.has_area_spec() {
        assert(holds(b, b.origin));
    }
}

} // verus!
