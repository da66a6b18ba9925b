//! Points and rectangles.
use crate::length::Length;
use vstd::prelude::*;

verus! {

/// A point, or an offset from one. Coordinates grow to the right and downwards.
#[derive(PartialEq, Debug)]
pub struct Point<T> {
    pub x: T,
    pub y: T,
}

impl<T: Copy> Clone for Point<T> {
    fn clone(&self) -> (r: Self)
        ensures
            r == *self,
    {
        *self
    }
}

impl<T: Copy> Copy for Point<T> {

}

/// The point with the given coordinates.
pub fn point<T>(x: T, y: T) -> (p: Point<T>)
    ensures
        p == (Point { x, y }),
{
    Point { x, y }
}

/// The extent of a rectangle.
#[derive(PartialEq, Debug)]
pub struct Size<T> {
    pub width: T,
    pub height: T,
}

impl<T: Copy> Clone for Size<T> {
    fn clone(&self) -> (r: Self)
        ensures
            r == *self,
    {
        *self
    }
}

impl<T: Copy> Copy for Size<T> {

}

/// A rectangle, by its top left corner and its extent.
#[derive(PartialEq, Debug)]
pub struct Bounds<T> {
    pub origin: Point<T>,
    pub size: Size<T>,
}

impl<T: Copy> Clone for Bounds<T> {
    fn clone(&self) -> (r: Self)
        ensures
            r == *self,
    {
        *self
    }
}

impl<T: Copy> Copy for Bounds<T> {

}

impl<T: Length> Bounds<T> {
    /// What [`Bounds::from_corners`] returns.
    pub open spec fn from_corners_spec(top_left: Point<T>, bottom_right: Point<T>) -> Bounds<T> {
        Bounds {
            origin: top_left,
            size: Size {
                width: bottom_right.x.minus_spec(top_left.x),
                height: bottom_right.y.minus_spec(top_left.y),
            },
        }
    }

    /// The corner opposite to the origin.
    pub open spec fn bottom_right_spec(self) -> Point<T> {
        Point {
            x: self.origin.x.plus_spec(self.size.width),
            y: self.origin.y.plus_spec(self.size.height),
        }
    }

    /// Whether a point lies in the rectangle.
    pub open spec fn contains_spec(self, p: Point<T>) -> bool {
        &&& self.origin.x.spans_spec(self.size.width, p.x)
        &&& self.origin.y.spans_spec(self.size.height, p.y)
    }

    /// The rectangle between the inner corners of two rectangles: what they have in
    /// common, or, where they do not meet, a rectangle of negative extent.
    pub open spec fn intersect_spec(self, other: Bounds<T>) -> Bounds<T> {
        Self::from_corners_spec(
            Point {
                x: self.origin.x.greatest_spec(other.origin.x),
                y: self.origin.y.greatest_spec(other.origin.y),
            },
            Point {
                x: self.bottom_right_spec().x.least_spec(other.bottom_right_spec().x),
                y: self.bottom_right_spec().y.least_spec(other.bottom_right_spec().y),
            },
        )
    }

    /// The smallest rectangle around two rectangles.
    pub open spec fn union_spec(self, other: Bounds<T>) -> Bounds<T> {
        Self::from_corners_spec(
            Point {
                x: self.origin.x.least_spec(other.origin.x),
                y: self.origin.y.least_spec(other.origin.y),
            },
            Point {
                x: self.bottom_right_spec().x.greatest_spec(other.bottom_right_spec().x),
                y: self.bottom_right_spec().y.greatest_spec(other.bottom_right_spec().y),
            },
        )
    }

    /// Whether the rectangle covers any area.
    pub open spec fn has_area_spec(self) -> bool {
        &&& T::zero_spec().lt_spec(self.size.width)
        &&& T::zero_spec().lt_spec(self.size.height)
    }

    /// The rectangle between two opposite corners.
    pub fn from_corners(top_left: Point<T>, bottom_right: Point<T>) -> (r: Bounds<T>)
        ensures
            r == Self::from_corners_spec(top_left, bottom_right),
    {
        Bounds {
            origin: top_left,
            size: Size {
                width: bottom_right.x.minus(top_left.x),
                height: bottom_right.y.minus(top_left.y),
            },
        }
    }

    /// The x coordinate of the left edge.
    pub fn left(&self) -> (r: T)
        ensures
            r == self.origin.x,
    {
        self.origin.x
    }

    /// The x coordinate of the right edge.
    pub fn right(&self) -> (r: T)
        ensures
            r == self.bottom_right_spec().x,
    {
        self.origin.x.plus(self.size.width)
    }

    /// The y coordinate of the top edge.
    pub fn top(&self) -> (r: T)
        ensures
            r == self.origin.y,
    {
        self.origin.y
    }

    /// The y coordinate of the bottom edge.
    pub fn bottom(&self) -> (r: T)
        ensures
            r == self.bottom_right_spec().y,
    {
        self.origin.y.plus(self.size.height)
    }

    /// Whether `p` lies in the rectangle.
    pub fn contains(&self, p: Point<T>) -> (r: bool)
        ensures
            r == self.contains_spec(p),
    {
        self.origin.x.spans(self.size.width, p.x) && self.origin.y.spans(self.size.height, p.y)
    }

    /// The rectangle between the inner corners of `self` and `other`.
    pub fn intersect(&self, other: &Bounds<T>) -> (r: Bounds<T>)
        ensures
            r == self.intersect_spec(*other),
    {
        Self::from_corners(
            point(self.left().greatest(other.left()), self.top().greatest(other.top())),
            point(self.right().least(other.right()), self.bottom().least(other.bottom())),
        )
    }

    /// The smallest rectangle around `self` and `other`.
    pub fn union(&self, other: &Bounds<T>) -> (r: Bounds<T>)
        ensures
            r == self.union_spec(*other),
    {
        Self::from_corners(
            point(self.left().least(other.left()), self.top().least(other.top())),
            point(self.right().greatest(other.right()), self.bottom().greatest(other.bottom())),
        )
    }

    /// Whether both extents are positive.
    pub fn has_area(&self) -> (r: bool)
        ensures
            r == self.has_area_spec(),
    {
        T::zero().lt(self.size.width) && T::zero().lt(self.size.height)
    }
}

} // verus!
