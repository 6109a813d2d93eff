//! Plane geometry in scaled and device pixels.
use crate::float::Float32;
use vstd::prelude::*;

verus! {

/// A length in pixels of the drawable, before rounding to whole ones.
#[derive(Clone, Copy, Debug, PartialEq, Eq, Structural)]
pub struct ScaledPixels(pub Float32);

/// A length in whole pixels of the drawable.
#[derive(Clone, Copy, Debug, PartialEq, Eq, Structural)]
pub struct DevicePixels(pub i32);

#[derive(Clone, Copy, Debug, PartialEq, Eq, Structural)]
pub struct Point<T> {
    pub x: T,
    pub y: T,
}

#[derive(Clone, Copy, Debug, PartialEq, Eq, Structural)]
pub struct Size<T> {
    pub width: T,
    pub height: T,
}

#[derive(Clone, Copy, Debug, PartialEq, Eq, Structural)]
pub struct Bounds<T> {
    pub origin: Point<T>,
    pub size: Size<T>,
}

/// One value for each corner of a rectangle.
#[derive(Clone, Copy, Debug, PartialEq, Eq, Structural)]
pub struct Corners<T> {
    pub top_left: T,
    pub top_right: T,
    pub bottom_right: T,
    pub bottom_left: T,
}

/// One value for each edge of a rectangle.
#[derive(Clone, Copy, Debug, PartialEq, Eq, Structural)]
pub struct Edges<T> {
    pub top: T,
    pub right: T,
    pub bottom: T,
    pub left: T,
}

impl Bounds<ScaledPixels> {
    /// The corner opposite to the origin.
    pub open spec fn far_corner(self) -> Point<ScaledPixels> {
        Point {
            x: ScaledPixels(self.origin.x.0.sum(self.size.width.0)),
            y: ScaledPixels(self.origin.y.0.sum(self.size.height.0)),
        }
    }

    /// The rectangle from one corner to the other.
    pub open spec fn between(
        upper_left: Point<ScaledPixels>,
        lower_right: Point<ScaledPixels>,
    ) -> Bounds<ScaledPixels> {
        Bounds {
            origin: upper_left,
            size: Size {
                width: ScaledPixels(lower_right.x.0.difference(upper_left.x.0)),
                height: ScaledPixels(lower_right.y.0.difference(upper_left.y.0)),
            },
        }
    }

    /// The part that two rectangles share; an empty one keeps its corner.
    #[verifier::opaque]
    pub open spec fn common_part(self, other: Bounds<ScaledPixels>) -> Bounds<ScaledPixels> {
        let upper_left = self.origin.highest(other.origin);
        let lower_right = self.far_corner().lowest(other.far_corner()).highest(upper_left);
        Bounds::between(upper_left, lower_right)
    }

    /// The smallest rectangle around two others.
    #[verifier::opaque]
    pub open spec fn hull(self, other: Bounds<ScaledPixels>) -> Bounds<ScaledPixels> {
        Bounds::between(
            self.origin.lowest(other.origin),
            self.far_corner().highest(other.far_corner()),
        )
    }

    /// The corner opposite to the origin.
    pub fn bottom_right(&self) -> (r: Point<ScaledPixels>)
        ensures
            r == self.far_corner(),
    {
        Point {
            x: ScaledPixels(self.origin.x.0.plus(self.size.width.0)),
            y: ScaledPixels(self.origin.y.0.plus(self.size.height.0)),
        }
    }

    /// The rectangle from one corner to the other.
    pub fn from_corners(upper_left: Point<ScaledPixels>, lower_right: Point<ScaledPixels>) -> (r:
        Bounds<ScaledPixels>)
        ensures
            r == Bounds::between(upper_left, lower_right),
    {
        Bounds {
            origin: upper_left,
            size: Size {
                width: ScaledPixels(lower_right.x.0.minus(upper_left.x.0)),
                height: ScaledPixels(lower_right.y.0.minus(upper_left.y.0)),
            },
        }
    }

    /// The part that two rectangles share; an empty one keeps its corner.
    pub fn intersect(&self, other: &Bounds<ScaledPixels>) -> (r: Bounds<ScaledPixels>)
        ensures
            r == self.common_part(*other),
    {
        proof {
            reveal(Bounds::<_>::common_part);
        }
        let upper_left = self.origin.larger(other.origin);
        let lower_right = self.bottom_right().smaller(other.bottom_right()).larger(upper_left);
        Bounds::from_corners(upper_left, lower_right)
    }

    /// The smallest rectangle around two others.
    pub fn union(&self, other: &Bounds<ScaledPixels>) -> (r: Bounds<ScaledPixels>)
        ensures
            r == self.hull(*other),
    {
        proof {
            reveal(Bounds::<_>::hull);
        }
        let upper_left = self.origin.smaller(other.origin);
        let lower_right = self.bottom_right().larger(other.bottom_right());
        Bounds::from_corners(upper_left, lower_right)
    }
}

impl Point<ScaledPixels> {
    /// The larger of both coordinates, each on its own.
    pub open spec fn highest(self, other: Point<ScaledPixels>) -> Point<ScaledPixels> {
        Point {
            x: ScaledPixels(self.x.0.maximum(other.x.0)),
            y: ScaledPixels(self.y.0.maximum(other.y.0)),
        }
    }

    /// The smaller of both coordinates, each on its own.
    pub open spec fn lowest(self, other: Point<ScaledPixels>) -> Point<ScaledPixels> {
        Point {
            x: ScaledPixels(self.x.0.minimum(other.x.0)),
            y: ScaledPixels(self.y.0.minimum(other.y.0)),
        }
    }

    /// The larger of both coordinates, each on its own.
    pub fn larger(self, other: Point<ScaledPixels>) -> (r: Point<ScaledPixels>)
        ensures
            r == self.highest(other),
    {
        Point {
            x: ScaledPixels(self.x.0.larger(other.x.0)),
            y: ScaledPixels(self.y.0.larger(other.y.0)),
        }
    }

    /// The smaller of both coordinates, each on its own.
    pub fn smaller(self, other: Point<ScaledPixels>) -> (r: Point<ScaledPixels>)
        ensures
            r == self.lowest(other),
    {
        Point {
            x: ScaledPixels(self.x.0.smaller(other.x.0)),
            y: ScaledPixels(self.y.0.smaller(other.y.0)),
        }
    }
}

/// The rectangle with this corner and this size.
pub fn rectangle(x: Float32, y: Float32, width: Float32, height: Float32) -> (r: Bounds<
    ScaledPixels,
>)
    ensures
        r.origin.x.0 == x,
        r.origin.y.0 == y,
        r.size.width.0 == width,
        r.size.height.0 == height,
{
    Bounds {
        origin: Point { x: ScaledPixels(x), y: ScaledPixels(y) },
        size: Size { width: ScaledPixels(width), height: ScaledPixels(height) },
    }
}

} // verus!
