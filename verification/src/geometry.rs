//! Points, sizes and rectangles on the pixel grid.

use crate::color::Rgb565;
use vstd::prelude::*;

verus! {

/// A point; `x` grows to the right and `y` downwards.
#[derive(Clone, Copy, PartialEq, Eq, Debug, Structural)]
pub struct Point {
    /// The x coordinate.
    pub x: i32,
    /// The y coordinate.
    pub y: i32,
}

/// A width and a height.
#[derive(Clone, Copy, PartialEq, Eq, Debug, Structural)]
pub struct Size {
    /// The width.
    pub width: u32,
    /// The height.
    pub height: u32,
}

/// A point and its colour.
#[derive(Clone, Copy, PartialEq, Eq, Debug, Structural)]
pub struct Pixel(pub Point, pub Rgb565);

/// An axis-aligned rectangle.
#[derive(Clone, Copy, PartialEq, Eq, Debug, Structural)]
pub struct Rectangle {
    /// The top left corner.
    pub top_left: Point,
    /// The extent from there.
    pub size: Size,
}

/// The smaller of two integers.
pub open spec fn smaller(a: int, b: int) -> int {
    if a <= b {
        a
    } else {
        b
    }
}

/// The larger of two integers.
pub open spec fn larger(a: int, b: int) -> int {
    if a <= b {
        b
    } else {
        a
    }
}

impl Rectangle {
    /// Whether no pixel is inside.
    pub open spec fn is_empty(self) -> bool {
        self.size.width == 0 || self.size.height == 0
    }

    /// The rightmost column of a rectangle that is not empty.
    pub open spec fn right(self) -> int {
        self.top_left.x + self.size.width - 1
    }

    /// The lowest row of a rectangle that is not empty.
    pub open spec fn bottom(self) -> int {
        self.top_left.y + self.size.height - 1
    }

    /// Whether the pixel in column `x` of row `y` is inside.
    pub open spec fn covers(self, x: int, y: int) -> bool {
        &&& self.top_left.x <= x <= self.right()
        &&& self.top_left.y <= y <= self.bottom()
    }

    /// Whether the far corner can be computed in `i32`: the extent fits, and so
    /// does the point one past the corner. Nothing is asked of an empty
    /// rectangle, which has no corner.
    pub open spec fn corners_fit(self) -> bool {
        !self.is_empty() ==> {
            &&& self.size.width <= i32::MAX
            &&& self.size.height <= i32::MAX
            &&& self.top_left.x + self.size.width <= i32::MAX
            &&& self.top_left.y + self.size.height <= i32::MAX
        }
    }

    /// Computes [`Rectangle::corners_fit`].
    pub fn far_corner_fits(&self) -> (fits: bool)
        ensures
            fits == self.corners_fit(),
    {
        let width = self.size.width as i64;
        let height = self.size.height as i64;
        let limit = i32::MAX as i64;
        width == 0 || height == 0 || (width <= limit && height <= limit && self.top_left.x as i64
            + width <= limit && self.top_left.y as i64 + height <= limit)
    }

    /// Whether the rectangles share a pixel.
    pub open spec fn meets(self, other: Rectangle) -> bool {
        &&& !self.is_empty()
        &&& !other.is_empty()
        &&& larger(self.top_left.x as int, other.top_left.x as int) <= smaller(
            self.right(),
            other.right(),
        )
        &&& larger(self.top_left.y as int, other.top_left.y as int) <= smaller(
            self.bottom(),
            other.bottom(),
        )
    }

    /// Calls embedded-graphics' `Rectangle::intersection`. Trusted: where the
    /// rectangles share a pixel, the result spans from the larger of the top left
    /// corners to the smaller of the bottom right ones; where they share none,
    /// it has no width or no height. Its position is left open then.
    #[verifier::external_body]
    pub(crate) fn intersection(&self, other: &Rectangle) -> (common: Rectangle)
        requires
            self.corners_fit(),
            other.corners_fit(),
        ensures
            self.meets(*other) ==> {
                &&& common.top_left.x == larger(self.top_left.x as int, other.top_left.x as int)
                &&& common.top_left.y == larger(self.top_left.y as int, other.top_left.y as int)
                &&& common.right() == smaller(self.right(), other.right())
                &&& common.bottom() == smaller(self.bottom(), other.bottom())
            },
            !self.meets(*other) ==> common.is_empty(),
    {
        let a = embedded_graphics::primitives::Rectangle::new(
            embedded_graphics::geometry::Point::new(self.top_left.x, self.top_left.y),
            embedded_graphics::geometry::Size::new(self.size.width, self.size.height),
        );
        let b = embedded_graphics::primitives::Rectangle::new(
            embedded_graphics::geometry::Point::new(other.top_left.x, other.top_left.y),
            embedded_graphics::geometry::Size::new(other.size.width, other.size.height),
        );
        let c = a.intersection(&b);
        let top_left = Point { x: c.top_left.x, y: c.top_left.y };
        Rectangle { top_left, size: Size { width: c.size.width, height: c.size.height } }
    }

    /// Calls embedded-graphics' `Rectangle::bottom_right`. Trusted: an empty
    /// rectangle gives `None`, any other its last pixel.
    #[verifier::external_body]
    pub(crate) fn bottom_right(&self) -> (corner: Option<Point>)
        requires
            self.corners_fit(),
        ensures
            self.is_empty() ==> corner is None,
            !self.is_empty() ==> {
                &&& corner is Some
                &&& corner->0.x == self.right()
                &&& corner->0.y == self.bottom()
            },
    {
        let area = embedded_graphics::primitives::Rectangle::new(
            embedded_graphics::geometry::Point::new(self.top_left.x, self.top_left.y),
            embedded_graphics::geometry::Size::new(self.size.width, self.size.height),
        );
        match area.bottom_right() {
            Some(corner) => Some(Point { x: corner.x, y: corner.y }),
            None => None,
        }
    }
}

impl Point {
    /// Calls embedded-graphics' `Point::component_max`. Trusted: each coordinate
    /// of the result is the larger of the two.
    #[verifier::external_body]
    pub(crate) fn component_max(&self, other: &Point) -> (max: Point)
        ensures
            max.x == larger(self.x as int, other.x as int),
            max.y == larger(self.y as int, other.y as int),
    {
        let a = embedded_graphics::geometry::Point::new(self.x, self.y);
        let b = embedded_graphics::geometry::Point::new(other.x, other.y);
        let max = a.component_max(b);
        Point { x: max.x, y: max.y }
    }
}

} // verus!
