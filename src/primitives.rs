use vstd::prelude::*;

verus! {

/// A 2d point, both coordinates counted from the top left.
#[derive(Debug, Clone, Copy, PartialEq)]
pub struct Point<T> {
    pub x: T,
    pub y: T,
}

impl<T> Point<T> {
    /// Applies `f` to both coordinates.
    pub fn map<U, F: Fn(T) -> U>(self, f: F) -> (r: Point<U>)
        requires
            call_requires(f, (self.x,)),
            call_requires(f, (self.y,)),
        ensures
            call_ensures(f, (self.x,), r.x),
            call_ensures(f, (self.y,), r.y),
    {
        let Point { x, y } = self;
        Point { x: f(x), y: f(y) }
    }
}

/// A rectangle: its top-left corner and its size.
#[derive(Debug, Clone, PartialEq)]
pub struct Rectangle<T> {
    /// the top-left corner
    pub orig: Point<T>,
    /// the size, relative to `orig`
    pub size: Point<T>,
}

/// Whether `p` lies in `r`, borders included.
pub open spec fn spec_contains(r: Rectangle<i64>, p: Point<i64>) -> bool {
    &&& r.orig.x <= p.x <= r.orig.x + r.size.x
    &&& r.orig.y <= p.y <= r.orig.y + r.size.y
}

impl Rectangle<i64> {
    /// Checks whether `other` lies inside this rectangle, borders included.
    pub fn is_inside_inclusive(&self, other: Point<i64>) -> (r: bool)
        ensures
            r == spec_contains(*self, other),
    {
        let right = self.orig.x as i128 + self.size.x as i128;
        let bottom = self.orig.y as i128 + self.size.y as i128;
        self.orig.x <= other.x && (other.x as i128) <= right && self.orig.y <= other.y
            && (other.y as i128) <= bottom
    }
}

/// Vertical placement of content in its area.
#[derive(Debug, Clone, Copy, PartialEq, Eq)]
pub enum VertOrientation {
    Top,
    Middle,
    Bottom,
}

/// Horizontal placement of content in its area.
#[derive(Debug, Clone, Copy, PartialEq, Eq)]
pub enum HorOrientation {
    Left,
    Middle,
    Right,
}

/// Placement of content in its area.
#[derive(Debug, Clone, Copy, PartialEq, Eq)]
pub struct Orientation {
    pub vertical: VertOrientation,
    pub horizontal: HorOrientation,
}

impl Default for Orientation {
    /// Top left.
    fn default() -> (r: Orientation)
        ensures
            r.vertical == VertOrientation::Top,
            r.horizontal == HorOrientation::Left,
    {
        Orientation { vertical: VertOrientation::Top, horizontal: HorOrientation::Left }
    }
}

} // verus!
