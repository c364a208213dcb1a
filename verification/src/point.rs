use vstd::prelude::*;
use crate::direction::Direction;
use crate::random::random_below;

verus! {

/// A cell position: `x` counts columns to the right, `y` rows downwards.
#[derive(Clone, Copy, PartialEq, Eq, Debug, Structural)]
pub struct Point {
    pub x: i32,
    pub y: i32,
}

impl Point {
    /// Whether the step along `heading` stays within the coordinate type.
    pub open spec fn can_step(self, heading: Direction) -> bool {
        &&& i32::MIN <= self.x + heading.dx() <= i32::MAX
        &&& i32::MIN <= self.y + heading.dy() <= i32::MAX
    }

    /// The point one step from `self` along `heading`. Meaningful where
    /// [`Point::can_step`] holds.
    pub open spec fn stepped(self, heading: Direction) -> Point {
        Point { x: (self.x + heading.dx()) as i32, y: (self.y + heading.dy()) as i32 }
    }

    pub fn new(x: i32, y: i32) -> (p: Point)
        ensures
            p.x == x,
            p.y == y,
    {
        Point { x, y }
    }

    /// The point `change` columns to the right of `self`.
    pub fn change_by_x(&self, change: i32) -> (p: Point)
        requires
            i32::MIN <= self.x + change <= i32::MAX,
        ensures
            p.x == self.x + change,
            p.y == self.y,
    {
        Point { x: self.x + change, y: self.y }
    }

    /// The point `change` rows below `self`.
    pub fn change_by_y(&self, change: i32) -> (p: Point)
        requires
            i32::MIN <= self.y + change <= i32::MAX,
        ensures
            p.x == self.x,
            p.y == self.y + change,
    {
        Point { x: self.x, y: self.y + change }
    }

    pub fn get_x(&self) -> (x: i32)
        ensures
            x == self.x,
    {
        self.x
    }

    pub fn get_y(&self) -> (y: i32)
        ensures
            y == self.y,
    {
        self.y
    }
}

/// A point drawn at random among the cells of a field of `width` columns and
/// `height` rows.
pub fn generate_point(width: u32, height: u32) -> (p: Point)
    requires
        0 < width <= i32::MAX,
        0 < height <= i32::MAX,
    ensures
        0 <= p.x < width,
        0 <= p.y < height,
{
    let rand_x = random_below(width) as i32;
    let rand_y = random_below(height) as i32;
    Point::new(rand_x, rand_y)
}

} // verus!
