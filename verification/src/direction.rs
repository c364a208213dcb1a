use vstd::prelude::*;

verus! {

/// One of the four headings a snake can have.
#[allow(non_camel_case_types)]
#[derive(PartialEq, Eq, Copy, Clone, Debug, Structural)]
pub enum Direction {
    UP,
    DOWN,
    LEFT,
    RIGHT,
}

impl Direction {
    /// The heading that points the other way on the same axis.
    pub open spec fn opposite(self) -> Direction {
        match self {
            Direction::UP => Direction::DOWN,
            Direction::DOWN => Direction::UP,
            Direction::LEFT => Direction::RIGHT,
            Direction::RIGHT => Direction::LEFT,
        }
    }

    /// Change of the x coordinate on one step along this heading.
    pub open spec fn dx(self) -> int {
        match self {
            Direction::LEFT => -1,
            Direction::RIGHT => 1,
            _ => 0,
        }
    }

    /// Change of the y coordinate on one step along this heading. Rows are
    /// counted downwards, so `UP` lowers y.
    pub open spec fn dy(self) -> int {
        match self {
            Direction::UP => -1,
            Direction::DOWN => 1,
            _ => 0,
        }
    }

    /// `UP` and `DOWN` are vertical, `LEFT` and `RIGHT` horizontal.
    pub fn is_vertical(&self) -> (vertical: bool)
        ensures
            vertical == (*self == Direction::UP || *self == Direction::DOWN),
            vertical == (self.dx() == 0),
    {
        match *self {
            Direction::UP | Direction::DOWN => true,
            _ => false,
        }
    }
}

} // verus!
