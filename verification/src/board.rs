use vstd::prelude::*;
use crate::point::Point;

verus! {

/// Smallest side a board may have.
pub const MIN_SIDE: u32 = 8;

/// Largest side a board may have.
pub const MAX_SIDE: u32 = 1000;

/// The rectangular extent of the playing field. Both sides lie between
/// [`MIN_SIDE`] and [`MAX_SIDE`].
pub struct Board {
    width: usize,
    height: usize,
}

impl Board {
    /// Number of columns.
    pub closed spec fn spec_width(&self) -> int {
        self.width as int
    }

    /// Number of rows.
    pub closed spec fn spec_height(&self) -> int {
        self.height as int
    }

    /// Both sides are within the accepted range.
    #[verifier::type_invariant]
    pub open spec fn wf(&self) -> bool {
        &&& MIN_SIDE <= self.spec_width() <= MAX_SIDE
        &&& MIN_SIDE <= self.spec_height() <= MAX_SIDE
    }

    /// A board of `width` columns and `height` rows, or `None` when a side is
    /// outside the accepted range.
    pub fn new(width: u32, height: u32) -> (board: Option<Board>)
        ensures
            board.is_some() <==> (MIN_SIDE <= width <= MAX_SIDE && MIN_SIDE <= height <= MAX_SIDE),
            board matches Some(b) ==> b.spec_width() == width && b.spec_height() == height
                && b.wf(),
    {
        if width < MIN_SIDE || height < MIN_SIDE || width > MAX_SIDE || height > MAX_SIDE {
            return None;
        }
        Some(Board { width: width as usize, height: height as usize })
    }

    /// The cell in the middle of the board, rounded towards the origin.
    pub fn get_center(&self) -> (center: Point)
        ensures
            center.x == self.spec_width() / 2,
            center.y == self.spec_height() / 2,
    {
        proof {
            use_type_invariant(self);
        }
        Point::new(self.width as i32 / 2, self.height as i32 / 2)
    }

    pub fn get_width(&self) -> (width: usize)
        ensures
            width == self.spec_width(),
            MIN_SIDE <= width <= MAX_SIDE,
    {
        proof {
            use_type_invariant(self);
        }
        self.width
    }

    pub fn get_height(&self) -> (height: usize)
        ensures
            height == self.spec_height(),
            MIN_SIDE <= height <= MAX_SIDE,
    {
        proof {
            use_type_invariant(self);
        }
        self.height
    }
}

} // verus!
