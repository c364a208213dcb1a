use std::collections::VecDeque;
use vstd::prelude::*;
use crate::direction::Direction;
use crate::point::Point;

verus! {

/// Number of segments a snake starts with.
pub const SNAKE_INIT_SIZE: u32 = 2;

/// What a snake is: its cells from head to tail, and its heading.
pub struct SnakeView {
    pub segments: Seq<Point>,
    pub direction: Direction,
}

impl SnakeView {
    /// The front segment.
    pub open spec fn head(self) -> Point {
        self.segments[0]
    }

    /// Whether the cell ahead of the head has representable coordinates.
    pub open spec fn can_advance(self) -> bool {
        self.head().can_step(self.direction)
    }

    /// The snake with one more segment in front of the head.
    pub open spec fn grown(self) -> SnakeView {
        SnakeView {
            segments: seq![self.head().stepped(self.direction)] + self.segments,
            direction: self.direction,
        }
    }

    /// The snake one cell further: a new head in front, the tail dropped.
    pub open spec fn moved(self) -> SnakeView {
        SnakeView { segments: self.grown().segments.drop_last(), direction: self.direction }
    }

    /// Whether a turn to `direction` is taken up: every turn is, but the one
    /// that would reverse the snake on its own axis.
    pub open spec fn accepts_turn(self, direction: Direction) -> bool {
        direction != self.direction.opposite()
    }

    /// The snake after a request to head in `direction`.
    pub open spec fn turned(self, direction: Direction) -> SnakeView {
        if self.accepts_turn(direction) {
            SnakeView { segments: self.segments, direction }
        } else {
            self
        }
    }

    /// Whether some segment behind the head lies on the head's cell.
    pub open spec fn self_collides(self) -> bool {
        exists|i: int|
            1 <= i < self.segments.len() && #[trigger] self.segments[i] == self.segments[0]
    }

    /// The snake that starts at `center`: two segments, heading right.
    pub open spec fn at_center(center: Point) -> SnakeView {
        SnakeView {
            segments: seq![center, Point { x: (center.x - 1) as i32, y: center.y }],
            direction: Direction::RIGHT,
        }
    }
}

/// A snake of two segments on different cells does not collide with itself.
pub proof fn lemma_two_apart(snake: SnakeView)
    requires
        snake.segments.len() == 2,
        snake.segments[0] != snake.segments[1],
    ensures
        !snake.self_collides(),
{
}

/// A snake that was just put on the board does not collide with itself.
pub proof fn lemma_fresh_snake_apart(center: Point)
    requires
        center.x > i32::MIN,
    ensures
        !SnakeView::at_center(center).self_collides(),
{
    lemma_two_apart(SnakeView::at_center(center));
}

/// Where the snake moves, its head goes one cell along the heading and the
/// number of segments stays; where it grows, the number goes up by one.
pub proof fn lemma_move_and_grow(snake: SnakeView)
    requires
        snake.segments.len() > 0,
        snake.can_advance(),
    ensures
        snake.moved().segments.len() == snake.segments.len(),
        snake.grown().segments.len() == snake.segments.len() + 1,
        snake.moved().head() == snake.head().stepped(snake.direction),
        snake.grown().head() == snake.head().stepped(snake.direction),
        snake.moved().head().x == snake.head().x + snake.direction.dx(),
        snake.moved().head().y == snake.head().y + snake.direction.dy(),
        forall|i: int| 1 <= i < snake.segments.len()
            ==> snake.moved().segments[i] == snake.segments[i - 1],
        forall|i: int| 1 <= i <= snake.segments.len()
            ==> snake.grown().segments[i] == snake.segments[i - 1],
{
}

/// A request to reverse the heading changes nothing.
pub proof fn lemma_reversal_ignored(snake: SnakeView)
    ensures
        snake.turned(snake.direction.opposite()) == snake,
        forall|direction: Direction|
            direction != snake.direction.opposite()
                ==> (#[trigger] snake.turned(direction)).direction
                == direction,
{
}

/// The body of the snake, head first, and the heading of its next advance.
/// The body is never empty.
pub struct Snake {
    segments: VecDeque<Point>,
    direction: Direction,
}

impl View for Snake {
    type V = SnakeView;

    closed spec fn view(&self) -> SnakeView {
        SnakeView { segments: self.segments@, direction: self.direction }
    }
}

impl Snake {
    /// A snake has at least one segment. Every constructor establishes this
    /// and every method keeps it.
    pub open spec fn wf(&self) -> bool {
        self@.segments.len() > 0
    }

    /// A snake of two segments heading right: the head on `center`, the tail
    /// one cell to its left.
    pub fn from_center(center: Point) -> (snake: Snake)
        requires
            center.x > i32::MIN,
        ensures
            snake@ == SnakeView::at_center(center),
            snake.wf(),
    {
        let mut segments: VecDeque<Point> = VecDeque::new();
        segments.push_back(center);
        segments.push_back(center.change_by_x(-1));
        assert(segments@ =~= SnakeView::at_center(center).segments);
        Snake { segments, direction: Direction::RIGHT }
    }

    /// A snake with the given cells, head first, heading right.
    pub fn from_segments(segments: Vec<Point>) -> (snake: Snake)
        requires
            segments@.len() > 0,
        ensures
            snake@.segments == segments@,
            snake@.direction == Direction::RIGHT,
            snake.wf(),
    {
        let mut body: VecDeque<Point> = VecDeque::new();
        let mut i: usize = 0;
        while i < segments.len()
            invariant
                i <= segments@.len(),
                body@ == segments@.subrange(0, i as int),
            decreases segments@.len() - i,
        {
            body.push_back(segments[i]);
            i += 1;
            assert(body@ =~= segments@.subrange(0, i as int));
        }
        assert(segments@.subrange(0, i as int) =~= segments@);
        Snake { segments: body, direction: Direction::RIGHT }
    }

    /// Whether the head lies on a cell that another segment occupies.
    pub fn is_self_collision(&self) -> (collides: bool)
        requires
            self.wf(),
        ensures
            collides == self@.self_collides(),
    {
        let head = self.segments[0];
        let mut i: usize = 1;
        while i < self.segments.len()
            invariant
                1 <= i,
                self.segments@.len() > 0,
                head == self.segments@[0],
                forall|j: int|
                    1 <= j < i && j < self.segments@.len() ==> #[trigger] self.segments@[j]
                        != head,
            decreases self.segments@.len() - i,
        {
            if self.segments[i] == head {
                assert(self@.segments[i as int] == self@.segments[0]);
                return true;
            }
            i += 1;
        }
        false
    }

    /// Whether a turn to `direction` is allowed: it is unless it reverses the
    /// current heading.
    pub fn validate_direction_change(&self, direction: Direction) -> (valid: bool)
        ensures
            valid == self@.accepts_turn(direction),
    {
        match (self.get_direction(), direction) {
            (Direction::LEFT, Direction::RIGHT) => false,
            (Direction::RIGHT, Direction::LEFT) => false,
            (Direction::UP, Direction::DOWN) => false,
            (Direction::DOWN, Direction::UP) => false,
            _ => true,
        }
    }

    /// Takes `direction` as the new heading, unless it reverses the current
    /// one: then nothing changes.
    pub fn change_direction(&mut self, direction: Direction)
        ensures
            final(self)@ == old(self)@.turned(direction),
            direction == old(self)@.direction.opposite() ==> final(self)@ == old(self)@,
            final(self).wf() == old(self).wf(),
    {
        if !self.validate_direction_change(direction) {
            return;
        }
        self.direction = direction;
    }

    /// Moves the whole body one cell along the heading. The number of
    /// segments stays the same.
    pub fn move_forward(&mut self)
        requires
            old(self).wf(),
            old(self)@.can_advance(),
        ensures
            final(self).wf(),
            final(self)@ == old(self)@.moved(),
            final(self)@.segments.len() == old(self)@.segments.len(),
    {
        self.grow();
        self.segments.pop_back();
        assert(self.segments@ =~= old(self)@.moved().segments);
    }

    /// Puts a new head in front of the old one, one cell along the heading.
    /// The snake gets one segment longer.
    pub fn grow(&mut self)
        requires
            old(self).wf(),
            old(self)@.can_advance(),
        ensures
            final(self).wf(),
            final(self)@ == old(self)@.grown(),
            final(self)@.segments.len() == old(self)@.segments.len() + 1,
    {
        let head = self.segments[0];
        let new_head = match self.direction {
            Direction::DOWN => Point::new(head.get_x(), head.get_y() + 1),
            Direction::UP => Point::new(head.get_x(), head.get_y() - 1),
            Direction::RIGHT => Point::new(head.get_x() + 1, head.get_y()),
            Direction::LEFT => Point::new(head.get_x() - 1, head.get_y()),
        };
        self.segments.push_front(new_head);
    }

    /// Whether some segment lies on `point`.
    pub fn occupies(&self, point: Point) -> (occupied: bool)
        ensures
            occupied == self@.segments.contains(point),
    {
        let mut i: usize = 0;
        while i < self.segments.len()
            invariant
                forall|j: int|
                    0 <= j < i && j < self.segments@.len() ==> #[trigger] self.segments@[j]
                        != point,
            decreases self.segments@.len() - i,
        {
            if self.segments[i] == point {
                assert(self@.segments[i as int] == point);
                return true;
            }
            i += 1;
        }
        false
    }

    pub fn get_segments(&self) -> (segments: &VecDeque<Point>)
        ensures
            segments@ == self@.segments,
    {
        &self.segments
    }

    pub fn get_head(&self) -> (head: &Point)
        requires
            self.wf(),
        ensures
            *head == self@.head(),
    {
        &self.segments[0]
    }

    pub fn get_direction(&self) -> (direction: Direction)
        ensures
            direction == self@.direction,
    {
        self.direction
    }
}

} // verus!
