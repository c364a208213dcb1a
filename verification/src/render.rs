//! The picture of a game: a character for every cell, and the frame of
//! text that shows the board with its border and the score.

use vstd::prelude::*;
use vstd::string::StringExecFns;
use crate::game::{Game, GameView};
use crate::grid::{cells, is_grid, is_wall, wall_at};
use crate::point::Point;
use crate::text::{decimal_text, printed, push_dashes, push_decimal, push_row};

verus! {

/// The character that ends a line of the frame, twice: carriage return and
/// line feed.
pub open spec fn line_end() -> Seq<char> {
    seq!['\r', '\n']
}

/// The words in front of the score, on a line after an empty one.
pub open spec fn score_label() -> Seq<char> {
    seq!['\r', '\n', 'Y', 'o', 'u', 'r', ' ', 's', 'c', 'o', 'r', 'e', ':', ' ']
}

/// What the user is told after a lost game.
pub open spec fn game_over_text() -> Seq<char> {
    seq!['G', 'A', 'M', 'E', ' ', 'O', 'V', 'E', 'R', '!']
}

/// The upper and the lower border of a board of `width` columns.
pub open spec fn border_text(width: int) -> Seq<char> {
    Seq::new((width + 2) as nat, |i: int| '-') + line_end()
}

impl GameView {
    /// One of the first `count` segments of the snake lies on `(x, y)`.
    pub open spec fn body_covers(self, count: int, x: int, y: int) -> bool {
        exists|i: int|
            0 <= i < count && i < self.snake.segments.len() && (#[trigger] self.snake.segments[i]).x
                == x && self.snake.segments[i].y == y
    }

    /// The apple lies on `(x, y)`.
    pub open spec fn apple_at(self, x: int, y: int) -> bool {
        self.apple matches Some(p) && p.x == x && p.y == y
    }

    /// What the cell `(x, y)` shows with the first `count` segments of the
    /// snake drawn: `*` for a segment, `$` for the apple, `#` for a wall,
    /// else a blank.
    pub open spec fn glyph_below_head(self, count: int, x: int, y: int) -> char {
        if self.body_covers(count, x, y) {
            '*'
        } else if self.apple_at(x, y) {
            '$'
        } else {
            wall_glyph(self.wall(x, y))
        }
    }

    /// What the cell `(x, y)` shows: `@` for the head of the snake, `*` for
    /// another segment, `$` for the apple, `#` for a wall, else a blank.
    pub open spec fn glyph(self, x: int, y: int) -> char {
        if self.snake.head().x == x && self.snake.head().y == y {
            '@'
        } else {
            self.glyph_below_head(self.snake.segments.len() as int, x, y)
        }
    }

    /// The line of the frame that shows row `y`, between two bars.
    pub open spec fn row_text(self, y: int) -> Seq<char> {
        seq!['|'] + Seq::new(self.width as nat, |x: int| self.glyph(x, y)) + seq!['|'] + line_end()
    }

    /// The lines of the first `count` rows.
    pub open spec fn rows_text(self, count: int) -> Seq<char>
        decreases count,
    {
        if count <= 0 {
            Seq::empty()
        } else {
            self.rows_text(count - 1) + self.row_text(count - 1)
        }
    }

    /// The frame: the border, a line for every row, the border again, an
    /// empty line, the score, and an empty line.
    pub open spec fn frame_text(self) -> Seq<char> {
        border_text(self.width) + self.rows_text(self.height) + border_text(self.width)
            + score_label() + decimal_text(self.score() as nat) + line_end() + line_end()
    }
}

/// `field` has a character for every cell of the board of `game`, and each
/// is what the cell shows with the first `count` segments drawn.
pub open spec fn shows_below_head(field: &Vec<Vec<char>>, game: GameView, count: int) -> bool {
    &&& field@.len() == game.height
    &&& forall|y: int| 0 <= y < game.height ==> (#[trigger] field@[y])@.len() == game.width
    &&& forall|x: int, y: int|
        game.on_board(x, y) ==> (#[trigger] field@[y]@[x]) == game.glyph_below_head(count, x, y)
}

/// `field` has a character for every cell of the board of `game`, and each
/// is what the cell shows.
pub open spec fn shows(field: &Vec<Vec<char>>, game: GameView) -> bool {
    &&& field@.len() == game.height
    &&& forall|y: int| 0 <= y < game.height ==> (#[trigger] field@[y])@.len() == game.width
    &&& forall|x: int, y: int| game.on_board(x, y)
        ==> (#[trigger] field@[y]@[x]) == game.glyph(x, y)
}

/// A field of `height` rows and `width` columns of blanks.
fn blank_field(width: usize, height: usize) -> (field: Vec<Vec<char>>)
    ensures
        field@.len() == height,
        forall|y: int| 0 <= y < height ==> (#[trigger] field@[y])@.len() == width,
        forall|x: int, y: int| 0 <= y < height && 0 <= x < width
            ==> (#[trigger] field@[y]@[x]) == ' ',
{
    let mut row: Vec<char> = Vec::new();
    while row.len() < width
        invariant
            row@.len() <= width,
            forall|x: int| 0 <= x < row@.len() ==> row@[x] == ' ',
        decreases width - row@.len(),
    {
        row.push(' ');
    }
    let mut field: Vec<Vec<char>> = Vec::new();
    while field.len() < height
        invariant
            field@.len() <= height,
            row@.len() == width,
            forall|x: int| 0 <= x < row@.len() ==> row@[x] == ' ',
            forall|y: int| 0 <= y < field@.len() ==> (#[trigger] field@[y])@ == row@,
        decreases height - field@.len(),
    {
        let copy = row.clone();
        assert(copy@ =~= row@);
        field.push(copy);
    }
    field
}

/// Writes `glyph` on the cell that `at` stands on, if that is a cell of the
/// field.
fn draw(field: &mut Vec<Vec<char>>, at: Point, glyph: char, width: usize, height: usize)
    requires
        old(field)@.len() == height,
        forall|y: int| 0 <= y < height ==> (#[trigger] old(field)@[y])@.len() == width,
    ensures
        final(field)@.len() == height,
        forall|y: int| 0 <= y < height ==> (#[trigger] final(field)@[y])@.len() == width,
        forall|x: int, y: int|
            0 <= y < height && 0 <= x < width ==> (#[trigger] final(field)@[y]@[x]) == (if at.x == x
                && at.y == y {
                glyph
            } else {
                old(field)@[y]@[x]
            }),
{
    if at.get_x() < 0 || at.get_y() < 0 {
        return;
    }
    let x = at.get_x() as usize;
    let y = at.get_y() as usize;
    if x < width && y < height {
        field[y][x] = glyph;
    }
}

/// What a cell shows that nothing lies on: `#` for a wall, else a blank.
pub open spec fn wall_glyph(wall: bool) -> char {
    if wall {
        '#'
    } else {
        ' '
    }
}

/// Writes `#` on every cell of the blank `field` that is a wall of `maze`.
fn draw_walls(field: &mut Vec<Vec<char>>, maze: &Vec<Vec<bool>>, width: usize, height: usize)
    requires
        is_grid(cells(maze), width as int, height as int),
        old(field)@.len() == height,
        forall|y: int| 0 <= y < height ==> (#[trigger] old(field)@[y])@.len() == width,
        forall|x: int, y: int|
            0 <= y < height && 0 <= x < width ==> (#[trigger] old(field)@[y]@[x]) == ' ',
    ensures
        final(field)@.len() == height,
        forall|y: int| 0 <= y < height ==> (#[trigger] final(field)@[y])@.len() == width,
        forall|x: int, y: int|
            0 <= y < height && 0 <= x < width ==> (#[trigger] final(field)@[y]@[x]) == wall_glyph(
                is_wall(cells(maze), x, y),
            ),
{
    let mut y: usize = 0;
    while y < height
        invariant
            y <= height,
            is_grid(cells(maze), width as int, height as int),
            field@.len() == height,
            forall|j: int| 0 <= j < height ==> (#[trigger] field@[j])@.len() == width,
            forall|i: int, j: int|
                0 <= j < height && 0 <= i < width ==> (#[trigger] field@[j]@[i]) == wall_glyph(
                    j < y && is_wall(cells(maze), i, j),
                ),
        decreases height - y,
    {
        let mut x: usize = 0;
        while x < width
            invariant
                y < height,
                x <= width,
                is_grid(cells(maze), width as int, height as int),
                field@.len() == height,
                forall|j: int| 0 <= j < height ==> (#[trigger] field@[j])@.len() == width,
                forall|i: int, j: int|
                    0 <= j < height && 0 <= i < width ==> (#[trigger] field@[j]@[i]) == wall_glyph(
                        (j < y || (j == y && i < x)) && is_wall(cells(maze), i, j),
                    ),
            decreases width - x,
        {
            if wall_at(maze, x, y) {
                field[y][x] = '#';
            }
            x += 1;
        }
        y += 1;
    }
}

impl Game {
    /// The picture of the board: for every cell the character that it shows,
    /// row by row.
    pub fn build_field(&self) -> (field: Vec<Vec<char>>)
        requires
            self.wf(),
        ensures
            shows(&field, self@),
    {
        let width = self.get_board().get_width();
        let height = self.get_board().get_height();
        let mut field = blank_field(width, height);

        if let Some(maze) = self.get_maze() {
            draw_walls(&mut field, maze, width, height);
        }

        if let Some(apple_point) = self.get_apple() {
            draw(&mut field, apple_point, '$', width, height);
        }
        assert(shows_below_head(&field, self@, 0));

        let segments = self.get_snake().get_segments();
        let mut k: usize = 0;
        while k < segments.len()
            invariant
                k <= segments@.len(),
                segments@ == self@.snake.segments,
                width == self@.width,
                height == self@.height,
                shows_below_head(&field, self@, k as int),
            decreases segments@.len() - k,
        {
            let seg = segments[k];
            let ghost before = field;
            draw(&mut field, seg, '*', width, height);
            proof {
                // the cell shows a segment if it did, or if the new one lies on it
                assert forall|x: int, y: int| self@.on_board(x, y) implies #[trigger] field@[y]@[x]
                    == self@.glyph_below_head(k + 1, x, y) by {
                    assert(before@[y]@[x] == self@.glyph_below_head(k as int, x, y));
                    assert(self@.body_covers(k + 1, x, y) == (self@.body_covers(k as int, x, y) || (
                    seg.x == x && seg.y == y))) by {
                        if seg.x == x && seg.y == y {
                            assert(self@.snake.segments[k as int].x == x);
                        }
                    }
                }
            }
            k += 1;
        }

        let head = self.get_snake().get_head();
        draw(&mut field, *head, '@', width, height);

        field
    }

    /// The first half of a tick, before the pause and the key: the frame
    /// that shows the game as it is, and then a look for a new apple where
    /// the board has none. A game that is over gives no frame and stays as
    /// it is: the main loop ends.
    pub fn prepare_tick(&mut self) -> (frame: Option<String>)
        requires
            old(self).wf(),
        ensures
            final(self).wf(),
            frame.is_some() == !old(self)@.is_over(),
            frame matches Some(text) ==> text@ == old(self)@.frame_text(),
            final(self)@ == (GameView { apple: final(self)@.apple, ..old(self)@ }),
            old(self)@.is_over() || old(self)@.apple.is_some() ==> final(self)@ == old(self)@,
            old(self)@.apple.is_none() ==> (final(self)@.apple matches Some(p) ==> old(
                self,
            )@.accepts_apple(p)),
    {
        if self.is_over() {
            return None;
        }
        let frame = self.render_frame();
        self.generate_apple();
        Some(frame)
    }

    /// What to tell the user when the game has ended: that the game is
    /// over after a lost game, and nothing after a game that the user left.
    pub fn closing_message(&self) -> (message: Option<String>)
        ensures
            message.is_some() == self@.has_user_lost,
            message matches Some(text) ==> text@ == game_over_text(),
    {
        if self.has_user_lost() {
            proof {
                reveal_strlit("GAME OVER!");
                assert("GAME OVER!"@ =~= game_over_text());
            }
            Some(String::from_str("GAME OVER!"))
        } else {
            None
        }
    }

    /// The frame that shows the game: the board inside a border of `-` and
    /// `|`, then an empty line and the score. The lines end in a carriage
    /// return and a line feed.
    pub fn render_frame(&self) -> (frame: String)
        requires
            self.wf(),
        ensures
            frame@ == self@.frame_text(),
    {
        let width = self.get_board().get_width();
        let height = self.get_board().get_height();
        let mut frame = String::new();
        proof {
            reveal_strlit("|");
            reveal_strlit("\r\n");
            reveal_strlit("\r\nYour score: ");
            reveal_strlit("\r\n\r\n");
            assert("|"@ =~= seq!['|']);
            assert("\r\n"@ =~= line_end());
            assert("\r\nYour score: "@ =~= score_label());
            assert("\r\n\r\n"@ =~= line_end() + line_end());
        }

        push_dashes(&mut frame, width + 2);
        frame.append("\r\n");
        assert(frame@ =~= border_text(self@.width) + self@.rows_text(0));

        let field = self.build_field();
        let mut y: usize = 0;
        while y < height
            invariant
                y <= height == self@.height,
                width == self@.width,
                shows(&field, self@),
                "|"@ == seq!['|'],
                "\r\n"@ == line_end(),
                frame@ == border_text(self@.width) + self@.rows_text(y as int),
            decreases height - y,
        {
            let ghost before = frame@;
            frame.append("|");
            push_row(&mut frame, &field[y]);
            frame.append("|");
            frame.append("\r\n");
            proof {
                // every cell shows one of the characters that are printed as they are
                assert(field@[y as int]@.map_values(|cell: char| printed(cell)) =~= Seq::new(
                    self@.width as nat,
                    |x: int| self@.glyph(x, y as int),
                )) by {
                    assert forall|x: int| 0 <= x < self@.width implies printed(
                        #[trigger] field@[y as int]@[x],
                    ) == self@.glyph(x, y as int) by {
                        assert(self@.on_board(x, y as int));
                    }
                }
                assert(frame@ =~= before + self@.row_text(y as int));
                assert(self@.rows_text(y + 1) == self@.rows_text(y as int) + self@.row_text(
                    y as int,
                ));
            }
            y += 1;
            assert(frame@ =~= border_text(self@.width) + self@.rows_text(y as int));
        }

        push_dashes(&mut frame, width + 2);
        frame.append("\r\n");
        frame.append("\r\nYour score: ");
        push_decimal(&mut frame, self.calculate_user_score());
        frame.append("\r\n\r\n");
        assert(frame@ =~= self@.frame_text());
        frame
    }
}

} // verus!
