//! The game: a board, a snake on it, an optional maze, an apple, and the
//! rules that take the game from one tick to the next.

use vstd::prelude::*;
use crate::board::{Board, MAX_SIDE, MIN_SIDE};
use crate::config::Config;
use crate::direction::Direction;
use crate::grid::{cells, in_grid, is_grid, is_open, is_wall, wall_at};
use crate::key::KeyCode;
use crate::maze::{build_maze, is_maze};
use crate::point::{generate_point, Point};
use crate::snake::{lemma_two_apart, Snake, SnakeView, SNAKE_INIT_SIZE};
use crate::spawn::has_spawn_room;

verus! {

/// What a game is at one moment.
pub struct GameView {
    /// Number of columns of the board.
    pub width: int,
    /// Number of rows of the board.
    pub height: int,
    pub snake: SnakeView,
    /// The walls, row by row, where the game has a maze.
    pub maze: Option<Seq<Seq<bool>>>,
    pub apple: Option<Point>,
    pub has_user_lost: bool,
    pub has_vertical_debt: bool,
    pub has_user_quit: bool,
}

impl GameView {
    /// The cell `(x, y)` lies on the board.
    pub open spec fn on_board(self, x: int, y: int) -> bool {
        0 <= x < self.width && 0 <= y < self.height
    }

    /// The cell `(x, y)` is a wall of the maze.
    pub open spec fn wall(self, x: int, y: int) -> bool {
        self.maze matches Some(grid) && is_wall(grid, x, y)
    }

    /// The game is lost in this position: the head is off the board, or on
    /// another segment, or on a wall.
    pub open spec fn is_losing(self) -> bool {
        ||| !self.on_board(self.snake.head().x as int, self.snake.head().y as int)
        ||| self.snake.self_collides()
        ||| self.wall(self.snake.head().x as int, self.snake.head().y as int)
    }

    /// The parts fit together: the board has an accepted size, the snake a
    /// body, and the maze the size of the board.
    pub open spec fn fits(self) -> bool {
        &&& MIN_SIDE <= self.width <= MAX_SIDE
        &&& MIN_SIDE <= self.height <= MAX_SIDE
        &&& self.snake.segments.len() > 0
        &&& self.maze matches Some(grid) ==> is_grid(grid, self.width, self.height)
    }

    /// The parts fit together, and the loss flag says whether the position
    /// is lost.
    pub open spec fn wf(self) -> bool {
        self.fits() && self.has_user_lost == self.is_losing()
    }

    /// The game is over: lost, or left by the user.
    pub open spec fn is_over(self) -> bool {
        self.has_user_lost || self.has_user_quit
    }

    /// The head lies on the apple.
    pub open spec fn head_on_apple(self) -> bool {
        self.apple == Some(self.snake.head())
    }

    /// An apple may be put on `p`: a cell of the board that neither the
    /// snake nor a wall occupies.
    pub open spec fn accepts_apple(self, p: Point) -> bool {
        &&& self.on_board(p.x as int, p.y as int)
        &&& !self.snake.segments.contains(p)
        &&& !self.wall(p.x as int, p.y as int)
    }

    /// Every cell of the board may take an apple: neither a segment of the
    /// snake nor a wall lies on the board.
    pub open spec fn is_bare(self) -> bool {
        forall|p: Point| self.on_board(p.x as int, p.y as int) ==> #[trigger] self.accepts_apple(p)
    }

    /// The game with the loss flag set as the position demands.
    pub open spec fn validated(self) -> GameView {
        GameView { has_user_lost: self.is_losing(), ..self }
    }

    /// The game after a request to turn the snake.
    pub open spec fn turned(self, direction: Direction) -> GameView {
        GameView { snake: self.snake.turned(direction), ..self }
    }

    /// The game after the snake has grown by a segment.
    pub open spec fn grown(self) -> GameView {
        GameView { snake: self.snake.grown(), ..self }.validated()
    }

    /// The game after one advance of the snake. On a horizontal heading
    /// the snake moves and the vertical debt is cleared. On a vertical
    /// heading it moves every other time only: with a debt it stays and the
    /// debt is cleared, without one it moves and runs up the debt.
    pub open spec fn advanced(self) -> GameView {
        if self.snake.direction.dx() == 0 {
            if self.has_vertical_debt {
                GameView { has_vertical_debt: false, ..self }.validated()
            } else {
                GameView {
                    has_vertical_debt: true,
                    snake: self.snake.moved(),
                    ..self
                }.validated()
            }
        } else {
            GameView { has_vertical_debt: false, snake: self.snake.moved(), ..self }.validated()
        }
    }

    /// The game after the key was read: `q` leaves the game, a direction
    /// key turns the snake, nothing else counts.
    pub open spec fn heard(self, key_event: Option<KeyCode>) -> GameView {
        match key_event {
            Some(key) => if key == KeyCode::Char('q') {
                GameView { has_user_quit: true, ..self }
            } else {
                match key_direction(key) {
                    Some(direction) => self.turned(direction),
                    None => self,
                }
            },
            None => self,
        }
    }

    /// The game one tick later. A game that is over stays as it is. Else
    /// the key is read; unless it leaves the game, a snake with its head on
    /// the apple eats it and grows, and any other snake advances.
    pub open spec fn ticked(self, key_event: Option<KeyCode>) -> GameView {
        if self.is_over() {
            self
        } else if self.heard(key_event).has_user_quit {
            self.heard(key_event)
        } else if self.heard(key_event).head_on_apple() {
            GameView { apple: None, ..self.heard(key_event).grown() }
        } else {
            self.heard(key_event).advanced()
        }
    }

    /// The game is as a game is right after it was set up with `config`:
    /// on a board of the asked size, running, with a vertical debt, the
    /// apple, if there is one, on a cell that may take it, and a snake of
    /// two segments heading right. Without a maze the snake starts in the
    /// middle of the board. With one, the maze is as `config` asks for it,
    /// and the snake starts with its tail on a cell from which four cells in
    /// a row are open and its head on the next of them.
    pub open spec fn starts_from(self, config: Config) -> bool {
        &&& self.width == config.width
        &&& self.height == config.height
        &&& !self.has_user_lost
        &&& !self.has_user_quit
        &&& self.has_vertical_debt
        &&& self.apple matches Some(p) ==> self.accepts_apple(p)
        &&& self.snake.direction == Direction::RIGHT
        &&& self.snake.segments.len() == 2
        &&& !config.enable_maze ==> {
            &&& self.maze.is_none()
            &&& self.snake == SnakeView::at_center(
                Point { x: (config.width / 2) as i32, y: (config.height / 2) as i32 },
            )
        }
        &&& config.enable_maze ==> {
            &&& self.maze matches Some(grid)
            &&& is_maze(grid, self.width, self.height, config.maze_freedom)
            &&& has_spawn_room(
                grid,
                self.snake.segments[1].x as int,
                self.snake.segments[1].y as int,
            )
            &&& self.snake.segments[0].x == self.snake.segments[1].x + 1
            &&& self.snake.segments[0].y == self.snake.segments[1].y
        }
    }

    /// Points won so far: a point for every segment beyond the first two.
    pub open spec fn score(self) -> int {
        let gained = self.snake.segments.len() - SNAKE_INIT_SIZE;
        if gained < 0 {
            0
        } else if gained > u32::MAX {
            u32::MAX as int
        } else {
            gained
        }
    }
}

/// The board that `config` asks for has sides of an accepted length.
pub open spec fn config_fits(config: Config) -> bool {
    &&& MIN_SIDE <= config.width <= MAX_SIDE
    &&& MIN_SIDE <= config.height <= MAX_SIDE
}

/// The heading that a key asks for: the arrow keys and `w`, `s`, `a`, `d`
/// ask for one.
pub open spec fn key_direction(key: KeyCode) -> Option<Direction> {
    match key {
        KeyCode::Up => Some(Direction::UP),
        KeyCode::Down => Some(Direction::DOWN),
        KeyCode::Left => Some(Direction::LEFT),
        KeyCode::Right => Some(Direction::RIGHT),
        KeyCode::Char(c) => if c == 'w' {
            Some(Direction::UP)
        } else if c == 's' {
            Some(Direction::DOWN)
        } else if c == 'a' {
            Some(Direction::LEFT)
        } else if c == 'd' {
            Some(Direction::RIGHT)
        } else {
            None
        },
        KeyCode::Other => None,
    }
}

/// In a game that is well formed and not lost the snake can advance: the
/// cell ahead of a head on the board has coordinates that can be written.
pub proof fn lemma_running_can_advance(game: GameView)
    requires
        game.wf(),
        !game.has_user_lost,
    ensures
        game.snake.can_advance(),
{
}

/// The vertical cadence. Take a running game whose snake heads up or down
/// and carries a vertical debt, with its head off the apple. The first tick
/// without a key clears the debt and leaves the snake where it is; the
/// second moves it by exactly one cell along its heading and runs up the
/// debt again.
pub proof fn lemma_vertical_cadence(game: GameView)
    requires
        game.wf(),
        !game.is_over(),
        game.has_vertical_debt,
        game.snake.direction == Direction::UP || game.snake.direction == Direction::DOWN,
        !game.head_on_apple(),
    ensures
        game.ticked(None).snake == game.snake,
        !game.ticked(None).has_vertical_debt,
        !game.ticked(None).is_over(),
        game.ticked(None).ticked(None).snake == game.snake.moved(),
        game.ticked(None).ticked(None).has_vertical_debt,
        game.ticked(None).ticked(None).snake.segments.len() == game.snake.segments.len(),
        game.ticked(None).ticked(None).snake.head().x == game.snake.head().x,
        game.ticked(None).ticked(None).snake.head().y == game.snake.head().y
            + game.snake.direction.dy(),
{
    let first = game.ticked(None);
    assert(first == (GameView { has_vertical_debt: false, ..game }).validated());
    assert(first.is_losing() == game.is_losing());
    let second = first.ticked(None);
    assert(second == first.advanced());
}

/// On a horizontal heading every tick moves the snake: a running game whose
/// snake heads left or right, with its head off the apple, has its snake
/// one cell further after a tick without a key, and no vertical debt.
pub proof fn lemma_horizontal_cadence(game: GameView)
    requires
        game.wf(),
        !game.is_over(),
        game.snake.direction == Direction::LEFT || game.snake.direction == Direction::RIGHT,
        !game.head_on_apple(),
    ensures
        game.ticked(None).snake == game.snake.moved(),
        !game.ticked(None).has_vertical_debt,
        game.ticked(None).snake.head().x == game.snake.head().x + game.snake.direction.dx(),
        game.ticked(None).snake.head().y == game.snake.head().y,
{
}

/// The loss flag of a game that is well formed tells whether the head is
/// off the board, on another segment or on a wall; this holds after every
/// tick.
pub proof fn lemma_tick_keeps_wf(game: GameView, key_event: Option<KeyCode>)
    requires
        game.wf(),
    ensures
        game.ticked(key_event).wf(),
        game.ticked(key_event).has_user_lost == game.ticked(key_event).is_losing(),
{
    let heard = game.heard(key_event);
    assert(heard.snake.segments == game.snake.segments);
    assert(heard.is_losing() == game.is_losing());
}

/// Why a game could not be set up.
#[derive(Clone, Copy, PartialEq, Eq, Debug, Structural)]
pub enum SetupError {
    /// A side of the board is outside the accepted range.
    InvalidBoard,
    /// The maze leaves no stretch of open cells for the snake to start on.
    TightMaze,
}

/// How often a tick draws a cell for a new apple before it goes on without
/// one. The next tick looks again.
pub const APPLE_ATTEMPTS: u32 = 4096;

/// A running game of snake.
pub struct Game {
    board: Board,
    snake: Snake,
    maze: Option<Vec<Vec<bool>>>,
    has_user_lost: bool,
    apple: Option<Point>,
    has_vertical_debt: bool,
    has_user_quit: bool,
}

impl View for Game {
    type V = GameView;

    closed spec fn view(&self) -> GameView {
        GameView {
            width: self.board.spec_width(),
            height: self.board.spec_height(),
            snake: self.snake@,
            maze: match self.maze {
                Some(maze) => Some(cells(&maze)),
                None => None,
            },
            apple: self.apple,
            has_user_lost: self.has_user_lost,
            has_vertical_debt: self.has_vertical_debt,
            has_user_quit: self.has_user_quit,
        }
    }
}

/// Whether `key_event` is the key that starts the game: `p`.
pub fn is_start_key(key_event: KeyCode) -> (starts: bool)
    ensures
        starts == (key_event == KeyCode::Char('p')),
{
    key_event == KeyCode::Char('p')
}

/// Whether `maze` has a row for every row of `board` and in every row a cell
/// for every column.
pub fn fits_board(maze: &Vec<Vec<bool>>, board: &Board) -> (fits: bool)
    ensures
        fits == is_grid(cells(maze), board.spec_width(), board.spec_height()),
{
    if maze.len() != board.get_height() {
        return false;
    }
    let mut y: usize = 0;
    while y < maze.len()
        invariant
            y <= maze@.len() == board.spec_height(),
            forall|j: int| 0 <= j < y ==> (#[trigger] cells(maze)[j]).len() == board.spec_width(),
        decreases maze@.len() - y,
    {
        if maze[y].len() != board.get_width() {
            assert(cells(maze)[y as int].len() != board.spec_width());
            return false;
        }
        y += 1;
    }
    true
}

impl Game {
    /// The state is well formed: see [`GameView::wf`]. Every constructor
    /// establishes this and every method keeps it.
    pub open spec fn wf(&self) -> bool {
        self@.wf()
    }

    /// A new game with the settings of `config`. Without a maze the snake
    /// starts in the middle of the board; with one it starts on a random
    /// stretch of open cells. The game is not lost, carries a vertical debt,
    /// and has an apple if a cell for one was found.
    ///
    /// Fails with `InvalidBoard` if and only if a side of the board is out
    /// of range, and with `TightMaze` where the maze that was built has no
    /// room for the snake. A game without a maze, and one whose maze is
    /// eroded with a chance of one, fail for no other reason than the size
    /// of the board.
    pub fn new(config: &Config) -> (made: Result<Game, SetupError>)
        ensures
            (made matches Err(error) && error == SetupError::InvalidBoard) <==> !config_fits(
                *config,
            ),
            (made matches Err(error) && error == SetupError::TightMaze) ==> {
                &&& config.enable_maze
                &&& !config.maze_freedom.is_always()
                &&& exists|grid: Seq<Seq<bool>>| #[trigger]
                    is_maze(grid, config.width as int, config.height as int, config.maze_freedom)
                        && forall|x: int, y: int| !has_spawn_room(grid, x, y)
            },
            config_fits(*config) && (!config.enable_maze || config.maze_freedom.is_always())
                ==> made.is_ok(),
            made matches Ok(game) ==> game.wf() && game@.starts_from(*config),
    {
        let board = match Board::new(config.get_width(), config.get_height()) {
            Some(board) => board,
            None => {
                return Err(SetupError::InvalidBoard);
            },
        };
        let center = board.get_center();

        let maze: Option<Vec<Vec<bool>>>;
        let snake: Snake;

        if config.is_maze_enabled() {
            let freedom = config.get_maze_freedom();
            let actual_maze = build_maze(&board, &freedom);
            snake = match Game::generate_snake_spawn_between_maze(&actual_maze, &board) {
                Some(snake) => snake,
                None => {
                    proof {
                        // a maze without walls has room in every row
                        let grid = cells(&actual_maze);
                        if config.maze_freedom.is_always() {
                            assert forall|c: int| 0 <= c < 4 implies #[trigger] is_open(
                                grid,
                                c,
                                0,
                            ) by {
                                assert(in_grid(grid, c, 0));
                            }
                            assert(has_spawn_room(grid, 0, 0));
                        }
                        assert(is_maze(
                            grid,
                            config.width as int,
                            config.height as int,
                            config.maze_freedom,
                        ));
                    }
                    return Err(SetupError::TightMaze);
                },
            };
            proof {
                let grid = cells(&actual_maze);
                let tail = snake@.segments[1];
                assert(is_open(grid, tail.x as int, tail.y as int));
                assert(is_open(grid, tail.x as int + 1, tail.y as int));
                lemma_two_apart(snake@);
            }
            maze = Some(actual_maze);
        } else {
            maze = None;
            snake = Snake::from_center(center);
            proof {
                lemma_two_apart(snake@);
            }
        }

        let mut game = Game {
            board,
            snake,
            maze,
            has_user_lost: false,
            apple: None,
            has_vertical_debt: true,
            has_user_quit: false,
        };
        game.generate_apple();

        Ok(game)
    }

    /// A game made of its parts. The game is lost from the start where the
    /// snake stands in a losing position; it carries a vertical debt. `None`
    /// when the maze has not the size of the board.
    pub fn from_parts(
        board: Board,
        snake: Snake,
        maze: Option<Vec<Vec<bool>>>,
        apple: Option<Point>,
    ) -> (game: Option<Game>)
        requires
            snake.wf(),
        ensures
            game.is_some() <==> (maze matches Some(m) ==> is_grid(
                cells(&m),
                board.spec_width(),
                board.spec_height(),
            )),
            game matches Some(g) ==> g.wf() && g@ == (GameView {
                width: board.spec_width(),
                height: board.spec_height(),
                snake: snake@,
                maze: match maze {
                    Some(m) => Some(cells(&m)),
                    None => None,
                },
                apple: apple,
                has_user_lost: false,
                has_vertical_debt: true,
                has_user_quit: false,
            }).validated(),
    {
        let fits = match &maze {
            Some(m) => fits_board(m, &board),
            None => true,
        };
        if !fits {
            return None;
        }
        proof {
            use_type_invariant(&board);
        }
        let mut game = Game {
            board,
            snake,
            maze,
            has_user_lost: false,
            apple,
            has_vertical_debt: true,
            has_user_quit: false,
        };
        game.validate_snake();
        Some(game)
    }

    /// Sets the loss flag: the game is lost if and only if the head is off
    /// the board, on another segment or on a wall.
    pub fn validate_snake(&mut self)
        requires
            old(self)@.fits(),
        ensures
            final(self)@ == old(self)@.validated(),
            final(self).wf(),
    {
        let head = *self.snake.get_head();
        self.has_user_lost = {
            head.get_x() >= self.board.get_width() as i32 || head.get_y()
                >= self.board.get_height() as i32 || head.get_x() < 0 || head.get_y() < 0
                || self.snake.is_self_collision() || self.has_snake_hit_wall()
        }
    }

    /// Whether the head of the snake lies on a wall of the maze.
    pub fn has_snake_hit_wall(&self) -> (hit: bool)
        requires
            self@.fits(),
            self@.on_board(self@.snake.head().x as int, self@.snake.head().y as int),
        ensures
            hit == self@.wall(self@.snake.head().x as int, self@.snake.head().y as int),
    {
        if let Some(maze) = &self.maze {
            let head = self.snake.get_head();
            return wall_at(maze, head.get_x() as usize, head.get_y() as usize);
        }
        false
    }

    /// Advances the snake by the cadence of [`GameView::advanced`], then
    /// sets the loss flag.
    pub fn move_snake_forward(&mut self)
        requires
            old(self)@.fits(),
            old(self)@.snake.can_advance(),
        ensures
            final(self).wf(),
            final(self)@ == old(self)@.advanced(),
    {
        if self.snake.get_direction().is_vertical() {
            if self.has_vertical_debt {
                self.has_vertical_debt = false;
            } else {
                self.has_vertical_debt = true;
                self.snake.move_forward();
            }
        } else {
            self.has_vertical_debt = false;
            self.snake.move_forward();
        }
        self.validate_snake();
    }

    /// Points won so far: a point for every segment beyond the first two.
    pub fn calculate_user_score(&self) -> (score: u32)
        ensures
            score == self@.score(),
    {
        let gained = self.snake.get_segments().len().saturating_sub(SNAKE_INIT_SIZE as usize);
        if gained > u32::MAX as usize {
            u32::MAX
        } else {
            gained as u32
        }
    }

    /// Lets the snake grow by a segment, then sets the loss flag.
    pub fn grow_snake(&mut self)
        requires
            old(self)@.fits(),
            old(self)@.snake.can_advance(),
        ensures
            final(self).wf(),
            final(self)@ == old(self)@.grown(),
    {
        self.snake.grow();
        self.validate_snake();
    }

    /// Asks the snake to turn to `direction`.
    pub fn change_snake_direction(&mut self, direction: Direction)
        ensures
            final(self)@ == old(self)@.turned(direction),
            final(self).wf() == old(self).wf(),
    {
        self.snake.change_direction(direction);
    }

    /// The heading that a key asks for, if it asks for one.
    pub fn get_direction_from_key_event(&self, key_event: KeyCode) -> (direction: Option<Direction>)
        ensures
            direction == key_direction(key_event),
    {
        match key_event {
            KeyCode::Up | KeyCode::Char('w') => Some(Direction::UP),
            KeyCode::Down | KeyCode::Char('s') => Some(Direction::DOWN),
            KeyCode::Left | KeyCode::Char('a') => Some(Direction::LEFT),
            KeyCode::Right | KeyCode::Char('d') => Some(Direction::RIGHT),
            _ => None,
        }
    }

    /// Reads the key that was pressed since the last tick, if any. On `q`
    /// the user leaves the game. Returns the heading that the key asks for.
    pub fn get_user_input(&mut self, key_event: Option<KeyCode>) -> (direction: Option<Direction>)
        ensures
            final(self).wf() == old(self).wf(),
            final(self)@ == (GameView {
                has_user_quit: old(self)@.has_user_quit || key_event == Some(KeyCode::Char('q')),
                ..old(self)@
            }),
            direction == match key_event {
                Some(key) => if key == KeyCode::Char('q') {
                    None
                } else {
                    key_direction(key)
                },
                None => None,
            },
    {
        match key_event {
            Some(key) => {
                if key == KeyCode::Char('q') {
                    self.has_user_quit = true;
                    return None;
                }
                let new_direction = self.get_direction_from_key_event(key);
                new_direction
            },
            None => None,
        }
    }

    /// Whether an apple may be put on `candidate`: on a cell of the board
    /// that neither the snake nor a wall occupies.
    pub fn accepts_apple(&self, candidate: Point) -> (accepted: bool)
        requires
            self@.fits(),
        ensures
            accepted == self@.accepts_apple(candidate),
    {
        if candidate.get_x() < 0 || candidate.get_y() < 0 || candidate.get_x()
            >= self.board.get_width() as i32
                || candidate.get_y() >= self.board.get_height() as i32 {
            return false;
        }
        if self.snake.occupies(candidate) {
            return false;
        }
        if let Some(maze) = &self.maze {
            if wall_at(maze, candidate.get_x() as usize, candidate.get_y() as usize) {
                return false;
            }
        }
        true
    }

    /// Puts the apple on `candidate` if the board has no apple and the cell
    /// may take one. Returns whether it did.
    pub fn offer_apple(&mut self, candidate: Point) -> (placed: bool)
        requires
            old(self).wf(),
        ensures
            final(self).wf(),
            placed == (old(self)@.apple.is_none() && old(self)@.accepts_apple(candidate)),
            placed ==> final(self)@ == (GameView { apple: Some(candidate), ..old(self)@ }),
            !placed ==> final(self)@ == old(self)@,
    {
        if self.apple.is_some() || !self.accepts_apple(candidate) {
            return false;
        }
        self.apple = Some(candidate);
        true
    }

    /// Looks for a cell for a new apple where the board has none: draws
    /// cells of the board at random until one may take the apple, at most
    /// [`APPLE_ATTEMPTS`] times. Nothing but the apple changes, and an apple
    /// that was there stays. The apple goes to the first cell drawn that may
    /// take it: so the board has an apple afterwards where every cell of it
    /// may take one, and none where no cell may.
    pub fn generate_apple(&mut self)
        requires
            old(self).wf(),
        ensures
            final(self).wf(),
            final(self)@ == (GameView { apple: final(self)@.apple, ..old(self)@ }),
            old(self)@.apple.is_some() ==> final(self)@.apple == old(self)@.apple,
            old(self)@.apple.is_none() ==> (final(self)@.apple matches Some(p)
                ==> old(self)@.accepts_apple(p)),
            old(self)@.is_bare() ==> final(self)@.apple.is_some(),
    {
        let width = self.board.get_width() as u32;
        let height = self.board.get_height() as u32;
        let mut attempts: u32 = APPLE_ATTEMPTS;
        while attempts > 0 && self.apple.is_none()
            invariant
                self.wf(),
                0 < width <= MAX_SIDE,
                0 < height <= MAX_SIDE,
                width == self@.width,
                height == self@.height,
                attempts <= APPLE_ATTEMPTS,
                self@ == (GameView { apple: self@.apple, ..old(self)@ }),
                old(self)@.apple.is_some() ==> self@.apple == old(self)@.apple,
                old(self)@.apple.is_none() ==> (self@.apple matches Some(p) ==> old(
                    self,
                )@.accepts_apple(p)),
                old(self)@.is_bare() && attempts < APPLE_ATTEMPTS ==> self@.apple.is_some(),
            decreases attempts,
        {
            let apple_point = generate_point(width, height);
            proof {
                // a cell of a bare board is taken whatever was drawn
                assert(self@.accepts_apple(apple_point) == old(self)@.accepts_apple(apple_point));
            }
            self.offer_apple(apple_point);
            attempts -= 1;
        }
    }

    /// Whether the head of the snake lies on the apple.
    pub fn is_snake_head_on_apple(&self) -> (on_apple: bool)
        requires
            self@.fits(),
        ensures
            on_apple == self@.head_on_apple(),
    {
        if let Some(apple_point) = self.apple {
            return *self.snake.get_head() == apple_point;
        }
        false
    }

    /// Takes the apple off the board.
    pub fn hide_apple(&mut self)
        ensures
            final(self)@ == (GameView { apple: None, ..old(self)@ }),
    {
        self.apple = None;
    }

    /// One tick of the game, given the key that was pressed since the last
    /// one. A game that is over stays as it is. On `q` the user leaves the
    /// game and the snake stays. Else a direction key turns the snake; then
    /// a snake with its head on the apple eats it and grows, and any other
    /// snake advances. The loss flag is set for the new position.
    pub fn tick(&mut self, key_event: Option<KeyCode>)
        requires
            old(self).wf(),
        ensures
            final(self).wf(),
            final(self)@ == old(self)@.ticked(key_event),
    {
        if self.is_over() {
            return;
        }
        let user_direction_option = self.get_user_input(key_event);
        if self.has_user_quit {
            return;
        }
        if let Some(user_direction) = user_direction_option {
            self.change_snake_direction(user_direction);
        }
        proof {
            lemma_running_can_advance(self@);
        }
        if self.is_snake_head_on_apple() {
            self.grow_snake();
            self.hide_apple();
        } else {
            self.move_snake_forward();
        }
    }

    pub fn has_user_lost(&self) -> (lost: bool)
        ensures
            lost == self@.has_user_lost,
    {
        self.has_user_lost
    }

    pub fn has_user_quit(&self) -> (quit: bool)
        ensures
            quit == self@.has_user_quit,
    {
        self.has_user_quit
    }

    pub fn has_vertical_debt(&self) -> (debt: bool)
        ensures
            debt == self@.has_vertical_debt,
    {
        self.has_vertical_debt
    }

    /// Whether the game is over: lost, or left by the user.
    pub fn is_over(&self) -> (over: bool)
        ensures
            over == self@.is_over(),
    {
        self.has_user_lost || self.has_user_quit
    }

    pub fn get_board(&self) -> (board: &Board)
        ensures
            board.spec_width() == self@.width,
            board.spec_height() == self@.height,
    {
        &self.board
    }

    pub fn get_snake(&self) -> (snake: &Snake)
        ensures
            snake@ == self@.snake,
    {
        &self.snake
    }

    pub fn get_apple(&self) -> (apple: Option<Point>)
        ensures
            apple == self@.apple,
    {
        self.apple
    }

    pub fn get_maze(&self) -> (maze: &Option<Vec<Vec<bool>>>)
        ensures
            match *maze {
                Some(m) => self@.maze == Some(cells(&m)),
                None => self@.maze.is_none(),
            },
    {
        &self.maze
    }
}

} // verus!
