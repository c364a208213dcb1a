use snake_game::board::Board;
use snake_game::chance::Chance;
use snake_game::config::Config;
use snake_game::direction::Direction;
use snake_game::game::{is_start_key, Game, SetupError, APPLE_ATTEMPTS};
use snake_game::grid::{filled_grid, open_cell};
use snake_game::key::KeyCode;
use snake_game::point::Point;
use snake_game::snake::Snake;

fn body(game: &Game) -> Vec<(i32, i32)> {
    game.get_snake().get_segments().iter().map(|p| (p.get_x(), p.get_y())).collect()
}

fn plain_game(apple: Option<Point>) -> Game {
    let board = Board::new(8, 8).unwrap();
    let snake = Snake::from_center(board.get_center());
    Game::from_parts(board, snake, None, apple).unwrap()
}

fn game_with(segments: Vec<Point>, turns: &[Direction], maze: Option<Vec<Vec<bool>>>) -> Game {
    let board = Board::new(8, 8).unwrap();
    let mut snake = Snake::from_segments(segments);
    for turn in turns {
        snake.change_direction(*turn);
    }
    Game::from_parts(board, snake, maze, None).unwrap()
}

#[test]
fn game_from_parts_starts_running() {
    let game = plain_game(Some(Point::new(1, 1)));
    assert!(!game.has_user_lost());
    assert!(!game.has_user_quit());
    assert!(game.has_vertical_debt());
    assert!(!game.is_over());
    assert_eq!(body(&game), vec![(4, 4), (3, 4)]);
    assert_eq!(game.get_apple(), Some(Point::new(1, 1)));
    assert!(game.get_maze().is_none());
    assert_eq!(game.get_board().get_width(), 8);
    assert_eq!(game.get_board().get_height(), 8);
}

#[test]
fn game_from_parts_refuses_a_maze_of_another_size() {
    let board = Board::new(8, 8).unwrap();
    let snake = Snake::from_center(board.get_center());
    assert!(Game::from_parts(board, snake, Some(filled_grid(8, 9, false)), None).is_none());
    let board = Board::new(8, 8).unwrap();
    let snake = Snake::from_center(board.get_center());
    assert!(Game::from_parts(board, snake, Some(filled_grid(7, 8, false)), None).is_none());
    let board = Board::new(8, 8).unwrap();
    let snake = Snake::from_center(board.get_center());
    let mut ragged = filled_grid(8, 8, false);
    ragged[3].pop();
    assert!(Game::from_parts(board, snake, Some(ragged), None).is_none());
    let board = Board::new(8, 8).unwrap();
    let snake = Snake::from_center(board.get_center());
    assert!(Game::from_parts(board, snake, Some(filled_grid(8, 8, false)), None).is_some());
}

#[test]
fn game_from_parts_sees_a_lost_position() {
    let game = game_with(vec![Point::new(8, 3), Point::new(7, 3)], &[], None);
    assert!(game.has_user_lost());
    let game = game_with(vec![Point::new(2, 2), Point::new(2, 2)], &[], None);
    assert!(game.has_user_lost());
    let game = game_with(vec![Point::new(2, 2), Point::new(1, 2)], &[], Some(filled_grid(8, 8, true)));
    assert!(game.has_user_lost());
    let game = game_with(vec![Point::new(2, 2), Point::new(1, 2)], &[], Some(filled_grid(8, 8, false)));
    assert!(!game.has_user_lost());
}

#[test]
fn horizontal_snake_moves_every_tick() {
    let mut game = plain_game(None);
    game.tick(None);
    assert_eq!(body(&game), vec![(5, 4), (4, 4)]);
    assert!(!game.has_vertical_debt());
    game.tick(None);
    assert_eq!(body(&game), vec![(6, 4), (5, 4)]);
    assert!(!game.has_vertical_debt());
    assert!(!game.has_user_lost());
}

#[test]
fn vertical_snake_moves_every_other_tick() {
    let mut game = game_with(vec![Point::new(4, 4), Point::new(3, 4)], &[Direction::UP], None);
    assert!(game.has_vertical_debt());
    game.tick(None);
    assert_eq!(body(&game), vec![(4, 4), (3, 4)]);
    assert!(!game.has_vertical_debt());
    game.tick(None);
    assert_eq!(body(&game), vec![(4, 3), (4, 4)]);
    assert!(game.has_vertical_debt());
    game.tick(None);
    assert_eq!(body(&game), vec![(4, 3), (4, 4)]);
    assert!(!game.has_vertical_debt());
    game.tick(None);
    assert_eq!(body(&game), vec![(4, 2), (4, 3)]);
    assert!(game.has_vertical_debt());
    assert!(!game.has_user_lost());
}

#[test]
fn vertical_cadence_downwards() {
    let mut game = game_with(vec![Point::new(4, 4), Point::new(3, 4)], &[Direction::DOWN], None);
    game.tick(None);
    assert_eq!(body(&game), vec![(4, 4), (3, 4)]);
    game.tick(None);
    assert_eq!(body(&game), vec![(4, 5), (4, 4)]);
}

#[test]
fn turn_to_vertical_after_a_horizontal_tick_moves_at_once() {
    let mut game = plain_game(None);
    game.tick(None);
    assert!(!game.has_vertical_debt());
    game.tick(Some(KeyCode::Up));
    assert_eq!(body(&game), vec![(5, 3), (5, 4)]);
    assert!(game.has_vertical_debt());
    game.tick(None);
    assert_eq!(body(&game), vec![(5, 3), (5, 4)]);
    assert!(!game.has_vertical_debt());
}

#[test]
fn move_snake_forward_follows_the_cadence() {
    let mut game = game_with(vec![Point::new(4, 4), Point::new(3, 4)], &[Direction::UP], None);
    game.move_snake_forward();
    assert_eq!(body(&game), vec![(4, 4), (3, 4)]);
    assert!(!game.has_vertical_debt());
    game.move_snake_forward();
    assert_eq!(body(&game), vec![(4, 3), (4, 4)]);
    assert!(game.has_vertical_debt());
    game.change_snake_direction(Direction::RIGHT);
    game.move_snake_forward();
    assert_eq!(body(&game), vec![(5, 3), (4, 3)]);
    assert!(!game.has_vertical_debt());
}

#[test]
fn apple_ahead_is_reached_then_eaten() {
    let mut game = plain_game(Some(Point::new(5, 4)));
    assert!(!game.is_snake_head_on_apple());
    game.tick(None);
    assert_eq!(body(&game), vec![(5, 4), (4, 4)]);
    assert!(game.is_snake_head_on_apple());
    assert_eq!(game.get_apple(), Some(Point::new(5, 4)));
    assert!(!game.has_user_lost());
    game.tick(None);
    assert_eq!(body(&game), vec![(6, 4), (5, 4), (4, 4)]);
    assert_eq!(game.get_apple(), None);
    assert!(!game.has_user_lost());
    assert_eq!(game.calculate_user_score(), 1);
}

#[test]
fn apple_under_the_head_grows_the_snake_in_one_tick() {
    let mut game = plain_game(Some(Point::new(4, 4)));
    assert!(game.is_snake_head_on_apple());
    game.tick(None);
    assert_eq!(body(&game), vec![(5, 4), (4, 4), (3, 4)]);
    assert_eq!(game.get_apple(), None);
    assert!(!game.has_user_lost());
    assert!(!game.is_over());
}

#[test]
fn eating_ignores_the_cadence() {
    let board = Board::new(8, 8).unwrap();
    let mut snake = Snake::from_center(board.get_center());
    snake.change_direction(Direction::UP);
    let mut game = Game::from_parts(board, snake, None, Some(Point::new(4, 4))).unwrap();
    game.tick(None);
    assert_eq!(body(&game), vec![(4, 3), (4, 4), (3, 4)]);
    assert!(game.has_vertical_debt());
}

#[test]
fn leaving_the_left_edge_loses() {
    let mut game = game_with(
        vec![Point::new(0, 3), Point::new(0, 4)],
        &[Direction::UP, Direction::LEFT],
        None,
    );
    assert!(game.get_snake().get_direction() == Direction::LEFT);
    assert!(!game.has_user_lost());
    game.tick(None);
    assert_eq!(body(&game), vec![(-1, 3), (0, 3)]);
    assert!(game.has_user_lost());
    assert!(game.is_over());
}

#[test]
fn move_forward_off_the_left_edge_then_validation_loses() {
    let board = Board::new(8, 8).unwrap();
    let mut snake = Snake::from_segments(vec![Point::new(0, 3), Point::new(0, 4)]);
    snake.change_direction(Direction::UP);
    snake.change_direction(Direction::LEFT);
    snake.move_forward();
    let mut game = Game::from_parts(board, snake, None, None).unwrap();
    assert!(game.has_user_lost());
    game.validate_snake();
    assert!(game.has_user_lost());
}

#[test]
fn leaving_the_other_edges_loses() {
    let mut game = game_with(vec![Point::new(7, 3), Point::new(6, 3)], &[], None);
    game.tick(None);
    assert_eq!(body(&game), vec![(8, 3), (7, 3)]);
    assert!(game.has_user_lost());

    let mut game = game_with(vec![Point::new(3, 0), Point::new(2, 0)], &[Direction::UP], None);
    game.tick(None);
    assert!(!game.has_user_lost());
    game.tick(None);
    assert_eq!(body(&game), vec![(3, -1), (3, 0)]);
    assert!(game.has_user_lost());

    let mut game = game_with(vec![Point::new(3, 7), Point::new(2, 7)], &[Direction::DOWN], None);
    game.tick(None);
    game.tick(None);
    assert_eq!(body(&game), vec![(3, 8), (3, 7)]);
    assert!(game.has_user_lost());
}

#[test]
fn running_into_the_body_loses() {
    let mut game = game_with(
        vec![
            Point::new(4, 4),
            Point::new(4, 5),
            Point::new(5, 5),
            Point::new(5, 4),
            Point::new(5, 3),
        ],
        &[],
        None,
    );
    assert!(!game.has_user_lost());
    game.tick(None);
    assert_eq!(body(&game)[0], (5, 4));
    assert!(game.has_user_lost());
}

#[test]
fn running_into_a_wall_loses() {
    let mut maze = filled_grid(8, 8, false);
    maze[4][6] = true;
    let mut game = game_with(vec![Point::new(4, 4), Point::new(3, 4)], &[], Some(maze));
    game.tick(None);
    assert!(!game.has_user_lost());
    game.tick(None);
    assert_eq!(body(&game), vec![(6, 4), (5, 4)]);
    assert!(game.has_user_lost());
    assert!(game.has_snake_hit_wall());
}

#[test]
fn a_game_that_is_over_stays_as_it_is() {
    let mut game = game_with(vec![Point::new(7, 3), Point::new(6, 3)], &[], None);
    game.tick(None);
    assert!(game.has_user_lost());
    let before = body(&game);
    game.tick(Some(KeyCode::Up));
    game.tick(None);
    assert_eq!(body(&game), before);
    assert!(game.get_snake().get_direction() == Direction::RIGHT);
    assert!(game.has_user_lost());
    assert!(!game.has_user_quit());
}

#[test]
fn quit_key_ends_the_game_without_a_move() {
    let mut game = plain_game(Some(Point::new(4, 4)));
    game.tick(Some(KeyCode::Char('q')));
    assert!(game.has_user_quit());
    assert!(!game.has_user_lost());
    assert!(game.is_over());
    assert_eq!(body(&game), vec![(4, 4), (3, 4)]);
    assert_eq!(game.get_apple(), Some(Point::new(4, 4)));
    game.tick(None);
    assert_eq!(body(&game), vec![(4, 4), (3, 4)]);
}

#[test]
fn keys_map_to_five_signals() {
    let game = plain_game(None);
    let up = [KeyCode::Up, KeyCode::Char('w')];
    let down = [KeyCode::Down, KeyCode::Char('s')];
    let left = [KeyCode::Left, KeyCode::Char('a')];
    let right = [KeyCode::Right, KeyCode::Char('d')];
    for key in up {
        assert!(game.get_direction_from_key_event(key) == Some(Direction::UP));
    }
    for key in down {
        assert!(game.get_direction_from_key_event(key) == Some(Direction::DOWN));
    }
    for key in left {
        assert!(game.get_direction_from_key_event(key) == Some(Direction::LEFT));
    }
    for key in right {
        assert!(game.get_direction_from_key_event(key) == Some(Direction::RIGHT));
    }
    for key in [KeyCode::Other, KeyCode::Char('x'), KeyCode::Char('W'), KeyCode::Char('q'), KeyCode::Char('p')] {
        assert!(game.get_direction_from_key_event(key).is_none());
    }
}

#[test]
fn user_input_tells_quit_from_turns() {
    let mut game = plain_game(None);
    assert!(game.get_user_input(None).is_none());
    assert!(!game.has_user_quit());
    assert!(game.get_user_input(Some(KeyCode::Char('x'))).is_none());
    assert!(!game.has_user_quit());
    assert!(game.get_user_input(Some(KeyCode::Left)) == Some(Direction::LEFT));
    assert!(game.get_snake().get_direction() == Direction::RIGHT);
    assert!(!game.has_user_quit());
    assert!(game.get_user_input(Some(KeyCode::Char('q'))).is_none());
    assert!(game.has_user_quit());
}

#[test]
fn start_key_is_p() {
    assert!(is_start_key(KeyCode::Char('p')));
    assert!(!is_start_key(KeyCode::Char('P')));
    assert!(!is_start_key(KeyCode::Char('q')));
    assert!(!is_start_key(KeyCode::Up));
    assert!(!is_start_key(KeyCode::Other));
}

#[test]
fn direction_keys_turn_the_snake_but_never_back() {
    let mut game = plain_game(None);
    game.tick(Some(KeyCode::Left));
    assert!(game.get_snake().get_direction() == Direction::RIGHT);
    assert_eq!(body(&game), vec![(5, 4), (4, 4)]);
    game.tick(Some(KeyCode::Char('s')));
    assert!(game.get_snake().get_direction() == Direction::DOWN);
    assert_eq!(body(&game), vec![(5, 5), (5, 4)]);
    game.tick(Some(KeyCode::Char('w')));
    assert!(game.get_snake().get_direction() == Direction::DOWN);
    game.tick(Some(KeyCode::Other));
    assert!(game.get_snake().get_direction() == Direction::DOWN);
}

#[test]
fn score_counts_the_segments_beyond_two() {
    let game = game_with(vec![Point::new(4, 4)], &[], None);
    assert_eq!(game.calculate_user_score(), 0);
    let game = plain_game(None);
    assert_eq!(game.calculate_user_score(), 0);
    let mut game = plain_game(None);
    game.grow_snake();
    assert_eq!(game.calculate_user_score(), 1);
    game.grow_snake();
    assert_eq!(game.calculate_user_score(), 2);
    assert_eq!(body(&game), vec![(6, 4), (5, 4), (4, 4), (3, 4)]);
}

#[test]
fn hide_apple_takes_the_apple_away() {
    let mut game = plain_game(Some(Point::new(1, 1)));
    game.hide_apple();
    assert_eq!(game.get_apple(), None);
    assert_eq!(body(&game), vec![(4, 4), (3, 4)]);
}

#[test]
fn apple_is_accepted_on_free_cells_only() {
    let mut maze = filled_grid(8, 8, false);
    maze[0][0] = true;
    let game = game_with(vec![Point::new(4, 4), Point::new(3, 4)], &[], Some(maze));
    assert!(game.accepts_apple(Point::new(1, 0)));
    assert!(game.accepts_apple(Point::new(7, 7)));
    assert!(!game.accepts_apple(Point::new(0, 0)));
    assert!(!game.accepts_apple(Point::new(4, 4)));
    assert!(!game.accepts_apple(Point::new(3, 4)));
    assert!(!game.accepts_apple(Point::new(8, 0)));
    assert!(!game.accepts_apple(Point::new(0, 8)));
    assert!(!game.accepts_apple(Point::new(-1, 0)));
    assert!(!game.accepts_apple(Point::new(0, -1)));
}

#[test]
fn offered_apple_is_placed_once() {
    let mut game = plain_game(None);
    assert!(!game.offer_apple(Point::new(4, 4)));
    assert_eq!(game.get_apple(), None);
    assert!(game.offer_apple(Point::new(6, 2)));
    assert_eq!(game.get_apple(), Some(Point::new(6, 2)));
    assert!(!game.offer_apple(Point::new(1, 1)));
    assert_eq!(game.get_apple(), Some(Point::new(6, 2)));
}

#[test]
fn attempts_for_an_apple_are_bounded() {
    assert_eq!(APPLE_ATTEMPTS, 4096);
}

#[test]
fn generated_apple_lies_on_a_free_cell() {
    for _ in 0..200 {
        let mut maze = filled_grid(8, 8, true);
        open_cell(&mut maze, 3, 4);
        open_cell(&mut maze, 4, 4);
        open_cell(&mut maze, 5, 4);
        open_cell(&mut maze, 2, 6);
        let mut game = game_with(vec![Point::new(4, 4), Point::new(3, 4)], &[], Some(maze));
        game.generate_apple();
        let apple = game.get_apple().unwrap();
        assert!(apple == Point::new(5, 4) || apple == Point::new(2, 6));
        assert_eq!(body(&game), vec![(4, 4), (3, 4)]);
        assert!(!game.has_user_lost());
        assert!(game.has_vertical_debt());
    }
}

#[test]
fn apple_is_found_on_a_bare_board() {
    // with the snake off the board and no maze every cell may take the apple
    for _ in 0..200 {
        let mut game = game_with(vec![Point::new(8, 3), Point::new(9, 3)], &[], None);
        assert!(game.has_user_lost());
        game.generate_apple();
        let apple = game.get_apple().unwrap();
        assert!(apple.get_x() >= 0 && apple.get_x() < 8);
        assert!(apple.get_y() >= 0 && apple.get_y() < 8);
        assert_eq!(body(&game), vec![(8, 3), (9, 3)]);
    }
    let mut game = game_with(
        vec![Point::new(-1, 0)],
        &[],
        Some(filled_grid(8, 8, false)),
    );
    game.generate_apple();
    assert!(game.get_apple().is_some());
}

#[test]
fn generate_apple_keeps_an_apple_that_is_there() {
    let mut game = plain_game(Some(Point::new(1, 1)));
    for _ in 0..20 {
        game.generate_apple();
        assert_eq!(game.get_apple(), Some(Point::new(1, 1)));
    }
}

#[test]
fn generate_apple_gives_up_on_a_full_board() {
    let mut game = game_with(
        vec![Point::new(4, 4), Point::new(3, 4)],
        &[],
        Some(filled_grid(8, 8, true)),
    );
    game.generate_apple();
    assert_eq!(game.get_apple(), None);
}

#[test]
fn new_game_without_maze() {
    let config = Config::new(8, 8, 100, false, Chance::new(1, 2).unwrap());
    let game = Game::new(&config).ok().unwrap();
    assert_eq!(body(&game), vec![(4, 4), (3, 4)]);
    assert!(game.get_snake().get_direction() == Direction::RIGHT);
    assert!(game.get_maze().is_none());
    assert!(!game.has_user_lost());
    assert!(!game.has_user_quit());
    assert!(game.has_vertical_debt());
    let apple = game.get_apple().unwrap();
    assert!(game.get_board().get_width() == 8 && game.get_board().get_height() == 8);
    assert!(apple.get_x() >= 0 && apple.get_x() < 8 && apple.get_y() >= 0 && apple.get_y() < 8);
    assert!(apple != Point::new(4, 4) && apple != Point::new(3, 4));

    let config = Config::new(32, 16, 100, false, Chance::new(1, 2).unwrap());
    let game = Game::new(&config).ok().unwrap();
    assert_eq!(body(&game), vec![(16, 8), (15, 8)]);
}

#[test]
fn new_game_refuses_a_board_out_of_range() {
    for (width, height) in [(7, 8), (8, 7), (1001, 8), (8, 1001), (0, 0)] {
        for enable_maze in [false, true] {
            let config = Config::new(width, height, 100, enable_maze, Chance::new(1, 2).unwrap());
            assert!(matches!(Game::new(&config), Err(SetupError::InvalidBoard)));
        }
    }
}

#[test]
fn new_game_in_an_open_maze() {
    let config = Config::new(12, 9, 100, true, Chance::new(1, 1).unwrap());
    for _ in 0..20 {
        let game = Game::new(&config).ok().unwrap();
        assert_eq!(game.get_maze().clone().unwrap(), vec![vec![false; 12]; 9]);
        let cells = body(&game);
        assert_eq!(cells.len(), 2);
        assert_eq!(cells[0], (cells[1].0 + 1, cells[1].1));
        assert!(cells[1].0 >= 0 && cells[1].0 + 3 < 12);
        assert!(cells[1].1 >= 0 && cells[1].1 < 9);
        assert!(!game.has_user_lost());
        assert!(game.get_apple().is_some());
    }
}

#[test]
fn new_game_in_a_maze_starts_on_open_cells() {
    let config = Config::new(20, 12, 100, true, Chance::new(1, 4).unwrap());
    let mut made = 0;
    for _ in 0..50 {
        match Game::new(&config) {
            Ok(game) => {
                made += 1;
                let maze = game.get_maze().clone().unwrap();
                assert_eq!(maze.len(), 12);
                assert_eq!(maze[0].len(), 20);
                let cells = body(&game);
                assert_eq!(cells[0], (cells[1].0 + 1, cells[1].1));
                for ahead in 0..4 {
                    assert!(!maze[cells[1].1 as usize][cells[1].0 as usize + ahead]);
                }
                assert!(!game.has_user_lost());
                if let Some(apple) = game.get_apple() {
                    assert!(!maze[apple.get_y() as usize][apple.get_x() as usize]);
                    assert!(!cells.contains(&(apple.get_x(), apple.get_y())));
                }
            }
            Err(error) => assert!(error == SetupError::TightMaze),
        }
    }
    assert!(made > 0);
}

#[test]
fn config_keeps_its_settings() {
    let freedom = Chance::new(3, 10).unwrap();
    let config = Config::new(32, 16, 120, true, freedom);
    assert_eq!(config.get_width(), 32);
    assert_eq!(config.get_height(), 16);
    assert_eq!(config.get_pause_time(), 120);
    assert!(config.is_maze_enabled());
    assert_eq!(config.get_maze_freedom().get_numerator(), 3);
    assert_eq!(config.get_maze_freedom().get_denominator(), 10);
}
