use snake_game::board::Board;
use snake_game::game::Game;
use snake_game::grid::filled_grid;
use snake_game::point::Point;
use snake_game::snake::Snake;

fn lines(rows: &[&str], score: &str) -> String {
    let mut text = String::new();
    text.push_str("----------\r\n");
    for row in rows {
        text.push('|');
        text.push_str(row);
        text.push_str("|\r\n");
    }
    text.push_str("----------\r\n");
    text.push_str("\r\nYour score: ");
    text.push_str(score);
    text.push_str("\r\n\r\n");
    text
}

#[test]
fn frame_of_a_plain_game() {
    let board = Board::new(8, 8).unwrap();
    let snake = Snake::from_center(board.get_center());
    let game = Game::from_parts(board, snake, None, Some(Point::new(5, 4))).unwrap();
    let expected = lines(
        &[
            "        ",
            "        ",
            "        ",
            "        ",
            "   *@$  ",
            "        ",
            "        ",
            "        ",
        ],
        "0",
    );
    assert_eq!(game.render_frame(), expected);
}

#[test]
fn frame_is_exact_to_the_character() {
    let board = Board::new(8, 8).unwrap();
    let snake = Snake::from_center(board.get_center());
    let game = Game::from_parts(board, snake, None, None).unwrap();
    let expected = "----------\r\n|        |\r\n|        |\r\n|        |\r\n|        |\r\n|   *@   |\r\n|        |\r\n|        |\r\n|        |\r\n----------\r\n\r\nYour score: 0\r\n\r\n";
    assert_eq!(game.render_frame(), expected);
}

#[test]
fn frame_with_a_maze() {
    let board = Board::new(8, 8).unwrap();
    let snake = Snake::from_segments(vec![
        Point::new(2, 1),
        Point::new(2, 2),
        Point::new(3, 2),
        Point::new(4, 2),
    ]);
    let mut maze = filled_grid(8, 8, false);
    for x in 0..8 {
        maze[0][x] = true;
        maze[7][x] = true;
    }
    maze[3][3] = true;
    let game = Game::from_parts(board, snake, Some(maze), Some(Point::new(6, 5))).unwrap();
    let expected = lines(
        &[
            "########",
            "  @     ",
            "  ***   ",
            "   #    ",
            "        ",
            "      $ ",
            "        ",
            "########",
        ],
        "2",
    );
    assert_eq!(game.render_frame(), expected);
}

#[test]
fn field_has_a_glyph_for_every_cell() {
    let board = Board::new(9, 8).unwrap();
    let snake = Snake::from_segments(vec![Point::new(8, 7), Point::new(7, 7)]);
    let mut maze = filled_grid(9, 8, false);
    maze[0][0] = true;
    let game = Game::from_parts(board, snake, Some(maze), Some(Point::new(0, 7))).unwrap();
    let field = game.build_field();
    assert_eq!(field.len(), 8);
    for row in field.iter() {
        assert_eq!(row.len(), 9);
    }
    assert_eq!(field[0][0], '#');
    assert_eq!(field[7][8], '@');
    assert_eq!(field[7][7], '*');
    assert_eq!(field[7][0], '$');
    assert_eq!(field[3][3], ' ');
}

#[test]
fn head_covers_body_apple_and_wall() {
    let board = Board::new(8, 8).unwrap();
    let snake = Snake::from_segments(vec![Point::new(1, 1), Point::new(2, 1), Point::new(1, 1)]);
    let game = Game::from_parts(board, snake, Some(filled_grid(8, 8, true)), Some(Point::new(2, 1)))
        .unwrap();
    let field = game.build_field();
    assert_eq!(field[1][1], '@');
    assert_eq!(field[1][2], '*');
    assert_eq!(field[1][3], '#');
    let board = Board::new(8, 8).unwrap();
    let snake = Snake::from_center(board.get_center());
    let game = Game::from_parts(board, snake, Some(filled_grid(8, 8, true)), Some(Point::new(0, 0)))
        .unwrap();
    assert_eq!(game.build_field()[0][0], '$');
}

#[test]
fn segments_off_the_board_are_not_drawn() {
    let board = Board::new(8, 8).unwrap();
    let snake = Snake::from_segments(vec![Point::new(8, 3), Point::new(7, 3)]);
    let game = Game::from_parts(board, snake, None, Some(Point::new(-1, -1))).unwrap();
    assert!(game.has_user_lost());
    let expected = lines(
        &[
            "        ",
            "        ",
            "        ",
            "       *",
            "        ",
            "        ",
            "        ",
            "        ",
        ],
        "0",
    );
    assert_eq!(game.render_frame(), expected);
}

#[test]
fn score_is_written_in_decimal() {
    let board = Board::new(8, 8).unwrap();
    let mut segments = Vec::new();
    for x in 0..8 {
        segments.push(Point::new(x, 0));
    }
    for x in 0..6 {
        segments.push(Point::new(7 - x, 1));
    }
    let snake = Snake::from_segments(segments);
    let game = Game::from_parts(board, snake, None, None).unwrap();
    assert_eq!(game.calculate_user_score(), 12);
    let frame = game.render_frame();
    assert!(frame.ends_with("\r\nYour score: 12\r\n\r\n"));
    assert!(frame.starts_with("----------\r\n|@*******|\r\n|  ******|\r\n|        |\r\n"));
}

#[test]
fn score_with_three_digits() {
    let board = Board::new(8, 8).unwrap();
    let mut segments = Vec::new();
    for i in 0..107 {
        segments.push(Point::new(i % 8, (i / 8) % 8));
    }
    let snake = Snake::from_segments(segments);
    let game = Game::from_parts(board, snake, None, None).unwrap();
    assert!(game.render_frame().ends_with("\r\nYour score: 105\r\n\r\n"));
}

#[test]
fn closing_message_after_a_lost_game_only() {
    let board = Board::new(8, 8).unwrap();
    let snake = Snake::from_segments(vec![Point::new(8, 3), Point::new(7, 3)]);
    let game = Game::from_parts(board, snake, None, None).unwrap();
    assert_eq!(game.closing_message(), Some(String::from("GAME OVER!")));
    let board = Board::new(8, 8).unwrap();
    let snake = Snake::from_center(board.get_center());
    let mut game = Game::from_parts(board, snake, None, None).unwrap();
    assert_eq!(game.closing_message(), None);
    game.tick(Some(snake_game::key::KeyCode::Char('q')));
    assert_eq!(game.closing_message(), None);
}

#[test]
fn prepare_tick_shows_the_game_before_the_new_apple() {
    let board = Board::new(8, 8).unwrap();
    let snake = Snake::from_center(board.get_center());
    let mut game = Game::from_parts(board, snake, None, None).unwrap();
    let frame = game.prepare_tick().unwrap();
    assert!(!frame.contains('$'));
    assert!(frame.contains("|   *@   |"));
    let apple = game.get_apple().unwrap();
    assert!(apple != Point::new(4, 4) && apple != Point::new(3, 4));
    assert!(apple.get_x() >= 0 && apple.get_x() < 8 && apple.get_y() >= 0 && apple.get_y() < 8);
    let again = game.prepare_tick().unwrap();
    assert!(again.contains('$'));
    assert_eq!(game.get_apple(), Some(apple));
    assert_eq!(again, game.render_frame());
}

#[test]
fn prepare_tick_of_a_game_that_is_over_gives_no_frame() {
    let board = Board::new(8, 8).unwrap();
    let snake = Snake::from_segments(vec![Point::new(8, 3), Point::new(7, 3)]);
    let mut game = Game::from_parts(board, snake, None, None).unwrap();
    assert!(game.prepare_tick().is_none());
    assert_eq!(game.get_apple(), None);
    let board = Board::new(8, 8).unwrap();
    let snake = Snake::from_center(board.get_center());
    let mut game = Game::from_parts(board, snake, None, None).unwrap();
    game.tick(Some(snake_game::key::KeyCode::Char('q')));
    assert!(game.prepare_tick().is_none());
    assert_eq!(game.get_apple(), None);
}
