use snake_game::direction::Direction;
use snake_game::point::Point;
use snake_game::snake::{Snake, SNAKE_INIT_SIZE};

fn cells(snake: &Snake) -> Vec<(i32, i32)> {
    snake.get_segments().iter().map(|p| (p.get_x(), p.get_y())).collect()
}

fn heading(snake: &mut Snake, direction: Direction) {
    // a quarter turn first, so that a reversal is never asked for
    match direction {
        Direction::LEFT => {
            snake.change_direction(Direction::UP);
            snake.change_direction(Direction::LEFT);
        }
        other => snake.change_direction(other),
    }
}

#[test]
fn initial_size_is_two() {
    assert_eq!(SNAKE_INIT_SIZE, 2);
}

#[test]
fn snake_from_center_has_two_segments_heading_right() {
    let snake = Snake::from_center(Point::new(4, 4));
    assert_eq!(cells(&snake), vec![(4, 4), (3, 4)]);
    assert!(snake.get_direction() == Direction::RIGHT);
    assert_eq!(*snake.get_head(), Point::new(4, 4));
    assert_eq!(snake.get_segments().len(), SNAKE_INIT_SIZE as usize);
}

#[test]
fn snake_from_segments_keeps_the_order() {
    let snake = Snake::from_segments(vec![Point::new(1, 1), Point::new(1, 2), Point::new(2, 2)]);
    assert_eq!(cells(&snake), vec![(1, 1), (1, 2), (2, 2)]);
    assert!(snake.get_direction() == Direction::RIGHT);
    assert_eq!(*snake.get_head(), Point::new(1, 1));
}

#[test]
fn fresh_snake_does_not_collide_with_itself() {
    let snake = Snake::from_center(Point::new(4, 4));
    assert!(!snake.is_self_collision());
    let snake = Snake::from_center(Point::new(0, 0));
    assert!(!snake.is_self_collision());
}

#[test]
fn single_segment_does_not_collide() {
    let snake = Snake::from_segments(vec![Point::new(0, 0)]);
    assert!(!snake.is_self_collision());
}

#[test]
fn head_on_another_segment_collides() {
    let snake = Snake::from_segments(vec![
        Point::new(2, 2),
        Point::new(2, 3),
        Point::new(3, 3),
        Point::new(3, 2),
        Point::new(2, 2),
    ]);
    assert!(snake.is_self_collision());
    let snake = Snake::from_segments(vec![Point::new(2, 2), Point::new(2, 2)]);
    assert!(snake.is_self_collision());
}

#[test]
fn segments_that_meet_behind_the_head_are_no_collision() {
    let snake = Snake::from_segments(vec![Point::new(0, 0), Point::new(5, 5), Point::new(5, 5)]);
    assert!(!snake.is_self_collision());
}

#[test]
fn reversal_is_never_accepted() {
    let pairs = [
        (Direction::UP, Direction::DOWN),
        (Direction::DOWN, Direction::UP),
        (Direction::LEFT, Direction::RIGHT),
        (Direction::RIGHT, Direction::LEFT),
    ];
    for (current, opposite) in pairs {
        let mut snake = Snake::from_center(Point::new(4, 4));
        heading(&mut snake, current);
        assert!(snake.get_direction() == current);
        let before = cells(&snake);
        snake.change_direction(opposite);
        assert!(snake.get_direction() == current);
        assert_eq!(cells(&snake), before);
        assert!(!snake.validate_direction_change(opposite));
    }
}

#[test]
fn every_other_turn_is_accepted() {
    let all = [Direction::UP, Direction::DOWN, Direction::LEFT, Direction::RIGHT];
    let opposite = [Direction::DOWN, Direction::UP, Direction::RIGHT, Direction::LEFT];
    for (i, current) in all.iter().enumerate() {
        for wanted in all.iter() {
            if *wanted == opposite[i] {
                continue;
            }
            let mut snake = Snake::from_center(Point::new(4, 4));
            heading(&mut snake, *current);
            assert!(snake.validate_direction_change(*wanted));
            snake.change_direction(*wanted);
            assert!(snake.get_direction() == *wanted);
        }
    }
}

#[test]
fn move_forward_keeps_the_number_of_segments() {
    let mut snake = Snake::from_center(Point::new(4, 4));
    snake.move_forward();
    assert_eq!(cells(&snake), vec![(5, 4), (4, 4)]);
    snake.change_direction(Direction::DOWN);
    snake.move_forward();
    assert_eq!(cells(&snake), vec![(5, 5), (5, 4)]);
    snake.change_direction(Direction::LEFT);
    snake.move_forward();
    assert_eq!(cells(&snake), vec![(4, 5), (5, 5)]);
    snake.change_direction(Direction::UP);
    snake.move_forward();
    assert_eq!(cells(&snake), vec![(4, 4), (4, 5)]);
}

#[test]
fn grow_adds_one_segment_in_front() {
    let mut snake = Snake::from_center(Point::new(4, 4));
    snake.grow();
    assert_eq!(cells(&snake), vec![(5, 4), (4, 4), (3, 4)]);
    snake.change_direction(Direction::UP);
    snake.grow();
    assert_eq!(cells(&snake), vec![(5, 3), (5, 4), (4, 4), (3, 4)]);
    snake.move_forward();
    assert_eq!(cells(&snake), vec![(5, 2), (5, 3), (5, 4), (4, 4)]);
}

#[test]
fn snake_may_leave_the_origin() {
    let mut snake = Snake::from_segments(vec![Point::new(0, 0), Point::new(1, 0)]);
    snake.change_direction(Direction::UP);
    snake.move_forward();
    assert_eq!(cells(&snake), vec![(0, -1), (0, 0)]);
    snake.change_direction(Direction::LEFT);
    snake.move_forward();
    assert_eq!(cells(&snake), vec![(-1, -1), (0, -1)]);
}

#[test]
fn a_snake_that_turns_back_into_itself_collides() {
    let mut snake = Snake::from_center(Point::new(4, 4));
    snake.grow();
    snake.grow();
    snake.grow();
    snake.change_direction(Direction::DOWN);
    snake.move_forward();
    snake.change_direction(Direction::LEFT);
    snake.move_forward();
    assert!(!snake.is_self_collision());
    snake.change_direction(Direction::UP);
    snake.move_forward();
    assert!(snake.is_self_collision());
}

#[test]
fn occupies_tells_the_cells_of_the_body() {
    let snake = Snake::from_center(Point::new(4, 4));
    assert!(snake.occupies(Point::new(4, 4)));
    assert!(snake.occupies(Point::new(3, 4)));
    assert!(!snake.occupies(Point::new(5, 4)));
    assert!(!snake.occupies(Point::new(4, 3)));
}
