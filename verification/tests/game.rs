use unicorn_snake::apple::place_apple;
use unicorn_snake::game::{advance, steer, Direction, GameState, Status};
use unicorn_snake::grid::{on_grid, Cell};
use unicorn_snake::snake::Snake;

const REST: (u16, u16) = (512, 512);
const RIGHT: (u16, u16) = (1023, 512);
const LEFT: (u16, u16) = (0, 512);
const UP: (u16, u16) = (512, 1023);
const DOWN: (u16, u16) = (512, 0);

fn cells_of(snake: &Snake) -> Vec<Cell> {
    let mut cells = Vec::new();
    let mut i = 0;
    while let Some(c) = snake.get(i) {
        cells.push(c);
        i += 1;
    }
    cells
}

fn layout(cells: &[Cell], direction: Direction, apple: Cell) -> GameState {
    GameState::with_layout(cells, direction, apple).expect("a legal board")
}

/// The board covered row by row, each row in the direction opposite to the one before.
fn winding_path() -> Vec<Cell> {
    let mut path = Vec::new();
    for y in 0..8usize {
        for k in 0..8usize {
            let x = if y % 2 == 0 { k } else { 7 - k };
            path.push((x, y));
        }
    }
    path
}

fn assert_legal(game: &GameState) {
    let cells = cells_of(game.snake());
    assert!(!cells.is_empty());
    assert!(cells.len() <= 64);
    for (i, c) in cells.iter().enumerate() {
        assert!(on_grid(*c), "cell {:?} is off the board", c);
        for d in &cells[i + 1..] {
            assert_ne!(c, d, "the snake overlaps itself");
        }
    }
    match game.apple() {
        Some(a) => {
            assert!(on_grid(a));
            assert!(!cells.contains(&a), "the apple lies on the snake");
        }
        None => assert_eq!(cells.len(), 64),
    }
}

#[test]
fn new_game_has_three_cells_heading_right() {
    let game = GameState::new();
    assert_eq!(cells_of(game.snake()), vec![(4, 4), (5, 4), (6, 4)]);
    assert_eq!(game.snake().head(), Some((6, 4)));
    assert_eq!(game.direction(), Direction::Right);
    assert_eq!(game.apple(), Some((2, 2)));
    assert_eq!(game.ticks(), 0);
    assert_eq!(game.status(), Status::Running);
    assert_legal(&game);
}

#[test]
fn head_at_right_edge_heading_right_hits_the_wall() {
    let mut game = layout(&[(5, 4), (6, 4), (7, 4)], Direction::Right, (2, 2));
    assert_eq!(game.snake().head(), Some((7, 4)));
    assert_eq!(game.step(REST.0, REST.1), Status::GameOverWall);
    assert_eq!(game.status(), Status::GameOverWall);
    assert_eq!(cells_of(game.snake()), vec![(5, 4), (6, 4), (7, 4)]);
}

#[test]
fn reversing_into_the_body_is_a_self_collision() {
    let mut game = layout(&[(4, 4), (5, 4), (6, 4)], Direction::Right, (2, 2));
    assert_eq!(game.step(LEFT.0, LEFT.1), Status::GameOverSelf);
    assert_eq!(game.status(), Status::GameOverSelf);
    assert_eq!(game.direction(), Direction::Left);
    assert_eq!(cells_of(game.snake()), vec![(4, 4), (5, 4), (6, 4)]);
}

#[test]
fn reversing_at_the_start_of_a_game_ends_it() {
    let mut game = GameState::new();
    assert_eq!(game.step(LEFT.0, LEFT.1), Status::GameOverSelf);
}

#[test]
fn centered_stick_keeps_the_direction() {
    assert_eq!(steer(Direction::Right, 512, 512), Direction::Right);
    assert_eq!(steer(Direction::Left, 512, 512), Direction::Left);
    assert_eq!(steer(Direction::Up, 512, 512), Direction::Up);
    assert_eq!(steer(Direction::Down, 512, 512), Direction::Down);
}

#[test]
fn centered_stick_keeps_the_snake_moving() {
    let mut game = GameState::new();
    assert_eq!(game.step(REST.0, REST.1), Status::Running);
    assert_eq!(game.direction(), Direction::Right);
    assert_eq!(game.snake().head(), Some((7, 4)));
}

#[test]
fn stick_thresholds_are_inclusive() {
    assert_eq!(steer(Direction::Up, 923, 512), Direction::Right);
    assert_eq!(steer(Direction::Up, 922, 512), Direction::Up);
    assert_eq!(steer(Direction::Up, 1023, 512), Direction::Right);
    assert_eq!(steer(Direction::Up, 100, 512), Direction::Left);
    assert_eq!(steer(Direction::Up, 101, 512), Direction::Up);
    assert_eq!(steer(Direction::Up, 0, 512), Direction::Left);
    assert_eq!(steer(Direction::Left, 512, 923), Direction::Up);
    assert_eq!(steer(Direction::Left, 512, 922), Direction::Left);
    assert_eq!(steer(Direction::Left, 512, 100), Direction::Down);
    assert_eq!(steer(Direction::Left, 512, 101), Direction::Left);
    assert_eq!(steer(Direction::Left, 101, 922), Direction::Left);
}

#[test]
fn x_axis_is_read_before_y_axis() {
    assert_eq!(steer(Direction::Down, 1023, 1023), Direction::Right);
    assert_eq!(steer(Direction::Down, 1023, 0), Direction::Right);
    assert_eq!(steer(Direction::Up, 0, 1023), Direction::Left);
    assert_eq!(steer(Direction::Up, 0, 0), Direction::Left);
    assert_eq!(steer(Direction::Left, 512, 1023), Direction::Up);
    assert_eq!(steer(Direction::Left, 512, 0), Direction::Down);
}

#[test]
fn samples_above_the_nominal_range_count_as_pushed() {
    assert_eq!(steer(Direction::Down, u16::MAX, 512), Direction::Right);
    assert_eq!(steer(Direction::Down, 512, u16::MAX), Direction::Up);
}

#[test]
fn advance_moves_one_cell() {
    assert_eq!(advance((3, 3), Direction::Up), (3, 4));
    assert_eq!(advance((3, 3), Direction::Down), (3, 2));
    assert_eq!(advance((3, 3), Direction::Left), (2, 3));
    assert_eq!(advance((3, 3), Direction::Right), (4, 3));
    assert_eq!(advance((7, 7), Direction::Right), (8, 7));
    assert_eq!(advance((7, 7), Direction::Up), (7, 8));
}

#[test]
fn advance_wraps_instead_of_clamping() {
    assert_eq!(advance((0, 3), Direction::Left), (usize::MAX, 3));
    assert_eq!(advance((3, 0), Direction::Down), (3, usize::MAX));
    assert_eq!(advance((usize::MAX, 3), Direction::Right), (0, 3));
    assert_eq!(advance((3, usize::MAX), Direction::Up), (3, 0));
}

#[test]
fn every_edge_is_a_wall() {
    let mut left = layout(&[(1, 3), (0, 3)], Direction::Left, (5, 5));
    assert_eq!(left.step(REST.0, REST.1), Status::GameOverWall);
    let mut bottom = layout(&[(3, 1), (3, 0)], Direction::Down, (5, 5));
    assert_eq!(bottom.step(REST.0, REST.1), Status::GameOverWall);
    let mut top = layout(&[(3, 6), (3, 7)], Direction::Up, (5, 5));
    assert_eq!(top.step(REST.0, REST.1), Status::GameOverWall);
    let mut right = layout(&[(6, 3), (7, 3)], Direction::Right, (5, 5));
    assert_eq!(right.step(REST.0, REST.1), Status::GameOverWall);
}

#[test]
fn steering_takes_effect_in_the_same_tick() {
    let mut game = GameState::new();
    assert_eq!(game.step(UP.0, UP.1), Status::Running);
    assert_eq!(game.direction(), Direction::Up);
    assert_eq!(cells_of(game.snake()), vec![(5, 4), (6, 4), (6, 5)]);
    assert_eq!(game.step(DOWN.0, DOWN.1), Status::GameOverSelf);
}

#[test]
fn a_plain_move_keeps_the_length() {
    let mut game = GameState::new();
    assert_eq!(game.step(RIGHT.0, RIGHT.1), Status::Running);
    assert_eq!(game.snake().len(), 3);
    assert_eq!(cells_of(game.snake()), vec![(5, 4), (6, 4), (7, 4)]);
    assert_eq!(game.apple(), Some((2, 2)));
    assert_legal(&game);
}

#[test]
fn a_fatal_move_keeps_the_length() {
    let mut game = layout(&[(5, 4), (6, 4), (7, 4)], Direction::Right, (2, 2));
    game.step(REST.0, REST.1);
    assert_eq!(game.snake().len(), 3);
    assert_eq!(game.apple(), Some((2, 2)));
}

#[test]
fn eating_the_apple_grows_the_snake_by_one() {
    let mut game = layout(&[(4, 4), (5, 4), (6, 4)], Direction::Right, (7, 4));
    assert_eq!(game.step(REST.0, REST.1), Status::Running);
    assert_eq!(game.snake().len(), 4);
    assert_eq!(cells_of(game.snake()), vec![(4, 4), (5, 4), (6, 4), (7, 4)]);
    assert_ne!(game.apple(), Some((7, 4)));
    assert_eq!(game.apple(), Some((0, 5)));
    assert_legal(&game);
}

#[test]
fn the_new_apple_skips_the_snake() {
    let mut game = layout(&[(2, 0), (1, 0)], Direction::Left, (0, 0));
    assert_eq!(game.step(REST.0, REST.1), Status::Running);
    assert_eq!(cells_of(game.snake()), vec![(2, 0), (1, 0), (0, 0)]);
    assert_eq!(game.apple(), Some((3, 0)));
}

#[test]
fn the_new_apple_wraps_round_to_the_first_cell() {
    let mut game = layout(&[(5, 7), (6, 7)], Direction::Right, (7, 7));
    assert_eq!(game.step(REST.0, REST.1), Status::Running);
    assert_eq!(game.apple(), Some((0, 0)));
}

#[test]
fn place_apple_finds_the_next_free_cell() {
    let game = layout(&[(3, 0), (4, 0), (5, 0)], Direction::Right, (0, 7));
    assert_eq!(place_apple(game.snake(), (0, 0)), Some((1, 0)));
    assert_eq!(place_apple(game.snake(), (2, 0)), Some((6, 0)));
    assert_eq!(place_apple(game.snake(), (4, 0)), Some((6, 0)));
    assert_eq!(place_apple(game.snake(), (7, 0)), Some((0, 1)));
    assert_eq!(place_apple(game.snake(), (7, 7)), Some((0, 0)));
}

#[test]
fn place_apple_on_a_full_board_finds_nothing() {
    let path = winding_path();
    let mut game = layout(&path[..63], Direction::Left, path[63]);
    game.step(REST.0, REST.1);
    assert_eq!(game.snake().len(), 64);
    assert_eq!(place_apple(game.snake(), (0, 7)), None);
    assert_eq!(place_apple(game.snake(), (3, 3)), None);
}

#[test]
fn place_apple_may_come_back_to_the_eaten_cell_only_if_free() {
    let path = winding_path();
    let game = layout(&path[..63], Direction::Left, path[63]);
    assert_eq!(place_apple(game.snake(), (0, 7)), Some((0, 7)));
    assert_eq!(place_apple(game.snake(), (5, 2)), Some((0, 7)));
}

#[test]
fn filling_the_board_leaves_no_apple_and_no_way_on() {
    let path = winding_path();
    assert_eq!(path[62], (1, 7));
    assert_eq!(path[63], (0, 7));
    for input in [LEFT, RIGHT, UP, DOWN] {
        let mut game = layout(&path[..63], Direction::Left, path[63]);
        assert_eq!(game.step(REST.0, REST.1), Status::Running);
        assert_eq!(game.snake().len(), 64);
        assert_eq!(game.snake().head(), Some((0, 7)));
        assert_eq!(game.apple(), None);
        assert_legal(&game);
        let outcome = game.step(input.0, input.1);
        let expected = if input == LEFT || input == UP {
            Status::GameOverWall
        } else {
            Status::GameOverSelf
        };
        assert_eq!(outcome, expected);
        assert_eq!(game.snake().len(), 64);
    }
}

#[test]
fn the_cell_that_the_tail_leaves_still_counts() {
    let mut game = layout(&[(0, 0), (1, 0), (1, 1), (0, 1)], Direction::Left, (5, 5));
    assert_eq!(game.step(DOWN.0, DOWN.1), Status::GameOverSelf);
}

#[test]
fn a_finished_game_never_changes() {
    let mut game = layout(&[(5, 4), (6, 4), (7, 4)], Direction::Right, (2, 2));
    assert_eq!(game.step(REST.0, REST.1), Status::GameOverWall);
    let ticks = game.ticks();
    for input in [REST, LEFT, RIGHT, UP, DOWN] {
        assert_eq!(game.step(input.0, input.1), Status::GameOverWall);
        assert_eq!(game.status(), Status::GameOverWall);
        assert_eq!(game.direction(), Direction::Right);
        assert_eq!(game.ticks(), ticks);
        assert_eq!(game.apple(), Some((2, 2)));
        assert_eq!(cells_of(game.snake()), vec![(5, 4), (6, 4), (7, 4)]);
    }
    let mut other = GameState::new();
    assert_eq!(other.step(LEFT.0, LEFT.1), Status::GameOverSelf);
    assert_eq!(other.step(UP.0, UP.1), Status::GameOverSelf);
    assert_eq!(other.direction(), Direction::Left);
}

#[test]
fn ticks_count_the_moves_tried() {
    let mut game = GameState::new();
    assert_eq!(game.ticks(), 0);
    game.step(REST.0, REST.1);
    assert_eq!(game.ticks(), 1);
    assert_eq!(game.step(REST.0, REST.1), Status::GameOverWall);
    assert_eq!(game.ticks(), 2);
    game.step(REST.0, REST.1);
    assert_eq!(game.ticks(), 2);
}

#[test]
fn with_layout_takes_a_legal_board() {
    let game = layout(&[(0, 0)], Direction::Up, (7, 7));
    assert_eq!(cells_of(game.snake()), vec![(0, 0)]);
    assert_eq!(game.direction(), Direction::Up);
    assert_eq!(game.apple(), Some((7, 7)));
    assert_eq!(game.ticks(), 0);
    assert_eq!(game.status(), Status::Running);
    let path = winding_path();
    let long = layout(&path[..63], Direction::Down, path[63]);
    assert_eq!(cells_of(long.snake()), path[..63].to_vec());
}

#[test]
fn with_layout_refuses_an_empty_snake() {
    assert!(GameState::with_layout(&[], Direction::Up, (1, 1)).is_none());
}

#[test]
fn with_layout_refuses_more_cells_than_the_board_has() {
    let mut cells = winding_path();
    cells.push((0, 0));
    assert_eq!(cells.len(), 65);
    assert!(GameState::with_layout(&cells, Direction::Up, (1, 1)).is_none());
}

#[test]
fn with_layout_refuses_a_cell_off_the_board() {
    assert!(GameState::with_layout(&[(7, 0), (8, 0)], Direction::Up, (1, 1)).is_none());
    assert!(GameState::with_layout(&[(0, 8)], Direction::Up, (1, 1)).is_none());
    assert!(GameState::with_layout(&[(usize::MAX, 0)], Direction::Up, (1, 1)).is_none());
}

#[test]
fn with_layout_refuses_a_snake_that_overlaps_itself() {
    assert!(GameState::with_layout(&[(1, 1), (2, 1), (1, 1)], Direction::Up, (5, 5)).is_none());
    assert!(GameState::with_layout(&[(1, 1), (1, 1)], Direction::Up, (5, 5)).is_none());
}

#[test]
fn with_layout_refuses_an_apple_on_the_snake_or_off_the_board() {
    assert!(GameState::with_layout(&[(1, 1), (2, 1)], Direction::Up, (2, 1)).is_none());
    assert!(GameState::with_layout(&[(1, 1), (2, 1)], Direction::Up, (8, 1)).is_none());
    assert!(GameState::with_layout(&[(1, 1), (2, 1)], Direction::Up, (1, 8)).is_none());
    let path = winding_path();
    assert!(GameState::with_layout(&path, Direction::Up, (0, 0)).is_none());
}

/// Steers towards the apple where that is safe, else anywhere safe, else straight on.
fn pilot(game: &GameState) -> (u16, u16) {
    let head = game.snake().head().expect("a snake has a head");
    let apple = game.apple().unwrap_or(head);
    let moves = [(Direction::Right, RIGHT), (Direction::Up, UP), (Direction::Left, LEFT), (Direction::Down, DOWN)];
    let safe = |d: Direction| {
        let next = advance(head, d);
        on_grid(next) && !game.snake().contains(next)
    };
    let closer = |d: Direction| {
        let next = advance(head, d);
        next.0.abs_diff(apple.0) + next.1.abs_diff(apple.1)
            < head.0.abs_diff(apple.0) + head.1.abs_diff(apple.1)
    };
    for (d, input) in moves {
        if safe(d) && closer(d) {
            return input;
        }
    }
    for (d, input) in moves {
        if safe(d) {
            return input;
        }
    }
    REST
}

#[test]
fn a_long_game_stays_legal_and_grows_only_on_apples() {
    let mut game = GameState::new();
    let mut eaten = 0;
    for tick in 1..=5000u32 {
        let input = pilot(&game);
        let before = cells_of(game.snake());
        let apple = game.apple();
        let target = advance(*before.last().unwrap(), steer(game.direction(), input.0, input.1));
        let status = game.step(input.0, input.1);
        assert_eq!(game.ticks(), tick);
        assert_legal(&game);
        let after = cells_of(game.snake());
        if status != Status::Running {
            assert_eq!(after, before);
            assert_eq!(game.apple(), apple);
            break;
        }
        assert_eq!(after.last(), Some(&target));
        if apple == Some(target) {
            eaten += 1;
            assert_eq!(after.len(), before.len() + 1);
            assert_eq!(after[..before.len()], before[..]);
            assert_ne!(game.apple(), apple);
        } else {
            assert_eq!(after.len(), before.len());
            assert_eq!(after[..after.len() - 1], before[1..]);
            assert_eq!(game.apple(), apple);
        }
    }
    assert!(eaten >= 5, "the pilot ate only {} apples", eaten);
    assert_eq!(game.snake().len(), 3 + eaten);
}
