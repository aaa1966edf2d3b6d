use snake2d::game_logic::Collision;
use snake2d::game_logic::GameLogic;
use snake2d::Direction;
use snake2d::Obstacle;
use snake2d::Segment;

#[test]
fn given_initial_game_state_then_no_collisions_are_detected() {
    let game_logic = GameLogic::new(25, 23, Segment::new(10, 12));
    assert_eq!(game_logic.check_collisions(), Collision::Clear);
}

#[test]
fn given_coords_then_coords_have_correct_index_equivalents() {
    let (width, height) = (88usize, 20usize);
    let (x, y) = (70usize, 2usize);
    let index = x * height + y;

    let game_logic = GameLogic::new(width, height, Segment::new(10, 12));
    assert_eq!(game_logic.convert_index_to_coords(index), (x, y));
    assert_eq!(game_logic.convert_index_to_coords(0), (0, 0));
    assert_eq!(game_logic.convert_index_to_coords(height - 1), (0, height - 1));
    assert_eq!(game_logic.convert_index_to_coords(height * (width - 1)), (width - 1, 0));
    assert_eq!(
        game_logic.convert_index_to_coords(height * (width - 1) + height - 1),
        (width - 1, height - 1)
    );
}

fn generate_n_obstacles(n: usize, width: usize, height: usize) {
    let game_logic = GameLogic::new(width, height, Segment::new(0, 0));
    let obstacles = game_logic.generate_obstacles_positions(n);
    if n == width * height {
        assert_eq!(obstacles.len(), n - game_logic.snake.body.len());
    } else {
        assert_eq!(obstacles.len(), n);
    }
    for obstacle in obstacles {
        match game_logic
            .snake
            .body
            .iter()
            .find(|&&segment| (segment.x as usize, segment.y as usize) == obstacle)
        {
            Some(erroneus_segment) => panic!(
                "Snake segment ({}, {}) has the same position as generated obstacle!",
                erroneus_segment.x, erroneus_segment.y
            ),
            None => (),
        }
        assert_eq!(
            game_logic
                .board
                .segment_in(&Segment::new(obstacle.0 as i32, obstacle.1 as i32)),
            true
        );
    }
}

#[test]
fn given_empty_board_when_generating_obstacles_then_obstacles_are_generated() {
    let (width, height) = (7usize, 11usize);
    for i in 1..(width * height + 1) {
        generate_n_obstacles(i, width, height);
    }
}

#[test]
fn given_empty_board_when_generating_obstacles_above_capacity_then_obstacles_are_generated_to_capacity_only(
) {
    let game_logic = GameLogic::new(5, 5, Segment::new(0, 0));
    let obstacles = game_logic.generate_obstacles_positions(5 * 5 + 1);
    // one less, since no obstacle can go where a snake segment is
    assert_eq!(obstacles.len(), 5 * 5 - 1);
}

#[test]
fn given_empty_big_board_when_generating_many_obstcles_then_execution_should_be_fast() {
    let game_logic = GameLogic::new(1000, 1000, Segment::new(0, 0));
    let obstacles = game_logic.generate_obstacles_positions(1000000);
    assert_eq!(obstacles.len(), 1000000 - game_logic.snake.body.len());
}

#[test]
fn given_1x1_board_with_1_segment_snake_when_generating_1_obtacle_then_no_obstacles_are_generated()
{
    let game_logic = GameLogic::new(1, 1, Segment::new(0, 0));
    let obstacles = game_logic.generate_obstacles_positions(1);
    assert_eq!(obstacles.len(), 0);
}

#[test]
fn given_1x2_board_with_1_segment_snake_when_generating_1_obstacle_then_1_obstacle_is_generated_at_no_snake_position(
) {
    let game_logic = GameLogic::new(1, 2, Segment::new(0, 0));
    let obstacles = game_logic.generate_obstacles_positions(1);
    assert_eq!(obstacles.len(), 1);
    assert_ne!(obstacles.iter().next().unwrap(), &(0usize, 0usize));
}

//  A
// A@A
#[test]
fn given_1_segment_snake_when_obstacles_are_at_snake_end_then_snake_eat_does_not_append_segment() {
    let mut game_logic = GameLogic::new(7, 13, Segment::new(5, 6));
    game_logic.board.set_obstacle(4, 6);
    game_logic.board.set_obstacle(5, 5);
    game_logic.board.set_obstacle(5, 6);
    game_logic.board.set_obstacle(6, 6);
    assert_eq!(game_logic.check_collisions(), Collision::Obstacle(Obstacle::Apple));
    game_logic.snake_eat();
    assert_eq!(game_logic.check_collisions(), Collision::Clear);
    assert_eq!(game_logic.snake.len(), 2);
    assert_eq!(game_logic.snake.body.first().unwrap(), &Segment::new(5, 6));
    assert_eq!(game_logic.snake.body.last().unwrap(), &Segment::new(5, 6));
}

fn test_snake_move_expected_collision(game_logic: &mut GameLogic, direction: &Direction) {
    let current_snake_len = game_logic.snake.len();
    let current_snake_front = *game_logic.snake.body.first().unwrap();
    let current_snake_back = *game_logic.snake.body.last().unwrap();
    let next_front_segment = direction.nearest_segment(&current_snake_front);
    let next_back_segment: Segment;
    if game_logic.snake.will_grow() {
        next_back_segment = current_snake_back.clone();
    } else {
        next_back_segment = direction.nearest_segment(&current_snake_back);
    }

    game_logic.snake.move_body(direction);
    assert_eq!(game_logic.snake.len(), current_snake_len);
    assert_eq!(game_logic.check_collisions(), Collision::Obstacle(Obstacle::Apple));
    assert_eq!(game_logic.snake.body.first().unwrap(), &next_front_segment);
    assert_eq!(game_logic.snake.body.last().unwrap(), &next_back_segment);
    game_logic.snake_eat();
    assert_eq!(game_logic.snake.len(), current_snake_len + 1);
    assert_eq!(game_logic.check_collisions(), Collision::Clear);
}

//  AA      AA      AA
// A@AA => A#@A => A##@
//   A       A       A
#[test]
fn given_1_segment_snake_when_eat_twice_snake_has_3_segments() {
    let mut game_logic = GameLogic::new(8, 13, Segment::new(5, 6));
    game_logic.board.set_obstacle(4, 6);
    game_logic.board.set_obstacle(5, 5);
    game_logic.board.set_obstacle(6, 5);
    game_logic.board.set_obstacle(6, 6);
    game_logic.board.set_obstacle(7, 6);
    game_logic.board.set_obstacle(6, 7);

    test_snake_move_expected_collision(&mut game_logic, &Direction::Right);
    test_snake_move_expected_collision(&mut game_logic, &Direction::Right);
}

#[test]
fn given_empty_board_when_set_obstacles_is_called_then_obstacles_have_correct_positions() {
    let mut game_logic = GameLogic::new(8, 13, Segment::new(5, 6));
    let mut obstacles = vec![
        (0usize, 0usize),
        (1usize, 1usize),
        (7usize, 12usize),
        (7usize, 0usize),
        (0usize, 12usize),
        (4usize, 10usize),
    ];
    game_logic.set_obstacles(&obstacles);

    let mut obstacles_actual = game_logic.get_obstacles();
    obstacles.sort();
    obstacles_actual.sort();
    assert_eq!(&obstacles, &obstacles_actual);
}

#[test]
fn given_more_than_1_segment_snake_when_snake_moves_and_crosses_itself_then_snake_collision_is_detected(
) {
    let mut game_logic = GameLogic::new(8, 13, Segment::new(0, 0));
    for i in 1..6usize {
        game_logic.board.set_obstacle(i, 0);
    }

    for i in 1..6usize {
        game_logic.main_loop(Some(Direction::Right));
        assert_eq!(game_logic.snake.len(), i + 1);
    }
    game_logic.main_loop(Some(Direction::Down));
    assert_eq!(game_logic.check_collisions(), Collision::Clear);
    game_logic.main_loop(Some(Direction::Left));
    assert_eq!(game_logic.check_collisions(), Collision::Clear);
    game_logic.snake.move_body(&Direction::Up);
    let segment = Segment::new(4, 0);
    assert_eq!(game_logic.snake.body.first().unwrap(), &segment);
    assert_eq!(game_logic.check_collisions(), Collision::Snake);
}

#[test]
fn given_more_2_segment_snake_when_snake_moves_backward_then_nothing_happens() {
    let mut game_logic = GameLogic::new(8, 13, Segment::new(5, 6));
    game_logic.board.set_obstacle(6, 6);

    game_logic.main_loop(Some(Direction::Right));
    assert_eq!(game_logic.snake.len(), 2);
    assert_eq!(game_logic.snake.body.first().unwrap(), &Segment::new(6, 6));
    assert_eq!(game_logic.snake.body.last().unwrap(), &Segment::new(6, 6));
    game_logic.main_loop(Some(Direction::Left));
    assert_eq!(game_logic.snake.body.first().unwrap(), &Segment::new(7, 6));
    assert_eq!(game_logic.snake.body.last().unwrap(), &Segment::new(6, 6));
}

#[test]
fn given_more_than_2_segment_snake_when_snake_moves_backward_then_nothing_happens() {
    let mut game_logic = GameLogic::new(100, 103, Segment::new(5, 6));
    game_logic.board.set_obstacle(6, 6);
    game_logic.board.set_obstacle(7, 6);

    game_logic.main_loop(Some(Direction::Right));
    assert_eq!(game_logic.snake.len(), 2);
    assert_eq!(game_logic.snake.body.first().unwrap(), &Segment::new(6, 6));
    assert_eq!(game_logic.snake.body.last().unwrap(), &Segment::new(6, 6));

    game_logic.main_loop(Some(Direction::Right));
    assert_eq!(game_logic.snake.len(), 3);
    assert_eq!(game_logic.snake.body.first().unwrap(), &Segment::new(7, 6));
    assert_eq!(game_logic.snake.body.last().unwrap(), &Segment::new(6, 6));

    game_logic.main_loop(Some(Direction::Right));
    assert_eq!(game_logic.snake.len(), 3);
    assert_eq!(game_logic.snake.body.first().unwrap(), &Segment::new(8, 6));
    assert_eq!(game_logic.snake.body.last().unwrap(), &Segment::new(6, 6));

    game_logic.main_loop(Some(Direction::Left));
    assert_eq!(game_logic.snake.len(), 3);
    assert_eq!(game_logic.snake.body.first().unwrap(), &Segment::new(9, 6));
    assert_eq!(game_logic.snake.body.last().unwrap(), &Segment::new(7, 6));
}
