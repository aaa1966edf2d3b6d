use snake2d::snake::Snake;
use snake2d::Direction;
use snake2d::Segment;

// @
// ###
fn get_4_segment_snake() -> Vec<Segment> {
    vec![
        Segment::new(2, 2),
        Segment::new(2, 3),
        Segment::new(3, 3),
        Segment::new(4, 3),
    ]
}

// @
fn get_1_segment_snake() -> Vec<Segment> {
    vec![Segment::new(5, 12)]
}

#[test]
fn given_4_segment_snake_when_snake_moves_up_then_segments_have_correct_positions() {
    test_move_generic(Segment::new(2, 1), Direction::Up, &get_4_segment_snake(), 0);
}

#[test]
fn given_4_segment_snake_when_snake_grows_and_moves_up_then_segments_have_correct_positions() {
    test_move_generic(Segment::new(2, 1), Direction::Up, &get_4_segment_snake(), 1);
}

#[test]
fn given_4_segment_snake_when_snake_moves_left_then_segments_have_correct_positions() {
    test_move_generic(Segment::new(1, 2), Direction::Left, &get_4_segment_snake(), 0);
}

#[test]
fn given_4_segment_snake_when_snake_grows_and_moves_left_then_segments_have_correct_positions() {
    test_move_generic(Segment::new(1, 2), Direction::Left, &get_4_segment_snake(), 1);
}

#[test]
fn given_4_segment_snake_when_snake_moves_right_then_segments_have_correct_positions() {
    test_move_generic(Segment::new(3, 2), Direction::Right, &get_4_segment_snake(), 0);
}

#[test]
fn given_4_segment_snake_when_snake_grows_and_moves_right_then_segments_have_correct_positions() {
    test_move_generic(Segment::new(3, 2), Direction::Right, &get_4_segment_snake(), 1);
}

#[test]
fn given_1_segment_snake_when_snake_moves_up_then_segments_have_correct_positions() {
    test_move_generic(Segment::new(5, 11), Direction::Up, &get_1_segment_snake(), 0);
}

#[test]
fn given_1_segment_snake_when_snake_grows_and_moves_up_then_segments_have_correct_positions() {
    test_move_generic(Segment::new(5, 11), Direction::Up, &get_1_segment_snake(), 1);
}

#[test]
fn given_1_segment_snake_when_snake_moves_down_then_segments_have_correct_positions() {
    test_move_generic(Segment::new(5, 13), Direction::Down, &get_1_segment_snake(), 0);
}

#[test]
fn given_1_segment_snake_when_snake_grows_and_moves_down_then_segments_have_correct_positions() {
    test_move_generic(Segment::new(5, 13), Direction::Down, &get_1_segment_snake(), 1);
}

#[test]
fn given_1_segment_snake_when_snake_moves_left_then_segments_have_correct_positions() {
    test_move_generic(Segment::new(4, 12), Direction::Left, &get_1_segment_snake(), 0);
}

#[test]
fn given_1_segment_snake_when_snake_grows_and_moves_left_then_segments_have_correct_positions() {
    test_move_generic(Segment::new(4, 12), Direction::Left, &get_1_segment_snake(), 1);
}

#[test]
fn given_1_segment_snake_when_snake_moves_right_then_segments_have_correct_positions() {
    test_move_generic(Segment::new(6, 12), Direction::Right, &get_1_segment_snake(), 0);
}

#[test]
fn given_1_segment_snake_when_snake_grows_and_moves_right_then_segments_have_correct_positions() {
    test_move_generic(Segment::new(6, 12), Direction::Right, &get_1_segment_snake(), 1);
}

#[test]
fn given_snake_with_no_duplicates_then_has_unique_segments_returns_false() {
    let snake = Snake::new(&get_4_segment_snake());
    assert_eq!(snake.has_unique_segments(), true);
}

#[test]
fn given_snake_with_duplicates_then_has_unique_segments_returns_true() {
    let snake = Snake::new(&vec![
        Segment::new(2, 2),
        Segment::new(2, 3),
        Segment::new(3, 3),
        Segment::new(4, 3),
        Segment::new(2, 2),
    ]);
    assert_eq!(snake.has_unique_segments(), false);
}

fn test_move_generic(
    segment: Segment,
    direction: Direction,
    body: &Vec<Segment>,
    segments_to_grow: usize,
) {
    let mut snake = Snake::new(body);
    assert_eq!(snake.segments_to_grow_by, 0);
    if segments_to_grow > 0 {
        snake.grow(segments_to_grow);
        assert!(snake.will_grow());
        assert_eq!(snake.segments_to_grow_by, segments_to_grow);
    }
    snake.move_body(&direction);

    let mut expected: Vec<Segment> = vec![segment];
    let mut moved_body = body.clone();
    if segments_to_grow == 0 {
        moved_body.pop();
    }
    expected.append(&mut moved_body);

    assert_eq!(snake, Snake::new(&expected));
}

#[test]
fn tail_append_validates_adjacency_and_membership() {
    let mut snake = Snake::new(&vec![Segment::new(2, 2), Segment::new(2, 3)]);
    assert!(snake.push_back_segment(Segment::new(3, 4)));
    assert!(!snake.push_back_segment(Segment::new(5, 4)));
    assert!(!snake.push_back_segment(Segment::new(2, 3)));
    assert!(snake.push_back_segment(Segment::new(3, 5)));
    assert_eq!(
        snake.body,
        vec![
            Segment::new(2, 2),
            Segment::new(2, 3),
            Segment::new(3, 4),
            Segment::new(3, 5)
        ]
    );
    assert_eq!(snake.segments_to_grow_by, 0);
}
