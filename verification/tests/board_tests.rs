use snake2d::board::Board;
use snake2d::Obstacle;
use snake2d::Segment;

#[test]
fn given_board_when_segments_are_in_then_segment_in_returns_true() {
    let board = Board::new(3, 8);
    assert_eq!(board.segment_in(&Segment::new(0, 0)), true);
    assert_eq!(board.segment_in(&Segment::new(2, 7)), true);
}

#[test]
fn given_board_when_segments_are_not_in_then_segment_in_returns_false() {
    let board = Board::new(8, 3);
    assert_eq!(board.segment_in(&Segment::new(-1, 0)), false);
    assert_eq!(board.segment_in(&Segment::new(0, -1)), false);
    assert_eq!(board.segment_in(&Segment::new(-1, -1)), false);
    assert_eq!(board.segment_in(&Segment::new(8, 2)), false);
    assert_eq!(board.segment_in(&Segment::new(7, 3)), false);
    assert_eq!(board.segment_in(&Segment::new(8, 3)), false);
}

fn assert_empty_board(board: &Board) {
    for i in 0..board.width {
        for j in 0..board.height {
            assert_eq!(board.get_field(i, j), Obstacle::Empty);
        }
    }
}

#[test]
fn given_empty_board_then_there_are_no_obstacles() {
    let board = Board::new(3, 8);
    assert_empty_board(&board);
}

#[test]
fn given_obstacles_on_board_then_obstacles_have_correct_positions() {
    let mut board = Board::new(20, 45);
    assert_empty_board(&board);

    board.set_obstacle(10, 30);
    board.set_obstacle(0, 0);
    board.set_obstacle(19, 44);

    assert_eq!(board.get_field(10, 30), Obstacle::Apple);
    assert_eq!(board.get_field(0, 0), Obstacle::Apple);
    assert_eq!(board.get_field(19, 44), Obstacle::Apple);

    assert_eq!(board.get_field(18, 44), Obstacle::Empty);
}

#[test]
#[should_panic]
fn given_board_when_access_position_not_in_board_then_panic() {
    let board = Board::new(40, 5);
    board.get_field(40, 0);
}

#[test]
fn obstacle_count_tracks_set_and_clear() {
    let mut board = Board::new(6, 4);
    assert_eq!(board.get_number_of_obstacles(), 0);
    board.set_obstacle(2, 3);
    assert_eq!(board.get_field(2, 3), Obstacle::Apple);
    assert_eq!(board.get_number_of_obstacles(), 1);
    board.set_obstacle(5, 0);
    assert_eq!(board.get_number_of_obstacles(), 2);
    board.clear_obstacle(2, 3);
    assert_eq!(board.get_field(2, 3), Obstacle::Empty);
    assert_eq!(board.get_number_of_obstacles(), 1);
    board.clear_obstacle(5, 0);
    assert_eq!(board.get_number_of_obstacles(), 0);
}
