use tank_maze::{Direction, MazeError, Position};

#[test]
fn up_and_right_increase_a_coordinate() {
    let from = Position { x: 3, y: 5 };
    assert_eq!(from.update(&Direction::Up, 2), Ok(Position { x: 3, y: 7 }));
    assert_eq!(from.update(&Direction::Right, 2), Ok(Position { x: 5, y: 5 }));
}

#[test]
fn down_and_left_decrease_a_coordinate() {
    let from = Position { x: 3, y: 5 };
    assert_eq!(from.update(&Direction::Down, 1), Ok(Position { x: 3, y: 4 }));
    assert_eq!(from.update(&Direction::Left, 3), Ok(Position { x: 0, y: 5 }));
    assert_eq!(from.update(&Direction::Down, 5), Ok(Position { x: 3, y: 0 }));
}

#[test]
fn a_step_of_zero_stays() {
    let from = Position { x: 0, y: usize::MAX };
    assert_eq!(from.update(&Direction::Up, 0), Ok(from));
    assert_eq!(from.update(&Direction::Left, 0), Ok(from));
}

#[test]
fn a_move_below_zero_is_refused() {
    let from = Position { x: 1, y: 1 };
    assert_eq!(from.update(&Direction::Left, 2), Err(MazeError::PositionOutOfRange));
    assert_eq!(from.update(&Direction::Down, 2), Err(MazeError::PositionOutOfRange));
}

#[test]
fn a_move_beyond_the_largest_coordinate_is_refused() {
    let from = Position { x: usize::MAX - 1, y: usize::MAX };
    assert_eq!(from.update(&Direction::Right, 1), Ok(Position { x: usize::MAX, y: usize::MAX }));
    assert_eq!(from.update(&Direction::Right, 2), Err(MazeError::PositionOutOfRange));
    assert_eq!(from.update(&Direction::Up, 1), Err(MazeError::PositionOutOfRange));
}
