//! Directions, and positions on the grid that move without wrapping.

use vstd::prelude::*;
use crate::error::MazeError;

verus! {

/// One of the four ways to move on the grid.
///
/// `Up` and `Down` move along the rows (`y`), `Left` and `Right` along the
/// columns (`x`). `Up` and `Right` increase a coordinate, `Down` and `Left`
/// decrease it.
#[derive(Clone, Copy, Debug, PartialEq, Eq, Structural)]
pub enum Direction {
    Up,
    Left,
    Right,
    Down,
}

/// A grid coordinate in specifications: unbounded, so that a move off the
/// grid is still a coordinate and can be tested for.
pub struct Coord {
    pub row: int,
    pub col: int,
}

impl Coord {
    /// The coordinate `distance` steps away in `direction`.
    pub open spec fn step(self, direction: Direction, distance: int) -> Coord {
        match direction {
            Direction::Up => Coord { row: self.row + distance, col: self.col },
            Direction::Down => Coord { row: self.row - distance, col: self.col },
            Direction::Left => Coord { row: self.row, col: self.col - distance },
            Direction::Right => Coord { row: self.row, col: self.col + distance },
        }
    }

    /// Whether both coordinates can be held by a `Position`.
    pub open spec fn representable(self) -> bool {
        0 <= self.row <= usize::MAX && 0 <= self.col <= usize::MAX
    }
}

/// A position on the grid: column `x`, row `y`.
#[derive(Clone, Copy, Debug, PartialEq, Eq, Structural)]
pub struct Position {
    pub x: usize,
    pub y: usize,
}

impl View for Position {
    type V = Coord;

    open spec fn view(&self) -> Coord {
        Coord { row: self.y as int, col: self.x as int }
    }
}

impl Position {
    /// Moves `step` positions in `direction`.
    ///
    /// The move is refused, never wrapped, when the target has a negative
    /// coordinate or one beyond `usize::MAX`.
    pub fn update(self, direction: &Direction, step: usize) -> (moved: Result<Position, MazeError>)
        ensures
            self@.step(*direction, step as int).representable() ==> moved is Ok
                && moved->Ok_0@ == self@.step(*direction, step as int),
            !self@.step(*direction, step as int).representable() ==> moved
                == Err::<Position, MazeError>(MazeError::PositionOutOfRange),
    {
        match direction {
            Direction::Up => match self.y.checked_add(step) {
                Some(y) => Ok(Position { x: self.x, y }),
                None => Err(MazeError::PositionOutOfRange),
            },
            Direction::Down => match self.y.checked_sub(step) {
                Some(y) => Ok(Position { x: self.x, y }),
                None => Err(MazeError::PositionOutOfRange),
            },
            Direction::Left => match self.x.checked_sub(step) {
                Some(x) => Ok(Position { x, y: self.y }),
                None => Err(MazeError::PositionOutOfRange),
            },
            Direction::Right => match self.x.checked_add(step) {
                Some(x) => Ok(Position { x, y: self.y }),
                None => Err(MazeError::PositionOutOfRange),
            },
        }
    }
}

} // verus!
