//! Simulation core of a grid-based snake game: the board state, the snake's
//! body representation and movement rule, collision detection, and randomized
//! obstacle placement.  Rendering and input shells live outside this crate and
//! only feed directions in and read state out.
use vstd::prelude::*;

pub mod board;
pub mod game_controller;
pub mod game_logic;
pub mod snake;

verus! {

/// Phantom tag naming the coordinate space of the grid.
pub struct ScreenSpace;

/// One grid cell. `x` and `y` may go negative transiently; negative values are
/// only ever used for boundary comparisons.
#[derive(Copy, Clone, PartialEq, Eq, Structural, Debug)]
pub struct Segment {
    pub x: i32,
    pub y: i32,
}

impl Segment {
    pub fn new(x: i32, y: i32) -> (r: Segment)
        ensures
            r.x == x && r.y == y,
    {
        Segment { x, y }
    }
}

/// A movement heading for the snake.
#[derive(Copy, Clone, PartialEq, Eq, Structural, Debug)]
pub enum Direction {
    Up,
    Down,
    Left,
    Right,
}

impl Direction {
    /// The heading that undoes this one.
    pub open spec fn opposite_spec(self) -> Direction {
        match self {
            Direction::Up => Direction::Down,
            Direction::Down => Direction::Up,
            Direction::Left => Direction::Right,
            Direction::Right => Direction::Left,
        }
    }

    /// The coordinate one step from `s` in this direction.
    pub open spec fn step_spec(self, s: Segment) -> Segment {
        match self {
            Direction::Up => Segment { x: s.x, y: (s.y - 1) as i32 },
            Direction::Down => Segment { x: s.x, y: (s.y + 1) as i32 },
            Direction::Left => Segment { x: (s.x - 1) as i32, y: s.y },
            Direction::Right => Segment { x: (s.x + 1) as i32, y: s.y },
        }
    }

    /// One step from `s` in this direction stays within the machine range of
    /// the coordinates.
    pub open spec fn can_step(self, s: Segment) -> bool {
        match self {
            Direction::Up => s.y > i32::MIN,
            Direction::Down => s.y < i32::MAX,
            Direction::Left => s.x > i32::MIN,
            Direction::Right => s.x < i32::MAX,
        }
    }

    /// The neighbouring cell of `segment` in this direction.
    pub fn nearest_segment(&self, segment: &Segment) -> (r: Segment)
        requires
            self.can_step(*segment),
        ensures
            r == self.step_spec(*segment),
    {
        match self {
            Direction::Down => Segment::new(segment.x, segment.y + 1),
            Direction::Up => Segment::new(segment.x, segment.y - 1),
            Direction::Left => Segment::new(segment.x - 1, segment.y),
            Direction::Right => Segment::new(segment.x + 1, segment.y),
        }
    }
}

/// The state of one board cell: empty, or holding an apple the snake can eat.
#[derive(Copy, Clone, PartialEq, Eq, Structural, Debug)]
pub enum Obstacle {
    Empty,
    Apple,
}

} // verus!
