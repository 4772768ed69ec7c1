use vstd::prelude::*;

verus! {

/// A block position in the world.
#[derive(Clone, Copy, Debug, PartialEq, Eq, Structural)]
pub struct Position {
    pub x: i32,
    pub y: i32,
    pub z: i32,
}

impl Position {
    /// The position (x, y, z).
    pub fn new(x: i32, y: i32, z: i32) -> (p: Position)
        ensures
            p == (Position { x, y, z }),
    {
        Position { x, y, z }
    }
}

impl View for Position {
    type V = Position;

    open spec fn view(&self) -> Position {
        *self
    }
}

/// One of the six faces of a block.
#[derive(Clone, Copy, Debug, PartialEq, Eq, Structural)]
pub enum Direction {
    Up,
    Down,
    North,
    South,
    West,
    East,
}

/// The index of a direction in `Direction::all()`.
pub open spec fn direction_index(d: Direction) -> usize {
    match d {
        Direction::Up => 0,
        Direction::Down => 1,
        Direction::North => 2,
        Direction::South => 3,
        Direction::West => 4,
        Direction::East => 5,
    }
}

/// The unit step towards a direction.
pub open spec fn direction_offset(d: Direction) -> (i32, i32, i32) {
    match d {
        Direction::Up => (0, 1, 0),
        Direction::Down => (0i32, -1i32, 0i32),
        Direction::North => (0i32, 0i32, -1i32),
        Direction::South => (0, 0, 1),
        Direction::West => (-1i32, 0i32, 0i32),
        Direction::East => (1, 0, 0),
    }
}

impl Direction {
    /// All six directions, in index order.
    pub fn all() -> (v: Vec<Direction>)
        ensures
            v@ == seq![Direction::Up, Direction::Down, Direction::North, Direction::South, Direction::West, Direction::East],
    {
        vec![Direction::Up, Direction::Down, Direction::North, Direction::South, Direction::West, Direction::East]
    }

    /// The position of the direction in `Direction::all()`.
    pub fn index(&self) -> (i: usize)
        ensures
            i == direction_index(*self),
    {
        match *self {
            Direction::Up => 0,
            Direction::Down => 1,
            Direction::North => 2,
            Direction::South => 3,
            Direction::West => 4,
            Direction::East => 5,
        }
    }

    /// The unit step towards the direction.
    pub fn get_offset(&self) -> (o: (i32, i32, i32))
        ensures
            o == direction_offset(*self),
    {
        match *self {
            Direction::Up => (0, 1, 0),
            Direction::Down => (0, -1, 0),
            Direction::North => (0, 0, -1),
            Direction::South => (0, 0, 1),
            Direction::West => (-1, 0, 0),
            Direction::East => (1, 0, 0),
        }
    }
}

} // verus!
