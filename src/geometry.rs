//! Grid positions and cardinal directions.
use vstd::prelude::*;

verus! {

/// A cell of the grid, `x` growing eastwards and `y` growing southwards.
#[derive(Debug, Clone, Copy, PartialEq, Eq, Hash, Structural)]
pub struct Position {
    pub x: i32,
    pub y: i32,
}

/// Absolute value of an integer.
pub open spec fn abs_int(v: int) -> int {
    if v < 0 { -v } else { v }
}

/// Manhattan distance between two positions.
pub open spec fn manhattan(a: Position, b: Position) -> int {
    abs_int(a.x - b.x) + abs_int(a.y - b.y)
}

/// Neither coordinate sits at the edge of the `i32` range, so every
/// neighbour of the position is representable.
pub open spec fn has_neighbours(p: Position) -> bool {
    i32::MIN < p.x < i32::MAX && i32::MIN < p.y < i32::MAX
}

/// The four positions that share an edge with `p`: north, west, east, south.
pub open spec fn cardinal_neighbours(p: Position) -> Seq<Position> {
    seq![
        Position { x: p.x, y: (p.y - 1) as i32 },
        Position { x: (p.x - 1) as i32, y: p.y },
        Position { x: (p.x + 1) as i32, y: p.y },
        Position { x: p.x, y: (p.y + 1) as i32 },
    ]
}

/// `a` and `b` share an edge.
pub open spec fn is_cardinal_step(a: Position, b: Position) -> bool {
    manhattan(a, b) == 1
}

impl Position {
    /// Creates a position from its coordinates.
    pub fn new(x: i32, y: i32) -> (r: Position)
        ensures
            r.x == x,
            r.y == y,
    {
        Position { x, y }
    }

    /// The position (0, 0).
    pub fn origin() -> (r: Position)
        ensures
            r.x == 0,
            r.y == 0,
    {
        Position::new(0, 0)
    }

    /// Manhattan distance to `other`.
    pub fn manhattan_distance(self, other: Position) -> (r: u32)
        requires
            manhattan(self, other) <= i32::MAX,
        ensures
            r == manhattan(self, other),
    {
        let dx: i64 = self.x as i64 - other.x as i64;
        let dy: i64 = self.y as i64 - other.y as i64;
        let ax: i64 = if dx < 0 { -dx } else { dx };
        let ay: i64 = if dy < 0 { -dy } else { dy };
        (ax + ay) as u32
    }

    /// The positions adjacent to this one: the four that share an edge
    /// with it, in the order north, west, east, south.
    pub fn adjacent_positions(self) -> (r: Vec<Position>)
        requires
            has_neighbours(self),
        ensures
            r@ == cardinal_neighbours(self),
    {
        self.cardinal_adjacent_positions()
    }

    /// The four positions that share an edge with this one, in the order
    /// north, west, east, south.
    pub fn cardinal_adjacent_positions(self) -> (r: Vec<Position>)
        requires
            has_neighbours(self),
        ensures
            r@ == cardinal_neighbours(self),
    {
        vec![
            Position::new(self.x, self.y - 1),
            Position::new(self.x - 1, self.y),
            Position::new(self.x + 1, self.y),
            Position::new(self.x, self.y + 1),
        ]
    }
}

impl std::ops::Add for Position {
    type Output = Position;

    /// Coordinate-wise sum.
    fn add(self, other: Position) -> (r: Position) {
        Position::new(self.x + other.x, self.y + other.y)
    }
}

impl vstd::std_specs::ops::AddSpecImpl for Position {
    open spec fn obeys_add_spec() -> bool {
        true
    }

    open spec fn add_req(self, other: Position) -> bool {
        i32::MIN <= self.x + other.x <= i32::MAX && i32::MIN <= self.y + other.y <= i32::MAX
    }

    open spec fn add_spec(self, other: Position) -> Position {
        Position { x: (self.x + other.x) as i32, y: (self.y + other.y) as i32 }
    }
}

impl std::ops::Sub for Position {
    type Output = Position;

    /// Coordinate-wise difference.
    fn sub(self, other: Position) -> (r: Position) {
        Position::new(self.x - other.x, self.y - other.y)
    }
}

impl vstd::std_specs::ops::SubSpecImpl for Position {
    open spec fn obeys_sub_spec() -> bool {
        true
    }

    open spec fn sub_req(self, other: Position) -> bool {
        i32::MIN <= self.x - other.x <= i32::MAX && i32::MIN <= self.y - other.y <= i32::MAX
    }

    open spec fn sub_spec(self, other: Position) -> Position {
        Position { x: (self.x - other.x) as i32, y: (self.y - other.y) as i32 }
    }
}

/// A cardinal direction of movement.
#[derive(Debug, Clone, Copy, PartialEq, Eq, Hash, Structural)]
pub enum Direction {
    North,
    South,
    East,
    West,
}

/// The unit step of a direction.
pub open spec fn delta_of(d: Direction) -> (int, int) {
    match d {
        Direction::North => (0, -1),
        Direction::South => (0, 1),
        Direction::East => (1, 0),
        Direction::West => (-1, 0),
    }
}

impl Direction {
    /// The unit step of this direction, as a position offset.
    pub fn to_delta(self) -> (r: Position)
        ensures
            (r.x as int, r.y as int) == delta_of(self),
    {
        match self {
            Direction::North => Position::new(0, -1),
            Direction::South => Position::new(0, 1),
            Direction::East => Position::new(1, 0),
            Direction::West => Position::new(-1, 0),
        }
    }

    /// The direction whose unit step is `delta`, if there is one.
    pub fn from_delta(delta: Position) -> (r: Option<Direction>)
        ensures
            match r {
                Some(d) => delta_of(d) == (delta.x as int, delta.y as int),
                None => forall|d: Direction| delta_of(d) != (delta.x as int, delta.y as int),
            },
    {
        if delta.x == 0 && delta.y == -1 {
            Some(Direction::North)
        } else if delta.x == 0 && delta.y == 1 {
            Some(Direction::South)
        } else if delta.x == 1 && delta.y == 0 {
            Some(Direction::East)
        } else if delta.x == -1 && delta.y == 0 {
            Some(Direction::West)
        } else {
            None
        }
    }

    /// The four directions: north, south, east, west.
    pub fn all() -> (r: Vec<Direction>)
        ensures
            r@ == seq![Direction::North, Direction::South, Direction::East, Direction::West],
    {
        vec![Direction::North, Direction::South, Direction::East, Direction::West]
    }

    /// The cardinal directions, in the same order as [`Direction::all`].
    pub fn cardinal() -> (r: Vec<Direction>)
        ensures
            r@ == seq![Direction::North, Direction::South, Direction::East, Direction::West],
    {
        vec![Direction::North, Direction::South, Direction::East, Direction::West]
    }
}

} // verus!
