//! Grid coordinates, directions and displacement vectors.

use vstd::prelude::*;

pub mod cell;
pub mod maze;
pub mod text;

pub use self::cell::Cell;
pub use self::maze::Maze;

verus! {

/// Number of cells along each side of the grid. The library is written for
/// grids 8, 16 or 32 cells wide.
pub const WIDTH: usize = 16;

#[non_exhaustive]
#[derive(Copy, Clone, Debug, PartialEq, Eq, Structural)]
pub enum Error {
    /// A coordinate or a node index lies outside its range.
    OutOfRange,
    /// A pose stands where the graph has no node.
    InvalidLocation,
    /// A direction was wanted where none fits.
    InvalidDirection,
    /// A vector is not the unit step of a direction.
    InvalidVector,
}

#[non_exhaustive]
#[derive(Copy, Clone, Debug, PartialEq, Eq, Structural)]
pub enum Direction {
    North,
    East,
    South,
    West,
}

impl Direction {
    /// The direction that points the opposite way.
    pub open spec fn opposite(&self) -> Direction {
        match *self {
            Direction::North => Direction::South,
            Direction::East => Direction::West,
            Direction::South => Direction::North,
            Direction::West => Direction::East,
        }
    }

    /// The unit step that this direction stands for.
    pub open spec fn unit(self) -> VectorXY {
        match self {
            Direction::North => VectorXY { x: 0, y: 1 },
            Direction::East => VectorXY { x: 1, y: 0 },
            Direction::South => VectorXY { x: 0, y: -1i8 },
            Direction::West => VectorXY { x: -1i8, y: 0 },
        }
    }

    /// The direction that points the opposite way.
    #[inline]
    #[verifier::when_used_as_spec(opposite)]
    pub fn inverted(&self) -> (r: Self)
        ensures
            r == self.opposite(),
    {
        match *self {
            Direction::North => Direction::South,
            Direction::East => Direction::West,
            Direction::South => Direction::North,
            Direction::West => Direction::East,
        }
    }
}

/// A displacement on the grid.
#[derive(Debug, Copy, Clone, PartialEq, Eq, Structural)]
pub struct VectorXY {
    pub x: i8,
    pub y: i8,
}

impl VectorXY {
    /// The direction whose unit step is this vector, if there is one.
    pub open spec fn direction(self) -> Option<Direction> {
        if self.x == 0 && self.y == 1 {
            Some(Direction::North)
        } else if self.x == 1 && self.y == 0 {
            Some(Direction::East)
        } else if self.x == 0 && self.y == -1 {
            Some(Direction::South)
        } else if self.x == -1 && self.y == 0 {
            Some(Direction::West)
        } else {
            None
        }
    }
}

impl From<Direction> for VectorXY {
    #[inline]
    fn from(value: Direction) -> (r: Self)
        ensures
            r == value.unit(),
    {
        match value {
            Direction::North => VectorXY { x: 0, y: 1 },
            Direction::East => VectorXY { x: 1, y: 0 },
            Direction::South => VectorXY { x: 0, y: -1 },
            Direction::West => VectorXY { x: -1, y: 0 },
        }
    }
}

impl vstd::std_specs::convert::FromSpecImpl<Direction> for VectorXY {
    open spec fn obeys_from_spec() -> bool {
        true
    }

    open spec fn from_spec(v: Direction) -> Self {
        v.unit()
    }
}

impl TryFrom<VectorXY> for Direction {
    type Error = Error;

    #[inline]
    fn try_from(value: VectorXY) -> (r: Result<Self, Error>)
        ensures
            r == match value.direction() {
                Some(d) => Ok::<Direction, Error>(d),
                None => Err::<Direction, Error>(Error::InvalidVector),
            },
    {
        if value.x == 0 && value.y == 1 {
            Ok(Direction::North)
        } else if value.x == 1 && value.y == 0 {
            Ok(Direction::East)
        } else if value.x == 0 && value.y == -1 {
            Ok(Direction::South)
        } else if value.x == -1 && value.y == 0 {
            Ok(Direction::West)
        } else {
            Err(Error::InvalidVector)
        }
    }
}

impl vstd::std_specs::convert::TryFromSpecImpl<VectorXY> for Direction {
    open spec fn obeys_try_from_spec() -> bool {
        true
    }

    open spec fn try_from_spec(v: VectorXY) -> Result<Self, Error> {
        match v.direction() {
            Some(d) => Ok(d),
            None => Err(Error::InvalidVector),
        }
    }
}

/// Directions and unit steps stand for each other: inverting a direction
/// twice gives it back, the step of the inverted direction is the step
/// turned round, and the step of a direction and the direction of a step
/// undo each other.
pub proof fn lemma_direction_and_step(direction: Direction, vector: VectorXY)
    ensures
        direction.opposite().opposite() == direction,
        direction.opposite() != direction,
        direction.opposite().unit().x == -direction.unit().x,
        direction.opposite().unit().y == -direction.unit().y,
        direction.unit().direction() == Some(direction),
        vector.direction() == Some(direction) <==> vector == direction.unit(),
{
}

/// A coordinate along one axis of the grid: a value below `WIDTH`.
#[derive(Copy, Clone, PartialEq, Eq, PartialOrd, Debug, Structural)]
pub struct Coord1D {
    value: u8,
}

impl View for Coord1D {
    type V = int;

    closed spec fn view(&self) -> int {
        self.value as int
    }
}

impl Coord1D {
    /// The largest value that a coordinate can take.
    pub const MAX: u8 = WIDTH as u8 - 1;

    #[verifier::type_invariant]
    spec fn in_grid(self) -> bool {
        self.value <= Self::MAX
    }

    #[inline]
    pub fn new(value: u8) -> (r: Result<Self, Error>)
        ensures
            match r {
                Ok(c) => value < WIDTH && c@ == value,
                Err(e) => value >= WIDTH && e == Error::OutOfRange,
            },
    {
        if value > Self::MAX {
            Err(Error::OutOfRange)
        } else {
            Ok(Self { value })
        }
    }

    #[inline]
    pub fn value(&self) -> (v: u8)
        ensures
            v == self@,
            v < WIDTH,
    {
        proof {
            use_type_invariant(self);
        }
        self.value
    }

    /// Two coordinates of one value are the same coordinate.
    pub proof fn lemma_value_determines(self, other: Coord1D)
        requires
            self@ == other@,
        ensures
            self == other,
    {
    }
}

/// A cell position on the grid.
#[derive(Copy, Clone, Debug, PartialEq, Eq, Structural)]
pub struct CoordXY {
    x: Coord1D,
    y: Coord1D,
}

impl View for CoordXY {
    type V = (int, int);

    closed spec fn view(&self) -> (int, int) {
        (self.x@, self.y@)
    }
}

/// Whether `(x, y)` names a cell of the grid.
pub open spec fn on_grid(x: int, y: int) -> bool {
    0 <= x < WIDTH && 0 <= y < WIDTH
}

impl CoordXY {
    #[verifier::type_invariant]
    spec fn in_grid(self) -> bool {
        on_grid(self.x@, self.y@)
    }

    #[inline]
    pub fn new(x: u8, y: u8) -> (r: Result<Self, Error>)
        ensures
            match r {
                Ok(c) => on_grid(x as int, y as int) && c@ == (x as int, y as int),
                Err(e) => !on_grid(x as int, y as int) && e == Error::OutOfRange,
            },
    {
        match (Coord1D::new(x), Coord1D::new(y)) {
            (Ok(x), Ok(y)) => Ok(Self { x, y }),
            _ => Err(Error::OutOfRange),
        }
    }

    #[inline]
    pub fn x(&self) -> (r: Coord1D)
        ensures
            r@ == self@.0,
    {
        self.x
    }

    #[inline]
    pub fn y(&self) -> (r: Coord1D)
        ensures
            r@ == self@.1,
    {
        self.y
    }

    /// Two positions with the same coordinates are the same position.
    pub proof fn lemma_coordinates_determine(self, other: CoordXY)
        requires
            self@ == other@,
        ensures
            self == other,
    {
    }

    /// The position reached from `self` by the displacement `rhs`, if it is on the grid.
    pub open spec fn moved(self, rhs: VectorXY) -> Option<(int, int)> {
        if on_grid(self@.0 + rhs.x, self@.1 + rhs.y) {
            Some((self@.0 + rhs.x, self@.1 + rhs.y))
        } else {
            None
        }
    }
}

impl core::ops::Add<VectorXY> for CoordXY {
    type Output = Result<CoordXY, Error>;

    fn add(self, rhs: VectorXY) -> (r: Self::Output)
        ensures
            match r {
                Ok(c) => self.moved(rhs) == Some(c@),
                Err(e) => self.moved(rhs) is None && e == Error::OutOfRange,
            },
    {
        let new_x: i16 = self.x.value() as i16 + rhs.x as i16;
        let new_y: i16 = self.y.value() as i16 + rhs.y as i16;
        let max: i16 = Coord1D::MAX as i16;
        if new_x >= 0 && new_y >= 0 && new_x <= max && new_y <= max {
            CoordXY::new(new_x as u8, new_y as u8)
        } else {
            Err(Error::OutOfRange)
        }
    }
}

impl vstd::std_specs::ops::AddSpecImpl<VectorXY> for CoordXY {
    open spec fn obeys_add_spec() -> bool {
        true
    }

    open spec fn add_req(self, rhs: VectorXY) -> bool {
        true
    }

    closed spec fn add_spec(self, rhs: VectorXY) -> Result<CoordXY, Error> {
        match self.moved(rhs) {
            Some((x, y)) => Ok(
                CoordXY { x: Coord1D { value: x as u8 }, y: Coord1D { value: y as u8 } },
            ),
            None => Err(Error::OutOfRange),
        }
    }
}

impl core::ops::Sub<CoordXY> for CoordXY {
    type Output = VectorXY;

    fn sub(self, rhs: CoordXY) -> (r: Self::Output)
        ensures
            r.x == self@.0 - rhs@.0,
            r.y == self@.1 - rhs@.1,
    {
        VectorXY {
            x: self.x.value() as i8 - rhs.x.value() as i8,
            y: self.y.value() as i8 - rhs.y.value() as i8,
        }
    }
}

impl vstd::std_specs::ops::SubSpecImpl<CoordXY> for CoordXY {
    open spec fn obeys_sub_spec() -> bool {
        true
    }

    open spec fn sub_req(self, rhs: CoordXY) -> bool {
        true
    }

    open spec fn sub_spec(self, rhs: CoordXY) -> VectorXY {
        VectorXY { x: (self@.0 - rhs@.0) as i8, y: (self@.1 - rhs@.1) as i8 }
    }
}

/// Where in a cell an agent stands.
#[derive(Debug, Copy, Clone, PartialEq, Eq, Structural)]
pub enum CellLocalLocation {
    Center,
    North,
    East,
    South,
    West,
}

/// The pose of an agent: its cell, where in the cell it stands, and the
/// displacement by which it came there.
#[derive(Debug, Copy, Clone, PartialEq, Eq, Structural)]
pub struct AgentState {
    pub location: CoordXY,
    pub local_location: CellLocalLocation,
    pub heading_vector: VectorXY,
}

} // verus!
