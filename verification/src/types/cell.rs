//! One grid cell: four wall flags and four auxiliary flags packed into a byte.

use super::Direction;
use vstd::prelude::*;

verus! {

/// The eight flags that a cell holds.
pub ghost struct CellFlags {
    pub north: bool,
    pub east: bool,
    pub south: bool,
    pub west: bool,
    pub check_north: bool,
    pub check_east: bool,
    pub check_south: bool,
    pub check_west: bool,
}

impl CellFlags {
    /// A cell with no flag set.
    pub open spec fn clear() -> CellFlags {
        CellFlags {
            north: false,
            east: false,
            south: false,
            west: false,
            check_north: false,
            check_east: false,
            check_south: false,
            check_west: false,
        }
    }

    /// Whether a wall stands on the given side.
    pub open spec fn wall(self, direction: Direction) -> bool {
        match direction {
            Direction::North => self.north,
            Direction::East => self.east,
            Direction::South => self.south,
            Direction::West => self.west,
        }
    }

    /// The auxiliary flag of the given side.
    pub open spec fn check(self, direction: Direction) -> bool {
        match direction {
            Direction::North => self.check_north,
            Direction::East => self.check_east,
            Direction::South => self.check_south,
            Direction::West => self.check_west,
        }
    }

    /// These flags with the wall flag of one side replaced.
    pub open spec fn with_wall(self, direction: Direction, value: bool) -> CellFlags {
        match direction {
            Direction::North => CellFlags { north: value, ..self },
            Direction::East => CellFlags { east: value, ..self },
            Direction::South => CellFlags { south: value, ..self },
            Direction::West => CellFlags { west: value, ..self },
        }
    }

    /// These flags with the auxiliary flag of one side replaced.
    pub open spec fn with_check(self, direction: Direction, value: bool) -> CellFlags {
        match direction {
            Direction::North => CellFlags { check_north: value, ..self },
            Direction::East => CellFlags { check_east: value, ..self },
            Direction::South => CellFlags { check_south: value, ..self },
            Direction::West => CellFlags { check_west: value, ..self },
        }
    }
}

/// Whether bit `k` of `bits` is set.
spec fn bit(bits: u8, k: u8) -> bool {
    bits & (1u8 << k) != 0
}

/// The bit that holds each flag.
const NORTH: u8 = 0;

const EAST: u8 = 1;

const SOUTH: u8 = 2;

const WEST: u8 = 3;

const CHECK_NORTH: u8 = 4;

const CHECK_EAST: u8 = 5;

const CHECK_SOUTH: u8 = 6;

const CHECK_WEST: u8 = 7;

/// A cell of the maze: its eight flags, packed into one byte.
#[derive(Copy, Clone, Debug, PartialEq, Eq, Structural)]
pub struct Cell {
    bits: u8,
}

impl View for Cell {
    type V = CellFlags;

    closed spec fn view(&self) -> CellFlags {
        CellFlags {
            north: bit(self.bits, NORTH),
            east: bit(self.bits, EAST),
            south: bit(self.bits, SOUTH),
            west: bit(self.bits, WEST),
            check_north: bit(self.bits, CHECK_NORTH),
            check_east: bit(self.bits, CHECK_EAST),
            check_south: bit(self.bits, CHECK_SOUTH),
            check_west: bit(self.bits, CHECK_WEST),
        }
    }
}

/// Reads bit `k` of `bits`.
fn test_bit(bits: u8, k: u8) -> (r: bool)
    requires
        k < 8,
    ensures
        r == bit(bits, k),
{
    bits & (1u8 << k) != 0
}

/// Sets bit `k` of `bits` to `value` and leaves the other bits as they are.
fn replace_bit(bits: u8, k: u8, value: bool) -> (r: u8)
    requires
        k < 8,
    ensures
        forall|j: u8|
            j < 8 ==> #[trigger] bit(r, j) == (if j == k {
                value
            } else {
                bit(bits, j)
            }),
{
    let mask: u8 = 1u8 << k;
    let r: u8 = if value {
        bits | mask
    } else {
        bits & !mask
    };
    assert(forall|j: u8|
        j < 8 ==> #[trigger] bit(r, j) == (if j == k {
            value
        } else {
            bit(bits, j)
        })) by (bit_vector)
        requires
            k < 8,
            mask == 1u8 << k,
            r == (if value {
                bits | mask
            } else {
                bits & !mask
            }),
    ;
    r
}

impl Cell {
    /// A cell with no flag set.
    pub fn new() -> (r: Self)
        ensures
            r@ == CellFlags::clear(),
    {
        assert(forall|j: u8| j < 8 ==> !#[trigger] bit(0u8, j)) by (bit_vector);
        Cell { bits: 0 }
    }

    pub fn north(&self) -> (r: bool)
        ensures
            r == self@.north,
    {
        test_bit(self.bits, NORTH)
    }

    pub fn set_north(&mut self, value: bool)
        ensures
            final(self)@ == (CellFlags { north: value, ..old(self)@ }),
    {
        self.bits = replace_bit(self.bits, NORTH, value);
    }

    pub fn east(&self) -> (r: bool)
        ensures
            r == self@.east,
    {
        test_bit(self.bits, EAST)
    }

    pub fn set_east(&mut self, value: bool)
        ensures
            final(self)@ == (CellFlags { east: value, ..old(self)@ }),
    {
        self.bits = replace_bit(self.bits, EAST, value);
    }

    pub fn south(&self) -> (r: bool)
        ensures
            r == self@.south,
    {
        test_bit(self.bits, SOUTH)
    }

    pub fn set_south(&mut self, value: bool)
        ensures
            final(self)@ == (CellFlags { south: value, ..old(self)@ }),
    {
        self.bits = replace_bit(self.bits, SOUTH, value);
    }

    pub fn west(&self) -> (r: bool)
        ensures
            r == self@.west,
    {
        test_bit(self.bits, WEST)
    }

    pub fn set_west(&mut self, value: bool)
        ensures
            final(self)@ == (CellFlags { west: value, ..old(self)@ }),
    {
        self.bits = replace_bit(self.bits, WEST, value);
    }

    pub fn check_north(&self) -> (r: bool)
        ensures
            r == self@.check_north,
    {
        test_bit(self.bits, CHECK_NORTH)
    }

    pub fn set_check_north(&mut self, value: bool)
        ensures
            final(self)@ == (CellFlags { check_north: value, ..old(self)@ }),
    {
        self.bits = replace_bit(self.bits, CHECK_NORTH, value);
    }

    pub fn check_east(&self) -> (r: bool)
        ensures
            r == self@.check_east,
    {
        test_bit(self.bits, CHECK_EAST)
    }

    pub fn set_check_east(&mut self, value: bool)
        ensures
            final(self)@ == (CellFlags { check_east: value, ..old(self)@ }),
    {
        self.bits = replace_bit(self.bits, CHECK_EAST, value);
    }

    pub fn check_south(&self) -> (r: bool)
        ensures
            r == self@.check_south,
    {
        test_bit(self.bits, CHECK_SOUTH)
    }

    pub fn set_check_south(&mut self, value: bool)
        ensures
            final(self)@ == (CellFlags { check_south: value, ..old(self)@ }),
    {
        self.bits = replace_bit(self.bits, CHECK_SOUTH, value);
    }

    pub fn check_west(&self) -> (r: bool)
        ensures
            r == self@.check_west,
    {
        test_bit(self.bits, CHECK_WEST)
    }

    pub fn set_check_west(&mut self, value: bool)
        ensures
            final(self)@ == (CellFlags { check_west: value, ..old(self)@ }),
    {
        self.bits = replace_bit(self.bits, CHECK_WEST, value);
    }

    pub fn state_by_direction(&self, direction: Direction) -> (r: bool)
        ensures
            r == self@.wall(direction),
    {
        match direction {
            Direction::North => self.north(),
            Direction::East => self.east(),
            Direction::South => self.south(),
            Direction::West => self.west(),
        }
    }

    pub fn check_by_direction(&self, direction: Direction) -> (r: bool)
        ensures
            r == self@.check(direction),
    {
        match direction {
            Direction::North => self.check_north(),
            Direction::East => self.check_east(),
            Direction::South => self.check_south(),
            Direction::West => self.check_west(),
        }
    }

    pub fn set_state_by_direction(&mut self, direction: Direction, value: bool)
        ensures
            final(self)@ == old(self)@.with_wall(direction, value),
    {
        match direction {
            Direction::North => self.set_north(value),
            Direction::East => self.set_east(value),
            Direction::South => self.set_south(value),
            Direction::West => self.set_west(value),
        }
    }

    pub fn set_check_by_direction(&mut self, direction: Direction, value: bool)
        ensures
            final(self)@ == old(self)@.with_check(direction, value),
    {
        match direction {
            Direction::North => self.set_check_north(value),
            Direction::East => self.set_check_east(value),
            Direction::South => self.set_check_south(value),
            Direction::West => self.set_check_west(value),
        }
    }

    /// Two cells that agree on every flag are the same cell.
    pub proof fn lemma_flags_determine_cell(self, other: Cell)
        requires
            self@ == other@,
        ensures
            self == other,
    {
        let a = self.bits;
        let b = other.bits;
        assert(a == b) by (bit_vector)
            requires
                bit(a, 0) == bit(b, 0),
                bit(a, 1) == bit(b, 1),
                bit(a, 2) == bit(b, 2),
                bit(a, 3) == bit(b, 3),
                bit(a, 4) == bit(b, 4),
                bit(a, 5) == bit(b, 5),
                bit(a, 6) == bit(b, 6),
                bit(a, 7) == bit(b, 7),
        ;
    }
}

} // verus!
