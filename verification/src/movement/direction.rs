use vstd::prelude::*;

verus! {

/// The direction a character faces, and the four sides of a grid cell.
#[derive(Debug, Clone, Copy, PartialEq, Eq, Hash, Structural)]
pub enum Direction {
    NORTH,
    SOUTH,
    WEST,
    EAST,
}

/// The unit step on the integer grid that a direction stands for
/// (north is +y, east is +x).
pub open spec fn direction_offset(d: Direction) -> (i32, i32) {
    match d {
        Direction::NORTH => (0i32, 1i32),
        Direction::SOUTH => (0i32, -1i32),
        Direction::WEST => (-1i32, 0i32),
        Direction::EAST => (1i32, 0i32),
    }
}

/// The four directions in the order in which they are listed.
pub open spec fn all_directions() -> Seq<Direction> {
    seq![Direction::NORTH, Direction::SOUTH, Direction::WEST, Direction::EAST]
}

impl Direction {
    /// Every direction once, in the order north, south, west, east.
    pub fn values() -> (r: [Self; 4])
        ensures
            r@ == all_directions(),
    {
        let r = [Self::NORTH, Self::SOUTH, Self::WEST, Self::EAST];
        assert(r@ =~= all_directions());
        r
    }

    /// Turns to face `direction`.
    pub fn set(&mut self, direction: Direction)
        ensures
            *final(self) == direction,
    {
        *self = direction;
    }

    /// Whether both directions are the same.
    pub fn equals(&self, other: &Self) -> (r: bool)
        ensures
            r == (*self == *other),
    {
        *self == *other
    }

    /// The unit grid step of this direction, as integer coordinates.
    pub fn offset(&self) -> (r: (i32, i32))
        ensures
            r == direction_offset(*self),
    {
        match *self {
            Direction::NORTH => (0, 1),
            Direction::SOUTH => (0, -1),
            Direction::WEST => (-1, 0),
            Direction::EAST => (1, 0),
        }
    }
}

} // verus!
