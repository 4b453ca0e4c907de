use vstd::prelude::*;

verus! {

/// One of the four compass directions of the dungeon grid.
#[derive(Debug, Clone, Copy, PartialEq, Eq, Structural)]
pub enum Direction {
    NORTH,
    SOUTH,
    WEST,
    EAST,
}

impl Direction {
    /// Every direction once, in the order north, south, west, east.
    pub fn values() -> (r: [Self; 4])
        ensures
            r@ == seq![Direction::NORTH, Direction::SOUTH, Direction::WEST, Direction::EAST],
    {
        let r = [Self::NORTH, Self::SOUTH, Self::WEST, Self::EAST];
        assert(r@ =~= seq![Direction::NORTH, Direction::SOUTH, Direction::WEST, Direction::EAST]);
        r
    }
}

} // verus!
