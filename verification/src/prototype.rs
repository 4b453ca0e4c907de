use vstd::prelude::*;

verus! {

/// The stats a character prototype starts with.
#[derive(Debug, Clone, Copy, PartialEq, Eq, Structural)]
pub struct StatsProto {
    pub health: u32,
    pub damage: u32,
    pub speed: u32,
    pub cooldown: u32,
    pub xp: u32,
}

} // verus!
