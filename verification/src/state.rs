use vstd::prelude::*;

verus! {

/// What a character is doing right now.
#[derive(Debug, Clone, Copy, PartialEq, Eq, Hash, Structural)]
pub enum State {
    Idle,
    Walking,
    /// Index of the attack inside a combo.
    Attacking(u32),
    Dashing,
    _Dying,
}

impl State {
    /// Replaces the state.
    pub fn set(&mut self, state: State)
        ensures
            *final(self) == state,
    {
        *self = state;
    }

    /// Whether both states are the same (an attack also compares its combo index).
    pub fn equals(&self, other: Self) -> (r: bool)
        ensures
            r == (*self == other),
    {
        *self == other
    }
}

} // verus!
