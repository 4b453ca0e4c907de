use vstd::prelude::*;

verus! {

/// Marks the boss of a domain, by the boss's name.
pub struct Boss(pub String);

} // verus!
