use vstd::prelude::*;

verus! {

/// Asks for the layout of the next level to be generated.
pub struct GenerateLevelEvent;

/// Every enemy of the level has been killed.
pub struct LevelFinishedEvent;

/// The player asked to go on to the next level.
pub struct TriggerNextLevelEvent;

} // verus!
