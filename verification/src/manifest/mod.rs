use vstd::prelude::*;

pub mod floor;

verus! {

/// One named animation of a sprite sheet, as written in a manifest file.
pub struct RawAnimationData {
    pub name: String,
    pub frames: Vec<usize>,
    /// Duration of each frame, in milliseconds.
    pub duration: u32,
}

} // verus!
