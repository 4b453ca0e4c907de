use vstd::prelude::*;

verus! {

/// Marks a background layer that moves slower than the camera.
pub struct Parallax;

} // verus!
