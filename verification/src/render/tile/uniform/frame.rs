use vstd::prelude::*;

verus! {

/// Per-frame values handed to the tile shader.
#[derive(Debug, Copy, Clone, PartialEq, Eq, Structural)]
pub struct FrameUniform {
    pub time: u64,
}

impl FrameUniform {
    pub fn new() -> (u: Self)
        ensures
            u.time == 0,
    {
        Self { time: 0 }
    }
}

} // verus!
