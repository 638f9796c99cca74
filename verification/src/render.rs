//! Small render-side types: offscreen targets and the shadow-pass light
//! iterator.

use vstd::prelude::*;

verus! {

/// The offscreen render targets; the order is the binding index in shaders.
#[derive(PartialEq, Eq, Structural, Debug, Clone, Copy)]
pub enum OffscreenTarget {
    Color,
    MSAAColor,
    Depth,
}

/// The index of the light a shadow pass draws, padded to 16 bytes.
#[derive(PartialEq, Eq, Structural, Debug, Clone, Copy)]
pub struct IteratorLight {
    pub light_idx: u32,
    pub pad_0: u32,
    pub pad_1: u32,
    pub pad_2: u32,
}

impl IteratorLight {
    pub fn new(light_idx: u32) -> (r: Self)
        ensures
            r == (IteratorLight { light_idx, pad_0: 0, pad_1: 0, pad_2: 0 }),
    {
        IteratorLight { light_idx, pad_0: 0, pad_1: 0, pad_2: 0 }
    }
}

} // verus!
