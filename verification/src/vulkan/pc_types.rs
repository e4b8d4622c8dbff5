//! Push constant layouts of the Vulkan backend that hold integers only.
use crate::types::{i16vec3, i16vec4, u8vec4, MeshBlock};
use vstd::prelude::*;

verus! {

pub struct Radiance {
    pub time: i32,
    pub iters: i32,
}

pub struct RaygenBlockPerBlock {
    pub inorm: u8vec4,
}

pub struct RaygenBlockPerFace {
    pub block: MeshBlock,
    pub shift: i16vec3,
}

pub struct LightmapBlock {
    pub shift: i16vec4,
}

} // verus!
