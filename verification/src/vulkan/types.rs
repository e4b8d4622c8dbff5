//! Internal renderer structs of the Vulkan backend.
use crate::types::{i8vec3, u8vec2, u8vec3};
use vstd::prelude::*;

verus! {

pub type InternalBlockId = i16;

/// Material ID and Voxel are essentially the same thing.
pub type InternalMatId = u8;

pub type InternalVoxel = u8;

/// Where one face's indices are in the (single) index buffer of a mesh.
#[derive(Clone, Copy, Debug, Default)]
pub struct IndexedVertices {
    /// All faces are stored in the same buffer and accessed with an offset.
    pub offset: u32,
    pub icount: u32,
}

/// A registered foliage kind.
#[derive(Debug, Clone, Default)]
pub struct InternalMeshFoliage {
    pub stored_id: u32,
}

/// A liquid: its main and its foam material.
#[derive(Clone, Debug, Default)]
pub struct InternalMeshLiquid {
    pub main: InternalMatId,
    pub foam: InternalMatId,
}

#[derive(Clone, Copy, Debug, Default)]
pub struct VoxelVertex {
    pub pos: u8vec3,
    pub norm: i8vec3,
    pub mat_id: InternalMatId,
}

#[derive(Clone, Copy, Debug, Default)]
pub struct PackedVoxelVertex {
    pub pos: u8vec3,
    pub mat_id: InternalMatId,
}

#[derive(Clone, Copy, Debug, Default)]
pub struct PackedVoxelQuad {
    pub size: u8vec2,
    pub pos: u8vec3,
    pub mat_id: InternalMatId,
}

#[derive(Clone, Copy, Debug, Default)]
pub struct PackedVoxelCircuit {
    pub pos: u8vec3,
}

} // verus!
