//! Mesh data handed to the renderer for loading. Lum does not parse any file
//! format or make triangles: the caller prepares them.
use crate::types::{ivec3, u8vec3, BlockId, Voxel};
use vstd::prelude::*;

verus! {

/// A vertex of a block or model mesh.
#[derive(Clone, Copy, Debug, Default)]
pub struct SimpleVertex {
    pub pos: u8vec3,
}

/// Where one face's indices are in the (single) index buffer of a mesh.
#[derive(Clone, Copy, Debug, Default)]
pub struct SImpleIndexedSlice {
    /// All faces are stored in the same buffer and accessed with an offset.
    pub offset: u32,
    pub icount: u32,
}

/// Bundle of "virtual" (indexed) buffers for the faces of a mesh.
/// zPz means zero-Positive-zero ((0,1,0) normal), zzN means zero-zero-Negative
/// ((0,0,-1) normal) and so on.
#[allow(non_snake_case)]
#[derive(Debug, Default, Clone, Copy)]
pub struct SimpleFaceIndices {
    /// Slice of indices, corresponding to +X face
    pub Pzz: SImpleIndexedSlice,
    /// Slice of indices, corresponding to -X face
    pub Nzz: SImpleIndexedSlice,
    /// Slice of indices, corresponding to +Y face
    pub zPz: SImpleIndexedSlice,
    /// Slice of indices, corresponding to -Y face
    pub zNz: SImpleIndexedSlice,
    /// Slice of indices, corresponding to +Z face
    pub zzP: SImpleIndexedSlice,
    /// Slice of indices, corresponding to -Z face
    pub zzN: SImpleIndexedSlice,
}

/// Header of a prepared model file.
pub struct Metadata {
    pub size: ivec3,
    pub face_indices: SimpleFaceIndices,
}

/// Model mesh memory in relatively compact form.
pub struct ModelData<'a> {
    pub size: ivec3,
    pub iv: SimpleFaceIndices,
    pub voxels: &'a [Voxel],
    pub vertices: &'a [SimpleVertex],
    pub indices: &'a [u16],
}

/// Block mesh memory in relatively compact form.
pub struct BlockData<'a> {
    pub iv: SimpleFaceIndices,
    pub voxels: &'a [Voxel; 4096],
    pub vertices: &'a [SimpleVertex],
    pub indices: &'a [u16],
}

/// A world of blocks, X fastest, then Y, then Z.
pub struct SceneData<'a> {
    pub size: ivec3,
    pub blocks: &'a [BlockId],
}

} // verus!
