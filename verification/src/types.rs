//! Types visible in the renderer's API that do not change with the backend:
//! small integer vectors, block and material ids, and mesh handles.
#![allow(non_camel_case_types)]
use vstd::prelude::*;

verus! {

/// Edge length of a block, in voxels.
pub const BLOCK_SIZE: u32 = 16;

/// Edge length of a block, in voxels, as an index.
#[allow(non_upper_case_globals)]
pub const sBLOCK_SIZE: usize = 16;

/// Two components.
#[derive(Clone, Copy, Debug, Default, PartialEq, Eq)]
pub struct Vec2<T> {
    pub x: T,
    pub y: T,
}

/// Three components.
#[derive(Clone, Copy, Debug, Default, PartialEq, Eq)]
pub struct Vec3<T> {
    pub x: T,
    pub y: T,
    pub z: T,
}

/// Four components.
#[derive(Clone, Copy, Debug, Default, PartialEq, Eq)]
pub struct Vec4<T> {
    pub x: T,
    pub y: T,
    pub z: T,
    pub w: T,
}

pub type uvec4 = Vec4<u32>;

pub type u16vec4 = Vec4<u16>;

pub type u8vec4 = Vec4<u8>;

pub type uvec3 = Vec3<u32>;

pub type u16vec3 = Vec3<u16>;

pub type u8vec3 = Vec3<u8>;

pub type uvec2 = Vec2<u32>;

pub type u16vec2 = Vec2<u16>;

pub type u8vec2 = Vec2<u8>;

pub type ivec4 = Vec4<i32>;

pub type i16vec4 = Vec4<i16>;

pub type i8vec4 = Vec4<i8>;

pub type ivec3 = Vec3<i32>;

pub type i16vec3 = Vec3<i16>;

pub type i8vec3 = Vec3<i8>;

pub type ivec2 = Vec2<i32>;

pub type i16vec2 = Vec2<i16>;

pub type i8vec2 = Vec2<i8>;

/// Wrapper of a voxel used while building contours.
#[derive(Clone, Copy, Eq, PartialEq, Debug, Default)]
pub struct VoxelForContour<V: PartialEq>(pub V);

/// API BlockId type - same across all backends. Used in API and CPU-side world representation (GPU-side does NOT use this exact type)
pub type BlockId = i16;

/// Material ID and Voxel are essentially the same thing.
pub type MatId = u8;

pub type Voxel = u8;

pub type MeshBlock = i16;

/// Opaque handles, done this way for cheap copying and simple lifetime management.
pub type MeshModel = usize;

pub type MeshVolumetric = usize;

pub type MeshLiquid = usize;

pub type MeshFoliage = usize;

/// Voxels of one block, indexed `[x][y][z]`.
pub type BlockVoxels = [[[Voxel; 16]; 16]; 16];

} // verus!
