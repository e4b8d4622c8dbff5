//! Types of the WebGPU backend, including the integer push constant layouts.
#![allow(non_camel_case_types)]
use crate::render_interface::{FoliageDescriptionCreate, ShaderSource};
use crate::types::ivec3;
use vstd::prelude::*;

verus! {

pub type InternalBlockId = i32;

/// Material ID and Voxel are essentially the same thing.
pub type InternalMatId = i32;

pub type InternalVoxel = i32;

/// Description of foliage to be created: a WGSL shader and its sizes.
#[derive(Debug, Clone, Default)]
pub struct MeshFoliageDesc<'a> {
    pub code: &'a str,
    /// How many vertices will be in per-blade drawcall.
    pub vertices: u32,
    /// How many blades there are in a block (linear).
    pub density: u32,
}

impl<'a> FoliageDescriptionCreate<'a> for MeshFoliageDesc<'a> {
    open spec fn accepts(code: ShaderSource<'a>) -> bool {
        code is Wgsl
    }

    fn new(code: ShaderSource<'a>, vertices: usize, dencity: usize) -> (r: Self)
        ensures
            r.code == code->Wgsl_0,
            r.vertices == vertices as u32,
            r.density == dencity as u32,
    {
        match code {
            ShaderSource::Wgsl(code) => Self {
                code: code,
                vertices: vertices as u32,
                density: dencity as u32,
            },
            ShaderSource::SpirV(_) => {
                proof {
                    assert(false);
                }
                Self { code: "", vertices: 0, density: 0 }
            },
        }
    }
}

/// Where one face's indices are in the (single) index buffer of a mesh.
#[derive(Clone, Copy, Debug, Default)]
pub struct IndexedVertices {
    /// All faces are stored in the same buffer and accessed with an offset.
    pub offset: u32,
    pub icount: u32,
}

/// A registered foliage kind.
#[derive(Debug, Clone, Default)]
pub struct InternalMeshFoliage {
    pub stored_id: u32,
}

/// A liquid: its main and its foam material.
#[derive(Clone, Debug, Default)]
pub struct InternalMeshLiquid {
    pub main: InternalMatId,
    pub foam: InternalMatId,
}

pub struct PcRyagenBlockFace {
    pub block: i32,
    pub shift: ivec3,
    pub unorm: u32,
}

pub struct PcLightmapBlockFace {
    pub block: i32,
    pub shift: ivec3,
    pub unorm: u32,
}

} // verus!
