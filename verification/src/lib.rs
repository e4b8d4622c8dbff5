//! Fixed-layout containers used by the Lum voxel renderer (rings of per-frame
//! resources, 3D arrays, 3D bit sets and a slot arena), and the integer world
//! bookkeeping that the renderer performs on the CPU each frame.
use array3d::{ConstDims, Dim3};
use types::uvec2;
use vstd::prelude::*;

pub mod arena;
pub mod array3d;
pub mod bit_array;
pub mod load_interface;
pub mod multiprocessor;
pub mod palette;
pub mod render_interface;
pub mod ring;
pub mod types;
pub mod vulkan;
pub mod webgpu;
pub mod world;

pub use arena::{Arena, IntoIter, Iter, IterMut};
pub use ring::{Ring, RingIterator, RingIteratorMut};

verus! {

/// Renderer settings, fixed when the renderer is made.
#[derive(Clone, Copy)]
pub struct Settings<D: Dim3 = ConstDims<48, 48, 16>> {
    pub world_size: D,
    pub static_block_palette_size: u32,
    pub max_particle_count: u32,
    pub lightmap_extent: uvec2,
}

impl<D: Dim3> Default for Settings<D> {
    fn default() -> (r: Self)
        ensures
            call_ensures(D::default, (), r.world_size),
            r.static_block_palette_size == 15,
            r.max_particle_count == 8128,
            r.lightmap_extent == (uvec2 { x: 1024, y: 1024 }),
    {
        Self {
            world_size: D::default(),
            static_block_palette_size: 15,
            max_particle_count: 8128,
            lightmap_extent: uvec2 { x: 1024, y: 1024 },
        }
    }
}

} // verus!
