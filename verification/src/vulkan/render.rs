//! CPU-side frame work of the Vulkan renderer (the world of block
//! references, the allocation of blocks for models with the copies of their
//! voxels, the choice of blocks whose light is updated, the shift of light
//! when the world moves), and its foliage descriptions.
use crate::array3d::{in_grid, volume, Array3D, Dim3};
use crate::render_interface::{FoliageDescriptionBuilder, FoliageDescriptionCreate, ShaderSource};
use crate::types::{i8vec4, ivec2, ivec3, uvec2, BlockVoxels, MeshFoliage, Vec2, Vec3, Vec4};
use crate::vulkan::types::InternalBlockId;
use crate::world::{
    abs, abs_i32, allocations_before, axis_offsets, blockified, blockify_box, box_allocations,
    clamp_to_world, copies_before, lemma_cell_near_block_is_picked, palette_position, palette_xy,
    pick_radiance_updates, placeable_before, radiance_update_list, region_dims, shift_leaves_nothing, specials_in_grid,
    BlockCopy, RadianceShift, BLOCK_PALETTE_SIZE_Y,
};
use crate::Settings;
use vstd::prelude::*;

verus! {

/// `v` clamped into `lo ..= hi`, whose bounds must be in order.
fn clamp_between(v: i32, lo: i32, hi: i32) -> (r: i32)
    requires
        lo <= hi,
    ensures
        r == if v < lo {
            lo
        } else if v > hi {
            hi
        } else {
            v
        },
{
    if v < lo {
        lo
    } else if v > hi {
        hi
    } else {
        v
    }
}

/// Source (x) and destination (y) offsets along one axis for a shift of
/// `shift` blocks: the shift when it is positive (else 0), and the size of
/// the shift when it is negative (else 0).
fn clamped_axis_offsets(shift: i32) -> (r: ivec2)
    requires
        shift != i32::MIN,
    ensures
        (r.x as int, r.y as int) == axis_offsets(shift as int),
{
    let src = clamp_between(shift, 0, i32::MAX);
    let dst = abs_i32(clamp_between(shift, -i32::MAX, 0));
    Vec2 { x: src, y: dst }
}

/// CPU-side state of the Vulkan renderer: the world of block references and
/// the per-frame queues built from it.
pub struct InternalRendererVulkan<D: Dim3> {
    /// Internal frame counter.
    pub counter: isize,
    /// Renderer settings. Cannot be changed after creation.
    pub settings: Settings<D>,
    /// Blocks whose light is to be updated this frame.
    pub radiance_updates: Vec<i8vec4>,
    /// Blocks whose light update was asked for through the API.
    pub special_radiance_updates: Vec<i8vec4>,
    /// Block voxel copies to perform for blocks allocated this frame.
    pub block_copies_queue: Vec<BlockCopy>,
    /// Number of palette entries in use, static ones included.
    pub palette_counter: usize,
    /// How many blocks are static blocks (frame-persistent).
    pub static_block_palette_size: u32,
    /// Block references without any allocation for models.
    pub origin_world: Array3D<InternalBlockId, D>,
    /// The origin world with blocks allocated for models.
    pub current_world: Array3D<InternalBlockId, D>,
    /// Voxels of the static blocks, indexed by block id.
    pub block_palette_voxels: Vec<BlockVoxels>,
}

impl<D: Dim3> InternalRendererVulkan<D> {
    /// `self` and `other` agree on everything but the current world, the
    /// palette counter and the copy queue.
    pub open spec fn kept_except_blocks(&self, other: Self) -> bool {
        &&& self.counter == other.counter
        &&& self.settings == other.settings
        &&& self.radiance_updates == other.radiance_updates
        &&& self.special_radiance_updates == other.special_radiance_updates
        &&& self.static_block_palette_size == other.static_block_palette_size
        &&& self.origin_world == other.origin_world
        &&& self.block_palette_voxels == other.block_palette_voxels
    }

    /// `self` and `other` agree on everything but the frame counter and the
    /// light update queue.
    pub open spec fn kept_except_updates(&self, other: Self) -> bool {
        &&& self.settings == other.settings
        &&& self.special_radiance_updates == other.special_radiance_updates
        &&& self.block_copies_queue == other.block_copies_queue
        &&& self.palette_counter == other.palette_counter
        &&& self.static_block_palette_size == other.static_block_palette_size
        &&& self.origin_world == other.origin_world
        &&& self.current_world == other.current_world
        &&& self.block_palette_voxels == other.block_palette_voxels
    }

    /// Resets the frame's block allocation: empties the copy queue, restarts
    /// the palette after the static blocks and puts the origin world back.
    pub fn start_blockify(&mut self)
        requires
            old(self).current_world.data@.len() == old(self).origin_world.data@.len(),
        ensures
            final(self).block_copies_queue@ == Seq::<BlockCopy>::empty(),
            final(self).palette_counter == old(self).static_block_palette_size,
            final(self).current_world.data@ == old(self).origin_world.data@,
            final(self).current_world.dims == old(self).current_world.dims,
            final(self).kept_except_blocks(*old(self)),
    {
        self.block_copies_queue.clear();
        self.palette_counter = self.static_block_palette_size as usize;
        self.current_world.copy_data_from(&self.origin_world);
        proof {
            assert(self.current_world.data@ =~= old(self).origin_world.data@);
        }
    }

    /// Position of palette entry `n` in the palette image, in blocks.
    pub fn index_block_xy(&self, n: usize) -> (r: uvec2)
        requires
            palette_xy(n as int).1 <= BLOCK_PALETTE_SIZE_Y,
        ensures
            (r.x as int, r.y as int) == palette_xy(n as int),
    {
        palette_position(n)
    }

    /// How the light images move for a world shift of `radiance_shift`
    /// blocks: `None` when the shift along some axis is at least the world
    /// size there (nothing is kept then), else the offsets and the size of the
    /// part of the light that is kept.
    pub fn plan_radiance_shift(&self, radiance_shift: ivec3) -> (r: Option<RadianceShift>)
        requires
            radiance_shift.x != i32::MIN,
            radiance_shift.y != i32::MIN,
            radiance_shift.z != i32::MIN,
            self.settings.world_size.size_x() <= i32::MAX,
            self.settings.world_size.size_y() <= i32::MAX,
            self.settings.world_size.size_z() <= i32::MAX,
        ensures
            r is None <==> shift_leaves_nothing(self.settings.world_size, radiance_shift),
            r matches Some(plan) ==> {
                let d = self.settings.world_size;
                let s = radiance_shift;
                &&& (plan.src_offset.x as int, plan.dst_offset.x as int) == axis_offsets(s.x as int)
                &&& (plan.src_offset.y as int, plan.dst_offset.y as int) == axis_offsets(s.y as int)
                &&& (plan.src_offset.z as int, plan.dst_offset.z as int) == axis_offsets(s.z as int)
                &&& plan.extent.x == d.size_x() - abs(s.x as int)
                &&& plan.extent.y == d.size_y() - abs(s.y as int)
                &&& plan.extent.z == d.size_z() - abs(s.z as int)
            },
    {
        let cam_shift = radiance_shift;
        let sx = self.settings.world_size.x() as i32;
        let sy = self.settings.world_size.y() as i32;
        let sz = self.settings.world_size.z() as i32;
        if abs_i32(cam_shift.x) >= sx || abs_i32(cam_shift.y) >= sy || abs_i32(cam_shift.z) >= sz {
            return None;
        }
        let px = clamped_axis_offsets(cam_shift.x);
        let py = clamped_axis_offsets(cam_shift.y);
        let pz = clamped_axis_offsets(cam_shift.z);
        let src_offset = Vec3 { x: px.x, y: py.x, z: pz.x };
        let dst_offset = Vec3 { x: px.y, y: py.y, z: pz.y };
        let extent = Vec3 {
            x: sx as u32 - abs_i32(cam_shift.x) as u32,
            y: sy as u32 - abs_i32(cam_shift.y) as u32,
            z: sz as u32 - abs_i32(cam_shift.z) as u32,
        };
        Some(RadianceShift { src_offset, dst_offset, extent })
    }

    /// Moves to the next frame and chooses the blocks whose light is updated
    /// in it: on the layers (along Z) of the new frame's parity, every cell
    /// with a block in its 3x3x3 neighbourhood, in storage order; then each
    /// requested update whose cell was not chosen, in request order.
    pub fn find_radiance_to_update(&mut self)
        requires
            old(self).current_world.wf(),
            old(self).current_world.dims == old(self).settings.world_size,
            -1 <= old(self).counter < isize::MAX,
            old(self).settings.world_size.size_x() <= i32::MAX,
            old(self).settings.world_size.size_y() <= i32::MAX,
            old(self).settings.world_size.size_z() <= i32::MAX,
            specials_in_grid(old(self).settings.world_size, old(self).special_radiance_updates@),
        ensures
            final(self).counter == old(self).counter + 1,
            final(self).radiance_updates@ == radiance_update_list(
                old(self).current_world,
                final(self).counter as int % 2,
                old(self).special_radiance_updates@,
            ),
            final(self).kept_except_updates(*old(self)),
    {
        self.counter += 1;
        let offset: isize = self.counter % 2;
        self.radiance_updates = pick_radiance_updates(
            &self.current_world,
            offset,
            &self.special_radiance_updates,
        );
    }

    /// How many palette entries `blockify_region` hands out for the box from
    /// `border_min` to `border_max`; `None` when a cell of the box refers to a
    /// static entry that the palette layout does not place.
    pub fn blockify_entries_needed(&self, border_min: ivec3, border_max: ivec3) -> (r: Option<usize>)
        requires
            self.current_world.wf(),
            self.current_world.dims == self.settings.world_size,
            1 <= self.settings.world_size.size_x() <= i32::MAX,
            1 <= self.settings.world_size.size_y() <= i32::MAX,
            1 <= self.settings.world_size.size_z() <= i32::MAX,
        ensures
            ({
                let d = self.settings.world_size;
                let lo = clamp_to_world(border_min, d);
                let hi = clamp_to_world(border_max, d);
                let n = volume(region_dims(lo, hi)) as nat;
                let s = self.static_block_palette_size;
                &&& r is Some <==> placeable_before(self.current_world, lo, hi, s, n)
                &&& r matches Some(c) ==> c == allocations_before(self.current_world, lo, hi, s, n)
            }),
    {
        box_allocations(&self.current_world, self.static_block_palette_size, border_min, border_max)
    }

    /// Gives a block of its own to every cell of the box from `border_min` to
    /// `border_max` (clamped into the world) that refers to a static palette
    /// entry: such cells get the next palette entries, in scan order (X
    /// fastest, then Y, then Z), and for each such cell that held a block a
    /// copy of its voxels into the new entry is queued; other cells are kept.
    pub fn blockify_region(&mut self, border_min: ivec3, border_max: ivec3)
        requires
            old(self).current_world.wf(),
            old(self).current_world.dims == old(self).settings.world_size,
            1 <= old(self).settings.world_size.size_x() <= i32::MAX,
            1 <= old(self).settings.world_size.size_y() <= i32::MAX,
            1 <= old(self).settings.world_size.size_z() <= i32::MAX,
            ({
                let d = old(self).settings.world_size;
                let lo = clamp_to_world(border_min, d);
                let hi = clamp_to_world(border_max, d);
                placeable_before(
                    old(self).current_world,
                    lo,
                    hi,
                    old(self).static_block_palette_size,
                    volume(region_dims(lo, hi)) as nat,
                )
            }),
            ({
                let d = old(self).settings.world_size;
                let lo = clamp_to_world(border_min, d);
                let hi = clamp_to_world(border_max, d);
                old(self).palette_counter + allocations_before(
                    old(self).current_world,
                    lo,
                    hi,
                    old(self).static_block_palette_size,
                    volume(region_dims(lo, hi)) as nat,
                ) <= 4160
            }),
        ensures
            ({
                let d = old(self).settings.world_size;
                let lo = clamp_to_world(border_min, d);
                let hi = clamp_to_world(border_max, d);
                let w = old(self).current_world;
                let s = old(self).static_block_palette_size;
                let n = volume(region_dims(lo, hi)) as nat;
                let c = old(self).palette_counter as int;
                &&& final(self).palette_counter == c + allocations_before(w, lo, hi, s, n)
                &&& final(self).current_world.wf()
                &&& final(self).current_world.dims == d
                &&& forall|x: int, y: int, z: int|
                    in_grid(d, x, y, z) ==> #[trigger] final(self).current_world.at(x, y, z)
                        == blockified(w, lo, hi, s, c, x, y, z)
                &&& final(self).block_copies_queue@ == old(self).block_copies_queue@
                    + copies_before(w, lo, hi, s, c, n)
            }),
            final(self).kept_except_blocks(*old(self)),
    {
        let static_size = self.static_block_palette_size;
        self.palette_counter = blockify_box(
            &mut self.current_world,
            self.palette_counter,
            static_size,
            border_min,
            border_max,
            true,
            &mut self.block_copies_queue,
        );
    }
}

/// Description of foliage mesh to be created
#[derive(Debug, Clone, Default)]
pub struct MeshFoliageDescription<'a> {
    /// Shader, compiled into spirv.
    pub spirv_code: &'a [u8],
    /// How many vertices will be in per-blade drawcall.
    pub vertices: u32,
    /// How many blades there are in a row, and how many rows in a block.
    pub density: u32,
}

impl<'a> FoliageDescriptionCreate<'a> for MeshFoliageDescription<'a> {
    open spec fn accepts(code: ShaderSource<'a>) -> bool {
        code is SpirV
    }

    fn new(code: ShaderSource<'a>, vertices: usize, dencity: usize) -> (r: Self)
        ensures
            r.spirv_code == code->SpirV_0,
            r.vertices == vertices as u32,
            r.density == dencity as u32,
    {
        match code {
            ShaderSource::SpirV(spirv) => Self {
                spirv_code: spirv,
                vertices: vertices as u32,
                density: dencity as u32,
            },
            ShaderSource::Wgsl(_) => {
                proof {
                    assert(false);
                }
                Self { spirv_code: &[], vertices: 0, density: 0 }
            },
        }
    }
}

/// A cell on the new frame's layer parity (`(counter + 1) % 2`, the frame
/// counter having moved on) with a block (a positive reference) in any of
/// the 27 cells around it, itself included and at most one step away along
/// each axis, is among the light updates that `find_radiance_to_update`
/// chooses, as the entry `(x, y, z, 0)`.
pub proof fn lemma_block_near_cell_gets_light_update<D: Dim3>(
    w: Array3D<InternalBlockId, D>,
    counter: int,
    specials: Seq<i8vec4>,
    x: int,
    y: int,
    z: int,
    a: int,
    b: int,
    c: int,
)
    requires
        counter >= -1,
        in_grid(w.dims, x, y, z),
        in_grid(w.dims, a, b, c),
        -1 <= a - x <= 1,
        -1 <= b - y <= 1,
        -1 <= c - z <= 1,
        w.at(a, b, c) > 0,
        z % 2 == (counter + 1) % 2,
    ensures
        radiance_update_list(w, (counter + 1) % 2, specials).contains(
            Vec4 { x: x as i8, y: y as i8, z: z as i8, w: 0 },
        ),
{
    lemma_cell_near_block_is_picked::<InternalBlockId, i8vec4, D>(
        w,
        (counter + 1) % 2,
        specials,
        x,
        y,
        z,
        a - x,
        b - y,
        c - z,
    );
}

/// Simplistic implementation of FoliageDescriptionBuilder
pub struct SimpleFoliageDescriptionBuilder<'a> {
    foliage_descriptions: Vec<MeshFoliageDescription<'a>>,
}

impl<'a> FoliageDescriptionBuilder<MeshFoliageDescription<'a>> for SimpleFoliageDescriptionBuilder<'a> {
    closed spec fn descriptions(&self) -> Seq<MeshFoliageDescription<'a>> {
        self.foliage_descriptions@
    }

    fn new() -> (r: Self) {
        Self { foliage_descriptions: Vec::new() }
    }

    fn load_foliage(&mut self, foliage: MeshFoliageDescription<'a>) -> (r: MeshFoliage) {
        let index = self.foliage_descriptions.len() as u32;
        self.foliage_descriptions.push(foliage);
        index as MeshFoliage
    }

    fn build(self) -> (r: Vec<MeshFoliageDescription<'a>>) {
        self.foliage_descriptions
    }
}

} // verus!
