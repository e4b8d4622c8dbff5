//! CPU-side frame work of the WebGPU renderer: the world of block references,
//! the allocation of temporary blocks for models, the choice of blocks whose
//! light is updated this frame, and the shift of light when the world moves.
use crate::array3d::{dims_fit, flat_index, in_grid, volume, Array3D, Dim3, RuntimeDims};
use crate::render_interface::FoliageDescriptionBuilder;
use crate::types::{ivec2, ivec3, ivec4, uvec2, uvec3, BlockVoxels, MeshFoliage, Vec2, Vec3, Vec4};
use crate::webgpu::types::{InternalBlockId, MeshFoliageDesc};
use crate::world::{
    abs, abs_i32, allocations_before, axis_offsets, blockified, blockify_box, box_allocations,
    cell_of, clamp_to_world, lemma_cell_near_block_is_picked, lemma_cell_of_flat_index,
    lemma_needs_update_has_block_near, lemma_scanned_updates_sound, lemma_unpicked_specials_sound,
    scanned_updates, unpicked_specials, palette_position, palette_xy,
    pick_radiance_updates, placeable_before, radiance_update_list, region_dims,
    shift_leaves_nothing, specials_in_grid, RadianceShift,
};
use crate::Settings;
use vstd::prelude::*;

pub use crate::world::{BlockCopy, BLOCK_PALETTE_SIZE_X, BLOCK_PALETTE_SIZE_Y};

verus! {

/// Source (x) and destination (y) offsets along one axis for a shift `shift`.
pub fn process_axis(shift: i32, _world_size: i32) -> (r: ivec2)
    requires
        shift != i32::MIN,
    ensures
        (r.x as int, r.y as int) == axis_offsets(shift as int),
{
    if shift >= 0 {
        Vec2 { x: shift, y: 0 }
    } else {
        Vec2 { x: 0, y: -shift }
    }
}

/// Rows of the world as it is uploaded hold a multiple of this many blocks
/// (256 bytes of block references).
pub const WORLD_ROW_ALIGNMENT: usize = 64;

/// `n` rounded up to a multiple of `WORLD_ROW_ALIGNMENT`.
pub open spec fn padded_row(n: int) -> int {
    ((n + WORLD_ROW_ALIGNMENT - 1) / (WORLD_ROW_ALIGNMENT as int)) * (WORLD_ROW_ALIGNMENT as int)
}

/// The extent of the uploaded world: rows padded, the other sizes kept.
pub open spec fn padded_dims<D: Dim3>(d: D) -> RuntimeDims {
    RuntimeDims { x: padded_row(d.size_x() as int) as usize, y: d.size_y(), z: d.size_z() }
}

/// CPU-side state of the WebGPU renderer: the world of block references and
/// the per-frame queues built from it.
pub struct InternalRendererWebGPU<D: Dim3> {
    /// Internal frame counter.
    pub counter: isize,
    /// Renderer settings. Cannot be changed after creation.
    pub settings: Settings<D>,
    /// Blocks whose light is to be updated this frame.
    pub radiance_updates: Vec<ivec4>,
    /// Blocks whose light update was asked for through the API.
    pub special_radiance_updates: Vec<ivec4>,
    /// Block voxel copies to perform for blocks allocated this frame.
    pub block_copies_queue: Vec<BlockCopy>,
    /// Number of palette entries in use, static ones included.
    pub palette_counter: usize,
    /// How many blocks are static blocks (frame-persistent).
    pub static_block_palette_size: u32,
    /// Block references without any allocation for models.
    pub origin_world: Array3D<InternalBlockId, D>,
    /// The origin world with blocks allocated for models.
    pub current_world: Array3D<InternalBlockId, D>,
    /// Voxels of the static blocks, indexed by block id.
    pub block_palette_voxels: Vec<BlockVoxels>,
}

impl<D: Dim3> InternalRendererWebGPU<D> {
    /// `self` and `other` agree on everything but the current world and the
    /// palette counter.
    pub open spec fn kept_except_blocks(&self, other: Self) -> bool {
        &&& self.counter == other.counter
        &&& self.settings == other.settings
        &&& self.radiance_updates == other.radiance_updates
        &&& self.special_radiance_updates == other.special_radiance_updates
        &&& self.block_copies_queue@ == other.block_copies_queue@
        &&& self.static_block_palette_size == other.static_block_palette_size
        &&& self.origin_world == other.origin_world
        &&& self.block_palette_voxels == other.block_palette_voxels
    }

    /// `self` and `other` agree on everything but the light update queue.
    pub open spec fn kept_except_updates(&self, other: Self) -> bool {
        &&& self.counter == other.counter
        &&& self.settings == other.settings
        &&& self.special_radiance_updates == other.special_radiance_updates
        &&& self.block_copies_queue == other.block_copies_queue
        &&& self.palette_counter == other.palette_counter
        &&& self.static_block_palette_size == other.static_block_palette_size
        &&& self.origin_world == other.origin_world
        &&& self.current_world == other.current_world
        &&& self.block_palette_voxels == other.block_palette_voxels
    }

    /// Resets the frame's block allocation: empties the copy queue, restarts
    /// the palette after the static blocks and puts the origin world back.
    pub fn start_blockify(&mut self)
        requires
            old(self).current_world.data@.len() == old(self).origin_world.data@.len(),
        ensures
            final(self).block_copies_queue@ == Seq::<BlockCopy>::empty(),
            final(self).palette_counter == old(self).static_block_palette_size,
            final(self).current_world.data@ == old(self).origin_world.data@,
            final(self).current_world.dims == old(self).current_world.dims,
            final(self).origin_world == old(self).origin_world,
            final(self).counter == old(self).counter,
            final(self).settings == old(self).settings,
            final(self).radiance_updates == old(self).radiance_updates,
            final(self).special_radiance_updates == old(self).special_radiance_updates,
            final(self).static_block_palette_size == old(self).static_block_palette_size,
            final(self).block_palette_voxels == old(self).block_palette_voxels,
    {
        self.block_copies_queue.clear();
        self.palette_counter = self.static_block_palette_size as usize;
        self.current_world.copy_data_from(&self.origin_world);
        proof {
            assert(self.current_world.data@ =~= old(self).origin_world.data@);
        }
    }

    /// Position of palette entry `n` in the palette image, in blocks.
    pub fn index_block_xy(&self, n: usize) -> (r: uvec2)
        requires
            palette_xy(n as int).1 <= BLOCK_PALETTE_SIZE_Y,
        ensures
            (r.x as int, r.y as int) == palette_xy(n as int),
    {
        palette_position(n)
    }

    /// How the light images move for a world shift of `radiance_shift`
    /// blocks: `None` when the shift along some axis is at least the world
    /// size there (nothing is kept then), else the offsets and the size of the
    /// part of the light that is kept.
    pub fn plan_radiance_shift(&self, radiance_shift: ivec3) -> (r: Option<RadianceShift>)
        requires
            radiance_shift.x != i32::MIN,
            radiance_shift.y != i32::MIN,
            radiance_shift.z != i32::MIN,
            self.settings.world_size.size_x() <= i32::MAX,
            self.settings.world_size.size_y() <= i32::MAX,
            self.settings.world_size.size_z() <= i32::MAX,
        ensures
            r is None <==> shift_leaves_nothing(self.settings.world_size, radiance_shift),
            r matches Some(plan) ==> {
                let d = self.settings.world_size;
                let s = radiance_shift;
                &&& (plan.src_offset.x as int, plan.dst_offset.x as int) == axis_offsets(s.x as int)
                &&& (plan.src_offset.y as int, plan.dst_offset.y as int) == axis_offsets(s.y as int)
                &&& (plan.src_offset.z as int, plan.dst_offset.z as int) == axis_offsets(s.z as int)
                &&& plan.extent.x == d.size_x() - abs(s.x as int)
                &&& plan.extent.y == d.size_y() - abs(s.y as int)
                &&& plan.extent.z == d.size_z() - abs(s.z as int)
            },
    {
        let cam_shift = radiance_shift;
        let sx = self.settings.world_size.x() as i32;
        let sy = self.settings.world_size.y() as i32;
        let sz = self.settings.world_size.z() as i32;
        if abs_i32(cam_shift.x) >= sx || abs_i32(cam_shift.y) >= sy || abs_i32(cam_shift.z) >= sz {
            return None;
        }
        let px = process_axis(cam_shift.x, sx);
        let py = process_axis(cam_shift.y, sy);
        let pz = process_axis(cam_shift.z, sz);
        let src_offset = Vec3 { x: px.x, y: py.x, z: pz.x };
        let dst_offset = Vec3 { x: px.y, y: py.y, z: pz.y };
        let extent = Vec3 {
            x: sx as u32 - abs_i32(cam_shift.x) as u32,
            y: sy as u32 - abs_i32(cam_shift.y) as u32,
            z: sz as u32 - abs_i32(cam_shift.z) as u32,
        };
        Some(RadianceShift { src_offset, dst_offset, extent })
    }

    /// Chooses the blocks whose light is updated this frame: on the layers
    /// (along Z) of the frame's parity, every cell with a block in its 3x3x3
    /// neighbourhood, in storage order; then each requested update whose cell
    /// was not chosen, in request order.
    pub fn find_radiance_to_update(&mut self)
        requires
            old(self).current_world.wf(),
            old(self).current_world.dims == old(self).settings.world_size,
            old(self).counter >= 0,
            old(self).settings.world_size.size_x() <= i32::MAX,
            old(self).settings.world_size.size_y() <= i32::MAX,
            old(self).settings.world_size.size_z() <= i32::MAX,
            specials_in_grid(old(self).settings.world_size, old(self).special_radiance_updates@),
        ensures
            final(self).radiance_updates@ == radiance_update_list(
                old(self).current_world,
                old(self).counter as int % 2,
                old(self).special_radiance_updates@,
            ),
            final(self).kept_except_updates(*old(self)),
    {
        let offset: isize = self.counter % 2;
        self.radiance_updates = pick_radiance_updates(
            &self.current_world,
            offset,
            &self.special_radiance_updates,
        );
    }

    /// How many palette entries `blockify_region` hands out for the box from
    /// `border_min` to `border_max`; `None` when a cell of the box refers to a
    /// static entry that the palette layout does not place.
    pub fn blockify_entries_needed(&self, border_min: ivec3, border_max: ivec3) -> (r: Option<usize>)
        requires
            self.current_world.wf(),
            self.current_world.dims == self.settings.world_size,
            1 <= self.settings.world_size.size_x() <= i32::MAX,
            1 <= self.settings.world_size.size_y() <= i32::MAX,
            1 <= self.settings.world_size.size_z() <= i32::MAX,
        ensures
            ({
                let d = self.settings.world_size;
                let lo = clamp_to_world(border_min, d);
                let hi = clamp_to_world(border_max, d);
                let n = volume(region_dims(lo, hi)) as nat;
                let s = self.static_block_palette_size;
                &&& r is Some <==> placeable_before(self.current_world, lo, hi, s, n)
                &&& r matches Some(c) ==> c == allocations_before(self.current_world, lo, hi, s, n)
            }),
    {
        box_allocations(&self.current_world, self.static_block_palette_size, border_min, border_max)
    }

    /// The current world laid out for upload: each row padded with zeros to
    /// a multiple of `WORLD_ROW_ALIGNMENT` blocks, X fastest, then Y, then Z.
    pub fn padded_world(&self) -> (r: Vec<InternalBlockId>)
        requires
            self.current_world.wf(),
            dims_fit(padded_dims(self.current_world.dims)),
            self.current_world.dims.size_x() + WORLD_ROW_ALIGNMENT <= usize::MAX,
        ensures
            ({
                let d = self.current_world.dims;
                let pd = padded_dims(d);
                &&& r@.len() == volume(pd)
                &&& forall|x: int, y: int, z: int|
                    in_grid(pd, x, y, z) ==> #[trigger] r@[flat_index(pd, x, y, z)] == if x < d.size_x() {
                        self.current_world.at(x, y, z)
                    } else {
                        0
                    }
            }),
    {
        let (sx, sy, sz) = self.current_world.dimensions();
        let px = (sx + WORLD_ROW_ALIGNMENT - 1) / WORLD_ROW_ALIGNMENT * WORLD_ROW_ALIGNMENT;
        let ghost w = self.current_world;
        let ghost pd = padded_dims(w.dims);
        let ghost d = w.dims;
        proof {
            assert(px == pd.size_x());
            assert(px >= sx) by (nonlinear_arith)
                requires
                    px == (sx + 63) / 64 * 64,
                    sx >= 0,
            ;
        }
        let mut data: Vec<InternalBlockId> = Vec::new();
        proof {
            assert(flat_index(pd, 0, 0, 0) == 0) by (nonlinear_arith);
        }
        let mut z: usize = 0;
        while z < sz
            invariant
                z <= sz,
                px >= sx,
                px == pd.size_x(),
                sx == d.size_x(),
                sy == d.size_y(),
                sz == d.size_z(),
                pd == padded_dims(d),
                d == w.dims,
                w == self.current_world,
                w.wf(),
                dims_fit(pd),
                data@.len() == flat_index(pd, 0, 0, z as int),
                forall|p: int| 0 <= p < data@.len() ==> {
                    let c = cell_of(pd, p);
                    #[trigger] data@[p] == if c.0 < sx { w.at(c.0, c.1, c.2) } else { 0 }
                },
            decreases sz - z,
        {
            let mut y: usize = 0;
            while y < sy
                invariant
                    z < sz,
                    y <= sy,
                    px >= sx,
                    px == pd.size_x(),
                    sx == d.size_x(),
                    sy == d.size_y(),
                    sz == d.size_z(),
                    pd == padded_dims(d),
                    d == w.dims,
                    w == self.current_world,
                    w.wf(),
                    dims_fit(pd),
                    data@.len() == flat_index(pd, 0, y as int, z as int),
                    forall|p: int| 0 <= p < data@.len() ==> {
                        let c = cell_of(pd, p);
                        #[trigger] data@[p] == if c.0 < sx { w.at(c.0, c.1, c.2) } else { 0 }
                    },
                decreases sy - y,
            {
                let mut x: usize = 0;
                while x < px
                    invariant
                        z < sz,
                        y < sy,
                        x <= px,
                        px >= sx,
                        px == pd.size_x(),
                        sx == d.size_x(),
                        sy == d.size_y(),
                        sz == d.size_z(),
                        pd == padded_dims(d),
                        d == w.dims,
                        w == self.current_world,
                        w.wf(),
                        dims_fit(pd),
                        data@.len() == flat_index(pd, x as int, y as int, z as int),
                        forall|p: int| 0 <= p < data@.len() ==> {
                            let c = cell_of(pd, p);
                            #[trigger] data@[p] == if c.0 < sx { w.at(c.0, c.1, c.2) } else { 0 }
                        },
                    decreases px - x,
                {
                    proof {
                        crate::array3d::lemma_flat_index_bounds(
                            px as int, sy as int, sz as int, x as int, y as int, z as int);
                        lemma_cell_of_flat_index(pd, x as int, y as int, z as int);
                    }
                    let v = if x < sx {
                        *self.current_world.get(x, y, z)
                    } else {
                        0
                    };
                    data.push(v);
                    x += 1;
                }
                proof {
                    assert(flat_index(pd, px as int, y as int, z as int) == flat_index(pd, 0, y + 1, z as int))
                        by (nonlinear_arith)
                        requires
                            pd.size_x() == px,
                    ;
                }
                y += 1;
            }
            proof {
                assert(flat_index(pd, 0, sy as int, z as int) == flat_index(pd, 0, 0, z + 1))
                    by (nonlinear_arith)
                    requires
                        pd.size_x() == px,
                        pd.size_y() == sy,
                ;
            }
            z += 1;
        }
        proof {
            assert(flat_index(pd, 0, 0, sz as int) == volume(pd)) by (nonlinear_arith)
                requires
                    pd.size_x() == px,
                    pd.size_y() == sy,
                    pd.size_z() == sz,
            ;
            assert forall|x: int, y: int, z: int| in_grid(pd, x, y, z) implies #[trigger] data@[flat_index(pd, x, y, z)]
                == if x < d.size_x() { w.at(x, y, z) } else { 0 } by {
                crate::array3d::lemma_flat_index_bounds(px as int, sy as int, sz as int, x, y, z);
                lemma_cell_of_flat_index(pd, x, y, z);
            }
        }
        data
    }

    /// Gives a block of its own to every cell of the box from `border_min` to
    /// `border_max` (clamped into the world) that refers to a static palette
    /// entry: such cells get the next palette entries, in scan order (X
    /// fastest, then Y, then Z); other cells are kept.
    pub fn blockify_region(&mut self, border_min: ivec3, border_max: ivec3)
        requires
            old(self).current_world.wf(),
            old(self).current_world.dims == old(self).settings.world_size,
            1 <= old(self).settings.world_size.size_x() <= i32::MAX,
            1 <= old(self).settings.world_size.size_y() <= i32::MAX,
            1 <= old(self).settings.world_size.size_z() <= i32::MAX,
            ({
                let d = old(self).settings.world_size;
                let lo = clamp_to_world(border_min, d);
                let hi = clamp_to_world(border_max, d);
                placeable_before(
                    old(self).current_world,
                    lo,
                    hi,
                    old(self).static_block_palette_size,
                    volume(region_dims(lo, hi)) as nat,
                )
            }),
            ({
                let d = old(self).settings.world_size;
                let lo = clamp_to_world(border_min, d);
                let hi = clamp_to_world(border_max, d);
                old(self).palette_counter + allocations_before(
                    old(self).current_world,
                    lo,
                    hi,
                    old(self).static_block_palette_size,
                    volume(region_dims(lo, hi)) as nat,
                ) <= 4160
            }),
        ensures
            ({
                let d = old(self).settings.world_size;
                let lo = clamp_to_world(border_min, d);
                let hi = clamp_to_world(border_max, d);
                let w = old(self).current_world;
                let s = old(self).static_block_palette_size;
                &&& final(self).palette_counter == old(self).palette_counter + allocations_before(
                    w,
                    lo,
                    hi,
                    s,
                    volume(region_dims(lo, hi)) as nat,
                )
                &&& final(self).current_world.wf()
                &&& final(self).current_world.dims == d
                &&& forall|x: int, y: int, z: int|
                    in_grid(d, x, y, z) ==> #[trigger] final(self).current_world.at(x, y, z)
                        == blockified(w, lo, hi, s, old(self).palette_counter as int, x, y, z)
            }),
            final(self).kept_except_blocks(*old(self)),
    {
        let static_size = self.static_block_palette_size;
        self.palette_counter = blockify_box(
            &mut self.current_world,
            self.palette_counter,
            static_size,
            border_min,
            border_max,
            false,
            &mut self.block_copies_queue,
        );
    }
}

/// Choosing a frame's light updates changes nothing but the update list (the
/// frame counter included), so choosing them a second time gives the same
/// list: `s1` is the state after one choice from `s0`, `s2` after a second.
pub proof fn lemma_find_radiance_repeatable<D: Dim3>(
    s0: InternalRendererWebGPU<D>,
    s1: InternalRendererWebGPU<D>,
    s2: InternalRendererWebGPU<D>,
)
    requires
        s1.radiance_updates@ == radiance_update_list(
            s0.current_world,
            s0.counter as int % 2,
            s0.special_radiance_updates@,
        ),
        s1.kept_except_updates(s0),
        s2.radiance_updates@ == radiance_update_list(
            s1.current_world,
            s1.counter as int % 2,
            s1.special_radiance_updates@,
        ),
        s2.kept_except_updates(s1),
    ensures
        s2.radiance_updates@ == s1.radiance_updates@,
        s2.kept_except_updates(s0),
{
}

/// A cell on the frame's layer parity (`counter % 2`) with a block (a
/// positive reference) in any of the 27 cells around it, itself included and
/// at most one step away along each axis, is among the light updates that
/// `find_radiance_to_update` chooses, as the entry `(x, y, z, 0)`.
pub proof fn lemma_block_near_cell_gets_light_update<D: Dim3>(
    w: Array3D<i32, D>,
    counter: int,
    specials: Seq<ivec4>,
    x: int,
    y: int,
    z: int,
    a: int,
    b: int,
    c: int,
)
    requires
        counter >= 0,
        in_grid(w.dims, x, y, z),
        in_grid(w.dims, a, b, c),
        -1 <= a - x <= 1,
        -1 <= b - y <= 1,
        -1 <= c - z <= 1,
        w.at(a, b, c) > 0,
        z % 2 == counter % 2,
    ensures
        radiance_update_list(w, counter % 2, specials).contains(
            Vec4 { x: x as i32, y: y as i32, z: z as i32, w: 0 },
        ),
{
    lemma_cell_near_block_is_picked::<i32, ivec4, D>(w, counter % 2, specials, x, y, z, a - x, b - y, c - z);
}

/// Every light update that `find_radiance_to_update` chooses is one of the
/// requested updates, or names a cell of the world on the frame's layer
/// parity with a block (a positive reference) at most one step away from it
/// along each axis.
pub proof fn lemma_light_update_has_reason<D: Dim3>(
    w: Array3D<i32, D>,
    counter: int,
    specials: Seq<ivec4>,
    i: int,
)
    requires
        w.wf(),
        counter >= 0,
        w.dims.size_x() <= i32::MAX,
        w.dims.size_y() <= i32::MAX,
        w.dims.size_z() <= i32::MAX,
        0 <= i < radiance_update_list(w, counter % 2, specials).len(),
    ensures
        ({
            let e = radiance_update_list(w, counter % 2, specials)[i];
            ||| specials.contains(e)
            ||| {
                &&& in_grid(w.dims, e.x as int, e.y as int, e.z as int)
                &&& e.z % 2 == counter % 2
                &&& exists|a: int, b: int, c: int|
                    #![trigger w.at(a, b, c)]
                    in_grid(w.dims, a, b, c) && -1 <= a - e.x <= 1 && -1 <= b - e.y <= 1 && -1 <= c
                        - e.z <= 1 && w.at(a, b, c) > 0
            }
        }),
{
    let off = counter % 2;
    let n = volume(w.dims);
    assert(n >= 0) by (nonlinear_arith)
        requires
            n == w.dims.size_x() * w.dims.size_y() * w.dims.size_z(),
    ;
    let picked = scanned_updates::<i32, ivec4, D>(w, off, n as nat);
    let added = unpicked_specials(w, off, specials, specials.len());
    let list = radiance_update_list(w, off, specials);
    if i < picked.len() {
        lemma_scanned_updates_sound::<i32, ivec4, D>(w, off, n as nat);
        let e = picked[i];
        assert(list[i] == e);
        lemma_needs_update_has_block_near(w, off, e.x as int, e.y as int, e.z as int);
    } else {
        lemma_unpicked_specials_sound(w, off, specials, specials.len());
        let e = added[i - picked.len()];
        assert(list[i] == e);
        let k = choose|k: int| 0 <= k < specials.len() && specials[k] == e;
        assert(specials.contains(e));
    }
}

/// Along each axis the kept light moves by exactly the shift: the source
/// offset less the destination offset is the shift, both are non-negative
/// and at least one is zero.
pub proof fn lemma_axis_offsets_move_by_shift(shift: int)
    ensures
        axis_offsets(shift).0 - axis_offsets(shift).1 == shift,
        axis_offsets(shift).0 >= 0,
        axis_offsets(shift).1 >= 0,
        axis_offsets(shift).0 == 0 || axis_offsets(shift).1 == 0,
        axis_offsets(shift).0 + axis_offsets(shift).1 == abs(shift),
{
}

/// Simplistic implementation of FoliageDescriptionBuilder
pub struct SimpleFoliageDescriptionBuilder<'a> {
    foliage_descriptions: Vec<MeshFoliageDesc<'a>>,
}

impl<'a> FoliageDescriptionBuilder<MeshFoliageDesc<'a>> for SimpleFoliageDescriptionBuilder<'a> {
    closed spec fn descriptions(&self) -> Seq<MeshFoliageDesc<'a>> {
        self.foliage_descriptions@
    }

    fn new() -> (r: Self) {
        Self { foliage_descriptions: Vec::new() }
    }

    fn load_foliage(&mut self, foliage: MeshFoliageDesc<'a>) -> (r: MeshFoliage) {
        let index = self.foliage_descriptions.len() as u32;
        self.foliage_descriptions.push(foliage);
        index as MeshFoliage
    }

    fn build(self) -> (r: Vec<MeshFoliageDesc<'a>>) {
        self.foliage_descriptions
    }
}

} // verus!
