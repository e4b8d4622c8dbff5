//! CPU-side preparation of palette data for the Vulkan backend: block voxels
//! loaded into the palette, and the block palette image laid out.
use crate::array3d::{in_grid, Array3D, Dim3};
use crate::load_interface::BlockData;
use crate::palette::{
    flat_block_voxel, lemma_byte_texels_keep_voxels, lemma_palette_texel_place, palette_texel,
    prepare_palette_image, unpack_block_voxels, BlockPaletteImageSize,
};
use crate::types::MeshBlock;
use crate::vulkan::render::InternalRendererVulkan;
use crate::vulkan::types::InternalVoxel;
use vstd::prelude::*;

verus! {

impl<D: Dim3> InternalRendererVulkan<D> {
    /// Puts the voxels of `block_data` into palette entry `block_id`.
    pub fn load_block_voxels(&mut self, block_id: MeshBlock, block_data: &BlockData)
        requires
            0 <= block_id < old(self).block_palette_voxels@.len(),
        ensures
            final(self).block_palette_voxels@.len() == old(self).block_palette_voxels@.len(),
            forall|x: int, y: int, z: int|
                0 <= x < 16 && 0 <= y < 16 && 0 <= z < 16 ==> #[trigger] final(self).block_palette_voxels@[block_id as int][x][y][z]
                    == flat_block_voxel(*block_data.voxels, x, y, z),
            forall|i: int|
                0 <= i < old(self).block_palette_voxels@.len() && i != block_id ==> #[trigger] final(self).block_palette_voxels@[i]
                    == old(self).block_palette_voxels@[i],
            final(self).counter == old(self).counter,
            final(self).settings == old(self).settings,
            final(self).current_world == old(self).current_world,
            final(self).origin_world == old(self).origin_world,
            final(self).palette_counter == old(self).palette_counter,
            final(self).static_block_palette_size == old(self).static_block_palette_size,
    {
        let block = unpack_block_voxels(block_data.voxels);
        self.block_palette_voxels.set(block_id as usize, block);
    }

    /// The block palette image: palette entry `i` goes to column `i % 64`,
    /// row `i / 64`, each block 16 texels wide; texels of no entry are zero.
    pub fn prepare_block_palette(&self) -> (r: Array3D<InternalVoxel, BlockPaletteImageSize>)
        requires
            self.block_palette_voxels@.len() == self.static_block_palette_size,
            self.block_palette_voxels@.len() <= 4096,
        ensures
            r.wf(),
            forall|x: int, y: int, z: int|
                in_grid(r.dims, x, y, z) ==> #[trigger] r.at(x, y, z) == palette_texel::<InternalVoxel>(
                    self.block_palette_voxels@,
                    x,
                    y,
                    z,
                ),
            forall|i: int, x: int, y: int, z: int|
                0 <= i < self.block_palette_voxels@.len() && 0 <= x < 16 && 0 <= y < 16 && 0 <= z < 16
                    ==> #[trigger] self.block_palette_voxels@[i][x][y][z] == r.at(
                    x + (i % 64) * 16,
                    y + (i / 64) * 16,
                    z,
                ),
    {
        let r = prepare_palette_image(&self.block_palette_voxels);
        proof {
            assert forall|i: int, x: int, y: int, z: int|
                0 <= i < self.block_palette_voxels@.len() && 0 <= x < 16 && 0 <= y < 16 && 0 <= z < 16
                    implies #[trigger] self.block_palette_voxels@[i][x][y][z] == r.at(
                    x + (i % 64) * 16,
                    y + (i / 64) * 16,
                    z,
                ) by {
                lemma_byte_texels_keep_voxels(self.block_palette_voxels@, i, x, y, z, 0, 0);
                lemma_palette_texel_place(i, x, y, 0, 0);
            }
        }
        r
    }
}

} // verus!
