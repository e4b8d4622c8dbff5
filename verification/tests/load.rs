use lum::array3d::{Array3D, RuntimeDims};
use lum::load_interface::{BlockData, SImpleIndexedSlice, SimpleFaceIndices, SimpleVertex};
use lum::types::{Vec2, Vec3, Vec4};
use lum::palette::unpack_block_voxels;
use lum::webgpu::load::{pack_circuit_vertices, repack_voxels, PackedVoxelCircuit};
use lum::webgpu::render::InternalRendererWebGPU;
use lum::Settings;

fn renderer(static_size: u32, blocks: usize) -> InternalRendererWebGPU<RuntimeDims> {
    let dims = RuntimeDims { x: 1, y: 1, z: 1 };
    InternalRendererWebGPU {
        counter: 0,
        settings: Settings {
            world_size: dims,
            static_block_palette_size: static_size,
            max_particle_count: 8128,
            lightmap_extent: Vec2 { x: 1024, y: 1024 },
        },
        radiance_updates: Vec::new(),
        special_radiance_updates: Vec::new(),
        block_copies_queue: Vec::new(),
        palette_counter: 0,
        static_block_palette_size: static_size,
        origin_world: Array3D::new_filled(dims, 0i32),
        current_world: Array3D::new_filled(dims, 0i32),
        block_palette_voxels: vec![[[[0u8; 16]; 16]; 16]; blocks],
    }
}

#[test]
fn voxels_widen_and_vertices_pad() {
    assert_eq!(repack_voxels(&[0u8, 7, 255]), vec![0i32, 7, 255]);
    let verts = [SimpleVertex { pos: Vec3 { x: 1, y: 2, z: 3 } }, SimpleVertex { pos: Vec3 { x: 16, y: 0, z: 9 } }];
    assert_eq!(
        pack_circuit_vertices(&verts),
        vec![
            PackedVoxelCircuit { pos: Vec4 { x: 1, y: 2, z: 3, w: 0 } },
            PackedVoxelCircuit { pos: Vec4 { x: 16, y: 0, z: 9, w: 0 } },
        ]
    );
}

#[test]
fn block_voxels_unpack_x_fastest() {
    let mut flat = [0u8; 4096];
    for (i, v) in flat.iter_mut().enumerate() {
        *v = (i % 251) as u8;
    }
    let block = unpack_block_voxels(&flat);
    assert_eq!(block[0][0][0], 0);
    assert_eq!(block[1][0][0], 1);
    assert_eq!(block[0][1][0], 16);
    assert_eq!(block[0][0][1], 5);
    assert_eq!(block[15][15][15], (4095 % 251) as u8);
}

#[test]
fn block_loads_into_its_palette_entry() {
    let mut r = renderer(3, 3);
    let mut flat = [0u8; 4096];
    flat[5 + 2 * 16 + 7 * 256] = 42;
    let iv = SimpleFaceIndices::default();
    let data = BlockData { iv, voxels: &flat, vertices: &[], indices: &[] };
    r.load_block_voxels(1, &data);
    assert_eq!(r.block_palette_voxels[1][5][2][7], 42);
    assert_eq!(r.block_palette_voxels[0][5][2][7], 0);
    assert_eq!(r.block_palette_voxels[2][5][2][7], 0);
    let slice = SImpleIndexedSlice { offset: 3, icount: 6 };
    assert_eq!(slice.offset + slice.icount, 9);
}

#[test]
fn palette_image_places_blocks_by_entry() {
    let mut r = renderer(66, 66);
    r.block_palette_voxels[0][1][2][3] = 9;
    r.block_palette_voxels[65][4][5][6] = 77;
    let image = r.prepare_block_palette();
    assert_eq!(image.dimensions(), (1024, 1024, 16));
    assert_eq!(*image.get(1, 2, 3), 9);
    assert_eq!(*image.get(16 + 4, 16 + 5, 6), 77);
    assert_eq!(*image.get(4, 5, 6), 0);
    assert_eq!(*image.get(1023, 1023, 15), 0);
}
