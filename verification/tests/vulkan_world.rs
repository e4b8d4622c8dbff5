use lum::array3d::{Array3D, RuntimeDims};
use lum::load_interface::{BlockData, SimpleFaceIndices};
use lum::types::{Vec2, Vec3, Vec4};
use lum::vulkan::render::InternalRendererVulkan;
use lum::world::{BlockCopy, RadianceShift};
use lum::Settings;

fn vk_renderer(x: usize, y: usize, z: usize, static_size: u32) -> InternalRendererVulkan<RuntimeDims> {
    let dims = RuntimeDims { x, y, z };
    InternalRendererVulkan {
        counter: 0,
        settings: Settings {
            world_size: dims,
            static_block_palette_size: static_size,
            max_particle_count: 8128,
            lightmap_extent: Vec2 { x: 1024, y: 1024 },
        },
        radiance_updates: Vec::new(),
        special_radiance_updates: Vec::new(),
        block_copies_queue: Vec::new(),
        palette_counter: 0,
        static_block_palette_size: static_size,
        origin_world: Array3D::new_filled(dims, 0i16),
        current_world: Array3D::new_filled(dims, 0i16),
        block_palette_voxels: Vec::new(),
    }
}

fn v4(x: i8, y: i8, z: i8, w: i8) -> Vec4<i8> {
    Vec4 { x, y, z, w }
}

#[test]
fn vulkan_radiance_updates_advance_the_frame() {
    let mut r = vk_renderer(3, 3, 4, 15);
    r.current_world.set(0, 0, 0, 1);
    r.special_radiance_updates = vec![v4(2, 2, 2, 7), v4(1, 1, 1, 9)];
    r.find_radiance_to_update();
    assert_eq!(r.counter, 1);
    assert_eq!(
        r.radiance_updates,
        vec![v4(0, 0, 1, 0), v4(1, 0, 1, 0), v4(0, 1, 1, 0), v4(1, 1, 1, 0), v4(2, 2, 2, 7)]
    );
    r.find_radiance_to_update();
    assert_eq!(r.counter, 2);
    assert_eq!(
        r.radiance_updates,
        vec![
            v4(0, 0, 0, 0),
            v4(1, 0, 0, 0),
            v4(0, 1, 0, 0),
            v4(1, 1, 0, 0),
            v4(2, 2, 2, 7),
            v4(1, 1, 1, 9),
        ]
    );
}

#[test]
fn vulkan_blockify_queues_copies_of_held_blocks() {
    let mut r = vk_renderer(4, 4, 1, 3);
    r.origin_world.set(1, 1, 0, 2);
    r.origin_world.set(1, 2, 0, 5);
    r.block_copies_queue.push(BlockCopy::default());
    r.start_blockify();
    assert!(r.block_copies_queue.is_empty());
    assert_eq!(r.palette_counter, 3);
    r.blockify_region(Vec3 { x: 1, y: 1, z: 0 }, Vec3 { x: 2, y: 2, z: 0 });
    assert_eq!(r.palette_counter, 6);
    assert_eq!(*r.current_world.get(1, 1, 0), 3);
    assert_eq!(*r.current_world.get(2, 1, 0), 4);
    assert_eq!(*r.current_world.get(1, 2, 0), 5);
    assert_eq!(*r.current_world.get(2, 2, 0), 5);
    assert_eq!(*r.current_world.get(0, 0, 0), 0);
    assert_eq!(
        r.block_copies_queue,
        vec![BlockCopy {
            src: Vec3 { x: 32, y: 0, z: 0 },
            dst: Vec3 { x: 48, y: 0, z: 0 },
            extent: Vec3 { x: 16, y: 16, z: 16 },
        }]
    );
}

#[test]
fn vulkan_blockify_copies_from_other_rows() {
    let mut r = vk_renderer(2, 1, 1, 100);
    r.origin_world.set(0, 0, 0, 70);
    r.start_blockify();
    r.blockify_region(Vec3 { x: -3, y: 0, z: 0 }, Vec3 { x: 0, y: 5, z: 9 });
    assert_eq!(r.palette_counter, 101);
    assert_eq!(*r.current_world.get(0, 0, 0), 100);
    assert_eq!(*r.current_world.get(1, 0, 0), 0);
    assert_eq!(
        r.block_copies_queue,
        vec![BlockCopy {
            src: Vec3 { x: 96, y: 16, z: 0 },
            dst: Vec3 { x: 576, y: 16, z: 0 },
            extent: Vec3 { x: 16, y: 16, z: 16 },
        }]
    );
}

#[test]
fn vulkan_palette_positions() {
    let r = vk_renderer(1, 1, 1, 15);
    assert_eq!(r.index_block_xy(65), Vec2 { x: 1, y: 1 });
    assert_eq!(r.index_block_xy(4159), Vec2 { x: 63, y: 64 });
}

#[test]
fn vulkan_block_loads_and_palette_image_holds_voxels() {
    let mut r = vk_renderer(1, 1, 1, 65);
    r.block_palette_voxels = vec![[[[0u8; 16]; 16]; 16]; 65];
    let mut flat = [0u8; 4096];
    flat[3 + 4 * 16 + 5 * 256] = 200;
    let data = BlockData { iv: SimpleFaceIndices::default(), voxels: &flat, vertices: &[], indices: &[] };
    r.load_block_voxels(64, &data);
    assert_eq!(r.block_palette_voxels[64][3][4][5], 200);
    assert_eq!(r.block_palette_voxels[63][3][4][5], 0);
    let image = r.prepare_block_palette();
    assert_eq!(image.dimensions(), (1024, 1024, 16));
    assert_eq!(*image.get(3, 16 + 4, 5), 200u8);
    assert_eq!(*image.get(3, 4, 5), 0u8);
}

#[test]
fn vulkan_radiance_shift_moves_light_by_the_shift() {
    let r = vk_renderer(8, 6, 4, 15);
    assert_eq!(
        r.plan_radiance_shift(Vec3 { x: 0, y: 0, z: 0 }),
        Some(RadianceShift {
            src_offset: Vec3 { x: 0, y: 0, z: 0 },
            dst_offset: Vec3 { x: 0, y: 0, z: 0 },
            extent: Vec3 { x: 8, y: 6, z: 4 },
        })
    );
    assert_eq!(
        r.plan_radiance_shift(Vec3 { x: 2, y: -3, z: 1 }),
        Some(RadianceShift {
            src_offset: Vec3 { x: 2, y: 0, z: 1 },
            dst_offset: Vec3 { x: 0, y: 3, z: 0 },
            extent: Vec3 { x: 6, y: 3, z: 3 },
        })
    );
    assert_eq!(r.plan_radiance_shift(Vec3 { x: 3, y: -9, z: 1 }), None);
    assert_eq!(r.plan_radiance_shift(Vec3 { x: 0, y: 0, z: 4 }), None);
}
