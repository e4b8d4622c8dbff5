use lum::array3d::{Array3D, ConstDims, RuntimeDims};
use lum::render_interface::{FoliageDescriptionBuilder, FoliageDescriptionCreate, ShaderSource};
use lum::types::{Vec2, Vec3, Vec4};
use lum::webgpu::render::{process_axis, InternalRendererWebGPU};
use lum::world::RadianceShift;
use lum::webgpu::types::MeshFoliageDesc;
use lum::vulkan::render::MeshFoliageDescription;
use lum::Settings;

fn renderer(x: usize, y: usize, z: usize, static_size: u32) -> InternalRendererWebGPU<RuntimeDims> {
    let dims = RuntimeDims { x, y, z };
    InternalRendererWebGPU {
        counter: 0,
        settings: Settings {
            world_size: dims,
            static_block_palette_size: static_size,
            max_particle_count: 8128,
            lightmap_extent: Vec2 { x: 1024, y: 1024 },
        },
        radiance_updates: Vec::new(),
        special_radiance_updates: Vec::new(),
        block_copies_queue: Vec::new(),
        palette_counter: 0,
        static_block_palette_size: static_size,
        origin_world: Array3D::new_filled(dims, 0i32),
        current_world: Array3D::new_filled(dims, 0i32),
        block_palette_voxels: Vec::new(),
    }
}

fn v4(x: i32, y: i32, z: i32, w: i32) -> Vec4<i32> {
    Vec4 { x, y, z, w }
}

#[test]
fn radiance_updates_on_even_layers() {
    let mut r = renderer(3, 3, 4, 15);
    r.current_world.set(0, 0, 0, 1);
    r.special_radiance_updates = vec![v4(2, 2, 2, 7), v4(1, 1, 0, 9)];
    r.radiance_updates = vec![v4(5, 5, 5, 5); 9];
    r.find_radiance_to_update();
    assert_eq!(
        r.radiance_updates,
        vec![v4(0, 0, 0, 0), v4(1, 0, 0, 0), v4(0, 1, 0, 0), v4(1, 1, 0, 0), v4(2, 2, 2, 7)]
    );
}

#[test]
fn radiance_updates_on_odd_layers() {
    let mut r = renderer(3, 3, 4, 15);
    r.counter = 5;
    r.current_world.set(0, 0, 0, 1);
    r.current_world.set(2, 2, 3, 3);
    r.special_radiance_updates = vec![v4(1, 1, 0, 9), v4(2, 1, 3, 4)];
    r.find_radiance_to_update();
    assert_eq!(
        r.radiance_updates,
        vec![
            v4(0, 0, 1, 0),
            v4(1, 0, 1, 0),
            v4(0, 1, 1, 0),
            v4(1, 1, 1, 0),
            v4(1, 1, 3, 0),
            v4(2, 1, 3, 0),
            v4(1, 2, 3, 0),
            v4(2, 2, 3, 0),
            v4(1, 1, 0, 9),
        ]
    );
}

#[test]
fn radiance_updates_ignore_empty_world() {
    let mut r = renderer(2, 2, 2, 15);
    r.special_radiance_updates = vec![v4(1, 0, 1, 0)];
    r.find_radiance_to_update();
    assert_eq!(r.radiance_updates, vec![v4(1, 0, 1, 0)]);
}

#[test]
fn blockify_gives_static_cells_new_entries() {
    let mut r = renderer(4, 2, 1, 3);
    let values = [0, 1, 5, 2, 0, 4, 1, 0];
    for (i, v) in values.iter().enumerate() {
        r.origin_world.set(i % 4, i / 4, 0, *v);
    }
    r.current_world.set(3, 1, 0, 11);
    r.block_copies_queue.push(Default::default());
    r.start_blockify();
    assert_eq!(r.current_world.data, r.origin_world.data);
    assert_eq!(r.palette_counter, 3);
    assert!(r.block_copies_queue.is_empty());
    r.blockify_region(Vec3 { x: 1, y: 0, z: 0 }, Vec3 { x: 2, y: 1, z: 0 });
    assert_eq!(r.current_world.data, vec![0, 3, 5, 2, 0, 4, 4, 0]);
    assert_eq!(r.palette_counter, 5);
    r.blockify_region(Vec3 { x: -5, y: -1, z: -3 }, Vec3 { x: 10, y: 10, z: 10 });
    assert_eq!(r.current_world.data, vec![5, 3, 5, 6, 7, 4, 4, 8]);
    assert_eq!(r.palette_counter, 9);
    r.blockify_region(Vec3 { x: 3, y: 1, z: 0 }, Vec3 { x: 0, y: 0, z: 0 });
    assert_eq!(r.palette_counter, 9);
}

#[test]
fn palette_positions() {
    let r = renderer(1, 1, 1, 15);
    assert_eq!(r.index_block_xy(0), Vec2 { x: 0, y: 0 });
    assert_eq!(r.index_block_xy(63), Vec2 { x: 63, y: 0 });
    assert_eq!(r.index_block_xy(64), Vec2 { x: 0, y: 1 });
    assert_eq!(r.index_block_xy(130), Vec2 { x: 2, y: 2 });
}

#[test]
fn axis_offsets_and_radiance_shift() {
    assert_eq!(process_axis(3, 10), Vec2 { x: 3, y: 0 });
    assert_eq!(process_axis(-4, 10), Vec2 { x: 0, y: 4 });
    assert_eq!(process_axis(0, 10), Vec2 { x: 0, y: 0 });
    let r = renderer(8, 6, 4, 15);
    assert_eq!(
        r.plan_radiance_shift(Vec3 { x: 2, y: -3, z: 0 }),
        Some(RadianceShift {
            src_offset: Vec3 { x: 2, y: 0, z: 0 },
            dst_offset: Vec3 { x: 0, y: 3, z: 0 },
            extent: Vec3 { x: 6, y: 3, z: 4 },
        })
    );
    assert_eq!(r.plan_radiance_shift(Vec3 { x: 0, y: 0, z: -4 }), None);
    assert_eq!(r.plan_radiance_shift(Vec3 { x: 8, y: 0, z: 0 }), None);
}

#[test]
fn foliage_descriptions() {
    let w = MeshFoliageDesc::new(ShaderSource::Wgsl("fn main() {}"), 6, 9);
    assert_eq!(w.code, "fn main() {}");
    assert_eq!((w.vertices, w.density), (6, 9));
    let bytes = [1u8, 2, 3];
    let v = MeshFoliageDescription::new(ShaderSource::SpirV(&bytes), 4, 2);
    assert_eq!(v.spirv_code, &[1, 2, 3]);
    assert_eq!((v.vertices, v.density), (4, 2));
    let mut b = lum::webgpu::render::SimpleFoliageDescriptionBuilder::new();
    assert_eq!(b.load_foliage(w.clone()), 0);
    assert_eq!(b.load_foliage(w), 1);
    assert_eq!(b.build().len(), 2);
    let mut vb = lum::vulkan::render::SimpleFoliageDescriptionBuilder::new();
    assert_eq!(vb.load_foliage(v), 0);
    assert_eq!(vb.build().len(), 1);
}

#[test]
fn default_settings() {
    let s: Settings = Settings::default();
    assert_eq!(s.static_block_palette_size, 15);
    assert_eq!(s.max_particle_count, 8128);
    assert_eq!(s.lightmap_extent, Vec2 { x: 1024, y: 1024 });
    let _d: ConstDims<48, 48, 16> = s.world_size;
}

#[test]
fn blockify_entries_needed_counts_static_cells() {
    let mut r = renderer(4, 2, 1, 3);
    let values = [0, 1, 5, 2, 0, 4, 1, 0];
    for (i, v) in values.iter().enumerate() {
        r.current_world.set(i % 4, i / 4, 0, *v);
    }
    assert_eq!(r.blockify_entries_needed(Vec3 { x: 1, y: 0, z: 0 }, Vec3 { x: 2, y: 1, z: 0 }), Some(2));
    assert_eq!(r.blockify_entries_needed(Vec3 { x: -5, y: -1, z: -3 }, Vec3 { x: 10, y: 10, z: 10 }), Some(6));
    assert_eq!(r.blockify_entries_needed(Vec3 { x: 3, y: 1, z: 0 }, Vec3 { x: 0, y: 0, z: 0 }), Some(0));
}

#[test]
fn blockify_with_a_large_static_palette() {
    let mut r = renderer(2, 1, 1, 5000);
    r.current_world.set(0, 0, 0, 4500);
    r.palette_counter = 7;
    assert_eq!(r.blockify_entries_needed(Vec3 { x: 0, y: 0, z: 0 }, Vec3 { x: 1, y: 0, z: 0 }), None);
    assert_eq!(r.blockify_entries_needed(Vec3 { x: 1, y: 0, z: 0 }, Vec3 { x: 1, y: 0, z: 0 }), Some(1));
    r.blockify_region(Vec3 { x: 1, y: 0, z: 0 }, Vec3 { x: 1, y: 0, z: 0 });
    assert_eq!(r.current_world.data, vec![4500, 7]);
    assert_eq!(r.palette_counter, 8);
}

#[test]
fn padded_world_pads_rows_to_64_blocks() {
    let mut r = renderer(3, 2, 2, 15);
    r.current_world.set(0, 0, 0, 1);
    r.current_world.set(2, 1, 0, 7);
    r.current_world.set(1, 0, 1, 9);
    let padded = r.padded_world();
    assert_eq!(padded.len(), 64 * 2 * 2);
    assert_eq!(padded[0], 1);
    assert_eq!(padded[2 + 64], 7);
    assert_eq!(padded[1 + 64 * 2], 9);
    assert_eq!(padded.iter().filter(|v| **v != 0).count(), 3);
    let wide = renderer(65, 1, 1, 15).padded_world();
    assert_eq!(wide.len(), 128);
}
