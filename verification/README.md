# lum

The CPU side of the Lum voxel renderer, verified with Verus.

- `src/ring.rs`, `src/arena.rs`, `src/array3d.rs`, `src/bit_array.rs`: the
  containers the renderer is built on (a ring of per-frame resources, a slot
  arena that reuses the lowest free slot, a flat 3D array, a 3D bit set
  packed into words of any of `u8`, `u16`, `u32`, `u64`, `usize`).
- `src/world.rs`: the world of block references both renderers keep: choosing
  the blocks whose light is updated in a frame, and giving palette entries
  (with copies of their voxels) to the cells that models cover. It is generic
  over the block reference type (`i32` for WebGPU, `i16` for Vulkan) and the
  light update entry type.
- `src/palette.rs`: block voxels and the block palette image.
- `src/multiprocessor.rs`: the thread pool's counting rules (worker threads,
  dispatch size); the pool itself, with its threads, is in `app/`.
- `src/webgpu/`, `src/vulkan/`: the CPU-side state of each renderer, its
  per-frame steps, its data types and its foliage descriptions.
- `src/types.rs`, `src/load_interface.rs`, `src/render_interface.rs`: the
  integer data types of the API.
- `app/`: what stays outside the verified library: the thread pool and the
  floating-point camera, light, occlusion and culling math (on `vek`).

Each public function states in its `ensures` what it returns or changes; the
laws that span functions are public proof functions next to them.
