//! The block palette as the GPU holds it: blocks of 16^3 voxels side by side
//! in one image, 64 blocks to a row.
use crate::array3d::{flat_index, in_grid, Array3D, ConstDims};
use crate::types::{BlockVoxels, Voxel};
use crate::world::{palette_position, palette_xy};
use vstd::prelude::*;

verus! {

/// Extent of the block palette image: 64 x 64 blocks of 16^3 voxels.
pub type BlockPaletteImageSize = ConstDims<1024, 1024, 16>;

/// A texel type of the palette image, made from a voxel.
pub trait PaletteVoxel: Copy + Sized {
    /// The texel that holds voxel `v`.
    spec fn of_voxel(v: Voxel) -> Self;

    /// The texel that holds voxel `v`.
    fn of_voxel_exec(v: Voxel) -> (r: Self)
        ensures
            r == Self::of_voxel(v),
    ;

    /// A clone of a texel is that texel.
    proof fn lemma_clone_is_copy(a: Self, b: Self)
        requires
            cloned(a, b),
        ensures
            a == b,
    ;
}

impl PaletteVoxel for u8 {
    open spec fn of_voxel(v: Voxel) -> Self {
        v
    }

    fn of_voxel_exec(v: Voxel) -> (r: Self) {
        v
    }

    proof fn lemma_clone_is_copy(a: Self, b: Self) {
    }
}

impl PaletteVoxel for i32 {
    open spec fn of_voxel(v: Voxel) -> Self {
        v as i32
    }

    fn of_voxel_exec(v: Voxel) -> (r: Self) {
        v as i32
    }

    proof fn lemma_clone_is_copy(a: Self, b: Self) {
    }
}

/// The voxel at `(x, y, z)` of a block stored flat, X fastest, then Y, then Z.
pub open spec fn flat_block_voxel(voxels: [Voxel; 4096], x: int, y: int, z: int) -> Voxel {
    voxels[x + y * 16 + z * 256]
}

/// A block's voxels, indexed `[x][y][z]`, from their flat storage.
pub fn unpack_block_voxels(voxels: &[Voxel; 4096]) -> (r: BlockVoxels)
    ensures
        forall|x: int, y: int, z: int|
            0 <= x < 16 && 0 <= y < 16 && 0 <= z < 16 ==> #[trigger] r[x][y][z] == flat_block_voxel(
                *voxels,
                x,
                y,
                z,
            ),
        forall|x: int, y: int, z: int|
            0 <= x < 16 && 0 <= y < 16 && 0 <= z < 16 ==> #[trigger] r[x][y][z] == voxels[x + 16 * y + 256 * z],
{
    let mut block: BlockVoxels = [[[0u8; 16]; 16]; 16];
    let mut z: usize = 0;
    while z < 16
        invariant
            z <= 16,
            forall|a: int, b: int, c: int|
                0 <= a < 16 && 0 <= b < 16 && 0 <= c < z ==> #[trigger] block[a][b][c] == flat_block_voxel(
                    *voxels,
                    a,
                    b,
                    c,
                ),
        decreases 16 - z,
    {
        let mut y: usize = 0;
        while y < 16
            invariant
                z < 16,
                y <= 16,
                forall|a: int, b: int, c: int|
                    0 <= a < 16 && 0 <= b < 16 && 0 <= c < z ==> #[trigger] block[a][b][c]
                        == flat_block_voxel(*voxels, a, b, c),
                forall|a: int, b: int|
                    0 <= a < 16 && 0 <= b < y ==> #[trigger] block[a][b][z as int] == flat_block_voxel(
                        *voxels,
                        a,
                        b,
                        z as int,
                    ),
            decreases 16 - y,
        {
            let mut x: usize = 0;
            while x < 16
                invariant
                    z < 16,
                    y < 16,
                    x <= 16,
                    forall|a: int, b: int, c: int|
                        0 <= a < 16 && 0 <= b < 16 && 0 <= c < z ==> #[trigger] block[a][b][c]
                            == flat_block_voxel(*voxels, a, b, c),
                    forall|a: int, b: int|
                        0 <= a < 16 && 0 <= b < y ==> #[trigger] block[a][b][z as int]
                            == flat_block_voxel(*voxels, a, b, z as int),
                    forall|a: int|
                        0 <= a < x ==> #[trigger] block[a][y as int][z as int] == flat_block_voxel(
                            *voxels,
                            a,
                            y as int,
                            z as int,
                        ),
                decreases 16 - x,
            {
                block[x][y][z] = voxels[x + y * 16 + z * 256];
                x += 1;
            }
            y += 1;
        }
        z += 1;
    }
    block
}


/// Palette entry whose block holds texel column `(x, y)` of the palette image.
pub open spec fn palette_entry_at(x: int, y: int) -> int {
    (y / 16) * 64 + x / 16
}

/// Texel `(x, y, z)` of the palette image made from the blocks `palette`:
/// the voxel of the block at that place, or zero where no block is.
pub open spec fn palette_texel<V: PaletteVoxel>(palette: Seq<BlockVoxels>, x: int, y: int, z: int) -> V {
    let i = palette_entry_at(x, y);
    if i < palette.len() {
        V::of_voxel(palette[i][x % 16][y % 16][z])
    } else {
        V::of_voxel(0)
    }
}

/// Voxel `(x, y, z)` of palette entry `i` lies at texel
/// `(x + 16 * column, y + 16 * row, z)`, and that texel belongs to entry `i`
/// only at that voxel.
pub proof fn lemma_palette_texel_place(i: int, x: int, y: int, qx: int, qy: int)
    requires
        0 <= i < 4096,
        0 <= x < 16,
        0 <= y < 16,
        0 <= qx < 1024,
        0 <= qy < 1024,
    ensures
        ({
            let px = x + (i % 64) * 16;
            let py = y + (i / 64) * 16;
            &&& 0 <= px < 1024
            &&& 0 <= py < 1024
            &&& palette_entry_at(px, py) == i
            &&& px % 16 == x
            &&& py % 16 == y
            &&& (palette_entry_at(qx, qy) == i && qx % 16 == x && qy % 16 == y) ==> (qx == px && qy
                == py)
        }),
{
    let px = x + (i % 64) * 16;
    let py = y + (i / 64) * 16;
    vstd::arithmetic::div_mod::lemma_fundamental_div_mod(i, 64);
    assert(0 <= i % 64 < 64);
    assert(0 <= i / 64 < 64);
    vstd::arithmetic::div_mod::lemma_fundamental_div_mod_converse(px, 16, i % 64, x);
    vstd::arithmetic::div_mod::lemma_fundamental_div_mod_converse(py, 16, i / 64, y);
    vstd::arithmetic::div_mod::lemma_fundamental_div_mod(qx, 16);
    vstd::arithmetic::div_mod::lemma_fundamental_div_mod(qy, 16);
    vstd::arithmetic::div_mod::lemma_div_pos_is_pos(qx, 16);
    vstd::arithmetic::div_mod::lemma_div_pos_is_pos(qy, 16);
    if palette_entry_at(qx, qy) == i && qx % 16 == x && qy % 16 == y {
        assert(qx / 16 < 64);
        assert(qx / 16 == i % 64);
        assert(qy / 16 == i / 64);
    }
}

/// In the palette image with `i32` texels each texel holds its voxel's
/// material number unchanged (0 to 255): voxel `(x, y, z)` of entry `i` lies
/// at texel `(x + 16 * (i % 64), y + 16 * (i / 64), z)`; a texel that no
/// entry covers holds 0.
pub proof fn lemma_wide_texels_keep_voxels(
    palette: Seq<BlockVoxels>,
    i: int,
    x: int,
    y: int,
    z: int,
    qx: int,
    qy: int,
)
    requires
        palette.len() <= 4096,
        0 <= i < palette.len(),
        0 <= x < 16,
        0 <= y < 16,
        0 <= z < 16,
        0 <= qx < 1024,
        0 <= qy < 1024,
    ensures
        palette_texel::<i32>(palette, x + (i % 64) * 16, y + (i / 64) * 16, z) as int
            == palette[i][x][y][z] as int,
        0 <= palette_texel::<i32>(palette, x + (i % 64) * 16, y + (i / 64) * 16, z) <= 255,
        palette_entry_at(qx, qy) >= palette.len() ==> palette_texel::<i32>(palette, qx, qy, z) == 0,
{
    lemma_palette_texel_place(i, x, y, qx, qy);
}

/// In the palette image with `u8` texels each texel is its voxel: voxel
/// `(x, y, z)` of entry `i` lies at texel `(x + 16 * (i % 64), y + 16 * (i / 64), z)`;
/// a texel that no entry covers holds 0.
pub proof fn lemma_byte_texels_keep_voxels(
    palette: Seq<BlockVoxels>,
    i: int,
    x: int,
    y: int,
    z: int,
    qx: int,
    qy: int,
)
    requires
        palette.len() <= 4096,
        0 <= i < palette.len(),
        0 <= x < 16,
        0 <= y < 16,
        0 <= z < 16,
        0 <= qx < 1024,
        0 <= qy < 1024,
    ensures
        palette_texel::<u8>(palette, x + (i % 64) * 16, y + (i / 64) * 16, z) == palette[i][x][y][z],
        palette_entry_at(qx, qy) >= palette.len() ==> palette_texel::<u8>(palette, qx, qy, z) == 0,
{
    lemma_palette_texel_place(i, x, y, qx, qy);
}

/// The block palette image of the blocks `palette`: entry `i` goes to
/// column `i % 64`, row `i / 64`, each block 16 texels wide; texels of no
/// entry hold the zero voxel.
pub fn prepare_palette_image<V: PaletteVoxel>(palette: &Vec<BlockVoxels>) -> (r: Array3D<V, BlockPaletteImageSize>)
    requires
        palette@.len() <= 4096,
    ensures
        r.wf(),
        forall|x: int, y: int, z: int|
            in_grid(r.dims, x, y, z) ==> #[trigger] r.at(x, y, z) == palette_texel::<V>(palette@, x, y, z),
{
    let dims: BlockPaletteImageSize = ConstDims;
    let mut prepared = Array3D::<V, BlockPaletteImageSize>::new_filled(dims, V::of_voxel_exec(0));
    let ghost pal = palette@;
    let n = palette.len();
    proof {
        assert forall|x: int, y: int, z: int| in_grid(dims, x, y, z) implies #[trigger] prepared.at(x, y, z) == V::of_voxel(0) by {
            crate::array3d::lemma_flat_index_bounds(1024, 1024, 16, x, y, z);
            V::lemma_clone_is_copy(V::of_voxel(0), prepared.data@[flat_index(dims, x, y, z)]);
        }
    }
    let mut i: usize = 0;
    while i < n
        invariant
            i <= n,
            n == pal.len(),
            pal == palette@,
            n <= 4096,
            prepared.wf(),
            prepared.dims == dims,
            forall|x: int, y: int, z: int|
                in_grid(dims, x, y, z) ==> #[trigger] prepared.at(x, y, z) == if palette_entry_at(x, y) < i {
                    palette_texel::<V>(pal, x, y, z)
                } else {
                    V::of_voxel(0)
                },
        decreases n - i,
    {
        let block_xy = palette_position(i);
        let bx = block_xy.x as usize;
        let by = block_xy.y as usize;
        let block = &palette[i];
        let mut z: usize = 0;
        while z < 16
            invariant
                i < n,
                z <= 16,
                n == pal.len(),
                pal == palette@,
                *block == pal[i as int],
                n <= 4096,
                (bx as int, by as int) == palette_xy(i as int),
                prepared.wf(),
                prepared.dims == dims,
                forall|x: int, y: int, zc: int|
                    in_grid(dims, x, y, zc) ==> #[trigger] prepared.at(x, y, zc) == if palette_entry_at(x, y) < i
                        || (palette_entry_at(x, y) == i && zc < z) {
                        palette_texel::<V>(pal, x, y, zc)
                    } else {
                        V::of_voxel(0)
                    },
            decreases 16 - z,
        {
            let mut y: usize = 0;
            while y < 16
                invariant
                    i < n,
                    z < 16,
                    y <= 16,
                    n == pal.len(),
                    pal == palette@,
                    *block == pal[i as int],
                    n <= 4096,
                    (bx as int, by as int) == palette_xy(i as int),
                    prepared.wf(),
                    prepared.dims == dims,
                    forall|x: int, yc: int, zc: int|
                        in_grid(dims, x, yc, zc) ==> #[trigger] prepared.at(x, yc, zc) == if palette_entry_at(x, yc) < i
                            || (palette_entry_at(x, yc) == i && (zc < z || (zc == z && yc % 16 < y))) {
                            palette_texel::<V>(pal, x, yc, zc)
                        } else {
                            V::of_voxel(0)
                        },
                decreases 16 - y,
            {
                let mut x: usize = 0;
                while x < 16
                    invariant
                        i < n,
                        z < 16,
                        y < 16,
                        x <= 16,
                        n == pal.len(),
                        pal == palette@,
                        *block == pal[i as int],
                        n <= 4096,
                        (bx as int, by as int) == palette_xy(i as int),
                        prepared.wf(),
                        prepared.dims == dims,
                        forall|xc: int, yc: int, zc: int|
                            in_grid(dims, xc, yc, zc) ==> #[trigger] prepared.at(xc, yc, zc) == if palette_entry_at(xc, yc)
                                < i || (palette_entry_at(xc, yc) == i && (zc < z || (zc == z && (yc % 16 < y
                                || (yc % 16 == y && xc % 16 < x))))) {
                                palette_texel::<V>(pal, xc, yc, zc)
                            } else {
                                V::of_voxel(0)
                            },
                    decreases 16 - x,
                {
                    let vox = block[x][y][z];
                    let ghost before = prepared;
                    proof {
                        lemma_palette_texel_place(i as int, x as int, y as int, 0, 0);
                        crate::array3d::lemma_flat_index_bounds(
                            1024,
                            1024,
                            16,
                            x + bx * 16,
                            y + by * 16,
                            z as int,
                        );
                    }
                    prepared.set(x + bx * 16, y + by * 16, z, V::of_voxel_exec(vox));
                    proof {
                        let px = x + bx * 16;
                        let py = y + by * 16;
                        assert forall|xc: int, yc: int, zc: int| in_grid(dims, xc, yc, zc) implies #[trigger] prepared.at(
                            xc,
                            yc,
                            zc,
                        ) == if palette_entry_at(xc, yc) < i || (palette_entry_at(xc, yc) == i && (zc < z || (zc
                            == z && (yc % 16 < y || (yc % 16 == y && xc % 16 < x + 1))))) {
                            palette_texel::<V>(pal, xc, yc, zc)
                        } else {
                            V::of_voxel(0)
                        } by {
                            lemma_palette_texel_place(i as int, x as int, y as int, xc, yc);
                            crate::array3d::lemma_set_then_at(
                                before,
                                prepared,
                                px as int,
                                py as int,
                                z as int,
                                V::of_voxel(vox),
                                xc,
                                yc,
                                zc,
                            );
                        }
                    }
                    x += 1;
                }
                y += 1;
            }
            z += 1;
        }
        i += 1;
    }
    prepared
}

} // verus!
