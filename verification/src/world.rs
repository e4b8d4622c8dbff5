//! The world of block references that both renderers keep on the CPU: the
//! choice of blocks whose light is updated in a frame, and the allocation of
//! palette entries to the blocks that models cover.
use crate::array3d::{dims_fit, flat_index, in_grid, volume, Array3D, Dim3, RuntimeDims};
use crate::bit_array::BitArray3d;
use crate::types::{i8vec4, ivec3, ivec4, uvec2, uvec3, Vec2, Vec3, Vec4, BLOCK_SIZE};
use vstd::prelude::*;

verus! {

/// Width of the block palette image, in blocks.
pub const BLOCK_PALETTE_SIZE_X: u32 = 64;

/// Height of the block palette image, in blocks.
pub const BLOCK_PALETTE_SIZE_Y: u32 = 64;

/// Number of palette entries whose position the palette layout allows
/// (rows `0 ..= BLOCK_PALETTE_SIZE_Y`).
pub const PALETTE_ENTRY_LIMIT: usize = 4160;

/// Position of palette entry `n` in the palette image, in blocks.
pub open spec fn palette_xy(n: int) -> (int, int) {
    (n % (BLOCK_PALETTE_SIZE_X as int), n / (BLOCK_PALETTE_SIZE_X as int))
}

/// Position of palette entry `n` in the palette image, in blocks.
pub fn palette_position(n: usize) -> (r: uvec2)
    requires
        palette_xy(n as int).1 <= BLOCK_PALETTE_SIZE_Y,
    ensures
        (r.x as int, r.y as int) == palette_xy(n as int),
{
    let x = n % BLOCK_PALETTE_SIZE_X as usize;
    let y = n / BLOCK_PALETTE_SIZE_X as usize;
    Vec2 { x: x as u32, y: y as u32 }
}

/// The texel copies that move the light of the world by a shift.
#[derive(Clone, Copy, Debug, Default, PartialEq, Eq)]
pub struct RadianceShift {
    /// Where the kept part starts in the latest light image.
    pub src_offset: ivec3,
    /// Where the kept part goes back to, in the latest light image.
    pub dst_offset: ivec3,
    /// Size of the part kept (the world size less the shift).
    pub extent: uvec3,
}

/// Source and destination offsets along one axis for a shift `shift`.
pub open spec fn axis_offsets(shift: int) -> (int, int) {
    if shift >= 0 { (shift, 0) } else { (0, -shift) }
}

/// `|v|`.
pub open spec fn abs(v: int) -> int {
    if v < 0 { -v } else { v }
}

/// `|v|`, for `v` other than `i32::MIN`.
pub fn abs_i32(v: i32) -> (r: i32)
    requires
        v != i32::MIN,
    ensures
        r == abs(v as int),
{
    if v < 0 {
        -v
    } else {
        v
    }
}

/// A shift of `s` blocks moves every block of a world of extent `d` out of it.
pub open spec fn shift_leaves_nothing<D: Dim3>(d: D, s: ivec3) -> bool {
    ||| abs(s.x as int) >= d.size_x()
    ||| abs(s.y as int) >= d.size_y()
    ||| abs(s.z as int) >= d.size_z()
}

/// A reference from a world cell to a palette entry.
pub trait BlockRef: Copy + Sized {
    /// The referenced entry, as a number (zero and below: no block).
    spec fn id(&self) -> int;

    /// The reference read as an unsigned 32-bit number (negative ones wrap).
    spec fn wrapped(&self) -> u32;

    /// The reference to entry `n`.
    spec fn of_entry(n: int) -> Self;

    /// Whether the cell holds a block.
    fn is_block(&self) -> (r: bool)
        ensures
            r == (self.id() > 0),
    ;

    /// The reference read as an unsigned 32-bit number.
    fn wrapped_exec(&self) -> (r: u32)
        ensures
            r == self.wrapped(),
    ;

    /// The reference to entry `n`.
    fn of_entry_exec(n: usize) -> (r: Self)
        requires
            n <= PALETTE_ENTRY_LIMIT,
        ensures
            r == Self::of_entry(n as int),
            r.id() == n,
    ;

    /// The reference to an entry within the palette names that entry.
    proof fn lemma_of_entry(n: int)
        requires
            0 <= n <= PALETTE_ENTRY_LIMIT,
        ensures
            Self::of_entry(n).id() == n,
            Self::of_entry(n).wrapped() == n,
    ;

    /// A reference that reads as a small unsigned number is that number.
    proof fn lemma_small_wrapped(&self)
        requires
            self.wrapped() <= PALETTE_ENTRY_LIMIT,
        ensures
            self.id() == self.wrapped(),
    ;
}

impl BlockRef for i32 {
    open spec fn id(&self) -> int {
        *self as int
    }

    open spec fn wrapped(&self) -> u32 {
        *self as u32
    }

    open spec fn of_entry(n: int) -> Self {
        n as i32
    }

    fn is_block(&self) -> (r: bool) {
        *self > 0
    }

    fn wrapped_exec(&self) -> (r: u32) {
        *self as u32
    }

    fn of_entry_exec(n: usize) -> (r: Self) {
        n as i32
    }

    proof fn lemma_of_entry(n: int) {
    }

    proof fn lemma_small_wrapped(&self) {
        let b = *self;
        assert((b as u32) <= 4160u32 ==> 0 <= b <= 4160i32) by (bit_vector);
    }
}

impl BlockRef for i16 {
    open spec fn id(&self) -> int {
        *self as int
    }

    open spec fn wrapped(&self) -> u32 {
        *self as u32
    }

    open spec fn of_entry(n: int) -> Self {
        n as i16
    }

    fn is_block(&self) -> (r: bool) {
        *self > 0
    }

    fn wrapped_exec(&self) -> (r: u32) {
        *self as u32
    }

    fn of_entry_exec(n: usize) -> (r: Self) {
        n as i16
    }

    proof fn lemma_of_entry(n: int) {
    }

    proof fn lemma_small_wrapped(&self) {
        let b = *self;
        assert((b as u32) <= 4160u32 ==> 0 <= b <= 4160i16) by (bit_vector);
    }
}

/// An entry of a light update queue, naming a cell of the world.
pub trait RadianceEntry: Copy + Sized {
    /// The entry made for cell `(x, y, z)`.
    spec fn of_cell(x: int, y: int, z: int) -> Self;

    /// The cell the entry names.
    spec fn cell(&self) -> (int, int, int);

    /// Largest coordinate that an entry holds without loss.
    spec fn coord_limit() -> int;

    /// The entry made for cell `(x, y, z)`.
    fn of_cell_exec(x: usize, y: usize, z: usize) -> (r: Self)
        ensures
            r == Self::of_cell(x as int, y as int, z as int),
    ;

    /// The cell the entry names, as indices.
    fn cell_exec(&self) -> (r: (usize, usize, usize))
        requires
            self.cell().0 >= 0,
            self.cell().1 >= 0,
            self.cell().2 >= 0,
        ensures
            (r.0 as int, r.1 as int, r.2 as int) == self.cell(),
    ;

    /// An entry made for a cell within the limit names that cell.
    proof fn lemma_cell_of_cell(x: int, y: int, z: int)
        requires
            0 <= x <= Self::coord_limit(),
            0 <= y <= Self::coord_limit(),
            0 <= z <= Self::coord_limit(),
        ensures
            Self::of_cell(x, y, z).cell() == (x, y, z),
    ;
}

impl RadianceEntry for ivec4 {
    open spec fn of_cell(x: int, y: int, z: int) -> Self {
        Vec4 { x: x as i32, y: y as i32, z: z as i32, w: 0 }
    }

    open spec fn cell(&self) -> (int, int, int) {
        (self.x as int, self.y as int, self.z as int)
    }

    open spec fn coord_limit() -> int {
        i32::MAX as int
    }

    fn of_cell_exec(x: usize, y: usize, z: usize) -> (r: Self) {
        Vec4 { x: x as i32, y: y as i32, z: z as i32, w: 0 }
    }

    fn cell_exec(&self) -> (r: (usize, usize, usize)) {
        (self.x as usize, self.y as usize, self.z as usize)
    }

    proof fn lemma_cell_of_cell(x: int, y: int, z: int) {
    }
}

impl RadianceEntry for i8vec4 {
    open spec fn of_cell(x: int, y: int, z: int) -> Self {
        Vec4 { x: x as i8, y: y as i8, z: z as i8, w: 0 }
    }

    open spec fn cell(&self) -> (int, int, int) {
        (self.x as int, self.y as int, self.z as int)
    }

    open spec fn coord_limit() -> int {
        i8::MAX as int
    }

    fn of_cell_exec(x: usize, y: usize, z: usize) -> (r: Self) {
        Vec4 { x: x as i8, y: y as i8, z: z as i8, w: 0 }
    }

    fn cell_exec(&self) -> (r: (usize, usize, usize)) {
        (self.x as usize, self.y as usize, self.z as usize)
    }

    proof fn lemma_cell_of_cell(x: int, y: int, z: int) {
    }
}

/// `v` clamped into `0 ..= n - 1`.
pub open spec fn clamp_index(v: int, n: int) -> int {
    if v < 0 {
        0
    } else if v > n - 1 {
        n - 1
    } else {
        v
    }
}

/// The neighbour of cell `(x, y, z)` at offset `(dx, dy, dz)`, clamped into
/// the world, holds a block.
pub open spec fn solid_at<B: BlockRef, D: Dim3>(
    w: Array3D<B, D>,
    x: int,
    y: int,
    z: int,
    dx: int,
    dy: int,
    dz: int,
) -> bool {
    w.at(
        clamp_index(x + dx, w.dims.size_x() as int),
        clamp_index(y + dy, w.dims.size_y() as int),
        clamp_index(z + dz, w.dims.size_z() as int),
    ).id() > 0
}

/// Some cell of the 3x3x3 neighbourhood of `(x, y, z)` (clamped into the
/// world) holds a block.
pub open spec fn solid_near<B: BlockRef, D: Dim3>(w: Array3D<B, D>, x: int, y: int, z: int) -> bool {
    exists|dx: int, dy: int, dz: int|
        -1 <= dx <= 1 && -1 <= dy <= 1 && -1 <= dz <= 1 && #[trigger] solid_at(w, x, y, z, dx, dy, dz)
}

/// Cell `(x, y, z)` gets its light updated in a frame whose layer parity is
/// `offset`: it is on a layer of that parity and has a block near it.
pub open spec fn needs_light_update<B: BlockRef, D: Dim3>(
    w: Array3D<B, D>,
    offset: int,
    x: int,
    y: int,
    z: int,
) -> bool {
    &&& z >= offset
    &&& (z - offset) % 2 == 0
    &&& solid_near(w, x, y, z)
}

/// The layer scanned after layer `zz` of a world `sz` layers high, for the
/// layers of one parity.
pub open spec fn next_zz(zz: int, sz: int) -> int {
    if sz - zz <= 2 { sz } else { zz + 2 }
}

/// The cell stored at flat position `p` of a grid of extent `d`.
pub open spec fn cell_of<D: Dim3>(d: D, p: int) -> (int, int, int) {
    (
        p % (d.size_x() as int),
        (p / (d.size_x() as int)) % (d.size_y() as int),
        p / (d.size_x() * d.size_y()),
    )
}

/// Update entries of the cells among the first `n` in storage order (X
/// fastest, then Y, then Z) that need a light update.
pub open spec fn scanned_updates<B: BlockRef, E: RadianceEntry, D: Dim3>(
    w: Array3D<B, D>,
    offset: int,
    n: nat,
) -> Seq<E>
    decreases n,
{
    if n == 0 {
        Seq::empty()
    } else {
        let prev = scanned_updates::<B, E, D>(w, offset, (n - 1) as nat);
        let c = cell_of(w.dims, n - 1);
        if needs_light_update(w, offset, c.0, c.1, c.2) {
            prev.push(E::of_cell(c.0, c.1, c.2))
        } else {
            prev
        }
    }
}

/// The first `n` requested updates whose cell is not already picked.
pub open spec fn unpicked_specials<B: BlockRef, E: RadianceEntry, D: Dim3>(
    w: Array3D<B, D>,
    offset: int,
    s: Seq<E>,
    n: nat,
) -> Seq<E>
    decreases n,
{
    if n == 0 {
        Seq::empty()
    } else {
        let prev = unpicked_specials(w, offset, s, (n - 1) as nat);
        let c = s[n - 1].cell();
        if needs_light_update(w, offset, c.0, c.1, c.2) {
            prev
        } else {
            prev.push(s[n - 1])
        }
    }
}

/// The light updates of a frame: the picked cells in storage order, then
/// the requested ones that were not picked, in request order.
pub open spec fn radiance_update_list<B: BlockRef, E: RadianceEntry, D: Dim3>(
    w: Array3D<B, D>,
    offset: int,
    specials: Seq<E>,
) -> Seq<E> {
    scanned_updates::<B, E, D>(w, offset, volume(w.dims) as nat) + unpicked_specials(
        w,
        offset,
        specials,
        specials.len(),
    )
}

/// Every requested update names a cell of a world of extent `d`.
pub open spec fn specials_in_grid<E: RadianceEntry, D: Dim3>(d: D, s: Seq<E>) -> bool {
    forall|i: int|
        0 <= i < s.len() ==> {
            let c = #[trigger] s[i].cell();
            in_grid(d, c.0, c.1, c.2)
        }
}

/// Storage position `flat_index(d, x, y, z)` holds cell `(x, y, z)`.
pub proof fn lemma_cell_of_flat_index<D: Dim3>(d: D, x: int, y: int, z: int)
    requires
        in_grid(d, x, y, z),
    ensures
        cell_of(d, flat_index(d, x, y, z)) == (x, y, z),
{
    let sx = d.size_x() as int;
    let sy = d.size_y() as int;
    let p = flat_index(d, x, y, z);
    assert(p == (y + z * sy) * sx + x) by (nonlinear_arith)
        requires
            p == x + y * sx + z * sx * sy,
    ;
    vstd::arithmetic::div_mod::lemma_fundamental_div_mod_converse(p, sx, y + z * sy, x);
    assert(y + z * sy == z * sy + y) by (nonlinear_arith);
    vstd::arithmetic::div_mod::lemma_fundamental_div_mod_converse(y + z * sy, sy, z, y);
    assert(0 <= x + y * sx < sx * sy) by (nonlinear_arith)
        requires
            0 <= x < sx,
            0 <= y < sy,
    ;
    assert(p == z * (sx * sy) + (x + y * sx)) by (nonlinear_arith)
        requires
            p == x + y * sx + z * sx * sy,
    ;
    vstd::arithmetic::div_mod::lemma_fundamental_div_mod_converse(p, sx * sy, z, x + y * sx);
}

/// `v` clamped into `0 ..= n - 1`.
fn clamp_isize(v: isize, n: isize) -> (r: isize)
    requires
        n >= 1,
    ensures
        r == clamp_index(v as int, n as int),
{
    let a = if v < 0 {
        0
    } else {
        v
    };
    if a > n - 1 {
        n - 1
    } else {
        a
    }
}

/// Whether a block lies in the 3x3x3 neighbourhood of `(xx, yy, zz)`.
fn solid_near_exec<B: BlockRef, D: Dim3>(world: &Array3D<B, D>, xx: usize, yy: usize, zz: usize) -> (r: bool)
    requires
        world.wf(),
        in_grid(world.dims, xx as int, yy as int, zz as int),
        world.dims.size_x() <= i32::MAX,
        world.dims.size_y() <= i32::MAX,
        world.dims.size_z() <= i32::MAX,
    ensures
        r == solid_near(*world, xx as int, yy as int, zz as int),
{
    let sx = world.dims.x() as isize;
    let sy = world.dims.y() as isize;
    let sz = world.dims.z() as isize;
    let ghost w = *world;
    let mut dz: isize = -1;
    while dz <= 1
        invariant
            -1 <= dz <= 2,
            w == *world,
            world.wf(),
            in_grid(world.dims, xx as int, yy as int, zz as int),
            sx == world.dims.size_x(),
            sy == world.dims.size_y(),
            sz == world.dims.size_z(),
            sx <= i32::MAX,
            sy <= i32::MAX,
            sz <= i32::MAX,
            forall|a: int, b: int, c: int|
                -1 <= a <= 1 && -1 <= b <= 1 && -1 <= c < dz ==> !#[trigger] solid_at(
                    w,
                    xx as int,
                    yy as int,
                    zz as int,
                    a,
                    b,
                    c,
                ),
        decreases 2 - dz,
    {
        let mut dy: isize = -1;
        while dy <= 1
            invariant
                -1 <= dy <= 2,
                -1 <= dz <= 1,
                w == *world,
                world.wf(),
                in_grid(world.dims, xx as int, yy as int, zz as int),
                sx == world.dims.size_x(),
                sy == world.dims.size_y(),
                sz == world.dims.size_z(),
                sx <= i32::MAX,
                sy <= i32::MAX,
                sz <= i32::MAX,
                forall|a: int, b: int, c: int|
                    -1 <= a <= 1 && -1 <= b <= 1 && -1 <= c < dz ==> !#[trigger] solid_at(
                        w,
                        xx as int,
                        yy as int,
                        zz as int,
                        a,
                        b,
                        c,
                    ),
                forall|a: int, b: int|
                    -1 <= a <= 1 && -1 <= b < dy ==> !#[trigger] solid_at(
                        w,
                        xx as int,
                        yy as int,
                        zz as int,
                        a,
                        b,
                        dz as int,
                    ),
            decreases 2 - dy,
        {
            let mut dx: isize = -1;
            while dx <= 1
                invariant
                    -1 <= dx <= 2,
                    -1 <= dy <= 1,
                    -1 <= dz <= 1,
                    w == *world,
                    world.wf(),
                    in_grid(world.dims, xx as int, yy as int, zz as int),
                    sx == world.dims.size_x(),
                    sy == world.dims.size_y(),
                    sz == world.dims.size_z(),
                    sx <= i32::MAX,
                    sy <= i32::MAX,
                    sz <= i32::MAX,
                    forall|a: int, b: int, c: int|
                        -1 <= a <= 1 && -1 <= b <= 1 && -1 <= c < dz ==> !#[trigger] solid_at(
                            w,
                            xx as int,
                            yy as int,
                            zz as int,
                            a,
                            b,
                            c,
                        ),
                    forall|a: int, b: int|
                        -1 <= a <= 1 && -1 <= b < dy ==> !#[trigger] solid_at(
                            w,
                            xx as int,
                            yy as int,
                            zz as int,
                            a,
                            b,
                            dz as int,
                        ),
                    forall|a: int|
                        -1 <= a < dx ==> !#[trigger] solid_at(
                            w,
                            xx as int,
                            yy as int,
                            zz as int,
                            a,
                            dy as int,
                            dz as int,
                        ),
                decreases 2 - dx,
            {
                let x = clamp_isize(xx as isize + dx, sx);
                let y = clamp_isize(yy as isize + dy, sy);
                let z = clamp_isize(zz as isize + dz, sz);
                let block = world.get(x as usize, y as usize, z as usize);
                if block.is_block() {
                    proof {
                        assert(solid_at(w, xx as int, yy as int, zz as int, dx as int, dy as int, dz as int));
                    }
                    return true;
                }
                dx += 1;
            }
            dy += 1;
        }
        dz += 1;
    }
    false
}

/// The light updates of a frame: on the layers (along Z) of parity
/// `offset`, every cell with a block in its 3x3x3 neighbourhood, in storage
/// order; then each requested update whose cell was not chosen, in request
/// order.
pub fn pick_radiance_updates<B: BlockRef, E: RadianceEntry, D: Dim3>(
    world: &Array3D<B, D>,
    offset: isize,
    specials: &Vec<E>,
) -> (r: Vec<E>)
    requires
        world.wf(),
        0 <= offset <= 1,
        world.dims.size_x() <= i32::MAX,
        world.dims.size_y() <= i32::MAX,
        world.dims.size_z() <= i32::MAX,
        specials_in_grid(world.dims, specials@),
    ensures
        r@ == radiance_update_list(*world, offset as int, specials@),
{
    let dims = world.dims;
    let ghost w = *world;
    let mut visited = BitArray3d::<usize, D>::new_filled(dims, false);
    let ghost off = offset as int;
    let sx = dims.x() as isize;
    let sy = dims.y() as isize;
    let sz = dims.z() as isize;
    proof {
        assert forall|x: int, y: int, z: int|
            in_grid(dims, x, y, z) implies #[trigger] visited.bits()[flat_index(dims, x, y, z)]
                == (x < 0 && needs_light_update(w, off, x, y, z)) by {
            crate::array3d::lemma_flat_index_bounds(
                sx as int, sy as int, sz as int, x, y, z);
        }
    }
    let mut xx: isize = 0;
    while xx < sx
        invariant
            0 <= xx <= sx,
            w == *world,
            w.wf(),
            w.dims == dims,
            visited.wf(),
            visited.dims == dims,
            0 <= off <= 1,
            offset == off,
            sx == dims.size_x(),
            sy == dims.size_y(),
            sz == dims.size_z(),
            sx <= i32::MAX,
            sy <= i32::MAX,
            sz <= i32::MAX,
            forall|x: int, y: int, z: int|
                in_grid(dims, x, y, z) ==> #[trigger] visited.bits()[flat_index(dims, x, y, z)]
                    == (x < xx && needs_light_update(w, off, x, y, z)),
        decreases sx - xx,
    {
        let mut yy: isize = 0;
        while yy < sy
            invariant
                0 <= xx < sx,
                0 <= yy <= sy,
                w == *world,
                w.wf(),
                w.dims == dims,
                visited.wf(),
                visited.dims == dims,
                0 <= off <= 1,
                offset == off,
                sx == dims.size_x(),
                sy == dims.size_y(),
                sz == dims.size_z(),
                sx <= i32::MAX,
                sy <= i32::MAX,
                sz <= i32::MAX,
                forall|x: int, y: int, z: int|
                    in_grid(dims, x, y, z) ==> #[trigger] visited.bits()[flat_index(dims, x, y, z)]
                        == ((x < xx || (x == xx && y < yy)) && needs_light_update(w, off, x, y, z)),
            decreases sy - yy,
        {
            let mut zz: isize = offset;
            while zz < sz
                invariant
                    0 <= xx < sx,
                    0 <= yy < sy,
                    off <= zz <= sz + 1,
                    zz == sz || (zz - off) % 2 == 0,
                    w == *world,
                    w.wf(),
                    w.dims == dims,
                    visited.wf(),
                    visited.dims == dims,
                    0 <= off <= 1,
                    offset == off,
                    sx == dims.size_x(),
                    sy == dims.size_y(),
                    sz == dims.size_z(),
                    sx <= i32::MAX,
                    sy <= i32::MAX,
                    sz <= i32::MAX,
                    forall|x: int, y: int, z: int|
                        in_grid(dims, x, y, z) ==> #[trigger] visited.bits()[flat_index(dims, x, y, z)]
                            == ((x < xx || (x == xx && y < yy) || (x == xx && y == yy && z < zz))
                            && needs_light_update(w, off, x, y, z)),
                decreases sz + 2 - zz,
            {
                let near = solid_near_exec(world, xx as usize, yy as usize, zz as usize);
                let ghost before = visited.bits();
                if near {
                    visited.set(xx as usize, yy as usize, zz as usize, true);
                }
                proof {
                    let here = flat_index(dims, xx as int, yy as int, zz as int);
                    crate::array3d::lemma_flat_index_bounds(
                        sx as int, sy as int, sz as int, xx as int, yy as int, zz as int);
                    assert forall|x: int, y: int, z: int|
                        in_grid(dims, x, y, z) implies #[trigger] visited.bits()[flat_index(dims, x, y, z)]
                            == ((x < xx || (x == xx && y < yy) || (x == xx && y == yy && z < next_zz(zz as int, sz as int)))
                            && needs_light_update(w, off, x, y, z)) by {
                        let q = flat_index(dims, x, y, z);
                        crate::array3d::lemma_flat_index_bounds(
                            sx as int, sy as int, sz as int, x, y, z);
                        if x == xx && y == yy && z == zz {
                            assert(needs_light_update(w, off, x, y, z) == near);
                        } else {
                            if q == here {
                                crate::array3d::lemma_flat_index_injective(
                                    dims, x, y, z, xx as int, yy as int, zz as int);
                            }
                            assert(visited.bits()[q] == before[q]);
                            if x == xx && y == yy && z == zz + 1 {
                                assert((z - off) % 2 != 0);
                            }
                        }
                    }
                }
                if sz - zz <= 2 {
                    zz = sz;
                } else {
                    zz += 2;
                }
            }
            yy += 1;
        }
        xx += 1;
    }
    let mut updates: Vec<E> = Vec::new();
    proof {
        assert(flat_index(dims, 0, 0, 0) == 0) by (nonlinear_arith);
    }
    let ux = dims.x();
    let uy = dims.y();
    let uz = dims.z();
    let mut z: usize = 0;
    while z < uz
        invariant
            z <= uz,
            ux == dims.size_x(),
            uy == dims.size_y(),
            uz == dims.size_z(),
            ux <= i32::MAX,
            uy <= i32::MAX,
            uz <= i32::MAX,
            dims_fit(dims),
            w.dims == dims,
            w == *world,
            visited.wf(),
            visited.dims == dims,
            forall|x: int, y: int, zc: int|
                in_grid(dims, x, y, zc) ==> #[trigger] visited.bits()[flat_index(dims, x, y, zc)]
                    == needs_light_update(w, off, x, y, zc),
            updates@ == scanned_updates::<B, E, D>(w, off, flat_index(dims, 0, 0, z as int) as nat),
        decreases uz - z,
    {
        let mut y: usize = 0;
        while y < uy
            invariant
                z < uz,
                y <= uy,
                ux == dims.size_x(),
                uy == dims.size_y(),
                uz == dims.size_z(),
                ux <= i32::MAX,
                uy <= i32::MAX,
                uz <= i32::MAX,
                dims_fit(dims),
                w.dims == dims,
                w == *world,
                visited.wf(),
                visited.dims == dims,
                forall|x: int, yc: int, zc: int|
                    in_grid(dims, x, yc, zc) ==> #[trigger] visited.bits()[flat_index(dims, x, yc, zc)]
                        == needs_light_update(w, off, x, yc, zc),
                updates@ == scanned_updates::<B, E, D>(w, off, flat_index(dims, 0, y as int, z as int) as nat),
            decreases uy - y,
        {
            let mut x: usize = 0;
            while x < ux
                invariant
                    z < uz,
                    y < uy,
                    x <= ux,
                    ux == dims.size_x(),
                    uy == dims.size_y(),
                    uz == dims.size_z(),
                    ux <= i32::MAX,
                    uy <= i32::MAX,
                    uz <= i32::MAX,
                    dims_fit(dims),
                    w.dims == dims,
                    w == *world,
                    visited.wf(),
                    visited.dims == dims,
                    forall|xc: int, yc: int, zc: int|
                        in_grid(dims, xc, yc, zc) ==> #[trigger] visited.bits()[flat_index(dims, xc, yc, zc)]
                            == needs_light_update(w, off, xc, yc, zc),
                    updates@ == scanned_updates::<B, E, D>(w, off, flat_index(dims, x as int, y as int, z as int) as nat),
                decreases ux - x,
            {
                let picked = visited.get(x, y, z);
                proof {
                    let p = flat_index(dims, x as int, y as int, z as int);
                    crate::array3d::lemma_flat_index_bounds(
                        ux as int, uy as int, uz as int, x as int, y as int, z as int);
                    lemma_cell_of_flat_index(dims, x as int, y as int, z as int);
                    assert(picked == needs_light_update(w, off, x as int, y as int, z as int));
                    assert(flat_index(dims, x + 1, y as int, z as int) == p + 1);
                }
                if picked {
                    updates.push(E::of_cell_exec(x, y, z));
                }
                x += 1;
            }
            proof {
                assert(flat_index(dims, ux as int, y as int, z as int) == flat_index(dims, 0, y + 1, z as int))
                    by (nonlinear_arith)
                    requires
                        dims.size_x() == ux,
                ;
            }
            y += 1;
        }
        proof {
            assert(flat_index(dims, 0, uy as int, z as int) == flat_index(dims, 0, 0, z + 1))
                by (nonlinear_arith)
                requires
                    dims.size_x() == ux,
                    dims.size_y() == uy,
            ;
        }
        z += 1;
    }
    proof {
        assert(flat_index(dims, 0, 0, uz as int) == volume(dims)) by (nonlinear_arith)
            requires
                dims.size_x() == ux,
                dims.size_y() == uy,
                dims.size_z() == uz,
        ;
    }
    let ghost picked_all = updates@;
    let n = specials.len();
    let mut i: usize = 0;
    while i < n
        invariant
            i <= n,
            n == specials@.len(),
            dims_fit(dims),
            w.dims == dims,
            w == *world,
            visited.wf(),
            visited.dims == dims,
            forall|xc: int, yc: int, zc: int|
                in_grid(dims, xc, yc, zc) ==> #[trigger] visited.bits()[flat_index(dims, xc, yc, zc)]
                    == needs_light_update(w, off, xc, yc, zc),
            specials_in_grid(dims, specials@),
            updates@ == picked_all + unpicked_specials(
                w,
                off,
                specials@,
                i as nat,
            ),
        decreases n - i,
    {
        let u = specials[i];
        proof {
            let c = specials@[i as int].cell();
            assert(in_grid(dims, c.0, c.1, c.2));
        }
        let (ux, uy, uz) = u.cell_exec();
        if !visited.get(ux, uy, uz) {
            updates.push(u);
        }
        proof {
            assert(updates@ =~= picked_all + unpicked_specials(
                w,
                off,
                specials@,
                (i + 1) as nat,
            ));
        }
        i += 1;
    }
    updates
}

/// Number of values in `lo ..= hi`.
pub open spec fn span(lo: int, hi: int) -> int {
    if hi >= lo { hi - lo + 1 } else { 0 }
}

/// Extent of the box of cells from `lo` to `hi`, both included.
pub open spec fn region_dims(lo: ivec3, hi: ivec3) -> RuntimeDims {
    RuntimeDims {
        x: span(lo.x as int, hi.x as int) as usize,
        y: span(lo.y as int, hi.y as int) as usize,
        z: span(lo.z as int, hi.z as int) as usize,
    }
}

/// Cell `(x, y, z)` lies in the box from `lo` to `hi`.
pub open spec fn in_region(lo: ivec3, hi: ivec3, x: int, y: int, z: int) -> bool {
    &&& lo.x <= x <= hi.x
    &&& lo.y <= y <= hi.y
    &&& lo.z <= z <= hi.z
}

/// Place of cell `(x, y, z)` in the scan of the box from `lo` (X fastest,
/// then Y, then Z).
pub open spec fn region_index(lo: ivec3, hi: ivec3, x: int, y: int, z: int) -> int {
    flat_index(region_dims(lo, hi), x - lo.x, y - lo.y, z - lo.z)
}

/// The cell at place `k` of the scan of the box from `lo`.
pub open spec fn region_cell(lo: ivec3, hi: ivec3, k: int) -> (int, int, int) {
    let c = cell_of(region_dims(lo, hi), k);
    (lo.x + c.0, lo.y + c.1, lo.z + c.2)
}

/// Block `b` refers to a static palette entry, so a cell holding it gets a
/// block of its own when a model covers it.
pub open spec fn takes_palette_entry<B: BlockRef>(b: B, static_size: u32) -> bool {
    b.wrapped() < static_size
}

/// Number of cells among the first `k` of the scan of the box from `lo` to
/// `hi` that get a block of their own.
pub open spec fn allocations_before<B: BlockRef, D: Dim3>(
    w: Array3D<B, D>,
    lo: ivec3,
    hi: ivec3,
    static_size: u32,
    k: nat,
) -> nat
    decreases k,
{
    if k == 0 {
        0
    } else {
        let c = region_cell(lo, hi, k - 1);
        allocations_before(w, lo, hi, static_size, (k - 1) as nat) + if takes_palette_entry(
            w.at(c.0, c.1, c.2),
            static_size,
        ) {
            1nat
        } else {
            0nat
        }
    }
}

/// The world after the box from `lo` to `hi` got its blocks, palette entries
/// numbered from `counter` in scan order.
pub open spec fn blockified<B: BlockRef, D: Dim3>(
    w: Array3D<B, D>,
    lo: ivec3,
    hi: ivec3,
    static_size: u32,
    counter: int,
    x: int,
    y: int,
    z: int,
) -> B {
    if in_region(lo, hi, x, y, z) && takes_palette_entry(w.at(x, y, z), static_size) {
        B::of_entry(counter + allocations_before(w, lo, hi, static_size, region_index(lo, hi, x, y, z) as nat))
    } else {
        w.at(x, y, z)
    }
}

/// `v` clamped into `0 ..= n - 1`, per axis.
pub open spec fn clamp_to_world<D: Dim3>(v: ivec3, d: D) -> ivec3 {
    Vec3 {
        x: clamp_index(v.x as int, d.size_x() as int) as i32,
        y: clamp_index(v.y as int, d.size_y() as int) as i32,
        z: clamp_index(v.z as int, d.size_z() as int) as i32,
    }
}

/// `v` clamped into `0 ..= n - 1`.
fn clamp_i32(v: i32, n: i32) -> (r: i32)
    requires
        n >= 1,
    ensures
        r == clamp_index(v as int, n as int),
{
    let a = if v < 0 {
        0
    } else {
        v
    };
    if a > n - 1 {
        n - 1
    } else {
        a
    }
}

/// Both corners of the box have no negative coordinate.
pub open spec fn corners_nonneg(lo: ivec3, hi: ivec3) -> bool {
    &&& lo.x >= 0
    &&& lo.y >= 0
    &&& lo.z >= 0
    &&& hi.x >= 0
    &&& hi.y >= 0
    &&& hi.z >= 0
}

/// The extent of a box with non-negative corners is its spans.
pub proof fn lemma_region_dims(lo: ivec3, hi: ivec3)
    requires
        corners_nonneg(lo, hi),
    ensures
        region_dims(lo, hi).size_x() == span(lo.x as int, hi.x as int),
        region_dims(lo, hi).size_y() == span(lo.y as int, hi.y as int),
        region_dims(lo, hi).size_z() == span(lo.z as int, hi.z as int),
{
}

/// Scanning cell `(x, y, z)` of the box: it is the cell at its own place, its
/// place is in the box, and the next cell of the row is at the next place.
pub proof fn lemma_region_scan_step(lo: ivec3, hi: ivec3, x: int, y: int, z: int)
    requires
        corners_nonneg(lo, hi),
        in_region(lo, hi, x, y, z),
    ensures
        region_cell(lo, hi, region_index(lo, hi, x, y, z)) == (x, y, z),
        0 <= region_index(lo, hi, x, y, z) < volume(region_dims(lo, hi)),
        region_index(lo, hi, x + 1, y, z) == region_index(lo, hi, x, y, z) + 1,
{
    let rd = region_dims(lo, hi);
    lemma_region_dims(lo, hi);
    lemma_cell_of_flat_index(rd, x - lo.x, y - lo.y, z - lo.z);
    crate::array3d::lemma_flat_index_bounds(
        rd.size_x() as int,
        rd.size_y() as int,
        rd.size_z() as int,
        x - lo.x,
        y - lo.y,
        z - lo.z,
    );
}

/// The place after the end of a row is the start of the next row.
pub proof fn lemma_region_row_end(lo: ivec3, hi: ivec3, y: int, z: int)
    requires
        corners_nonneg(lo, hi),
    ensures
        region_index(lo, hi, lo.x + span(lo.x as int, hi.x as int), y, z) == region_index(
            lo,
            hi,
            lo.x as int,
            y + 1,
            z,
        ),
{
    lemma_region_dims(lo, hi);
    let bx = span(lo.x as int, hi.x as int);
    let by = span(lo.y as int, hi.y as int);
    assert(bx + (y - lo.y) * bx == 0 + (y + 1 - lo.y) * bx) by (nonlinear_arith);
}

/// The place after the end of a layer is the start of the next layer.
pub proof fn lemma_region_layer_end(lo: ivec3, hi: ivec3, z: int)
    requires
        corners_nonneg(lo, hi),
    ensures
        region_index(lo, hi, lo.x as int, lo.y + span(lo.y as int, hi.y as int), z) == region_index(
            lo,
            hi,
            lo.x as int,
            lo.y as int,
            z + 1,
        ),
{
    lemma_region_dims(lo, hi);
    let bx = span(lo.x as int, hi.x as int);
    let by = span(lo.y as int, hi.y as int);
    assert(by * bx + (z - lo.z) * bx * by == (z + 1 - lo.z) * bx * by) by (nonlinear_arith);
}

/// The place after the last layer is the number of cells of the box.
pub proof fn lemma_region_scan_end(lo: ivec3, hi: ivec3)
    requires
        corners_nonneg(lo, hi),
    ensures
        region_index(lo, hi, lo.x as int, lo.y as int, lo.z + span(lo.z as int, hi.z as int))
            == volume(region_dims(lo, hi)),
{
    lemma_region_dims(lo, hi);
    let bx = span(lo.x as int, hi.x as int);
    let by = span(lo.y as int, hi.y as int);
    let bz = span(lo.z as int, hi.z as int);
    assert(0 + 0 * bx + bz * bx * by == bx * by * bz) by (nonlinear_arith);
}

/// Fewer cells scanned give no more allocations.
pub proof fn lemma_allocations_monotone<B: BlockRef, D: Dim3>(
    w: Array3D<B, D>,
    lo: ivec3,
    hi: ivec3,
    static_size: u32,
    a: nat,
    b: nat,
)
    requires
        a <= b,
    ensures
        allocations_before(w, lo, hi, static_size, a) <= allocations_before(w, lo, hi, static_size, b),
    decreases b,
{
    if a < b {
        lemma_allocations_monotone(w, lo, hi, static_size, a, (b - 1) as nat);
    }
}

/// Every flat position of a grid holds a cell of the grid.
pub proof fn lemma_cell_of_in_grid<D: Dim3>(d: D, p: int)
    requires
        0 <= p < volume(d),
    ensures
        in_grid(d, cell_of(d, p).0, cell_of(d, p).1, cell_of(d, p).2),
{
    let sx = d.size_x() as int;
    let sy = d.size_y() as int;
    let sz = d.size_z() as int;
    assert(sx > 0 && sy > 0 && sz > 0) by (nonlinear_arith)
        requires
            0 <= p < sx * sy * sz,
            sx >= 0,
            sy >= 0,
            sz >= 0,
    ;
    assert(sx * sy > 0) by (nonlinear_arith)
        requires
            sx > 0,
            sy > 0,
    ;
    vstd::arithmetic::div_mod::lemma_fundamental_div_mod(p, sx * sy);
    vstd::arithmetic::div_mod::lemma_div_pos_is_pos(p, sx * sy);
    vstd::arithmetic::div_mod::lemma_div_pos_is_pos(p, sx);
    assert(p / (sx * sy) < sz) by (nonlinear_arith)
        requires
            p == (sx * sy) * (p / (sx * sy)) + p % (sx * sy),
            0 <= p % (sx * sy),
            p < sx * sy * sz,
            sx * sy > 0,
    ;
}

/// The scan of the first `n` cells only names cells of the world that need
/// a light update, when the world fits the entries' coordinates.
pub proof fn lemma_scanned_updates_sound<B: BlockRef, E: RadianceEntry, D: Dim3>(
    w: Array3D<B, D>,
    offset: int,
    n: nat,
)
    requires
        n <= volume(w.dims),
        w.dims.size_x() <= E::coord_limit() + 1,
        w.dims.size_y() <= E::coord_limit() + 1,
        w.dims.size_z() <= E::coord_limit() + 1,
    ensures
        forall|i: int|
            0 <= i < scanned_updates::<B, E, D>(w, offset, n).len() ==> {
                let c = (#[trigger] scanned_updates::<B, E, D>(w, offset, n)[i]).cell();
                &&& in_grid(w.dims, c.0, c.1, c.2)
                &&& needs_light_update(w, offset, c.0, c.1, c.2)
            },
    decreases n,
{
    if n > 0 {
        lemma_scanned_updates_sound::<B, E, D>(w, offset, (n - 1) as nat);
        lemma_cell_of_in_grid(w.dims, n - 1);
        let prev = scanned_updates::<B, E, D>(w, offset, (n - 1) as nat);
        let c = cell_of(w.dims, n - 1);
        let cur = scanned_updates::<B, E, D>(w, offset, n);
        E::lemma_cell_of_cell(c.0, c.1, c.2);
        assert forall|i: int| 0 <= i < cur.len() implies {
            let e = (#[trigger] cur[i]).cell();
            &&& in_grid(w.dims, e.0, e.1, e.2)
            &&& needs_light_update(w, offset, e.0, e.1, e.2)
        } by {
            if i < prev.len() {
                assert(cur[i] == prev[i]);
            } else {
                assert(cur[i] == E::of_cell(c.0, c.1, c.2));
            }
        }
    }
}

/// The cell stored at flat position `p` is stored at `p`.
pub proof fn lemma_flat_index_cell_of<D: Dim3>(d: D, p: int)
    requires
        0 <= p < volume(d),
    ensures
        flat_index(d, cell_of(d, p).0, cell_of(d, p).1, cell_of(d, p).2) == p,
{
    let sx = d.size_x() as int;
    let sy = d.size_y() as int;
    let sz = d.size_z() as int;
    assert(sx > 0 && sy > 0) by (nonlinear_arith)
        requires
            0 <= p < sx * sy * sz,
            sx >= 0,
            sy >= 0,
            sz >= 0,
    ;
    let q = p / sx;
    vstd::arithmetic::div_mod::lemma_fundamental_div_mod(p, sx);
    vstd::arithmetic::div_mod::lemma_fundamental_div_mod(q, sy);
    vstd::arithmetic::div_mod::lemma_div_denominator(p, sx, sy);
    let x = p % sx;
    let y = q % sy;
    let z = q / sy;
    assert(cell_of(d, p) == (x, y, z));
    assert(x + y * sx + z * sx * sy == p) by (nonlinear_arith)
        requires
            p == sx * q + x,
            q == sy * z + y,
    ;
}

/// The scan of the first `n` cells names distinct cells, each stored before
/// position `n`, and has at most `n` entries, when the world fits the entries'
/// coordinates.
pub proof fn lemma_scanned_updates_distinct<B: BlockRef, E: RadianceEntry, D: Dim3>(
    w: Array3D<B, D>,
    offset: int,
    n: nat,
)
    requires
        n <= volume(w.dims),
        w.dims.size_x() <= E::coord_limit() + 1,
        w.dims.size_y() <= E::coord_limit() + 1,
        w.dims.size_z() <= E::coord_limit() + 1,
    ensures
        scanned_updates::<B, E, D>(w, offset, n).len() <= n,
        forall|i: int|
            0 <= i < scanned_updates::<B, E, D>(w, offset, n).len() ==> {
                let c = (#[trigger] scanned_updates::<B, E, D>(w, offset, n)[i]).cell();
                &&& in_grid(w.dims, c.0, c.1, c.2)
                &&& 0 <= flat_index(w.dims, c.0, c.1, c.2) < n
            },
        forall|i: int, j: int|
            0 <= i < j < scanned_updates::<B, E, D>(w, offset, n).len() ==> (#[trigger] scanned_updates::<
                B,
                E,
                D,
            >(w, offset, n)[i]).cell() != (#[trigger] scanned_updates::<B, E, D>(w, offset, n)[j]).cell(),
    decreases n,
{
    if n > 0 {
        let d = w.dims;
        lemma_scanned_updates_distinct::<B, E, D>(w, offset, (n - 1) as nat);
        lemma_cell_of_in_grid(d, n - 1);
        lemma_flat_index_cell_of(d, n - 1);
        let prev = scanned_updates::<B, E, D>(w, offset, (n - 1) as nat);
        let cur = scanned_updates::<B, E, D>(w, offset, n);
        let c = cell_of(d, n - 1);
        E::lemma_cell_of_cell(c.0, c.1, c.2);
        assert forall|i: int| 0 <= i < cur.len() implies {
            let e = (#[trigger] cur[i]).cell();
            &&& in_grid(d, e.0, e.1, e.2)
            &&& 0 <= flat_index(d, e.0, e.1, e.2) < n
        } by {
            if i < prev.len() {
                assert(cur[i] == prev[i]);
            } else {
                assert(cur[i] == E::of_cell(c.0, c.1, c.2));
            }
        }
        assert forall|i: int, j: int| 0 <= i < j < cur.len() implies (#[trigger] cur[i]).cell() != (
        #[trigger] cur[j]).cell() by {
            assert(cur[i] == prev[i]);
            if j < prev.len() {
                assert(cur[j] == prev[j]);
            } else {
                assert(cur[j] == E::of_cell(c.0, c.1, c.2));
                let e = prev[i].cell();
                assert(flat_index(d, e.0, e.1, e.2) < n - 1);
            }
        }
    }
}

/// A frame's light updates name each scanned cell once, and number at most
/// the cells of the world plus the requested updates.
pub proof fn lemma_radiance_update_list_bounds<B: BlockRef, E: RadianceEntry, D: Dim3>(
    w: Array3D<B, D>,
    offset: int,
    specials: Seq<E>,
)
    requires
        w.dims.size_x() <= E::coord_limit() + 1,
        w.dims.size_y() <= E::coord_limit() + 1,
        w.dims.size_z() <= E::coord_limit() + 1,
    ensures
        radiance_update_list(w, offset, specials).len() <= volume(w.dims) + specials.len(),
        ({
            let picked = scanned_updates::<B, E, D>(w, offset, volume(w.dims) as nat);
            forall|i: int, j: int|
                0 <= i < j < picked.len() ==> (#[trigger] picked[i]).cell() != (#[trigger] picked[j]).cell()
        }),
{
    let n = volume(w.dims);
    assert(n >= 0) by (nonlinear_arith)
        requires
            n == w.dims.size_x() * w.dims.size_y() * w.dims.size_z(),
    ;
    lemma_scanned_updates_distinct::<B, E, D>(w, offset, n as nat);
    lemma_unpicked_specials_len(w, offset, specials, specials.len());
}

/// At most `n` of the first `n` requested updates are kept.
pub proof fn lemma_unpicked_specials_len<B: BlockRef, E: RadianceEntry, D: Dim3>(
    w: Array3D<B, D>,
    offset: int,
    s: Seq<E>,
    n: nat,
)
    ensures
        unpicked_specials(w, offset, s, n).len() <= n,
    decreases n,
{
    if n > 0 {
        lemma_unpicked_specials_len(w, offset, s, (n - 1) as nat);
    }
}

/// The scan of the first `n` cells holds the entry of every cell among them
/// that needs a light update.
pub proof fn lemma_scanned_updates_complete<B: BlockRef, E: RadianceEntry, D: Dim3>(
    w: Array3D<B, D>,
    offset: int,
    n: nat,
    p: int,
)
    requires
        0 <= p < n,
        needs_light_update(w, offset, cell_of(w.dims, p).0, cell_of(w.dims, p).1, cell_of(w.dims, p).2),
    ensures
        scanned_updates::<B, E, D>(w, offset, n).contains(
            E::of_cell(cell_of(w.dims, p).0, cell_of(w.dims, p).1, cell_of(w.dims, p).2),
        ),
    decreases n,
{
    let c = cell_of(w.dims, p);
    let cur = scanned_updates::<B, E, D>(w, offset, n);
    if p == n - 1 {
        assert(cur[cur.len() - 1] == E::of_cell(c.0, c.1, c.2));
    } else {
        lemma_scanned_updates_complete::<B, E, D>(w, offset, (n - 1) as nat, p);
        let prev = scanned_updates::<B, E, D>(w, offset, (n - 1) as nat);
        let k = choose|k: int| 0 <= k < prev.len() && prev[k] == E::of_cell(c.0, c.1, c.2);
        assert(cur[k] == prev[k]);
    }
}

/// A cell on the frame's layer parity with a block in any of the 27 cells
/// around it (itself included, one step at most along each axis) is among
/// the frame's light updates.
pub proof fn lemma_cell_near_block_is_picked<B: BlockRef, E: RadianceEntry, D: Dim3>(
    w: Array3D<B, D>,
    offset: int,
    specials: Seq<E>,
    x: int,
    y: int,
    z: int,
    dx: int,
    dy: int,
    dz: int,
)
    requires
        in_grid(w.dims, x, y, z),
        -1 <= dx <= 1,
        -1 <= dy <= 1,
        -1 <= dz <= 1,
        in_grid(w.dims, x + dx, y + dy, z + dz),
        w.at(x + dx, y + dy, z + dz).id() > 0,
        z >= offset,
        (z - offset) % 2 == 0,
    ensures
        radiance_update_list(w, offset, specials).contains(E::of_cell(x, y, z)),
{
    let d = w.dims;
    assert(solid_at(w, x, y, z, dx, dy, dz));
    assert(solid_near(w, x, y, z));
    crate::array3d::lemma_flat_index_bounds(d.size_x() as int, d.size_y() as int, d.size_z() as int, x, y, z);
    lemma_cell_of_flat_index(d, x, y, z);
    let p = flat_index(d, x, y, z);
    lemma_scanned_updates_complete::<B, E, D>(w, offset, volume(d) as nat, p);
    let picked = scanned_updates::<B, E, D>(w, offset, volume(d) as nat);
    let list = radiance_update_list(w, offset, specials);
    let k = choose|k: int| 0 <= k < picked.len() && picked[k] == E::of_cell(x, y, z);
    assert(list[k] == picked[k]);
}

/// A cell that needs a light update has a block in one of the cells of the
/// world at most one step away from it along each axis.
pub proof fn lemma_needs_update_has_block_near<B: BlockRef, D: Dim3>(
    w: Array3D<B, D>,
    offset: int,
    x: int,
    y: int,
    z: int,
)
    requires
        in_grid(w.dims, x, y, z),
        needs_light_update(w, offset, x, y, z),
    ensures
        exists|a: int, b: int, c: int|
            #![trigger w.at(a, b, c)]
            in_grid(w.dims, a, b, c) && -1 <= a - x <= 1 && -1 <= b - y <= 1 && -1 <= c - z <= 1
                && w.at(a, b, c).id() > 0,
{
    let d = w.dims;
    let (dx, dy, dz) = choose|dx: int, dy: int, dz: int|
        -1 <= dx <= 1 && -1 <= dy <= 1 && -1 <= dz <= 1 && #[trigger] solid_at(w, x, y, z, dx, dy, dz);
    let a = clamp_index(x + dx, d.size_x() as int);
    let b = clamp_index(y + dy, d.size_y() as int);
    let c = clamp_index(z + dz, d.size_z() as int);
    assert(in_grid(d, a, b, c));
    assert(w.at(a, b, c).id() > 0);
}

/// The requested updates kept after the scan name cells that the scan does
/// not pick, and each is one of the first `n` requests.
pub proof fn lemma_unpicked_specials_sound<B: BlockRef, E: RadianceEntry, D: Dim3>(
    w: Array3D<B, D>,
    offset: int,
    s: Seq<E>,
    n: nat,
)
    requires
        n <= s.len(),
    ensures
        forall|j: int|
            0 <= j < unpicked_specials(w, offset, s, n).len() ==> {
                let u = #[trigger] unpicked_specials(w, offset, s, n)[j];
                &&& !needs_light_update(w, offset, u.cell().0, u.cell().1, u.cell().2)
                &&& exists|k: int| 0 <= k < n && s[k] == u
            },
    decreases n,
{
    if n > 0 {
        lemma_unpicked_specials_sound(w, offset, s, (n - 1) as nat);
        let prev = unpicked_specials(w, offset, s, (n - 1) as nat);
        let cur = unpicked_specials(w, offset, s, n);
        assert forall|j: int| 0 <= j < cur.len() implies {
            let u = #[trigger] cur[j];
            &&& !needs_light_update(w, offset, u.cell().0, u.cell().1, u.cell().2)
            &&& exists|k: int| 0 <= k < n && s[k] == u
        } by {
            if j < prev.len() {
                assert(cur[j] == prev[j]);
                let k = choose|k: int| 0 <= k < n - 1 && s[k] == prev[j];
                assert(0 <= k < n && s[k] == cur[j]);
            } else {
                assert(cur[j] == s[n - 1]);
            }
        }
    }
}

/// A requested update is added to a frame's light updates only when the scan
/// did not already pick its cell: no requested entry of the list names a
/// cell that a scanned entry names.
pub proof fn lemma_specials_never_repeat_picked<B: BlockRef, E: RadianceEntry, D: Dim3>(
    w: Array3D<B, D>,
    offset: int,
    specials: Seq<E>,
)
    requires
        w.dims.size_x() <= E::coord_limit() + 1,
        w.dims.size_y() <= E::coord_limit() + 1,
        w.dims.size_z() <= E::coord_limit() + 1,
    ensures
        ({
            let picked = scanned_updates::<B, E, D>(w, offset, volume(w.dims) as nat);
            let added = unpicked_specials(w, offset, specials, specials.len());
            &&& radiance_update_list(w, offset, specials) == picked + added
            &&& forall|i: int, j: int|
                0 <= i < picked.len() && 0 <= j < added.len() ==> (#[trigger] picked[i]).cell() != (
                #[trigger] added[j]).cell()
        }),
{
    let n = volume(w.dims);
    assert(n >= 0) by (nonlinear_arith)
        requires
            n == w.dims.size_x() * w.dims.size_y() * w.dims.size_z(),
    ;
    lemma_scanned_updates_sound::<B, E, D>(w, offset, n as nat);
    lemma_unpicked_specials_sound(w, offset, specials, specials.len());
}

/// A cell of the box that gets a block of its own gets an entry from the
/// counter on, below the counter after the box.
pub proof fn lemma_blockified_entry_range<B: BlockRef, D: Dim3>(
    w: Array3D<B, D>,
    lo: ivec3,
    hi: ivec3,
    static_size: u32,
    counter: int,
    x: int,
    y: int,
    z: int,
)
    requires
        corners_nonneg(lo, hi),
        in_region(lo, hi, x, y, z),
        takes_palette_entry(w.at(x, y, z), static_size),
        counter >= 0,
        counter + allocations_before(w, lo, hi, static_size, volume(region_dims(lo, hi)) as nat)
            <= PALETTE_ENTRY_LIMIT,
    ensures
        counter <= blockified(w, lo, hi, static_size, counter, x, y, z).id() < counter
            + allocations_before(w, lo, hi, static_size, volume(region_dims(lo, hi)) as nat),
        blockified(w, lo, hi, static_size, counter, x, y, z).wrapped()
            == blockified(w, lo, hi, static_size, counter, x, y, z).id(),
{
    lemma_region_scan_step(lo, hi, x, y, z);
    let k = region_index(lo, hi, x, y, z);
    assert(allocations_before(w, lo, hi, static_size, (k + 1) as nat) == allocations_before(
        w,
        lo,
        hi,
        static_size,
        k as nat,
    ) + 1);
    lemma_allocations_monotone(w, lo, hi, static_size, (k + 1) as nat, volume(region_dims(lo, hi)) as nat);
    B::lemma_of_entry(counter + allocations_before(w, lo, hi, static_size, k as nat));
}

/// Blockifying the box from `lo2` to `hi2` after the box from `lo1` to `hi1`
/// (the world `w1` being the first pass's result, the counter having started
/// at `counter`, at or above the static entries): every cell that got a block
/// in the first pass keeps it, and every cell that gets one in the second
/// pass gets an entry above all entries of the first pass. So each cell of
/// the two boxes that referred to a static entry gets exactly one entry of
/// its own, and no entry is handed out twice.
pub proof fn lemma_blockify_passes_compose<B: BlockRef, D: Dim3>(
    w0: Array3D<B, D>,
    w1: Array3D<B, D>,
    lo1: ivec3,
    hi1: ivec3,
    lo2: ivec3,
    hi2: ivec3,
    static_size: u32,
    counter: int,
)
    requires
        w1.dims == w0.dims,
        corners_nonneg(lo1, hi1),
        corners_nonneg(lo2, hi2),
        static_size <= counter,
        counter + allocations_before(w0, lo1, hi1, static_size, volume(region_dims(lo1, hi1)) as nat)
            <= PALETTE_ENTRY_LIMIT,
        forall|x: int, y: int, z: int|
            in_grid(w0.dims, x, y, z) ==> #[trigger] w1.at(x, y, z) == blockified(
                w0,
                lo1,
                hi1,
                static_size,
                counter,
                x,
                y,
                z,
            ),
    ensures
        ({
            let c1 = counter + allocations_before(
                w0,
                lo1,
                hi1,
                static_size,
                volume(region_dims(lo1, hi1)) as nat,
            );
            &&& forall|x: int, y: int, z: int|
                #![trigger w1.at(x, y, z)]
                in_grid(w0.dims, x, y, z) && in_region(lo1, hi1, x, y, z) && takes_palette_entry(
                    w0.at(x, y, z),
                    static_size,
                ) ==> {
                    &&& counter <= w1.at(x, y, z).id() < c1
                    &&& blockified(w1, lo2, hi2, static_size, c1, x, y, z) == w1.at(x, y, z)
                }
            &&& forall|x: int, y: int, z: int|
                in_grid(w0.dims, x, y, z) && in_region(lo2, hi2, x, y, z) && takes_palette_entry(
                    w1.at(x, y, z),
                    static_size,
                ) && c1 + allocations_before(w1, lo2, hi2, static_size, volume(region_dims(lo2, hi2)) as nat)
                    <= PALETTE_ENTRY_LIMIT ==> #[trigger] blockified(w1, lo2, hi2, static_size, c1, x, y, z).id() >= c1
        }),
{
    let c1 = counter + allocations_before(w0, lo1, hi1, static_size, volume(region_dims(lo1, hi1)) as nat);
    assert forall|x: int, y: int, z: int|
        #![trigger w1.at(x, y, z)]
        in_grid(w0.dims, x, y, z) && in_region(lo1, hi1, x, y, z) && takes_palette_entry(
            w0.at(x, y, z),
            static_size,
        ) implies {
            &&& counter <= w1.at(x, y, z).id() < c1
            &&& blockified(w1, lo2, hi2, static_size, c1, x, y, z) == w1.at(x, y, z)
        } by {
        lemma_blockified_entry_range(w0, lo1, hi1, static_size, counter, x, y, z);
        assert(w1.at(x, y, z) == blockified(w0, lo1, hi1, static_size, counter, x, y, z));
        assert(!takes_palette_entry(w1.at(x, y, z), static_size));
    }
    assert forall|x: int, y: int, z: int|
        in_grid(w0.dims, x, y, z) && in_region(lo2, hi2, x, y, z) && takes_palette_entry(
            w1.at(x, y, z),
            static_size,
        ) && c1 + allocations_before(w1, lo2, hi2, static_size, volume(region_dims(lo2, hi2)) as nat)
            <= PALETTE_ENTRY_LIMIT implies #[trigger] blockified(w1, lo2, hi2, static_size, c1, x, y, z).id() >= c1 by {
        lemma_allocations_at_most(w0, lo1, hi1, static_size, 0);
        lemma_blockified_entry_range(w1, lo2, hi2, static_size, c1, x, y, z);
    }
}

/// Cells of the box that get blocks of their own get distinct palette
/// entries, all from the counter on and below the counter after the box.
pub proof fn lemma_blockified_entries_distinct<B: BlockRef, D: Dim3>(
    w: Array3D<B, D>,
    lo: ivec3,
    hi: ivec3,
    static_size: u32,
    counter: int,
    a: (int, int, int),
    b: (int, int, int),
)
    requires
        corners_nonneg(lo, hi),
        in_region(lo, hi, a.0, a.1, a.2),
        in_region(lo, hi, b.0, b.1, b.2),
        takes_palette_entry(w.at(a.0, a.1, a.2), static_size),
        takes_palette_entry(w.at(b.0, b.1, b.2), static_size),
        a != b,
        counter >= 0,
        counter + allocations_before(w, lo, hi, static_size, volume(region_dims(lo, hi)) as nat)
            <= PALETTE_ENTRY_LIMIT,
    ensures
        blockified(w, lo, hi, static_size, counter, a.0, a.1, a.2).id() != blockified(
            w,
            lo,
            hi,
            static_size,
            counter,
            b.0,
            b.1,
            b.2,
        ).id(),
        counter <= blockified(w, lo, hi, static_size, counter, a.0, a.1, a.2).id() < counter
            + allocations_before(w, lo, hi, static_size, volume(region_dims(lo, hi)) as nat),
{
    let total = volume(region_dims(lo, hi)) as nat;
    lemma_region_scan_step(lo, hi, a.0, a.1, a.2);
    lemma_region_scan_step(lo, hi, b.0, b.1, b.2);
    let ka = region_index(lo, hi, a.0, a.1, a.2);
    let kb = region_index(lo, hi, b.0, b.1, b.2);
    lemma_region_dims(lo, hi);
    if ka == kb {
        crate::array3d::lemma_flat_index_injective(
            region_dims(lo, hi),
            a.0 - lo.x,
            a.1 - lo.y,
            a.2 - lo.z,
            b.0 - lo.x,
            b.1 - lo.y,
            b.2 - lo.z,
        );
    }
    assert(allocations_before(w, lo, hi, static_size, (ka + 1) as nat) == allocations_before(
        w,
        lo,
        hi,
        static_size,
        ka as nat,
    ) + 1);
    assert(allocations_before(w, lo, hi, static_size, (kb + 1) as nat) == allocations_before(
        w,
        lo,
        hi,
        static_size,
        kb as nat,
    ) + 1);
    lemma_allocations_monotone(w, lo, hi, static_size, (ka + 1) as nat, total);
    lemma_allocations_monotone(w, lo, hi, static_size, (kb + 1) as nat, total);
    if ka < kb {
        lemma_allocations_monotone(w, lo, hi, static_size, (ka + 1) as nat, kb as nat);
    } else {
        lemma_allocations_monotone(w, lo, hi, static_size, (kb + 1) as nat, ka as nat);
    }
    B::lemma_of_entry(counter + allocations_before(w, lo, hi, static_size, ka as nat));
    B::lemma_of_entry(counter + allocations_before(w, lo, hi, static_size, kb as nat));
}
/// A copy of one block's voxels from one palette entry to another, in texels.
#[derive(Clone, Copy, Debug, Default, PartialEq, Eq)]
pub struct BlockCopy {
    pub src: uvec3,
    pub dst: uvec3,
    pub extent: uvec3,
}

/// The copy of the voxels of palette entry `src` into entry `dst`.
pub open spec fn block_copy(src: int, dst: int) -> BlockCopy {
    BlockCopy {
        src: Vec3 {
            x: (palette_xy(src).0 * BLOCK_SIZE) as u32,
            y: (palette_xy(src).1 * BLOCK_SIZE) as u32,
            z: 0,
        },
        dst: Vec3 {
            x: (palette_xy(dst).0 * BLOCK_SIZE) as u32,
            y: (palette_xy(dst).1 * BLOCK_SIZE) as u32,
            z: 0,
        },
        extent: Vec3 { x: BLOCK_SIZE, y: BLOCK_SIZE, z: BLOCK_SIZE },
    }
}

/// Copies queued while the first `k` cells of the scan of the box from `lo`
/// to `hi` get their entries: one for each cell that gets an entry of its
/// own while holding a block, from its old entry to its new one.
pub open spec fn copies_before<B: BlockRef, D: Dim3>(
    w: Array3D<B, D>,
    lo: ivec3,
    hi: ivec3,
    static_size: u32,
    counter: int,
    k: nat,
) -> Seq<BlockCopy>
    decreases k,
{
    if k == 0 {
        Seq::empty()
    } else {
        let c = region_cell(lo, hi, k - 1);
        let b = w.at(c.0, c.1, c.2);
        let prev = copies_before(w, lo, hi, static_size, counter, (k - 1) as nat);
        if takes_palette_entry(b, static_size) && b.id() != 0 {
            prev.push(
                block_copy(
                    b.id(),
                    counter + allocations_before(w, lo, hi, static_size, (k - 1) as nat),
                ),
            )
        } else {
            prev
        }
    }
}

/// Among the first `k` cells of the scan of the box from `lo` to `hi`, each
/// that refers to a static entry (one below `static_size`) refers to one
/// that the palette layout places (below `PALETTE_ENTRY_LIMIT`).
pub open spec fn placeable_before<B: BlockRef, D: Dim3>(
    w: Array3D<B, D>,
    lo: ivec3,
    hi: ivec3,
    static_size: u32,
    k: nat,
) -> bool
    decreases k,
{
    if k == 0 {
        true
    } else {
        let c = region_cell(lo, hi, k - 1);
        let b = w.at(c.0, c.1, c.2);
        &&& placeable_before(w, lo, hi, static_size, (k - 1) as nat)
        &&& takes_palette_entry(b, static_size) ==> b.wrapped() < PALETTE_ENTRY_LIMIT
    }
}

/// What holds of the first `b` cells of the scan holds of the first `a`.
pub proof fn lemma_placeable_prefix<B: BlockRef, D: Dim3>(
    w: Array3D<B, D>,
    lo: ivec3,
    hi: ivec3,
    static_size: u32,
    a: nat,
    b: nat,
)
    requires
        a <= b,
        placeable_before(w, lo, hi, static_size, b),
    ensures
        placeable_before(w, lo, hi, static_size, a),
    decreases b,
{
    if a < b {
        lemma_placeable_prefix(w, lo, hi, static_size, a, (b - 1) as nat);
    }
}

/// How many palette entries blockifying the box from `border_min` to
/// `border_max` (clamped into the world) hands out: one per cell that refers
/// to a static entry (one below `static_size`). `None` when such a cell
/// refers to an entry that the palette layout does not place.
pub fn box_allocations<B: BlockRef, D: Dim3>(
    world: &Array3D<B, D>,
    static_size: u32,
    border_min: ivec3,
    border_max: ivec3,
) -> (r: Option<usize>)
    requires
        world.wf(),
        1 <= world.dims.size_x() <= i32::MAX,
        1 <= world.dims.size_y() <= i32::MAX,
        1 <= world.dims.size_z() <= i32::MAX,
    ensures
        ({
            let lo = clamp_to_world(border_min, world.dims);
            let hi = clamp_to_world(border_max, world.dims);
            let n = volume(region_dims(lo, hi)) as nat;
            &&& r is Some <==> placeable_before(*world, lo, hi, static_size, n)
            &&& r matches Some(c) ==> c == allocations_before(*world, lo, hi, static_size, n)
        }),
{
    let dims = world.dims;
    let sx = dims.x() as i32;
    let sy = dims.y() as i32;
    let sz = dims.z() as i32;
    let lo = Vec3 {
        x: clamp_i32(border_min.x, sx),
        y: clamp_i32(border_min.y, sy),
        z: clamp_i32(border_min.z, sz),
    };
    let hi = Vec3 {
        x: clamp_i32(border_max.x, sx),
        y: clamp_i32(border_max.y, sy),
        z: clamp_i32(border_max.z, sz),
    };
    let ghost rd = region_dims(lo, hi);
    let ghost bx = span(lo.x as int, hi.x as int);
    let ghost by = span(lo.y as int, hi.y as int);
    let ghost bz = span(lo.z as int, hi.z as int);
    proof {
        assert(lo == clamp_to_world(border_min, dims));
        assert(hi == clamp_to_world(border_max, dims));
        lemma_region_dims(lo, hi);
        assert(region_index(lo, hi, lo.x as int, lo.y as int, lo.z as int) == 0) by (nonlinear_arith);
        assert(bx * by * bz <= sx * sy * sz) by (nonlinear_arith)
            requires
                0 <= bx <= sx,
                0 <= by <= sy,
                0 <= bz <= sz,
        ;
    }
    let mut count: usize = 0;
    let mut zz: i32 = lo.z;
    while zz <= hi.z
        invariant
            lo.z <= zz <= lo.z + bz,
            bx == span(lo.x as int, hi.x as int),
            by == span(lo.y as int, hi.y as int),
            bz == span(lo.z as int, hi.z as int),
            rd == region_dims(lo, hi),
            0 <= lo.x <= sx - 1,
            0 <= lo.y <= sy - 1,
            0 <= lo.z <= sz - 1,
            0 <= hi.x <= sx - 1,
            0 <= hi.y <= sy - 1,
            0 <= hi.z <= sz - 1,
            sx == dims.size_x(),
            sy == dims.size_y(),
            sz == dims.size_z(),
            world.wf(),
            world.dims == dims,
            volume(rd) <= usize::MAX,
            lo == clamp_to_world(border_min, dims),
            hi == clamp_to_world(border_max, dims),
            count == allocations_before(*world, lo, hi, static_size, region_index(lo, hi, lo.x as int, lo.y as int, zz as int) as nat),
            placeable_before(*world, lo, hi, static_size, region_index(lo, hi, lo.x as int, lo.y as int, zz as int) as nat),
        decreases hi.z - zz + 1,
    {
        let mut yy: i32 = lo.y;
        while yy <= hi.y
            invariant
                lo.z <= zz <= hi.z,
                lo.y <= yy <= lo.y + by,
                bx == span(lo.x as int, hi.x as int),
                by == span(lo.y as int, hi.y as int),
                bz == span(lo.z as int, hi.z as int),
                rd == region_dims(lo, hi),
                0 <= lo.x <= sx - 1,
                0 <= lo.y <= sy - 1,
                0 <= lo.z <= sz - 1,
                0 <= hi.x <= sx - 1,
                0 <= hi.y <= sy - 1,
                0 <= hi.z <= sz - 1,
                sx == dims.size_x(),
                sy == dims.size_y(),
                sz == dims.size_z(),
                world.wf(),
                world.dims == dims,
                volume(rd) <= usize::MAX,
                lo == clamp_to_world(border_min, dims),
                hi == clamp_to_world(border_max, dims),
                count == allocations_before(*world, lo, hi, static_size, region_index(lo, hi, lo.x as int, yy as int, zz as int) as nat),
                placeable_before(*world, lo, hi, static_size, region_index(lo, hi, lo.x as int, yy as int, zz as int) as nat),
            decreases hi.y - yy + 1,
        {
            let mut xx: i32 = lo.x;
            while xx <= hi.x
                invariant
                    lo.z <= zz <= hi.z,
                    lo.y <= yy <= hi.y,
                    lo.x <= xx <= lo.x + bx,
                    bx == span(lo.x as int, hi.x as int),
                    by == span(lo.y as int, hi.y as int),
                    bz == span(lo.z as int, hi.z as int),
                    rd == region_dims(lo, hi),
                    0 <= lo.x <= sx - 1,
                    0 <= lo.y <= sy - 1,
                    0 <= lo.z <= sz - 1,
                    0 <= hi.x <= sx - 1,
                    0 <= hi.y <= sy - 1,
                    0 <= hi.z <= sz - 1,
                    sx == dims.size_x(),
                    sy == dims.size_y(),
                    sz == dims.size_z(),
                    world.wf(),
                    world.dims == dims,
                    volume(rd) <= usize::MAX,
                    lo == clamp_to_world(border_min, dims),
                    hi == clamp_to_world(border_max, dims),
                    count == allocations_before(*world, lo, hi, static_size, region_index(lo, hi, xx as int, yy as int, zz as int) as nat),
                    placeable_before(*world, lo, hi, static_size, region_index(lo, hi, xx as int, yy as int, zz as int) as nat),
                decreases hi.x - xx + 1,
            {
                let block = *world.get(xx as usize, yy as usize, zz as usize);
                let ghost k = region_index(lo, hi, xx as int, yy as int, zz as int);
                proof {
                    lemma_region_scan_step(lo, hi, xx as int, yy as int, zz as int);
                    assert(region_cell(lo, hi, k) == (xx as int, yy as int, zz as int));
                    lemma_allocations_at_most(*world, lo, hi, static_size, k as nat);
                }
                let wrapped = block.wrapped_exec();
                if wrapped < static_size {
                    if wrapped >= 4160 {
                        proof {
                            assert(!placeable_before(*world, lo, hi, static_size, (k + 1) as nat));
                            if placeable_before(*world, lo, hi, static_size, volume(rd) as nat) {
                                lemma_placeable_prefix(
                                    *world,
                                    lo,
                                    hi,
                                    static_size,
                                    (k + 1) as nat,
                                    volume(rd) as nat,
                                );
                            }
                            assert(!placeable_before(*world, lo, hi, static_size, volume(rd) as nat));
                        }
                        return None;
                    }
                    count += 1;
                }
                xx += 1;
            }
            proof {
                lemma_region_row_end(lo, hi, yy as int, zz as int);
            }
            yy += 1;
        }
        proof {
            lemma_region_layer_end(lo, hi, zz as int);
        }
        zz += 1;
    }
    proof {
        lemma_region_scan_end(lo, hi);
    }
    Some(count)
}

/// At most `k` of the first `k` cells of the scan get an entry.
pub proof fn lemma_allocations_at_most<B: BlockRef, D: Dim3>(
    w: Array3D<B, D>,
    lo: ivec3,
    hi: ivec3,
    static_size: u32,
    k: nat,
)
    ensures
        allocations_before(w, lo, hi, static_size, k) <= k,
    decreases k,
{
    if k > 0 {
        lemma_allocations_at_most(w, lo, hi, static_size, (k - 1) as nat);
    }
}

/// Gives a palette entry of its own to every cell of the box from
/// `border_min` to `border_max` (clamped into the world) that refers to a
/// static entry (one below `static_size`): such cells get the entries from
/// `palette_counter` on, in scan order (X fastest, then Y, then Z); other
/// cells are kept. With `queue_copies`, a copy of the old entry's voxels into
/// the new one is queued for each such cell that held a block. Returns the
/// palette counter after the box.
pub fn blockify_box<B: BlockRef, D: Dim3>(
    world: &mut Array3D<B, D>,
    palette_counter: usize,
    static_size: u32,
    border_min: ivec3,
    border_max: ivec3,
    queue_copies: bool,
    copies: &mut Vec<BlockCopy>,
) -> (next: usize)
    requires
        old(world).wf(),
        1 <= old(world).dims.size_x() <= i32::MAX,
        1 <= old(world).dims.size_y() <= i32::MAX,
        1 <= old(world).dims.size_z() <= i32::MAX,
        ({
            let lo = clamp_to_world(border_min, old(world).dims);
            let hi = clamp_to_world(border_max, old(world).dims);
            placeable_before(*old(world), lo, hi, static_size, volume(region_dims(lo, hi)) as nat)
        }),
        ({
            let lo = clamp_to_world(border_min, old(world).dims);
            let hi = clamp_to_world(border_max, old(world).dims);
            palette_counter + allocations_before(
                *old(world),
                lo,
                hi,
                static_size,
                volume(region_dims(lo, hi)) as nat,
            ) <= PALETTE_ENTRY_LIMIT
        }),
    ensures
        ({
            let d = old(world).dims;
            let lo = clamp_to_world(border_min, d);
            let hi = clamp_to_world(border_max, d);
            let w = *old(world);
            let n = volume(region_dims(lo, hi)) as nat;
            &&& next == palette_counter + allocations_before(w, lo, hi, static_size, n)
            &&& final(world).wf()
            &&& final(world).dims == d
            &&& forall|x: int, y: int, z: int|
                in_grid(d, x, y, z) ==> #[trigger] final(world).at(x, y, z) == blockified(
                    w,
                    lo,
                    hi,
                    static_size,
                    palette_counter as int,
                    x,
                    y,
                    z,
                )
            &&& final(copies)@ == old(copies)@ + if queue_copies {
                copies_before(w, lo, hi, static_size, palette_counter as int, n)
            } else {
                Seq::empty()
            }
        }),
{
    let dims = world.dims;
    let sx = dims.x() as i32;
    let sy = dims.y() as i32;
    let sz = dims.z() as i32;
    let lo = Vec3 {
        x: clamp_i32(border_min.x, sx),
        y: clamp_i32(border_min.y, sy),
        z: clamp_i32(border_min.z, sz),
    };
    let hi = Vec3 {
        x: clamp_i32(border_max.x, sx),
        y: clamp_i32(border_max.y, sy),
        z: clamp_i32(border_max.z, sz),
    };
    let ghost w0 = *world;
    let ghost c0 = palette_counter as int;
    let ghost q0 = copies@;
    let mut counter = palette_counter;
    let ghost st = static_size;
    let ghost rd = region_dims(lo, hi);
    let ghost bx = span(lo.x as int, hi.x as int);
    let ghost by = span(lo.y as int, hi.y as int);
    let ghost bz = span(lo.z as int, hi.z as int);
    proof {
        assert(lo == clamp_to_world(border_min, dims));
        assert(hi == clamp_to_world(border_max, dims));
        lemma_region_dims(lo, hi);
        assert(region_index(lo, hi, lo.x as int, lo.y as int, lo.z as int) == 0) by (nonlinear_arith);
    }
    let mut zz: i32 = lo.z;
    while zz <= hi.z
        invariant
            lo.z <= zz <= lo.z + bz,
            bx == span(lo.x as int, hi.x as int),
            by == span(lo.y as int, hi.y as int),
            bz == span(lo.z as int, hi.z as int),
            rd == region_dims(lo, hi),
            0 <= lo.x <= sx - 1,
            0 <= lo.y <= sy - 1,
            0 <= lo.z <= sz - 1,
            0 <= hi.x <= sx - 1,
            0 <= hi.y <= sy - 1,
            0 <= hi.z <= sz - 1,
            sx == dims.size_x(),
            sy == dims.size_y(),
            sz == dims.size_z(),
            world.wf(),
            world.dims == dims,
            w0.dims == dims,
            w0.wf(),
            st == static_size,
            placeable_before(w0, lo, hi, st, volume(rd) as nat),
            c0 + allocations_before(w0, lo, hi, st, volume(rd) as nat) <= 4160,
            copies@ == q0 + if queue_copies {
                copies_before(w0, lo, hi, st, c0, region_index(lo, hi, lo.x as int, lo.y as int, zz as int) as nat)
            } else {
                Seq::empty()
            },
            counter == c0 + allocations_before(
                w0,
                lo,
                hi,
                st,
                region_index(lo, hi, lo.x as int, lo.y as int, zz as int) as nat,
            ),
            forall|x: int, y: int, z: int|
                in_grid(dims, x, y, z) ==> #[trigger] world.at(x, y, z) == if in_region(lo, hi, x, y, z)
                    && z < zz && takes_palette_entry(w0.at(x, y, z), st) {
                    B::of_entry(c0 + allocations_before(w0, lo, hi, st, region_index(lo, hi, x, y, z) as nat))
                } else {
                    w0.at(x, y, z)
                },
        decreases hi.z - zz + 1,
    {
        let mut yy: i32 = lo.y;
        while yy <= hi.y
            invariant
                lo.z <= zz <= hi.z,
                lo.y <= yy <= lo.y + by,
                bx == span(lo.x as int, hi.x as int),
                by == span(lo.y as int, hi.y as int),
                bz == span(lo.z as int, hi.z as int),
                rd == region_dims(lo, hi),
                0 <= lo.x <= sx - 1,
                0 <= lo.y <= sy - 1,
                0 <= lo.z <= sz - 1,
                0 <= hi.x <= sx - 1,
                0 <= hi.y <= sy - 1,
                0 <= hi.z <= sz - 1,
                sx == dims.size_x(),
                sy == dims.size_y(),
                sz == dims.size_z(),
                world.wf(),
                world.dims == dims,
                w0.dims == dims,
                w0.wf(),
                st == static_size,
                placeable_before(w0, lo, hi, st, volume(rd) as nat),
                c0 + allocations_before(w0, lo, hi, st, volume(rd) as nat) <= 4160,
                copies@ == q0 + if queue_copies {
                    copies_before(w0, lo, hi, st, c0, region_index(lo, hi, lo.x as int, yy as int, zz as int) as nat)
                } else {
                    Seq::empty()
                },
                counter == c0 + allocations_before(
                    w0,
                    lo,
                    hi,
                    st,
                    region_index(lo, hi, lo.x as int, yy as int, zz as int) as nat,
                ),
                forall|x: int, y: int, z: int|
                    in_grid(dims, x, y, z) ==> #[trigger] world.at(x, y, z) == if in_region(lo, hi, x, y, z)
                        && (z < zz || (z == zz && y < yy)) && takes_palette_entry(w0.at(x, y, z), st) {
                        B::of_entry(c0 + allocations_before(w0, lo, hi, st, region_index(lo, hi, x, y, z) as nat))
                    } else {
                        w0.at(x, y, z)
                    },
            decreases hi.y - yy + 1,
        {
            let mut xx: i32 = lo.x;
            while xx <= hi.x
                invariant
                    lo.z <= zz <= hi.z,
                    lo.y <= yy <= hi.y,
                    lo.x <= xx <= lo.x + bx,
                    bx == span(lo.x as int, hi.x as int),
                    by == span(lo.y as int, hi.y as int),
                    bz == span(lo.z as int, hi.z as int),
                    rd == region_dims(lo, hi),
                    0 <= lo.x <= sx - 1,
                    0 <= lo.y <= sy - 1,
                    0 <= lo.z <= sz - 1,
                    0 <= hi.x <= sx - 1,
                    0 <= hi.y <= sy - 1,
                    0 <= hi.z <= sz - 1,
                    sx == dims.size_x(),
                    sy == dims.size_y(),
                    sz == dims.size_z(),
                    world.wf(),
                    world.dims == dims,
                    w0.dims == dims,
                    w0.wf(),
                    st == static_size,
                    placeable_before(w0, lo, hi, st, volume(rd) as nat),
                    c0 + allocations_before(w0, lo, hi, st, volume(rd) as nat) <= 4160,
                    copies@ == q0 + if queue_copies {
                        copies_before(w0, lo, hi, st, c0, region_index(lo, hi, xx as int, yy as int, zz as int) as nat)
                    } else {
                        Seq::empty()
                    },
                    counter == c0 + allocations_before(
                        w0,
                        lo,
                        hi,
                        st,
                        region_index(lo, hi, xx as int, yy as int, zz as int) as nat,
                    ),
                    forall|x: int, y: int, z: int|
                        in_grid(dims, x, y, z) ==> #[trigger] world.at(x, y, z) == if in_region(lo, hi, x, y, z)
                            && (z < zz || (z == zz && (y < yy || (y == yy && x < xx))))
                            && takes_palette_entry(w0.at(x, y, z), st) {
                            B::of_entry(c0 + allocations_before(w0, lo, hi, st, region_index(lo, hi, x, y, z) as nat))
                        } else {
                            w0.at(x, y, z)
                        },
                decreases hi.x - xx + 1,
            {
                let current_block = *world.get(xx as usize, yy as usize, zz as usize);
                let ghost k = region_index(lo, hi, xx as int, yy as int, zz as int);
                proof {
                    lemma_region_scan_step(lo, hi, xx as int, yy as int, zz as int);
                    assert(region_cell(lo, hi, k) == (xx as int, yy as int, zz as int));
                    assert(current_block == w0.at(xx as int, yy as int, zz as int));
                    lemma_allocations_monotone(w0, lo, hi, st, (k + 1) as nat, volume(rd) as nat);
                    lemma_placeable_prefix(w0, lo, hi, st, (k + 1) as nat, volume(rd) as nat);
                }
                let wrapped = current_block.wrapped_exec();
                if wrapped < static_size {
                    proof {
                        current_block.lemma_small_wrapped();
                        B::lemma_of_entry(counter as int);
                    }
                    if queue_copies && wrapped != 0 {
                        let src_block = palette_position(wrapped as usize);
                        let dst_block = palette_position(counter);
                        copies.push(
                            BlockCopy {
                                src: Vec3 { x: src_block.x * BLOCK_SIZE, y: src_block.y * BLOCK_SIZE, z: 0 },
                                dst: Vec3 { x: dst_block.x * BLOCK_SIZE, y: dst_block.y * BLOCK_SIZE, z: 0 },
                                extent: Vec3 { x: BLOCK_SIZE, y: BLOCK_SIZE, z: BLOCK_SIZE },
                            },
                        );
                    }
                    let ghost before = *world;
                    world.set(xx as usize, yy as usize, zz as usize, B::of_entry_exec(counter));
                    proof {
                        crate::array3d::lemma_flat_index_bounds(
                            sx as int, sy as int, sz as int, xx as int, yy as int, zz as int);
                        assert forall|x: int, y: int, z: int| in_grid(dims, x, y, z) implies
                            #[trigger] world.at(x, y, z) == if in_region(lo, hi, x, y, z)
                            && (z < zz || (z == zz && (y < yy || (y == yy && x < xx + 1))))
                            && takes_palette_entry(w0.at(x, y, z), st) {
                            B::of_entry(c0 + allocations_before(w0, lo, hi, st, region_index(lo, hi, x, y, z) as nat))
                        } else {
                            w0.at(x, y, z)
                        } by {
                            crate::array3d::lemma_set_then_at(
                                before,
                                *world,
                                xx as int,
                                yy as int,
                                zz as int,
                                B::of_entry(c0 + allocations_before(w0, lo, hi, st, k as nat)),
                                x,
                                y,
                                z,
                            );
                        }
                    }
                    counter += 1;
                }
                proof {
                    assert(copies@ =~= q0 + if queue_copies {
                        copies_before(w0, lo, hi, st, c0, (k + 1) as nat)
                    } else {
                        Seq::empty()
                    });
                }
                xx += 1;
            }
            proof {
                lemma_region_row_end(lo, hi, yy as int, zz as int);
            }
            yy += 1;
        }
        proof {
            lemma_region_layer_end(lo, hi, zz as int);
        }
        zz += 1;
    }
    proof {
        lemma_region_scan_end(lo, hi);
    }
    counter
}

/// Copies into different palette entries write different texels.
pub proof fn lemma_block_copy_dst_injective(a: int, b: int, d: int, e: int)
    requires
        0 <= d <= PALETTE_ENTRY_LIMIT,
        0 <= e <= PALETTE_ENTRY_LIMIT,
        d != e,
    ensures
        block_copy(a, d).dst != block_copy(b, e).dst,
{
    lemma_palette_xy_inverse(d);
    lemma_palette_xy_inverse(e);
    let (dx, dy) = palette_xy(d);
    let (ex, ey) = palette_xy(e);
    assert(dy <= 65 && ey <= 65);
    if dx == ex {
        assert(dy != ey);
    }
}

/// Copy `q` reads a static block (an entry from 1 below `static_size`) and
/// writes an entry from `first` below `end`.
pub open spec fn copy_from_static_into(q: BlockCopy, static_size: u32, first: int, end: int) -> bool {
    exists|src: int, dst: int|
        {
            &&& 0 < src < static_size
            &&& first <= dst < end
            &&& q == #[trigger] block_copy(src, dst)
        }
}

/// Each copy queued while the first `k` cells of the box get their entries
/// reads a static block that held voxels and writes a block handed out in
/// that pass, and no two of them write the same block.
pub proof fn lemma_copies_sound<B: BlockRef, D: Dim3>(
    w: Array3D<B, D>,
    lo: ivec3,
    hi: ivec3,
    static_size: u32,
    counter: int,
    k: nat,
)
    requires
        placeable_before(w, lo, hi, static_size, k),
        counter >= 0,
        counter + allocations_before(w, lo, hi, static_size, k) <= PALETTE_ENTRY_LIMIT,
    ensures
        forall|i: int|
            0 <= i < copies_before(w, lo, hi, static_size, counter, k).len() ==> copy_from_static_into(
                #[trigger] copies_before(w, lo, hi, static_size, counter, k)[i],
                static_size,
                counter,
                counter + allocations_before(w, lo, hi, static_size, k),
            ),
        forall|i: int, j: int|
            0 <= i < j < copies_before(w, lo, hi, static_size, counter, k).len() ==> (#[trigger] copies_before(
                w,
                lo,
                hi,
                static_size,
                counter,
                k,
            )[i]).dst != (#[trigger] copies_before(w, lo, hi, static_size, counter, k)[j]).dst,
    decreases k,
{
    if k > 0 {
        let k1 = (k - 1) as nat;
        lemma_allocations_monotone(w, lo, hi, static_size, k1, k);
        lemma_copies_sound(w, lo, hi, static_size, counter, k1);
        let prev = copies_before(w, lo, hi, static_size, counter, k1);
        let cur = copies_before(w, lo, hi, static_size, counter, k);
        let end1 = counter + allocations_before(w, lo, hi, static_size, k1);
        let end = counter + allocations_before(w, lo, hi, static_size, k);
        let c = region_cell(lo, hi, k - 1);
        let b = w.at(c.0, c.1, c.2);
        assert forall|i: int| 0 <= i < prev.len() implies copy_from_static_into(
            #[trigger] prev[i],
            static_size,
            counter,
            end,
        ) by {
            assert(copy_from_static_into(prev[i], static_size, counter, end1));
            let (src, dst) = choose|src: int, dst: int|
                {
                    &&& 0 < src < static_size
                    &&& counter <= dst < end1
                    &&& prev[i] == #[trigger] block_copy(src, dst)
                };
            assert(prev[i] == block_copy(src, dst));
        }
        if takes_palette_entry(b, static_size) && b.id() != 0 {
            b.lemma_small_wrapped();
            assert(cur == prev.push(block_copy(b.id(), end1)));
            assert(copy_from_static_into(cur[prev.len() as int], static_size, counter, end));
            assert forall|i: int, j: int| 0 <= i < j < cur.len() implies (#[trigger] cur[i]).dst != (
            #[trigger] cur[j]).dst by {
                if j < prev.len() {
                    assert(cur[i] == prev[i] && cur[j] == prev[j]);
                } else {
                    assert(cur[i] == prev[i]);
                    assert(copy_from_static_into(prev[i], static_size, counter, end1));
                    let (src, dst) = choose|src: int, dst: int|
                        {
                            &&& 0 < src < static_size
                            &&& counter <= dst < end1
                            &&& prev[i] == #[trigger] block_copy(src, dst)
                        };
                    lemma_block_copy_dst_injective(src, b.id(), dst, end1);
                }
            }
            assert forall|i: int| 0 <= i < cur.len() implies copy_from_static_into(
                #[trigger] cur[i],
                static_size,
                counter,
                end,
            ) by {
                if i < prev.len() {
                    assert(cur[i] == prev[i]);
                }
            }
        } else {
            assert(cur == prev);
        }
    }
}

/// Palette positions number the palette row by row: the position of entry
/// `n` is in the row's range and gives `n` back.
pub proof fn lemma_palette_xy_inverse(n: int)
    requires
        n >= 0,
    ensures
        0 <= palette_xy(n).0 < BLOCK_PALETTE_SIZE_X,
        palette_xy(n).1 >= 0,
        palette_xy(n).0 + palette_xy(n).1 * (BLOCK_PALETTE_SIZE_X as int) == n,
{
    vstd::arithmetic::div_mod::lemma_fundamental_div_mod(n, BLOCK_PALETTE_SIZE_X as int);
}


} // verus!
