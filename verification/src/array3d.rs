//! A 3D array stored flat, X fastest, then Y, then Z, with its extent given
//! either at run time or as const generics.
use std::marker::PhantomData;
use crate::types::{Vec2, Vec3, Vec4};
use vstd::prelude::*;
use vstd::std_specs::convert::IntoSpec;
use vstd::std_specs::iter::IteratorSpec;

verus! {

/// Extent of a 3D grid, known at compile time or at run time.
pub trait Dim3: Copy + Clone + Default {
    /// Size along X, in the specification.
    spec fn size_x(&self) -> usize;

    /// Size along Y, in the specification.
    spec fn size_y(&self) -> usize;

    /// Size along Z, in the specification.
    spec fn size_z(&self) -> usize;

    /// Size along X axis.
    fn x(&self) -> (r: usize)
        ensures
            r == self.size_x(),
    ;

    /// Size along Y axis.
    fn y(&self) -> (r: usize)
        ensures
            r == self.size_y(),
    ;

    /// Size along Z axis.
    fn z(&self) -> (r: usize)
        ensures
            r == self.size_z(),
    ;

    /// Sizes along X and Y.
    fn xy(&self) -> (r: Vec2<usize>)
        ensures
            r == (Vec2 { x: self.size_x(), y: self.size_y() }),
    {
        Vec2 { x: self.x(), y: self.y() }
    }

    /// Sizes along X, Y and Z.
    fn xyz(&self) -> (r: Vec3<usize>)
        ensures
            r == (Vec3 { x: self.size_x(), y: self.size_y(), z: self.size_z() }),
    {
        Vec3 { x: self.x(), y: self.y(), z: self.z() }
    }

    /// Sizes along Y and Z (as the two components of the result).
    fn yz(&self) -> (r: Vec2<usize>)
        ensures
            r == (Vec2 { x: self.size_y(), y: self.size_z() }),
    {
        Vec2 { x: self.y(), y: self.z() }
    }

    /// Total number of elements (x * y * z).
    fn total_len(&self) -> (r: usize)
        requires
            self.size_x() * self.size_y() <= usize::MAX,
            self.size_x() * self.size_y() * self.size_z() <= usize::MAX,
        ensures
            r == self.size_x() * self.size_y() * self.size_z(),
    {
        let x = self.x();
        let y = self.y();
        let z = self.z();
        proof {
            lemma_product_prefix_fits(x as int, y as int, z as int);
        }
        x * y * z
    }
}

/// Number of cells of a grid of extent `d`.
pub open spec fn volume<D: Dim3>(d: D) -> int {
    d.size_x() * d.size_y() * d.size_z()
}

/// The products `x * y` and `x * y * z` of the extent fit in a `usize`.
pub open spec fn dims_fit<D: Dim3>(d: D) -> bool {
    &&& d.size_x() * d.size_y() <= usize::MAX
    &&& d.size_x() * d.size_y() * d.size_z() <= usize::MAX
}

/// `(x, y, z)` lies inside a grid of extent `d`.
pub open spec fn in_grid<D: Dim3>(d: D, x: int, y: int, z: int) -> bool {
    &&& 0 <= x < d.size_x()
    &&& 0 <= y < d.size_y()
    &&& 0 <= z < d.size_z()
}

/// Position of cell `(x, y, z)` in the flat storage: X fastest, then Y, then Z.
pub open spec fn flat_index<D: Dim3>(d: D, x: int, y: int, z: int) -> int {
    x + y * d.size_x() + z * d.size_x() * d.size_y()
}

/// When `a * b * c` fits in a `usize`, so does `a * b` (all of them non-negative).
proof fn lemma_product_prefix_fits(a: int, b: int, c: int)
    requires
        0 <= a,
        0 <= b,
        0 <= c,
        a * b * c <= usize::MAX,
    ensures
        c > 0 ==> a * b <= usize::MAX,
        0 <= a * b,
        0 <= a * b * c,
{
    assert(0 <= a * b) by (nonlinear_arith)
        requires
            0 <= a,
            0 <= b,
    ;
    assert(0 <= a * b * c) by (nonlinear_arith)
        requires
            0 <= a * b,
            0 <= c,
    ;
    assert(c > 0 ==> a * b <= a * b * c) by (nonlinear_arith)
        requires
            0 <= a * b,
            0 <= c,
    ;
}

/// An extent with at least one layer along Z fits in memory when its
/// number of cells does.
pub proof fn lemma_dims_fit<D: Dim3>(d: D)
    requires
        d.size_z() >= 1,
        d.size_x() * d.size_y() * d.size_z() <= usize::MAX,
    ensures
        dims_fit(d),
{
    lemma_product_prefix_fits(d.size_x() as int, d.size_y() as int, d.size_z() as int);
}

/// Cells are stored X fastest, then Y, then Z: cell `(0, 0, 0)` comes first,
/// the next cell along X comes next, a row of `size_x` cells is followed by
/// the next row, and a layer of `size_x * size_y` cells by the next layer.
pub proof fn lemma_flat_index_layout<D: Dim3>(d: D, x: int, y: int, z: int)
    ensures
        flat_index(d, 0, 0, 0) == 0,
        flat_index(d, x + 1, y, z) == flat_index(d, x, y, z) + 1,
        flat_index(d, x, y + 1, z) == flat_index(d, x, y, z) + d.size_x(),
        flat_index(d, x, y, z + 1) == flat_index(d, x, y, z) + d.size_x() * d.size_y(),
{
    let sx = d.size_x() as int;
    let sy = d.size_y() as int;
    assert(flat_index(d, 0, 0, 0) == 0) by (nonlinear_arith);
    assert((y + 1) * sx == y * sx + sx) by (nonlinear_arith);
    assert((z + 1) * sx * sy == z * sx * sy + sx * sy) by (nonlinear_arith);
}

/// Every cell of a grid has a flat position inside the storage.
pub proof fn lemma_flat_index_bounds(sx: int, sy: int, sz: int, x: int, y: int, z: int)
    requires
        0 <= x < sx,
        0 <= y < sy,
        0 <= z < sz,
    ensures
        0 <= x + y * sx + z * sx * sy < sx * sy * sz,
        0 <= y * sx,
        0 <= z * sx,
        z * sx <= z * sx * sy,
        0 <= z * sx * sy,
        y * sx <= x + y * sx + z * sx * sy,
{
    assert(0 <= y * sx) by (nonlinear_arith)
        requires
            0 <= y,
            0 <= sx,
    ;
    assert(x + y * sx < sx * sy) by (nonlinear_arith)
        requires
            0 <= x < sx,
            0 <= y < sy,
    ;
    assert(0 <= z * sx) by (nonlinear_arith)
        requires
            0 <= z,
            0 <= sx,
    ;
    assert(z * sx <= z * sx * sy && 0 <= z * sx * sy) by (nonlinear_arith)
        requires
            0 <= z * sx,
            1 <= sy,
    ;
    assert(z * sx * sy + sx * sy <= sx * sy * sz) by (nonlinear_arith)
        requires
            0 <= z < sz,
            0 <= sx,
            0 <= sy,
    ;
}

/// Distinct cells of a grid have distinct flat positions.
pub proof fn lemma_flat_index_injective<D: Dim3>(d: D, x: int, y: int, z: int, a: int, b: int, c: int)
    requires
        in_grid(d, x, y, z),
        in_grid(d, a, b, c),
        flat_index(d, x, y, z) == flat_index(d, a, b, c),
    ensures
        x == a,
        y == b,
        z == c,
{
    let sx = d.size_x() as int;
    let sy = d.size_y() as int;
    assert(x + y * sx < sx * sy) by (nonlinear_arith)
        requires
            0 <= x < sx,
            0 <= y < sy,
    ;
    assert(a + b * sx < sx * sy) by (nonlinear_arith)
        requires
            0 <= a < sx,
            0 <= b < sy,
    ;
    assert(0 <= x + y * sx && 0 <= a + b * sx) by (nonlinear_arith)
        requires
            0 <= x,
            0 <= y,
            0 <= a,
            0 <= b,
            0 <= sx,
    ;
    assert(z == c) by (nonlinear_arith)
        requires
            0 <= x + y * sx < sx * sy,
            0 <= a + b * sx < sx * sy,
            x + y * sx + z * sx * sy == a + b * sx + c * sx * sy,
            0 <= z,
            0 <= c,
    ;
    assert(y == b) by (nonlinear_arith)
        requires
            0 <= x < sx,
            0 <= a < sx,
            x + y * sx == a + b * sx,
            0 <= y,
            0 <= b,
    ;
}

/// Runtime dimensions for non-const sizes.
#[derive(Clone, Copy, Debug, Default)]
pub struct RuntimeDims {
    pub x: usize,
    pub y: usize,
    pub z: usize,
}

impl Dim3 for RuntimeDims {
    open spec fn size_x(&self) -> usize {
        self.x
    }

    open spec fn size_y(&self) -> usize {
        self.y
    }

    open spec fn size_z(&self) -> usize {
        self.z
    }

    fn x(&self) -> (r: usize) {
        self.x
    }

    fn y(&self) -> (r: usize) {
        self.y
    }

    fn z(&self) -> (r: usize) {
        self.z
    }
}

/// Compile-time dimensions using const generics.
#[derive(Clone, Copy, Debug, Default)]
pub struct ConstDims<const X: usize, const Y: usize, const Z: usize>;

impl<const X: usize, const Y: usize, const Z: usize> Dim3 for ConstDims<X, Y, Z> {
    open spec fn size_x(&self) -> usize {
        X
    }

    open spec fn size_y(&self) -> usize {
        Y
    }

    open spec fn size_z(&self) -> usize {
        Z
    }

    fn x(&self) -> (r: usize) {
        X
    }

    fn y(&self) -> (r: usize) {
        Y
    }

    fn z(&self) -> (r: usize) {
        Z
    }
}

/// Generic 3D array, parameterized by a Dim3, which allows runtime flexibility or template perfomance.
pub struct Array3D<T, D: Dim3> {
    pub data: Vec<T>,
    pub dims: D,
}

impl<T, D: Dim3> Array3D<T, D> {
    /// The storage holds one element per cell.
    pub open spec fn wf(&self) -> bool {
        &&& dims_fit(self.dims)
        &&& self.data@.len() == volume(self.dims)
    }

    /// The element of cell `(x, y, z)`.
    pub open spec fn at(&self, x: int, y: int, z: int) -> T {
        self.data@[flat_index(self.dims, x, y, z)]
    }

    /// Wraps `data` as an array of extent `dims`.
    fn from_boxed(dims: D, data: Vec<T>) -> (r: Self)
        requires
            dims_fit(dims),
            data@.len() == volume(dims),
        ensures
            r.wf(),
            r.dims == dims,
            r.data@ == data@,
    {
        Self { dims, data }
    }

    /// Computes flat index for (x, y, z).
    pub fn index_internal(&self, x: usize, y: usize, z: usize) -> (r: usize)
        requires
            dims_fit(self.dims),
            in_grid(self.dims, x as int, y as int, z as int),
        ensures
            r == flat_index(self.dims, x as int, y as int, z as int),
            r < volume(self.dims),
    {
        proof {
            lemma_flat_index_bounds(
                self.dims.size_x() as int,
                self.dims.size_y() as int,
                self.dims.size_z() as int,
                x as int,
                y as int,
                z as int,
            );
        }
        x + y * self.dims.x() + z * self.dims.x() * self.dims.y()
    }

    /// Returns the dimensions as a tuple.
    pub fn dimensions(&self) -> (r: (usize, usize, usize))
        ensures
            r == (self.dims.size_x(), self.dims.size_y(), self.dims.size_z()),
    {
        (self.dims.x(), self.dims.y(), self.dims.z())
    }

    /// Shared reference at (x, y, z).
    pub fn get(&self, x: usize, y: usize, z: usize) -> (r: &T)
        requires
            self.wf(),
            in_grid(self.dims, x as int, y as int, z as int),
        ensures
            *r == self.at(x as int, y as int, z as int),
    {
        &self.data[self.index_internal(x, y, z)]
    }

    /// Mutable reference at (x, y, z).
    pub fn get_mut(&mut self, x: usize, y: usize, z: usize) -> (r: &mut T)
        requires
            old(self).wf(),
            in_grid(old(self).dims, x as int, y as int, z as int),
        ensures
            *r == old(self).at(x as int, y as int, z as int),
            final(self).dims == old(self).dims,
            final(self).data@ == old(self).data@.update(
                flat_index(old(self).dims, x as int, y as int, z as int),
                *final(r),
            ),
    {
        let idx = self.index_internal(x, y, z);
        &mut self.data[idx]
    }

    /// Sets value at (x, y, z).
    pub fn set(&mut self, x: usize, y: usize, z: usize, value: T)
        requires
            old(self).wf(),
            in_grid(old(self).dims, x as int, y as int, z as int),
        ensures
            final(self).dims == old(self).dims,
            final(self).data@ == old(self).data@.update(
                flat_index(old(self).dims, x as int, y as int, z as int),
                value,
            ),
    {
        let idx = self.index_internal(x, y, z);
        self.data[idx] = value;
    }

    /// Shared reference at (x, y, z); the cell must be in the array.
    pub fn get_unchecked(&self, x: usize, y: usize, z: usize) -> (r: &T)
        requires
            self.wf(),
            in_grid(self.dims, x as int, y as int, z as int),
        ensures
            *r == self.at(x as int, y as int, z as int),
    {
        &self.data[self.index_internal(x, y, z)]
    }

    /// Mutable reference at (x, y, z); the cell must be in the array.
    pub fn get_unchecked_mut(&mut self, x: usize, y: usize, z: usize) -> (r: &mut T)
        requires
            old(self).wf(),
            in_grid(old(self).dims, x as int, y as int, z as int),
        ensures
            *r == old(self).at(x as int, y as int, z as int),
            final(self).dims == old(self).dims,
            final(self).data@ == old(self).data@.update(
                flat_index(old(self).dims, x as int, y as int, z as int),
                *final(r),
            ),
    {
        let idx = self.index_internal(x, y, z);
        &mut self.data[idx]
    }

    /// Sets value at (x, y, z); the cell must be in the array.
    pub fn set_unchecked(&mut self, x: usize, y: usize, z: usize, value: T)
        requires
            old(self).wf(),
            in_grid(old(self).dims, x as int, y as int, z as int),
        ensures
            final(self).dims == old(self).dims,
            final(self).data@ == old(self).data@.update(
                flat_index(old(self).dims, x as int, y as int, z as int),
                value,
            ),
    {
        *self.get_unchecked_mut(x, y, z) = value;
    }

    /// Immutable iterator over all elements.
    pub fn iter(&self) -> (r: std::slice::Iter<'_, T>)
        ensures
            r.remaining() == self.data@.map_values(|v: T| &v),
    {
        self.data.as_slice().iter()
    }

    /// All elements in storage order, for writing.
    pub fn iter_mut(&mut self) -> (r: &mut [T])
        ensures
            r@ == old(self).data@,
            final(self).data@ == final(r)@,
            final(self).dims == old(self).dims,
    {
        self.data.as_mut_slice()
    }

    /// Creates array via a generator function.
    pub fn from_fn<F: Fn() -> T>(dims: D, generator: F) -> (r: Self)
        requires
            dims_fit(dims),
            generator.requires(()),
        ensures
            r.wf(),
            r.dims == dims,
            forall|i: int| 0 <= i < r.data@.len() ==> generator.ensures((), #[trigger] r.data@[i]),
    {
        let len = dims.total_len();
        let mut data: Vec<T> = Vec::new();
        let mut i: usize = 0;
        while i < len
            invariant
                i <= len,
                data@.len() == i,
                generator.requires(()),
                forall|j: int| 0 <= j < i ==> generator.ensures((), #[trigger] data@[j]),
            decreases len - i,
        {
            data.push(generator());
            i += 1;
        }
        Self::from_boxed(dims, data)
    }

    /// Creates a read-only converting view.
    pub fn as_view<U>(&self) -> (r: Array3DView<'_, T, U, D>)
        ensures
            *r.array() == *self,
    {
        Array3DView { array: self, _phantom: PhantomData }
    }

    /// Creates a mutable converting view.
    pub fn as_view_mut<U>(&mut self) -> (r: Array3DViewMut<'_, T, U, D>)
        ensures
            *r.array() == *old(self),
            *final(self) == *final(r.array()),
    {
        Array3DViewMut { array: self, _phantom: PhantomData }
    }
}

impl<T: Clone, D: Dim3> Array3D<T, D> {
    /// Creates a new array with all elements cloned from `value`.
    pub fn new_filled(dims: D, value: T) -> (r: Self)
        requires
            dims_fit(dims),
        ensures
            r.wf(),
            r.dims == dims,
            forall|i: int| 0 <= i < r.data@.len() ==> cloned(value, #[trigger] r.data@[i]),
    {
        let len = dims.total_len();
        let data = vec![value; len];
        Self::from_boxed(dims, data)
    }

    /// Fills every element with `value`.
    pub fn fill(&mut self, value: T)
        ensures
            final(self).dims == old(self).dims,
            final(self).data@.len() == old(self).data@.len(),
            forall|i: int| 0 <= i < final(self).data@.len() ==> cloned(value, #[trigger] final(self).data@[i]),
    {
        let len = self.data.len();
        let mut i: usize = 0;
        while i < len
            invariant
                i <= len,
                len == self.data@.len(),
                self.dims == old(self).dims,
                forall|j: int| 0 <= j < i ==> cloned(value, #[trigger] self.data@[j]),
            decreases len - i,
        {
            self.data.set(i, value.clone());
            i += 1;
        }
    }

    /// Copies data from another array of same dims.
    pub fn copy_data_from(&mut self, other: &Self)
        requires
            old(self).data@.len() == other.data@.len(),
        ensures
            final(self).dims == old(self).dims,
            final(self).data@.len() == other.data@.len(),
            forall|i: int| 0 <= i < other.data@.len() ==> cloned(other.data@[i], #[trigger] final(self).data@[i]),
    {
        let len = self.data.len();
        let mut i: usize = 0;
        while i < len
            invariant
                i <= len,
                len == self.data@.len(),
                len == other.data@.len(),
                self.dims == old(self).dims,
                forall|j: int| 0 <= j < i ==> cloned(other.data@[j], #[trigger] self.data@[j]),
            decreases len - i,
        {
            self.data.set(i, other.data[i].clone());
            i += 1;
        }
    }

    /// Returns a cloned copy of the element at (x, y, z).
    pub fn get_cloned(&self, x: usize, y: usize, z: usize) -> (r: T)
        requires
            self.wf(),
            in_grid(self.dims, x as int, y as int, z as int),
        ensures
            cloned(self.at(x as int, y as int, z as int), r),
    {
        self.get(x, y, z).clone()
    }
}

impl<T: Clone + Default, D: Dim3> Array3D<T, D> {
    /// Creates array filled with `T::default()`.
    pub fn new_default(dims: D) -> (r: Self)
        requires
            dims_fit(dims),
        ensures
            r.wf(),
            r.dims == dims,
            exists|d: T|
                call_ensures(T::default, (), d) && forall|i: int|
                    0 <= i < r.data@.len() ==> cloned(d, #[trigger] r.data@[i]),
    {
        let d = T::default();
        Self::new_filled(dims, d)
    }
}

impl<T, D: Dim3, I: ToUsize3> std::ops::Index<I> for Array3D<T, D> {
    type Output = T;

    fn index(&self, index: I) -> (r: &T)
        ensures
            *r == self.at(index.coords().0 as int, index.coords().1 as int, index.coords().2 as int),
    {
        let (x, y, z) = index.to_usize3();
        self.get(x, y, z)
    }
}

impl<T, D: Dim3, I: ToUsize3> vstd::std_specs::core::IndexSpecImpl<I> for Array3D<T, D> {
    open spec fn index_req(&self, index: &I) -> bool {
        &&& self.wf()
        &&& in_grid(self.dims, index.coords().0 as int, index.coords().1 as int, index.coords().2 as int)
    }
}

/// `c` is a clone of `v`, and `r` is what `c.into()` gives.
pub open spec fn converted_from<T: Clone + Into<U>, U>(v: T, c: T, r: U) -> bool {
    &&& cloned(v, c)
    &&& (<T as IntoSpec<U>>::obeys_into_spec() ==> r == c.into_spec())
}

/// Read-only view converting element type via `Into<U>`.
pub struct Array3DView<'a, T, U, D: Dim3> {
    array: &'a Array3D<T, D>,
    _phantom: PhantomData<U>,
}

impl<'a, T, U, D: Dim3> Array3DView<'a, T, U, D> {
    /// The array seen through the view.
    pub closed spec fn array(&self) -> &'a Array3D<T, D> {
        self.array
    }
}

impl<'a, T, U, D: Dim3> Array3DView<'a, T, U, D> where T: Into<U> + Clone {
    /// The element at `index`, converted.
    pub fn get(&self, index: impl ToUsize3) -> (r: U)
        requires
            self.array().wf(),
            in_grid(self.array().dims, index.coords().0 as int, index.coords().1 as int, index.coords().2 as int),
        ensures
            exists|c: T| converted_from(self.array().at(index.coords().0 as int, index.coords().1 as int, index.coords().2 as int), c, r),
    {
        let (x, y, z) = index.to_usize3();
        let c = self.array.get(x, y, z).clone();
        let ghost witness = c;
        let r = c.into();
        proof {
            assert(converted_from(
                self.array().at(index.coords().0 as int, index.coords().1 as int, index.coords().2 as int),
                witness,
                r,
            ));
        }
        r
    }
}

/// Mutable view converting element type via `From<U>`.
pub struct Array3DViewMut<'a, T, U, D: Dim3> {
    array: &'a mut Array3D<T, D>,
    _phantom: PhantomData<U>,
}

impl<'a, T, U, D: Dim3> Array3DViewMut<'a, T, U, D> {
    /// The array seen through the view.
    pub closed spec fn array(&self) -> &'a mut Array3D<T, D> {
        self.array
    }

    /// Once the view is no longer used, the array it writes through holds what
    /// the view last saw.
    pub proof fn lemma_resolved(&self)
        requires
            has_resolved(*self),
        ensures
            *self.array() == *final(self.array()),
    {
    }

    /// Stores `value`, converted, at `index`.
    pub fn set(&mut self, index: impl ToUsize3, value: U) where T: From<U>
        requires
            old(self).array().wf(),
            in_grid(old(self).array().dims, index.coords().0 as int, index.coords().1 as int, index.coords().2 as int),
        ensures
            *final(final(self).array()) == *final(old(self).array()),
            final(self).array().dims == old(self).array().dims,
            exists|c: T|
                call_ensures(T::from, (value,), c) && final(self).array().data@ == old(self).array().data@.update(
                    flat_index(old(self).array().dims, index.coords().0 as int, index.coords().1 as int, index.coords().2 as int),
                    c,
                ),
    {
        let (x, y, z) = index.to_usize3();
        self.array.set(x, y, z, T::from(value));
    }

    /// The element at `index`, converted.
    pub fn get(&self, index: impl ToUsize3) -> (r: U) where T: Into<U> + Clone
        requires
            self.array().wf(),
            in_grid(self.array().dims, index.coords().0 as int, index.coords().1 as int, index.coords().2 as int),
        ensures
            exists|c: T| converted_from(self.array().at(index.coords().0 as int, index.coords().1 as int, index.coords().2 as int), c, r),
    {
        let (x, y, z) = index.to_usize3();
        let c = self.array.get(x, y, z).clone();
        let ghost witness = c;
        let r = c.into();
        proof {
            assert(converted_from(
                self.array().at(index.coords().0 as int, index.coords().1 as int, index.coords().2 as int),
                witness,
                r,
            ));
        }
        r
    }
}

/// Trait converting an indexable type into (usize, usize, usize).
pub trait ToUsize3 {
    /// The three coordinates, in the specification.
    spec fn coords(&self) -> (usize, usize, usize);

    /// The three coordinates.
    fn to_usize3(&self) -> (r: (usize, usize, usize))
        ensures
            r == self.coords(),
    ;
}

impl ToUsize3 for (usize, usize, usize) {
    open spec fn coords(&self) -> (usize, usize, usize) {
        (self.0, self.1, self.2)
    }

    fn to_usize3(&self) -> (r: (usize, usize, usize)) {
        (self.0, self.1, self.2)
    }
}

impl ToUsize3 for (i8, i8, i8) {
    open spec fn coords(&self) -> (usize, usize, usize) {
        (self.0 as usize, self.1 as usize, self.2 as usize)
    }

    fn to_usize3(&self) -> (r: (usize, usize, usize)) {
        (self.0 as usize, self.1 as usize, self.2 as usize)
    }
}

impl ToUsize3 for (i32, i32, i32) {
    open spec fn coords(&self) -> (usize, usize, usize) {
        (self.0 as usize, self.1 as usize, self.2 as usize)
    }

    fn to_usize3(&self) -> (r: (usize, usize, usize)) {
        (self.0 as usize, self.1 as usize, self.2 as usize)
    }
}

impl ToUsize3 for (isize, isize, isize) {
    open spec fn coords(&self) -> (usize, usize, usize) {
        (self.0 as usize, self.1 as usize, self.2 as usize)
    }

    fn to_usize3(&self) -> (r: (usize, usize, usize)) {
        (self.0 as usize, self.1 as usize, self.2 as usize)
    }
}

impl ToUsize3 for Vec3<i8> {
    open spec fn coords(&self) -> (usize, usize, usize) {
        (self.x as usize, self.y as usize, self.z as usize)
    }

    fn to_usize3(&self) -> (r: (usize, usize, usize)) {
        (self.x as usize, self.y as usize, self.z as usize)
    }
}

impl ToUsize3 for Vec3<i32> {
    open spec fn coords(&self) -> (usize, usize, usize) {
        (self.x as usize, self.y as usize, self.z as usize)
    }

    fn to_usize3(&self) -> (r: (usize, usize, usize)) {
        (self.x as usize, self.y as usize, self.z as usize)
    }
}

impl ToUsize3 for Vec4<i8> {
    open spec fn coords(&self) -> (usize, usize, usize) {
        (self.x as usize, self.y as usize, self.z as usize)
    }

    fn to_usize3(&self) -> (r: (usize, usize, usize)) {
        (self.x as usize, self.y as usize, self.z as usize)
    }
}

impl ToUsize3 for Vec4<i32> {
    open spec fn coords(&self) -> (usize, usize, usize) {
        (self.x as usize, self.y as usize, self.z as usize)
    }

    fn to_usize3(&self) -> (r: (usize, usize, usize)) {
        (self.x as usize, self.y as usize, self.z as usize)
    }
}

/// A triple of indices names the cell `(v.0, v.1, v.2)`.
pub proof fn lemma_usize_triple_position(v: (usize, usize, usize))
    ensures
        (v.coords().0 as int, v.coords().1 as int, v.coords().2 as int) == (v.0 as int, v.1 as int, v.2 as int),
{
}

/// A triple of `i8` coordinates, none negative, names the cell `(v.0, v.1, v.2)`.
pub proof fn lemma_i8_triple_position(v: (i8, i8, i8))
    requires
        v.0 >= 0,
        v.1 >= 0,
        v.2 >= 0,
    ensures
        (v.coords().0 as int, v.coords().1 as int, v.coords().2 as int) == (v.0 as int, v.1 as int, v.2 as int),
{
}

/// A triple of `i32` coordinates, none negative, names the cell `(v.0, v.1, v.2)`.
pub proof fn lemma_i32_triple_position(v: (i32, i32, i32))
    requires
        v.0 >= 0,
        v.1 >= 0,
        v.2 >= 0,
    ensures
        (v.coords().0 as int, v.coords().1 as int, v.coords().2 as int) == (v.0 as int, v.1 as int, v.2 as int),
{
}

/// A triple of `isize` coordinates, none negative, names the cell `(v.0, v.1, v.2)`.
pub proof fn lemma_isize_triple_position(v: (isize, isize, isize))
    requires
        v.0 >= 0,
        v.1 >= 0,
        v.2 >= 0,
    ensures
        (v.coords().0 as int, v.coords().1 as int, v.coords().2 as int) == (v.0 as int, v.1 as int, v.2 as int),
{
}

/// A `Vec3<i8>` position, no coordinate negative, names the cell `(v.x, v.y, v.z)`.
pub proof fn lemma_vec3_i8_position(v: Vec3<i8>)
    requires
        v.x >= 0,
        v.y >= 0,
        v.z >= 0,
    ensures
        (v.coords().0 as int, v.coords().1 as int, v.coords().2 as int) == (v.x as int, v.y as int, v.z as int),
{
}

/// A `Vec3<i32>` position, no coordinate negative, names the cell `(v.x, v.y, v.z)`.
pub proof fn lemma_vec3_i32_position(v: Vec3<i32>)
    requires
        v.x >= 0,
        v.y >= 0,
        v.z >= 0,
    ensures
        (v.coords().0 as int, v.coords().1 as int, v.coords().2 as int) == (v.x as int, v.y as int, v.z as int),
{
}

/// A `Vec4<i8>` position, no coordinate negative, names the cell `(v.x, v.y, v.z)` (the fourth component is ignored).
pub proof fn lemma_vec4_i8_position(v: Vec4<i8>)
    requires
        v.x >= 0,
        v.y >= 0,
        v.z >= 0,
    ensures
        (v.coords().0 as int, v.coords().1 as int, v.coords().2 as int) == (v.x as int, v.y as int, v.z as int),
{
}

/// A `Vec4<i32>` position, no coordinate negative, names the cell `(v.x, v.y, v.z)` (the fourth component is ignored).
pub proof fn lemma_vec4_i32_position(v: Vec4<i32>)
    requires
        v.x >= 0,
        v.y >= 0,
        v.z >= 0,
    ensures
        (v.coords().0 as int, v.coords().1 as int, v.coords().2 as int) == (v.x as int, v.y as int, v.z as int),
{
}

/// Writing cell `(x, y, z)` changes that cell to the written value and no
/// other cell.
pub proof fn lemma_set_then_at<T, D: Dim3>(
    a: Array3D<T, D>,
    b: Array3D<T, D>,
    x: int,
    y: int,
    z: int,
    v: T,
    qx: int,
    qy: int,
    qz: int,
)
    requires
        a.wf(),
        b.dims == a.dims,
        in_grid(a.dims, x, y, z),
        in_grid(a.dims, qx, qy, qz),
        b.data@ == a.data@.update(flat_index(a.dims, x, y, z), v),
    ensures
        b.wf(),
        b.at(qx, qy, qz) == if qx == x && qy == y && qz == z {
            v
        } else {
            a.at(qx, qy, qz)
        },
{
    let d = a.dims;
    lemma_flat_index_bounds(d.size_x() as int, d.size_y() as int, d.size_z() as int, x, y, z);
    lemma_flat_index_bounds(d.size_x() as int, d.size_y() as int, d.size_z() as int, qx, qy, qz);
    if flat_index(d, x, y, z) == flat_index(d, qx, qy, qz) {
        lemma_flat_index_injective(d, x, y, z, qx, qy, qz);
    }
}

} // verus!
