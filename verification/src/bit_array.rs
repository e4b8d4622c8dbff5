//! A 3D array of booleans packed into machine words.
use crate::array3d::{dims_fit, flat_index, in_grid, volume, Dim3, lemma_flat_index_bounds};
use vstd::prelude::*;

verus! {

/// A word of bits that a bit array stores its cells in.
pub trait BitWord: Copy + Sized {
    /// Bits per word.
    spec fn width() -> nat;

    /// Bit `b` of the word is set.
    spec fn bit_at(&self, b: usize) -> bool;

    /// Bits per word.
    fn width_exec() -> (r: usize)
        ensures
            r == Self::width(),
    ;

    /// A word holds at least one bit.
    proof fn lemma_width_positive()
        ensures
            Self::width() >= 1,
    ;

    /// A clone of a word is that word.
    proof fn lemma_clone_is_copy(a: Self, b: Self)
        requires
            cloned(a, b),
        ensures
            a == b,
    ;

    /// The word with no bit set.
    fn zero() -> (r: Self)
        ensures
            forall|b: usize| b < Self::width() ==> !r.bit_at(b),
    ;

    /// The word with every bit set.
    fn ones() -> (r: Self)
        ensures
            forall|b: usize| b < Self::width() ==> r.bit_at(b),
    ;

    /// Whether bit `b` is set.
    fn test(&self, b: usize) -> (r: bool)
        requires
            b < Self::width(),
        ensures
            r == self.bit_at(b),
    ;

    /// The word with bit `b` set to `v` and every other bit kept.
    fn with_bit(&self, b: usize, v: bool) -> (r: Self)
        requires
            b < Self::width(),
        ensures
            forall|i: usize| i < Self::width() ==> #[trigger] r.bit_at(i) == if i == b {
                v
            } else {
                self.bit_at(i)
            },
    ;
}

impl BitWord for u8 {
    open spec fn width() -> nat {
        8
    }

    open spec fn bit_at(&self, b: usize) -> bool {
        (*self >> (b as u8)) & 1u8 == 1u8
    }

    fn width_exec() -> (r: usize) {
        8
    }

    proof fn lemma_width_positive() {
    }

    proof fn lemma_clone_is_copy(a: Self, b: Self) {
    }

    fn zero() -> (r: Self) {
        assert forall|b: usize| b < 8 implies !(0u8).bit_at(b) by {
            let c = b as u8;
            assert((0u8 >> c) & 1u8 != 1u8) by (bit_vector);
        }
        0u8
    }

    fn ones() -> (r: Self) {
        assert forall|b: usize| b < 8 implies (!0u8).bit_at(b) by {
            let c = b as u8;
            assert(c < 8u8 ==> ((!0u8) >> c) & 1u8 == 1u8) by (bit_vector);
        }
        !0u8
    }

    fn test(&self, b: usize) -> (r: bool) {
        let w = *self;
        let c = b as u8;
        assert((w & (1u8 << c) != 0u8) == ((w >> c) & 1u8 == 1u8)) by (bit_vector)
            requires
                c < 8u8,
        ;
        (w & (1u8 << c)) != 0u8
    }

    fn with_bit(&self, b: usize, v: bool) -> (r: Self) {
        let w = *self;
        let c = b as u8;
        let r = if v {
            w | (1u8 << c)
        } else {
            w & !(1u8 << c)
        };
        assert forall|i: usize| i < 8 implies #[trigger] r.bit_at(i) == if i == b {
            v
        } else {
            w.bit_at(i)
        } by {
            let j = i as u8;
            assert(((w | (1u8 << c)) >> j) & 1u8 == 1u8 <==> (j == c || (w >> j) & 1u8 == 1u8))
                by (bit_vector)
                requires
                    c < 8u8,
                    j < 8u8,
            ;
            assert(((w & !(1u8 << c)) >> j) & 1u8 == 1u8 <==> (j != c && (w >> j) & 1u8 == 1u8))
                by (bit_vector)
                requires
                    c < 8u8,
                    j < 8u8,
            ;
        }
        r
    }
}

impl BitWord for u16 {
    open spec fn width() -> nat {
        16
    }

    open spec fn bit_at(&self, b: usize) -> bool {
        (*self >> (b as u16)) & 1u16 == 1u16
    }

    fn width_exec() -> (r: usize) {
        16
    }

    proof fn lemma_width_positive() {
    }

    proof fn lemma_clone_is_copy(a: Self, b: Self) {
    }

    fn zero() -> (r: Self) {
        assert forall|b: usize| b < 16 implies !(0u16).bit_at(b) by {
            let c = b as u16;
            assert((0u16 >> c) & 1u16 != 1u16) by (bit_vector);
        }
        0u16
    }

    fn ones() -> (r: Self) {
        assert forall|b: usize| b < 16 implies (!0u16).bit_at(b) by {
            let c = b as u16;
            assert(c < 16u16 ==> ((!0u16) >> c) & 1u16 == 1u16) by (bit_vector);
        }
        !0u16
    }

    fn test(&self, b: usize) -> (r: bool) {
        let w = *self;
        let c = b as u16;
        assert((w & (1u16 << c) != 0u16) == ((w >> c) & 1u16 == 1u16)) by (bit_vector)
            requires
                c < 16u16,
        ;
        (w & (1u16 << c)) != 0u16
    }

    fn with_bit(&self, b: usize, v: bool) -> (r: Self) {
        let w = *self;
        let c = b as u16;
        let r = if v {
            w | (1u16 << c)
        } else {
            w & !(1u16 << c)
        };
        assert forall|i: usize| i < 16 implies #[trigger] r.bit_at(i) == if i == b {
            v
        } else {
            w.bit_at(i)
        } by {
            let j = i as u16;
            assert(((w | (1u16 << c)) >> j) & 1u16 == 1u16 <==> (j == c || (w >> j) & 1u16 == 1u16))
                by (bit_vector)
                requires
                    c < 16u16,
                    j < 16u16,
            ;
            assert(((w & !(1u16 << c)) >> j) & 1u16 == 1u16 <==> (j != c && (w >> j) & 1u16 == 1u16))
                by (bit_vector)
                requires
                    c < 16u16,
                    j < 16u16,
            ;
        }
        r
    }
}

impl BitWord for u32 {
    open spec fn width() -> nat {
        32
    }

    open spec fn bit_at(&self, b: usize) -> bool {
        (*self >> (b as u32)) & 1u32 == 1u32
    }

    fn width_exec() -> (r: usize) {
        32
    }

    proof fn lemma_width_positive() {
    }

    proof fn lemma_clone_is_copy(a: Self, b: Self) {
    }

    fn zero() -> (r: Self) {
        assert forall|b: usize| b < 32 implies !(0u32).bit_at(b) by {
            let c = b as u32;
            assert((0u32 >> c) & 1u32 != 1u32) by (bit_vector);
        }
        0u32
    }

    fn ones() -> (r: Self) {
        assert forall|b: usize| b < 32 implies (!0u32).bit_at(b) by {
            let c = b as u32;
            assert(c < 32u32 ==> ((!0u32) >> c) & 1u32 == 1u32) by (bit_vector);
        }
        !0u32
    }

    fn test(&self, b: usize) -> (r: bool) {
        let w = *self;
        let c = b as u32;
        assert((w & (1u32 << c) != 0u32) == ((w >> c) & 1u32 == 1u32)) by (bit_vector)
            requires
                c < 32u32,
        ;
        (w & (1u32 << c)) != 0u32
    }

    fn with_bit(&self, b: usize, v: bool) -> (r: Self) {
        let w = *self;
        let c = b as u32;
        let r = if v {
            w | (1u32 << c)
        } else {
            w & !(1u32 << c)
        };
        assert forall|i: usize| i < 32 implies #[trigger] r.bit_at(i) == if i == b {
            v
        } else {
            w.bit_at(i)
        } by {
            let j = i as u32;
            assert(((w | (1u32 << c)) >> j) & 1u32 == 1u32 <==> (j == c || (w >> j) & 1u32 == 1u32))
                by (bit_vector)
                requires
                    c < 32u32,
                    j < 32u32,
            ;
            assert(((w & !(1u32 << c)) >> j) & 1u32 == 1u32 <==> (j != c && (w >> j) & 1u32 == 1u32))
                by (bit_vector)
                requires
                    c < 32u32,
                    j < 32u32,
            ;
        }
        r
    }
}

impl BitWord for u64 {
    open spec fn width() -> nat {
        64
    }

    open spec fn bit_at(&self, b: usize) -> bool {
        (*self >> (b as u64)) & 1u64 == 1u64
    }

    fn width_exec() -> (r: usize) {
        64
    }

    proof fn lemma_width_positive() {
    }

    proof fn lemma_clone_is_copy(a: Self, b: Self) {
    }

    fn zero() -> (r: Self) {
        assert forall|b: usize| b < 64 implies !(0u64).bit_at(b) by {
            let c = b as u64;
            assert((0u64 >> c) & 1u64 != 1u64) by (bit_vector);
        }
        0u64
    }

    fn ones() -> (r: Self) {
        assert forall|b: usize| b < 64 implies (!0u64).bit_at(b) by {
            let c = b as u64;
            assert(c < 64u64 ==> ((!0u64) >> c) & 1u64 == 1u64) by (bit_vector);
        }
        !0u64
    }

    fn test(&self, b: usize) -> (r: bool) {
        let w = *self;
        let c = b as u64;
        assert((w & (1u64 << c) != 0u64) == ((w >> c) & 1u64 == 1u64)) by (bit_vector)
            requires
                c < 64u64,
        ;
        (w & (1u64 << c)) != 0u64
    }

    fn with_bit(&self, b: usize, v: bool) -> (r: Self) {
        let w = *self;
        let c = b as u64;
        let r = if v {
            w | (1u64 << c)
        } else {
            w & !(1u64 << c)
        };
        assert forall|i: usize| i < 64 implies #[trigger] r.bit_at(i) == if i == b {
            v
        } else {
            w.bit_at(i)
        } by {
            let j = i as u64;
            assert(((w | (1u64 << c)) >> j) & 1u64 == 1u64 <==> (j == c || (w >> j) & 1u64 == 1u64))
                by (bit_vector)
                requires
                    c < 64u64,
                    j < 64u64,
            ;
            assert(((w & !(1u64 << c)) >> j) & 1u64 == 1u64 <==> (j != c && (w >> j) & 1u64 == 1u64))
                by (bit_vector)
                requires
                    c < 64u64,
                    j < 64u64,
            ;
        }
        r
    }
}

impl BitWord for usize {
    open spec fn width() -> nat {
        usize::BITS as nat
    }

    open spec fn bit_at(&self, b: usize) -> bool {
        (*self >> (b as usize)) & 1usize == 1usize
    }

    fn width_exec() -> (r: usize) {
        usize::BITS as usize
    }

    proof fn lemma_width_positive() {
    }

    proof fn lemma_clone_is_copy(a: Self, b: Self) {
    }

    fn zero() -> (r: Self) {
        assert forall|b: usize| b < usize::BITS implies !(0usize).bit_at(b) by {
            let c = b as usize;
            assert((0usize >> c) & 1usize != 1usize) by (bit_vector);
        }
        0usize
    }

    fn ones() -> (r: Self) {
        assert forall|b: usize| b < usize::BITS implies (!0usize).bit_at(b) by {
            let c = b as usize;
            assert(c < usize::BITS ==> ((!0usize) >> c) & 1usize == 1usize) by (bit_vector);
        }
        !0usize
    }

    fn test(&self, b: usize) -> (r: bool) {
        let w = *self;
        let c = b as usize;
        assert((w & (1usize << c) != 0usize) == ((w >> c) & 1usize == 1usize)) by (bit_vector)
            requires
                c < usize::BITS,
        ;
        (w & (1usize << c)) != 0usize
    }

    fn with_bit(&self, b: usize, v: bool) -> (r: Self) {
        let w = *self;
        let c = b as usize;
        let r = if v {
            w | (1usize << c)
        } else {
            w & !(1usize << c)
        };
        assert forall|i: usize| i < usize::BITS implies #[trigger] r.bit_at(i) == if i == b {
            v
        } else {
            w.bit_at(i)
        } by {
            let j = i as usize;
            assert(((w | (1usize << c)) >> j) & 1usize == 1usize <==> (j == c || (w >> j) & 1usize == 1usize))
                by (bit_vector)
                requires
                    c < usize::BITS,
                    j < usize::BITS,
            ;
            assert(((w & !(1usize << c)) >> j) & 1usize == 1usize <==> (j != c && (w >> j) & 1usize == 1usize))
                by (bit_vector)
                requires
                    c < usize::BITS,
                    j < usize::BITS,
            ;
        }
        r
    }
}

/// Words of `width` bits needed to hold `n` bits.
pub open spec fn words_for(n: int, width: int) -> int {
    n / width + if n % width != 0 { 1int } else { 0int }
}

/// Bit `p` of `n` bits lies in one of the `words_for(n, width)` words.
proof fn lemma_word_in_range(p: int, n: int, width: int)
    requires
        0 <= p < n,
        width >= 1,
    ensures
        0 <= p / width < words_for(n, width),
        0 <= p % width < width,
{
    let b = width;
    vstd::arithmetic::div_mod::lemma_fundamental_div_mod(p, b);
    vstd::arithmetic::div_mod::lemma_fundamental_div_mod(n, b);
    vstd::arithmetic::div_mod::lemma_div_pos_is_pos(p, b);
    assert(0 <= p % b < b);
    assert(0 <= n % b < b);
    assert(p / b < words_for(n, b)) by (nonlinear_arith)
        requires
            b > 0,
            p == b * (p / b) + p % b,
            n == b * (n / b) + n % b,
            0 <= p % b < b,
            0 <= n % b < b,
            p < n,
            words_for(n, b) == n / b + if n % b != 0 { 1int } else { 0int },
    ;
}

/// 3D array, but each element is a boolean
#[derive(Debug)]
pub struct BitArray3d<T, D: Dim3> {
    pub data: Vec<T>,
    pub dims: D,
}

impl<T: BitWord, D: Dim3> BitArray3d<T, D> {
    /// One bit per cell, packed into just enough words.
    pub open spec fn wf(&self) -> bool {
        &&& dims_fit(self.dims)
        &&& self.data@.len() == words_for(volume(self.dims), T::width() as int)
    }

    /// Every bit of every stored word is `value`, the bits past the last
    /// cell included.
    pub open spec fn every_word_bit(&self, value: bool) -> bool {
        forall|i: int, b: usize|
            0 <= i < self.data@.len() && b < T::width() ==> #[trigger] self.data@[i].bit_at(b) == value
    }

    /// Bit `p` of the flat bit sequence.
    pub open spec fn bit(&self, p: int) -> bool {
        self.data@[p / (T::width() as int)].bit_at((p % (T::width() as int)) as usize)
    }

    /// The booleans of all cells, in flat order (X fastest, then Y, then Z).
    pub open spec fn bits(&self) -> Seq<bool> {
        Seq::new(volume(self.dims) as nat, |p: int| self.bit(p))
    }

    /// Number of words for `total_bits` bits.
    fn word_count(total_bits: usize) -> (r: usize)
        ensures
            r == words_for(total_bits as int, T::width() as int),
    {
        let bits = T::width_exec();
        proof {
            T::lemma_width_positive();
            let q = total_bits as int / bits as int;
            let m = total_bits as int % bits as int;
            vstd::arithmetic::div_mod::lemma_fundamental_div_mod(total_bits as int, bits as int);
            assert(m != 0 ==> q < usize::MAX) by (nonlinear_arith)
                requires
                    total_bits == bits * q + m,
                    0 <= m < bits,
                    bits >= 1,
                    total_bits <= usize::MAX,
            ;
        }
        total_bits / bits + if total_bits % bits != 0 {
            1
        } else {
            0
        }
    }

    /// An array of extent `dims` with every cell `false`.
    pub fn new(dims: D) -> (r: Self)
        requires
            dims_fit(dims),
        ensures
            r.wf(),
            r.dims == dims,
            r.bits() == Seq::new(volume(dims) as nat, |p: int| false),
            r.every_word_bit(false),
    {
        let total_bits = dims.total_len();
        let total_chunks = Self::word_count(total_bits);
        let fill = T::zero();
        let data: Vec<T> = vec![fill; total_chunks];
        let r = Self { dims, data };
        proof {
            assert forall|p: int| 0 <= p < volume(dims) implies !#[trigger] r.bit(p) by {
                T::lemma_width_positive();
                lemma_word_in_range(p, volume(dims), T::width() as int);
                T::lemma_clone_is_copy(fill, r.data@[p / (T::width() as int)]);
            }
            assert(r.bits() =~= Seq::new(volume(dims) as nat, |p: int| false));
            assert forall|i: int, b: usize| 0 <= i < r.data@.len() && b < T::width() implies !#[trigger] r.data@[i].bit_at(b) by {
                T::lemma_clone_is_copy(fill, r.data@[i]);
            }
        }
        r
    }

    /// An array of extent `dims` with every cell `value`.
    pub fn new_filled(dims: D, value: bool) -> (r: Self)
        requires
            dims_fit(dims),
        ensures
            r.wf(),
            r.dims == dims,
            r.bits() == Seq::new(volume(dims) as nat, |p: int| value),
            r.every_word_bit(value),
    {
        let total_bits = dims.total_len();
        let total_chunks = Self::word_count(total_bits);
        let fill_value: T = if value {
            T::ones()
        } else {
            T::zero()
        };
        let fill = fill_value;
        let data: Vec<T> = vec![fill; total_chunks];
        let r = Self { dims, data };
        proof {
            assert forall|p: int| 0 <= p < volume(dims) implies #[trigger] r.bit(p) == value by {
                T::lemma_width_positive();
                lemma_word_in_range(p, volume(dims), T::width() as int);
                T::lemma_clone_is_copy(fill, r.data@[p / (T::width() as int)]);
            }
            assert(r.bits() =~= Seq::new(volume(dims) as nat, |p: int| value));
            assert forall|i: int, b: usize| 0 <= i < r.data@.len() && b < T::width() implies #[trigger] r.data@[i].bit_at(b) == value by {
                T::lemma_clone_is_copy(fill, r.data@[i]);
            }
        }
        r
    }

    /// Sets every cell to `value`.
    pub fn fill(&mut self, value: bool)
        requires
            old(self).wf(),
        ensures
            final(self).wf(),
            final(self).dims == old(self).dims,
            final(self).bits() == Seq::new(volume(old(self).dims) as nat, |p: int| value),
            final(self).every_word_bit(value),
    {
        let fill_value: T = if value {
            T::ones()
        } else {
            T::zero()
        };
        let len = self.data.len();
        let mut i: usize = 0;
        while i < len
            invariant
                i <= len,
                len == self.data@.len(),
                self.dims == old(self).dims,
                forall|j: int| 0 <= j < i ==> #[trigger] self.data@[j] == fill_value,
            decreases len - i,
        {
            self.data.set(i, fill_value);
            i += 1;
        }
        proof {
            let n = volume(self.dims);
            assert forall|p: int| 0 <= p < n implies #[trigger] self.bit(p) == value by {
                T::lemma_width_positive();
                lemma_word_in_range(p, n, T::width() as int);
            }
            assert(self.bits() =~= Seq::new(n as nat, |p: int| value));
        }
    }

    /// Returns the dimensions as a tuple.
    pub fn dimensions(&self) -> (r: (usize, usize, usize))
        ensures
            r == (self.dims.size_x(), self.dims.size_y(), self.dims.size_z()),
    {
        (self.dims.x(), self.dims.y(), self.dims.z())
    }

    /// Computes flat bit index for (x, y, z).
    pub fn linear_index(&self, x: usize, y: usize, z: usize) -> (r: usize)
        requires
            dims_fit(self.dims),
            in_grid(self.dims, x as int, y as int, z as int),
        ensures
            r == flat_index(self.dims, x as int, y as int, z as int),
            r < volume(self.dims),
    {
        proof {
            lemma_flat_index_bounds(
                self.dims.size_x() as int,
                self.dims.size_y() as int,
                self.dims.size_z() as int,
                x as int,
                y as int,
                z as int,
            );
        }
        x + y * self.dims.x() + z * self.dims.x() * self.dims.y()
    }

    /// The boolean of cell (x, y, z); `false` when its word is missing.
    pub fn get(&self, x: usize, y: usize, z: usize) -> (r: bool)
        requires
            dims_fit(self.dims),
            in_grid(self.dims, x as int, y as int, z as int),
        ensures
            ({
                let p = flat_index(self.dims, x as int, y as int, z as int);
                r == (p / (T::width() as int) < self.data@.len() && self.bit(p))
            }),
            self.wf() ==> r == self.bits()[flat_index(self.dims, x as int, y as int, z as int)],
    {
        let pos = self.linear_index(x, y, z);
        let width = T::width_exec();
        proof {
            T::lemma_width_positive();
        }
        let chunk = pos / width;
        let bit = pos % width;
        if chunk >= self.data.len() {
            proof {
                if self.wf() {
                    lemma_word_in_range(pos as int, volume(self.dims), width as int);
                }
            }
            return false;
        }
        self.data[chunk].test(bit)
    }

    /// Sets cell (x, y, z) to `value`; does nothing when its word is missing.
    pub fn set(&mut self, x: usize, y: usize, z: usize, value: bool)
        requires
            dims_fit(old(self).dims),
            in_grid(old(self).dims, x as int, y as int, z as int),
        ensures
            final(self).dims == old(self).dims,
            final(self).data@.len() == old(self).data@.len(),
            ({
                let p = flat_index(old(self).dims, x as int, y as int, z as int);
                forall|q: int|
                    0 <= q / (T::width() as int) < old(self).data@.len() && 0 <= q ==> #[trigger] final(self).bit(q)
                        == if q == p { value } else { old(self).bit(q) }
            }),
            old(self).wf() ==> final(self).bits() == old(self).bits().update(
                flat_index(old(self).dims, x as int, y as int, z as int),
                value,
            ),
    {
        let pos = self.linear_index(x, y, z);
        let width = T::width_exec();
        proof {
            T::lemma_width_positive();
        }
        let chunk = pos / width;
        let bit = pos % width;
        if chunk >= self.data.len() {
            proof {
                let n = volume(self.dims);
                if old(self).wf() {
                    lemma_word_in_range(pos as int, n, width as int);
                }
            }
            return;
        }
        let w = self.data[chunk];
        let nw = w.with_bit(bit, value);
        self.data.set(chunk, nw);
        proof {
            let b = width as int;
            assert forall|q: int|
                0 <= q / b < old(self).data@.len() && 0 <= q implies #[trigger] self.bit(q)
                    == if q == pos { value } else { old(self).bit(q) } by {
                let qi = (q % b) as usize;
                assert(0 <= q % b < b);
                if q / b == chunk {
                    assert(nw.bit_at(qi) == if qi == bit { value } else { w.bit_at(qi) });
                    if q != pos {
                        vstd::arithmetic::div_mod::lemma_fundamental_div_mod(q, b);
                        vstd::arithmetic::div_mod::lemma_fundamental_div_mod(pos as int, b);
                        assert(qi != bit);
                    }
                }
            }
            if old(self).wf() {
                let n = volume(self.dims);
                assert forall|q: int| 0 <= q < n implies #[trigger] self.bits()[q]
                    == old(self).bits().update(pos as int, value)[q] by {
                    lemma_word_in_range(q, n, b);
                }
                assert(self.bits() =~= old(self).bits().update(pos as int, value));
            }
        }
    }

    /// The boolean of cell (x, y, z); the array must hold its word.
    pub fn get_unchecked(&self, x: usize, y: usize, z: usize) -> (r: bool)
        requires
            self.wf(),
            in_grid(self.dims, x as int, y as int, z as int),
        ensures
            r == self.bits()[flat_index(self.dims, x as int, y as int, z as int)],
    {
        let pos = self.linear_index(x, y, z);
        let width = T::width_exec();
        proof {
            T::lemma_width_positive();
        }
        let chunk = pos / width;
        let bit = pos % width;
        proof {
            lemma_word_in_range(pos as int, volume(self.dims), width as int);
        }
        self.data[chunk].test(bit)
    }

    /// Sets cell (x, y, z) to `value`; the array must hold its word.
    pub fn set_unchecked(&mut self, x: usize, y: usize, z: usize, value: bool)
        requires
            old(self).wf(),
            in_grid(old(self).dims, x as int, y as int, z as int),
        ensures
            final(self).wf(),
            final(self).dims == old(self).dims,
            final(self).bits() == old(self).bits().update(
                flat_index(old(self).dims, x as int, y as int, z as int),
                value,
            ),
    {
        self.set(x, y, z, value);
    }
}


/// Writing cell `(x, y, z)` of a bit array changes that cell to the written
/// value and no other cell.
pub proof fn lemma_bit_set_then_get<T: BitWord, D: Dim3>(
    a: BitArray3d<T, D>,
    b: BitArray3d<T, D>,
    x: int,
    y: int,
    z: int,
    v: bool,
    qx: int,
    qy: int,
    qz: int,
)
    requires
        a.wf(),
        b.dims == a.dims,
        in_grid(a.dims, x, y, z),
        in_grid(a.dims, qx, qy, qz),
        b.bits() == a.bits().update(flat_index(a.dims, x, y, z), v),
    ensures
        b.bits()[flat_index(a.dims, qx, qy, qz)] == if qx == x && qy == y && qz == z {
            v
        } else {
            a.bits()[flat_index(a.dims, qx, qy, qz)]
        },
{
    let d = a.dims;
    lemma_flat_index_bounds(d.size_x() as int, d.size_y() as int, d.size_z() as int, x, y, z);
    lemma_flat_index_bounds(d.size_x() as int, d.size_y() as int, d.size_z() as int, qx, qy, qz);
    if flat_index(d, x, y, z) == flat_index(d, qx, qy, qz) {
        crate::array3d::lemma_flat_index_injective(d, x, y, z, qx, qy, qz);
    }
}

} // verus!
