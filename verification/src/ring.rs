//! A vector with a cursor that moves by one and wraps around at the end.
//! Used for CPU-GPU resources: the GPU works on the previous frame's resource
//! while the CPU fills the current one.
use vstd::prelude::*;

verus! {

/// A fixed-size ring of elements with a current position.
#[derive(Debug)]
pub struct Ring<T> {
    pub data: Vec<T>,
    pub index: usize,
}

/// Position `i` taken around a ring of `len` elements.
pub open spec fn wrap(i: int, len: nat) -> int {
    i % (len as int)
}

/// The element after the current one, around the ring.
pub open spec fn next_pos(index: int, len: nat) -> int {
    wrap(index + 1, len)
}

/// The element before the current one, around the ring.
pub open spec fn previous_pos(index: int, len: nat) -> int {
    wrap(index + len - 1, len)
}

/// Where the cursor stands after the ring is resized to `size` elements.
pub open spec fn clamped_index(index: int, size: int) -> int {
    if size <= index { size - 1 } else { index }
}

impl<T> Ring<T> {
    /// The cursor points at an element.
    pub open spec fn wf(&self) -> bool {
        self.index < self.data@.len()
    }

    /// Number of elements, as a mathematical integer.
    pub open spec fn spec_len(&self) -> nat {
        self.data@.len()
    }

    /// Returns the current (to index) element in the Ring.
    pub fn current(&self) -> (r: &T)
        requires
            self.wf(),
        ensures
            *r == self.data@[self.index as int],
    {
        &self.data[self.index]
    }

    /// Returns the previous (to index, wrapping around len) element in the Ring.
    pub fn previous(&self) -> (r: &T)
        requires
            self.data@.len() > 0,
            self.index + self.data@.len() <= usize::MAX,
        ensures
            *r == self.data@[previous_pos(self.index as int, self.spec_len())],
    {
        let index = self.index + self.data.len() - 1;
        let wrapped_index = index % self.data.len();
        &self.data[wrapped_index]
    }

    /// Returns the next (to index, wrapping around len) element in the Ring.
    pub fn next(&self) -> (r: &T)
        requires
            self.data@.len() > 0,
            self.index < usize::MAX,
        ensures
            *r == self.data@[next_pos(self.index as int, self.spec_len())],
    {
        let index = self.index + 1;
        let wrapped_index = index % self.data.len();
        &self.data[wrapped_index]
    }

    /// Mutably access the current element in the Ring.
    pub fn current_mut(&mut self) -> (r: &mut T)
        requires
            old(self).wf(),
        ensures
            *r == old(self).data@[old(self).index as int],
            final(self).data@ == old(self).data@.update(old(self).index as int, *final(r)),
            final(self).index == old(self).index,
    {
        &mut self.data[self.index]
    }

    /// Mutably access the previous (to index, wrapping around len) element in the Ring.
    pub fn previous_mut(&mut self) -> (r: &mut T)
        requires
            old(self).data@.len() > 0,
            old(self).index + old(self).data@.len() <= usize::MAX,
        ensures
            *r == old(self).data@[previous_pos(old(self).index as int, old(self).spec_len())],
            final(self).data@ == old(self).data@.update(
                previous_pos(old(self).index as int, old(self).spec_len()),
                *final(r),
            ),
            final(self).index == old(self).index,
    {
        let index = self.index + self.data.len() - 1;
        let wrapped_index = index % self.data.len();
        &mut self.data[wrapped_index]
    }

    /// Mutably access the next (to index, wrapping around len) element in the Ring.
    pub fn next_mut(&mut self) -> (r: &mut T)
        requires
            old(self).data@.len() > 0,
            old(self).index < usize::MAX,
        ensures
            *r == old(self).data@[next_pos(old(self).index as int, old(self).spec_len())],
            final(self).data@ == old(self).data@.update(
                next_pos(old(self).index as int, old(self).spec_len()),
                *final(r),
            ),
            final(self).index == old(self).index,
    {
        let index = self.index + 1;
        let wrapped_index = index % self.data.len();
        &mut self.data[wrapped_index]
    }

    /// Moves to the next element in the Ring (circularly).
    pub fn move_next(&mut self)
        requires
            old(self).data@.len() > 0,
            old(self).index < usize::MAX,
        ensures
            final(self).data@ == old(self).data@,
            final(self).index == next_pos(old(self).index as int, old(self).spec_len()),
    {
        self.index = (self.index + 1) % self.data.len();
    }

    /// Moves to the previous element in the Ring (circularly).
    pub fn move_previous(&mut self)
        requires
            old(self).data@.len() > 0,
        ensures
            final(self).data@ == old(self).data@,
            final(self).index == step_back(old(self).index as int, old(self).spec_len()),
    {
        if self.index == 0 {
            self.index = self.data.len() - 1;
        } else {
            self.index -= 1;
        }
    }

    /// Access an element by absolute index (circularly).
    pub fn get(&self, idx: usize) -> (r: &T)
        requires
            self.data@.len() > 0,
        ensures
            *r == self.data@[wrap(idx as int, self.spec_len())],
    {
        &self.data[idx % self.data.len()]
    }

    /// Mutably access an element by absolute index (circularly).
    pub fn get_mut(&mut self, idx: usize) -> (r: &mut T)
        requires
            old(self).data@.len() > 0,
        ensures
            *r == old(self).data@[wrap(idx as int, old(self).spec_len())],
            final(self).data@ == old(self).data@.update(
                wrap(idx as int, old(self).spec_len()),
                *final(r),
            ),
            final(self).index == old(self).index,
    {
        let len = self.data.len();
        &mut self.data[idx % len]
    }

    /// Resets the index to zero.
    pub fn reset_index(&mut self)
        ensures
            final(self).data@ == old(self).data@,
            final(self).index == 0,
    {
        self.index = 0;
    }

    /// Returns the length of the Ring.
    pub fn len(&self) -> (r: usize)
        ensures
            r == self.data@.len(),
    {
        self.data.len()
    }

    /// Checks if the Ring is empty.
    pub fn is_empty(&self) -> (r: bool)
        ensures
            r <==> self.data@.len() == 0,
    {
        self.data.is_empty()
    }

    /// All elements, in storage order.
    pub fn as_slice(&self) -> (r: &[T])
        ensures
            r@ == self.data@,
    {
        self.data.as_slice()
    }

    /// All elements, in storage order, for writing.
    pub fn as_mut_slice(&mut self) -> (r: &mut [T])
        ensures
            r@ == old(self).data@,
            final(self).data@ == final(r)@,
            final(self).index == old(self).index,
    {
        self.data.as_mut_slice()
    }

    /// Iterates over the elements in storage order (not starting at the cursor).
    pub fn iter(&self) -> (r: RingIterator<'_, T>)
        ensures
            r.ring() == self,
            r.position() == 0,
    {
        RingIterator { ring: self, position: 0 }
    }

    /// The element stored first.
    pub fn first(&self) -> (r: &T)
        requires
            self.data@.len() > 0,
        ensures
            *r == self.data@[0],
    {
        &self.data[0]
    }

    /// Creates a new `Ring` with a given size and initializes all elements
    /// with `T::default()`.
    pub fn new_with(size: usize, _lambda: impl Fn(usize) -> T) -> (r: Self)
        where
            T: Default,
        ensures
            r.index == 0,
            r.data@.len() == size,
            forall|i: int| 0 <= i < size ==> call_ensures(T::default, (), #[trigger] r.data@[i]),
    {
        Self::new(size)
    }

    /// Creates a new `Ring` from a given Vec.
    pub fn from_vec(data: Vec<T>) -> (r: Self)
        ensures
            r.index == 0,
            r.data@ == data@,
    {
        Self { data, index: 0 }
    }

    /// Resizes the `Ring` and initializes new elements with `T::default()`.
    /// Existing elements are moved to the new `data` array.
    pub fn resize_with(&mut self, size: usize, _lambda: impl Fn(usize) -> T)
        where
            T: Default,
        requires
            size > 0,
        ensures
            final(self).data@.len() == size,
            forall|i: int|
                0 <= i < size && i < old(self).data@.len() ==> #[trigger] final(self).data@[i]
                    == old(self).data@[i],
            forall|i: int|
                old(self).data@.len() <= i < size ==> call_ensures(
                    T::default,
                    (),
                    #[trigger] final(self).data@[i],
                ),
            final(self).index == clamped_index(old(self).index as int, size as int),
            final(self).wf(),
    {
        self.resize(size)
    }
}

impl<T: Clone> Ring<T> {
    /// Creates a new `Ring` with a given size and initializes all elements
    /// with `T::default()`.
    pub fn new_clone(size: usize, _value: T) -> (r: Self)
        where
            T: Default,
        ensures
            r.index == 0,
            r.data@.len() == size,
            forall|i: int| 0 <= i < size ==> call_ensures(T::default, (), #[trigger] r.data@[i]),
    {
        Self::new(size)
    }

    /// Creates a new `Ring` that owns the elements of `data`.
    pub fn from_vec_clone(data: Vec<T>) -> (r: Self)
        ensures
            r.index == 0,
            r.data@ == data@,
    {
        Self { data, index: 0 }
    }

    /// Resizes the `Ring` and initializes new elements with `T::default()`.
    /// Existing elements up to the smaller of the two sizes are kept.
    pub fn resize_clone(&mut self, size: usize, _value: T)
        where
            T: Default,
        requires
            size > 0,
        ensures
            final(self).data@.len() == size,
            forall|i: int|
                0 <= i < size && i < old(self).data@.len() ==> #[trigger] final(self).data@[i]
                    == old(self).data@[i],
            forall|i: int|
                old(self).data@.len() <= i < size ==> call_ensures(
                    T::default,
                    (),
                    #[trigger] final(self).data@[i],
                ),
            final(self).index == clamped_index(old(self).index as int, size as int),
            final(self).wf(),
    {
        self.resize(size)
    }
}

impl<T: Default> Ring<T> {
    /// Creates a new `Ring` of `size` default elements.
    pub fn new(size: usize) -> (r: Self)
        ensures
            r.index == 0,
            r.data@.len() == size,
            forall|i: int| 0 <= i < size ==> call_ensures(T::default, (), #[trigger] r.data@[i]),
    {
        let mut data: Vec<T> = Vec::new();
        let mut i: usize = 0;
        while i < size
            invariant
                i <= size,
                data@.len() == i,
                forall|j: int| 0 <= j < i ==> call_ensures(T::default, (), #[trigger] data@[j]),
            decreases size - i,
        {
            data.push(T::default());
            i += 1;
        }
        Self { data, index: 0 }
    }

    /// Resizes the `Ring`; new elements are default ones.
    /// Existing elements up to the smaller of the two sizes are kept.
    pub fn resize(&mut self, size: usize)
        requires
            size > 0,
        ensures
            final(self).data@.len() == size,
            forall|i: int|
                0 <= i < size && i < old(self).data@.len() ==> #[trigger] final(self).data@[i]
                    == old(self).data@[i],
            forall|i: int|
                old(self).data@.len() <= i < size ==> call_ensures(
                    T::default,
                    (),
                    #[trigger] final(self).data@[i],
                ),
            final(self).index == clamped_index(old(self).index as int, size as int),
            final(self).wf(),
    {
        let old_len = self.data.len();
        if size < old_len {
            self.data.truncate(size);
        } else {
            let mut i: usize = old_len;
            while i < size
                invariant
                    old_len <= i <= size,
                    self.data@.len() == i,
                    self.index == old(self).index,
                    old_len == old(self).data@.len(),
                    forall|j: int| 0 <= j < old_len ==> #[trigger] self.data@[j] == old(self).data@[j],
                    forall|j: int|
                        old_len <= j < i ==> call_ensures(T::default, (), #[trigger] self.data@[j]),
                decreases size - i,
            {
                self.data.push(T::default());
                i += 1;
            }
        }
        if self.data.len() <= self.index {
            self.index = self.data.len() - 1;
        }
    }
}

impl<T> Default for Ring<T> {
    fn default() -> (r: Self)
        ensures
            r.data@.len() == 0,
            r.index == 0,
    {
        Ring { data: Vec::new(), index: 0 }
    }
}

impl<T> std::ops::Index<usize> for Ring<T> {
    type Output = T;

    /// Access an element by absolute index (circularly).
    fn index(&self, idx: usize) -> (r: &T)
        ensures
            *r == self.data@[wrap(idx as int, self.spec_len())],
    {
        self.get(idx)
    }
}

impl<T> vstd::std_specs::core::IndexSpecImpl<usize> for Ring<T> {
    open spec fn index_req(&self, idx: &usize) -> bool {
        self.data@.len() > 0
    }
}

/// Iterator over the elements of a `Ring`, in storage order.
pub struct RingIterator<'a, T> {
    ring: &'a Ring<T>,
    position: usize,
}

impl<'a, T> RingIterator<'a, T> {
    /// The ring walked over.
    pub closed spec fn ring(&self) -> &'a Ring<T> {
        self.ring
    }

    /// How many elements were handed out so far.
    pub closed spec fn position(&self) -> nat {
        self.position as nat
    }

    /// Hands out the next element, or `None` once all were handed out.
    pub fn next(&mut self) -> (r: Option<&'a T>)
        ensures
            final(self).ring() == old(self).ring(),
            old(self).position() < old(self).ring().data@.len() ==> {
                &&& r == Some(&old(self).ring().data@[old(self).position() as int])
                &&& final(self).position() == old(self).position() + 1
            },
            old(self).position() >= old(self).ring().data@.len() ==> {
                &&& r is None
                &&& final(self).position() == old(self).position()
            },
    {
        if self.position < self.ring.len() {
            let item = &self.ring.data[self.position];
            self.position += 1;
            Some(item)
        } else {
            None
        }
    }
}

/// Mutable iterator state over the elements of a `Ring`.
pub struct RingIteratorMut<'a, T> {
    ring: &'a mut Ring<T>,
    position: usize,
}


impl<T: Clone> Clone for Ring<T> {
    fn clone(&self) -> (r: Self)
        ensures
            r.index == self.index,
            r.data@.len() == self.data@.len(),
            forall|i: int| 0 <= i < self.data@.len() ==> cloned(self.data@[i], #[trigger] r.data@[i]),
    {
        Ring { data: self.data.clone(), index: self.index }
    }
}

/// Where `move_previous` puts the cursor of a ring of `len` elements.
pub open spec fn step_back(index: int, len: nat) -> int {
    if index == 0 { len - 1 } else { index - 1 }
}

/// The next element is the one stored right after the current one, or the
/// first one after the last; the previous element is the one stored right
/// before the current one, or the last one before the first.
pub proof fn lemma_neighbours_are_adjacent(index: int, len: nat)
    requires
        0 <= index < len,
    ensures
        index + 1 < len ==> next_pos(index, len) == index + 1,
        index + 1 == len ==> next_pos(index, len) == 0,
        index > 0 ==> previous_pos(index, len) == index - 1,
        index == 0 ==> previous_pos(index, len) == len - 1,
{
    lemma_cursor_moves_undo(index, len);
}

/// After a move to the next element, the previous element is the one that
/// was current, and the current one is the one that was next.
pub proof fn lemma_previous_after_move_next(index: int, len: nat)
    requires
        0 <= index < len,
    ensures
        previous_pos(next_pos(index, len), len) == index,
{
    lemma_cursor_moves_undo(index, len);
    lemma_cursor_moves_undo(next_pos(index, len), len);
}

/// Moving the cursor forward or back keeps it on an element, and moving it
/// forward then back (or back then forward) puts it where it was.
pub proof fn lemma_cursor_moves_undo(index: int, len: nat)
    requires
        0 <= index < len,
    ensures
        0 <= next_pos(index, len) < len,
        0 <= step_back(index, len) < len,
        step_back(next_pos(index, len), len) == index,
        next_pos(step_back(index, len), len) == index,
        previous_pos(index, len) == step_back(index, len),
{
    let l = len as int;
    if index + 1 == l {
        assert(next_pos(index, len) == 0) by {
            vstd::arithmetic::div_mod::lemma_mod_self_0(l);
        }
    } else {
        vstd::arithmetic::div_mod::lemma_small_mod((index + 1) as nat, len);
    }
    if index == 0 {
        vstd::arithmetic::div_mod::lemma_mod_self_0(l);
        vstd::arithmetic::div_mod::lemma_small_mod((l - 1) as nat, len);
        assert((0 + l - 1) % l == l - 1);
    } else {
        vstd::arithmetic::div_mod::lemma_mod_add_multiples_vanish(index - 1, l);
        vstd::arithmetic::div_mod::lemma_small_mod((index - 1) as nat, len);
        assert(index + l - 1 == (index - 1) + l);
        vstd::arithmetic::div_mod::lemma_small_mod(index as nat, len);
    }
}

} // verus!
