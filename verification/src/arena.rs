//! A slot arena: values live in numbered slots, freed slots are reused,
//! lowest number first.
use std::collections::VecDeque;
use vstd::prelude::*;

verus! {

/// `s` extended with free slots up to `n` slots (unchanged when it has `n` or more).
pub open spec fn grown<T>(s: Seq<Option<T>>, n: int) -> Seq<Option<T>> {
    if n > s.len() {
        s + Seq::new((n - s.len()) as nat, |i: int| None::<T>)
    } else {
        s
    }
}

/// The number of slots an arena with no free slot grows to.
pub open spec fn grow_target(len: int) -> int {
    if len == 0 { 1 } else { 2 * len }
}

/// `s` with `x` put in its place among the increasing values of `s`.
pub open spec fn sorted_insert_of(s: Seq<usize>, t: Seq<usize>, x: usize) -> bool {
    &&& strictly_sorted(t)
    &&& t.len() == s.len() + 1
    &&& forall|y: usize| #[trigger] t.contains(y) <==> (s.contains(y) || y == x)
}

/// The values `lo`, `lo + 1`, ..., `hi - 1`.
pub open spec fn count_up(lo: int, hi: int) -> Seq<usize> {
    Seq::new((hi - lo) as nat, |k: int| (lo + k) as usize)
}

/// `count_up(lo, hi)` holds every value from `lo` below `hi`.
pub proof fn lemma_count_up_contains(lo: int, hi: int, i: int)
    requires
        0 <= lo <= i < hi,
        hi <= usize::MAX + 1,
    ensures
        count_up(lo, hi).contains(i as usize),
{
    assert(count_up(lo, hi)[i - lo] == i as usize);
}

/// The values `lo` to `hi - 1` are handed out from the front in order:
/// the first is `lo`, and the rest count up from `lo + 1`.
pub proof fn lemma_count_up_front(lo: int, hi: int)
    requires
        0 <= lo < hi <= usize::MAX + 1,
    ensures
        count_up(lo, hi)[0] == lo,
        count_up(lo, hi).drop_first() == count_up(lo + 1, hi),
{
    assert(count_up(lo, hi).drop_first() =~= count_up(lo + 1, hi));
}

/// The free lists met along the next allocations after `new(n)` or `clear`
/// (on `n` slots): `lists[k]` is the free list before allocation `k`; it
/// starts as `0, 1, ..., n - 1` (as `new` and `clear` state) and each
/// allocation drops its front (as `allocate` states for a non-empty list).
/// Then allocation `k` finds the list non-empty and hands out slot `k`, so
/// the next `n` allocations give `0, 1, ..., n - 1` in order without growing
/// the arena, and leave the list empty.
pub proof fn lemma_allocation_order(n: int, lists: Seq<Seq<usize>>)
    requires
        0 <= n <= usize::MAX + 1,
        lists.len() == n + 1,
        lists[0] == count_up(0, n),
        forall|k: int| 0 <= k < n ==> #[trigger] lists[k + 1] == lists[k].drop_first(),
    ensures
        forall|k: int|
            0 <= k < n ==> (#[trigger] lists[k]).len() > 0 && lists[k][0] == k,
        lists[n].len() == 0,
{
    lemma_allocation_order_prefix(n, lists, n);
    assert forall|k: int| 0 <= k < n implies (#[trigger] lists[k]).len() > 0 && lists[k][0] == k by {
        lemma_allocation_order_prefix(n, lists, k);
        lemma_count_up_front(k, n);
    }
}

/// Before allocation `k` the free list is `k, k + 1, ..., n - 1`.
proof fn lemma_allocation_order_prefix(n: int, lists: Seq<Seq<usize>>, k: int)
    requires
        0 <= n <= usize::MAX + 1,
        lists.len() == n + 1,
        lists[0] == count_up(0, n),
        forall|j: int| 0 <= j < n ==> #[trigger] lists[j + 1] == lists[j].drop_first(),
        0 <= k <= n,
    ensures
        lists[k] == count_up(k, n),
    decreases k,
{
    if k > 0 {
        lemma_allocation_order_prefix(n, lists, k - 1);
        lemma_count_up_front(k - 1, n);
        assert(lists[k] == lists[k - 1].drop_first());
    }
}

/// `s` strictly increases.
pub open spec fn strictly_sorted(s: Seq<usize>) -> bool {
    forall|i: int, j: int| 0 <= i < j < s.len() ==> s[i] < s[j]
}

/// The place where `key` belongs in the increasing deque `v`: the number of
/// its elements below `key`.
fn lower_bound(v: &VecDeque<usize>, key: usize) -> (pos: usize)
    requires
        strictly_sorted(v@),
    ensures
        pos <= v@.len(),
        forall|k: int| 0 <= k < pos ==> #[trigger] v@[k] < key,
        forall|k: int| pos <= k < v@.len() ==> #[trigger] v@[k] >= key,
{
    let mut lo: usize = 0;
    let mut hi: usize = v.len();
    while lo < hi
        invariant
            0 <= lo <= hi <= v@.len(),
            strictly_sorted(v@),
            forall|k: int| 0 <= k < lo ==> #[trigger] v@[k] < key,
            forall|k: int| hi <= k < v@.len() ==> #[trigger] v@[k] >= key,
        decreases hi - lo,
    {
        let mid = lo + (hi - lo) / 2;
        if v[mid] < key {
            lo = mid + 1;
        } else {
            hi = mid;
        }
    }
    lo
}

/// After slot `i` is freed, the next allocation takes `i` unless a lower slot
/// was already listed as free.
pub proof fn lemma_freed_slot_allocated_first(before: Seq<usize>, after: Seq<usize>, i: usize)
    requires
        strictly_sorted(before),
        sorted_insert_of(before, after, i),
    ensures
        after[0] == if before.len() == 0 || i < before[0] {
            i
        } else {
            before[0]
        },
{
    // `after` increases, so its first value is at most every value it holds,
    // `i` and `before[0]` among them; and it is `i` or a value of `before`.
    assert(after.contains(i));
    assert(after.contains(after[0]));
    if before.len() > 0 {
        assert(after.contains(before[0]));
        if before.contains(after[0]) {
            let m = choose|m: int| 0 <= m < before.len() && before[m] == after[0];
            assert(before[0] <= before[m]);
        }
    }
}

/// Slot storage, with `None` in free slots.
pub struct Arena<T> {
    /// Actual elements, with `None` representing free slots.
    storage: Vec<Option<T>>,
    /// Sorted deque of the free slots.
    free_indices: VecDeque<usize>,
}

impl<T> View for Arena<T> {
    type V = Seq<Option<T>>;

    closed spec fn view(&self) -> Seq<Option<T>> {
        self.storage@
    }
}

impl<T> Arena<T> {
    /// The slots that `allocate` hands out next, lowest first.
    pub closed spec fn free_list(&self) -> Seq<usize> {
        self.free_indices@
    }

    /// The free list is increasing and names exactly the free slots.
    pub closed spec fn wf(&self) -> bool {
        &&& strictly_sorted(self.free_indices@)
        &&& forall|k: int|
            0 <= k < self.free_indices@.len() ==> {
                &&& #[trigger] self.free_indices@[k] < self.storage@.len()
                &&& self.storage@[self.free_indices@[k] as int] is None
            }
        &&& forall|i: int|
            0 <= i < self.storage@.len() && #[trigger] self.storage@[i] is None
                ==> self.free_indices@.contains(i as usize)
    }

    /// The free list keeps track of the available slots: it increases, and
    /// it names exactly the empty slots of the arena.
    pub proof fn lemma_free_list_sound(&self)
        requires
            self.wf(),
        ensures
            strictly_sorted(self.free_list()),
            forall|k: int|
                0 <= k < self.free_list().len() ==> {
                    &&& #[trigger] self.free_list()[k] < self@.len()
                    &&& self@[self.free_list()[k] as int] is None
                },
            forall|i: int|
                0 <= i < self@.len() && #[trigger] self@[i] is None ==> self.free_list().contains(i as usize),
    {
    }

    /// The first listed free slot is the lowest empty slot.
    proof fn lemma_first_free_is_lowest(&self)
        requires
            self.wf(),
            self.free_indices@.len() > 0,
        ensures
            forall|i: int| 0 <= i < self.free_indices@[0] ==> #[trigger] self.storage@[i] is Some,
    {
        let f = self.free_indices@;
        assert forall|i: int| 0 <= i < f[0] implies #[trigger] self.storage@[i] is Some by {
            if self.storage@[i] is None {
                let k = choose|k: int| 0 <= k < f.len() && f[k] == i as usize;
                if k > 0 {
                    assert(f[0] < f[k]);
                }
            }
        }
    }

    /// Creates an arena with a given initial size.
    pub fn new(initial_size: usize) -> (r: Self)
        ensures
            r.wf(),
            r@ == Seq::new(initial_size as nat, |i: int| None::<T>),
            r.free_list() == count_up(0, initial_size as int),
    {
        let mut free_indices: VecDeque<usize> = VecDeque::new();
        let mut storage: Vec<Option<T>> = Vec::new();
        let mut i: usize = 0;
        while i < initial_size
            invariant
                i <= initial_size,
                storage@.len() == i,
                free_indices@.len() == i,
                forall|j: int| 0 <= j < i ==> #[trigger] free_indices@[j] == j,
                forall|j: int| 0 <= j < i ==> #[trigger] storage@[j] is None,
            decreases initial_size - i,
        {
            free_indices.push_back(i);
            storage.push(None);
            i += 1;
        }
        let r = Self { storage, free_indices };
        proof {
            assert(r.storage@ =~= Seq::new(initial_size as nat, |i: int| None::<T>));
            assert(r.free_indices@ =~= count_up(0, initial_size as int));
            assert forall|i: int| 0 <= i < r.storage@.len() && #[trigger] r.storage@[i] is None implies r.free_indices@.contains(
                i as usize,
            ) by {
                lemma_count_up_contains(0, initial_size as int, i);
            }
        }
        r
    }

    /// Number of slots, free or not.
    pub fn total_size(&self) -> (r: usize)
        ensures
            r == self@.len(),
    {
        self.storage.len()
    }

    /// Grows the arena to `new_size` slots; the new slots are free and are
    /// listed after the ones already free. Never shrinks.
    pub fn grow(&mut self, new_size: usize)
        requires
            old(self).wf(),
        ensures
            final(self).wf(),
            final(self)@ == grown(old(self)@, new_size as int),
            new_size > old(self)@.len() ==> final(self).free_list() == old(self).free_list()
                + count_up(old(self)@.len() as int, new_size as int),
            new_size <= old(self)@.len() ==> final(self).free_list() == old(self).free_list(),
    {
        let old_size = self.storage.len();
        if new_size > old_size {
            let mut i: usize = old_size;
            while i < new_size
                invariant
                    old_size <= i <= new_size,
                    old_size == old(self).storage@.len(),
                    self.storage@.len() == i,
                    self.storage@.subrange(0, old_size as int) == old(self).storage@,
                    forall|j: int| old_size <= j < i ==> #[trigger] self.storage@[j] is None,
                    self.free_indices@ == old(self).free_indices@ + count_up(
                        old_size as int,
                        i as int,
                    ),
                    strictly_sorted(old(self).free_indices@),
                    forall|k: int|
                        0 <= k < old(self).free_indices@.len() ==> {
                            &&& #[trigger] old(self).free_indices@[k] < old(self).storage@.len()
                            &&& old(self).storage@[old(self).free_indices@[k] as int] is None
                        },
                decreases new_size - i,
            {
                self.storage.push(None);
                self.free_indices.push_back(i);
                proof {
                    assert(self.free_indices@ =~= old(self).free_indices@ + count_up(
                        old_size as int,
                        i + 1,
                    ));
                    assert(self.storage@.subrange(0, old_size as int) =~= old(self).storage@);
                }
                i += 1;
            }
            proof {
                let s = self.storage@;
                let o = old(self).storage@;
                assert forall|j: int| 0 <= j < s.len() implies #[trigger] s[j] == grown(
                    o,
                    new_size as int,
                )[j] by {
                    if j < o.len() {
                        assert(s[j] == s.subrange(0, old_size as int)[j]);
                    }
                }
                assert(s =~= grown(o, new_size as int));
                let f = self.free_indices@;
                let of = old(self).free_indices@;
                assert forall|a: int, b: int| 0 <= a < b < f.len() implies f[a] < f[b] by {
                    if b >= of.len() && a < of.len() {
                        assert(of[a] < old_size);
                    }
                }
                assert forall|k: int| 0 <= k < f.len() implies {
                    &&& #[trigger] f[k] < s.len()
                    &&& s[f[k] as int] is None
                } by {
                    if k < of.len() {
                        assert(f[k] == of[k]);
                        assert(s[f[k] as int] == s.subrange(0, old_size as int)[f[k] as int]);
                    }
                }
                assert forall|i: int| 0 <= i < s.len() && #[trigger] s[i] is None implies f.contains(i as usize) by {
                    if i < old_size {
                        assert(s[i] == s.subrange(0, old_size as int)[i]);
                        assert(o[i] is None);
                        let k = choose|k: int| 0 <= k < of.len() && of[k] == i as usize;
                        assert(f[k] == of[k]);
                    } else {
                        lemma_count_up_contains(old_size as int, new_size as int, i);
                        let c = count_up(old_size as int, new_size as int);
                        let k = choose|k: int| 0 <= k < c.len() && c[k] == i as usize;
                        assert(f[of.len() + k] == c[k]);
                    }
                }
            }
        }
    }

    /// Frees every slot; the free list becomes all slots in increasing order.
    pub fn clear(&mut self)
        requires
            old(self).wf(),
        ensures
            final(self).wf(),
            final(self)@ == Seq::new(old(self)@.len(), |i: int| None::<T>),
            final(self).free_list() == count_up(0, old(self)@.len() as int),
    {
        let len = self.storage.len();
        let mut i: usize = 0;
        while i < len
            invariant
                i <= len,
                len == self.storage@.len(),
                len == old(self).storage@.len(),
                forall|j: int| 0 <= j < i ==> #[trigger] self.storage@[j] is None,
            decreases len - i,
        {
            self.storage.set(i, None);
            i += 1;
        }
        self.free_indices.clear();
        let mut k: usize = 0;
        while k < len
            invariant
                k <= len,
                len == self.storage@.len(),
                forall|j: int| 0 <= j < len ==> #[trigger] self.storage@[j] is None,
                self.free_indices@ == count_up(0, k as int),
            decreases len - k,
        {
            self.free_indices.push_back(k);
            proof {
                assert(self.free_indices@ =~= count_up(0, k + 1));
            }
            k += 1;
        }
        proof {
            assert(self.storage@ =~= Seq::new(old(self)@.len(), |i: int| None::<T>));
            assert forall|i: int| 0 <= i < self.storage@.len() && #[trigger] self.storage@[i] is None implies self.free_indices@.contains(
                i as usize,
            ) by {
                lemma_count_up_contains(0, len as int, i);
            }
        }
    }

    /// The value in slot `index`, if the slot exists and holds one.
    pub fn get(&self, index: usize) -> (r: Option<&T>)
        ensures
            r is Some <==> (index < self@.len() && self@[index as int] is Some),
            r is Some ==> *r->0 == self@[index as int]->0,
    {
        if index < self.storage.len() {
            self.storage[index].as_ref()
        } else {
            None
        }
    }

    /// Mutable access to the value in slot `index`, if the slot exists and holds one.
    pub fn get_mut(&mut self, index: usize) -> (r: Option<&mut T>)
        requires
            old(self).wf(),
        ensures
            final(self).wf(),
            final(self).free_list() == old(self).free_list(),
            r is Some <==> (index < old(self)@.len() && old(self)@[index as int] is Some),
            r is Some ==> {
                &&& *r->0 == old(self)@[index as int]->0
                &&& final(self)@ == old(self)@.update(index as int, Some(*final(r->0)))
            },
            r is None ==> final(self)@ == old(self)@,
    {
        if index < self.storage.len() {
            self.storage[index].as_mut()
        } else {
            None
        }
    }

    /// Puts `value` in the first listed free slot and returns that slot.
    /// When no slot is free the arena first doubles (or grows to one slot).
    pub fn allocate(&mut self, value: T) -> (r: Option<usize>)
        requires
            old(self).wf(),
            old(self).free_list().len() == 0 ==> 2 * old(self)@.len() <= usize::MAX,
        ensures
            final(self).wf(),
            r is Some,
            r->0 < final(self)@.len(),
            final(self)@[r->0 as int] == Some(value),
            forall|k: int|
                0 <= k < old(self).free_list().len() ==> r->0 <= #[trigger] old(self).free_list()[k],
            r->0 < old(self)@.len() ==> old(self)@[r->0 as int] is None,
            forall|i: int| 0 <= i < r->0 && i < old(self)@.len() ==> #[trigger] old(self)@[i] is Some,
            old(self).free_list().len() > 0 ==> {
                &&& r->0 == old(self).free_list()[0]
                &&& final(self)@ == old(self)@.update(r->0 as int, Some(value))
                &&& final(self).free_list() == old(self).free_list().drop_first()
            },
            old(self).free_list().len() == 0 ==> {
                &&& r->0 == old(self)@.len()
                &&& final(self)@ == grown(old(self)@, grow_target(old(self)@.len() as int)).update(
                    r->0 as int,
                    Some(value),
                )
                &&& final(self).free_list() == count_up(
                    old(self)@.len() + 1int,
                    grow_target(old(self)@.len() as int),
                )
            },
    {
        proof {
            if self.free_indices@.len() > 0 {
                self.lemma_first_free_is_lowest();
            } else {
                assert forall|i: int| 0 <= i < self.storage@.len() implies #[trigger] self.storage@[i] is Some by {
                    if self.storage@[i] is None {
                        assert(self.free_indices@.contains(i as usize));
                    }
                }
            }
        }
        if let Some(index) = self.free_indices.pop_front() {
            proof {
                assert(self.free_indices@ =~= old(self).free_indices@.drop_first());
            }
            self.storage.set(index, Some(value));
            let len = self.storage.len();
            proof {
                let f = old(self).free_indices@;
                assert forall|i: int| 0 <= i < self.storage@.len() && #[trigger] self.storage@[i] is None implies self.free_indices@.contains(
                    i as usize,
                ) by {
                    assert(self.storage@[index as int] is Some);
                    assert(i != index as int);
                    assert(old(self).storage@[i] is None);
                    let k = choose|k: int| 0 <= k < f.len() && f[k] == i as usize;
                    assert(f[0] == index);
                    assert(i < len);
                    assert(k != 0);
                    assert(self.free_indices@[k - 1] == f[k]);
                }
            }
            Some(index)
        } else {
            let grow_to = if self.storage.len() == 0 {
                1
            } else {
                self.storage.len() * 2
            };
            self.grow(grow_to);
            let ghost before = self.free_indices@;
            if let Some(index) = self.free_indices.pop_front() {
                proof {
                    assert(old(self).free_indices@ =~= Seq::<usize>::empty());
                    assert(before =~= count_up(old(self)@.len() as int, grow_to as int));
                    assert(self.free_indices@ =~= count_up(
                        old(self)@.len() + 1int,
                        grow_to as int,
                    ));
                }
                let ghost grown_storage = self.storage@;
                self.storage.set(index, Some(value));
                proof {
                    assert forall|i: int| 0 <= i < self.storage@.len() && #[trigger] self.storage@[i] is None implies self.free_indices@.contains(
                        i as usize,
                    ) by {
                        assert(grown_storage[i] is None);
                        let k = choose|k: int| 0 <= k < before.len() && before[k] == i as usize;
                        assert(k != 0);
                        assert(self.free_indices@[k - 1] == before[k]);
                    }
                }
                Some(index)
            } else {
                proof {
                    assert(before.len() > 0);
                }
                None
            }
        }
    }

    /// Empties slot `index` and returns its value, listing the slot as free
    /// again; `None` (and no change) when the slot was already empty.
    pub fn take(&mut self, index: usize) -> (r: Option<T>)
        requires
            old(self).wf(),
            index < old(self)@.len(),
        ensures
            final(self).wf(),
            r == old(self)@[index as int],
            final(self)@ == old(self)@.update(index as int, None),
            r is Some ==> sorted_insert_of(old(self).free_list(), final(self).free_list(), index),
            r is None ==> final(self).free_list() == old(self).free_list(),
    {
        let temp = self.storage[index].take();
        match temp {
            Some(v) => {
                proof {
                    assert(self.storage@ == old(self).storage@.update(index as int, None));
                    let f = old(self).free_indices@;
                    assert(!f.contains(index)) by {
                        if f.contains(index) {
                            let k = choose|k: int| 0 <= k < f.len() && f[k] == index;
                            assert(old(self).storage@[f[k] as int] is None);
                        }
                    }
                    assert forall|k: int| 0 <= k < f.len() implies {
                        &&& #[trigger] f[k] < self.storage@.len()
                        &&& self.storage@[f[k] as int] is None
                    } by {
                        assert(old(self).storage@[f[k] as int] is None);
                    }
                    assert forall|i: int| 0 <= i < self.storage@.len() && i != index && #[trigger] self.storage@[i] is None implies f.contains(
                        i as usize,
                    ) by {
                        assert(old(self).storage@[i] is None);
                    }
                }
                self.list_free(index);
                Some(v)
            },
            None => {
                proof {
                    assert(self.storage@ =~= old(self).storage@);
                }
                None
            },
        }
    }

    /// Empties slot `index` when it holds a value, and lists it as free.
    /// Does nothing when the slot does not exist or is already empty.
    pub fn free(&mut self, index: usize)
        requires
            old(self).wf(),
        ensures
            final(self).wf(),
            (index < old(self)@.len() && old(self)@[index as int] is Some) ==> {
                &&& final(self)@ == old(self)@.update(index as int, None)
                &&& sorted_insert_of(old(self).free_list(), final(self).free_list(), index)
            },
            !(index < old(self)@.len() && old(self)@[index as int] is Some) ==> {
                &&& final(self)@ == old(self)@
                &&& final(self).free_list() == old(self).free_list()
            },
    {
        if index < self.storage.len() && self.storage[index].is_some() {
            self.storage.set(index, None);
            proof {
                let f = old(self).free_indices@;
                assert(!f.contains(index)) by {
                    if f.contains(index) {
                        let k = choose|k: int| 0 <= k < f.len() && f[k] == index;
                        assert(old(self).storage@[f[k] as int] is None);
                    }
                }
                assert forall|k: int| 0 <= k < f.len() implies {
                    &&& #[trigger] f[k] < self.storage@.len()
                    &&& self.storage@[f[k] as int] is None
                } by {
                    assert(old(self).storage@[f[k] as int] is None);
                }
                assert forall|i: int| 0 <= i < self.storage@.len() && i != index && #[trigger] self.storage@[i] is None implies f.contains(
                    i as usize,
                ) by {
                    assert(old(self).storage@[i] is None);
                }
            }
            self.list_free(index);
        }
    }

    /// Lists the empty, unlisted slot `index` as free, in its sorted place.
    fn list_free(&mut self, index: usize)
        requires
            strictly_sorted(old(self).free_indices@),
            index < old(self).storage@.len(),
            old(self).storage@[index as int] is None,
            !old(self).free_indices@.contains(index),
            forall|i: int|
                0 <= i < old(self).storage@.len() && i != index && #[trigger] old(self).storage@[i] is None
                    ==> old(self).free_indices@.contains(i as usize),
            forall|k: int|
                0 <= k < old(self).free_indices@.len() ==> {
                    &&& #[trigger] old(self).free_indices@[k] < old(self).storage@.len()
                    &&& old(self).storage@[old(self).free_indices@[k] as int] is None
                },
        ensures
            final(self).wf(),
            final(self).storage@ == old(self).storage@,
            sorted_insert_of(old(self).free_indices@, final(self).free_indices@, index),
    {
        let ghost f0 = self.free_indices@;
        let pos = lower_bound(&self.free_indices, index);
        proof {
            let f = f0;
            if pos < f.len() {
                assert(f[pos as int] != index);
            }
        }
        self.free_indices.insert(pos, index);
        proof {
            let f = f0;
            let g = self.free_indices@;
            assert(g == f.insert(pos as int, index));
            assert forall|a: int, b: int| 0 <= a < b < g.len() implies g[a] < g[b] by {
                if a < pos && b > pos {
                    assert(g[b] == f[b - 1]);
                } else if a == pos {
                    assert(g[b] == f[b - 1]);
                } else if b == pos {
                    assert(g[a] == f[a]);
                } else if a > pos {
                    assert(g[a] == f[a - 1] && g[b] == f[b - 1]);
                }
            }
            assert forall|y: usize| #[trigger] g.contains(y) <==> (f.contains(y) || y == index) by {
                if g.contains(y) {
                    let k = choose|k: int| 0 <= k < g.len() && g[k] == y;
                    if k < pos {
                        assert(f[k] == y);
                    } else if k > pos {
                        assert(f[k - 1] == y);
                    }
                }
                if f.contains(y) {
                    let k = choose|k: int| 0 <= k < f.len() && f[k] == y;
                    if k < pos {
                        assert(g[k] == y);
                    } else {
                        assert(g[k + 1] == y);
                    }
                }
                if y == index {
                    assert(g[pos as int] == y);
                }
            }
            assert forall|i: int| 0 <= i < self.storage@.len() && #[trigger] self.storage@[i] is None implies g.contains(i as usize) by {
                if i != index {
                    assert(f.contains(i as usize));
                }
                assert(g.contains(i as usize) <==> (f.contains(i as usize) || i as usize == index));
            }
            assert forall|k: int| 0 <= k < g.len() implies {
                &&& #[trigger] g[k] < self.storage@.len()
                &&& self.storage@[g[k] as int] is None
            } by {
                if k < pos {
                    assert(g[k] == f[k]);
                } else if k > pos {
                    assert(g[k] == f[k - 1]);
                }
            }
        }
    }

    /// Walks the slots that hold a value, in slot order.
    pub fn iter(&self) -> (r: Iter<'_, T>)
        ensures
            r.slots() == self@,
            r.position() == 0,
    {
        Iter { storage: &self.storage, position: 0 }
    }

    /// Walks the slots that hold a value, in slot order, for writing.
    pub fn iter_mut(&mut self) -> (r: IterMut<'_, T>)
        requires
            old(self).wf(),
        ensures
            r.slots() == old(self)@,
            r.position() == 0,
            final(self)@ == final(r.storage_ref())@,
            final(self).free_list() == old(self).free_list(),
            same_occupancy(old(self)@, final(self)@) ==> final(self).wf(),
    {
        proof {
            assert forall|t: Seq<Option<T>>, i: int|
                same_occupancy(self.storage@, t) && 0 <= i < t.len() && #[trigger] t[i] is None implies self.free_indices@.contains(
                i as usize,
            ) by {
                assert(self.storage@[i] is Some <==> t[i] is Some);
            }
        }
        IterMut { storage: &mut self.storage, position: 0 }
    }

    /// Consumes the arena, handing out `(slot, value)` for each slot that holds
    /// a value, in slot order.
    pub fn into_iter(self) -> (r: IntoIter<T>)
        ensures
            r.wf(),
            r.slots() == self@,
            r.position() == 0,
            occupied(r.slots(), r.position() as int) == occupied(self@, 0),
    {
        let r = IntoIter { items: self.storage, idx: 0 };
        proof {
            assert(r.items@.subrange(0, r.items@.len() as int) =~= r.items@);
        }
        r
    }
}

impl<T> Default for Arena<T> {
    fn default() -> (r: Self)
        ensures
            r.wf(),
            r@ == Seq::<Option<T>>::empty(),
            r.free_list() == Seq::<usize>::empty(),
    {
        Arena { storage: Vec::new(), free_indices: VecDeque::new() }
    }
}

/// `s` and `t` have values in the same slots.
pub open spec fn same_occupancy<T>(s: Seq<Option<T>>, t: Seq<Option<T>>) -> bool {
    &&& s.len() == t.len()
    &&& forall|i: int| 0 <= i < s.len() ==> (#[trigger] s[i] is Some <==> t[i] is Some)
}

/// `s[j]` is empty for every `j` with `lo <= j < hi`.
pub open spec fn empty_between<T>(s: Seq<Option<T>>, lo: int, hi: int) -> bool {
    forall|j: int| lo <= j < hi ==> #[trigger] s[j] is None
}

/// The `(slot, value)` pairs of the slots of `s` that hold a value, in slot
/// order, the first slot of `s` being numbered `base`.
pub open spec fn occupied<T>(s: Seq<Option<T>>, base: int) -> Seq<(usize, T)>
    decreases s.len(),
{
    if s.len() == 0 {
        Seq::empty()
    } else {
        let rest = occupied(s.subrange(1, s.len() as int), base + 1);
        match s[0] {
            Some(v) => seq![(base as usize, v)] + rest,
            None => rest,
        }
    }
}

/// Skipping `k` empty slots at the front changes no pair.
pub proof fn lemma_occupied_skip<T>(s: Seq<Option<T>>, base: int, k: int)
    requires
        0 <= k <= s.len(),
        empty_between(s, 0, k),
    ensures
        occupied(s, base) == occupied(s.subrange(k, s.len() as int), base + k),
    decreases k,
{
    if k == 0 {
        assert(s.subrange(0, s.len() as int) =~= s);
    } else {
        lemma_occupied_skip(s, base, k - 1);
        let t = s.subrange(k - 1, s.len() as int);
        assert(t[0] is None);
        assert(t.subrange(1, t.len() as int) =~= s.subrange(k, s.len() as int));
    }
}

/// The pairs of slots that start with a value: that slot's pair, then the
/// pairs of the slots after it.
pub proof fn lemma_occupied_front<T>(s: Seq<Option<T>>, base: int, v: T)
    requires
        s.len() > 0,
        s[0] == Some(v),
    ensures
        occupied(s, base) == seq![(base as usize, v)] + occupied(s.subrange(1, s.len() as int), base + 1),
{
}

/// Immutable iterator over (`index`, `&T`) of live entries in the arena.
pub struct Iter<'a, T> {
    storage: &'a Vec<Option<T>>,
    position: usize,
}

impl<'a, T> Iter<'a, T> {
    /// The slots walked over.
    pub closed spec fn slots(&self) -> Seq<Option<T>> {
        self.storage@
    }

    /// The first slot not yet looked at.
    pub closed spec fn position(&self) -> nat {
        self.position as nat
    }

    /// The next slot at or after the position that holds a value, with that value.
    pub fn next(&mut self) -> (r: Option<(usize, &'a T)>)
        ensures
            final(self).slots() == old(self).slots(),
            r matches Some((i, v)) ==> {
                &&& old(self).position() <= i < old(self).slots().len()
                &&& old(self).slots()[i as int] == Some(*v)
                &&& empty_between(old(self).slots(), old(self).position() as int, i as int)
                &&& final(self).position() == i + 1
            },
            r is None ==> {
                &&& empty_between(
                    old(self).slots(),
                    old(self).position() as int,
                    old(self).slots().len() as int,
                )
                &&& final(self).position() >= old(self).slots().len()
            },
    {
        let storage: &'a Vec<Option<T>> = self.storage;
        while self.position < storage.len()
            invariant
                self.storage == storage,
                old(self).storage == storage,
                old(self).position <= self.position,
                empty_between(storage@, old(self).position as int, self.position as int),
            decreases storage@.len() - self.position,
        {
            let idx = self.position;
            self.position += 1;
            match storage[idx].as_ref() {
                Some(val) => {
                    return Some((idx, val));
                },
                None => {},
            }
        }
        None
    }
}

/// Mutable iterator over (`index`, `&mut T`) of live entries in the arena.
pub struct IterMut<'a, T> {
    storage: &'a mut Vec<Option<T>>,
    position: usize,
}

impl<'a, T> IterMut<'a, T> {
    /// The arena's storage that the iterator writes through.
    pub closed spec fn storage_ref(&self) -> &'a mut Vec<Option<T>> {
        self.storage
    }

    /// The slots walked over, as they stand now.
    pub closed spec fn slots(&self) -> Seq<Option<T>> {
        self.storage@
    }

    /// The first slot not yet looked at.
    pub closed spec fn position(&self) -> nat {
        self.position as nat
    }

    /// Once the iterator is no longer used, the slots it writes through hold
    /// what it last saw.
    pub proof fn lemma_resolved(&self)
        requires
            has_resolved(*self),
        ensures
            *self.storage_ref() == *final(self.storage_ref()),
            (*final(self.storage_ref()))@ == self.slots(),
    {
    }

    /// The next slot at or after the position that holds a value, with
    /// mutable access to that value.
    pub fn next(&mut self) -> (r: Option<(usize, &mut T)>)
        ensures
            *final(final(self).storage_ref()) == *final(old(self).storage_ref()),
            r matches Some((i, v)) ==> {
                &&& old(self).position() <= i < old(self).slots().len()
                &&& old(self).slots()[i as int] == Some(*v)
                &&& empty_between(old(self).slots(), old(self).position() as int, i as int)
                &&& final(self).position() == i + 1
                &&& final(self).slots() == old(self).slots().update(i as int, Some(*final(v)))
            },
            r is None ==> {
                &&& empty_between(
                    old(self).slots(),
                    old(self).position() as int,
                    old(self).slots().len() as int,
                )
                &&& final(self).position() >= old(self).slots().len()
                &&& final(self).slots() == old(self).slots()
            },
    {
        while self.position < self.storage.len()
            invariant
                self.storage@ == old(self).storage@,
                *final(self.storage) == *final(old(self).storage),
                old(self).position <= self.position,
                empty_between(self.storage@, old(self).position as int, self.position as int),
            decreases self.storage@.len() - self.position,
        {
            let idx = self.position;
            self.position += 1;
            if self.storage[idx].is_some() {
                return Some((idx, self.storage[idx].as_mut().unwrap()));
            }
        }
        None
    }
}

/// Consuming iterator over `T` of live entries in the arena (order by index).
pub struct IntoIter<T> {
    /// All slots; those before `idx` have been looked at and emptied.
    items: Vec<Option<T>>,
    idx: usize,
}

impl<T> IntoIter<T> {
    /// The position is within the slots.
    pub closed spec fn wf(&self) -> bool {
        self.idx <= self.items@.len()
    }

    /// The slots not yet looked at, in slot order.
    pub closed spec fn slots(&self) -> Seq<Option<T>> {
        self.items@.subrange(self.idx as int, self.items@.len() as int)
    }

    /// The number of the first slot not yet looked at.
    pub closed spec fn position(&self) -> nat {
        self.idx as nat
    }

    /// The next slot that holds a value, with that value moved out.
    pub fn next(&mut self) -> (r: Option<(usize, T)>)
        requires
            old(self).wf(),
        ensures
            final(self).wf(),
            r matches Some((i, v)) ==> {
                let k = i - old(self).position();
                &&& 0 <= k < old(self).slots().len()
                &&& old(self).slots()[k] == Some(v)
                &&& empty_between(old(self).slots(), 0, k)
                &&& final(self).position() == i + 1
                &&& final(self).slots() == old(self).slots().subrange(k + 1, old(self).slots().len() as int)
            },
            r is None ==> {
                &&& empty_between(old(self).slots(), 0, old(self).slots().len() as int)
                &&& final(self).slots().len() == 0
            },
            ({
                let before = occupied(old(self).slots(), old(self).position() as int);
                let after = occupied(final(self).slots(), final(self).position() as int);
                &&& r is Some <==> before.len() > 0
                &&& r matches Some(e) ==> e == before[0] && after == before.drop_first()
                &&& r is None ==> after.len() == 0
            }),
    {
        let ghost orig = old(self).slots();
        let ghost start = old(self).idx as int;
        while self.idx < self.items.len()
            invariant
                start <= self.idx <= self.items@.len(),
                self.items@.len() == old(self).items@.len(),
                orig == old(self).slots(),
                start == old(self).idx,
                forall|j: int| self.idx <= j < self.items@.len() ==> #[trigger] self.items@[j] == old(self).items@[j],
                empty_between(orig, 0, self.idx - start),
            decreases self.items@.len() - self.idx,
        {
            let i = self.idx;
            let mut slot: Option<T> = None;
            std::mem::swap(&mut slot, &mut self.items[i]);
            self.idx += 1;
            proof {
                assert(slot == orig[i - start]);
            }
            if let Some(val) = slot {
                proof {
                    assert(self.slots() =~= orig.subrange(i - start + 1, orig.len() as int));
                    let k = i - start;
                    lemma_occupied_skip(orig, start, k);
                    let u = orig.subrange(k, orig.len() as int);
                    lemma_occupied_front(u, start + k, val);
                    assert(u.subrange(1, u.len() as int) =~= orig.subrange(k + 1, orig.len() as int));
                    assert((seq![(i, val)] + occupied(self.slots(), i + 1)).drop_first() =~= occupied(
                        self.slots(),
                        i + 1,
                    ));
                }
                return Some((i, val));
            }
        }
        proof {
            assert(self.slots() =~= Seq::<Option<T>>::empty());
            lemma_occupied_skip(orig, start, orig.len() as int);
            assert(orig.subrange(orig.len() as int, orig.len() as int) =~= Seq::<Option<T>>::empty());
        }
        None
    }
}

} // verus!
