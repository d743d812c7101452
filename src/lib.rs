//! A growable, contiguous, indexable sequence built on a slot buffer of its
//! own, with a size-aware capacity policy.
pub mod iter;
pub mod policy;
pub mod raw_vec;

use vstd::prelude::*;
use crate::iter::{Drain, IntoIter, Iter, IterMut};
use crate::policy::{
    ensured_capacity,
    lemma_growth_never_shrinks,
    lemma_shrink_law,
    max_elements,
    shrink_capacity,
};
use crate::raw_vec::{elem_size, extended, initial_capacity, occupied, shifted, vacant, values, RawVec};

verus! {

/// A sequence of elements held in the first `len` slots of a buffer it owns.
/// A clone is an independent vector of clones of the elements.
#[derive(Clone)]
pub struct Vec<T> {
    buf: RawVec<T>,
    len: usize,
}

impl<T> Vec<T> {
    /// The elements, front first.
    pub closed spec fn view(&self) -> Seq<T> {
        values(self.buf@, 0, self.len as int)
    }

    pub closed spec fn spec_len(&self) -> usize {
        self.len
    }

    pub closed spec fn spec_capacity(&self) -> usize {
        self.buf.capacity()
    }

    /// The buffer's slots: the first `len` occupied, the rest vacant.
    pub closed spec fn inv(&self) -> bool {
        &&& self.buf.wf()
        &&& self.len <= self.buf.capacity()
        &&& occupied(self.buf@, 0, self.len as int)
        &&& vacant(self.buf@, self.len as int, self.buf@.len() as int)
    }

    /// Well-formed: the length never exceeds the capacity, and zero-sized
    /// elements have an unbounded capacity.
    pub open spec fn wf(&self) -> bool {
        &&& self.inv()
        &&& self@.len() == self.len()
        &&& self.len() <= self.capacity()
        &&& elem_size::<T>() == 0 ==> self.capacity() == usize::MAX
        &&& elem_size::<T>() != 0 ==> self.capacity() <= max_elements(elem_size::<T>())
    }

    proof fn lemma_wf(&self)
        requires
            self.inv(),
        ensures
            self.wf(),
    {
    }

    /// Creates an empty vector without allocating.
    pub fn new() -> (r: Self)
        ensures
            r.wf(),
            r@ == Seq::<T>::empty(),
            r.capacity() == (if elem_size::<T>() == 0 { usize::MAX } else { 0 }),
    {
        let r = Vec { buf: RawVec::new(), len: 0 };
        proof {
            r.lemma_wf();
            assert(r@ =~= Seq::<T>::empty());
        }
        r
    }

    /// Creates an empty vector with room for `capacity` elements
    /// (`MIN_NON_ZERO_CAP` when `capacity` is zero).
    pub fn with_capacity(capacity: usize) -> (r: Self)
        requires
            elem_size::<T>() != 0 ==> initial_capacity(capacity as nat) <= max_elements(
                elem_size::<T>(),
            ),
        ensures
            r.wf(),
            r@ == Seq::<T>::empty(),
            r.capacity() == (if elem_size::<T>() == 0 {
                usize::MAX as nat
            } else {
                initial_capacity(capacity as nat)
            }),
    {
        let r = Vec { buf: RawVec::with_capacity(capacity), len: 0 };
        proof {
            r.lemma_wf();
            assert(r@ =~= Seq::<T>::empty());
        }
        r
    }

    #[verifier::when_used_as_spec(spec_capacity)]
    pub fn capacity(&self) -> (r: usize)
        ensures
            r == self.spec_capacity(),
    {
        self.buf.capacity()
    }

    #[verifier::when_used_as_spec(spec_len)]
    pub fn len(&self) -> (r: usize)
        ensures
            r == self.spec_len(),
    {
        self.len
    }

    pub fn is_empty(&self) -> (r: bool)
        requires
            self.wf(),
        ensures
            r == (self@.len() == 0),
    {
        self.len == 0
    }

    /// Makes room for at least `additional` more elements: nothing happens
    /// where there is room already; otherwise the buffer asks the capacity
    /// policy for `additional` more slots.
    pub fn reserve(&mut self, additional: usize)
        requires
            old(self).wf(),
            old(self).len() + additional <= max_elements(elem_size::<T>()),
        ensures
            final(self).wf(),
            final(self)@ == old(self)@,
            final(self).capacity() == ensured_capacity(
                old(self).capacity() as nat,
                additional as nat,
                (old(self).len() + additional) as nat,
                elem_size::<T>(),
            ),
            final(self).capacity() >= old(self).len() + additional,
            final(self).capacity() >= old(self).capacity(),
    {
        proof {
            lemma_growth_never_shrinks(
                self.capacity() as nat,
                additional as nat,
                (self.len + additional) as nat,
                elem_size::<T>(),
            );
        }
        self.buf.reserve_at_least(additional, self.len + additional);
        proof {
            assert(self@ =~= old(self)@);
            self.lemma_wf();
        }
    }

    /// Appends `item` at the back; a full buffer first asks the capacity
    /// policy for one more slot.
    pub fn push(&mut self, item: T)
        requires
            old(self).wf(),
            old(self).len() < max_elements(elem_size::<T>()),
        ensures
            final(self).wf(),
            final(self)@ == old(self)@.push(item),
            final(self).capacity() == ensured_capacity(
                old(self).capacity() as nat,
                1,
                (old(self).len() + 1) as nat,
                elem_size::<T>(),
            ),
            final(self).capacity() >= old(self).capacity(),
    {
        proof {
            lemma_growth_never_shrinks(
                self.capacity() as nat,
                1,
                (self.len + 1) as nat,
                elem_size::<T>(),
            );
        }
        self.buf.reserve_at_least(1, self.len + 1);
        self.buf.write_at(self.len, item);
        self.len = self.len + 1;
        proof {
            assert(self@ =~= old(self)@.push(item));
            self.lemma_wf();
        }
    }

    /// Removes and returns the last element, or `None` when empty.
    pub fn pop(&mut self) -> (r: Option<T>)
        requires
            old(self).wf(),
        ensures
            final(self).wf(),
            final(self).capacity() == old(self).capacity(),
            old(self)@.len() == 0 ==> r is None && final(self)@ == old(self)@,
            old(self)@.len() > 0 ==> r == Some(old(self)@.last()) && final(self)@ == old(
                self,
            )@.drop_last(),
    {
        if self.len == 0 {
            None
        } else {
            self.len = self.len - 1;
            let item = self.buf.read_at(self.len);
            proof {
                assert(self@ =~= old(self)@.drop_last());
                self.lemma_wf();
            }
            Some(item)
        }
    }

    /// Inserts `item` at `index`, moving the elements from `index` on up by one.
    pub fn insert(&mut self, index: usize, item: T)
        requires
            old(self).wf(),
            index <= old(self).len(),
            old(self).len() < max_elements(elem_size::<T>()),
        ensures
            final(self).wf(),
            final(self)@ == old(self)@.insert(index as int, item),
            final(self).capacity() == ensured_capacity(
                old(self).capacity() as nat,
                1,
                (old(self).len() + 1) as nat,
                elem_size::<T>(),
            ),
            final(self).capacity() >= old(self).capacity(),
    {
        proof {
            lemma_growth_never_shrinks(
                self.capacity() as nat,
                1,
                (self.len + 1) as nat,
                elem_size::<T>(),
            );
        }
        self.buf.reserve_at_least(1, self.len + 1);
        let ghost grown = self.buf@;
        proof {
            assert(values(grown, 0, self.len as int) =~= old(self)@);
            assert(extended(grown, grown.len()) =~= grown);
        }
        self.buf.shift_right(index, self.len - index, 1);
        self.buf.write_at(index, item);
        proof {
            lemma_insert_slots(grown, self.len as int, index as int, item);
        }
        self.len = self.len + 1;
        proof {
            self.lemma_wf();
        }
    }

    /// Removes and returns the element at `index`, moving the elements after
    /// it down by one.
    pub fn remove(&mut self, index: usize) -> (r: T)
        requires
            old(self).wf(),
            index < old(self).len(),
        ensures
            final(self).wf(),
            final(self).capacity() == old(self).capacity(),
            r == old(self)@[index as int],
            final(self)@ == old(self)@.remove(index as int),
    {
        let ghost s0 = self.buf@;
        let item = self.buf.read_at(index);
        let count = self.len - (index + 1);
        self.buf.shift_left(index + 1, count, 1);
        proof {
            lemma_remove_slots(s0, self.len as int, index as int);
        }
        self.len = self.len - 1;
        proof {
            self.lemma_wf();
        }
        item
    }

    /// Gives unused capacity back where the capacity policy finds it worth it.
    pub fn shrink_to_fit(&mut self)
        requires
            old(self).wf(),
        ensures
            final(self).wf(),
            final(self)@ == old(self)@,
            final(self).capacity() == shrink_capacity(
                old(self).capacity() as nat,
                old(self).len() as nat,
                elem_size::<T>(),
            ),
    {
        self.buf.shrink_to_fit(self.len);
        proof {
            lemma_shrink_law(old(self).capacity() as nat, self.len as nat, elem_size::<T>());
            if self.capacity() != old(self).capacity() {
                let s0 = old(self).buf@;
                assert(self.buf@ == extended(s0.subrange(0, self.len as int), self.capacity() as nat));
                assert forall|i: int| 0 <= i < self.len implies #[trigger] self.buf@[i] == s0[i] by {}
                assert forall|i: int| self.len <= i < self.buf@.len() implies #[trigger] self.buf@[i] is None by {}
            }
            assert(self@ =~= old(self)@);
            self.lemma_wf();
        }
    }

    /// Drops the elements from `len` on, then shrinks the buffer when less
    /// than a quarter of it is left in use.
    pub fn truncate(&mut self, len: usize)
        requires
            old(self).wf(),
        ensures
            final(self).wf(),
            final(self)@ == (if len < old(self).len() {
                old(self)@.subrange(0, len as int)
            } else {
                old(self)@
            }),
            final(self).capacity() == (if 4 * final(self).len() < old(self).capacity() {
                shrink_capacity(
                    old(self).capacity() as nat,
                    final(self).len() as nat,
                    elem_size::<T>(),
                )
            } else {
                old(self).capacity() as nat
            }),
    {
        while self.len > len
            invariant
                self.wf(),
                self.capacity() == old(self).capacity(),
                self.len() <= old(self).len(),
                self.len() >= len || self.len() == old(self).len(),
                self@ == old(self)@.subrange(0, self.len() as int),
            decreases self.len,
        {
            self.pop();
        }
        let cap = self.capacity();
        if cap > 0 && self.len <= (cap - 1) / 4 {
            self.shrink_to_fit();
        }
    }

    /// Drops every element; the capacity stays for reuse.
    pub fn clear(&mut self)
        requires
            old(self).wf(),
        ensures
            final(self).wf(),
            final(self)@ == Seq::<T>::empty(),
            final(self).capacity() == old(self).capacity(),
    {
        while self.len > 0
            invariant
                self.wf(),
                self.capacity() == old(self).capacity(),
            decreases self.len,
        {
            self.pop();
        }
        proof {
            assert(self@ =~= Seq::<T>::empty());
        }
    }

    /// A cursor over shared references to the elements.
    pub fn iter(&self) -> (r: Iter<'_, T>)
        requires
            self.wf(),
        ensures
            r.wf(),
            r@ == self@,
    {
        Iter::new(&self.buf, 0, self.len)
    }

    /// A cursor that lends each element mutably in turn. The cursor only
    /// ever replaces elements in place, so the vector keeps its length.
    pub fn iter_mut(&mut self) -> (r: IterMut<'_, T>)
        requires
            old(self).wf(),
        ensures
            r.wf(),
            r@ == old(self)@,
            r.front() == 0,
            r.back() == old(self).len(),
            final(self).len() == old(self).len(),
    {
        IterMut::new(&mut self.buf, 0, self.len)
    }

    /// Removes the elements in `range` at once and hands them back, in order,
    /// through the returned drain; the elements after the range move down to
    /// close the gap.
    pub fn drain(&mut self, range: std::ops::Range<usize>) -> (r: Drain<T>)
        requires
            old(self).wf(),
            range.start <= range.end <= old(self).len(),
        ensures
            final(self).wf(),
            final(self).capacity() == old(self).capacity(),
            r.wf(),
            r@ == old(self)@.subrange(range.start as int, range.end as int),
            final(self)@ == old(self)@.subrange(0, range.start as int) + old(self)@.subrange(
                range.end as int,
                old(self)@.len() as int,
            ),
    {
        let orig_len = self.len;
        self.len = self.len - (range.end - range.start);
        let r = Drain::new(&mut self.buf, range.start, range.end, orig_len);
        proof {
            assert(r@ =~= old(self)@.subrange(range.start as int, range.end as int));
            assert(self@ =~= old(self)@.subrange(0, range.start as int) + old(self)@.subrange(
                range.end as int,
                old(self)@.len() as int,
            ));
            self.lemma_wf();
        }
        r
    }

    /// The occupied slots as one contiguous run; each holds its element.
    pub fn as_slice(&self) -> (r: &[Option<T>])
        requires
            self.wf(),
        ensures
            r@.len() == self@.len(),
            forall|i: int| 0 <= i < r@.len() ==> (#[trigger] r@[i]) == Some(self@[i]),
    {
        self.buf.prefix(self.len)
    }

    /// The occupied slots as one contiguous run, mutably. The vector stays
    /// well-formed as long as every slot is left holding an element.
    pub fn as_mut_slice(&mut self) -> (r: &mut [Option<T>])
        requires
            old(self).wf(),
        ensures
            r@.len() == old(self)@.len(),
            forall|i: int| 0 <= i < r@.len() ==> (#[trigger] r@[i]) == Some(old(self)@[i]),
            final(self).len() == old(self).len(),
            occupied(final(r)@, 0, old(self).len() as int) && final(r)@.len() == old(self).len()
                ==> final(self).wf() && final(self).capacity() == old(self).capacity()
                && final(self)@ == values(final(r)@, 0, old(self).len() as int),
    {
        self.buf.prefix_mut(self.len)
    }

    /// Replaces the element at `index` with `item`.
    pub fn index_assign(&mut self, index: usize, item: T)
        requires
            old(self).wf(),
            index < old(self).len(),
        ensures
            final(self).wf(),
            final(self).capacity() == old(self).capacity(),
            final(self)@ == old(self)@.update(index as int, item),
    {
        self.buf.write_at(index, item);
        proof {
            assert(self@ =~= old(self)@.update(index as int, item));
            self.lemma_wf();
        }
    }

    /// A cursor that owns the elements.
    pub fn into_iter(self) -> (r: IntoIter<T>)
        requires
            self.wf(),
        ensures
            r.wf(),
            r@ == self@,
    {
        let Vec { buf, len } = self;
        IntoIter::new(buf, 0, len)
    }

    /// Appends the elements of `items` in order, reserving room for all of
    /// them first.
    pub fn extend(&mut self, items: std::vec::Vec<T>)
        requires
            old(self).wf(),
            old(self).len() + items@.len() <= max_elements(elem_size::<T>()),
        ensures
            final(self).wf(),
            final(self)@ == old(self)@ + items@,
            final(self).capacity() == ensured_capacity(
                old(self).capacity() as nat,
                items@.len(),
                (old(self).len() + items@.len()) as nat,
                elem_size::<T>(),
            ),
            final(self).capacity() >= old(self).capacity(),
    {
        let n = items.len();
        self.reserve(n);
        let ghost reserved = self.capacity();
        let ghost given = items@;
        let mut items = items;
        let mut reversed: std::vec::Vec<T> = std::vec::Vec::with_capacity(n);
        while items.len() > 0
            invariant
                n == given.len(),
                items@ == given.subrange(0, items@.len() as int),
                reversed@.len() + items@.len() == n,
                forall|j: int|
                    0 <= j < reversed@.len() ==> #[trigger] reversed@[j] == given[n - 1 - j],
            decreases items@.len(),
        {
            let x = items.pop().unwrap();
            reversed.push(x);
            proof {
                assert(items@ =~= given.subrange(0, items@.len() as int));
            }
        }
        while reversed.len() > 0
            invariant
                n == given.len(),
                self.wf(),
                self.capacity() == reserved,
                self.capacity() >= old(self).len() + n,
                self@ == old(self)@ + given.subrange(0, n - reversed@.len()),
                reversed@.len() <= n,
                forall|j: int|
                    0 <= j < reversed@.len() ==> #[trigger] reversed@[j] == given[n - 1 - j],
            decreases reversed@.len(),
        {
            let x = reversed.pop().unwrap();
            self.push(x);
            proof {
                assert(self@ =~= old(self)@ + given.subrange(0, n - reversed@.len()));
            }
        }
        proof {
            assert(given.subrange(0, n as int) =~= given);
        }
    }

    /// A vector holding the elements of `items` in order.
    pub fn build_from(items: std::vec::Vec<T>) -> (r: Self)
        requires
            items@.len() <= max_elements(elem_size::<T>()),
        ensures
            r.wf(),
            r@ == items@,
    {
        let mut r = Vec::new();
        r.extend(items);
        proof {
            assert(Seq::<T>::empty() + items@ =~= items@);
        }
        r
    }
}

impl<T> std::ops::Index<usize> for Vec<T> {
    type Output = T;

    fn index(&self, index: usize) -> (r: &T)
        ensures
            *r == self@[index as int],
    {
        self.buf.get_ref(index)
    }
}

impl<T> vstd::std_specs::core::IndexSpecImpl<usize> for Vec<T> {
    open spec fn index_req(&self, index: &usize) -> bool {
        self.wf() && *index < self.len()
    }
}

/// The length of a vector never exceeds its capacity.
pub proof fn lemma_len_within_capacity<T>(v: &Vec<T>)
    requires
        v.wf(),
    ensures
        v@.len() <= v.capacity(),
{
}

/// A vector of zero-sized elements always reports an unbounded capacity.
pub proof fn lemma_zero_sized_unbounded<T>(v: &Vec<T>)
    requires
        v.wf(),
        elem_size::<T>() == 0,
    ensures
        v.capacity() == usize::MAX,
{
}

/// Inserting `item` at `index` and then removing at `index` gives `item`
/// back and restores the elements as they were.
pub proof fn lemma_insert_then_remove<T>(elems: Seq<T>, index: int, item: T)
    requires
        0 <= index <= elems.len(),
    ensures
        elems.insert(index, item)[index] == item,
        elems.insert(index, item).remove(index) == elems,
{
    assert(elems.insert(index, item).remove(index) =~= elems);
}

/// The elements after pushing each of `items` in order onto `elems`.
pub open spec fn push_all<T>(elems: Seq<T>, items: Seq<T>) -> Seq<T>
    decreases items.len(),
{
    if items.len() == 0 {
        elems
    } else {
        push_all(elems.push(items[0]), items.drop_first())
    }
}

/// Popping `n` times from `elems`: the elements left, and the popped ones in
/// the order they came out.
pub open spec fn pop_n<T>(elems: Seq<T>, n: nat) -> (Seq<T>, Seq<T>)
    decreases n,
{
    if n == 0 || elems.len() == 0 {
        (elems, Seq::empty())
    } else {
        let (rest, popped) = pop_n(elems.drop_last(), (n - 1) as nat);
        (rest, seq![elems.last()] + popped)
    }
}

proof fn lemma_push_all<T>(elems: Seq<T>, items: Seq<T>)
    ensures
        push_all(elems, items) == elems + items,
    decreases items.len(),
{
    if items.len() > 0 {
        lemma_push_all(elems.push(items[0]), items.drop_first());
        assert(elems.push(items[0]) + items.drop_first() =~= elems + items);
    } else {
        assert(elems + items =~= elems);
    }
}

proof fn lemma_pop_all<T>(items: Seq<T>)
    ensures
        pop_n(items, items.len()) == (Seq::<T>::empty(), items.reverse()),
    decreases items.len(),
{
    if items.len() > 0 {
        lemma_pop_all(items.drop_last());
        assert(seq![items.last()] + items.drop_last().reverse() =~= items.reverse());
    } else {
        assert(items =~= Seq::<T>::empty());
        assert(items.reverse() =~= Seq::<T>::empty());
    }
}

/// Pushing `items` onto an empty vector and then popping as many times gives
/// them back last first, and leaves the vector empty.
pub proof fn lemma_stack_law<T>(items: Seq<T>)
    ensures
        pop_n(push_all(Seq::<T>::empty(), items), items.len()) == (
            Seq::<T>::empty(),
            items.reverse(),
        ),
{
    lemma_push_all(Seq::<T>::empty(), items);
    assert(Seq::<T>::empty() + items =~= items);
    lemma_pop_all(items);
}

/// Opening a gap at `index` in the occupied slots `[0, len)` and filling it
/// with `item` inserts `item` into the elements.
proof fn lemma_insert_slots<T>(s: Seq<Option<T>>, len: int, index: int, item: T)
    requires
        0 <= index <= len < s.len(),
        occupied(s, 0, len),
        vacant(s, len, s.len() as int),
    ensures
        ({
            let t = shifted(s, index, len - index, index + 1).update(index, Some(item));
            &&& t.len() == s.len()
            &&& occupied(t, 0, len + 1)
            &&& vacant(t, len + 1, s.len() as int)
            &&& values(t, 0, len + 1) == values(s, 0, len).insert(index, item)
        }),
{
    let t = shifted(s, index, len - index, index + 1).update(index, Some(item));
    assert(values(t, 0, len + 1) =~= values(s, 0, len).insert(index, item));
}

/// Taking the element at `index` out of the occupied slots `[0, len)` and
/// closing the gap removes it from the elements.
proof fn lemma_remove_slots<T>(s: Seq<Option<T>>, len: int, index: int)
    requires
        0 <= index < len <= s.len(),
        occupied(s, 0, len),
        vacant(s, len, s.len() as int),
    ensures
        ({
            let t = shifted(s.update(index, None), index + 1, len - index - 1, index);
            &&& t.len() == s.len()
            &&& occupied(t, 0, len - 1)
            &&& vacant(t, len - 1, s.len() as int)
            &&& values(t, 0, len - 1) == values(s, 0, len).remove(index)
        }),
{
    let t = shifted(s.update(index, None), index + 1, len - index - 1, index);
    assert(values(t, 0, len - 1) =~= values(s, 0, len).remove(index));
}

} // verus!
