//! The raw buffer: a run of `capacity` slots, each vacant or holding one
//! element, with no notion of how many of them a container uses. It grows and
//! shrinks by the capacity policy and moves whole runs of slots to open or
//! close gaps.
use vstd::prelude::*;
use crate::policy::{
    ensured_capacity,
    growth_capacity,
    max_capacity,
    max_elements,
    max_elements_for,
    max_nat,
    min_nat,
    next_power_of_two,
    reserve_capacity,
    should_shrink_spec,
    shrink_capacity,
    lemma_next_pow2,
    lemma_reserve_covers_request,
    LARGE_ELEM_BYTES,
    MAX_EXCESS_BYTES,
    MAX_ROUNDING_WASTE_BYTES,
    MIN_NON_ZERO_CAP,
    SMALL_ELEM_BYTES,
};

verus! {

/// Size in bytes of one element of type `T`.
pub open spec fn elem_size<T>() -> nat {
    vstd::layout::size_of::<T>()
}

/// `s` followed by vacant slots up to length `n`.
pub open spec fn extended<T>(s: Seq<Option<T>>, n: nat) -> Seq<Option<T>> {
    Seq::new(n, |i: int| if i < s.len() { s[i] } else { None })
}

/// `s` after the `count` slots from `from` have moved to start at `to`; the
/// slots they left and that nothing moved onto are vacant.
pub open spec fn shifted<T>(s: Seq<Option<T>>, from: int, count: int, to: int) -> Seq<Option<T>> {
    Seq::new(
        s.len(),
        |j: int|
            if to <= j < to + count {
                s[j - to + from]
            } else if from <= j < from + count {
                None
            } else {
                s[j]
            },
    )
}

/// Every slot in `[start, end)` holds an element.
pub open spec fn occupied<T>(s: Seq<Option<T>>, start: int, end: int) -> bool {
    forall|i: int| start <= i < end ==> (#[trigger] s[i]) is Some
}

/// Every slot in `[start, end)` is vacant.
pub open spec fn vacant<T>(s: Seq<Option<T>>, start: int, end: int) -> bool {
    forall|i: int| start <= i < end ==> (#[trigger] s[i]) is None
}

/// The elements held in the slots `[start, end)`.
pub open spec fn values<T>(s: Seq<Option<T>>, start: int, end: int) -> Seq<T> {
    Seq::new((end - start) as nat, |i: int| s[start + i]->0)
}

/// Capacity of a buffer made with `with_capacity(capacity)` for non-zero-sized
/// elements.
pub open spec fn initial_capacity(capacity: nat) -> nat {
    if capacity == 0 {
        MIN_NON_ZERO_CAP as nat
    } else {
        capacity
    }
}

/// A buffer of `capacity` slots. Zero-sized elements need no storage: their
/// capacity is always `usize::MAX`, and only the slots written so far are
/// materialised. A clone holds clones of the elements in the same slots.
#[derive(Clone)]
pub struct RawVec<T> {
    slots: std::vec::Vec<Option<T>>,
    cap: usize,
}

impl<T> RawVec<T> {
    /// The slots, `capacity` of them.
    pub closed spec fn view(&self) -> Seq<Option<T>> {
        extended(self.slots@, self.cap as nat)
    }

    pub closed spec fn spec_capacity(&self) -> usize {
        self.cap
    }

    pub closed spec fn inv(&self) -> bool {
        &&& self.slots@.len() <= self.cap
        &&& elem_size::<T>() != 0 ==> self.slots@.len() == self.cap
    }

    /// Well-formed: the view has `capacity` slots; zero-sized elements have an
    /// unbounded capacity, others one within the platform limit.
    pub open spec fn wf(&self) -> bool {
        &&& self.inv()
        &&& self@.len() == self.capacity()
        &&& elem_size::<T>() == 0 ==> self.capacity() == usize::MAX
        &&& elem_size::<T>() != 0 ==> self.capacity() <= max_elements(elem_size::<T>())
    }

    proof fn lemma_wf(&self)
        requires
            self.inv(),
            elem_size::<T>() == 0 ==> self.cap == usize::MAX,
            elem_size::<T>() != 0 ==> self.cap <= max_elements(elem_size::<T>()),
        ensures
            self.wf(),
    {
    }

    /// Creates an empty buffer without allocating.
    pub fn new() -> (r: Self)
        ensures
            r.wf(),
            r.capacity() == (if elem_size::<T>() == 0 { usize::MAX } else { 0 }),
            vacant(r@, 0, r@.len() as int),
    {
        let cap = if core::mem::size_of::<T>() == 0 {
            usize::MAX
        } else {
            0
        };
        let r = RawVec { slots: std::vec::Vec::new(), cap };
        proof {
            r.lemma_wf();
        }
        r
    }

    /// Creates a buffer of `capacity` vacant slots (`MIN_NON_ZERO_CAP` when
    /// `capacity` is zero).
    pub fn with_capacity(capacity: usize) -> (r: Self)
        requires
            elem_size::<T>() != 0 ==> initial_capacity(capacity as nat) <= max_elements(
                elem_size::<T>(),
            ),
        ensures
            r.wf(),
            r.capacity() == (if elem_size::<T>() == 0 {
                usize::MAX as nat
            } else {
                initial_capacity(capacity as nat)
            }),
            vacant(r@, 0, r@.len() as int),
    {
        if core::mem::size_of::<T>() == 0 {
            let r = RawVec { slots: std::vec::Vec::new(), cap: usize::MAX };
            proof {
                r.lemma_wf();
            }
            return r;
        }
        let capacity = if capacity == 0 {
            MIN_NON_ZERO_CAP
        } else {
            capacity
        };
        let mut slots: std::vec::Vec<Option<T>> = std::vec::Vec::with_capacity(capacity);
        while slots.len() < capacity
            invariant
                slots@.len() <= capacity,
                vacant(slots@, 0, slots@.len() as int),
            decreases capacity - slots@.len(),
        {
            slots.push(None);
        }
        let r = RawVec { slots, cap: capacity };
        proof {
            r.lemma_wf();
            assert(vacant(r@, 0, r@.len() as int));
        }
        r
    }

    #[verifier::when_used_as_spec(spec_capacity)]
    pub fn capacity(&self) -> (r: usize)
        ensures
            r == self.spec_capacity(),
    {
        self.cap
    }

    /// The storage behind the slots, or `None` where nothing is allocated.
    /// For zero-sized elements only the slots written so far are stored.
    pub fn ptr(&self) -> (r: Option<&[Option<T>]>)
        requires
            self.wf(),
        ensures
            r is None <==> self.capacity() == 0,
            r matches Some(s) ==> s@.len() <= self.capacity() && extended(
                s@,
                self.capacity() as nat,
            ) == self@,
            r matches Some(s) ==> (elem_size::<T>() != 0 ==> s@.len() == self.capacity()),
    {
        if self.cap == 0 {
            None
        } else {
            Some(self.slots.as_slice())
        }
    }

    /// Moves the content of slot `index` out, leaving the slot vacant.
    fn take_slot(&mut self, index: usize) -> (r: Option<T>)
        requires
            old(self).wf(),
            index < old(self).capacity(),
        ensures
            final(self).wf(),
            final(self).capacity() == old(self).capacity(),
            r == old(self)@[index as int],
            final(self)@ == old(self)@.update(index as int, None),
    {
        if index < self.slots.len() {
            let r = self.slots[index].take();
            proof {
                assert(self@ =~= old(self)@.update(index as int, None));
            }
            r
        } else {
            proof {
                assert(self@ =~= old(self)@.update(index as int, None));
            }
            None
        }
    }

    /// Puts `value` into slot `index`, dropping what the slot held.
    fn put_slot(&mut self, index: usize, value: Option<T>)
        requires
            old(self).wf(),
            index < old(self).capacity(),
        ensures
            final(self).wf(),
            final(self).capacity() == old(self).capacity(),
            final(self)@ == old(self)@.update(index as int, value),
    {
        if index < self.slots.len() {
            self.slots.set(index, value);
            proof {
                assert(self@ =~= old(self)@.update(index as int, value));
            }
        } else if value.is_some() {
            while self.slots.len() < index
                invariant
                    self.cap == old(self).cap,
                    self.slots@.len() <= index < self.cap,
                    elem_size::<T>() == 0,
                    self@ == old(self)@,
                decreases index - self.slots@.len(),
            {
                self.slots.push(None);
                proof {
                    assert(self@ =~= old(self)@);
                }
            }
            self.slots.push(value);
            proof {
                assert(self@ =~= old(self)@.update(index as int, value));
            }
        } else {
            proof {
                assert(self@ =~= old(self)@.update(index as int, value));
            }
        }
    }

    /// Most slots a buffer of this element type may have.
    fn max_elements(&self) -> (r: usize)
        ensures
            r == max_elements(elem_size::<T>()),
    {
        max_elements_for(core::mem::size_of::<T>())
    }

    /// Capacity to grow a non-empty buffer to when `required_cap` slots are
    /// asked for, by the element size's tier.
    fn calculate_growth(&self, required_cap: usize) -> (r: usize)
        requires
            self.wf(),
            elem_size::<T>() != 0,
            0 < self.capacity() < required_cap <= max_elements(elem_size::<T>()),
        ensures
            r == growth_capacity(self.capacity() as nat, required_cap as nat, elem_size::<T>()),
            r >= required_cap,
    {
        let elem_size = core::mem::size_of::<T>();
        let cap = self.cap;
        let growth = if elem_size > LARGE_ELEM_BYTES {
            cap + cap / 4
        } else if elem_size > SMALL_ELEM_BYTES {
            cap + cap / 2
        } else {
            cap * 2
        };
        let mut new_cap = if growth > required_cap {
            growth
        } else {
            required_cap
        };
        if elem_size <= SMALL_ELEM_BYTES {
            let rounded = next_power_of_two(new_cap);
            proof {
                lemma_next_pow2(new_cap as nat);
            }
            let waste = rounded - new_cap;
            let within_eighth = rounded <= new_cap + new_cap / 8;
            let within_bytes = waste <= MAX_ROUNDING_WASTE_BYTES / elem_size;
            proof {
                lemma_mul_le_iff_le_div(waste as int, elem_size as int, MAX_ROUNDING_WASTE_BYTES as int);
            }
            if within_eighth && within_bytes {
                new_cap = rounded;
            }
        }
        let limit = max_capacity();
        if new_cap < limit {
            new_cap
        } else {
            limit
        }
    }

    /// Whether a buffer holding `len` elements is worth shrinking.
    fn should_shrink(&self, len: usize) -> (r: bool)
        requires
            self.wf(),
            len <= self.capacity(),
        ensures
            r == should_shrink_spec(self.capacity() as nat, len as nat, elem_size::<T>()),
    {
        let elem_size = core::mem::size_of::<T>();
        if elem_size == 0 {
            return false;
        }
        let waste = self.cap - len;
        proof {
            lemma_bytes_fit(waste as int, self.cap as int, elem_size as int);
        }
        let waste_bytes = waste * elem_size;
        let cap = self.cap as u64;
        (waste_bytes > MAX_EXCESS_BYTES && 4 * (waste as u64) > cap) || 4 * (len as u64) < cap
    }

    /// Grows the buffer to `new_cap` slots, clamped to the element type's
    /// limit; does nothing where that is no growth.
    fn grow_to(&mut self, new_cap: usize)
        requires
            old(self).wf(),
            elem_size::<T>() != 0,
        ensures
            final(self).wf(),
            final(self).capacity() == max_nat(
                old(self).capacity() as nat,
                min_nat(new_cap as nat, max_elements(elem_size::<T>())),
            ),
            final(self)@ == extended(old(self)@, final(self).capacity() as nat),
    {
        let limit = self.max_elements();
        let target = if new_cap > limit {
            limit
        } else {
            new_cap
        };
        if target <= self.cap {
            proof {
                assert(self@ =~= extended(old(self)@, self.cap as nat));
            }
            return;
        }
        self.slots.reserve(target - self.slots.len());
        while self.slots.len() < target
            invariant
                self.cap == old(self).cap,
                old(self).slots@.len() == self.cap,
                self.cap <= self.slots@.len() <= target,
                self.slots@.subrange(0, self.cap as int) == old(self).slots@,
                vacant(self.slots@, self.cap as int, self.slots@.len() as int),
            decreases target - self.slots@.len(),
        {
            self.slots.push(None);
            proof {
                assert(self.slots@.subrange(0, self.cap as int) =~= old(self).slots@);
            }
        }
        self.cap = target;
        proof {
            assert(self@ =~= extended(old(self)@, self.cap as nat)) by {
                assert forall|i: int| 0 <= i < self.cap implies self@[i] == extended(
                    old(self)@,
                    self.cap as nat,
                )[i] by {
                    if i < old(self).cap {
                        assert(self.slots@.subrange(0, old(self).cap as int)[i] == self.slots@[i]);
                    }
                }
            }
        }
    }

    /// Makes room for `additional` more slots beyond the current capacity, as
    /// the capacity policy decides; the request is capped at the element
    /// type's limit.
    pub fn reserve(&mut self, additional: usize)
        requires
            old(self).wf(),
        ensures
            final(self).wf(),
            final(self).capacity() == reserve_capacity(
                old(self).capacity() as nat,
                additional as nat,
                elem_size::<T>(),
            ),
            final(self).capacity() >= min_nat(
                (old(self).capacity() + additional) as nat,
                max_elements(elem_size::<T>()),
            ),
            additional == 0 ==> final(self).capacity() == old(self).capacity(),
            final(self)@ == extended(old(self)@, final(self).capacity() as nat),
    {
        proof {
            lemma_reserve_covers_request(self.cap as nat, additional as nat, elem_size::<T>());
        }
        if core::mem::size_of::<T>() == 0 {
            proof {
                assert(self@ =~= extended(old(self)@, self.cap as nat));
            }
            return;
        }
        let required_cap = match self.cap.checked_add(additional) {
            Some(r) => r,
            None => max_capacity(),
        };
        let max_elements = self.max_elements();
        let capped_required = if required_cap < max_elements {
            required_cap
        } else {
            max_elements
        };
        if capped_required <= self.cap {
            proof {
                assert(self@ =~= extended(old(self)@, self.cap as nat));
            }
            return;
        }
        if self.cap == 0 {
            let new_cap = if capped_required > MIN_NON_ZERO_CAP {
                capped_required
            } else {
                MIN_NON_ZERO_CAP
            };
            let rounded = next_power_of_two(new_cap);
            self.grow_to(rounded);
            return;
        }
        let new_cap = self.calculate_growth(capped_required);
        self.grow_to(new_cap);
    }

    /// Makes sure at least `needed` slots exist, asking the policy for
    /// `additional` more where they do not.
    pub(crate) fn reserve_at_least(&mut self, additional: usize, needed: usize)
        requires
            old(self).wf(),
            needed <= old(self).capacity() + additional,
            needed <= max_elements(elem_size::<T>()),
        ensures
            final(self).wf(),
            final(self).capacity() == ensured_capacity(
                old(self).capacity() as nat,
                additional as nat,
                needed as nat,
                elem_size::<T>(),
            ),
            final(self).capacity() >= needed,
            final(self)@ == extended(old(self)@, final(self).capacity() as nat),
    {
        if needed <= self.cap {
            proof {
                assert(self@ =~= extended(old(self)@, self.cap as nat));
            }
            return;
        }
        self.reserve(additional);
    }

    /// Shrinks the buffer of a container holding `len` elements in slots
    /// `[0, len)` where the capacity policy finds it worth it.
    pub fn shrink_to_fit(&mut self, len: usize)
        requires
            old(self).wf(),
            len <= old(self).capacity(),
        ensures
            final(self).wf(),
            final(self).capacity() == shrink_capacity(
                old(self).capacity() as nat,
                len as nat,
                elem_size::<T>(),
            ),
            final(self).capacity() == old(self).capacity() ==> final(self)@ == old(self)@,
            final(self).capacity() != old(self).capacity() ==> final(self)@ == extended(
                old(self)@.subrange(0, len as int),
                final(self).capacity() as nat,
            ),
    {
        if core::mem::size_of::<T>() == 0 {
            return;
        }
        if len >= self.cap - self.cap / 4 {
            return;
        }
        if self.should_shrink(len) {
            let next = next_power_of_two(len);
            proof {
                lemma_next_pow2(len as nat);
            }
            let new_cap = if next > MIN_NON_ZERO_CAP {
                next
            } else {
                MIN_NON_ZERO_CAP
            };
            if new_cap < self.cap {
                let mut slots: std::vec::Vec<Option<T>> = std::vec::Vec::with_capacity(new_cap);
                let mut i: usize = 0;
                while i < len
                    invariant
                        i <= len <= new_cap < self.cap,
                        self.wf(),
                        self.cap == old(self).cap,
                        slots@.len() == i,
                        forall|j: int| 0 <= j < i ==> slots@[j] == old(self)@[j],
                        forall|j: int| i <= j < self.cap ==> self@[j] == old(self)@[j],
                    decreases len - i,
                {
                    let v = self.take_slot(i);
                    slots.push(v);
                    i = i + 1;
                }
                while slots.len() < new_cap
                    invariant
                        len <= slots@.len() <= new_cap,
                        forall|j: int| 0 <= j < len ==> slots@[j] == old(self)@[j],
                        vacant(slots@, len as int, slots@.len() as int),
                    decreases new_cap - slots@.len(),
                {
                    slots.push(None);
                }
                self.slots = slots;
                self.cap = new_cap;
                proof {
                    lemma_next_pow2(len as nat);
                    assert(self@ =~= extended(old(self)@.subrange(0, len as int), new_cap as nat));
                }
            }
        }
    }

    /// Moves the `count` slots from `index` up by `places`, opening a gap of
    /// `places` vacant slots at `index`; grows the buffer first where the
    /// moved run would end beyond the capacity. Moving no slots does nothing.
    pub fn shift_right(&mut self, index: usize, count: usize, places: usize)
        requires
            old(self).wf(),
            index + count <= old(self).capacity(),
            count > 0 ==> index + places + count <= max_elements(elem_size::<T>()),
        ensures
            final(self).wf(),
            count == 0 ==> *final(self) == *old(self),
            final(self).capacity() == (if count == 0 {
                old(self).capacity() as nat
            } else {
                ensured_capacity(
                    old(self).capacity() as nat,
                    (index + places + count - old(self).capacity()) as nat,
                    (index + places + count) as nat,
                    elem_size::<T>(),
                )
            }),
            final(self).capacity() >= index + places + count || count == 0,
            final(self)@ == shifted(
                extended(old(self)@, final(self).capacity() as nat),
                index as int,
                count as int,
                index + places,
            ),
    {
        if count == 0 {
            proof {
                assert(shifted(extended(old(self)@, self.cap as nat), index as int, 0, index + places)
                    =~= old(self)@);
            }
            return;
        }
        let new_end = index + places + count;
        if new_end > self.cap {
            let additional = new_end - self.cap;
            self.reserve_at_least(additional, new_end);
        } else {
            proof {
                assert(self@ =~= extended(old(self)@, self.cap as nat));
            }
        }
        let ghost start = self@;
        let to = index + places;
        let mut k: usize = count;
        while k > 0
            invariant
                self.wf(),
                self.capacity() == start.len(),
                k <= count,
                to == index + places,
                index + places + count <= self.capacity(),
                self@ == Seq::new(
                    start.len(),
                    |j: int|
                        if to + k <= j < to + count {
                            start[j - to + index]
                        } else if index + k <= j < index + count {
                            None
                        } else {
                            start[j]
                        },
                ),
            decreases k,
        {
            k = k - 1;
            let v = self.take_slot(index + k);
            self.put_slot(to + k, v);
            proof {
                assert(self@ =~= Seq::new(
                    start.len(),
                    |j: int|
                        if to + k <= j < to + count {
                            start[j - to + index]
                        } else if index + k <= j < index + count {
                            None
                        } else {
                            start[j]
                        },
                ));
            }
        }
        proof {
            assert(self@ =~= shifted(start, index as int, count as int, to as int));
        }
    }

    /// Moves the `count` slots from `index` down by `places`, closing a gap;
    /// the slots left at the top of the run become vacant.
    pub fn shift_left(&mut self, index: usize, count: usize, places: usize)
        requires
            old(self).wf(),
            places <= index,
            index + count <= old(self).capacity(),
        ensures
            final(self).wf(),
            final(self).capacity() == old(self).capacity(),
            final(self)@ == shifted(old(self)@, index as int, count as int, index - places),
    {
        if count == 0 {
            proof {
                assert(self@ =~= shifted(old(self)@, index as int, count as int, index - places));
            }
            return;
        }
        let ghost start = self@;
        let to = index - places;
        let mut k: usize = 0;
        while k < count
            invariant
                self.wf(),
                self.capacity() == old(self).capacity(),
                start == old(self)@,
                k <= count,
                to == index - places,
                index + count <= self.capacity(),
                self@ == Seq::new(
                    start.len(),
                    |j: int|
                        if to <= j < to + k {
                            start[j - to + index]
                        } else if index <= j < index + k {
                            None
                        } else {
                            start[j]
                        },
                ),
            decreases count - k,
        {
            let v = self.take_slot(index + k);
            self.put_slot(to + k, v);
            k = k + 1;
            proof {
                assert(self@ =~= Seq::new(
                    start.len(),
                    |j: int|
                        if to <= j < to + k {
                            start[j - to + index]
                        } else if index <= j < index + k {
                            None
                        } else {
                            start[j]
                        },
                ));
            }
        }
        proof {
            assert(self@ =~= shifted(start, index as int, count as int, to as int));
        }
    }

    /// The first `n` slots as one contiguous run.
    pub(crate) fn prefix(&self, n: usize) -> (r: &[Option<T>])
        requires
            self.wf(),
            n <= self.capacity(),
            occupied(self@, 0, n as int),
        ensures
            r@ == self@.subrange(0, n as int),
    {
        proof {
            if n > 0 {
                assert(self@[n - 1] is Some);
            }
        }
        let r = self.slots.as_slice().split_at(n).0;
        proof {
            assert(r@ =~= self@.subrange(0, n as int));
        }
        r
    }

    /// The first `n` slots as one contiguous run, mutably.
    pub(crate) fn prefix_mut(&mut self, n: usize) -> (r: &mut [Option<T>])
        requires
            old(self).wf(),
            n <= old(self).capacity(),
            occupied(old(self)@, 0, n as int),
        ensures
            r@ == old(self)@.subrange(0, n as int),
            final(r)@.len() == n ==> final(self).wf(),
            final(r)@.len() == n ==> final(self).capacity() == old(self).capacity(),
            final(r)@.len() == n ==> final(self)@ == final(r)@ + old(self)@.subrange(
                n as int,
                old(self)@.len() as int,
            ),
    {
        proof {
            if n > 0 {
                assert(self@[n - 1] is Some);
            }
        }
        let ghost s0 = self.slots@;
        let ghost cap = self.cap;
        let parts = self.slots.as_mut_slice().split_at_mut(n);
        let r = parts.0;
        proof {
            assert(r@ =~= old(self)@.subrange(0, n as int));
            let tail = s0.subrange(n as int, s0.len() as int);
            assert forall|v: Seq<Option<T>>| v.len() == n implies #[trigger] extended(
                v + tail,
                cap as nat,
            ) == v + old(self)@.subrange(n as int, old(self)@.len() as int) by {
                assert(extended(v + tail, cap as nat) =~= v + old(self)@.subrange(
                    n as int,
                    old(self)@.len() as int,
                ));
            }
        }
        r
    }

    /// Moves the element out of the occupied slot `index`.
    pub fn read_at(&mut self, index: usize) -> (r: T)
        requires
            old(self).wf(),
            index < old(self).capacity(),
            old(self)@[index as int] is Some,
        ensures
            final(self).wf(),
            final(self).capacity() == old(self).capacity(),
            r == old(self)@[index as int]->0,
            final(self)@ == old(self)@.update(index as int, None),
    {
        self.take_slot(index).unwrap()
    }

    /// Places `item` into slot `index`.
    pub fn write_at(&mut self, index: usize, item: T)
        requires
            old(self).wf(),
            index < old(self).capacity(),
        ensures
            final(self).wf(),
            final(self).capacity() == old(self).capacity(),
            final(self)@ == old(self)@.update(index as int, Some(item)),
    {
        self.put_slot(index, Some(item));
    }

    /// Borrows the element in the occupied slot `index`.
    pub fn get_ref(&self, index: usize) -> (r: &T)
        requires
            self.wf(),
            index < self.capacity(),
            self@[index as int] is Some,
        ensures
            *r == self@[index as int]->0,
    {
        self.slots[index].as_ref().unwrap()
    }

    /// Borrows the element in the occupied slot `index` mutably.
    pub fn get_mut(&mut self, index: usize) -> (r: &mut T)
        requires
            old(self).wf(),
            index < old(self).capacity(),
            old(self)@[index as int] is Some,
        ensures
            *r == old(self)@[index as int]->0,
            final(self).wf(),
            final(self).capacity() == old(self).capacity(),
            final(self)@ == old(self)@.update(index as int, Some(*final(r))),
    {
        let ghost old_slots = self.slots@;
        let r = self.slots[index].as_mut().unwrap();
        proof {
            assert(extended(old_slots.update(index as int, Some(*final(r))), self.cap as nat)
                =~= old(self)@.update(index as int, Some(*final(r))));
        }
        r
    }
}

/// `w * size <= k` exactly when `w <= k / size`, for a positive size.
proof fn lemma_mul_le_iff_le_div(w: int, size: int, k: int)
    requires
        w >= 0,
        size > 0,
        k >= 0,
    ensures
        (w * size <= k) == (w <= k / size),
{
    vstd::arithmetic::div_mod::lemma_div_is_ordered_by_denominator(k, 1, size);
    if w <= k / size {
        vstd::arithmetic::mul::lemma_mul_inequality(w, k / size, size);
        vstd::arithmetic::div_mod::lemma_fundamental_div_mod(k, size);
        assert(k / size * size <= k) by (nonlinear_arith)
            requires
                k == size * (k / size) + k % size,
                k % size >= 0,
        ;
    } else {
        vstd::arithmetic::mul::lemma_mul_inequality(k / size + 1, w, size);
        vstd::arithmetic::div_mod::lemma_fundamental_div_mod(k, size);
        assert((k / size + 1) * size > k) by (nonlinear_arith)
            requires
                k == size * (k / size) + k % size,
                k % size < size,
        ;
    }
}

/// Wasted bytes of a buffer within the byte limit fit in `usize`.
proof fn lemma_bytes_fit(waste: int, cap: int, size: int)
    requires
        0 <= waste <= cap,
        size > 0,
        cap <= isize::MAX as int / size,
    ensures
        waste * size <= isize::MAX as int,
{
    let m = isize::MAX as int;
    vstd::arithmetic::mul::lemma_mul_inequality(waste, m / size, size);
    vstd::arithmetic::div_mod::lemma_fundamental_div_mod(m, size);
    assert((m / size) * size <= m) by (nonlinear_arith)
        requires
            m == size * (m / size) + m % size,
            m % size >= 0,
    ;
}

} // verus!
