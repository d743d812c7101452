//! Cursors over a buffer's occupied slots `[start, end)`: a forward step
//! yields the slot at `start` and moves it up, a backward step moves `end`
//! down and yields the slot there; the cursor is exhausted when they meet.
use vstd::prelude::*;
use crate::raw_vec::{occupied, shifted, values, RawVec};

verus! {

/// Owning cursor: yields the elements themselves, and drops those it never
/// yielded together with the buffer.
pub struct IntoIter<T> {
    buf: RawVec<T>,
    start: usize,
    end: usize,
}

/// Shared borrowing cursor.
pub struct Iter<'a, T> {
    buf: &'a RawVec<T>,
    start: usize,
    end: usize,
}

/// Exclusive borrowing cursor: each step lends one element mutably.
pub struct IterMut<'a, T> {
    buf: &'a mut RawVec<T>,
    start: usize,
    end: usize,
}

/// The elements removed by a range removal, in order. The container has
/// already closed the gap when this is made; dropping it part-way drops what
/// was not yet yielded.
pub struct Drain<T> {
    buf: RawVec<T>,
    start: usize,
    end: usize,
}

/// `s` with the slots `[start, end)` vacant.
pub open spec fn vacated<T>(s: Seq<Option<T>>, start: int, end: int) -> Seq<Option<T>> {
    Seq::new(s.len(), |j: int| if start <= j < end { None } else { s[j] })
}

/// A cursor over `buf` may cover `[start, end)`.
pub open spec fn cursor_ok<T>(buf: RawVec<T>, start: int, end: int) -> bool {
    &&& buf.wf()
    &&& 0 <= start <= end <= buf.capacity()
    &&& occupied(buf@, start, end)
}

impl<T> IntoIter<T> {
    /// The elements still to come, front first.
    pub closed spec fn view(&self) -> Seq<T> {
        values(self.buf@, self.start as int, self.end as int)
    }

    pub closed spec fn wf(&self) -> bool {
        cursor_ok(self.buf, self.start as int, self.end as int)
    }

    /// Takes ownership of `buf` and yields its slots `[start, end)`.
    pub fn new(buf: RawVec<T>, start: usize, end: usize) -> (r: Self)
        requires
            cursor_ok(buf, start as int, end as int),
        ensures
            r.wf(),
            r@ == values(buf@, start as int, end as int),
    {
        IntoIter { buf, start, end }
    }

    pub fn next(&mut self) -> (r: Option<T>)
        requires
            old(self).wf(),
        ensures
            final(self).wf(),
            old(self)@.len() == 0 ==> r is None && final(self)@ == old(self)@,
            old(self)@.len() > 0 ==> r == Some(old(self)@[0]) && final(self)@ == old(self)@.drop_first(),
    {
        if self.start == self.end {
            None
        } else {
            let result = self.buf.read_at(self.start);
            self.start = self.start + 1;
            proof {
                assert(self@ =~= old(self)@.drop_first());
            }
            Some(result)
        }
    }

    pub fn next_back(&mut self) -> (r: Option<T>)
        requires
            old(self).wf(),
        ensures
            final(self).wf(),
            old(self)@.len() == 0 ==> r is None && final(self)@ == old(self)@,
            old(self)@.len() > 0 ==> r == Some(old(self)@.last()) && final(self)@ == old(self)@.drop_last(),
    {
        if self.start == self.end {
            None
        } else {
            self.end = self.end - 1;
            let result = self.buf.read_at(self.end);
            proof {
                assert(self@ =~= old(self)@.drop_last());
            }
            Some(result)
        }
    }

    /// Exactly how many elements remain, as a lower and an upper bound.
    pub fn size_hint(&self) -> (r: (usize, Option<usize>))
        requires
            self.wf(),
        ensures
            r == (self@.len() as usize, Some(self@.len() as usize)),
    {
        (self.end - self.start, Some(self.end - self.start))
    }
}

impl<'a, T> Iter<'a, T> {
    pub closed spec fn view(&self) -> Seq<T> {
        values(self.buf@, self.start as int, self.end as int)
    }

    pub closed spec fn wf(&self) -> bool {
        cursor_ok(*self.buf, self.start as int, self.end as int)
    }

    /// Borrows `buf` and yields references to its slots `[start, end)`.
    pub fn new(buf: &'a RawVec<T>, start: usize, end: usize) -> (r: Self)
        requires
            cursor_ok(*buf, start as int, end as int),
        ensures
            r.wf(),
            r@ == values(buf@, start as int, end as int),
    {
        Iter { buf, start, end }
    }

    pub fn next(&mut self) -> (r: Option<&'a T>)
        requires
            old(self).wf(),
        ensures
            final(self).wf(),
            old(self)@.len() == 0 ==> r is None && final(self)@ == old(self)@,
            old(self)@.len() > 0 ==> r == Some(&old(self)@[0]) && final(self)@ == old(self)@.drop_first(),
    {
        if self.start == self.end {
            None
        } else {
            let result: &'a T = self.buf.get_ref(self.start);
            self.start = self.start + 1;
            proof {
                assert(self@ =~= old(self)@.drop_first());
            }
            Some(result)
        }
    }

    pub fn next_back(&mut self) -> (r: Option<&'a T>)
        requires
            old(self).wf(),
        ensures
            final(self).wf(),
            old(self)@.len() == 0 ==> r is None && final(self)@ == old(self)@,
            old(self)@.len() > 0 ==> r == Some(&old(self)@.last()) && final(self)@ == old(self)@.drop_last(),
    {
        if self.start == self.end {
            None
        } else {
            self.end = self.end - 1;
            let result: &'a T = self.buf.get_ref(self.end);
            proof {
                assert(self@ =~= old(self)@.drop_last());
            }
            Some(result)
        }
    }

    pub fn size_hint(&self) -> (r: (usize, Option<usize>))
        requires
            self.wf(),
        ensures
            r == (self@.len() as usize, Some(self@.len() as usize)),
    {
        (self.end - self.start, Some(self.end - self.start))
    }
}

impl<'a, T> IterMut<'a, T> {
    pub closed spec fn view(&self) -> Seq<T> {
        values(self.buf@, self.start as int, self.end as int)
    }

    pub closed spec fn wf(&self) -> bool {
        cursor_ok(*self.buf, self.start as int, self.end as int)
    }

    /// The slots of the borrowed buffer as they stand now.
    pub closed spec fn slots(&self) -> Seq<Option<T>> {
        self.buf@
    }

    /// Where the cursor's front stands in the buffer.
    pub closed spec fn front(&self) -> int {
        self.start as int
    }

    /// Where the cursor's back stands in the buffer.
    pub closed spec fn back(&self) -> int {
        self.end as int
    }

    /// Borrows `buf` exclusively and lends its slots `[start, end)` one by one.
    pub fn new(buf: &'a mut RawVec<T>, start: usize, end: usize) -> (r: Self)
        requires
            cursor_ok(*old(buf), start as int, end as int),
        ensures
            r.wf(),
            r@ == values(old(buf)@, start as int, end as int),
            r.slots() == old(buf)@,
            r.front() == start,
            r.back() == end,
    {
        IterMut { buf, start, end }
    }

    pub fn next(&mut self) -> (r: Option<&mut T>)
        requires
            old(self).wf(),
        ensures
            final(self).wf(),
            final(self).front() >= old(self).front(),
            final(self).back() == old(self).back(),
            old(self)@.len() == 0 ==> r is None && *final(self) == *old(self),
            old(self)@.len() > 0 ==> {
                &&& r is Some
                &&& *r->0 == old(self)@[0]
                &&& final(self).front() == old(self).front() + 1
                &&& final(self)@ == old(self)@.drop_first()
                &&& final(self).slots() == old(self).slots().update(
                    old(self).front(),
                    Some(*final(r->0)),
                )
            },
    {
        if self.start == self.end {
            None
        } else {
            let i = self.start;
            self.start = self.start + 1;
            let ghost s0 = self.buf@;
            let r = self.buf.get_mut(i);
            proof {
                assert(values(s0.update(i as int, Some(*final(r))), i + 1, self.end as int) =~= old(
                    self,
                )@.drop_first());
            }
            Some(r)
        }
    }

    pub fn next_back(&mut self) -> (r: Option<&mut T>)
        requires
            old(self).wf(),
        ensures
            final(self).wf(),
            final(self).front() == old(self).front(),
            final(self).back() <= old(self).back(),
            old(self)@.len() == 0 ==> r is None && *final(self) == *old(self),
            old(self)@.len() > 0 ==> {
                &&& r is Some
                &&& *r->0 == old(self)@.last()
                &&& final(self).back() == old(self).back() - 1
                &&& final(self)@ == old(self)@.drop_last()
                &&& final(self).slots() == old(self).slots().update(
                    old(self).back() - 1,
                    Some(*final(r->0)),
                )
            },
    {
        if self.start == self.end {
            None
        } else {
            self.end = self.end - 1;
            let i = self.end;
            let ghost s0 = self.buf@;
            let r = self.buf.get_mut(i);
            proof {
                assert(values(s0.update(i as int, Some(*final(r))), self.start as int, i as int)
                    =~= old(self)@.drop_last());
            }
            Some(r)
        }
    }

    pub fn size_hint(&self) -> (r: (usize, Option<usize>))
        requires
            self.wf(),
        ensures
            r == (self@.len() as usize, Some(self@.len() as usize)),
    {
        (self.end - self.start, Some(self.end - self.start))
    }
}

impl<T> Drain<T> {
    pub closed spec fn view(&self) -> Seq<T> {
        values(self.buf@, self.start as int, self.end as int)
    }

    pub closed spec fn wf(&self) -> bool {
        cursor_ok(self.buf, self.start as int, self.end as int)
    }

    /// Removes the slots `[start, end)` from the first `len` slots of `buf`:
    /// their elements move into the drain, and the tail `[end, len)` moves
    /// down to `start`, so the remaining elements stand contiguous again.
    pub fn new(buf: &mut RawVec<T>, start: usize, end: usize, len: usize) -> (r: Self)
        requires
            old(buf).wf(),
            start <= end <= len <= old(buf).capacity(),
            occupied(old(buf)@, start as int, end as int),
        ensures
            r.wf(),
            r@ == values(old(buf)@, start as int, end as int),
            final(buf).wf(),
            final(buf).capacity() == old(buf).capacity(),
            final(buf)@ == shifted(
                vacated(old(buf)@, start as int, end as int),
                end as int,
                len - end,
                start as int,
            ),
    {
        let n = end - start;
        let mut items: RawVec<T> = if n == 0 {
            RawVec::new()
        } else {
            RawVec::with_capacity(n)
        };
        let mut k: usize = 0;
        while k < n
            invariant
                n == end - start,
                k <= n,
                buf.wf(),
                buf.capacity() == old(buf).capacity(),
                start <= end <= len <= buf.capacity(),
                buf@ == vacated(old(buf)@, start as int, start + k),
                items.wf(),
                n <= items.capacity(),
                occupied(items@, 0, k as int),
                forall|j: int| 0 <= j < k ==> (#[trigger] items@[j])->0 == old(buf)@[start + j]->0,
                occupied(old(buf)@, start as int, end as int),
            decreases n - k,
        {
            let v = buf.read_at(start + k);
            items.write_at(k, v);
            k = k + 1;
            proof {
                assert(buf@ =~= vacated(old(buf)@, start as int, start + k));
            }
        }
        let ghost emptied = buf@;
        if len > end {
            buf.shift_left(end, len - end, n);
        } else {
            proof {
                assert(buf@ =~= shifted(emptied, end as int, len - end, start as int));
            }
        }
        let r = Drain { buf: items, start: 0, end: n };
        proof {
            assert(r@ =~= values(old(buf)@, start as int, end as int));
        }
        r
    }

    pub fn next(&mut self) -> (r: Option<T>)
        requires
            old(self).wf(),
        ensures
            final(self).wf(),
            old(self)@.len() == 0 ==> r is None && final(self)@ == old(self)@,
            old(self)@.len() > 0 ==> r == Some(old(self)@[0]) && final(self)@ == old(self)@.drop_first(),
    {
        if self.start == self.end {
            None
        } else {
            let result = self.buf.read_at(self.start);
            self.start = self.start + 1;
            proof {
                assert(self@ =~= old(self)@.drop_first());
            }
            Some(result)
        }
    }

    pub fn next_back(&mut self) -> (r: Option<T>)
        requires
            old(self).wf(),
        ensures
            final(self).wf(),
            old(self)@.len() == 0 ==> r is None && final(self)@ == old(self)@,
            old(self)@.len() > 0 ==> r == Some(old(self)@.last()) && final(self)@ == old(self)@.drop_last(),
    {
        if self.start == self.end {
            None
        } else {
            self.end = self.end - 1;
            let result = self.buf.read_at(self.end);
            proof {
                assert(self@ =~= old(self)@.drop_last());
            }
            Some(result)
        }
    }

    pub fn size_hint(&self) -> (r: (usize, Option<usize>))
        requires
            self.wf(),
        ensures
            r == (self@.len() as usize, Some(self@.len() as usize)),
    {
        (self.end - self.start, Some(self.end - self.start))
    }
}

} // verus!
