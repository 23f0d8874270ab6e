//! A growable double-ended circular buffer.
//!
//! The logical sequence is stored in a single contiguous allocation and
//! wraps around a rotation point: element `i` of the logical sequence
//! lives at physical index `(head + i) % data.len()`.  Rotating the
//! sequence therefore only moves the `head` index; the contents can
//! always be read back as at most two contiguous views.

use vstd::prelude::*;

verus! {

/// A double-ended buffer whose logical sequence wraps around a rotation
/// point inside one contiguous allocation.
#[derive(Clone)]
pub(crate) struct RingBuffer<T> {
    /// Physical storage; every slot holds a live element.
    data: Vec<T>,
    /// Physical index of the first logical element.
    head: usize,
}

impl<T> RingBuffer<T> {
    /// The logical sequence: the physical contents read from `head`,
    /// wrapping past the end of the allocation back to its start.
    pub(crate) closed spec fn seq(&self) -> Seq<T> {
        self.data@.subrange(self.head as int, self.data@.len() as int)
            + self.data@.subrange(0, self.head as int)
    }

    /// Well-formedness: `head` addresses a live slot, and an empty
    /// buffer keeps the canonical rotation `head == 0`.
    pub(crate) closed spec fn wf(&self) -> bool {
        self.head == 0 || self.head < self.data@.len()
    }

    pub(crate) fn new() -> (r: Self)
        ensures
            r.wf(),
            r.seq() == Seq::<T>::empty(),
    {
        let r = RingBuffer { data: Vec::new(), head: 0 };
        proof {
            assert(r.seq() =~= Seq::<T>::empty());
        }
        r
    }

    pub(crate) fn with_capacity(capacity: usize) -> (r: Self)
        ensures
            r.wf(),
            r.seq() == Seq::<T>::empty(),
    {
        let r = RingBuffer { data: Vec::with_capacity(capacity), head: 0 };
        proof {
            assert(r.seq() =~= Seq::<T>::empty());
        }
        r
    }

    /// The stored sequence always fits in the machine's address range.
    pub(crate) proof fn lemma_len_fits(&self)
        requires
            self.wf(),
        ensures
            self.seq().len() <= usize::MAX,
    {
        broadcast use vstd::std_specs::vec::axiom_spec_len;

        assert(self.data.len() == self.data@.len());
    }

    pub(crate) fn len(&self) -> (n: usize)
        requires
            self.wf(),
        ensures
            n == self.seq().len(),
    {
        self.data.len()
    }

    pub(crate) fn is_empty(&self) -> (r: bool)
        requires
            self.wf(),
        ensures
            r <==> self.seq().len() == 0,
    {
        self.data.len() == 0
    }

    /// Prepends `value` to the logical sequence, in place of the current
    /// first element's slot.
    pub(crate) fn push_front(&mut self, value: T)
        requires
            old(self).wf(),
        ensures
            final(self).wf(),
            final(self).seq() == seq![value] + old(self).seq(),
    {
        let h = self.head;
        self.data.insert(h, value);
        proof {
            assert(self.seq() =~= seq![value] + old(self).seq());
        }
    }

    /// Appends `value` to the logical sequence, just before the rotation
    /// point.
    pub(crate) fn push_back(&mut self, value: T)
        requires
            old(self).wf(),
        ensures
            final(self).wf(),
            final(self).seq() == old(self).seq().push(value),
    {
        if self.head == 0 {
            self.data.push(value);
            proof {
                assert(self.seq() =~= old(self).seq().push(value));
            }
        } else {
            let h = self.head;
            let n = self.data.len();
            proof {
                assert(h < n);
            }
            self.data.insert(h, value);
            self.head = h + 1;
            proof {
                assert(self.seq() =~= old(self).seq().push(value));
            }
        }
    }

    /// Removes and returns the first logical element, or nothing when the
    /// buffer is empty.
    pub(crate) fn pop_front(&mut self) -> (r: Option<T>)
        requires
            old(self).wf(),
        ensures
            final(self).wf(),
            old(self).seq().len() == 0 ==> r is None && *final(self) == *old(self),
            old(self).seq().len() > 0 ==> {
                &&& r == Some(old(self).seq().first())
                &&& final(self).seq() == old(self).seq().drop_first()
            },
    {
        let n = self.data.len();
        if n == 0 {
            None
        } else {
            let h = self.head;
            let value = self.data.remove(h);
            if h == n - 1 {
                self.head = 0;
            }
            proof {
                assert(self.seq() =~= old(self).seq().drop_first());
                assert(value == old(self).seq().first());
            }
            Some(value)
        }
    }

    /// Removes and returns the last logical element, or nothing when the
    /// buffer is empty.
    pub(crate) fn pop_back(&mut self) -> (r: Option<T>)
        requires
            old(self).wf(),
        ensures
            final(self).wf(),
            old(self).seq().len() == 0 ==> r is None && *final(self) == *old(self),
            old(self).seq().len() > 0 ==> {
                &&& r == Some(old(self).seq().last())
                &&& final(self).seq() == old(self).seq().drop_last()
            },
    {
        let n = self.data.len();
        if n == 0 {
            None
        } else if self.head == 0 {
            let value = self.data.remove(n - 1);
            proof {
                assert(self.seq() =~= old(self).seq().drop_last());
                assert(value == old(self).seq().last());
            }
            Some(value)
        } else {
            let h = self.head;
            let value = self.data.remove(h - 1);
            self.head = h - 1;
            proof {
                assert(self.seq() =~= old(self).seq().drop_last());
                assert(value == old(self).seq().last());
            }
            Some(value)
        }
    }

    /// Moves the first `count` logical elements to the back, preserving
    /// the relative order of both blocks, by shifting the rotation point.
    pub(crate) fn rotate_left(&mut self, count: usize)
        requires
            old(self).wf(),
            count <= old(self).seq().len(),
        ensures
            final(self).wf(),
            final(self).seq() == old(self).seq().subrange(count as int, old(self).seq().len() as int)
                + old(self).seq().subrange(0, count as int),
    {
        let n = self.data.len();
        if count < n - self.head {
            self.head = self.head + count;
        } else {
            self.head = count - (n - self.head);
        }
        proof {
            assert(self.seq() =~= old(self).seq().subrange(
                count as int,
                old(self).seq().len() as int,
            ) + old(self).seq().subrange(0, count as int));
        }
    }

    /// Moves the last `count` logical elements to the front, preserving
    /// the relative order of both blocks, by shifting the rotation point.
    pub(crate) fn rotate_right(&mut self, count: usize)
        requires
            old(self).wf(),
            count <= old(self).seq().len(),
        ensures
            final(self).wf(),
            final(self).seq() == old(self).seq().subrange(
                old(self).seq().len() - count,
                old(self).seq().len() as int,
            ) + old(self).seq().subrange(0, old(self).seq().len() - count),
    {
        let n = self.data.len();
        if count <= self.head {
            self.head = self.head - count;
        } else {
            self.head = self.head + (n - count);
        }
        proof {
            assert(self.seq() =~= old(self).seq().subrange(
                old(self).seq().len() - count,
                old(self).seq().len() as int,
            ) + old(self).seq().subrange(0, old(self).seq().len() - count));
        }
    }

    /// The whole logical sequence as two contiguous views: the run from
    /// the rotation point to the end of the allocation, then the run that
    /// wrapped around to its start.  Concatenating the two yields the
    /// logical sequence; no element is copied.
    pub(crate) fn as_slices(&self) -> (r: (&[T], &[T]))
        requires
            self.wf(),
        ensures
            r.0@ + r.1@ == self.seq(),
    {
        let s = self.data.as_slice();
        let front = vstd::slice::slice_subrange(s, self.head, self.data.len());
        let back = vstd::slice::slice_subrange(s, 0, self.head);
        (front, back)
    }
}

} // verus!
