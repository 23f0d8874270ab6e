//! A sequence container with a movable hole.
//!
//! A [`HoleVec`] keeps an ordered sequence of elements split at a single
//! logical cursor, the *hole*.  Pushing and popping next to the hole is
//! cheap, relocating the hole costs time proportional to the distance
//! moved, and the whole sequence can be read back as a few contiguous
//! views without copying.

mod ring;

use vstd::prelude::*;

verus! {

use crate::ring::RingBuffer;

/// An ordered sequence of elements with a single movable hole between a
/// *before-hole* region and an *after-hole* region.
///
/// The underlying ring buffer stores the after-hole region first (in
/// order, starting with the element immediately right of the hole) and
/// the before-hole region after it (ending with the element immediately
/// left of the hole), so that both pushes and both pops work at the two
/// ends of the buffer.
#[derive(Clone)]
pub struct HoleVec<T> {
    buf: RingBuffer<T>,
    /// Number of elements before the hole.
    hole_position: usize,
}

impl<T> HoleVec<T> {
    /// The before-hole region, in logical order (its last element is the
    /// one immediately left of the hole).
    pub closed spec fn before_hole(&self) -> Seq<T> {
        self.buf.seq().subrange(
            self.buf.seq().len() - self.hole_position,
            self.buf.seq().len() as int,
        )
    }

    /// The after-hole region, in logical order (its first element is the
    /// one immediately right of the hole).
    pub closed spec fn after_hole(&self) -> Seq<T> {
        self.buf.seq().subrange(0, self.buf.seq().len() - self.hole_position)
    }

    /// Well-formedness: the hole splits the stored sequence.
    pub closed spec fn wf(&self) -> bool {
        self.buf.wf() && self.hole_position <= self.buf.seq().len()
    }

    pub fn new() -> (r: Self)
        ensures
            r.wf(),
            r.before_hole() == Seq::<T>::empty(),
            r.after_hole() == Seq::<T>::empty(),
    {
        let r = HoleVec { buf: RingBuffer::new(), hole_position: 0 };
        proof {
            assert(r.before_hole() =~= Seq::<T>::empty());
            assert(r.after_hole() =~= Seq::<T>::empty());
        }
        r
    }

    /// Creates an empty container with room for `capacity` elements.
    pub fn with_capacity(capacity: usize) -> (r: Self)
        ensures
            r.wf(),
            r.before_hole() == Seq::<T>::empty(),
            r.after_hole() == Seq::<T>::empty(),
    {
        let r = HoleVec { buf: RingBuffer::with_capacity(capacity), hole_position: 0 };
        proof {
            assert(r.before_hole() =~= Seq::<T>::empty());
            assert(r.after_hole() =~= Seq::<T>::empty());
        }
        r
    }

    /// Total number of stored elements; the hole itself holds none.
    pub fn len(&self) -> (n: usize)
        requires
            self.wf(),
        ensures
            n == self.before_hole().len() + self.after_hole().len(),
    {
        self.buf.len()
    }

    pub fn is_empty(&self) -> (r: bool)
        requires
            self.wf(),
        ensures
            r <==> self.before_hole().len() + self.after_hole().len() == 0,
    {
        self.buf.is_empty()
    }

    /// Number of elements in the before-hole region.
    pub fn len_before_hole(&self) -> (n: usize)
        requires
            self.wf(),
        ensures
            n == self.before_hole().len(),
    {
        self.hole_position
    }

    /// Number of elements in the after-hole region.
    pub fn len_after_hole(&self) -> (n: usize)
        requires
            self.wf(),
        ensures
            n == self.after_hole().len(),
    {
        self.buf.len() - self.hole_position
    }

    /// Appends `value` at the end of the before-hole region, immediately
    /// left of the hole.
    pub fn push_before_hole(&mut self, value: T)
        requires
            old(self).wf(),
            old(self).before_hole().len() + old(self).after_hole().len() < usize::MAX,
        ensures
            final(self).wf(),
            final(self).before_hole() == old(self).before_hole().push(value),
            final(self).after_hole() == old(self).after_hole(),
    {
        self.buf.push_back(value);
        self.hole_position = self.hole_position + 1;
        proof {
            assert(self.before_hole() =~= old(self).before_hole().push(value));
            assert(self.after_hole() =~= old(self).after_hole());
        }
    }

    /// Inserts `value` at the start of the after-hole region, immediately
    /// right of the hole.
    pub fn push_after_hole(&mut self, value: T)
        requires
            old(self).wf(),
        ensures
            final(self).wf(),
            final(self).before_hole() == old(self).before_hole(),
            final(self).after_hole() == seq![value] + old(self).after_hole(),
    {
        self.buf.push_front(value);
        proof {
            assert(self.before_hole() =~= old(self).before_hole());
            assert(self.after_hole() =~= seq![value] + old(self).after_hole());
        }
    }

    /// Removes and returns the element immediately left of the hole, or
    /// nothing when the before-hole region is empty.
    pub fn pop_before_hole(&mut self) -> (r: Option<T>)
        requires
            old(self).wf(),
        ensures
            final(self).wf(),
            old(self).before_hole().len() == 0 ==> r is None && *final(self) == *old(self),
            old(self).before_hole().len() > 0 ==> {
                &&& r == Some(old(self).before_hole().last())
                &&& final(self).before_hole() == old(self).before_hole().drop_last()
                &&& final(self).after_hole() == old(self).after_hole()
            },
    {
        if self.hole_position == 0 {
            None
        } else {
            let r = self.buf.pop_back();
            self.hole_position = self.hole_position - 1;
            proof {
                assert(self.before_hole() =~= old(self).before_hole().drop_last());
                assert(self.after_hole() =~= old(self).after_hole());
                assert(old(self).before_hole().last() == old(self).buf.seq().last());
            }
            r
        }
    }

    /// Removes and returns the element immediately right of the hole, or
    /// nothing when the after-hole region is empty.
    pub fn pop_after_hole(&mut self) -> (r: Option<T>)
        requires
            old(self).wf(),
        ensures
            final(self).wf(),
            old(self).after_hole().len() == 0 ==> r is None && *final(self) == *old(self),
            old(self).after_hole().len() > 0 ==> {
                &&& r == Some(old(self).after_hole().first())
                &&& final(self).after_hole() == old(self).after_hole().drop_first()
                &&& final(self).before_hole() == old(self).before_hole()
            },
    {
        if self.hole_position == self.buf.len() {
            None
        } else {
            let r = self.buf.pop_front();
            proof {
                assert(self.after_hole() =~= old(self).after_hole().drop_first());
                assert(self.before_hole() =~= old(self).before_hole());
                assert(old(self).after_hole().first() == old(self).buf.seq().first());
            }
            r
        }
    }

    /// Shifts the first `amount` elements of the after-hole region onto
    /// the end of the before-hole region, preserving their relative
    /// order.
    pub fn move_hole_right(&mut self, amount: usize)
        requires
            old(self).wf(),
            amount <= old(self).after_hole().len(),
        ensures
            final(self).wf(),
            final(self).before_hole() == old(self).before_hole() + old(self).after_hole().take(
                amount as int,
            ),
            final(self).after_hole() == old(self).after_hole().skip(amount as int),
    {
        proof {
            self.buf.lemma_len_fits();
        }
        self.hole_position = self.hole_position + amount;
        self.buf.rotate_left(amount);
        proof {
            assert(self.before_hole() =~= old(self).before_hole() + old(
                self,
            ).after_hole().take(amount as int));
            assert(self.after_hole() =~= old(self).after_hole().skip(amount as int));
        }
    }

    /// Shifts the last `amount` elements of the before-hole region onto
    /// the start of the after-hole region, preserving their relative
    /// order.
    pub fn move_hole_left(&mut self, amount: usize)
        requires
            old(self).wf(),
            amount <= old(self).before_hole().len(),
        ensures
            final(self).wf(),
            final(self).before_hole() == old(self).before_hole().take(
                old(self).before_hole().len() - amount,
            ),
            final(self).after_hole() == old(self).before_hole().skip(
                old(self).before_hole().len() - amount,
            ) + old(self).after_hole(),
    {
        self.hole_position = self.hole_position - amount;
        self.buf.rotate_right(amount);
        proof {
            assert(self.before_hole() =~= old(self).before_hole().take(
                old(self).before_hole().len() - amount,
            ));
            assert(self.after_hole() =~= old(self).before_hole().skip(
                old(self).before_hole().len() - amount,
            ) + old(self).after_hole());
        }
    }

    /// Relocates the hole so that exactly `position` elements lie before
    /// it; the logical sequence itself is unchanged.
    pub fn set_hole_position(&mut self, position: usize)
        requires
            old(self).wf(),
            position <= old(self).before_hole().len() + old(self).after_hole().len(),
        ensures
            final(self).wf(),
            final(self).before_hole() == (old(self).before_hole() + old(self).after_hole()).take(
                position as int,
            ),
            final(self).after_hole() == (old(self).before_hole() + old(self).after_hole()).skip(
                position as int,
            ),
            final(self).before_hole().len() == position,
    {
        if position > self.hole_position {
            let amount = position - self.hole_position;
            self.move_hole_right(amount);
        } else {
            let amount = self.hole_position - position;
            self.move_hole_left(amount);
        }
        proof {
            assert(self.before_hole() =~= (old(self).before_hole() + old(
                self,
            ).after_hole()).take(position as int));
            assert(self.after_hole() =~= (old(self).before_hole() + old(
                self,
            ).after_hole()).skip(position as int));
        }
    }
    /// The whole logical sequence, hole excised, as three contiguous
    /// views: their concatenation is the before-hole region followed by
    /// the after-hole region.  No element is copied.
    ///
    /// The buffer reports its contents as a physical front run and a
    /// physical back run, split purely by storage wraparound; the hole
    /// boundary is located inside one of the two runs and that run is
    /// split at it.
    pub fn as_slices(&self) -> (r: (&[T], &[T], &[T]))
        requires
            self.wf(),
        ensures
            r.0@ + r.1@ + r.2@ == self.before_hole() + self.after_hole(),
    {
        let (phys_front, phys_back) = self.buf.as_slices();
        let len_after = self.len_after_hole();
        if len_after <= phys_front.len() {
            // The whole after-hole region lies inside the physical front
            // run; the rest of that run starts the before-hole region.
            let (end, start) = phys_front.split_at(len_after);
            proof {
                assert(start@ + phys_back@ + end@ =~= self.before_hole() + self.after_hole());
            }
            (start, phys_back, end)
        } else {
            // The hole boundary lies inside the physical back run.
            let len_before = self.len_before_hole();
            proof {
                assert(phys_back@.len() == self.buf.seq().len() - phys_front@.len());
                assert(len_before <= phys_back@.len());
            }
            let (end, start) = phys_back.split_at(phys_back.len() - len_before);
            proof {
                assert(start@ + phys_front@ + end@ =~= self.before_hole() + self.after_hole());
            }
            (start, phys_front, end)
        }
    }

    /// The before-hole region as two contiguous views: their
    /// concatenation is the region in logical order.  No element is
    /// copied.
    pub fn as_slices_before_hole(&self) -> (r: (&[T], &[T]))
        requires
            self.wf(),
        ensures
            r.0@ + r.1@ == self.before_hole(),
    {
        let (phys_front, phys_back) = self.buf.as_slices();
        let len_after = self.len_after_hole();
        if len_after <= phys_front.len() {
            let (_end, start) = phys_front.split_at(len_after);
            proof {
                assert(start@ + phys_back@ =~= self.before_hole());
            }
            (start, phys_back)
        } else {
            let len_before = self.len_before_hole();
            proof {
                assert(phys_back@.len() == self.buf.seq().len() - phys_front@.len());
                assert(len_before <= phys_back@.len());
            }
            let (_end, start) = phys_back.split_at(phys_back.len() - len_before);
            let empty = vstd::slice::slice_subrange(phys_front, 0, 0);
            proof {
                assert(start@ + empty@ =~= self.before_hole());
            }
            (start, empty)
        }
    }

    /// The after-hole region as two contiguous views: their concatenation
    /// is the region in logical order.  No element is copied.
    pub fn as_slices_after_hole(&self) -> (r: (&[T], &[T]))
        requires
            self.wf(),
        ensures
            r.0@ + r.1@ == self.after_hole(),
    {
        let (phys_front, phys_back) = self.buf.as_slices();
        let len_after = self.len_after_hole();
        if len_after <= phys_front.len() {
            let (end, _start) = phys_front.split_at(len_after);
            let empty = vstd::slice::slice_subrange(phys_back, 0, 0);
            proof {
                assert(end@ + empty@ =~= self.after_hole());
            }
            (end, empty)
        } else {
            let len_before = self.len_before_hole();
            proof {
                assert(phys_back@.len() == self.buf.seq().len() - phys_front@.len());
                assert(len_before <= phys_back@.len());
            }
            let (end, _start) = phys_back.split_at(phys_back.len() - len_before);
            proof {
                assert(phys_front@ + end@ =~= self.after_hole());
            }
            (phys_front, end)
        }
    }
}

/// Law: moving the hole right by `count` and then left by `count`
/// restores both regions — and with them the hole position and the full
/// logical sequence — exactly, for any `count` within the after-hole
/// region.
///
/// `before + after.take(count)` and `after.skip(count)` are the regions
/// after `move_hole_right(count)` as stated by its contract; applying
/// `move_hole_left(count)`'s transition to them gives back `before` and
/// `after`.
pub proof fn lemma_move_hole_round_trip<T>(before: Seq<T>, after: Seq<T>, count: int)
    requires
        0 <= count <= after.len(),
    ensures
        ({
            let moved_before = before + after.take(count);
            let moved_after = after.skip(count);
            &&& moved_before.take(moved_before.len() - count) == before
            &&& moved_before.skip(moved_before.len() - count) + moved_after == after
        }),
{
    let moved_before = before + after.take(count);
    assert(moved_before.take(moved_before.len() - count) =~= before);
    assert(moved_before.skip(moved_before.len() - count) + after.skip(count) =~= after);
}

impl<T> Default for HoleVec<T> {
    fn default() -> (r: Self)
        ensures
            r.wf(),
            r.before_hole() == Seq::<T>::empty(),
            r.after_hole() == Seq::<T>::empty(),
    {
        HoleVec::new()
    }
}

} // verus!
