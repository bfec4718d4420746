//! Disposal protocol for a contiguous run of elements removed from a gap
//! buffer in bulk: the elements are yielded by value from either end, and
//! whatever is never yielded is destroyed when the drain itself is dropped.

use vstd::prelude::*;

verus! {

/// Owns the elements excised by a bulk removal; the source buffer's
/// bookkeeping already reflects their removal when the drain is built.
///
/// Dropping the drain destroys every element still held, so no element is
/// leaked and none is destroyed twice however much of the drain is consumed.
pub struct Drain<T> {
    items: Vec<T>,
}

impl<T> View for Drain<T> {
    type V = Seq<T>;

    closed spec fn view(&self) -> Seq<T> {
        self.items@
    }
}

impl<T> Drain<T> {
    /// Wraps an already-detached run of elements.
    pub(crate) fn from_vec(items: Vec<T>) -> (d: Drain<T>)
        ensures
            d@ == items@,
    {
        Drain { items }
    }

    /// The remaining elements, in order.
    pub fn as_slice(&self) -> (r: &[T])
        ensures
            r@ == self@,
    {
        self.items.as_slice()
    }

    /// The remaining elements, in order, mutably borrowed.
    pub fn as_slice_mut(&mut self) -> (r: &mut [T])
        ensures
            r@ == old(self)@,
            final(self)@ == final(r)@,
    {
        self.items.as_mut_slice()
    }

    /// Removes and returns the first remaining element, or `None` when the
    /// drain is exhausted.
    pub fn next(&mut self) -> (r: Option<T>)
        ensures
            old(self)@.len() == 0 ==> r is None && final(self)@ == old(self)@,
            old(self)@.len() > 0 ==> r == Some(old(self)@[0]) && final(self)@ == old(self)@.skip(
                1,
            ),
    {
        if self.items.len() == 0 {
            None
        } else {
            let t = self.items.remove(0);
            proof {
                assert(final(self)@ =~= old(self)@.skip(1));
            }
            Some(t)
        }
    }

    /// Removes and returns the last remaining element, or `None` when the
    /// drain is exhausted.
    pub fn next_back(&mut self) -> (r: Option<T>)
        ensures
            old(self)@.len() == 0 ==> r is None && final(self)@ == old(self)@,
            old(self)@.len() > 0 ==> r == Some(old(self)@.last()) && final(self)@ == old(
                self,
            )@.drop_last(),
    {
        let r = self.items.pop();
        proof {
            if old(self)@.len() > 0 {
                assert(final(self)@ =~= old(self)@.drop_last());
            }
        }
        r
    }

    /// Destroys the first `n` remaining elements and returns element `n`,
    /// shrinking the drain past it; when fewer than `n + 1` elements remain,
    /// destroys them all and returns `None`.
    pub fn nth(&mut self, n: usize) -> (r: Option<T>)
        ensures
            n >= old(self)@.len() ==> r is None && final(self)@ == Seq::<T>::empty(),
            n < old(self)@.len() ==> r == Some(old(self)@[n as int]) && final(self)@ == old(
                self,
            )@.skip(n as int + 1),
    {
        if n >= self.items.len() {
            self.items.clear();
            None
        } else {
            let mut kept = self.items.split_off(n);
            let t = kept.remove(0);
            self.items = kept;
            proof {
                assert(final(self)@ =~= old(self)@.skip(n as int + 1));
            }
            Some(t)
        }
    }

    /// Destroys every remaining element and returns how many there were.
    pub fn count(self) -> (r: usize)
        ensures
            r == self@.len(),
    {
        self.items.len()
    }

    /// Destroys all but the last remaining element, which is returned; `None`
    /// when the drain is exhausted.
    pub fn last(self) -> (r: Option<T>)
        ensures
            self@.len() == 0 ==> r is None,
            self@.len() > 0 ==> r == Some(self@.last()),
    {
        let mut items = self.items;
        items.pop()
    }

    /// How many elements remain.
    pub fn len(&self) -> (r: usize)
        ensures
            r == self@.len(),
    {
        self.items.len()
    }
}

} // verus!
