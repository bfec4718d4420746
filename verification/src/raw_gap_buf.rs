//! The generic raw gap-buffer engine: a prefix run, a gap of spare room, and
//! a suffix run, with minimal-copy gap repositioning and explicit gap growth
//! and shrinkage.

use vstd::prelude::*;

verus! {

use crate::drain::Drain;

/// A generic gap buffer over elements of type `T`.
///
/// The stored sequence is the prefix followed by the suffix; the gap between
/// them holds no elements, only reserved room whose length is tracked so that
/// repositioning and growth keep exact accounts of the allocation. Zero-sized
/// elements occupy no storage, but their positions and the gap's length are
/// accounted for the same way as for any other element type.
#[derive(Clone)]
pub struct RawGapBuf<T> {
    start: Vec<T>,
    end: Vec<T>,
    gap: usize,
}

impl<T> View for RawGapBuf<T> {
    type V = Seq<T>;

    closed spec fn view(&self) -> Seq<T> {
        self.start@ + self.end@
    }
}

impl<T> RawGapBuf<T> {
    /// The elements before the gap.
    pub closed spec fn start_seq(self) -> Seq<T> {
        self.start@
    }

    /// The elements after the gap.
    pub closed spec fn end_seq(self) -> Seq<T> {
        self.end@
    }

    /// The tracked length of the gap.
    pub closed spec fn spec_gap_len(self) -> int {
        self.gap as int
    }

    /// The whole allocation is addressable: prefix, gap and suffix lengths
    /// sum to at most `usize::MAX`.
    pub open spec fn wf(self) -> bool {
        self.start_seq().len() + self.spec_gap_len() + self.end_seq().len() <= usize::MAX
    }

    /// An empty buffer with no elements and no gap.
    pub fn new() -> (r: Self)
        ensures
            r@ == Seq::<T>::empty(),
            r.start_seq() == Seq::<T>::empty(),
            r.end_seq() == Seq::<T>::empty(),
            r.spec_gap_len() == 0,
            r.wf(),
    {
        let r = RawGapBuf { start: Vec::new(), end: Vec::new(), gap: 0 };
        proof {
            assert(r@ =~= Seq::<T>::empty());
        }
        r
    }

    /// Number of stored elements: prefix plus suffix.
    pub fn len(&self) -> (r: usize)
        requires
            self.wf(),
        ensures
            r == self@.len(),
    {
        self.start.len() + self.end.len()
    }

    /// True when no element is stored.
    pub fn is_empty(&self) -> (r: bool)
        requires
            self.wf(),
        ensures
            r == (self@.len() == 0),
    {
        self.len() == 0
    }

    /// Length of the prefix, which is also the gap's logical position.
    pub fn start_len(&self) -> (r: usize)
        ensures
            r == self.start_seq().len(),
    {
        self.start.len()
    }

    /// Length of the suffix.
    pub fn end_len(&self) -> (r: usize)
        ensures
            r == self.end_seq().len(),
    {
        self.end.len()
    }

    /// The current gap length.
    pub fn gap_len(&self) -> (r: usize)
        ensures
            r == self.spec_gap_len(),
    {
        self.gap
    }

    /// Length of the whole allocation: prefix, gap and suffix.
    pub fn total_len(&self) -> (r: usize)
        requires
            self.wf(),
        ensures
            r == self@.len() + self.spec_gap_len(),
    {
        self.start.len() + self.gap + self.end.len()
    }

    /// A buffer holding `start`, then a gap of `gap_size`, then `end`.
    pub fn new_with(start: Vec<T>, gap_size: usize, end: Vec<T>) -> (r: Self)
        requires
            start@.len() + gap_size + end@.len() <= usize::MAX,
        ensures
            r.start_seq() == start@,
            r.end_seq() == end@,
            r.spec_gap_len() == gap_size,
            r@ == start@ + end@,
            r.wf(),
    {
        RawGapBuf { start, end, gap: gap_size }
    }

    /// A buffer whose prefix and suffix are each copied from a row of
    /// slices, in order, with a gap of `gap_size` between them.
    pub fn new_with_slice(start: &[&[T]], gap_size: usize, end: &[&[T]]) -> (r: Self) where
        T: Copy,

        requires
            start@.map_values(|s: &[T]| s@).flatten().len() + gap_size + end@.map_values(
                |s: &[T]| s@,
            ).flatten().len() <= usize::MAX,
        ensures
            r.start_seq() == start@.map_values(|s: &[T]| s@).flatten(),
            r.end_seq() == end@.map_values(|s: &[T]| s@).flatten(),
            r.spec_gap_len() == gap_size,
            r.wf(),
    {
        let sv = flatten_pieces(start);
        let ev = flatten_pieces(end);
        RawGapBuf { start: sv, end: ev, gap: gap_size }
    }

    /// The prefix and suffix as two borrowed runs.
    pub fn get_parts(&self) -> (r: (&[T], &[T]))
        ensures
            r.0@ == self.start_seq(),
            r.1@ == self.end_seq(),
    {
        (self.start.as_slice(), self.end.as_slice())
    }

    /// The prefix as a borrowed run.
    pub fn start(&self) -> (r: &[T])
        ensures
            r@ == self.start_seq(),
    {
        self.start.as_slice()
    }

    /// The suffix as a borrowed run.
    pub fn end(&self) -> (r: &[T])
        ensures
            r@ == self.end_seq(),
    {
        self.end.as_slice()
    }

    /// The element at logical index `index`, or `None` past the end.
    pub fn get(&self, index: usize) -> (r: Option<&T>)
        requires
            self.wf(),
        ensures
            index < self@.len() ==> r == Some(&self@[index as int]),
            index >= self@.len() ==> r is None,
    {
        if index >= self.len() {
            return None;
        }
        if index < self.start.len() {
            Some(vstd::slice::slice_index_get(self.start.as_slice(), index))
        } else {
            Some(vstd::slice::slice_index_get(self.end.as_slice(), index - self.start.len()))
        }
    }

    /// Physical offset of a read starting at logical index `start`: indexes
    /// at or past the gap's position are shifted right by the gap length.
    pub fn start_with_offset(&self, start: usize) -> (r: usize)
        requires
            start + self.spec_gap_len() <= usize::MAX,
        ensures
            r == if start >= self.start_seq().len() {
                start + self.spec_gap_len()
            } else {
                start as int
            },
    {
        if start >= self.start.len() {
            start + self.gap
        } else {
            start
        }
    }

    /// Physical offset of a read ending at logical index `end`: only indexes
    /// strictly past the gap's position are shifted, so a read ending at the
    /// gap stays in the prefix.
    pub fn end_with_offset(&self, end: usize) -> (r: usize)
        requires
            end + self.spec_gap_len() <= usize::MAX,
        ensures
            r == if end > self.start_seq().len() {
                end + self.spec_gap_len()
            } else {
                end as int
            },
    {
        if end > self.start.len() {
            end + self.gap
        } else {
            end
        }
    }

    /// Repositions the gap so the prefix has length `to`, moving only the
    /// elements between the old and new gap positions.
    pub fn move_gap_start_to(&mut self, to: usize)
        requires
            old(self).wf(),
            to <= old(self)@.len(),
        ensures
            final(self).wf(),
            final(self)@ == old(self)@,
            final(self).spec_gap_len() == old(self).spec_gap_len(),
            final(self).start_seq() == old(self)@.take(to as int),
            final(self).end_seq() == old(self)@.skip(to as int),
    {
        let p = self.start.len();
        if to < p {
            let mut tail = self.start.split_off(to);
            tail.append(&mut self.end);
            self.end = tail;
            proof {
                assert(self.start_seq() =~= old(self)@.take(to as int));
                assert(self.end_seq() =~= old(self)@.skip(to as int));
                assert(self@ =~= old(self)@);
            }
        } else if to > p {
            let d = to - p;
            let kept = self.end.split_off(d);
            self.start.append(&mut self.end);
            self.end = kept;
            proof {
                assert(self.start_seq() =~= old(self)@.take(to as int));
                assert(self.end_seq() =~= old(self)@.skip(to as int));
                assert(self@ =~= old(self)@);
            }
        } else {
            proof {
                assert(self.start_seq() =~= old(self)@.take(to as int));
                assert(self.end_seq() =~= old(self)@.skip(to as int));
            }
        }
    }

    /// Moves the gap out of the logical range `start..end`, choosing
    /// whichever end of the range costs fewer element moves.
    pub fn move_gap_out_of(&mut self, start: usize, end: usize)
        requires
            old(self).wf(),
            start <= end <= old(self)@.len(),
        ensures
            final(self).wf(),
            final(self)@ == old(self)@,
            final(self).spec_gap_len() == old(self).spec_gap_len(),
            (start > old(self).start_seq().len() || end <= old(self).start_seq().len()) ==> {
                &&& final(self).start_seq() == old(self).start_seq()
                &&& final(self).end_seq() == old(self).end_seq()
            },
            (start <= old(self).start_seq().len() && old(self).start_seq().len() < end) ==> {
                let p = old(self).start_seq().len() as int;
                let to = if p - start > end - p {
                    end as int
                } else {
                    start as int
                };
                final(self).start_seq() == old(self)@.take(to)
            },
    {
        let p = self.start.len();
        if start > p || end <= p {
            return ;
        }
        let to_right_copy = p - start;
        let to_left_copy = end - p;
        let move_to = if to_right_copy > to_left_copy {
            end
        } else {
            start
        };
        self.move_gap_start_to(move_to);
    }

    /// Every stored element as one borrowed run, after moving the gap to
    /// whichever boundary is cheaper.
    pub fn to_slice(&mut self) -> (r: &[T])
        requires
            old(self).wf(),
        ensures
            final(self).wf(),
            final(self)@ == old(self)@,
            final(self).spec_gap_len() == old(self).spec_gap_len(),
            r@ == old(self)@,
    {
        let n = self.len();
        self.move_gap_out_of(0, n);
        if !self.start.is_empty() {
            proof {
                assert(self.start_seq() =~= self@);
            }
            self.start.as_slice()
        } else {
            proof {
                assert(self.end_seq() =~= self@);
            }
            self.end.as_slice()
        }
    }

    /// Every stored element as one mutable borrowed run, after moving the
    /// gap to whichever boundary is cheaper.
    pub fn to_slice_mut(&mut self) -> (r: &mut [T])
        requires
            old(self).wf(),
        ensures
            r@ == old(self)@,
            final(r)@.len() == old(self)@.len() ==> final(self)@ == final(r)@
                && final(self).spec_gap_len() == old(self).spec_gap_len() && final(self).wf(),
    {
        let n = self.len();
        self.move_gap_out_of(0, n);
        if !self.start.is_empty() {
            proof {
                assert(self.start_seq() =~= self@);
            }
            self.start.as_mut_slice()
        } else {
            proof {
                assert(self.end_seq() =~= self@);
            }
            self.end.as_mut_slice()
        }
    }

    /// Borrows the logical range `start..end` as up to two runs: the piece
    /// before the gap first, the piece after it second. A range on one side
    /// of the gap comes back as one run and an empty second run. `None` when
    /// the range is invalid.
    pub fn get_range(&self, start: usize, end: usize) -> (r: Option<(&[T], &[T])>)
        requires
            self.wf(),
        ensures
            (r is Some) <==> start <= end <= self@.len(),
            r matches Some(v) ==> v.0@ + v.1@ == self@.subrange(start as int, end as int),
            r matches Some(v) ==> ((end <= self.start_seq().len() || self.start_seq().len()
                <= start) ==> v.1@ == Seq::<T>::empty()),
            r matches Some(v) ==> (start < self.start_seq().len() < end ==> {
                let p = self.start_seq().len() as int;
                v.0@ == self@.subrange(start as int, p) && v.1@ == self@.subrange(p, end as int)
            }),
    {
        let n = self.len();
        if end > n || start > end {
            return None;
        }
        let p = self.start.len();
        if end <= p {
            let single = vstd::slice::slice_subrange(self.start.as_slice(), start, end);
            let empty = vstd::slice::slice_subrange(self.end.as_slice(), 0, 0);
            proof {
                assert(single@ + empty@ =~= self@.subrange(start as int, end as int));
            }
            Some((single, empty))
        } else if p <= start {
            let single = vstd::slice::slice_subrange(self.end.as_slice(), start - p, end - p);
            let empty = vstd::slice::slice_subrange(self.start.as_slice(), 0, 0);
            proof {
                assert(single@ =~= self@.subrange(start as int, end as int));
                assert(single@ + empty@ =~= self@.subrange(start as int, end as int));
            }
            Some((single, empty))
        } else {
            let first = vstd::slice::slice_subrange(self.start.as_slice(), start, p);
            let second = vstd::slice::slice_subrange(self.end.as_slice(), 0, end - p);
            proof {
                assert(first@ =~= self@.subrange(start as int, p as int));
                assert(second@ =~= self@.subrange(p as int, end as int));
                assert(first@ + second@ =~= self@.subrange(start as int, end as int));
            }
            Some((first, second))
        }
    }

    /// Borrows the logical range `start..end` as one contiguous run, moving
    /// the gap out of the range first with minimal element moves. `None`
    /// when the range is invalid.
    pub fn get_slice(&mut self, start: usize, end: usize) -> (r: Option<&[T]>)
        requires
            old(self).wf(),
        ensures
            final(self).wf(),
            final(self)@ == old(self)@,
            final(self).spec_gap_len() == old(self).spec_gap_len(),
            (r is Some) <==> start <= end <= old(self)@.len(),
            r matches Some(v) ==> v@ == old(self)@.subrange(start as int, end as int),
            r is None ==> *final(self) == *old(self),
    {
        let n = self.len();
        if end > n || start > end {
            return None;
        }
        self.move_gap_out_of(start, end);
        let p = self.start.len();
        if end <= p {
            let sl = vstd::slice::slice_subrange(self.start.as_slice(), start, end);
            proof {
                assert(sl@ =~= self@.subrange(start as int, end as int));
            }
            Some(sl)
        } else {
            proof {
                assert(p <= start);
            }
            let sl = vstd::slice::slice_subrange(self.end.as_slice(), start - p, end - p);
            proof {
                assert(sl@ =~= self@.subrange(start as int, end as int));
            }
            Some(sl)
        }
    }

    /// Widens the gap by `by` without moving it.
    pub fn grow_gap(&mut self, by: usize)
        requires
            old(self).wf(),
            old(self)@.len() + old(self).spec_gap_len() + by <= usize::MAX,
        ensures
            final(self).wf(),
            final(self)@ == old(self)@,
            final(self).start_seq() == old(self).start_seq(),
            final(self).end_seq() == old(self).end_seq(),
            final(self).spec_gap_len() == old(self).spec_gap_len() + by,
    {
        self.gap = self.gap + by;
    }

    /// Widens the gap by `by` and repositions it so the prefix has length
    /// `at`.
    pub fn grow_gap_at(&mut self, by: usize, at: usize)
        requires
            old(self).wf(),
            at <= old(self)@.len(),
            old(self)@.len() + old(self).spec_gap_len() + by <= usize::MAX,
        ensures
            final(self).wf(),
            final(self)@ == old(self)@,
            final(self).spec_gap_len() == old(self).spec_gap_len() + by,
            final(self).start_seq() == old(self)@.take(at as int),
            final(self).end_seq() == old(self)@.skip(at as int),
    {
        self.gap = self.gap + by;
        self.move_gap_start_to(at);
    }

    /// Narrows the gap by `by` without moving it. Shrinking by more than the
    /// gap's length is a caller error, excluded by contract.
    pub fn shrink_gap(&mut self, by: usize)
        requires
            old(self).wf(),
            by <= old(self).spec_gap_len(),
        ensures
            final(self).wf(),
            final(self)@ == old(self)@,
            final(self).start_seq() == old(self).start_seq(),
            final(self).end_seq() == old(self).end_seq(),
            final(self).spec_gap_len() == old(self).spec_gap_len() - by,
    {
        self.gap = self.gap - by;
    }

    /// Appends `items` to the prefix, taking the room out of the gap.
    pub fn grow_start(&mut self, items: Vec<T>)
        requires
            old(self).wf(),
            items@.len() <= old(self).spec_gap_len(),
        ensures
            final(self).wf(),
            final(self).start_seq() == old(self).start_seq() + items@,
            final(self).end_seq() == old(self).end_seq(),
            final(self).spec_gap_len() == old(self).spec_gap_len() - items@.len(),
    {
        let mut items = items;
        self.gap = self.gap - items.len();
        self.start.append(&mut items);
    }

    /// Prepends `items` to the suffix, taking the room out of the gap.
    pub fn grow_end(&mut self, items: Vec<T>)
        requires
            old(self).wf(),
            items@.len() <= old(self).spec_gap_len(),
        ensures
            final(self).wf(),
            final(self).start_seq() == old(self).start_seq(),
            final(self).end_seq() == items@ + old(self).end_seq(),
            final(self).spec_gap_len() == old(self).spec_gap_len() - items@.len(),
    {
        let mut items = items;
        self.gap = self.gap - items.len();
        items.append(&mut self.end);
        self.end = items;
    }

    /// Destroys the last `by` elements of the prefix, handing the room to
    /// the gap.
    pub fn shrink_start(&mut self, by: usize)
        requires
            old(self).wf(),
            by <= old(self).start_seq().len(),
        ensures
            final(self).wf(),
            final(self).start_seq() == old(self).start_seq().take(
                old(self).start_seq().len() - by,
            ),
            final(self).end_seq() == old(self).end_seq(),
            final(self).spec_gap_len() == old(self).spec_gap_len() + by,
    {
        let keep = self.start.len() - by;
        self.start.truncate(keep);
        self.gap = self.gap + by;
        proof {
            assert(self.start_seq() =~= old(self).start_seq().take(
                old(self).start_seq().len() - by,
            ));
        }
    }

    /// Destroys the first `by` elements of the suffix, handing the room to
    /// the gap.
    pub fn shrink_end(&mut self, by: usize)
        requires
            old(self).wf(),
            by <= old(self).end_seq().len(),
        ensures
            final(self).wf(),
            final(self).start_seq() == old(self).start_seq(),
            final(self).end_seq() == old(self).end_seq().skip(by as int),
            final(self).spec_gap_len() == old(self).spec_gap_len() + by,
    {
        let tail = self.end.split_off(by);
        self.end = tail;
        self.gap = self.gap + by;
    }

    /// Removes the logical range `start..end` in bulk, handing its elements
    /// to a [`Drain`] and its room to the gap. `None` when the range is
    /// invalid, leaving the buffer untouched.
    pub fn drain(&mut self, start: usize, end: usize) -> (r: Option<Drain<T>>)
        requires
            old(self).wf(),
        ensures
            final(self).wf(),
            (r is Some) <==> start <= end <= old(self)@.len(),
            r is None ==> *final(self) == *old(self),
            r matches Some(d) ==> {
                &&& d@ == old(self)@.subrange(start as int, end as int)
                &&& final(self)@ == old(self)@.subrange(0, start as int) + old(self)@.subrange(
                    end as int,
                    old(self)@.len() as int,
                )
                &&& final(self).spec_gap_len() == old(self).spec_gap_len() + (end - start)
            },
    {
        let n = self.len();
        if end > n || start > end {
            return None;
        }
        self.move_gap_start_to(start);
        let d = end - start;
        let mut removed = self.end.split_off(d);
        core::mem::swap(&mut self.end, &mut removed);
        self.gap = self.gap + d;
        proof {
            assert(removed@ =~= old(self)@.subrange(start as int, end as int));
            assert(self@ =~= old(self)@.subrange(0, start as int) + old(self)@.subrange(
                end as int,
                old(self)@.len() as int,
            ));
        }
        Some(Drain::from_vec(removed))
    }

    /// Consumes the buffer, destroying every stored element exactly once.
    pub fn drop_in_place(self) {
    }
}

impl<T> Default for RawGapBuf<T> {
    /// An empty buffer with no elements and no gap.
    fn default() -> (r: Self)
        ensures
            r@ == Seq::<T>::empty(),
            r.start_seq() == Seq::<T>::empty(),
            r.end_seq() == Seq::<T>::empty(),
            r.spec_gap_len() == 0,
            r.wf(),
    {
        RawGapBuf::new()
    }
}

/// Copies a row of slices into one owned run, in order.
fn flatten_pieces<T: Copy>(pieces: &[&[T]]) -> (r: Vec<T>)
    ensures
        r@ == pieces@.map_values(|s: &[T]| s@).flatten(),
{
    let mut out: Vec<T> = Vec::new();
    proof {
        assert(pieces@.map_values(|s: &[T]| s@).take(0) =~= Seq::<Seq<T>>::empty());
        assert(Seq::<Seq<T>>::empty().flatten() =~= Seq::<T>::empty());
    }
    let mut i: usize = 0;
    while i < pieces.len()
        invariant
            0 <= i <= pieces@.len(),
            out@ == pieces@.map_values(|s: &[T]| s@).take(i as int).flatten(),
        decreases pieces@.len() - i,
    {
        let piece: &[T] = *vstd::slice::slice_index_get(pieces, i);
        proof {
            assert(piece@ == pieces@.map_values(|s: &[T]| s@)[i as int]);
            assert(out@ + piece@.take(0) =~= out@);
        }
        let ghost before = out@;
        let mut k: usize = 0;
        while k < piece.len()
            invariant
                0 <= k <= piece@.len(),
                out@ == before + piece@.take(k as int),
            decreases piece@.len() - k,
        {
            let b = *vstd::slice::slice_index_get(piece, k);
            out.push(b);
            proof {
                assert(out@ =~= before + piece@.take(k + 1));
            }
            k = k + 1;
        }
        proof {
            let parts = pieces@.map_values(|s: &[T]| s@);
            parts.take(i as int).lemma_flatten_push(piece@);
            assert(parts.take(i as int).push(piece@) =~= parts.take(i + 1));
            assert(piece@.take(piece@.len() as int) =~= piece@);
        }
        i = i + 1;
    }
    proof {
        let parts = pieces@.map_values(|s: &[T]| s@);
        assert(parts.take(parts.len() as int) =~= parts);
    }
    out
}

/// Law: repositioning the gap from prefix length `p` to prefix length `to`
/// touches only the elements between the two positions. Every element below
/// the lower position keeps its place in the prefix, and every element at or
/// above the higher position keeps its offset from the gap in the suffix, so
/// a move of distance `d` moves exactly `d` elements.
pub proof fn lemma_reposition_minimal<T>(content: Seq<T>, p: int, to: int)
    requires
        0 <= p <= content.len(),
        0 <= to <= content.len(),
    ensures
        forall|i: int|
            0 <= i < p && 0 <= i < to ==> #[trigger] content.take(to)[i] == content.take(p)[i],
        forall|i: int|
            p <= i < content.len() && to <= i < content.len() ==> #[trigger] content.skip(to)[i
                - to] == content.skip(p)[i - p],
{
}

} // verus!
