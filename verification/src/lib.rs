//! A gap buffer: a mutable sequence container optimized for localized edits
//! (insert/delete/replace near a moving cursor).
//!
//! The crate has three layers:
//! - [`raw_gap_buf::RawGapBuf`], a generic engine holding a prefix, a gap of
//!   spare room, and a suffix, with minimal-copy gap repositioning;
//! - [`GapText`], a UTF-8 text buffer applying the same gap technique to
//!   bytes, with character-boundary enforcement on every edit point;
//! - [`drain::Drain`], an iterator-style protocol disposing of a contiguous
//!   run of elements removed in bulk.

#![verifier::loop_isolation(false)]

pub mod drain;
pub mod raw_gap_buf;
pub mod slice;
pub mod utils;

use vstd::prelude::*;

verus! {

use vstd::string::StringSliceAdditionalSpecFns;
use vstd::utf8::decode_utf8;
use vstd::utf8::decode_utf8_split;
use vstd::utf8::encode_utf8_decode_utf8;
use vstd::utf8::encode_utf8_valid_utf8;
use vstd::utf8::is_char_boundary;
use vstd::utf8::is_char_boundary_start_end_of_seq;
use vstd::utf8::valid_utf8;

use crate::slice::GapSlice;
use crate::utils::lemma_boundary_byte_check;
use crate::utils::lemma_concat_valid;
use crate::utils::lemma_mid_valid;
use crate::utils::lemma_split_valid;
use crate::utils::u8_is_char_boundry;

/// Gap length given to a buffer whose gap size was not chosen by the caller.
pub const DEFAULT_GAP_SIZE: usize = 512;

/// Error returned by the text-buffer operations.
#[derive(Clone, Copy, Debug, PartialEq, Eq, Structural)]
pub enum GapError {
    /// An index or range endpoint exceeds the current logical length.
    OutOfBounds { len: usize, target: usize },
    /// An edit or read point falls inside a multi-byte UTF-8 character.
    NotCharBoundry,
}

/// A UTF-8 gap buffer over bytes.
///
/// One allocation holds, in order: the prefix (the text before the gap), the
/// gap (unspecified bytes), the suffix (the text after the gap), and reserved
/// slack used only as scratch space by [`GapText::get_str`]. The logical text
/// is the prefix followed by the suffix; edits reposition the gap with
/// minimal byte copies and grow it when it runs out of room.
#[derive(Clone, Debug)]
pub struct GapText {
    buf: Vec<u8>,
    gap_start: usize,
    gap_end: usize,
    text_end: usize,
    base_gap_size: usize,
}

impl GapText {
    /// The logical text: prefix bytes followed by suffix bytes.
    pub closed spec fn text(self) -> Seq<u8> {
        self.buf@.subrange(0, self.gap_start as int) + self.buf@.subrange(
            self.gap_end as int,
            self.text_end as int,
        )
    }

    /// Number of bytes of logical text.
    pub open spec fn text_len(self) -> int {
        self.text().len() as int
    }

    /// The gap's logical position: the length of the prefix.
    pub closed spec fn gap_start_pos(self) -> int {
        self.gap_start as int
    }

    /// The gap's current length.
    pub closed spec fn spec_gap_len(self) -> int {
        self.gap_end - self.gap_start
    }

    /// The configured gap length for freshly created gaps.
    pub closed spec fn spec_base_gap_size(self) -> int {
        self.base_gap_size as int
    }

    /// Length of the whole allocation, reserved slack included.
    pub closed spec fn total_len(self) -> int {
        self.buf@.len() as int
    }

    /// The regions are ordered and lie inside the allocation.
    spec fn wf_struct(self) -> bool {
        self.gap_start <= self.gap_end <= self.text_end <= self.buf@.len()
    }

    /// Well-formed: the regions are ordered, the text is valid UTF-8, and the
    /// gap sits on a character boundary of the logical text.
    pub closed spec fn wf(self) -> bool {
        &&& self.wf_struct()
        &&& valid_utf8(self.text())
        &&& is_char_boundary(self.text(), self.gap_start as int)
    }

    proof fn lemma_text_parts(self)
        requires
            self.wf_struct(),
        ensures
            self.text().len() == self.gap_start + self.text_end - self.gap_end,
            self.text().subrange(0, self.gap_start as int) == self.buf@.subrange(
                0,
                self.gap_start as int,
            ),
            self.text().subrange(self.gap_start as int, self.text().len() as int)
                == self.buf@.subrange(self.gap_end as int, self.text_end as int),
    {
        assert(self.text().subrange(0, self.gap_start as int) =~= self.buf@.subrange(
            0,
            self.gap_start as int,
        ));
        assert(self.text().subrange(self.gap_start as int, self.text().len() as int)
            =~= self.buf@.subrange(self.gap_end as int, self.text_end as int));
    }

    /// Builds a buffer holding `s`, with no gap yet and the default base gap
    /// size.
    pub fn new(s: &str) -> (r: Self)
        ensures
            r.wf(),
            r.text() == s.spec_bytes(),
            r.gap_start_pos() == 0,
            r.spec_gap_len() == 0,
            r.spec_base_gap_size() == DEFAULT_GAP_SIZE,
            r.total_len() == s.spec_bytes().len(),
    {
        let bytes = s.as_bytes();
        let buf = vstd::slice::slice_to_vec(bytes);
        let text_end = buf.len();
        let r = GapText { buf, gap_start: 0, gap_end: 0, text_end, base_gap_size: DEFAULT_GAP_SIZE };
        proof {
            assert(r.text() =~= s.spec_bytes());
            encode_utf8_valid_utf8(s@);
            is_char_boundary_start_end_of_seq(r.text());
        }
        r
    }

    /// Builds a buffer holding `s` with a chosen base gap size.
    pub fn with_gap_size(s: &str, size: usize) -> (r: Self)
        ensures
            r.wf(),
            r.text() == s.spec_bytes(),
            r.gap_start_pos() == 0,
            r.spec_gap_len() == 0,
            r.spec_base_gap_size() == size,
            r.total_len() == s.spec_bytes().len(),
    {
        let mut gapstr = Self::new(s);
        gapstr.set_base_gap_size(size);
        gapstr
    }

    /// The configured gap length for freshly created gaps.
    pub fn base_gap_size(&self) -> (r: usize)
        ensures
            r == self.spec_base_gap_size(),
    {
        self.base_gap_size
    }

    /// Changes the gap length used when a fresh gap is created.
    pub fn set_base_gap_size(&mut self, gap_size: usize)
        ensures
            final(self).spec_base_gap_size() == gap_size,
            final(self).text() == old(self).text(),
            final(self).gap_start_pos() == old(self).gap_start_pos(),
            final(self).spec_gap_len() == old(self).spec_gap_len(),
            final(self).total_len() == old(self).total_len(),
            old(self).wf() ==> final(self).wf(),
    {
        self.base_gap_size = gap_size;
    }

    /// Number of bytes of logical text.
    pub fn len(&self) -> (r: usize)
        requires
            self.wf(),
        ensures
            r == self.text_len(),
    {
        proof {
            self.lemma_text_parts();
        }
        self.gap_start + (self.text_end - self.gap_end)
    }

    /// The logical byte at position `i`.
    fn byte_at(&self, i: usize) -> (r: u8)
        requires
            self.wf_struct(),
            i < self.text_len(),
        ensures
            r == self.text()[i as int],
    {
        proof {
            self.lemma_text_parts();
        }
        if i < self.gap_start {
            self.buf[i]
        } else {
            self.buf[self.gap_end + (i - self.gap_start)]
        }
    }

    /// Repositions the gap so the prefix has length `to`, copying only the
    /// bytes between the old and new gap positions.
    fn move_gap(&mut self, to: usize)
        requires
            old(self).wf_struct(),
            to <= old(self).text_len(),
        ensures
            final(self).wf_struct(),
            final(self).text() == old(self).text(),
            final(self).gap_start == to,
            final(self).spec_gap_len() == old(self).spec_gap_len(),
            final(self).text_end == old(self).text_end,
            final(self).buf@.len() == old(self).buf@.len(),
            final(self).base_gap_size == old(self).base_gap_size,
    {
        proof {
            old(self).lemma_text_parts();
        }
        let g = self.gap_end - self.gap_start;
        if to < self.gap_start {
            let d = self.gap_start - to;
            let mut k = d;
            while k > 0
                invariant
                    0 <= k <= d,
                    d == old(self).gap_start - to,
                    g == old(self).gap_end - old(self).gap_start,
                    to + d <= old(self).buf@.len(),
                    to + g + d == old(self).gap_end,
                    self.gap_start == old(self).gap_start,
                    self.gap_end == old(self).gap_end,
                    self.text_end == old(self).text_end,
                    self.base_gap_size == old(self).base_gap_size,
                    self.buf@.len() == old(self).buf@.len(),
                    forall|i: int|
                        0 <= i < self.buf@.len() && !(to + g + k <= i < to + g + d)
                            ==> self.buf@[i] == old(self).buf@[i],
                    forall|j: int| k <= j < d ==> #[trigger] self.buf@[to + g + j] == old(self).buf@[to + j],
                decreases k,
            {
                k = k - 1;
                let b = self.buf[to + k];
                proof {
                    assert(old(self).buf@[to + k] == b);
                }
                self.buf[to + g + k] = b;
            }
            self.gap_start = to;
            self.gap_end = to + g;
            proof {
                let pre = old(self).text();
                let post = self.text();
                let gs = old(self).gap_start as int;
                let ge = old(self).gap_end as int;
                let te = self.text_end as int;
                assert(post.len() == pre.len());
                assert forall|i: int| 0 <= i < post.len() implies post[i] == pre[i] by {
                    if i < to {
                        assert(post[i] == self.buf@[i]);
                        assert(pre[i] == old(self).buf@[i]);
                        assert(self.buf@[i] == old(self).buf@[i]);
                    } else {
                        let j = i - to;
                        assert(post[i] == self.buf@[to + g + j]);
                        if j < d {
                            assert(self.buf@[to + g + j] == old(self).buf@[to + j]);
                            assert(pre[i] == old(self).buf@[i]);
                        } else {
                            assert(self.buf@[to + g + j] == old(self).buf@[to + g + j]);
                            assert(pre[i] == old(self).buf@[ge + (i - gs)]);
                            assert(ge + (i - gs) == to + g + j);
                        }
                    }
                }
                assert(post =~= pre);
            }
        } else if to > self.gap_start {
            let d = to - self.gap_start;
            let gs = self.gap_start;
            let ge = self.gap_end;
            let mut k: usize = 0;
            while k < d
                invariant
                    0 <= k <= d,
                    gs == old(self).gap_start,
                    ge == old(self).gap_end,
                    d == to - gs,
                    ge + d <= old(self).text_end,
                    self.gap_start == old(self).gap_start,
                    self.gap_end == old(self).gap_end,
                    self.text_end == old(self).text_end,
                    self.base_gap_size == old(self).base_gap_size,
                    self.buf@.len() == old(self).buf@.len(),
                    forall|i: int|
                        0 <= i < self.buf@.len() && !(gs <= i < gs + k) ==> self.buf@[i] == old(
                            self,
                        ).buf@[i],
                    forall|j: int| 0 <= j < k ==> #[trigger] self.buf@[gs + j] == old(self).buf@[ge + j],
                decreases d - k,
            {
                let b = self.buf[ge + k];
                proof {
                    assert(old(self).buf@[ge + k] == b);
                }
                self.buf[gs + k] = b;
                k = k + 1;
            }
            self.gap_start = to;
            self.gap_end = ge + d;
            proof {
                let pre = old(self).text();
                let post = self.text();
                let gsi = gs as int;
                let gei = ge as int;
                let te = self.text_end as int;
                assert(post.len() == pre.len());
                assert forall|i: int| 0 <= i < post.len() implies post[i] == pre[i] by {
                    if i < gsi {
                        assert(post[i] == self.buf@[i]);
                        assert(pre[i] == old(self).buf@[i]);
                        assert(self.buf@[i] == old(self).buf@[i]);
                    } else if i < gsi + d {
                        let j = i - gsi;
                        assert(post[i] == self.buf@[gsi + j]);
                        assert(self.buf@[gsi + j] == old(self).buf@[gei + j]);
                        assert(pre[i] == old(self).buf@[gei + (i - gsi)]);
                    } else {
                        assert(post[i] == self.buf@[gei + d + (i - to)]);
                        assert(self.buf@[gei + d + (i - to)] == old(self).buf@[gei + d + (i - to)]);
                        assert(pre[i] == old(self).buf@[gei + (i - gsi)]);
                        assert(gei + (i - gsi) == gei + d + (i - to));
                    }
                }
                assert(post =~= pre);
            }
        } else {
            proof {
                assert(self.text() =~= old(self).text());
            }
        }
    }

    /// Repositions the gap start to `to`.
    ///
    /// Fails with `OutOfBounds` when `to` exceeds the text length and with
    /// `NotCharBoundry` when `to` falls inside a multi-byte character, since
    /// the gap position is itself a cut point of the logical text. On failure
    /// the buffer is unchanged.
    pub fn move_gap_start_to(&mut self, to: usize) -> (r: Result<(), GapError>)
        requires
            old(self).wf(),
        ensures
            final(self).wf(),
            to > old(self).text_len() ==> r == Err::<(), GapError>(
                GapError::OutOfBounds { len: old(self).text_len() as usize, target: to },
            ) && *final(self) == *old(self),
            to <= old(self).text_len() && !is_char_boundary(old(self).text(), to as int) ==> r
                == Err::<(), GapError>(GapError::NotCharBoundry) && *final(self) == *old(self),
            to <= old(self).text_len() && is_char_boundary(old(self).text(), to as int) ==> {
                &&& r == Ok::<(), GapError>(())
                &&& final(self).text() == old(self).text()
                &&& final(self).gap_start_pos() == to
                &&& final(self).spec_gap_len() == old(self).spec_gap_len()
                &&& final(self).spec_base_gap_size() == old(self).spec_base_gap_size()
                &&& final(self).total_len() == old(self).total_len()
            },
    {
        let n = self.len();
        if to > n {
            return Err(GapError::OutOfBounds { len: n, target: to });
        }
        let boundary = if to == n {
            true
        } else {
            u8_is_char_boundry(self.byte_at(to))
        };
        proof {
            lemma_boundary_byte_check(self.text(), to as int);
        }
        if !boundary {
            return Err(GapError::NotCharBoundry);
        }
        self.move_gap(to);
        Ok(())
    }

    /// Creates a fresh gap of the configured base size at position `at`.
    ///
    /// Only ever called while no gap exists; the position must be a character
    /// boundary of the text.
    pub fn insert_gap(&mut self, at: usize)
        requires
            old(self).wf(),
            old(self).spec_gap_len() == 0,
            at <= old(self).text_len(),
            is_char_boundary(old(self).text(), at as int),
            old(self).total_len() + old(self).spec_base_gap_size() <= usize::MAX,
        ensures
            final(self).wf(),
            final(self).text() == old(self).text(),
            final(self).gap_start_pos() == at,
            final(self).spec_gap_len() == old(self).spec_base_gap_size(),
            final(self).spec_base_gap_size() == old(self).spec_base_gap_size(),
            final(self).total_len() == old(self).text_len() + old(self).spec_base_gap_size(),
    {
        proof {
            old(self).lemma_text_parts();
        }
        // Bring the gap's (empty) position to `at`, then widen it by
        // rebuilding the allocation with filler bytes in the middle.
        self.move_gap(at);
        proof {
            self.lemma_text_parts();
            assert(self.gap_end == at);
        }
        let base = self.base_gap_size;
        let te = self.text_end;
        let mut rebuilt: Vec<u8> = Vec::new();
        let mut i: usize = 0;
        proof {
            assert(rebuilt@ =~= self.buf@.subrange(0, 0));
        }
        while i < at
            invariant
                0 <= i <= at,
                rebuilt@ == self.buf@.subrange(0, i as int),
            decreases at - i,
        {
            let b = self.buf[i];
            rebuilt.push(b);
            proof {
                assert(rebuilt@ =~= self.buf@.subrange(0, i + 1));
            }
            i = i + 1;
        }
        let mut z: usize = 0;
        while z < base
            invariant
                0 <= z <= base,
                rebuilt@.len() == at + z,
                rebuilt@.subrange(0, at as int) == self.buf@.subrange(0, at as int),
            decreases base - z,
        {
            rebuilt.push(0);
            proof {
                assert(rebuilt@.subrange(0, at as int) =~= self.buf@.subrange(0, at as int));
            }
            z = z + 1;
        }
        let mut j: usize = at;
        proof {
            assert(rebuilt@.subrange(at + base, rebuilt@.len() as int) =~= self.buf@.subrange(
                at as int,
                at as int,
            ));
        }
        while j < te
            invariant
                at <= j <= te,
                rebuilt@.len() == at + base + (j - at),
                rebuilt@.subrange(0, at as int) == self.buf@.subrange(0, at as int),
                rebuilt@.subrange(at + base, rebuilt@.len() as int) == self.buf@.subrange(
                    at as int,
                    j as int,
                ),
            decreases te - j,
        {
            let b = self.buf[j];
            rebuilt.push(b);
            proof {
                assert(rebuilt@.subrange(0, at as int) =~= self.buf@.subrange(0, at as int));
                assert(rebuilt@.subrange(at + base, rebuilt@.len() as int) =~= self.buf@.subrange(
                    at as int,
                    j + 1,
                ));
            }
            j = j + 1;
        }
        let new_len = rebuilt.len();
        self.buf = rebuilt;
        self.gap_start = at;
        self.gap_end = at + base;
        self.text_end = new_len;
        proof {
            assert(self.text() =~= old(self).text());
        }
    }

    /// Writes the bytes of `s` at the gap's position, consuming gap room when
    /// it suffices and rebuilding the allocation with a fresh base-sized gap
    /// when it does not. The gap ends up immediately after the written bytes.
    fn splice_at_gap(&mut self, s: &[u8])
        requires
            old(self).wf_struct(),
            old(self).text_len() + s@.len() + old(self).base_gap_size <= usize::MAX,
        ensures
            final(self).wf_struct(),
            final(self).text() == old(self).buf@.subrange(0, old(self).gap_start as int) + s@
                + old(self).buf@.subrange(old(self).gap_end as int, old(self).text_end as int),
            final(self).gap_start == old(self).gap_start + s@.len(),
            final(self).base_gap_size == old(self).base_gap_size,
            s@.len() <= old(self).spec_gap_len() ==> final(self).spec_gap_len() == old(
                self,
            ).spec_gap_len() - s@.len() && final(self).total_len() == old(self).total_len(),
            s@.len() > old(self).spec_gap_len() ==> final(self).spec_gap_len() == old(
                self,
            ).base_gap_size && final(self).total_len() == final(self).text_len() + old(
                self,
            ).base_gap_size,
    {
        proof {
            old(self).lemma_text_parts();
        }
        let slen = s.len();
        let g = self.gap_end - self.gap_start;
        let gs = self.gap_start;
        let ge = self.gap_end;
        let te = self.text_end;
        if slen <= g {
            let mut k: usize = 0;
            while k < slen
                invariant
                    0 <= k <= slen,
                    self.gap_start == gs,
                    self.gap_end == ge,
                    self.text_end == te,
                    self.base_gap_size == old(self).base_gap_size,
                    self.buf@.len() == old(self).buf@.len(),
                    forall|i: int|
                        0 <= i < self.buf@.len() && !(gs <= i < gs + k) ==> self.buf@[i] == old(
                            self,
                        ).buf@[i],
                    forall|j: int| 0 <= j < k ==> #[trigger] self.buf@[gs + j] == s@[j],
                decreases slen - k,
            {
                let b = *vstd::slice::slice_index_get(s, k);
                self.buf[gs + k] = b;
                k = k + 1;
            }
            self.gap_start = gs + slen;
            proof {
                let gsi = gs as int;
                let sl = s@.len() as int;
                let expected = old(self).buf@.subrange(0, gsi) + s@ + old(self).buf@.subrange(
                    ge as int,
                    te as int,
                );
                assert(self.text().len() == expected.len());
                assert forall|i: int| 0 <= i < expected.len() implies self.text()[i] == expected[i]
                by {
                    if i < gsi {
                        assert(self.text()[i] == self.buf@[i]);
                        assert(self.buf@[i] == old(self).buf@[i]);
                    } else if i < gsi + sl {
                        assert(self.text()[i] == self.buf@[gsi + (i - gsi)]);
                        assert(self.buf@[gsi + (i - gsi)] == s@[i - gsi]);
                    } else {
                        assert(self.text()[i] == self.buf@[ge + (i - gsi - sl)]);
                        assert(self.buf@[ge + (i - gsi - sl)] == old(self).buf@[ge + (i - gsi
                            - sl)]);
                    }
                }
                assert(self.text() =~= expected);
            }
        } else {
            let base = self.base_gap_size;
            let mut rebuilt: Vec<u8> = Vec::new();
            proof {
                assert(rebuilt@ =~= self.buf@.subrange(0, 0));
            }
            push_range(&mut rebuilt, &self.buf, 0, gs);
            push_slice(&mut rebuilt, s);
            push_zeros(&mut rebuilt, base);
            proof {
                assert(rebuilt@.subrange(0, gs + slen) =~= self.buf@.subrange(0, gs as int) + s@);
            }
            push_range(&mut rebuilt, &self.buf, ge, te);
            let new_len = rebuilt.len();
            self.buf = rebuilt;
            self.gap_start = gs + slen;
            self.gap_end = gs + slen + base;
            self.text_end = new_len;
            proof {
                let expected = old(self).buf@.subrange(0, gs as int) + s@ + old(self).buf@.subrange(
                    ge as int,
                    te as int,
                );
                assert(self.buf@.subrange(0, self.gap_start as int) =~= old(self).buf@.subrange(
                    0,
                    gs as int,
                ) + s@);
                assert(self.buf@.subrange(self.gap_end as int, self.text_end as int) =~= old(
                    self,
                ).buf@.subrange(ge as int, te as int));
                assert(self.text() =~= expected);
            }
        }
    }

    /// Inserts `s` at byte position `at` of the logical text.
    ///
    /// Fails with `OutOfBounds` when `at` exceeds the text length and with
    /// `NotCharBoundry` when `at` falls inside a multi-byte character; a
    /// failed insert leaves the buffer untouched. On success the gap sits
    /// immediately after the inserted bytes.
    pub fn insert(&mut self, at: usize, s: &str) -> (r: Result<(), GapError>)
        requires
            old(self).wf(),
            old(self).text_len() + s.spec_bytes().len() + old(self).spec_base_gap_size()
                <= usize::MAX,
        ensures
            final(self).wf(),
            final(self).spec_base_gap_size() == old(self).spec_base_gap_size(),
            at > old(self).text_len() ==> r == Err::<(), GapError>(
                GapError::OutOfBounds { len: old(self).text_len() as usize, target: at },
            ) && *final(self) == *old(self),
            at <= old(self).text_len() && !is_char_boundary(old(self).text(), at as int) ==> r
                == Err::<(), GapError>(GapError::NotCharBoundry) && *final(self) == *old(self),
            at <= old(self).text_len() && is_char_boundary(old(self).text(), at as int) ==> {
                &&& r == Ok::<(), GapError>(())
                &&& final(self).text() == old(self).text().subrange(0, at as int)
                    + s.spec_bytes() + old(self).text().subrange(
                    at as int,
                    old(self).text_len(),
                )
                &&& final(self).gap_start_pos() == at + s.spec_bytes().len()
                &&& (s.spec_bytes().len() <= old(self).spec_gap_len() ==> final(self).spec_gap_len() == old(self).spec_gap_len() - s.spec_bytes().len() && final(self).total_len() == old(self).total_len())
                &&& (s.spec_bytes().len() > old(self).spec_gap_len() ==> final(self).spec_gap_len() == old(self).spec_base_gap_size() && final(self).total_len()
                    == final(self).text_len() + old(self).spec_base_gap_size())
            },
    {
        let n = self.len();
        if at > n {
            return Err(GapError::OutOfBounds { len: n, target: at });
        }
        let boundary = if at == n {
            true
        } else {
            u8_is_char_boundry(self.byte_at(at))
        };
        proof {
            lemma_boundary_byte_check(self.text(), at as int);
        }
        if !boundary {
            return Err(GapError::NotCharBoundry);
        }
        self.move_gap(at);
        proof {
            self.lemma_text_parts();
        }
        let bytes = s.as_bytes();
        self.splice_at_gap(bytes);
        proof {
            let pre = old(self).text();
            let a = pre.subrange(0, at as int);
            let c = pre.subrange(at as int, pre.len() as int);
            assert(self.text() == a + s.spec_bytes() + c);
            lemma_split_valid(pre, at as int);
            encode_utf8_valid_utf8(s@);
            lemma_concat_valid(a, s.spec_bytes());
            lemma_concat_valid(a + s.spec_bytes(), c);
            assert((a + s.spec_bytes() + c).subrange(0, a.len() + s.spec_bytes().len() as int) =~= a
                + s.spec_bytes());
        }
        Ok(())
    }

    /// Deletes the byte range `start..end` of the logical text.
    ///
    /// The deleted bytes are not copied anywhere: the gap is repositioned to
    /// the range's end and simply widened backwards over the range. Fails
    /// with `OutOfBounds` on an invalid range and `NotCharBoundry` when an
    /// endpoint falls inside a multi-byte character; a failed delete leaves
    /// the buffer untouched.
    pub fn delete(&mut self, start: usize, end: usize) -> (r: Result<(), GapError>)
        requires
            old(self).wf(),
        ensures
            final(self).wf(),
            final(self).spec_base_gap_size() == old(self).spec_base_gap_size(),
            end > old(self).text_len() ==> r == Err::<(), GapError>(
                GapError::OutOfBounds { len: old(self).text_len() as usize, target: end },
            ) && *final(self) == *old(self),
            end <= old(self).text_len() && start > end ==> r == Err::<(), GapError>(
                GapError::OutOfBounds { len: old(self).text_len() as usize, target: start },
            ) && *final(self) == *old(self),
            start <= end <= old(self).text_len() && !(is_char_boundary(old(self).text(), start as int)
                && is_char_boundary(old(self).text(), end as int)) ==> r == Err::<(), GapError>(
                GapError::NotCharBoundry,
            ) && *final(self) == *old(self),
            start <= end <= old(self).text_len() && is_char_boundary(old(self).text(), start as int)
                && is_char_boundary(old(self).text(), end as int) ==> {
                &&& r == Ok::<(), GapError>(())
                &&& final(self).text() == old(self).text().subrange(0, start as int) + old(
                    self,
                ).text().subrange(end as int, old(self).text_len())
                &&& final(self).gap_start_pos() == start
                &&& final(self).spec_gap_len() == old(self).spec_gap_len() + (end - start)
                &&& final(self).total_len() == old(self).total_len()
            },
    {
        let n = self.len();
        if end > n {
            return Err(GapError::OutOfBounds { len: n, target: end });
        }
        if start > end {
            return Err(GapError::OutOfBounds { len: n, target: start });
        }
        let start_ok = if start == n {
            true
        } else {
            u8_is_char_boundry(self.byte_at(start))
        };
        let end_ok = if end == n {
            true
        } else {
            u8_is_char_boundry(self.byte_at(end))
        };
        proof {
            lemma_boundary_byte_check(self.text(), start as int);
            lemma_boundary_byte_check(self.text(), end as int);
        }
        if !(start_ok && end_ok) {
            return Err(GapError::NotCharBoundry);
        }
        self.move_gap(end);
        proof {
            self.lemma_text_parts();
        }
        self.gap_start = self.gap_start - (end - start);
        proof {
            let pre = old(self).text();
            let a = pre.subrange(0, start as int);
            let c = pre.subrange(end as int, pre.len() as int);
            assert(self.buf@.subrange(0, start as int) =~= a);
            assert(self.text() =~= a + c);
            lemma_split_valid(pre, start as int);
            lemma_split_valid(pre, end as int);
            assert(c =~= pre.subrange(start as int, pre.len() as int).subrange(
                end - start,
                pre.len() - start,
            ));
            lemma_concat_valid(a, c);
        }
        Ok(())
    }

    /// Replaces the byte range `start..end` of the logical text with `s`,
    /// repositioning the gap only once.
    ///
    /// Fails with `OutOfBounds` on an invalid range and `NotCharBoundry` when
    /// an endpoint falls inside a multi-byte character; a failed replace
    /// leaves the buffer untouched. On success the gap sits immediately after
    /// the replacement bytes.
    pub fn replace(&mut self, start: usize, end: usize, s: &str) -> (r: Result<(), GapError>)
        requires
            old(self).wf(),
            old(self).text_len() + s.spec_bytes().len() + old(self).spec_base_gap_size()
                <= usize::MAX,
        ensures
            final(self).wf(),
            final(self).spec_base_gap_size() == old(self).spec_base_gap_size(),
            end > old(self).text_len() ==> r == Err::<(), GapError>(
                GapError::OutOfBounds { len: old(self).text_len() as usize, target: end },
            ) && *final(self) == *old(self),
            end <= old(self).text_len() && start > end ==> r == Err::<(), GapError>(
                GapError::OutOfBounds { len: old(self).text_len() as usize, target: start },
            ) && *final(self) == *old(self),
            start <= end <= old(self).text_len() && !(is_char_boundary(old(self).text(), start as int)
                && is_char_boundary(old(self).text(), end as int)) ==> r == Err::<(), GapError>(
                GapError::NotCharBoundry,
            ) && *final(self) == *old(self),
            start <= end <= old(self).text_len() && is_char_boundary(old(self).text(), start as int)
                && is_char_boundary(old(self).text(), end as int) ==> {
                &&& r == Ok::<(), GapError>(())
                &&& final(self).text() == old(self).text().subrange(0, start as int)
                    + s.spec_bytes() + old(self).text().subrange(
                    end as int,
                    old(self).text_len(),
                )
                &&& final(self).gap_start_pos() == start + s.spec_bytes().len()
                &&& (s.spec_bytes().len() <= old(self).spec_gap_len() + (end - start) ==> final(self).spec_gap_len() == old(self).spec_gap_len() + (end - start)
                    - s.spec_bytes().len() && final(self).total_len() == old(self).total_len())
                &&& (s.spec_bytes().len() > old(self).spec_gap_len() + (end - start) ==> final(self).spec_gap_len() == old(self).spec_base_gap_size() && final(self).total_len()
                    == final(self).text_len() + old(self).spec_base_gap_size())
            },
    {
        let n = self.len();
        if end > n {
            return Err(GapError::OutOfBounds { len: n, target: end });
        }
        if start > end {
            return Err(GapError::OutOfBounds { len: n, target: start });
        }
        let start_ok = if start == n {
            true
        } else {
            u8_is_char_boundry(self.byte_at(start))
        };
        let end_ok = if end == n {
            true
        } else {
            u8_is_char_boundry(self.byte_at(end))
        };
        proof {
            lemma_boundary_byte_check(self.text(), start as int);
            lemma_boundary_byte_check(self.text(), end as int);
        }
        if !(start_ok && end_ok) {
            return Err(GapError::NotCharBoundry);
        }
        self.move_gap(end);
        proof {
            self.lemma_text_parts();
        }
        self.gap_start = self.gap_start - (end - start);
        proof {
            let pre = old(self).text();
            let a = pre.subrange(0, start as int);
            let c = pre.subrange(end as int, pre.len() as int);
            assert(self.buf@.subrange(0, self.gap_start as int) =~= a);
            assert(self.buf@.subrange(self.gap_end as int, self.text_end as int) =~= c);
        }
        let bytes = s.as_bytes();
        self.splice_at_gap(bytes);
        proof {
            let pre = old(self).text();
            let a = pre.subrange(0, start as int);
            let c = pre.subrange(end as int, pre.len() as int);
            assert(self.text() == a + s.spec_bytes() + c);
            lemma_split_valid(pre, start as int);
            lemma_split_valid(pre, end as int);
            assert(c =~= pre.subrange(start as int, pre.len() as int).subrange(
                end - start,
                pre.len() - start,
            ));
            encode_utf8_valid_utf8(s@);
            lemma_concat_valid(a, s.spec_bytes());
            lemma_concat_valid(a + s.spec_bytes(), c);
            assert((a + s.spec_bytes() + c).subrange(0, a.len() + s.spec_bytes().len() as int) =~= a
                + s.spec_bytes());
        }
        Ok(())
    }

    /// Physical offset of the byte starting a read at logical position
    /// `byte_pos`, for a gap spanning `gap_start..gap_end`: positions at or
    /// past the gap are shifted right by the gap length.
    pub fn start_byte_pos_with_offset(gap_start: usize, gap_end: usize, byte_pos: usize) -> (r:
        usize)
        requires
            gap_start <= gap_end,
            byte_pos + (gap_end - gap_start) <= usize::MAX,
        ensures
            r == if gap_start > byte_pos {
                byte_pos as int
            } else {
                byte_pos + (gap_end - gap_start)
            },
    {
        if gap_start > byte_pos {
            byte_pos
        } else {
            byte_pos + (gap_end - gap_start)
        }
    }

    /// Physical offset of the byte ending a read at logical position
    /// `byte_pos`: only positions strictly past the gap's start are shifted,
    /// so a read ending exactly at the gap stays in the prefix.
    pub fn end_byte_pos_with_offset(gap_start: usize, gap_end: usize, byte_pos: usize) -> (r:
        usize)
        requires
            gap_start <= gap_end,
            byte_pos + (gap_end - gap_start) <= usize::MAX,
        ensures
            r == if gap_start >= byte_pos {
                byte_pos as int
            } else {
                byte_pos + (gap_end - gap_start)
            },
    {
        if gap_start >= byte_pos {
            byte_pos
        } else {
            byte_pos + (gap_end - gap_start)
        }
    }

    /// Checks that `start..end` is a well-formed read of the text: in bounds
    /// and cut on character boundaries.
    fn check_range(&self, start: usize, end: usize) -> (r: bool)
        requires
            self.wf(),
        ensures
            r == (start <= end <= self.text_len() && is_char_boundary(self.text(), start as int)
                && is_char_boundary(self.text(), end as int)),
    {
        let n = self.len();
        if end > n || start > end {
            return false;
        }
        let start_ok = if start == n {
            true
        } else {
            u8_is_char_boundry(self.byte_at(start))
        };
        let end_ok = if end == n {
            true
        } else {
            u8_is_char_boundry(self.byte_at(end))
        };
        proof {
            lemma_boundary_byte_check(self.text(), start as int);
            lemma_boundary_byte_check(self.text(), end as int);
        }
        start_ok && end_ok
    }

    /// Reads the byte range `start..end` of the text without moving the gap.
    ///
    /// Returns `None` when the range is out of bounds or either endpoint
    /// falls inside a multi-byte character. Returns a `Single` piece when the
    /// gap does not cut the range and a `Spaced` pair (before-gap, after-gap)
    /// when it does.
    pub fn get<'a>(&'a self, start: usize, end: usize) -> (r: Option<GapSlice<'a>>)
        requires
            self.wf(),
        ensures
            (r is Some) <==> (start <= end <= self.text_len() && is_char_boundary(
                self.text(),
                start as int,
            ) && is_char_boundary(self.text(), end as int)),
            r matches Some(v) ==> v.byte_seq() == self.text().subrange(start as int, end as int),
            r matches Some(v) ==> ((v is Single) <==> (end <= self.gap_start_pos()
                || self.gap_start_pos() <= start)),
            r matches Some(GapSlice::Spaced(a, b)) ==> a.spec_bytes() == self.text().subrange(
                start as int,
                self.gap_start_pos(),
            ) && b.spec_bytes() == self.text().subrange(self.gap_start_pos(), end as int),
    {
        if !self.check_range(start, end) {
            return None;
        }
        proof {
            self.lemma_text_parts();
            lemma_mid_valid(self.text(), start as int, end as int);
        }
        let g = self.gap_end - self.gap_start;
        if end <= self.gap_start {
            let sl = vstd::slice::slice_subrange(self.buf.as_slice(), start, end);
            proof {
                assert(sl@ =~= self.text().subrange(start as int, end as int));
            }
            let st = crate::utils::bytes_as_str(sl);
            Some(GapSlice::Single(st))
        } else if self.gap_start <= start {
            let sl = vstd::slice::slice_subrange(self.buf.as_slice(), start + g, end + g);
            proof {
                assert(sl@ =~= self.text().subrange(start as int, end as int));
            }
            let st = crate::utils::bytes_as_str(sl);
            Some(GapSlice::Single(st))
        } else {
            proof {
                lemma_mid_valid(self.text(), start as int, self.gap_start as int);
                lemma_mid_valid(self.text(), self.gap_start as int, end as int);
            }
            let s1 = vstd::slice::slice_subrange(self.buf.as_slice(), start, self.gap_start);
            let s2 = vstd::slice::slice_subrange(self.buf.as_slice(), self.gap_end, end + g);
            proof {
                assert(s1@ =~= self.text().subrange(start as int, self.gap_start as int));
                assert(s2@ =~= self.text().subrange(self.gap_start as int, end as int));
            }
            let p1 = crate::utils::bytes_as_str(s1);
            let p2 = crate::utils::bytes_as_str(s2);
            proof {
                assert(p1.spec_bytes() + p2.spec_bytes() =~= self.text().subrange(
                    start as int,
                    end as int,
                ));
            }
            Some(GapSlice::Spaced(p1, p2))
        }
    }

    /// Copies the bytes of the logical range `start..end`, which straddles
    /// the gap, into the scratch region starting at physical offset `dst`:
    /// either room inside the gap itself or reserved slack past the text.
    /// The logical text is untouched.
    #[verifier::loop_isolation(false)]
    fn stitch(&mut self, start: usize, end: usize, dst: usize)
        requires
            old(self).wf_struct(),
            start <= old(self).gap_start,
            old(self).gap_start as int <= end <= old(self).text_len(),
            dst + (end - start) <= old(self).buf@.len(),
            (old(self).gap_start <= dst && dst + (end - start) <= old(self).gap_end) || old(
                self,
            ).text_end <= dst,
        ensures
            final(self).wf_struct(),
            final(self).gap_start == old(self).gap_start,
            final(self).gap_end == old(self).gap_end,
            final(self).text_end == old(self).text_end,
            final(self).base_gap_size == old(self).base_gap_size,
            final(self).buf@.len() == old(self).buf@.len(),
            final(self).text() == old(self).text(),
            final(self).buf@.subrange(dst as int, dst + (end - start)) == old(
                self,
            ).text().subrange(start as int, end as int),
    {
        proof {
            old(self).lemma_text_parts();
        }
        let buf_len = self.buf.len();
        let gs = self.gap_start;
        let ge = self.gap_end;
        let p1_len = gs - start;
        let p2_len = end - gs;
        let mut k: usize = 0;
        while k < p1_len
            invariant
                0 <= k <= p1_len,
                self.gap_start == gs,
                self.gap_end == ge,
                self.text_end == old(self).text_end,
                self.base_gap_size == old(self).base_gap_size,
                self.buf@.len() == old(self).buf@.len(),
                forall|i: int|
                    0 <= i < self.buf@.len() && !(dst <= i < dst + k) ==> self.buf@[i] == old(
                        self,
                    ).buf@[i],
                forall|j: int| 0 <= j < k ==> #[trigger] self.buf@[dst + j] == old(self).buf@[start
                    + j],
            decreases p1_len - k,
        {
            let b = self.buf[start + k];
            proof {
                assert(old(self).buf@[start + k] == b);
            }
            self.buf[dst + k] = b;
            k = k + 1;
        }
        let mut k2: usize = 0;
        while k2 < p2_len
            invariant
                0 <= k2 <= p2_len,
                self.gap_start == gs,
                self.gap_end == ge,
                self.text_end == old(self).text_end,
                self.base_gap_size == old(self).base_gap_size,
                self.buf@.len() == old(self).buf@.len(),
                forall|i: int|
                    0 <= i < self.buf@.len() && !(dst <= i < dst + p1_len + k2) ==> self.buf@[i]
                        == old(self).buf@[i],
                forall|j: int| 0 <= j < p1_len ==> #[trigger] self.buf@[dst + j] == old(
                    self,
                ).buf@[start + j],
                forall|j: int| 0 <= j < k2 ==> #[trigger] self.buf@[dst + p1_len + j] == old(
                    self,
                ).buf@[ge + j],
            decreases p2_len - k2,
        {
            let b = self.buf[ge + k2];
            proof {
                assert(old(self).buf@[ge + k2] == b);
                assert(p1_len + k2 < end - start);
                assert(dst + p1_len + k2 < dst + (end - start));
            }
            self.buf[dst + p1_len + k2] = b;
            k2 = k2 + 1;
        }
        proof {
            assert(self.text() =~= old(self).text());
            let pre = old(self).text();
            let got = self.buf@.subrange(dst as int, dst + (end - start));
            assert forall|j: int| 0 <= j < got.len() implies got[j] == pre[start + j] by {
                if j < p1_len {
                    assert(got[j] == self.buf@[dst + j]);
                    assert(self.buf@[dst + j] == old(self).buf@[start + j]);
                    assert(pre[start + j] == old(self).buf@[start + j]);
                } else {
                    assert(got[j] == self.buf@[dst + p1_len + (j - p1_len)]);
                    assert(self.buf@[dst + p1_len + (j - p1_len)] == old(self).buf@[ge + (j
                        - p1_len)]);
                    assert(pre[start + j] == old(self).buf@[ge + (start + j - gs)]);
                }
            }
            assert(got =~= pre.subrange(start as int, end as int));
        }
    }

    /// Reads the byte range `start..end` of the text as one contiguous
    /// string slice, without moving the gap.
    ///
    /// Returns `None` when the range is out of bounds or either endpoint
    /// falls inside a multi-byte character. When the gap cuts the range, the
    /// requested bytes are stitched together in scratch space: room inside
    /// the gap when it suffices, otherwise reserved slack past the text,
    /// grown as a last resort. Only the requested range is ever copied, and
    /// neither the text nor the gap position changes.
    pub fn get_str<'a>(&'a mut self, start: usize, end: usize) -> (r: Option<&'a str>)
        requires
            old(self).wf(),
            old(self).total_len() + old(self).text_len() <= usize::MAX,
        ensures
            final(self).wf(),
            final(self).text() == old(self).text(),
            final(self).gap_start_pos() == old(self).gap_start_pos(),
            final(self).spec_gap_len() == old(self).spec_gap_len(),
            final(self).spec_base_gap_size() == old(self).spec_base_gap_size(),
            (r is Some) <==> (start <= end <= old(self).text_len() && is_char_boundary(
                old(self).text(),
                start as int,
            ) && is_char_boundary(old(self).text(), end as int)),
            r matches Some(st) ==> st.spec_bytes() == old(self).text().subrange(
                start as int,
                end as int,
            ),
            r is None ==> *final(self) == *old(self),
            final(self).total_len() <= old(self).total_len() + old(self).text_len(),
    {
        if !self.check_range(start, end) {
            return None;
        }
        proof {
            self.lemma_text_parts();
            lemma_mid_valid(self.text(), start as int, end as int);
        }
        let g = self.gap_end - self.gap_start;
        let read_len = end - start;
        if end <= self.gap_start {
            let sl = vstd::slice::slice_subrange(self.buf.as_slice(), start, end);
            proof {
                assert(sl@ =~= self.text().subrange(start as int, end as int));
            }
            return Some(crate::utils::bytes_as_str(sl));
        }
        if self.gap_start <= start {
            let sl = vstd::slice::slice_subrange(self.buf.as_slice(), start + g, end + g);
            proof {
                assert(sl@ =~= self.text().subrange(start as int, end as int));
            }
            return Some(crate::utils::bytes_as_str(sl));
        }
        let dst = if g > read_len {
            self.gap_start
        } else if self.buf.len() - self.text_end > read_len {
            self.text_end
        } else {
            push_zeros(&mut self.buf, read_len);
            proof {
                assert(self.buf@.subrange(0, self.gap_start as int) =~= old(self).buf@.subrange(
                    0,
                    self.gap_start as int,
                ));
                assert(self.buf@.subrange(self.gap_end as int, self.text_end as int) =~= old(
                    self,
                ).buf@.subrange(self.gap_end as int, self.text_end as int));
                assert(self.text() =~= old(self).text());
            }
            self.text_end
        };
        let ghost mid = *self;
        self.stitch(start, end, dst);
        let sl = vstd::slice::slice_subrange(self.buf.as_slice(), dst, dst + read_len);
        proof {
            assert(sl@ == mid.text().subrange(start as int, end as int));
            assert(mid.text() == old(self).text());
        }
        Some(crate::utils::bytes_as_str(sl))
    }

    /// Removes the byte range `start..end` of the text in bulk, handing the
    /// removed bytes to a [`Drain`] and their room to the gap.
    ///
    /// Fails exactly as [`GapText::delete`] does, leaving the buffer
    /// untouched.
    pub fn drain(&mut self, start: usize, end: usize) -> (r: Result<
        crate::drain::Drain<u8>,
        GapError,
    >)
        requires
            old(self).wf(),
        ensures
            final(self).wf(),
            final(self).spec_base_gap_size() == old(self).spec_base_gap_size(),
            end > old(self).text_len() ==> r == Err::<crate::drain::Drain<u8>, GapError>(
                GapError::OutOfBounds { len: old(self).text_len() as usize, target: end },
            ) && *final(self) == *old(self),
            end <= old(self).text_len() && start > end ==> r == Err::<
                crate::drain::Drain<u8>,
                GapError,
            >(GapError::OutOfBounds { len: old(self).text_len() as usize, target: start })
                && *final(self) == *old(self),
            start <= end <= old(self).text_len() && !(is_char_boundary(old(self).text(), start as int)
                && is_char_boundary(old(self).text(), end as int)) ==> r == Err::<
                crate::drain::Drain<u8>,
                GapError,
            >(GapError::NotCharBoundry) && *final(self) == *old(self),
            start <= end <= old(self).text_len() && is_char_boundary(old(self).text(), start as int)
                && is_char_boundary(old(self).text(), end as int) ==> {
                &&& r matches Ok(d) && d@ == old(self).text().subrange(start as int, end as int)
                &&& final(self).text() == old(self).text().subrange(0, start as int) + old(
                    self,
                ).text().subrange(end as int, old(self).text_len())
                &&& final(self).gap_start_pos() == start
                &&& final(self).spec_gap_len() == old(self).spec_gap_len() + (end - start)
                &&& final(self).total_len() == old(self).total_len()
            },
    {
        let n = self.len();
        if end > n {
            return Err(GapError::OutOfBounds { len: n, target: end });
        }
        if start > end {
            return Err(GapError::OutOfBounds { len: n, target: start });
        }
        let start_ok = if start == n {
            true
        } else {
            u8_is_char_boundry(self.byte_at(start))
        };
        let end_ok = if end == n {
            true
        } else {
            u8_is_char_boundry(self.byte_at(end))
        };
        proof {
            lemma_boundary_byte_check(self.text(), start as int);
            lemma_boundary_byte_check(self.text(), end as int);
        }
        if !(start_ok && end_ok) {
            return Err(GapError::NotCharBoundry);
        }
        self.move_gap(end);
        proof {
            self.lemma_text_parts();
        }
        let mut removed: Vec<u8> = Vec::new();
        push_range(&mut removed, &self.buf, start, end);
        self.gap_start = self.gap_start - (end - start);
        proof {
            let pre = old(self).text();
            let a = pre.subrange(0, start as int);
            let c = pre.subrange(end as int, pre.len() as int);
            assert(removed@ =~= pre.subrange(start as int, end as int));
            assert(self.buf@.subrange(0, start as int) =~= a);
            assert(self.text() =~= a + c);
            lemma_split_valid(pre, start as int);
            lemma_split_valid(pre, end as int);
            assert(c =~= pre.subrange(start as int, pre.len() as int).subrange(
                end - start,
                pre.len() - start,
            ));
            lemma_concat_valid(a, c);
        }
        Ok(crate::drain::Drain::from_vec(removed))
    }

    /// The whole text as one owned string.
    pub fn to_text(&self) -> (r: String)
        requires
            self.wf(),
        ensures
            r@ == decode_utf8(self.text()),
    {
        let n = self.len();
        proof {
            is_char_boundary_start_end_of_seq(self.text());
        }
        let v = self.get(0, n).unwrap();
        let r = v.to_text();
        proof {
            let t = self.text();
            match v {
                GapSlice::Single(s) => {
                    assert(s.spec_bytes() =~= t);
                    encode_utf8_decode_utf8(s@);
                },
                GapSlice::Spaced(a, b) => {
                    let gp = self.gap_start as int;
                    assert(a.spec_bytes() == t.subrange(0, gp));
                    assert(b.spec_bytes() == t.subrange(gp, n as int));
                    encode_utf8_decode_utf8(a@);
                    encode_utf8_decode_utf8(b@);
                    decode_utf8_split(t, gp);
                    assert(t.subrange(gp, t.len() as int) == t.subrange(gp, n as int));
                },
            }
        }
        r
    }
}

impl Default for GapText {
    /// An empty buffer with no text, no gap, and the default base gap size.
    fn default() -> (r: Self)
        ensures
            r.wf(),
            r.text() == Seq::<u8>::empty(),
            r.gap_start_pos() == 0,
            r.spec_gap_len() == 0,
            r.spec_base_gap_size() == DEFAULT_GAP_SIZE,
            r.total_len() == 0,
    {
        let r = GapText {
            buf: Vec::new(),
            gap_start: 0,
            gap_end: 0,
            text_end: 0,
            base_gap_size: DEFAULT_GAP_SIZE,
        };
        proof {
            assert(r.text() =~= Seq::<u8>::empty());
        }
        r
    }
}

/// Appends `src[from..to]` to `dst`.
fn push_range(dst: &mut Vec<u8>, src: &Vec<u8>, from: usize, to: usize)
    requires
        from <= to <= src@.len(),
    ensures
        final(dst)@ == old(dst)@ + src@.subrange(from as int, to as int),
{
    let mut k = from;
    proof {
        assert(dst@ =~= old(dst)@ + src@.subrange(from as int, from as int));
    }
    while k < to
        invariant
            from <= k <= to,
            dst@ == old(dst)@ + src@.subrange(from as int, k as int),
        decreases to - k,
    {
        let b = src[k];
        dst.push(b);
        proof {
            assert(dst@ =~= old(dst)@ + src@.subrange(from as int, k + 1));
        }
        k = k + 1;
    }
}

/// Appends the whole of `src` to `dst`.
fn push_slice(dst: &mut Vec<u8>, src: &[u8])
    ensures
        final(dst)@ == old(dst)@ + src@,
{
    let mut k: usize = 0;
    proof {
        assert(dst@ =~= old(dst)@ + src@.subrange(0, 0));
    }
    while k < src.len()
        invariant
            0 <= k <= src@.len(),
            dst@ == old(dst)@ + src@.subrange(0, k as int),
        decreases src@.len() - k,
    {
        let b = *vstd::slice::slice_index_get(src, k);
        dst.push(b);
        proof {
            assert(dst@ =~= old(dst)@ + src@.subrange(0, k + 1));
        }
        k = k + 1;
    }
    proof {
        assert(old(dst)@ + src@.subrange(0, src@.len() as int) =~= old(dst)@ + src@);
    }
}

/// Appends `n` filler bytes to `dst`, leaving the existing contents in place.
fn push_zeros(dst: &mut Vec<u8>, n: usize)
    ensures
        final(dst)@.len() == old(dst)@.len() + n,
        final(dst)@.subrange(0, old(dst)@.len() as int) == old(dst)@,
{
    let mut k: usize = 0;
    while k < n
        invariant
            0 <= k <= n,
            dst@.len() == old(dst)@.len() + k,
            dst@.subrange(0, old(dst)@.len() as int) == old(dst)@,
        decreases n - k,
    {
        dst.push(0);
        proof {
            assert(dst@.subrange(0, old(dst)@.len() as int) =~= old(dst)@);
        }
        k = k + 1;
    }
}

} // verus!
