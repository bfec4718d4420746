//! The two-variant read result of the text buffer: one borrowed piece when
//! the requested range misses the gap, two borrowed pieces when it straddles
//! the gap.

use vstd::prelude::*;

verus! {

use vstd::string::StringExecFns;
use vstd::string::StringSliceAdditionalSpecFns;

/// A borrowed view of one logical range of the text.
///
/// `Single` holds the whole range; `Spaced` holds the part before the gap and
/// the part after it, in order. The logical content is always the
/// concatenation of the pieces.
pub enum GapSlice<'a> {
    Single(&'a str),
    Spaced(&'a str, &'a str),
}

impl<'a> GapSlice<'a> {
    /// The bytes of the logical range this view stands for.
    pub open spec fn byte_seq(self) -> Seq<u8> {
        match self {
            GapSlice::Single(s) => s.spec_bytes(),
            GapSlice::Spaced(a, b) => a.spec_bytes() + b.spec_bytes(),
        }
    }

    /// The characters of the logical range this view stands for.
    pub open spec fn char_seq(self) -> Seq<char> {
        match self {
            GapSlice::Single(s) => s@,
            GapSlice::Spaced(a, b) => a@ + b@,
        }
    }

    /// The logical range as one owned string, whichever variant holds it.
    pub fn to_text(&self) -> (r: String)
        ensures
            r@ == self.char_seq(),
    {
        match self {
            GapSlice::Single(s) => String::from_str(s),
            GapSlice::Spaced(a, b) => {
                let mut out = String::from_str(a);
                out.append(b);
                out
            },
        }
    }

    /// True when the view is a single borrowed piece.
    pub fn is_single(&self) -> (r: bool)
        ensures
            r == (self is Single),
    {
        match self {
            GapSlice::Single(_) => true,
            GapSlice::Spaced(_, _) => false,
        }
    }

    /// Logical equality with a plain string: the concatenation of the pieces
    /// compares equal to `other`, whichever variant holds the range.
    pub fn eq_str(&self, other: &str) -> (r: bool)
        ensures
            r == (self.byte_seq() == other.spec_bytes()),
    {
        let other_bytes = other.as_bytes();
        match self {
            GapSlice::Single(s) => {
                let r = bytes_eq(s.as_bytes(), other_bytes);
                proof {
                    if r {
                        assert(self.byte_seq() =~= other.spec_bytes());
                    }
                }
                r
            },
            GapSlice::Spaced(a, b) => {
                let ab = a.as_bytes();
                let bb = b.as_bytes();
                if ab.len() > other_bytes.len() {
                    proof {
                        assert(self.byte_seq().len() >= ab@.len());
                    }
                    return false;
                }
                let first = bytes_eq(ab, vstd::slice::slice_subrange(other_bytes, 0, ab.len()));
                if !first {
                    proof {
                        if self.byte_seq() == other.spec_bytes() {
                            assert(ab@ =~= other.spec_bytes().subrange(0, ab@.len() as int));
                        }
                    }
                    return false;
                }
                let second = bytes_eq(
                    bb,
                    vstd::slice::slice_subrange(other_bytes, ab.len(), other_bytes.len()),
                );
                proof {
                    if second {
                        assert(self.byte_seq() =~= other.spec_bytes());
                    } else {
                        if self.byte_seq() == other.spec_bytes() {
                            assert(bb@ =~= other.spec_bytes().subrange(
                                ab@.len() as int,
                                other.spec_bytes().len() as int,
                            ));
                        }
                    }
                }
                second
            },
        }
    }
}

/// Element-wise comparison of two byte slices.
fn bytes_eq(a: &[u8], b: &[u8]) -> (r: bool)
    ensures
        r == (a@ == b@),
{
    if a.len() != b.len() {
        proof {
            assert(a@.len() != b@.len());
        }
        return false;
    }
    let mut i: usize = 0;
    while i < a.len()
        invariant
            0 <= i <= a@.len(),
            a@.len() == b@.len(),
            forall|j: int| 0 <= j < i ==> a@[j] == b@[j],
        decreases a@.len() - i,
    {
        if *vstd::slice::slice_index_get(a, i) != *vstd::slice::slice_index_get(b, i) {
            proof {
                assert(a@[i as int] != b@[i as int]);
            }
            return false;
        }
        i = i + 1;
    }
    proof {
        assert(a@ =~= b@);
    }
    true
}

} // verus!
