//! Byte-level helpers shared by the text buffer and its read paths, together
//! with the lemmas that connect the one-byte boundary test to full UTF-8
//! character boundaries.

use vstd::prelude::*;

verus! {

use vstd::string::StringSliceAdditionalSpecFns;
use vstd::utf8::is_char_boundary;
use vstd::utf8::is_continuation_byte;
use vstd::utf8::is_char_boundary_iff_not_is_continuation_byte;
use vstd::utf8::is_char_boundary_start_end_of_seq;
use vstd::utf8::valid_utf8;
use vstd::utf8::valid_utf8_concat;
use vstd::utf8::valid_utf8_split;

/// True when a byte can start a UTF-8 character: its top two bits are not
/// `10`, so it is not a continuation byte.
pub fn u8_is_char_boundry(b: u8) -> (r: bool)
    ensures
        r == !is_continuation_byte(b),
{
    b < 0x80 || b >= 0xc0
}

/// True when a range cut at `gap_start` needs only one piece: the range lies
/// entirely before the gap or entirely after it.
pub fn is_get_single(gap_start: usize, start: usize, end: usize) -> (r: bool)
    ensures
        r == (end <= gap_start || gap_start <= start),
{
    end <= gap_start || gap_start <= start
}

/// In valid UTF-8, an in-bounds position is a character boundary exactly when
/// the byte there is not a continuation byte; the position one past the end is
/// always a boundary.
pub proof fn lemma_boundary_byte_check(t: Seq<u8>, i: int)
    requires
        valid_utf8(t),
        0 <= i <= t.len(),
    ensures
        is_char_boundary(t, i) <==> (i == t.len() || !is_continuation_byte(t[i])),
{
    if i == t.len() {
        is_char_boundary_start_end_of_seq(t);
    } else {
        is_char_boundary_iff_not_is_continuation_byte(t, i);
    }
}

/// Splitting a valid UTF-8 sequence at a character boundary leaves two valid
/// UTF-8 pieces.
pub proof fn lemma_split_valid(t: Seq<u8>, i: int)
    requires
        valid_utf8(t),
        0 <= i <= t.len(),
        is_char_boundary(t, i),
    ensures
        valid_utf8(t.subrange(0, i)),
        valid_utf8(t.subrange(i, t.len() as int)),
{
    valid_utf8_split(t, i);
}

/// True when a byte slice read is cut on character starts: `b1` (the byte at
/// the read's start) can begin a character, and the byte just past the read's
/// end, if any, does not continue one.
pub fn is_get_char_boundry(buf: &[u8], b1: u8, end_index: usize) -> (r: bool)
    ensures
        r == (!is_continuation_byte(b1) && (end_index >= buf@.len() || !is_continuation_byte(
            buf@[end_index as int],
        ))),
{
    if !u8_is_char_boundry(b1) {
        return false;
    }
    if end_index < buf.len() {
        u8_is_char_boundry(*vstd::slice::slice_index_get(buf, end_index))
    } else {
        true
    }
}

/// Relies on std's `str::from_utf8`: on bytes that are valid UTF-8 it returns
/// `Ok` of the string slice viewing exactly those bytes.
#[verifier::external_body]
pub fn bytes_as_str(v: &[u8]) -> (r: &str)
    requires
        valid_utf8(v@),
    ensures
        r.spec_bytes() == v@,
{
    core::str::from_utf8(v).unwrap_or("")
}

/// A middle piece of valid UTF-8 cut at character boundaries is itself valid
/// UTF-8.
pub proof fn lemma_mid_valid(t: Seq<u8>, i: int, j: int)
    requires
        valid_utf8(t),
        0 <= i <= j <= t.len(),
        is_char_boundary(t, i),
        is_char_boundary(t, j),
    ensures
        valid_utf8(t.subrange(i, j)),
{
    valid_utf8_split(t, i);
    let tail = t.subrange(i, t.len() as int);
    if j == t.len() {
        is_char_boundary_start_end_of_seq(tail);
        assert(is_char_boundary(tail, j - i));
    } else {
        is_char_boundary_iff_not_is_continuation_byte(t, j);
        assert(tail[j - i] == t[j]);
        is_char_boundary_iff_not_is_continuation_byte(tail, j - i);
    }
    valid_utf8_split(tail, j - i);
    assert(t.subrange(i, j) =~= tail.subrange(0, j - i));
}

/// Concatenating two valid UTF-8 sequences yields a valid sequence with a
/// character boundary at the seam.
pub proof fn lemma_concat_valid(a: Seq<u8>, b: Seq<u8>)
    requires
        valid_utf8(a),
        valid_utf8(b),
    ensures
        valid_utf8(a + b),
        is_char_boundary(a + b, a.len() as int),
{
    valid_utf8_concat(a, b);
    let t = a + b;
    if a.len() == t.len() {
        is_char_boundary_start_end_of_seq(t);
    } else {
        assert(b.len() > 0);
        assert(!is_continuation_byte(b[0])) by {
            is_char_boundary_start_end_of_seq(b);
            is_char_boundary_iff_not_is_continuation_byte(b, 0);
        }
        assert(t[a.len() as int] == b[0]);
        is_char_boundary_iff_not_is_continuation_byte(t, a.len() as int);
    }
}

} // verus!
