//! UTF-8 facts and string operations that paragraph projection builds on.

use vstd::prelude::*;
use vstd::string::{StringExecFns, StringSliceAdditionalSpecFns};

use vstd::utf8::{
    encode_utf8, encode_utf8_valid_utf8, is_char_boundary, is_char_boundary_iff_not_is_continuation_byte,
    is_char_boundary_start_end_of_seq, length_of_first_scalar, partial_valid_utf8_extend,
    pop_first_scalar, valid_utf8, valid_utf8_concat,
};

verus! {

/// Appends `value` to `text`.
pub(crate) fn push_text(text: &mut String, value: &str)
    ensures
        final(text)@ == old(text)@ + value@,
{
    text.append(value);
}

/// Empties `text`, keeping its allocation.
///
/// Calls `String::clear`, documented to truncate the string to zero length.
#[verifier::external_body]
pub(crate) fn clear_text(text: &mut String)
    ensures
        final(text)@ == Seq::<char>::empty(),
{
    text.clear();
}

/// UTF-8 encoding distributes over concatenation.
pub proof fn lemma_encode_concat(a: Seq<char>, b: Seq<char>)
    ensures
        encode_utf8(a + b) == encode_utf8(a) + encode_utf8(b),
    decreases a.len(),
{
    if a.len() == 0 {
        assert(a + b =~= b);
        assert(encode_utf8(a) + encode_utf8(b) =~= encode_utf8(b));
    } else {
        lemma_encode_concat(a.drop_first(), b);
        assert((a + b).drop_first() =~= a.drop_first() + b);
        assert((a + b)[0] == a[0]);
        assert(encode_utf8(a + b) =~= encode_utf8(a) + encode_utf8(b));
    }
}

/// The bytes before a character boundary of valid UTF-8 are valid UTF-8.
proof fn lemma_boundary_prefix_valid(bytes: Seq<u8>, end: int)
    requires
        valid_utf8(bytes),
        is_char_boundary(bytes, end),
    ensures
        0 <= end <= bytes.len(),
        valid_utf8(bytes.subrange(0, end)),
    decreases bytes.len(),
{
    if end == 0 {
        assert(bytes.subrange(0, 0) =~= Seq::<u8>::empty());
    } else {
        let first = length_of_first_scalar(bytes);
        let rest = pop_first_scalar(bytes);
        assert(bytes.subrange(0, bytes.len() as int) =~= bytes);
        partial_valid_utf8_extend(bytes, 0);
        assert(0 < first <= bytes.len());
        lemma_boundary_prefix_valid(rest, end - first);
        valid_utf8_concat(bytes.subrange(0, first), rest.subrange(0, end - first));
        assert(bytes.subrange(0, first) + rest.subrange(0, end - first) =~= bytes.subrange(0, end));
    }
}

/// A boundary before a later boundary stays a boundary of the prefix that
/// ends at the later one.
proof fn lemma_boundary_in_prefix(bytes: Seq<u8>, start: int, end: int)
    requires
        valid_utf8(bytes),
        is_char_boundary(bytes, start),
        is_char_boundary(bytes, end),
        start <= end,
    ensures
        is_char_boundary(bytes.subrange(0, end), start),
{
    lemma_boundary_prefix_valid(bytes, end);
    lemma_boundary_prefix_valid(bytes, start);
    let prefix = bytes.subrange(0, end);
    if start == end {
        is_char_boundary_start_end_of_seq(prefix);
    } else if start > 0 {
        is_char_boundary_iff_not_is_continuation_byte(bytes, start);
        is_char_boundary_iff_not_is_continuation_byte(prefix, start);
    }
}

/// The number of UTF-8 bytes of `text`.
pub(crate) fn byte_len(text: &str) -> (len: usize)
    ensures
        len == text.spec_bytes().len(),
{
    text.as_bytes().len()
}

/// The bytes `start..end` of `text`, both character boundaries.
pub(crate) fn slice_text(text: &str, start: usize, end: usize) -> (piece: &str)
    requires
        start <= end,
        is_char_boundary(text.spec_bytes(), start as int),
        is_char_boundary(text.spec_bytes(), end as int),
    ensures
        piece.spec_bytes() == text.spec_bytes().subrange(start as int, end as int),
{
    proof {
        encode_utf8_valid_utf8(text@);
        lemma_boundary_in_prefix(text.spec_bytes(), start as int, end as int);
    }
    let (head, _) = text.split_at(end);
    let (_, piece) = head.split_at(start);
    piece
}

} // verus!
