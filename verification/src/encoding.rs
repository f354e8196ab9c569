//! How occurrences among characters and occurrences among the bytes of their
//! UTF-8 encoding correspond.

use vstd::prelude::*;
use vstd::utf8::*;
use crate::substring::{first_occurrence_at, occurs_at, occurs_in};

verus! {

/// The number of bytes that the UTF-8 encoding of `chars` takes.
pub open spec fn byte_len(chars: Seq<char>) -> nat {
    encode_utf8(chars).len()
}

/// Encoding distributes over concatenation.
pub proof fn lemma_encode_concat(a: Seq<char>, b: Seq<char>)
    ensures
        encode_utf8(a + b) == encode_utf8(a) + encode_utf8(b),
    decreases a.len(),
{
    if a.len() == 0 {
        assert(a + b =~= b);
        assert(encode_utf8(a) + encode_utf8(b) =~= encode_utf8(b));
    } else {
        lemma_encode_concat(a.drop_first(), b);
        assert((a + b).drop_first() =~= a.drop_first() + b);
        assert((a + b)[0] == a[0]);
        assert(encode_utf8(a + b) =~= encode_utf8(a) + encode_utf8(b));
    }
}

/// Two character sequences with the same encoding are the same sequence.
pub proof fn lemma_encode_injective(a: Seq<char>, b: Seq<char>)
    requires
        encode_utf8(a) == encode_utf8(b),
    ensures
        a == b,
{
    encode_utf8_decode_utf8(a);
    encode_utf8_decode_utf8(b);
}

/// Only the empty sequence has an empty encoding.
pub proof fn lemma_encode_nonempty(a: Seq<char>)
    requires
        a.len() > 0,
    ensures
        encode_utf8(a).len() > 0,
        !is_continuation_byte(encode_utf8(a)[0]),
{
    encode_utf8_first_scalar(a);
}

/// What follows a well-formed prefix of a well-formed byte sequence is
/// well-formed too.
pub proof fn lemma_valid_after_prefix(head: Seq<u8>, tail: Seq<u8>)
    requires
        valid_utf8(head),
        valid_utf8(head + tail),
    ensures
        valid_utf8(tail),
    decreases head.len(),
{
    if head.len() == 0 {
        assert(head + tail =~= tail);
    } else {
        let whole = head + tail;
        assert(whole[0] == head[0]);
        let k = length_of_first_scalar(head);
        assert(length_of_first_scalar(whole) == k);
        assert(1 <= k <= head.len());
        assert(pop_first_scalar(whole) =~= pop_first_scalar(head) + tail);
        lemma_valid_after_prefix(pop_first_scalar(head), tail);
    }
}

/// The end of a well-formed prefix of a well-formed byte sequence lies
/// between two characters.
pub proof fn lemma_boundary_after_prefix(head: Seq<u8>, tail: Seq<u8>)
    requires
        valid_utf8(head),
        valid_utf8(head + tail),
    ensures
        is_char_boundary(head + tail, head.len() as int),
    decreases head.len(),
{
    if head.len() > 0 {
        let whole = head + tail;
        assert(whole[0] == head[0]);
        let k = length_of_first_scalar(head);
        assert(length_of_first_scalar(whole) == k);
        assert(1 <= k <= head.len());
        assert(pop_first_scalar(whole) =~= pop_first_scalar(head) + tail);
        lemma_boundary_after_prefix(pop_first_scalar(head), tail);
    }
}

/// The byte length of a prefix of a text is an offset between two
/// characters of its encoding.
pub proof fn lemma_prefix_ends_on_boundary(chars: Seq<char>, upto: int)
    requires
        0 <= upto <= chars.len(),
    ensures
        is_char_boundary(encode_utf8(chars), byte_len(chars.subrange(0, upto)) as int),
        byte_len(chars.subrange(0, upto)) <= byte_len(chars),
{
    let head = chars.subrange(0, upto);
    let tail = chars.subrange(upto, chars.len() as int);
    assert(chars =~= head + tail);
    lemma_encode_concat(head, tail);
    encode_utf8_valid_utf8(head);
    encode_utf8_valid_utf8(chars);
    lemma_boundary_after_prefix(encode_utf8(head), encode_utf8(tail));
}

/// An offset between two characters of a byte sequence is one of each
/// prefix that ends, not before it, between two characters as well.
pub proof fn lemma_boundary_within_prefix(bytes: Seq<u8>, at: int, end: int)
    requires
        valid_utf8(bytes),
        at <= end,
        is_char_boundary(bytes, at),
        is_char_boundary(bytes, end),
    ensures
        0 <= at <= end <= bytes.len(),
        valid_utf8(bytes.subrange(0, end)),
        is_char_boundary(bytes.subrange(0, end), at),
{
    lemma_boundary_in_range(bytes, at);
    lemma_boundary_in_range(bytes, end);
    valid_utf8_split(bytes, end);
    let head = bytes.subrange(0, end);
    if at < end {
        is_char_boundary_iff_not_is_continuation_byte(bytes, at);
        is_char_boundary_iff_not_is_continuation_byte(head, at);
    } else {
        is_char_boundary_start_end_of_seq(head);
    }
}

/// An offset between two characters lies within the sequence.
pub proof fn lemma_boundary_in_range(bytes: Seq<u8>, at: int)
    requires
        valid_utf8(bytes),
        is_char_boundary(bytes, at),
    ensures
        0 <= at <= bytes.len(),
{
}

/// A longer prefix of a character sequence takes more bytes.
pub proof fn lemma_prefix_bytes_grow(chars: Seq<char>, shorter: int, longer: int)
    requires
        0 <= shorter < longer <= chars.len(),
    ensures
        byte_len(chars.subrange(0, shorter)) < byte_len(chars.subrange(0, longer)),
{
    let head = chars.subrange(0, shorter);
    let step = chars.subrange(shorter, longer);
    assert(chars.subrange(0, longer) =~= head + step);
    lemma_encode_concat(head, step);
    lemma_encode_nonempty(step);
}

/// An occurrence among characters is an occurrence among the encoded bytes,
/// at the byte length of the characters that stand before it.
pub proof fn lemma_occurrence_to_bytes(hay: Seq<char>, needle: Seq<char>, at: int)
    requires
        occurs_at(hay, needle, at),
    ensures
        occurs_at(
            encode_utf8(hay),
            encode_utf8(needle),
            byte_len(hay.subrange(0, at)) as int,
        ),
{
    let before = hay.subrange(0, at);
    let after = hay.subrange(at + needle.len(), hay.len() as int);
    assert(hay =~= before + needle + after);
    lemma_encode_concat(before + needle, after);
    lemma_encode_concat(before, needle);
    let start = encode_utf8(before).len() as int;
    assert(encode_utf8(hay).subrange(start, start + encode_utf8(needle).len()) =~= encode_utf8(
        needle,
    ));
}

/// An occurrence of a non-empty needle among the encoded bytes begins and
/// ends between two characters: it is an occurrence among the characters.
pub proof fn lemma_occurrence_from_bytes(
    hay: Seq<char>,
    needle: Seq<char>,
    at: int,
) -> (at_char: int)
    requires
        needle.len() > 0,
        occurs_at(encode_utf8(hay), encode_utf8(needle), at),
    ensures
        occurs_at(hay, needle, at_char),
        byte_len(hay.subrange(0, at_char)) == at,
{
    let bytes = encode_utf8(hay);
    let wanted = encode_utf8(needle);
    encode_utf8_valid_utf8(hay);
    encode_utf8_valid_utf8(needle);
    lemma_encode_nonempty(needle);
    assert(bytes.subrange(at, at + wanted.len())[0] == bytes[at]);
    is_char_boundary_iff_not_is_continuation_byte(bytes, at);
    valid_utf8_split(bytes, at);
    let head = bytes.subrange(0, at);
    let rest = bytes.subrange(at, bytes.len() as int);
    let tail = rest.subrange(wanted.len() as int, rest.len() as int);
    assert(rest =~= wanted + tail);
    lemma_valid_after_prefix(wanted, tail);
    let before = decode_utf8(head);
    let after = decode_utf8(tail);
    decode_utf8_encode_utf8(head);
    decode_utf8_encode_utf8(tail);
    lemma_encode_concat(before + needle, after);
    lemma_encode_concat(before, needle);
    assert(bytes =~= head + wanted + tail);
    lemma_encode_injective(before + needle + after, hay);
    let at_char = before.len() as int;
    assert(hay.subrange(at_char, at_char + needle.len()) =~= needle);
    assert(hay.subrange(0, at_char) =~= before);
    at_char
}

/// A needle stands among the characters exactly when its encoding stands
/// among the encoded bytes.
pub proof fn lemma_occurs_in_bytes_iff_chars(hay: Seq<char>, needle: Seq<char>)
    ensures
        occurs_in(encode_utf8(hay), encode_utf8(needle)) <==> occurs_in(hay, needle),
{
    if occurs_in(hay, needle) {
        let at = choose|at: int| occurs_at(hay, needle, at);
        lemma_occurrence_to_bytes(hay, needle, at);
    }
    if occurs_in(encode_utf8(hay), encode_utf8(needle)) {
        if needle.len() == 0 {
            assert(hay.subrange(0, 0) =~= needle);
            assert(occurs_at(hay, needle, 0));
        } else {
            let at = choose|at: int| occurs_at(encode_utf8(hay), encode_utf8(needle), at);
            let at_char = lemma_occurrence_from_bytes(hay, needle, at);
        }
    }
}

/// The leftmost occurrence among the encoded bytes is the leftmost
/// occurrence among the characters.
pub proof fn lemma_first_occurrence_from_bytes(
    hay: Seq<char>,
    needle: Seq<char>,
    at: int,
) -> (at_char: int)
    requires
        first_occurrence_at(encode_utf8(hay), encode_utf8(needle), at),
    ensures
        first_occurrence_at(hay, needle, at_char),
        byte_len(hay.subrange(0, at_char)) == at,
{
    if needle.len() == 0 {
        assert(encode_utf8(hay).subrange(0, 0) =~= encode_utf8(needle));
        assert(occurs_at(encode_utf8(hay), encode_utf8(needle), 0));
        assert(hay.subrange(0, 0) =~= needle);
        0
    } else {
        let at_char = lemma_occurrence_from_bytes(hay, needle, at);
        assert forall|earlier: int| 0 <= earlier < at_char implies !occurs_at(
            hay,
            needle,
            earlier,
        ) by {
            if occurs_at(hay, needle, earlier) {
                lemma_occurrence_to_bytes(hay, needle, earlier);
                lemma_prefix_bytes_grow(hay, earlier, at_char);
            }
        }
        at_char
    }
}

} // verus!
