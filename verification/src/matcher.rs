//! The matcher: whether a pattern stands in a line, and where the line is
//! cut to set off its first occurrence.

use vstd::prelude::*;
use vstd::utf8::*;
use vstd::string::*;
use crate::encoding::{
    byte_len, lemma_boundary_within_prefix, lemma_encode_concat, lemma_encode_injective,
    lemma_first_occurrence_from_bytes, lemma_occurrence_to_bytes,
    lemma_occurs_in_bytes_iff_chars, lemma_prefix_bytes_grow, lemma_prefix_ends_on_boundary,
};
use crate::fold::{fold_text, folded, lowercase_of, same_ignoring_case};
use crate::substring::{
    find_bytes, first_occurrence, first_occurrence_at, lemma_first_occurrence_is,
    lemma_leftmost_occurrence, occurs_at, occurs_in,
};

verus! {

/// A line matches a pattern when the pattern, folded as the line is, stands
/// somewhere among the characters of the folded line.
pub open spec fn line_matches(line: Seq<char>, pattern: Seq<char>, ignore_case: bool) -> bool {
    occurs_in(folded(line, ignore_case), folded(pattern, ignore_case))
}

/// The number of bytes that stand in `hay` before the leftmost occurrence
/// of `needle`, where there is an occurrence.
pub open spec fn bytes_before_first(hay: Seq<char>, needle: Seq<char>) -> nat {
    byte_len(hay.subrange(0, first_occurrence(hay, needle)))
}

/// The number of bytes that the folded form of the first `upto` characters
/// of `line` takes.
pub open spec fn folded_len(line: Seq<char>, upto: int, ignore_case: bool) -> nat {
    byte_len(folded(line.subrange(0, upto), ignore_case))
}

/// The byte offset at which the folded pattern first stands in the folded
/// line, where the line matches.
pub open spec fn span_start(line: Seq<char>, pattern: Seq<char>, ignore_case: bool) -> nat {
    bytes_before_first(folded(line, ignore_case), folded(pattern, ignore_case))
}

/// The byte offset at which that first occurrence ends in the folded line.
pub open spec fn span_end(line: Seq<char>, pattern: Seq<char>, ignore_case: bool) -> nat {
    span_start(line, pattern, ignore_case) + byte_len(folded(pattern, ignore_case))
}

/// The line can be cut before its characters `from` and `to` to set off the
/// first occurrence: folded, what stands before `from` takes as many bytes
/// as stand in the folded line before the occurrence, and what stands
/// before `to` as many as stand there before its end.
pub open spec fn is_cut(
    line: Seq<char>,
    pattern: Seq<char>,
    ignore_case: bool,
    from: int,
    to: int,
) -> bool {
    &&& 0 <= from <= to <= line.len()
    &&& folded_len(line, from, ignore_case) == span_start(line, pattern, ignore_case)
    &&& folded_len(line, to, ignore_case) == span_end(line, pattern, ignore_case)
}

/// The line can be cut somewhere to set off the first occurrence.
pub open spec fn has_cut(line: Seq<char>, pattern: Seq<char>, ignore_case: bool) -> bool {
    exists|from: int, to: int| is_cut(line, pattern, ignore_case, from, to)
}

/// `from` and `to` are the first places at which the line can be cut: no
/// cut begins before `from`, and none that begins there ends before `to`.
pub open spec fn first_cut_at(
    line: Seq<char>,
    pattern: Seq<char>,
    ignore_case: bool,
    from: int,
    to: int,
) -> bool {
    &&& is_cut(line, pattern, ignore_case, from, to)
    &&& forall|f: int, t: int| #[trigger]
        is_cut(line, pattern, ignore_case, f, t) ==> from < f || (from == f && to <= t)
}

/// The three parts into which a line falls around the characters from
/// `from` up to `to`.
pub open spec fn parts_around(line: Seq<char>, from: int, to: int) -> (
    Seq<char>,
    Seq<char>,
    Seq<char>,
) {
    (line.subrange(0, from), line.subrange(from, to), line.subrange(to, line.len() as int))
}

/// The three parts into which the highlight cuts a line: what stands before
/// the first occurrence of the pattern, the characters that the line has in
/// its place, and what follows. The occurrence is looked for in the folded
/// line, and the line is cut at the first places that answer to its
/// beginning and its end. There is no highlight for an empty pattern, for a
/// line that does not match, nor for a line that cannot be cut so.
pub open spec fn highlight_of(
    line: Seq<char>,
    pattern: Seq<char>,
    ignore_case: bool,
) -> Option<(Seq<char>, Seq<char>, Seq<char>)> {
    if pattern.len() > 0 && line_matches(line, pattern, ignore_case) && has_cut(
        line,
        pattern,
        ignore_case,
    ) {
        let (from, to) = choose|from: int, to: int|
            first_cut_at(line, pattern, ignore_case, from, to);
        Some(parts_around(line, from, to))
    } else {
        None
    }
}

/// Both offsets lie between two characters of `line`, so that the line can
/// be cut there.
pub open spec fn cuts_at(line: Seq<char>, start: int, end: int) -> bool {
    &&& start <= end
    &&& is_char_boundary(encode_utf8(line), start)
    &&& is_char_boundary(encode_utf8(line), end)
}

/// The characters that `line` encodes between two byte offsets.
pub open spec fn text_between(line: Seq<char>, from: int, to: int) -> Seq<char> {
    decode_utf8(encode_utf8(line).subrange(from, to))
}

/// The three parts into which a line is cut at two byte offsets.
pub open spec fn cut_at(line: Seq<char>, start: int, end: int) -> (
    Seq<char>,
    Seq<char>,
    Seq<char>,
) {
    (
        text_between(line, 0, start),
        text_between(line, start, end),
        text_between(line, end, byte_len(line) as int),
    )
}

/// The parts into which a line is cut between its characters make up the
/// line again, and each takes the bytes between its offsets.
pub proof fn lemma_cut_round_trip(line: Seq<char>, start: int, end: int)
    requires
        cuts_at(line, start, end),
    ensures
        ({
            let (before, matched, after) = cut_at(line, start, end);
            &&& before + matched + after == line
            &&& encode_utf8(before) == encode_utf8(line).subrange(0, start)
            &&& encode_utf8(matched) == encode_utf8(line).subrange(start, end)
            &&& byte_len(before) == start
            &&& byte_len(matched) == end - start
        }),
{
    let bytes = encode_utf8(line);
    encode_utf8_valid_utf8(line);
    encode_utf8_decode_utf8(line);
    lemma_boundary_within_prefix(bytes, start, end);
    let head = bytes.subrange(0, end);
    decode_utf8_split(bytes, end);
    decode_utf8_split(head, start);
    valid_utf8_split(head, start);
    assert(head.subrange(0, start) =~= bytes.subrange(0, start));
    assert(head.subrange(start, head.len() as int) =~= bytes.subrange(start, end));
    decode_utf8_encode_utf8(bytes.subrange(0, start));
    decode_utf8_encode_utf8(bytes.subrange(start, end));
}

/// There is one first cut at most.
pub proof fn lemma_first_cut_unique(
    line: Seq<char>,
    pattern: Seq<char>,
    ignore_case: bool,
    one: (int, int),
    other: (int, int),
)
    requires
        first_cut_at(line, pattern, ignore_case, one.0, one.1),
        first_cut_at(line, pattern, ignore_case, other.0, other.1),
    ensures
        one == other,
{
}

/// Where the line can be cut there is a first cut.
pub proof fn lemma_least_cut(
    line: Seq<char>,
    pattern: Seq<char>,
    ignore_case: bool,
    from: int,
    to: int,
) -> (least: (int, int))
    requires
        is_cut(line, pattern, ignore_case, from, to),
    ensures
        first_cut_at(line, pattern, ignore_case, least.0, least.1),
    decreases from, to,
{
    if exists|f: int, t: int|
        is_cut(line, pattern, ignore_case, f, t) && (f < from || (f == from && t < to)) {
        let (f, t) = choose|f: int, t: int|
            is_cut(line, pattern, ignore_case, f, t) && (f < from || (f == from && t < to));
        lemma_least_cut(line, pattern, ignore_case, f, t)
    } else {
        (from, to)
    }
}

/// The first cut of a matching line, once found, is the one at which the
/// highlight cuts the line.
pub proof fn lemma_first_cut_is_highlight(
    line: Seq<char>,
    pattern: Seq<char>,
    ignore_case: bool,
    from: int,
    to: int,
)
    requires
        pattern.len() > 0,
        line_matches(line, pattern, ignore_case),
        first_cut_at(line, pattern, ignore_case, from, to),
    ensures
        highlight_of(line, pattern, ignore_case) == Some(parts_around(line, from, to)),
{
    let chosen = choose|f: int, t: int| first_cut_at(line, pattern, ignore_case, f, t);
    lemma_first_cut_unique(line, pattern, ignore_case, (from, to), chosen);
}

/// Where case is respected a line that holds the pattern is cut in one way
/// only: before the leftmost occurrence of the pattern and after it.
pub proof fn lemma_case_sensitive_cuts(line: Seq<char>, pattern: Seq<char>)
    requires
        occurs_in(line, pattern),
    ensures
        first_occurrence_at(line, pattern, first_occurrence(line, pattern)),
        forall|from: int, to: int| #[trigger]
            is_cut(line, pattern, false, from, to) <==> from == first_occurrence(line, pattern)
                && to == from + pattern.len(),
        first_cut_at(
            line,
            pattern,
            false,
            first_occurrence(line, pattern),
            first_occurrence(line, pattern) + pattern.len(),
        ),
{
    let somewhere = choose|k: int| occurs_at(line, pattern, k);
    let leftmost = lemma_leftmost_occurrence(line, pattern, somewhere);
    lemma_first_occurrence_is(line, pattern, leftmost);
    let at = first_occurrence(line, pattern);
    let upto = at + pattern.len();
    assert(line.subrange(0, upto) =~= line.subrange(0, at) + pattern);
    lemma_encode_concat(line.subrange(0, at), pattern);
    assert(is_cut(line, pattern, false, at, upto));
    assert forall|from: int, to: int| #[trigger]
        is_cut(line, pattern, false, from, to) implies from == at && to == upto by {
        if from < at {
            lemma_prefix_bytes_grow(line, from, at);
        }
        if at < from {
            lemma_prefix_bytes_grow(line, at, from);
        }
        if to < upto {
            lemma_prefix_bytes_grow(line, to, upto);
        }
        if upto < to {
            lemma_prefix_bytes_grow(line, upto, to);
        }
    }
}

/// Matching without regard to case is matching the folded forms with regard
/// to it.
pub proof fn lemma_ignoring_case_matches_folded(line: Seq<char>, pattern: Seq<char>)
    ensures
        line_matches(line, pattern, true) == line_matches(
            folded(line, true),
            folded(pattern, true),
            false,
        ),
        line.len() > 0 && pattern.len() > 0 ==> line_matches(line, pattern, true) == line_matches(
            lowercase_of(line),
            lowercase_of(pattern),
            false,
        ),
{
}

/// An empty pattern matches every line, whether case is ignored or not,
/// and nothing is set off for it.
pub proof fn lemma_empty_pattern_matches(line: Seq<char>, pattern: Seq<char>, ignore_case: bool)
    requires
        pattern.len() == 0,
    ensures
        line_matches(line, pattern, ignore_case),
        highlight_of(line, pattern, ignore_case) is None,
{
    let hay = folded(line, ignore_case);
    assert(hay.subrange(0, 0) =~= pattern);
    assert(occurs_at(hay, pattern, 0));
}

/// The highlight, where there is one, belongs to a line that matches and
/// cuts it into parts that make it up again. Folded, the first part takes
/// the bytes that stand in the folded line before the first occurrence of
/// the folded pattern, and the first two parts take those up to its end.
/// Where case is respected the middle part is the pattern, at its leftmost
/// occurrence in the line.
pub proof fn lemma_highlight_is_first_cut(
    line: Seq<char>,
    pattern: Seq<char>,
    ignore_case: bool,
)
    ensures
        match highlight_of(line, pattern, ignore_case) {
            Some((before, matched, after)) => {
                &&& pattern.len() > 0
                &&& line_matches(line, pattern, ignore_case)
                &&& before + matched + after == line
                &&& byte_len(folded(before, ignore_case)) == span_start(
                    line,
                    pattern,
                    ignore_case,
                )
                &&& byte_len(folded(before + matched, ignore_case)) == span_end(
                    line,
                    pattern,
                    ignore_case,
                )
                &&& first_cut_at(
                    line,
                    pattern,
                    ignore_case,
                    before.len() as int,
                    (before.len() + matched.len()) as int,
                )
                &&& !ignore_case ==> matched == pattern && first_occurrence_at(
                    line,
                    pattern,
                    before.len() as int,
                )
            },
            None => {
                ||| pattern.len() == 0
                ||| !line_matches(line, pattern, ignore_case)
                ||| !has_cut(line, pattern, ignore_case)
            },
        },
        !ignore_case ==> (highlight_of(line, pattern, false) is Some <==> pattern.len() > 0
            && occurs_in(line, pattern)),
{
    if !ignore_case && occurs_in(line, pattern) {
        lemma_case_sensitive_cuts(line, pattern);
    }
    if pattern.len() > 0 && line_matches(line, pattern, ignore_case) && has_cut(
        line,
        pattern,
        ignore_case,
    ) {
        let (f, t) = choose|f: int, t: int| is_cut(line, pattern, ignore_case, f, t);
        let (from, to) = lemma_least_cut(line, pattern, ignore_case, f, t);
        lemma_first_cut_is_highlight(line, pattern, ignore_case, from, to);
        let (before, matched, after) = parts_around(line, from, to);
        assert(before + matched + after =~= line);
        assert(before + matched =~= line.subrange(0, to));
        if !ignore_case {
            assert(matched =~= pattern);
        }
    }
}

/// Where case is ignored and folding acts on the line part by part at the
/// two cuts, the middle part is the pattern up to case.
pub proof fn lemma_span_is_pattern_where_folding_is_local(line: Seq<char>, pattern: Seq<char>)
    requires
        match highlight_of(line, pattern, true) {
            Some((before, matched, after)) => {
                &&& folded(before + matched, true) == folded(before, true) + folded(
                    matched,
                    true,
                )
                &&& folded(line, true) == folded(before + matched, true) + folded(after, true)
            },
            None => true,
        },
    ensures
        match highlight_of(line, pattern, true) {
            Some((before, matched, after)) => same_ignoring_case(matched, pattern),
            None => true,
        },
{
    lemma_highlight_is_first_cut(line, pattern, true);
    match highlight_of(line, pattern, true) {
        Some((before, matched, after)) => {
            let hay = folded(line, true);
            let needle = folded(pattern, true);
            let head = folded(before, true);
            let middle = folded(matched, true);
            let tail = folded(after, true);
            let somewhere = choose|k: int| occurs_at(hay, needle, k);
            let leftmost = lemma_leftmost_occurrence(hay, needle, somewhere);
            lemma_first_occurrence_is(hay, needle, leftmost);
            lemma_occurrence_to_bytes(hay, needle, leftmost);
            lemma_encode_concat(head, middle);
            lemma_encode_concat(head + middle, tail);
            let start = byte_len(head) as int;
            assert(encode_utf8(hay).subrange(start, start + byte_len(middle)) =~= encode_utf8(
                middle,
            ));
            lemma_encode_injective(middle, needle);
        },
        None => {},
    }
}

/// Finds the byte offset at which `needle` first stands in `hay`.
pub fn find_text(hay: &str, needle: &str) -> (found: Option<usize>)
    ensures
        match found {
            Some(at) => occurs_in(hay@, needle@) && at == bytes_before_first(hay@, needle@),
            None => !occurs_in(hay@, needle@),
        },
{
    let found = find_bytes(hay.as_bytes(), needle.as_bytes());
    proof {
        lemma_occurs_in_bytes_iff_chars(hay@, needle@);
        if found is Some {
            let at_char = lemma_first_occurrence_from_bytes(hay@, needle@, found.unwrap() as int);
            lemma_first_occurrence_is(hay@, needle@, at_char);
        }
    }
    found
}

/// Decides whether `pattern` stands in `line` as a contiguous run of
/// characters, both folded when `ignore_case` is set. An empty pattern
/// stands in every line.
pub fn is_match(line: &str, pattern: &str, ignore_case: bool) -> (matched: bool)
    ensures
        matched == line_matches(line@, pattern@, ignore_case),
        !ignore_case ==> matched == occurs_in(line@, pattern@),
        ignore_case && line@.len() > 0 && pattern@.len() > 0 ==> matched == occurs_in(
            lowercase_of(line@),
            lowercase_of(pattern@),
        ),
        pattern@.len() == 0 ==> matched,
{
    proof {
        if pattern@.len() == 0 {
            lemma_empty_pattern_matches(line@, pattern@, ignore_case);
        }
    }
    if ignore_case {
        let folded_line = fold_text(line, true);
        let folded_pattern = fold_text(pattern, true);
        find_text(folded_line.as_str(), folded_pattern.as_str()).is_some()
    } else {
        find_text(line, pattern).is_some()
    }
}

/// Cuts `line` at two byte offsets that lie between its characters.
pub fn cut_line(line: &str, start: usize, end: usize) -> (parts: (String, String, String))
    requires
        cuts_at(line@, start as int, end as int),
    ensures
        (parts.0@, parts.1@, parts.2@) == cut_at(line@, start as int, end as int),
        parts.0@ + parts.1@ + parts.2@ == line@,
{
    proof {
        encode_utf8_valid_utf8(line@);
        lemma_boundary_within_prefix(encode_utf8(line@), start as int, end as int);
        lemma_cut_round_trip(line@, start as int, end as int);
    }
    let (head, after) = line.split_at(end);
    let (before, matched) = head.split_at(start);
    proof {
        let bytes = encode_utf8(line@);
        assert(encode_utf8(before@) =~= bytes.subrange(0, start as int));
        assert(encode_utf8(matched@) =~= bytes.subrange(start as int, end as int));
        assert(encode_utf8(after@) =~= bytes.subrange(end as int, bytes.len() as int));
        encode_utf8_decode_utf8(before@);
        encode_utf8_decode_utf8(matched@);
        encode_utf8_decode_utf8(after@);
    }
    (before.to_owned(), matched.to_owned(), after.to_owned())
}

/// Cuts `line` around the leftmost occurrence of `pattern`, case respected.
fn highlight_exact(line: &str, pattern: &str) -> (parts: Option<(String, String, String)>)
    ensures
        match parts {
            Some((before, matched, after)) => {
                &&& occurs_in(line@, pattern@)
                &&& (before@, matched@, after@) == parts_around(
                    line@,
                    first_occurrence(line@, pattern@),
                    first_occurrence(line@, pattern@) + pattern@.len(),
                )
            },
            None => !occurs_in(line@, pattern@),
        },
{
    match find_text(line, pattern) {
        Some(start) => {
            let needle_len: usize = pattern.as_bytes().len();
            let line_len: usize = line.as_bytes().len();
            let ghost at = first_occurrence(line@, pattern@);
            let ghost upto = at + pattern@.len();
            let ghost head = line@.subrange(0, at);
            let ghost tail = line@.subrange(upto, line@.len() as int);
            proof {
                lemma_case_sensitive_cuts(line@, pattern@);
                lemma_occurrence_to_bytes(line@, pattern@, at);
                lemma_prefix_ends_on_boundary(line@, at);
                lemma_prefix_ends_on_boundary(line@, upto);
                assert(line@.subrange(0, upto) =~= head + pattern@);
                lemma_encode_concat(head, pattern@);
                assert(start + needle_len <= line_len);
            }
            let parts = cut_line(line, start, start + needle_len);
            proof {
                let end = start + needle_len;
                lemma_cut_round_trip(line@, start as int, end as int);
                lemma_encode_injective(parts.1@, pattern@);
                assert(line@ =~= head + (pattern@ + tail));
                lemma_encode_concat(head, pattern@ + tail);
                assert(encode_utf8(line@).subrange(0, start as int) =~= encode_utf8(head));
                lemma_encode_injective(parts.0@, head);
                assert(parts.2@ =~= tail) by {
                    assert(parts.0@ + parts.1@ + parts.2@ == line@);
                    assert(line@.subrange(upto, line@.len() as int) =~= (parts.0@ + parts.1@
                        + parts.2@).subrange(upto, line@.len() as int));
                }
                assert(parts.1@ =~= line@.subrange(at, upto));
            }
            Some(parts)
        },
        None => None,
    }
}

/// Looks, from `from` on, for the first place of `line` before which the
/// characters, in lower case, take `wanted` bytes.
fn first_place_of_len(line: &str, from: usize, wanted: usize) -> (found: Option<usize>)
    requires
        from <= line@.len(),
    ensures
        match found {
            Some(upto) => {
                &&& from <= upto <= line@.len()
                &&& folded_len(line@, upto as int, true) == wanted
                &&& forall|k: int| from <= k < upto ==> folded_len(line@, k, true) != wanted
            },
            None => forall|k: int|
                from <= k <= line@.len() ==> folded_len(line@, k, true) != wanted,
        },
{
    let count: usize = line.unicode_len();
    let mut upto: usize = from;
    loop
        invariant
            count == line@.len(),
            from <= upto <= count,
            forall|k: int| from <= k < upto ==> folded_len(line@, k, true) != wanted,
        decreases count - upto,
    {
        let head = line.substring_char(0, upto);
        let form = fold_text(head, true);
        if form.as_str().as_bytes().len() == wanted {
            return Some(upto);
        }
        if upto == count {
            return None;
        }
        upto += 1;
    }
}

/// Cuts `line` to set off the first occurrence of `pattern`: what stands
/// before it, the characters that the line has in its place, and what
/// follows.
///
/// The occurrence is the leftmost one of the folded pattern in the folded
/// line. Where case is respected the line is cut at the occurrence itself.
/// Where it is ignored the line is cut at the first two places before which
/// its characters, in lower case, take as many bytes as stand in the
/// lower-case line before the occurrence and before its end. There is
/// nothing to cut for an empty pattern, for a line that does not match, nor
/// for a line without such places.
pub fn highlight_first_match(
    line: &str,
    pattern: &str,
    ignore_case: bool,
) -> (parts: Option<(String, String, String)>)
    ensures
        match parts {
            Some((before, matched, after)) => highlight_of(line@, pattern@, ignore_case) == Some(
                (before@, matched@, after@),
            ),
            None => highlight_of(line@, pattern@, ignore_case) is None,
        },
        match parts {
            Some((before, matched, after)) => {
                &&& pattern@.len() > 0
                &&& line_matches(line@, pattern@, ignore_case)
                &&& before@ + matched@ + after@ == line@
                &&& byte_len(folded(before@, ignore_case)) == bytes_before_first(
                    folded(line@, ignore_case),
                    folded(pattern@, ignore_case),
                )
                &&& byte_len(folded(before@ + matched@, ignore_case)) == bytes_before_first(
                    folded(line@, ignore_case),
                    folded(pattern@, ignore_case),
                ) + byte_len(folded(pattern@, ignore_case))
                &&& !ignore_case ==> matched@ == pattern@ && first_occurrence_at(
                    line@,
                    pattern@,
                    before@.len() as int,
                )
            },
            None => {
                ||| pattern@.len() == 0
                ||| !line_matches(line@, pattern@, ignore_case)
                ||| ignore_case && !has_cut(line@, pattern@, true)
            },
        },
        !ignore_case ==> (parts is Some <==> pattern@.len() > 0 && occurs_in(line@, pattern@)),
{
    if pattern.is_empty() {
        return None;
    }
    proof {
        lemma_highlight_is_first_cut(line@, pattern@, ignore_case);
    }
    if !ignore_case {
        let parts = highlight_exact(line, pattern);
        proof {
            if parts is Some {
                lemma_case_sensitive_cuts(line@, pattern@);
                lemma_first_cut_is_highlight(
                    line@,
                    pattern@,
                    false,
                    first_occurrence(line@, pattern@),
                    first_occurrence(line@, pattern@) + pattern@.len(),
                );
            }
        }
        return parts;
    }
    let folded_line = fold_text(line, true);
    let folded_pattern = fold_text(pattern, true);
    let start: usize = match find_text(folded_line.as_str(), folded_pattern.as_str()) {
        Some(start) => start,
        None => {
            return None;
        },
    };
    let hay_len: usize = folded_line.as_str().as_bytes().len();
    let needle_len: usize = folded_pattern.as_str().as_bytes().len();
    proof {
        let hay = folded_line@;
        let needle = folded_pattern@;
        let somewhere = choose|k: int| occurs_at(hay, needle, k);
        let leftmost = lemma_leftmost_occurrence(hay, needle, somewhere);
        lemma_first_occurrence_is(hay, needle, leftmost);
        lemma_occurrence_to_bytes(hay, needle, leftmost);
        assert(start + needle_len <= hay_len);
    }
    let end: usize = start + needle_len;
    let from: usize = match first_place_of_len(line, 0, start) {
        Some(from) => from,
        None => {
            return None;
        },
    };
    let to: usize = match first_place_of_len(line, from, end) {
        Some(to) => to,
        None => {
            return None;
        },
    };
    let count: usize = line.unicode_len();
    let before = line.substring_char(0, from);
    let matched = line.substring_char(from, to);
    let after = line.substring_char(to, count);
    proof {
        assert(first_cut_at(line@, pattern@, true, from as int, to as int));
        lemma_first_cut_is_highlight(line@, pattern@, true, from as int, to as int);
    }
    Some((before.to_owned(), matched.to_owned(), after.to_owned()))
}

/// The decomposition of a line around its highlighted span.
pub struct MatchSpan {
    /// What stands before the span.
    pub before: String,
    /// The span, as the line spells it.
    pub matched: String,
    /// What follows the span.
    pub after: String,
}

impl MatchSpan {
    /// The three parts as character sequences.
    pub open spec fn parts(&self) -> (Seq<char>, Seq<char>, Seq<char>) {
        (self.before@, self.matched@, self.after@)
    }

    /// The text that the three parts make up.
    pub open spec fn text(&self) -> Seq<char> {
        self.before@ + self.matched@ + self.after@
    }
}

/// Locates the first occurrence of `pattern` in `line`, for highlighting:
/// what `highlight_first_match` gives, as a span.
pub fn locate_first(line: &str, pattern: &str, ignore_case: bool) -> (span: Option<MatchSpan>)
    ensures
        match span {
            Some(found) => highlight_of(line@, pattern@, ignore_case) == Some(found.parts()),
            None => highlight_of(line@, pattern@, ignore_case) is None,
        },
        match span {
            Some(found) => {
                &&& pattern@.len() > 0
                &&& line_matches(line@, pattern@, ignore_case)
                &&& found.text() == line@
                &&& byte_len(folded(found.before@, ignore_case)) == bytes_before_first(
                    folded(line@, ignore_case),
                    folded(pattern@, ignore_case),
                )
                &&& byte_len(folded(found.before@ + found.matched@, ignore_case))
                    == bytes_before_first(
                    folded(line@, ignore_case),
                    folded(pattern@, ignore_case),
                ) + byte_len(folded(pattern@, ignore_case))
                &&& !ignore_case ==> found.matched@ == pattern@ && first_occurrence_at(
                    line@,
                    pattern@,
                    found.before@.len() as int,
                )
            },
            None => {
                ||| pattern@.len() == 0
                ||| !line_matches(line@, pattern@, ignore_case)
                ||| ignore_case && !has_cut(line@, pattern@, true)
            },
        },
        !ignore_case ==> (span is Some <==> pattern@.len() > 0 && occurs_in(line@, pattern@)),
{
    match highlight_first_match(line, pattern, ignore_case) {
        Some((before, matched, after)) => Some(MatchSpan { before, matched, after }),
        None => None,
    }
}

} // verus!
