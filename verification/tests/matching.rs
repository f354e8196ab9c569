use rgrep::fold::fold_text;
use rgrep::matcher::{cut_line, find_text, highlight_first_match, is_match, locate_first};
use rgrep::substring::{find_bytes, matches_at};

fn parts(before: &str, matched: &str, after: &str) -> Option<(String, String, String)> {
    Some((before.to_string(), matched.to_string(), after.to_string()))
}

#[test]
fn pattern_inside_line_matches() {
    assert!(is_match("hello world", "lo wo", false));
    assert!(is_match("hello world", "hello", false));
    assert!(is_match("hello world", "world", false));
    assert!(is_match("hello world", "hello world", false));
}

#[test]
fn pattern_absent_from_line_does_not_match() {
    assert!(!is_match("hello world", "worlds", false));
    assert!(!is_match("hello world", "low", false));
    assert!(!is_match("", "a", false));
}

#[test]
fn pattern_longer_than_line_does_not_match() {
    assert!(!is_match("foo", "foobar", false));
    assert!(!is_match("foo", "foobar", true));
    assert_eq!(highlight_first_match("foo", "foobar", false), None);
}

#[test]
fn empty_pattern_matches_every_line() {
    assert!(is_match("anything", "", false));
    assert!(is_match("", "", false));
    assert!(is_match("anything", "", true));
}

#[test]
fn case_is_respected_unless_ignored() {
    assert!(!is_match("foobar", "FOO", false));
    assert!(is_match("foobar", "FOO", true));
    assert!(is_match("FOOBAR", "foo", true));
    assert!(!is_match("FOOBAR", "foo", false));
}

#[test]
fn ignoring_case_is_matching_the_lower_case_forms() {
    let lines = ["Hello World", "HELLO", "héllo", "ÉCOLE", "straße", ""];
    let patterns = ["hello", "WORLD", "É", "école", "SS", "", "x"];
    for line in lines {
        for pattern in patterns {
            assert_eq!(
                is_match(line, pattern, true),
                is_match(&line.to_lowercase(), &pattern.to_lowercase(), false)
            );
        }
    }
}

#[test]
fn ignoring_case_folds_letters_beyond_ascii() {
    assert!(is_match("ÉCOLE", "école", true));
    assert!(is_match("école", "ÉCOLE", true));
    assert!(!is_match("ÉCOLE", "école", false));
}

#[test]
fn match_is_decided_on_characters_not_on_stray_bytes() {
    // The second byte of 'é' is the first byte of no character.
    assert!(is_match("caf\u{e9}", "\u{e9}", false));
    assert!(!is_match("caf\u{e9}", "\u{a9}", false));
}

#[test]
fn highlight_cuts_around_the_pattern() {
    assert_eq!(
        highlight_first_match("hello world", "world", false),
        parts("hello ", "world", "")
    );
    assert_eq!(
        highlight_first_match("hello world", "hello", false),
        parts("", "hello", " world")
    );
    assert_eq!(
        highlight_first_match("hello world", "o w", false),
        parts("hell", "o w", "orld")
    );
}

#[test]
fn highlight_takes_the_first_of_several_occurrences() {
    assert_eq!(
        highlight_first_match("abcabcabc", "bc", false),
        parts("a", "bc", "abcabc")
    );
    assert_eq!(highlight_first_match("aaaa", "aa", false), parts("", "aa", "aa"));
}

#[test]
fn highlight_of_an_empty_pattern_is_none() {
    assert_eq!(highlight_first_match("hello", "", false), None);
    assert_eq!(highlight_first_match("hello", "", true), None);
    assert_eq!(highlight_first_match("", "", false), None);
    assert!(locate_first("hello", "", false).is_none());
}

#[test]
fn highlight_of_a_line_without_the_pattern_is_none() {
    assert_eq!(highlight_first_match("hello", "bye", false), None);
    assert_eq!(highlight_first_match("hello", "HELLO", false), None);
    assert_eq!(highlight_first_match("", "a", true), None);
}

#[test]
fn highlight_ignoring_case_spells_the_span_as_the_line_does() {
    assert_eq!(
        highlight_first_match("Hello World", "WORLD", true),
        parts("Hello ", "World", "")
    );
    assert_eq!(
        highlight_first_match("say FooBar twice: foobar", "fOObAR", true),
        parts("say ", "FooBar", " twice: foobar")
    );
}

#[test]
fn highlight_parts_make_up_the_line() {
    let cases = [
        ("hello world", "o", false),
        ("Hello World", "WORLD", true),
        ("na\u{ef}ve caf\u{e9} au lait", "caf\u{e9}", false),
        ("\u{c9}COLE normale", "\u{e9}cole", true),
        ("日本語のテキスト", "の", false),
    ];
    for (line, pattern, ignore_case) in cases {
        let (before, matched, after) =
            highlight_first_match(line, pattern, ignore_case).unwrap();
        assert_eq!(format!("{}{}{}", before, matched, after), line);
        if ignore_case {
            assert_eq!(matched.to_lowercase(), pattern.to_lowercase());
        } else {
            assert_eq!(matched, pattern);
        }
    }
}

#[test]
fn highlight_counts_bytes_of_wide_characters() {
    assert_eq!(
        highlight_first_match("na\u{ef}ve caf\u{e9}!", "caf\u{e9}", false),
        parts("na\u{ef}ve ", "caf\u{e9}", "!")
    );
    assert_eq!(
        highlight_first_match("\u{c9}COLE normale", "\u{e9}cole", true),
        parts("", "\u{c9}COLE", " normale")
    );
}

#[test]
fn span_is_cut_from_the_line_where_folding_changes_byte_lengths() {
    // The lower-case form of the first character is one byte longer than
    // the character, so the pattern stands three bytes further in the
    // lower-case line than in the line itself.
    assert_eq!(
        highlight_first_match("\u{130}foo!", "foo", true),
        parts("\u{130}", "foo", "!")
    );
    assert_eq!(
        highlight_first_match("\u{23a}ab", "a", true),
        parts("\u{23a}", "a", "b")
    );
    assert_eq!(
        highlight_first_match("\u{23a}\u{23a}a", "A", true),
        parts("\u{23a}\u{23a}", "a", "")
    );
    // Capital sharp s takes three bytes, its lower-case form two.
    assert_eq!(
        highlight_first_match("\u{1e9e}a", "a", true),
        parts("\u{1e9e}", "a", "")
    );
    assert_eq!(
        highlight_first_match("\u{1e9e}a", "a", false),
        parts("\u{1e9e}", "a", "")
    );
}

#[test]
fn span_may_fold_to_more_characters_than_it_has() {
    // The lower-case form of U+0130 is "i" and a combining dot.
    assert_eq!(
        highlight_first_match("x\u{130}y", "i\u{307}", true),
        parts("x", "\u{130}", "y")
    );
    assert_eq!(
        highlight_first_match("x\u{130}y", "\u{130}Y", true),
        parts("x", "\u{130}y", "")
    );
}

#[test]
fn span_ignoring_case_is_the_pattern_up_to_case() {
    let cases = [
        ("Hello World", "WORLD"),
        ("say FooBar twice: foobar", "fOObAR"),
        ("\u{130}foo!", "FOO"),
        ("\u{c9}COLE normale", "\u{e9}cole"),
        ("STRASSE Stra\u{df}e", "stra\u{df}e"),
        ("x\u{130}y", "i\u{307}Y"),
    ];
    for (line, pattern) in cases {
        let (before, matched, after) = highlight_first_match(line, pattern, true).unwrap();
        assert_eq!(format!("{}{}{}", before, matched, after), line);
        assert_eq!(matched.to_lowercase(), pattern.to_lowercase());
    }
}

#[test]
fn span_ignoring_case_is_the_first() {
    assert_eq!(
        highlight_first_match("xFoOfoo FOO", "foo", true),
        parts("x", "FoO", "foo FOO")
    );
    assert_eq!(highlight_first_match("AAAA", "aa", true), parts("", "AA", "AA"));
}

#[test]
fn no_span_for_a_line_that_does_not_match() {
    // At the end of a word a capital sigma folds to a final sigma: the
    // lower-case line does not hold the medial one.
    let line = "\u{391}\u{3a3}";
    let pattern = "\u{3c3}";
    assert_eq!(line.to_lowercase(), "\u{3b1}\u{3c2}");
    assert!(!is_match(line, pattern, true));
    assert_eq!(highlight_first_match(line, pattern, true), None);
    assert!(locate_first(line, pattern, true).is_none());
    assert_eq!(highlight_first_match(&line.to_lowercase(), pattern, false), None);
}

#[test]
fn span_lies_where_the_lower_case_line_first_holds_the_pattern() {
    // The capital sigma ends a word and folds to a final sigma, so the
    // pattern first stands at the end of the lower-case line.
    assert_eq!(
        highlight_first_match("\u{391}\u{3a3} \u{3c3}", "\u{3c3}", true),
        parts("\u{391}\u{3a3} ", "\u{3c3}", "")
    );
    // Inside a word it folds to a medial sigma: the lower-case line holds
    // the pattern at its start, and the line is cut after two characters.
    assert_eq!(
        highlight_first_match("\u{391}\u{3a3}\u{391}", "\u{3b1}\u{3c3}", true),
        parts("", "\u{391}\u{3a3}", "\u{391}")
    );
}

#[test]
fn span_is_returned_exactly_for_lines_that_match_and_can_be_cut() {
    let lines = [
        "Hello World",
        "\u{391}\u{3a3}",
        "\u{391}\u{3a3} \u{3c3}",
        "\u{391}\u{3a3}\u{391}",
        "\u{130}foo!",
        "\u{1e9e}a",
        "",
    ];
    let patterns = ["o", "WORLD", "\u{3c3}", "\u{3b1}\u{3c3}", "foo", "A", "zz"];
    for line in lines {
        for pattern in patterns {
            let ignoring = highlight_first_match(line, pattern, true);
            let folded =
                highlight_first_match(&line.to_lowercase(), &pattern.to_lowercase(), false);
            assert_eq!(ignoring.is_some(), folded.is_some());
            assert_eq!(ignoring.is_some(), is_match(line, pattern, true));
            if let (Some(ignoring), Some(folded)) = (ignoring, folded) {
                assert_eq!(ignoring.0.to_lowercase().len(), folded.0.len());
            }
        }
    }
}

#[test]
fn no_span_where_the_line_cannot_be_cut_at_the_occurrence() {
    // The lower-case form of U+0130 is "i" and a combining dot: the dot
    // alone stands in the lower-case line, inside what one character of
    // the line folds to.
    let line = "x\u{130}y";
    let pattern = "\u{307}";
    assert!(is_match(line, pattern, true));
    assert_eq!(highlight_first_match(line, pattern, true), None);
    assert!(locate_first(line, pattern, true).is_none());
}

#[test]
fn fold_text_lowers_case_only_where_asked() {
    assert_eq!(fold_text("HeLLo W\u{d6}RLD", true), "hello w\u{f6}rld");
    assert_eq!(fold_text("HeLLo W\u{d6}RLD", false), "HeLLo W\u{d6}RLD");
    assert_eq!(fold_text("", true), "");
    assert_eq!(fold_text("", false), "");
}

#[test]
fn locate_first_agrees_with_highlight_first_match() {
    let cases = [
        ("hello world", "world", false),
        ("Hello World", "hello", true),
        ("hello", "bye", false),
        ("hello", "", true),
        ("\u{130}foo!", "foo", true),
    ];
    for (line, pattern, ignore_case) in cases {
        let located = locate_first(line, pattern, ignore_case)
            .map(|span| (span.before, span.matched, span.after));
        assert_eq!(located, highlight_first_match(line, pattern, ignore_case));
    }
}

#[test]
fn find_bytes_gives_the_leftmost_offset() {
    assert_eq!(find_bytes(b"abcabc", b"bc"), Some(1));
    assert_eq!(find_bytes(b"abcabc", b"abc"), Some(0));
    assert_eq!(find_bytes(b"abcabc", b"cab"), Some(2));
    assert_eq!(find_bytes(b"abcabc", b"abcabc"), Some(0));
    assert_eq!(find_bytes(b"abcabc", b"c"), Some(2));
}

#[test]
fn find_bytes_of_an_empty_needle_is_the_start() {
    assert_eq!(find_bytes(b"abc", b""), Some(0));
    assert_eq!(find_bytes(b"", b""), Some(0));
}

#[test]
fn find_bytes_of_an_absent_needle_is_none() {
    assert_eq!(find_bytes(b"abc", b"abcd"), None);
    assert_eq!(find_bytes(b"abc", b"ca"), None);
    assert_eq!(find_bytes(b"", b"a"), None);
}

#[test]
fn matches_at_compares_the_window() {
    assert!(matches_at(b"hello", b"ell", 1));
    assert!(!matches_at(b"hello", b"ell", 0));
    assert!(matches_at(b"hello", b"", 5));
    assert!(matches_at(b"hello", b"hello", 0));
}

#[test]
fn find_text_counts_bytes_before_the_occurrence() {
    assert_eq!(find_text("hello world", "world"), Some(6));
    assert_eq!(find_text("hello world", "o"), Some(4));
    assert_eq!(find_text("caf\u{e9} au lait", "au"), Some(6));
    assert_eq!(find_text("日本語", "語"), Some(6));
    assert_eq!(find_text("hello", ""), Some(0));
    assert_eq!(find_text("hello", "help"), None);
}

#[test]
fn find_text_agrees_with_the_standard_library() {
    let hays = ["", "a", "abcabc", "na\u{ef}ve caf\u{e9}", "aaa", "日本語のテキスト"];
    let needles = ["", "a", "bc", "caf\u{e9}", "aa", "\u{e9}", "の", "zz"];
    for hay in hays {
        for needle in needles {
            assert_eq!(find_text(hay, needle), hay.find(needle));
        }
    }
}

#[test]
fn cut_line_cuts_at_the_offsets() {
    let cut = |line: &str, start: usize, end: usize| {
        let (before, matched, after) = cut_line(line, start, end);
        Some((before, matched, after))
    };
    assert_eq!(cut("hello world", 6, 11), parts("hello ", "world", ""));
    assert_eq!(cut("hello world", 0, 0), parts("", "", "hello world"));
    assert_eq!(cut("hello world", 11, 11), parts("hello world", "", ""));
    assert_eq!(cut("caf\u{e9} au lait", 3, 5), parts("caf", "\u{e9}", " au lait"));
    assert_eq!(cut("", 0, 0), parts("", "", ""));
}
