//! The reporter's texts: line numbers in decimal, the prefix that names the
//! file of a matching line, the rendered line, and the per-file summaries.

use vstd::prelude::*;
use vstd::string::*;
use crate::matcher::{highlight_of, lemma_highlight_is_first_cut, locate_first, MatchSpan};

verus! {

/// The character that stands for a digit below ten.
pub open spec fn digit_char(digit: nat) -> char {
    if digit == 0 {
        '0'
    } else if digit == 1 {
        '1'
    } else if digit == 2 {
        '2'
    } else if digit == 3 {
        '3'
    } else if digit == 4 {
        '4'
    } else if digit == 5 {
        '5'
    } else if digit == 6 {
        '6'
    } else if digit == 7 {
        '7'
    } else if digit == 8 {
        '8'
    } else {
        '9'
    }
}

/// A number written in decimal, without sign or leading zeros.
pub open spec fn decimal(number: nat) -> Seq<char>
    decreases number,
{
    if number < 10 {
        seq![digit_char(number)]
    } else {
        decimal(number / 10).push(digit_char(number % 10))
    }
}

/// The one-character text of a digit.
fn digit_text(digit: usize) -> (text: &'static str)
    requires
        digit < 10,
    ensures
        text@ == seq![digit_char(digit as nat)],
{
    proof {
        reveal_strlit("0");
        reveal_strlit("1");
        reveal_strlit("2");
        reveal_strlit("3");
        reveal_strlit("4");
        reveal_strlit("5");
        reveal_strlit("6");
        reveal_strlit("7");
        reveal_strlit("8");
        reveal_strlit("9");
    }
    let text = if digit == 0 {
        "0"
    } else if digit == 1 {
        "1"
    } else if digit == 2 {
        "2"
    } else if digit == 3 {
        "3"
    } else if digit == 4 {
        "4"
    } else if digit == 5 {
        "5"
    } else if digit == 6 {
        "6"
    } else if digit == 7 {
        "7"
    } else if digit == 8 {
        "8"
    } else {
        "9"
    };
    assert(text@ =~= seq![digit_char(digit as nat)]);
    text
}

/// Writes a number in decimal.
pub fn format_decimal(number: usize) -> (text: String)
    ensures
        text@ == decimal(number as nat),
    decreases number,
{
    if number < 10 {
        String::from_str(digit_text(number))
    } else {
        let mut text = format_decimal(number / 10);
        text.append(digit_text(number % 10));
        proof {
            assert(text@ =~= decimal(number as nat));
        }
        text
    }
}

/// What is written before a matching line: the path and a colon, and the
/// line's number and another colon where numbers are shown.
pub open spec fn line_prefix(path: Seq<char>, number: Option<nat>) -> Seq<char> {
    match number {
        Some(n) => path + seq![':'] + decimal(n) + seq![':'],
        None => path + seq![':'],
    }
}

/// The summary of a file where only counts are shown: the path, a colon and
/// the number of matching lines.
pub open spec fn count_line(path: Seq<char>, count: nat) -> Seq<char> {
    path + seq![':'] + decimal(count)
}

/// A matching line as it is to be written, in characters.
pub struct RenderedLine {
    /// The prefix that names the file and, where asked for, the line.
    pub prefix: Seq<char>,
    /// The line itself.
    pub text: Seq<char>,
    /// The line cut around the span to set off, where there is one.
    pub span: Option<(Seq<char>, Seq<char>, Seq<char>)>,
}

impl RenderedLine {
    /// The span, if there is one, spells the line.
    pub open spec fn well_formed(self) -> bool {
        match self.span {
            Some((before, matched, after)) => before + matched + after == self.text,
            None => true,
        }
    }

    /// The characters written where nothing is set off.
    pub open spec fn plain(self) -> Seq<char> {
        self.prefix + self.text
    }

    /// The characters written where the span is set off: the prefix, then
    /// the three parts one after the other, the middle one in another style.
    pub open spec fn highlighted(self) -> Seq<char> {
        match self.span {
            Some((before, matched, after)) => self.prefix + before + matched + after,
            None => self.prefix + self.text,
        }
    }
}

/// What is written for a matching line of a file.
pub open spec fn rendered(
    path: Seq<char>,
    number: Option<nat>,
    line: Seq<char>,
    pattern: Seq<char>,
    ignore_case: bool,
) -> RenderedLine {
    RenderedLine {
        prefix: line_prefix(path, number),
        text: line,
        span: highlight_of(line, pattern, ignore_case),
    }
}

/// Setting the span off changes the style of what is written, never its
/// characters.
pub proof fn lemma_highlighting_keeps_text(line: RenderedLine)
    requires
        line.well_formed(),
    ensures
        line.highlighted() == line.plain(),
{
    match line.span {
        Some((before, matched, after)) => {
            assert(line.prefix + before + matched + after =~= line.prefix + (before + matched
                + after));
        },
        None => {},
    }
}

/// Every rendered line is well formed.
pub proof fn lemma_rendered_well_formed(
    path: Seq<char>,
    number: Option<nat>,
    line: Seq<char>,
    pattern: Seq<char>,
    ignore_case: bool,
)
    ensures
        rendered(path, number, line, pattern, ignore_case).well_formed(),
{
    lemma_highlight_is_first_cut(line, pattern, ignore_case);
}

/// A matching line, ready to be written.
pub struct MatchLine {
    /// The prefix that names the file and, where asked for, the line.
    pub prefix: String,
    /// The line itself.
    pub text: String,
    /// The line cut around the span to set off, where there is one.
    pub span: Option<MatchSpan>,
}

impl View for MatchLine {
    type V = RenderedLine;

    open spec fn view(&self) -> RenderedLine {
        RenderedLine {
            prefix: self.prefix@,
            text: self.text@,
            span: match self.span {
                Some(found) => Some(found.parts()),
                None => None,
            },
        }
    }
}

impl MatchLine {
    /// The line as it is written where nothing is set off.
    pub fn plain(&self) -> (text: String)
        ensures
            text@ == self@.plain(),
    {
        let mut text = self.prefix.clone();
        text.append(self.text.as_str());
        text
    }

    /// The line as it is written where the span is set off, without the
    /// change of style.
    pub fn highlighted(&self) -> (text: String)
        ensures
            text@ == self@.highlighted(),
    {
        let mut text = self.prefix.clone();
        match &self.span {
            Some(found) => {
                text.append(found.before.as_str());
                text.append(found.matched.as_str());
                text.append(found.after.as_str());
            },
            None => {
                text.append(self.text.as_str());
            },
        }
        text
    }
}

/// Writes the prefix of a matching line.
pub fn prefix_for(path: &str, number: Option<usize>) -> (prefix: String)
    ensures
        prefix@ == line_prefix(
            path@,
            match number {
                Some(n) => Some(n as nat),
                None => None,
            },
        ),
{
    proof {
        reveal_strlit(":");
    }
    let mut prefix = String::from_str(path);
    prefix.append(":");
    assert(prefix@ =~= path@ + seq![':']);
    match number {
        Some(n) => {
            let digits = format_decimal(n);
            prefix.append(digits.as_str());
            prefix.append(":");
            assert(prefix@ =~= path@ + seq![':'] + decimal(n as nat) + seq![':']);
        },
        None => {},
    }
    prefix
}

/// Writes the summary of a file where only counts are shown.
pub fn count_summary(path: &str, count: usize) -> (summary: String)
    ensures
        summary@ == count_line(path@, count as nat),
{
    proof {
        reveal_strlit(":");
    }
    let mut summary = String::from_str(path);
    summary.append(":");
    let digits = format_decimal(count);
    summary.append(digits.as_str());
    assert(summary@ =~= path@ + seq![':'] + decimal(count as nat));
    summary
}

/// Renders a matching line of the file at `path`: the prefix, the line, and
/// the span to set off.
pub fn render_match(
    path: &str,
    number: Option<usize>,
    line: &str,
    pattern: &str,
    ignore_case: bool,
) -> (out: MatchLine)
    ensures
        out@ == rendered(
            path@,
            match number {
                Some(n) => Some(n as nat),
                None => None,
            },
            line@,
            pattern@,
            ignore_case,
        ),
        out@.well_formed(),
{
    let prefix = prefix_for(path, number);
    let span = locate_first(line, pattern, ignore_case);
    MatchLine { prefix, text: line.to_owned(), span }
}

} // verus!
