//! Scanning one file: the state kept from line to line, what is done with
//! each line, what is written when the file ends, and the same for a whole
//! file given as its lines.

use vstd::prelude::*;
use crate::matcher::{is_match, lemma_empty_pattern_matches, line_matches};
use crate::report::{
    count_line, count_summary, line_prefix, render_match, rendered, MatchLine, RenderedLine,
};
use crate::request::SearchRequest;

verus! {

/// The number under which a line is shown: its place in the file, counted
/// from one, where numbers are asked for.
pub open spec fn shown_number(request: &SearchRequest, place: nat) -> Option<nat> {
    if request.line_numbers {
        Some(place)
    } else {
        None
    }
}

/// The characters of each of some texts.
pub open spec fn texts_of(texts: Seq<String>) -> Seq<Seq<char>> {
    Seq::new(texts.len(), |i: int| texts[i]@)
}

/// The characters of each of some rendered lines.
pub open spec fn renderings_of(lines: Seq<MatchLine>) -> Seq<RenderedLine> {
    Seq::new(lines.len(), |i: int| lines[i]@)
}

/// The number of lines that match.
pub open spec fn match_count(lines: Seq<Seq<char>>, pattern: Seq<char>, ignore_case: bool) -> nat
    decreases lines.len(),
{
    if lines.len() == 0 {
        0
    } else {
        let earlier = match_count(lines.drop_last(), pattern, ignore_case);
        if line_matches(lines.last(), pattern, ignore_case) {
            earlier + 1
        } else {
            earlier
        }
    }
}

/// The number of matches that the scan of a file reports: the number of its
/// matching lines, but one at most where only the names of files with
/// matches are asked for, since such a scan ends at the first match.
pub open spec fn reported_matches(lines: Seq<Seq<char>>, request: &SearchRequest) -> nat {
    let count = match_count(lines, request.pattern@, request.ignore_case);
    if request.files_with_matches && count > 0 {
        1
    } else {
        count
    }
}

/// The lines written while a file is scanned: each matching line in the
/// order of the file, and none where counts or names of files are asked for
/// in their place.
pub open spec fn printed_lines(
    path: Seq<char>,
    lines: Seq<Seq<char>>,
    request: &SearchRequest,
) -> Seq<RenderedLine>
    decreases lines.len(),
{
    if request.files_with_matches || request.count_only || lines.len() == 0 {
        Seq::empty()
    } else {
        let earlier = printed_lines(path, lines.drop_last(), request);
        if line_matches(lines.last(), request.pattern@, request.ignore_case) {
            earlier.push(
                rendered(
                    path,
                    shown_number(request, lines.len()),
                    lines.last(),
                    request.pattern@,
                    request.ignore_case,
                ),
            )
        } else {
            earlier
        }
    }
}

/// The lines written when the scan of a file has ended with `matches`
/// matches: the path, where names of files are asked for and there was a
/// match; then the path with the count, where counts are asked for.
pub open spec fn summary_lines(
    path: Seq<char>,
    matches: nat,
    request: &SearchRequest,
) -> Seq<Seq<char>> {
    let name = if request.files_with_matches && matches > 0 {
        seq![path]
    } else {
        Seq::empty()
    };
    let count = if request.count_only {
        seq![count_line(path, matches)]
    } else {
        Seq::empty()
    };
    name + count
}

/// The first lines of a file hold no more matches than the file.
pub proof fn lemma_match_count_grows(
    lines: Seq<Seq<char>>,
    upto: int,
    pattern: Seq<char>,
    ignore_case: bool,
)
    requires
        0 <= upto <= lines.len(),
    ensures
        match_count(lines.take(upto), pattern, ignore_case) <= match_count(
            lines,
            pattern,
            ignore_case,
        ),
    decreases lines.len(),
{
    if upto == lines.len() {
        assert(lines.take(upto) =~= lines);
    } else {
        lemma_match_count_grows(lines.drop_last(), upto, pattern, ignore_case);
        assert(lines.drop_last().take(upto) =~= lines.take(upto));
    }
}

/// Where counts are asked for, and the scan is not cut short by a request
/// for the names of files, no line of the file is written, and the summary
/// is one line: the path with the number of lines that match.
pub proof fn lemma_count_only_writes_one_count(
    path: Seq<char>,
    lines: Seq<Seq<char>>,
    request: &SearchRequest,
)
    requires
        request.count_only,
        !request.files_with_matches,
    ensures
        printed_lines(path, lines, request) == Seq::<RenderedLine>::empty(),
        reported_matches(lines, request) == match_count(
            lines,
            request.pattern@,
            request.ignore_case,
        ),
        summary_lines(path, reported_matches(lines, request), request) == seq![
            count_line(path, match_count(lines, request.pattern@, request.ignore_case)),
        ],
{
    let count = match_count(lines, request.pattern@, request.ignore_case);
    assert(summary_lines(path, count, request) =~= seq![count_line(path, count)]);
}

/// Where the names of files with matches are asked for, no line of the file
/// is written, and the path stands in the summary once if a line matches
/// and not at all if none does.
pub proof fn lemma_files_with_matches_names_file_once(
    path: Seq<char>,
    lines: Seq<Seq<char>>,
    request: &SearchRequest,
)
    requires
        request.files_with_matches,
    ensures
        printed_lines(path, lines, request) == Seq::<RenderedLine>::empty(),
        ({
            let summary = summary_lines(path, reported_matches(lines, request), request);
            let matched = match_count(lines, request.pattern@, request.ignore_case) > 0;
            &&& matched ==> summary.len() > 0 && summary[0] == path
            &&& forall|i: int|
                0 <= i < summary.len() && summary[i] == path ==> matched && i == 0
            &&& !request.count_only ==> summary == if matched {
                seq![path]
            } else {
                Seq::empty()
            }
        }),
{
    let reported = reported_matches(lines, request);
    let summary = summary_lines(path, reported, request);
    let matched = match_count(lines, request.pattern@, request.ignore_case) > 0;
    assert(count_line(path, reported).len() > path.len());
    if !request.count_only {
        assert(summary =~= if matched {
            seq![path]
        } else {
            Seq::empty()
        });
    }
}

/// With an empty pattern every line of a file matches, whether case is
/// ignored or not, and where lines are written each line of the file is
/// written, in order, with its prefix and without a span.
pub proof fn lemma_empty_pattern_counts_every_line(
    path: Seq<char>,
    lines: Seq<Seq<char>>,
    request: &SearchRequest,
)
    requires
        request.pattern@.len() == 0,
    ensures
        match_count(lines, request.pattern@, request.ignore_case) == lines.len(),
        !request.files_with_matches ==> reported_matches(lines, request) == lines.len(),
        !request.files_with_matches && !request.count_only ==> {
            let printed = printed_lines(path, lines, request);
            &&& printed.len() == lines.len()
            &&& forall|i: int|
                0 <= i < lines.len() ==> #[trigger] printed[i] == (RenderedLine {
                    prefix: line_prefix(path, shown_number(request, (i + 1) as nat)),
                    text: lines[i],
                    span: None,
                })
        },
    decreases lines.len(),
{
    if lines.len() > 0 {
        lemma_empty_pattern_counts_every_line(path, lines.drop_last(), request);
        lemma_empty_pattern_matches(lines.last(), request.pattern@, request.ignore_case);
    }
}

/// Two requests ask for the same but, at most, for the color mode.
pub open spec fn same_but_color(one: &SearchRequest, other: &SearchRequest) -> bool {
    &&& one.pattern@ == other.pattern@
    &&& one.path@ == other.path@
    &&& one.ignore_case == other.ignore_case
    &&& one.line_numbers == other.line_numbers
    &&& one.recursive == other.recursive
    &&& one.count_only == other.count_only
    &&& one.files_with_matches == other.files_with_matches
}

/// The color mode changes nothing in what is counted and written for a
/// file: not the matches, not the lines, not the summary.
pub proof fn lemma_color_changes_no_text(
    path: Seq<char>,
    lines: Seq<Seq<char>>,
    one: &SearchRequest,
    other: &SearchRequest,
)
    requires
        same_but_color(one, other),
    ensures
        reported_matches(lines, one) == reported_matches(lines, other),
        printed_lines(path, lines, one) == printed_lines(path, lines, other),
        summary_lines(path, reported_matches(lines, one), one) == summary_lines(
            path,
            reported_matches(lines, other),
            other,
        ),
    decreases lines.len(),
{
    if lines.len() > 0 {
        lemma_color_changes_no_text(path, lines.drop_last(), one, other);
    }
}

/// The color mode changes nothing in what is done with a line.
pub proof fn lemma_color_changes_no_decision(
    scan: FileScan,
    path: Seq<char>,
    line: Seq<char>,
    one: &SearchRequest,
    other: &SearchRequest,
)
    requires
        same_but_color(one, other),
    ensures
        scan.step(line, one) == scan.step(line, other),
        scan.decision(path, line, one) == scan.decision(path, line, other),
{
}

/// What is done with one line, in characters.
pub enum Decision {
    /// Nothing is written for the line.
    Skip,
    /// The line is written.
    Print(RenderedLine),
    /// Nothing is written, and no further line of the file is read.
    Stop,
}

/// What is done with one line.
pub enum LineAction {
    /// Nothing is written for the line.
    Skip,
    /// The line is written.
    Print(MatchLine),
    /// Nothing is written, and no further line of the file is read.
    Stop,
}

impl View for LineAction {
    type V = Decision;

    open spec fn view(&self) -> Decision {
        match self {
            LineAction::Skip => Decision::Skip,
            LineAction::Print(line) => Decision::Print(line@),
            LineAction::Stop => Decision::Stop,
        }
    }
}

/// The state of the scan of one file.
#[derive(Clone, Copy, Debug, PartialEq, Eq, Structural)]
pub struct FileScan {
    /// The number of matching lines met so far.
    pub matches: usize,
    /// The number of lines read so far.
    pub lines_seen: usize,
    /// No further line is to be read.
    pub stopped: bool,
}

impl FileScan {
    /// No more lines have matched than were read.
    pub open spec fn well_formed(self) -> bool {
        self.matches <= self.lines_seen
    }

    /// The state after one more line. A stopped scan stays as it is. A line
    /// that matches is counted, and stops the scan where only the names of
    /// files with matches are asked for.
    pub open spec fn step(self, line: Seq<char>, request: &SearchRequest) -> FileScan {
        if self.stopped {
            self
        } else if line_matches(line, request.pattern@, request.ignore_case) {
            FileScan {
                matches: (self.matches + 1) as usize,
                lines_seen: (self.lines_seen + 1) as usize,
                stopped: request.files_with_matches,
            }
        } else {
            FileScan {
                matches: self.matches,
                lines_seen: (self.lines_seen + 1) as usize,
                stopped: false,
            }
        }
    }

    /// What is done with one more line. Only a matching line is written, and
    /// only where neither counts nor names of files are asked for in place of
    /// lines.
    pub open spec fn decision(
        self,
        path: Seq<char>,
        line: Seq<char>,
        request: &SearchRequest,
    ) -> Decision {
        if self.stopped {
            Decision::Stop
        } else if !line_matches(line, request.pattern@, request.ignore_case) {
            Decision::Skip
        } else if request.files_with_matches {
            Decision::Stop
        } else if request.count_only {
            Decision::Skip
        } else {
            Decision::Print(
                rendered(
                    path,
                    shown_number(request, (self.lines_seen + 1) as nat),
                    line,
                    request.pattern@,
                    request.ignore_case,
                ),
            )
        }
    }

    /// The scan of a file of which no line has been read.
    pub fn new() -> (scan: FileScan)
        ensures
            scan.matches == 0,
            scan.lines_seen == 0,
            !scan.stopped,
            scan.well_formed(),
    {
        FileScan { matches: 0, lines_seen: 0, stopped: false }
    }

    /// Takes the next line of the file at `path` and says what to do with it.
    pub fn feed(&mut self, path: &str, line: &str, request: &SearchRequest) -> (action: LineAction)
        requires
            old(self).well_formed(),
            old(self).lines_seen < usize::MAX,
        ensures
            *final(self) == old(self).step(line@, request),
            action@ == old(self).decision(path@, line@, request),
            final(self).well_formed(),
            action matches LineAction::Print(out) ==> out@.well_formed(),
    {
        if self.stopped {
            return LineAction::Stop;
        }
        let number: usize = self.lines_seen + 1;
        self.lines_seen = number;
        if !is_match(line, request.pattern.as_str(), request.ignore_case) {
            return LineAction::Skip;
        }
        self.matches = self.matches + 1;
        if request.files_with_matches {
            self.stopped = true;
            return LineAction::Stop;
        }
        if request.count_only {
            return LineAction::Skip;
        }
        let shown = if request.line_numbers {
            Some(number)
        } else {
            None
        };
        LineAction::Print(
            render_match(path, shown, line, request.pattern.as_str(), request.ignore_case),
        )
    }

    /// Says what to write now that the file at `path` has ended.
    pub fn finish(&self, path: &str, request: &SearchRequest) -> (summary: Vec<String>)
        ensures
            texts_of(summary@) == summary_lines(path@, self.matches as nat, request),
    {
        let mut summary: Vec<String> = Vec::new();
        if request.files_with_matches && self.matches > 0 {
            summary.push(path.to_owned());
        }
        if request.count_only {
            summary.push(count_summary(path, self.matches));
        }
        assert(texts_of(summary@) =~= summary_lines(path@, self.matches as nat, request));
        summary
    }
}

/// What the scan of one file gives.
pub struct FileReport {
    /// The number of matches that the scan reports.
    pub matches: usize,
    /// The lines written during the scan, in order.
    pub printed: Vec<MatchLine>,
    /// The lines written when the file has ended.
    pub summary: Vec<String>,
}

/// Scans a file given as its lines.
pub fn search_lines(
    path: &str,
    lines: &Vec<String>,
    request: &SearchRequest,
) -> (report: FileReport)
    ensures
        report.matches == reported_matches(texts_of(lines@), request),
        renderings_of(report.printed@) == printed_lines(path@, texts_of(lines@), request),
        texts_of(report.summary@) == summary_lines(
            path@,
            reported_matches(texts_of(lines@), request),
            request,
        ),
        forall|i: int|
            0 <= i < report.printed@.len() ==> (#[trigger] report.printed@[i])@.well_formed(),
{
    let ghost all = texts_of(lines@);
    let ghost pattern = request.pattern@;
    let ghost ignore_case = request.ignore_case;
    let mut scan = FileScan::new();
    let mut printed: Vec<MatchLine> = Vec::new();
    let mut i: usize = 0;
    while i < lines.len() && !scan.stopped
        invariant
            all == texts_of(lines@),
            pattern == request.pattern@,
            ignore_case == request.ignore_case,
            i <= lines.len(),
            scan.well_formed(),
            scan.lines_seen == i,
            scan.stopped ==> request.files_with_matches && scan.matches == 1 && match_count(
                all.take(i as int),
                pattern,
                ignore_case,
            ) > 0,
            !scan.stopped && request.files_with_matches ==> scan.matches == 0 && match_count(
                all.take(i as int),
                pattern,
                ignore_case,
            ) == 0,
            !request.files_with_matches ==> scan.matches == match_count(
                all.take(i as int),
                pattern,
                ignore_case,
            ),
            renderings_of(printed@) == printed_lines(path@, all.take(i as int), request),
            forall|k: int| 0 <= k < printed@.len() ==> (#[trigger] printed@[k])@.well_formed(),
        decreases lines.len() - i,
    {
        proof {
            assert(all.take(i + 1).drop_last() =~= all.take(i as int));
            assert(all.take(i + 1).last() == lines@[i as int]@);
        }
        let action = scan.feed(path, lines[i].as_str(), request);
        match action {
            LineAction::Print(out) => {
                printed.push(out);
            },
            LineAction::Skip => {},
            LineAction::Stop => {},
        }
        i += 1;
        assert(renderings_of(printed@) =~= printed_lines(path@, all.take(i as int), request));
    }
    proof {
        lemma_match_count_grows(all, i as int, pattern, ignore_case);
        if !scan.stopped {
            assert(all.take(i as int) =~= all);
        }
    }
    let summary = scan.finish(path, request);
    FileReport { matches: scan.matches, printed, summary }
}

} // verus!
