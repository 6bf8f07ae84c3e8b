//! Locating an error in a definition file: byte spans of the file's lines,
//! and the line and columns of an error's span.

use vstd::prelude::*;
use vstd::string::*;
use vstd::utf8::{encode_scalar, encode_utf8};

use crate::lines::{line_end, lemma_line_end, lines_from, lines_of, split_lines, str_views, strip_cr};
use crate::text::{dec, decimal};
use std::ops::Range;

verus! {

/// A span of byte positions, both ends included.
#[derive(Copy, PartialEq, Debug, Clone)]
pub struct Span {
    pub start: usize,
    pub end: usize,
}

impl Span {
    /// Whether `sub_span` lies within this span.
    pub fn envelopes(&self, sub_span: Span) -> (r: bool)
        ensures
            r == (sub_span.start >= self.start && sub_span.end <= self.end),
    {
        sub_span.start >= self.start && sub_span.end <= self.end
    }
}

/// The bytes a line takes in a text, its line ending counted as one.
pub open spec fn line_cost(l: Seq<char>) -> int {
    encode_utf8(l).len() as int + 1
}

/// The total of the costs of the lines.
pub open spec fn total_cost(lines: Seq<Seq<char>>) -> int
    decreases lines.len(),
{
    if lines.len() == 0 {
        0
    } else {
        line_cost(lines[0]) + total_cost(lines.drop_first())
    }
}

/// The spans of the lines, the first starting at `start` and ending after
/// `end` plus its cost; each next line starts one after the previous end.
pub open spec fn spans_from(lines: Seq<Seq<char>>, start: int, end: int) -> Seq<Span>
    decreases lines.len(),
{
    if lines.len() == 0 {
        Seq::empty()
    } else {
        let e = end + line_cost(lines[0]);
        seq![Span { start: start as usize, end: e as usize }] + spans_from(lines.drop_first(), e + 1, e)
    }
}

/// The spans of the lines of a text: the first line starts at position 1.
pub open spec fn spans_of(contents: Seq<char>) -> Seq<Span> {
    spans_from(lines_of(contents), 1, 0)
}

/// A character takes at most four bytes.
pub proof fn lemma_encode_len(l: Seq<char>)
    ensures
        encode_utf8(l).len() <= 4 * l.len(),
    decreases l.len(),
{
    if l.len() > 0 {
        lemma_encode_len(l.drop_first());
        assert(encode_scalar(l[0] as u32).len() <= 4);
    }
}

/// Costs are never negative.
pub proof fn lemma_cost_nonneg(lines: Seq<Seq<char>>)
    ensures
        total_cost(lines) >= 0,
    decreases lines.len(),
{
    if lines.len() > 0 {
        lemma_cost_nonneg(lines.drop_first());
    }
}

/// The lines from position `i` cost at most five per character left.
pub proof fn lemma_lines_cost(s: Seq<char>, i: int)
    requires
        0 <= i <= s.len(),
    ensures
        total_cost(lines_from(s, i)) <= 5 * (s.len() - i),
    decreases s.len() - i,
{
    if i < s.len() {
        lemma_line_end(s, i);
        let k = line_end(s, i);
        if k == s.len() {
            let l = s.subrange(i, s.len() as int);
            lemma_encode_len(l);
            assert(lines_from(s, i) == seq![l]);
            assert(seq![l].drop_first() =~= Seq::<Seq<char>>::empty());
            assert(total_cost(seq![l]) == line_cost(l) + total_cost(seq![l].drop_first()));
            assert(total_cost(Seq::<Seq<char>>::empty()) == 0);
        } else {
            let l = strip_cr(s.subrange(i, k));
            assert(l.len() <= k - i);
            lemma_encode_len(l);
            lemma_lines_cost(s, k + 1);
            let rest = lines_from(s, k + 1);
            assert(lines_from(s, i) == seq![l] + rest);
            assert((seq![l] + rest).drop_first() =~= rest);
            assert((seq![l] + rest)[0] == l);
            assert(total_cost(seq![l] + rest) == line_cost(l) + total_cost(rest));
        }
    }
}


/// Where an error stands in a text: its line and its first and last columns,
/// all counted from 1.
#[derive(PartialEq, Eq, Clone, Copy, Debug)]
pub struct ErrorLocation {
    pub line: usize,
    pub start_column: usize,
    pub end_column: usize,
}

/// Whether span `r` envelopes span `s`.
pub open spec fn span_envelopes(r: Span, s: Span) -> bool {
    s.start >= r.start && s.end <= r.end
}

/// The location of `span` within the line span at index `k`.
pub open spec fn location_in(spans: Seq<Span>, span: Span, k: int) -> ErrorLocation {
    ErrorLocation {
        line: (k + 1) as usize,
        start_column: (span.start - spans[k].start + 1) as usize,
        end_column: (span.end - spans[k].start + 1) as usize,
    }
}

/// The location of `span` in the first line span, from index `i` on, that
/// envelopes it; `None` where no such line span is left.
pub open spec fn locate_from(spans: Seq<Span>, span: Span, i: int) -> Option<ErrorLocation>
    decreases spans.len() - i,
{
    if i < 0 || i >= spans.len() {
        None
    } else if span_envelopes(spans[i], span) {
        Some(location_in(spans, span, i))
    } else {
        locate_from(spans, span, i + 1)
    }
}

/// The columns of `span` can be counted in the first line span from index
/// `i` on that envelopes it: its end does not lie before that line's start.
pub open spec fn columns_defined(spans: Seq<Span>, span: Span, i: int) -> bool
    decreases spans.len() - i,
{
    if i < 0 || i >= spans.len() {
        true
    } else if span_envelopes(spans[i], span) {
        spans[i].start <= span.end
    } else {
        columns_defined(spans, span, i + 1)
    }
}

/// The spans from some start, where each next line starts one after the
/// previous end: there is one per line, each spans its line's bytes and line
/// ending, and each starts one after the previous one ends.
proof fn lemma_spans_from(lines: Seq<Seq<char>>, end: int)
    requires
        0 <= end,
        end + total_cost(lines) + 1 <= usize::MAX,
    ensures
        spans_from(lines, end + 1, end).len() == lines.len(),
        lines.len() > 0 ==> spans_from(lines, end + 1, end)[0].start == end + 1,
        forall|k: int|
            0 <= k < lines.len() ==> (#[trigger] spans_from(lines, end + 1, end)[k]).end
                - spans_from(lines, end + 1, end)[k].start + 1 == line_cost(lines[k]),
        forall|k: int|
            0 <= k < lines.len() - 1 ==> (#[trigger] spans_from(lines, end + 1, end)[k + 1]).start
                == spans_from(lines, end + 1, end)[k].end + 1,
    decreases lines.len(),
{
    if lines.len() > 0 {
        let rest = lines.drop_first();
        let e = end + line_cost(lines[0]);
        lemma_cost_nonneg(rest);
        lemma_spans_from(rest, e);
        let t = spans_from(rest, e + 1, e);
        let all = spans_from(lines, end + 1, end);
        assert(all == seq![Span { start: (end + 1) as usize, end: e as usize }] + t);
        assert forall|k: int| 0 <= k < lines.len() implies (#[trigger] all[k]).end - all[k].start
            + 1 == line_cost(lines[k]) by {
            if k > 0 {
                assert(all[k] == t[k - 1]);
                assert(rest[k - 1] == lines[k]);
            }
        }
        assert forall|k: int| 0 <= k < lines.len() - 1 implies (#[trigger] all[k + 1]).start
            == all[k].end + 1 by {
            assert(all[k + 1] == t[k]);
            if k > 0 {
                assert(all[k] == t[k - 1]);
            }
        }
    }
}

/// Law: the spans of a text's lines follow each other: there is one per
/// line, the first starts at position 1, each spans its line's bytes and
/// one more for its line ending, and each starts one after the previous one
/// ends.
pub proof fn law_spans_follow_lines(contents: Seq<char>)
    requires
        5 * contents.len() + 2 <= usize::MAX,
    ensures
        spans_of(contents).len() == lines_of(contents).len(),
        spans_of(contents).len() > 0 ==> spans_of(contents)[0].start == 1,
        forall|k: int|
            0 <= k < spans_of(contents).len() ==> (#[trigger] spans_of(contents)[k]).end
                - spans_of(contents)[k].start + 1 == encode_utf8(lines_of(contents)[k]).len() + 1,
        forall|k: int|
            0 <= k < spans_of(contents).len() - 1 ==> (#[trigger] spans_of(contents)[k + 1]).start
                == spans_of(contents)[k].end + 1,
{
    lemma_lines_cost(contents, 0);
    lemma_spans_from(lines_of(contents), 0);
}

/// Law: a location lies within its line: it is found in the line span that
/// envelopes the error's span, its columns count from 1 and end within the
/// line.
pub proof fn law_location_within_line(spans: Seq<Span>, span: Span, i: int)
    requires
        0 <= i,
        columns_defined(spans, span, i),
        spans.len() <= usize::MAX,
        forall|k: int| 0 <= k < spans.len() ==> (#[trigger] spans[k]).start >= 1,
    ensures
        locate_from(spans, span, i) matches Some(loc) ==> {
            let k = loc.line - 1;
            &&& i <= k < spans.len()
            &&& span_envelopes(spans[k], span)
            &&& loc.start_column >= 1
            &&& loc.end_column - loc.start_column == span.end - span.start
            &&& loc.end_column <= spans[k].end - spans[k].start + 1
        },
    decreases spans.len() - i,
{
    if i < spans.len() && !span_envelopes(spans[i], span) {
        law_location_within_line(spans, span, i + 1);
    }
}

/// The spans of the lines of a text, in bytes.
pub struct ContentSpans(Vec<Span>);

impl ContentSpans {
    /// Every span starts at position 1 or later.
    #[verifier::type_invariant]
    spec fn spans_start_after_zero(&self) -> bool {
        forall|k: int| 0 <= k < self.0@.len() ==> #[trigger] self.0@[k].start >= 1
    }

    /// The spans.
    pub closed spec fn spec_spans(&self) -> Seq<Span> {
        self.0@
    }

    /// Computes the spans of the lines of `contents`: line `i` spans from one
    /// after the end of line `i - 1` (from 1 for the first line) to its end,
    /// where a line ends after its bytes and its line ending.
    pub fn from(contents: &str) -> (r: ContentSpans)
        requires
            5 * contents@.len() + 2 <= usize::MAX,
        ensures
            r.spec_spans() == spans_of(contents@),
    {
        let lines = split_lines(contents);
        let ghost all = str_views(lines@);
        proof {
            lemma_lines_cost(contents@, 0);
        }
        let mut spans: Vec<Span> = Vec::new();
        let mut start: usize = 1;
        let mut end: usize = 0;
        let mut k: usize = 0;
        assert(all.skip(0) =~= all);
        while k < lines.len()
            invariant
                all == str_views(lines@),
                all == lines_of(contents@),
                total_cost(all) <= 5 * contents@.len(),
                5 * contents@.len() + 2 <= usize::MAX,
                k <= lines@.len(),
                start == end + 1,
                end + total_cost(all.skip(k as int)) == total_cost(all),
                spans_from(all, 1, 0) == spans@ + spans_from(all.skip(k as int), start as int, end as int),
                forall|j: int| 0 <= j < spans@.len() ==> #[trigger] spans@[j].start >= 1,
            decreases lines@.len() - k,
        {
            let line = lines[k];
            let ghost rest = all.skip(k as int);
            assert(rest[0] == line@);
            assert(rest.drop_first() =~= all.skip(k + 1));
            assert(total_cost(rest) == line_cost(line@) + total_cost(all.skip(k + 1)));
            assert(total_cost(all.skip(k + 1)) >= 0) by {
                lemma_cost_nonneg(all.skip(k + 1));
            }
            assert(encode_utf8(line@).len() as int == line.len());
            let e = end + line.len() + 1;
            let ghost prev = spans@;
            spans.push(Span { start, end: e });
            assert(spans@ + spans_from(all.skip(k + 1), e + 1, e as int) =~= prev + spans_from(
                rest,
                start as int,
                end as int,
            ));
            start = e + 1;
            end = e;
            k = k + 1;
        }
        assert(all.skip(k as int) =~= Seq::<Seq<char>>::empty());
        assert(spans@ =~= spans_from(all, 1, 0));
        ContentSpans(spans)
    }


    /// The location of `span` in the first line that envelopes it: the line's
    /// number, and the columns of the span's ends within that line; `None`
    /// where no line envelopes it.
    pub fn location(&self, span: Span) -> (r: Option<ErrorLocation>)
        requires
            columns_defined(self.spec_spans(), span, 0),
        ensures
            r == locate_from(self.spec_spans(), span, 0),
    {
        proof {
            use_type_invariant(self);
        }
        let mut i: usize = 0;
        while i < self.0.len()
            invariant
                0 <= i <= self.0@.len(),
                locate_from(self.0@, span, 0) == locate_from(self.0@, span, i as int),
                columns_defined(self.0@, span, 0) == columns_defined(self.0@, span, i as int),
                columns_defined(self.0@, span, 0),
                forall|k: int| 0 <= k < self.0@.len() ==> #[trigger] self.0@[k].start >= 1,
            decreases self.0@.len() - i,
        {
            let r = self.0[i];
            if r.envelopes(span) {
                let location = ErrorLocation {
                    line: i + 1,
                    start_column: span.start - r.start + 1,
                    end_column: span.end - r.start + 1,
                };
                return Some(location);
            }
            i = i + 1;
        }
        None
    }

    /// Whether the columns of `span` can be counted in the first line that
    /// envelopes it.
    pub fn columns_countable(&self, span: Span) -> (r: bool)
        ensures
            r == columns_defined(self.spec_spans(), span, 0),
    {
        let mut i: usize = 0;
        while i < self.0.len()
            invariant
                0 <= i <= self.0@.len(),
                columns_defined(self.0@, span, 0) == columns_defined(self.0@, span, i as int),
            decreases self.0@.len() - i,
        {
            let r = self.0[i];
            if r.envelopes(span) {
                return r.start <= span.end;
            }
            i = i + 1;
        }
        true
    }

    /// The spans of the lines.
    pub fn spans(&self) -> (r: &Vec<Span>)
        ensures
            r@ == self.spec_spans(),
    {
        &self.0
    }
}

/// The span of a byte range, if there is one.
pub open spec fn span_of_range(span_range: Option<Range<usize>>) -> Option<Span> {
    match span_range {
        Some(range) => Some(Span { start: range.start, end: range.end }),
        None => None,
    }
}

/// The text of an error report: the message, followed by the line and the
/// columns of the span where the text's lines locate it.
pub open spec fn report_text(contents: Seq<char>, message: Seq<char>, span: Option<Span>) -> Seq<
    char,
> {
    match span {
        None => message,
        Some(sp) => match locate_from(spans_of(contents), sp, 0) {
            Some(loc) => message + " at line: "@ + dec(loc.line as nat) + ", columns: "@ + dec(
                loc.start_column as nat,
            ) + ".."@ + dec(loc.end_column as nat),
            None => message,
        },
    }
}

/// Whether an error report can be made for a span: the columns of the span
/// can be counted in the first line that envelopes it.
pub fn error_report_defined(contents: &str, span_range: &Option<Range<usize>>) -> (r: bool)
    requires
        5 * contents@.len() + 2 <= usize::MAX,
    ensures
        r == (span_of_range(*span_range) matches Some(sp) ==> columns_defined(
            spans_of(contents@),
            sp,
            0,
        )),
{
    match span_range {
        Some(range) => {
            let spans = ContentSpans::from(contents);
            spans.columns_countable(Span { start: range.start, end: range.end })
        },
        None => true,
    }
}

/// The report of an error in `contents`: the message alone where there is
/// no span or no line envelopes it, else the message with the line and the
/// columns of the span.
pub fn error_report(contents: &str, message: &str, span_range: Option<Range<usize>>) -> (r: String)
    requires
        5 * contents@.len() + 2 <= usize::MAX,
        span_of_range(span_range) matches Some(sp) ==> columns_defined(spans_of(contents@), sp, 0),
    ensures
        r@ == report_text(contents@, message@, span_of_range(span_range)),
{
    let span = match span_range {
        Some(range) => Span { start: range.start, end: range.end },
        None => {
            return String::from_str(message);
        },
    };
    let content_ranges = ContentSpans::from(contents);
    let location = content_ranges.location(span);
    match location {
        Some(loc) => {
            proof {
                reveal_strlit(" at line: ");
                reveal_strlit(", columns: ");
                reveal_strlit("..");
            }
            let mut out = String::from_str(message);
            out.append(" at line: ");
            let line = decimal(loc.line);
            out.append(line.as_str());
            out.append(", columns: ");
            let start = decimal(loc.start_column);
            out.append(start.as_str());
            out.append("..");
            let end = decimal(loc.end_column);
            out.append(end.as_str());
            out
        },
        None => String::from_str(message),
    }
}

} // verus!
