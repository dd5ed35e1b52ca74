//! The scanner: one file's text, split into lines, each line tested
//! independently against a compiled search.
//!
//! Each line is matched on its own, so a context window never reaches across
//! a line break here and every report carries the exact line it came from.
//! A window that spans several lines is what `Matcher::find` gives on a whole
//! block of text.
use vstd::prelude::*;
use crate::pattern::{Matcher, leftmost_match};
use crate::text::{chars_of, decimal, lines_of, push_decimal, split_nl, strip_cr, strip_carriage_return, stripped_lines, lemma_split_nl_no_break};

verus! {

/// One match in one file.
pub struct MatchResult {
    /// The file's path, as handed to the scanner.
    pub file: String,
    /// The 1-based number of the matching line, when requested.
    pub line_number: Option<usize>,
    /// The text that the expression matched in that line.
    pub matched_text: String,
}

/// The numbered matches among `lines`: for each line, in order, its 1-based
/// number and the text of the first match in it, if it has one.
pub open spec fn numbered_matches(expr: Seq<char>, lines: Seq<Seq<char>>) -> Seq<(nat, Seq<char>)>
    decreases lines.len(),
{
    if lines.len() == 0 {
        Seq::empty()
    } else {
        let earlier = numbered_matches(expr, lines.drop_last());
        match leftmost_match(expr, lines.last()) {
            Some(t) => earlier.push((lines.len(), t)),
            None => earlier,
        }
    }
}

/// The text of a report: the path, then `:` and the line number when there
/// is one, then ` - ` and the matched text.
pub open spec fn rendered(file: Seq<char>, line_number: Option<usize>, text: Seq<char>) -> Seq<char> {
    file + match line_number {
        Some(n) => ":"@ + decimal(n as nat),
        None => Seq::empty(),
    } + " - "@ + text
}

impl MatchResult {
    /// This report is the one for numbered match `m` of `file`.
    pub open spec fn reports(&self, file: Seq<char>, report_line_numbers: bool, m: (nat, Seq<char>)) -> bool {
        &&& self.file@ == file
        &&& self.matched_text@ == m.1
        &&& if report_line_numbers {
            self.line_number == Some(m.0 as usize)
        } else {
            self.line_number is None
        }
    }

    /// Both reports say the same.
    pub open spec fn same_as(&self, other: MatchResult) -> bool {
        &&& self.file@ == other.file@
        &&& self.line_number == other.line_number
        &&& self.matched_text@ == other.matched_text@
    }

    /// The line printed for this report.
    pub fn render(&self) -> (r: String)
        ensures
            r@ == rendered(self.file@, self.line_number, self.matched_text@),
    {
        let mut r = String::new();
        r.append(self.file.as_str());
        match self.line_number {
            Some(n) => {
                r.append(":");
                push_decimal(&mut r, n);
            },
            None => {},
        }
        r.append(" - ");
        r.append(self.matched_text.as_str());
        assert(r@ =~= rendered(self.file@, self.line_number, self.matched_text@));
        r
    }
}

/// `out` reports exactly the numbered matches `ms` of `file`, in order.
pub open spec fn reports_all(out: Seq<MatchResult>, file: Seq<char>, report_line_numbers: bool, ms: Seq<(nat, Seq<char>)>) -> bool {
    &&& out.len() == ms.len()
    &&& forall|k: int| 0 <= k < out.len() ==> #[trigger] out[k].reports(file, report_line_numbers, ms[k])
}

/// Reporting the match of one more line extends the reports of the lines
/// before it.
proof fn lemma_push_line(
    out: Seq<MatchResult>,
    before: Seq<MatchResult>,
    file: Seq<char>,
    report_line_numbers: bool,
    expr: Seq<char>,
    done: Seq<Seq<char>>,
    raw: Seq<char>,
)
    requires
        reports_all(before, file, report_line_numbers, numbered_matches(expr, stripped_lines(done))),
        match leftmost_match(expr, strip_cr(raw)) {
            Some(t) => {
                &&& out.len() == before.len() + 1
                &&& out.take(before.len() as int) == before
                &&& out.last().reports(file, report_line_numbers, ((done.len() + 1) as nat, t))
            },
            None => out == before,
        },
    ensures
        reports_all(out, file, report_line_numbers, numbered_matches(expr, stripped_lines(done.push(raw)))),
{
    let lines = stripped_lines(done.push(raw));
    assert(lines.drop_last() =~= stripped_lines(done));
    assert(lines.last() == strip_cr(raw));
    let ms = numbered_matches(expr, lines);
    match leftmost_match(expr, strip_cr(raw)) {
        Some(t) => {
            assert forall|k: int| 0 <= k < out.len() implies #[trigger] out[k].reports(file, report_line_numbers, ms[k]) by {
                if k < before.len() {
                    assert(out[k] == out.take(before.len() as int)[k]);
                }
            }
        },
        None => {},
    }
}

/// Tests one line, numbered `number`, and reports its match, if any.
fn consider_line(
    out: &mut Vec<MatchResult>,
    file: &str,
    matcher: &Matcher,
    line: &Vec<char>,
    number: usize,
    report_line_numbers: bool,
)
    ensures
        match leftmost_match(matcher.expression(), line@) {
            Some(t) => {
                &&& final(out)@.len() == old(out)@.len() + 1
                &&& final(out)@.take(old(out)@.len() as int) == old(out)@
                &&& final(out)@.last().reports(file@, report_line_numbers, (number as nat, t))
            },
            None => final(out)@ == old(out)@,
        },
{
    match matcher.find_chars(line) {
        Some(t) => {
            let line_number = if report_line_numbers { Some(number) } else { None };
            out.push(MatchResult { file: file.to_owned(), line_number, matched_text: t });
            assert(out@.take(old(out)@.len() as int) =~= old(out)@);
        },
        None => {},
    }
}

/// Scans the text of one file: every line that the matcher finds a match in
/// gives one report, in line order, carrying `file`, the matched text and,
/// when `report_line_numbers` holds, the 1-based line number.
pub fn match_in_file(file: &str, contents: &str, matcher: &Matcher, report_line_numbers: bool) -> (r: Vec<MatchResult>)
    ensures
        reports_all(r@, file@, report_line_numbers, numbered_matches(matcher.expression(), lines_of(contents@))),
{
    let ghost expr = matcher.expression();
    let cs = chars_of(contents);
    let mut out: Vec<MatchResult> = Vec::new();
    let mut cur: Vec<char> = Vec::new();
    let ghost mut done: Seq<Seq<char>> = Seq::empty();
    let mut count: usize = 0;
    let mut i: usize = 0;
    assert(cs@.take(0) =~= Seq::<char>::empty());
    while i < cs.len()
        invariant
            cs@ == contents@,
            expr == matcher.expression(),
            0 <= i <= cs.len(),
            split_nl(cs@.take(i as int)) == done.push(cur@),
            count == done.len(),
            count + cur@.len() <= i,
            reports_all(out@, file@, report_line_numbers, numbered_matches(expr, stripped_lines(done))),
        decreases cs.len() - i,
    {
        let c = cs[i];
        assert(cs@.take(i + 1).drop_last() =~= cs@.take(i as int));
        if c == '\n' {
            let ghost raw = cur@;
            let ghost old_out = out@;
            strip_carriage_return(&mut cur);
            consider_line(&mut out, file, matcher, &cur, count + 1, report_line_numbers);
            proof {
                lemma_push_line(out@, old_out, file@, report_line_numbers, expr, done, raw);
            }
            proof {
                done = done.push(raw);
            }
            count = count + 1;
            cur = Vec::new();
            assert(split_nl(cs@.take(i + 1)) =~= done.push(cur@));
        } else {
            cur.push(c);
            assert(split_nl(cs@.take(i + 1)) =~= done.push(cur@));
        }
        i = i + 1;
    }
    assert(cs@.take(i as int) =~= contents@);
    if cur.len() > 0 {
        let ghost raw = cur@;
        let ghost old_out = out@;
        strip_carriage_return(&mut cur);
        consider_line(&mut out, file, matcher, &cur, count + 1, report_line_numbers);
        proof {
            lemma_push_line(out@, old_out, file@, report_line_numbers, expr, done, raw);
        }
    } else {
        assert(done.push(cur@).drop_last() =~= done);
    }
    out
}

/// A text of one line is searched as that line alone: it gives one report
/// exactly when the expression matches in the line, with the text of that
/// match and the line number 1, whatever the context counts.
pub proof fn lemma_single_line(expr: Seq<char>, line: Seq<char>)
    requires
        line.len() > 0,
        !line.contains('\n'),
    ensures
        lines_of(line) == seq![strip_cr(line)],
        numbered_matches(expr, lines_of(line)) == match leftmost_match(expr, strip_cr(line)) {
            Some(t) => seq![(1nat, t)],
            None => Seq::empty(),
        },
{
    lemma_split_nl_no_break(line);
    let lines = lines_of(line);
    assert(lines =~= seq![strip_cr(line)]);
    assert(lines.drop_last() =~= Seq::<Seq<char>>::empty());
    assert(numbered_matches(expr, Seq::<Seq<char>>::empty()) =~= Seq::<(nat, Seq<char>)>::empty());
    match leftmost_match(expr, strip_cr(line)) {
        Some(t) => {
            assert(numbered_matches(expr, lines) =~= seq![(1nat, t)]);
        },
        None => {},
    }
}

/// Searching the same text twice gives the same reports, in the same order:
/// the reports are determined by the file's path and text, the expression,
/// and whether line numbers are asked for.
pub proof fn lemma_search_repeats(
    first: Seq<MatchResult>,
    second: Seq<MatchResult>,
    file: Seq<char>,
    expr: Seq<char>,
    contents: Seq<char>,
    report_line_numbers: bool,
)
    requires
        reports_all(first, file, report_line_numbers, numbered_matches(expr, lines_of(contents))),
        reports_all(second, file, report_line_numbers, numbered_matches(expr, lines_of(contents))),
    ensures
        first.len() == second.len(),
        forall|k: int| 0 <= k < first.len() ==> (#[trigger] first[k]).same_as(second[k]),
{
    let ms = numbered_matches(expr, lines_of(contents));
    assert forall|k: int| 0 <= k < first.len() implies (#[trigger] first[k]).same_as(second[k]) by {
        assert(first[k].reports(file, report_line_numbers, ms[k]));
        assert(second[k].reports(file, report_line_numbers, ms[k]));
    }
}

} // verus!
