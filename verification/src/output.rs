//! The user-facing search function and the presentation of its
//! results: each matching line with its spans emphasized, optionally
//! prefixed by its line number.

use vstd::prelude::*;

use crate::engine::Span;
use crate::engine::find_matches;
use crate::engine::rec_views;
use crate::engine::spec_find_matches;
use crate::engine::spec_records;
use crate::engine::spec_spans;
use crate::engine::spec_line_matches;
use crate::fold::key_of;
use crate::fold::lemma_key_len;
use crate::lines::spec_lines;
use crate::numfmt::dec_str;
use crate::numfmt::lemma_dec_str_no_esc;
use crate::numfmt::u32_to_string;
use crate::render::highlight_line;
use crate::render::paint_blue;
use crate::render::rendered;
use crate::render::span_cursor;
use crate::render::spans_ok;
use crate::render::wrap_blue;
use crate::scan::is_match_at;
use crate::scan::lemma_scan_sound;
use crate::scan::scan_starts;

verus! {

/// One line of search output: the 1-based line number and the line's
/// display text, with the matched spans emphasized.
#[derive(Debug)]
pub struct SearchResult {
    pub line_number: u32,
    pub line_text: String,
}

impl PartialEq for SearchResult {
    fn eq(&self, other: &Self) -> (r: bool) {
        self.line_number == other.line_number && self.line_text == other.line_text
    }
}

impl vstd::std_specs::cmp::PartialEqSpecImpl for SearchResult {
    open spec fn obeys_eq_spec() -> bool {
        true
    }

    open spec fn eq_spec(&self, other: &Self) -> bool {
        self.line_number == other.line_number && self.line_text@ == other.line_text@
    }
}

/// In every record the spans are the spans of its own text.
pub proof fn lemma_records_shape(lines: Seq<Seq<char>>, q: Seq<char>, ignore_case: bool, base: int)
    ensures
        forall|k: int| 0 <= k < spec_records(lines, q, ignore_case, base).len()
            ==> (#[trigger] spec_records(lines, q, ignore_case, base)[k]).2 == spec_spans(
            spec_records(lines, q, ignore_case, base)[k].1,
            q,
            ignore_case,
        ),
    decreases lines.len(),
{
    if lines.len() == 0 {
    } else {
        lemma_records_shape(lines.drop_first(), q, ignore_case, base + 1);
        let rest = spec_records(lines.drop_first(), q, ignore_case, base + 1);
        let recs = spec_records(lines, q, ignore_case, base);
        assert forall|k: int| 0 <= k < recs.len() implies (#[trigger] recs[k]).2 == spec_spans(
            recs[k].1,
            q,
            ignore_case,
        ) by {
            if spec_line_matches(lines[0], q, ignore_case) {
                if k > 0 {
                    assert(recs[k] == rest[k - 1]);
                }
            } else {
                assert(recs[k] == rest[k]);
            }
        }
    }
}

/// The spans of a query in a line are well formed for that line.
pub proof fn lemma_spec_spans_wf(line: Seq<char>, q: Seq<char>, ignore_case: bool)
    ensures
        spans_ok(spec_spans(line, q, ignore_case), line.len() as int),
{
    let lk = key_of(line, ignore_case);
    let qk = key_of(q, ignore_case);
    lemma_key_len(line, ignore_case);
    lemma_key_len(q, ignore_case);
    let spans = spec_spans(line, q, ignore_case);
    let starts = scan_starts(lk, qk, 0);
    if q.len() == 0 {
        assert(starts =~= Seq::<int>::empty());
        assert(spans.len() == 0);
    } else {
        lemma_scan_sound(lk, qk, 0);
        assert forall|k: int| 0 <= k < spans.len() implies span_cursor(spans, k)
            <= (#[trigger] spans[k]).0 && spans[k].0 <= spans[k].1 && spans[k].1
            <= line.len() by {
            assert(spans[k] == (starts[k], starts[k] + q.len()));
            assert(is_match_at(lk, qk, starts[k]));
            if k > 0 {
                assert(spans[k - 1] == (starts[k - 1], starts[k - 1] + q.len()));
                assert(starts[k - 1] + qk.len() <= starts[k]);
            }
        }
    }
}

/// Searches the document for the query and builds the display text of
/// each matching line.
///
/// The records — which lines match, their numbers, their spans — are
/// exactly those of the match engine; each display text is a rendering
/// of its line with those spans.
pub fn search(query: &str, contents: &str, ignore_case: bool) -> (results: Vec<SearchResult>)
    requires
        contents@.len() < u32::MAX,
    ensures
        results@.len() == spec_find_matches(query@, contents@, ignore_case).len(),
        forall|i: int| 0 <= i < results@.len() ==> (#[trigger] results@[i]).line_number as int
            == spec_find_matches(query@, contents@, ignore_case)[i].0 && rendered(
            results@[i].line_text@,
            spec_find_matches(query@, contents@, ignore_case)[i].1,
            spec_find_matches(query@, contents@, ignore_case)[i].2,
        ),
{
    let records = find_matches(query, contents, ignore_case);
    let ghost recs = spec_find_matches(query@, contents@, ignore_case);
    let mut results: Vec<SearchResult> = Vec::new();
    let mut i: usize = 0;
    while i < records.len()
        invariant
            rec_views(records@) == recs,
            recs == spec_find_matches(query@, contents@, ignore_case),
            i <= records@.len(),
            results@.len() == i,
            forall|j: int| 0 <= j < i ==> (#[trigger] results@[j]).line_number as int == recs[j].0
                && rendered(results@[j].line_text@, recs[j].1, recs[j].2),
        decreases records@.len() - i,
    {
        let r = &records[i];
        proof {
            assert(rec_views(records@)[i as int] == records@[i as int]@);
            assert(records@[i as int]@ == recs[i as int]);
            lemma_records_shape(spec_lines(contents@), query@, ignore_case, 1);
            assert(recs[i as int].2 == spec_spans(recs[i as int].1, query@, ignore_case));
            lemma_spec_spans_wf(recs[i as int].1, query@, ignore_case);
            assert(r.original_text@ == recs[i as int].1);
            assert(r.match_spans@.map_values(|s: Span| s@) == recs[i as int].2);
        }
        let text = highlight_line(r.original_text.as_str(), &r.match_spans);
        let sr = SearchResult { line_number: r.line_number, line_text: text };
        results.push(sr);
        i += 1;
    }
    results
}

/// The display form of one search result: the line's display text,
/// prefixed — when asked for — by the emphasized line number, a colon
/// and a space.
pub fn format_result(result: &SearchResult, line_number: bool) -> (out: String)
    ensures
        !line_number ==> out@ == result.line_text@,
        line_number ==> out@ == dec_str(result.line_number as int) + ": "@ + result.line_text@
            || out@ == wrap_blue(dec_str(result.line_number as int)) + ": "@ + result.line_text@,
{
    if line_number {
        let num = u32_to_string(result.line_number);
        proof {
            lemma_dec_str_no_esc(result.line_number as int);
        }
        let mut out = paint_blue(num.as_str());
        out.append(": ");
        out.append(result.line_text.as_str());
        proof {
            if out@ != dec_str(result.line_number as int) + ": "@ + result.line_text@ {
                assert(out@ =~= wrap_blue(dec_str(result.line_number as int)) + ": "@
                    + result.line_text@);
            }
        }
        out
    } else {
        result.line_text.clone()
    }
}

} // verus!
