//! The match engine: given a query and a document, the ordered
//! sequence of matching lines with their match spans.
//!
//! The engine is a pure transformation: its whole result is pinned to
//! a specification function of the query, the document and the case
//! policy, so scanning the same inputs twice yields the same records.

use vstd::prelude::*;

use crate::fold::key_of;
use crate::lines::lemma_lines_count;
use crate::lines::spec_lines;
use crate::lines::split_lines;
use crate::lines::chars_of;
use crate::fold::fold_chars;
use crate::scan::is_match_at;
use crate::scan::lemma_scan_complete;
use crate::scan::lemma_scan_sound;
use crate::scan::line_contains;
use crate::scan::scan_line;
use crate::scan::scan_starts;

verus! {

/// One match occurrence: the half-open character range
/// `[start, end)` within a line's original text.
#[derive(Clone, Copy, Debug, PartialEq, Eq, Structural)]
pub struct Span {
    pub start: usize,
    pub end: usize,
}

impl View for Span {
    type V = (int, int);

    open spec fn view(&self) -> (int, int) {
        (self.start as int, self.end as int)
    }
}

/// One matching line: its 1-based line number, its unmodified text,
/// and the ordered, non-overlapping spans of the query inside it.
#[derive(Debug)]
pub struct MatchRecord {
    pub line_number: u32,
    pub original_text: String,
    pub match_spans: Vec<Span>,
}

impl View for MatchRecord {
    type V = (int, Seq<char>, Seq<(int, int)>);

    open spec fn view(&self) -> (int, Seq<char>, Seq<(int, int)>) {
        (
            self.line_number as int,
            self.original_text@,
            self.match_spans@.map_values(|s: Span| s@),
        )
    }
}

/// The views of a sequence of records.
pub open spec fn rec_views(rs: Seq<MatchRecord>) -> Seq<(int, Seq<char>, Seq<(int, int)>)> {
    rs.map_values(|r: MatchRecord| r@)
}

/// The spans of the query in one line under the case policy: the
/// greedy non-overlapping occurrences of the comparison keys, each
/// paired with its end offset. Empty for the empty query.
pub open spec fn spec_spans(line: Seq<char>, q: Seq<char>, ignore_case: bool) -> Seq<(int, int)> {
    scan_starts(key_of(line, ignore_case), key_of(q, ignore_case), 0).map_values(
        |s: int| (s, s + q.len() as int),
    )
}

/// Does a line match? The empty query matches every line; otherwise
/// the line's comparison key must contain the query's.
pub open spec fn spec_line_matches(line: Seq<char>, q: Seq<char>, ignore_case: bool) -> bool {
    q.len() == 0 || line_contains(key_of(line, ignore_case), key_of(q, ignore_case))
}

/// The records for a sequence of lines whose first line has number
/// `base`: one record per matching line, in line order.
pub open spec fn spec_records(
    lines: Seq<Seq<char>>,
    q: Seq<char>,
    ignore_case: bool,
    base: int,
) -> Seq<(int, Seq<char>, Seq<(int, int)>)>
    decreases lines.len(),
{
    if lines.len() == 0 {
        Seq::empty()
    } else {
        let rest = spec_records(lines.drop_first(), q, ignore_case, base + 1);
        if spec_line_matches(lines[0], q, ignore_case) {
            seq![(base, lines[0], spec_spans(lines[0], q, ignore_case))] + rest
        } else {
            rest
        }
    }
}

/// The whole engine as a function of its inputs: the records of the
/// document's lines, numbered from 1.
pub open spec fn spec_find_matches(
    q: Seq<char>,
    doc: Seq<char>,
    ignore_case: bool,
) -> Seq<(int, Seq<char>, Seq<(int, int)>)> {
    spec_records(spec_lines(doc), q, ignore_case, 1)
}

/// Appending one line appends its record (if it matches) at line
/// number `base + lines.len()`.
proof fn lemma_records_snoc(
    lines: Seq<Seq<char>>,
    x: Seq<char>,
    q: Seq<char>,
    ignore_case: bool,
    base: int,
)
    ensures
        spec_records(lines.push(x), q, ignore_case, base) == spec_records(
            lines,
            q,
            ignore_case,
            base,
        ) + (if spec_line_matches(x, q, ignore_case) {
            seq![(base + lines.len(), x, spec_spans(x, q, ignore_case))]
        } else {
            Seq::empty()
        }),
    decreases lines.len(),
{
    let whole = lines.push(x);
    if lines.len() == 0 {
        assert(whole[0] == x);
        assert(whole.drop_first() =~= Seq::<Seq<char>>::empty());
        assert(spec_records(whole.drop_first(), q, ignore_case, base + 1) == Seq::<(
            int,
            Seq<char>,
            Seq<(int, int)>,
        )>::empty());
        assert(spec_records(lines, q, ignore_case, base) == Seq::<(
            int,
            Seq<char>,
            Seq<(int, int)>,
        )>::empty());
        assert(spec_records(whole, q, ignore_case, base) =~= spec_records(
            lines,
            q,
            ignore_case,
            base,
        ) + (if spec_line_matches(x, q, ignore_case) {
            seq![(base + lines.len(), x, spec_spans(x, q, ignore_case))]
        } else {
            Seq::<(int, Seq<char>, Seq<(int, int)>)>::empty()
        }));
    } else {
        assert(whole.drop_first() =~= lines.drop_first().push(x));
        assert(whole[0] == lines[0]);
        lemma_records_snoc(lines.drop_first(), x, q, ignore_case, base + 1);
        assert(spec_records(whole.drop_first(), q, ignore_case, base + 1) == spec_records(
            lines.drop_first(),
            q,
            ignore_case,
            base + 1,
        ) + (if spec_line_matches(x, q, ignore_case) {
            seq![(base + 1 + lines.drop_first().len(), x, spec_spans(x, q, ignore_case))]
        } else {
            Seq::<(int, Seq<char>, Seq<(int, int)>)>::empty()
        }));
        assert(spec_records(whole, q, ignore_case, base) =~= spec_records(
            lines,
            q,
            ignore_case,
            base,
        ) + (if spec_line_matches(x, q, ignore_case) {
            seq![(base + lines.len(), x, spec_spans(x, q, ignore_case))]
        } else {
            Seq::<(int, Seq<char>, Seq<(int, int)>)>::empty()
        }));
    }
}

/// Turns the scanned start offsets into spans of the query's length.
fn spans_of_starts(starts: &Vec<usize>, qlen: usize, bound: usize) -> (spans: Vec<Span>)
    requires
        forall|k: int| 0 <= k < starts@.len() ==> #[trigger] starts@[k] + qlen <= bound,
    ensures
        spans@.len() == starts@.len(),
        forall|k: int| 0 <= k < spans@.len() ==> (#[trigger] spans@[k]).start == starts@[k]
            && spans@[k].end == starts@[k] + qlen,
{
    let mut spans: Vec<Span> = Vec::new();
    let mut k: usize = 0;
    while k < starts.len()
        invariant
            forall|j: int| 0 <= j < starts@.len() ==> #[trigger] starts@[j] + qlen <= bound,
            k <= starts@.len(),
            spans@.len() == k,
            forall|j: int| 0 <= j < k ==> (#[trigger] spans@[j]).start == starts@[j]
                && spans@[j].end == starts@[j] + qlen,
        decreases starts@.len() - k,
    {
        let st = starts[k];
        spans.push(Span { start: st, end: st + qlen });
        k += 1;
    }
    spans
}

/// The match engine. Scans the document's lines in order and returns
/// one record per matching line, under the active case policy.
///
/// The result is exactly `spec_find_matches` of the inputs: the same
/// query and document always give the same records.
pub fn find_matches(query: &str, contents: &str, ignore_case: bool) -> (results: Vec<MatchRecord>)
    requires
        contents@.len() < u32::MAX,
    ensures
        rec_views(results@) == spec_find_matches(query@, contents@, ignore_case),
{
    let q_chars = chars_of(query);
    let q_key = if ignore_case {
        fold_chars(&q_chars)
    } else {
        q_chars
    };
    let qlen = q_key.len();
    let lines = split_lines(contents);
    proof {
        lemma_lines_count(contents@);
    }
    let ghost line_views = lines@.map_values(|l: &str| l@);
    let mut results: Vec<MatchRecord> = Vec::new();
    let mut idx: usize = 0;
    proof {
        assert(line_views.subrange(0, 0) =~= Seq::<Seq<char>>::empty());
        assert(rec_views(Seq::<MatchRecord>::empty()) =~= spec_records(
            line_views.subrange(0, 0),
            query@,
            ignore_case,
            1,
        ));
    }
    while idx < lines.len()
        invariant
            q_key@ == key_of(query@, ignore_case),
            qlen == query@.len(),
            line_views == lines@.map_values(|l: &str| l@),
            line_views == spec_lines(contents@),
            line_views.len() <= contents@.len() < u32::MAX,
            idx <= lines@.len(),
            rec_views(results@) =~= spec_records(
                line_views.subrange(0, idx as int),
                query@,
                ignore_case,
                1,
            ),
        decreases lines@.len() - idx,
    {
        let line = lines[idx];
        let ghost lv = line_views[idx as int];
        proof {
            assert(lv == line@);
        }
        let mut matched = false;
        let mut spans: Vec<Span> = Vec::new();
        if qlen == 0 {
            matched = true;
            proof {
                assert(spec_spans(lv, query@, ignore_case) =~= Seq::<(int, int)>::empty());
                assert(spans@.map_values(|s: Span| s@) =~= spec_spans(lv, query@, ignore_case));
            }
        } else {
            let l_chars = chars_of(line);
            let l_key = if ignore_case {
                fold_chars(&l_chars)
            } else {
                l_chars
            };
            let starts = scan_line(&l_key, &q_key);
            proof {
                lemma_scan_complete(l_key@, q_key@, 0);
                lemma_scan_sound(l_key@, q_key@, 0);
                assert forall|k: int| 0 <= k < starts@.len() implies #[trigger] starts@[k] + qlen
                    <= l_key@.len() by {
                    assert(starts@.map_values(|u: usize| u as int)[k] == scan_starts(
                        l_key@,
                        q_key@,
                        0,
                    )[k]);
                    assert(is_match_at(l_key@, q_key@, scan_starts(l_key@, q_key@, 0)[k]));
                }
            }
            if starts.len() > 0 {
                matched = true;
                spans = spans_of_starts(&starts, qlen, l_key.len());
                proof {
                    assert forall|j: int| 0 <= j < spans@.len() implies spans@.map_values(
                        |s: Span| s@,
                    )[j] == spec_spans(lv, query@, ignore_case)[j] by {
                        assert(starts@.map_values(|u: usize| u as int)[j] == starts@[j] as int);
                        assert(scan_starts(l_key@, q_key@, 0)[j] == starts@[j] as int);
                    }
                    assert(spans@.map_values(|s: Span| s@) =~= spec_spans(
                        lv,
                        query@,
                        ignore_case,
                    ));
                }
            } else {
                proof {
                    assert(!spec_line_matches(lv, query@, ignore_case));
                }
            }
        }
        proof {
            lemma_records_snoc(
                line_views.subrange(0, idx as int),
                lv,
                query@,
                ignore_case,
                1,
            );
            assert(line_views.subrange(0, idx + 1) =~= line_views.subrange(0, idx as int).push(
                lv,
            ));
        }
        if matched {
            let record = MatchRecord {
                line_number: (idx + 1) as u32,
                original_text: line.to_owned(),
                match_spans: spans,
            };
            proof {
                assert(record@ == (
                    idx + 1 as int,
                    lv,
                    spec_spans(lv, query@, ignore_case),
                ));
                assert(rec_views(results@.push(record)) =~= rec_views(results@).push(record@));
            }
            results.push(record);
        }
        idx += 1;
    }
    proof {
        assert(line_views.subrange(0, lines@.len() as int) =~= line_views);
    }
    results
}

} // verus!
