//! The engine's guarantees, stated and proved once over the
//! specification functions that the executable contracts use.

use vstd::prelude::*;

use crate::engine::MatchRecord;
use crate::engine::rec_views;
use crate::engine::spec_find_matches;
use crate::engine::spec_line_matches;
use crate::engine::spec_records;
use crate::engine::spec_spans;
use crate::fold::fold_seq;
use crate::fold::key_of;
use crate::fold::lemma_fold_subrange;
use crate::fold::lemma_key_len;
use crate::scan::is_match_at;
use crate::scan::lemma_scan_sound;
use crate::scan::line_contains;
use crate::scan::scan_starts;

verus! {

/// Any two offsets the scan yields, in order, leave the full length of
/// the query between them.
proof fn lemma_starts_gap(line: Seq<char>, q: Seq<char>, from: int, a: int, b: int)
    requires
        q.len() > 0,
        0 <= a < b < scan_starts(line, q, from).len(),
    ensures
        scan_starts(line, q, from)[a] + q.len() <= scan_starts(line, q, from)[b],
    decreases b - a,
{
    lemma_scan_sound(line, q, from);
    if b == a + 1 {
    } else {
        lemma_starts_gap(line, q, from, a, b - 1);
    }
}

/// Non-overlap: within one record, each span ends at or before the
/// next begins, and every span is non-empty — so no character index of
/// the line lies in two spans. Each span is exactly as long as the
/// query, since folding preserves lengths.
pub proof fn lemma_non_overlap(line: Seq<char>, q: Seq<char>, ignore_case: bool)
    requires
        q.len() >= 1,
    ensures
        forall|a: int, b: int|
            0 <= a < b < spec_spans(line, q, ignore_case).len() ==> (#[trigger] spec_spans(
                line,
                q,
                ignore_case,
            )[a]).1 <= (#[trigger] spec_spans(line, q, ignore_case)[b]).0,
        forall|a: int| 0 <= a < spec_spans(line, q, ignore_case).len() ==> (#[trigger] spec_spans(
            line,
            q,
            ignore_case,
        )[a]).0 < spec_spans(line, q, ignore_case)[a].1,
        forall|a: int| 0 <= a < spec_spans(line, q, ignore_case).len() ==> (#[trigger] spec_spans(
            line,
            q,
            ignore_case,
        )[a]).1 - spec_spans(line, q, ignore_case)[a].0 == q.len(),
{
    let lk = key_of(line, ignore_case);
    let qk = key_of(q, ignore_case);
    lemma_key_len(q, ignore_case);
    let starts = scan_starts(lk, qk, 0);
    let spans = spec_spans(line, q, ignore_case);
    assert forall|a: int, b: int| 0 <= a < b < spans.len() implies (#[trigger] spans[a]).1
        <= (#[trigger] spans[b]).0 by {
        lemma_starts_gap(lk, qk, 0, a, b);
        assert(spans[a] == (starts[a], starts[a] + q.len()));
        assert(spans[b] == (starts[b], starts[b] + q.len()));
    }
    assert forall|a: int| 0 <= a < spans.len() implies (#[trigger] spans[a]).0 < spans[a].1
        && spans[a].1 - spans[a].0 == q.len() by {
        assert(spans[a] == (starts[a], starts[a] + q.len()));
    }
}

/// Every record's line number lies in `[base, base + lines.len())`,
/// and the numbers strictly increase.
proof fn lemma_records_ordered(lines: Seq<Seq<char>>, q: Seq<char>, ignore_case: bool, base: int)
    ensures
        forall|k: int| 0 <= k < spec_records(lines, q, ignore_case, base).len()
            ==> base <= (#[trigger] spec_records(lines, q, ignore_case, base)[k]).0 < base
            + lines.len(),
        forall|a: int, b: int|
            0 <= a < b < spec_records(lines, q, ignore_case, base).len() ==> (
            #[trigger] spec_records(lines, q, ignore_case, base)[a]).0 < (
            #[trigger] spec_records(lines, q, ignore_case, base)[b]).0,
    decreases lines.len(),
{
    if lines.len() == 0 {
    } else {
        lemma_records_ordered(lines.drop_first(), q, ignore_case, base + 1);
        let rest = spec_records(lines.drop_first(), q, ignore_case, base + 1);
        let recs = spec_records(lines, q, ignore_case, base);
        assert forall|k: int| 0 <= k < recs.len() implies base <= (#[trigger] recs[k]).0 < base
            + lines.len() by {
            if spec_line_matches(lines[0], q, ignore_case) {
                if k > 0 {
                    assert(recs[k] == rest[k - 1]);
                }
            } else {
                assert(recs[k] == rest[k]);
            }
        }
        assert forall|a: int, b: int| 0 <= a < b < recs.len() implies (#[trigger] recs[a]).0 < (
        #[trigger] recs[b]).0 by {
            if spec_line_matches(lines[0], q, ignore_case) {
                if a > 0 {
                    assert(recs[a] == rest[a - 1]);
                }
                assert(recs[b] == rest[b - 1]);
            } else {
                assert(recs[a] == rest[a]);
                assert(recs[b] == rest[b]);
            }
        }
    }
}

/// Order: match records come in strictly increasing line-number order.
/// (Within one record the spans come in strictly increasing start
/// order: see `lemma_non_overlap`.)
pub proof fn lemma_match_order(q: Seq<char>, doc: Seq<char>, ignore_case: bool)
    ensures
        forall|a: int, b: int|
            0 <= a < b < spec_find_matches(q, doc, ignore_case).len() ==> (
            #[trigger] spec_find_matches(q, doc, ignore_case)[a]).0 < (
            #[trigger] spec_find_matches(q, doc, ignore_case)[b]).0,
        forall|k: int| 0 <= k < spec_find_matches(q, doc, ignore_case).len()
            ==> 1 <= (#[trigger] spec_find_matches(q, doc, ignore_case)[k]).0,
{
    lemma_records_ordered(crate::lines::spec_lines(doc), q, ignore_case, 1);
}

/// Case-fold consistency: a line matches case-insensitively iff some
/// substring of it equals the query up to folding, which in turn holds
/// iff the folded line contains the folded query.
pub proof fn lemma_case_fold_consistency(line: Seq<char>, q: Seq<char>)
    ensures
        spec_line_matches(line, q, true) <==> exists|i: int|
            0 <= i && i + q.len() <= line.len() && #[trigger] fold_seq(
                line.subrange(i, i + q.len()),
            ) == fold_seq(q),
        spec_line_matches(line, q, true) <==> line_contains(fold_seq(line), fold_seq(q)),
{
    let fl = fold_seq(line);
    let fq = fold_seq(q);
    if q.len() == 0 {
        assert(fq.len() == 0);
        assert(fl.subrange(0, 0) =~= fq);
        assert(is_match_at(fl, fq, 0));
        assert(line.subrange(0, 0) =~= Seq::<char>::empty());
        assert(fold_seq(line.subrange(0, 0)) =~= fq);
        assert(0 <= 0 && 0 + q.len() <= line.len() && fold_seq(
            line.subrange(0, q.len() as int),
        ) == fold_seq(q));
    } else {
        if line_contains(fl, fq) {
            let i = choose|i: int| is_match_at(fl, fq, i);
            lemma_fold_subrange(line, i, i + q.len());
            assert(fold_seq(line.subrange(i, i + q.len())) == fq);
        }
        if exists|i: int|
            0 <= i && i + q.len() <= line.len() && #[trigger] fold_seq(
                line.subrange(i, i + q.len()),
            ) == fold_seq(q) {
            let i = choose|i: int|
                0 <= i && i + q.len() <= line.len() && #[trigger] fold_seq(
                    line.subrange(i, i + q.len()),
                ) == fold_seq(q);
            lemma_fold_subrange(line, i, i + q.len());
            assert(fl.subrange(i, i + q.len()) == fq);
            assert(is_match_at(fl, fq, i));
        }
    }
}

/// The engine finds nothing iff no line matches.
proof fn lemma_records_empty_iff(lines: Seq<Seq<char>>, q: Seq<char>, ignore_case: bool, base: int)
    ensures
        spec_records(lines, q, ignore_case, base).len() == 0 <==> forall|k: int|
            0 <= k < lines.len() ==> !spec_line_matches(#[trigger] lines[k], q, ignore_case),
    decreases lines.len(),
{
    if lines.len() == 0 {
    } else {
        lemma_records_empty_iff(lines.drop_first(), q, ignore_case, base + 1);
        assert(forall|k: int| 0 <= k < lines.drop_first().len() ==> lines.drop_first()[k]
            == lines[k + 1]);
        if spec_records(lines, q, ignore_case, base).len() == 0 {
            assert(!spec_line_matches(lines[0], q, ignore_case));
            assert forall|k: int| 0 <= k < lines.len() implies !spec_line_matches(
                #[trigger] lines[k],
                q,
                ignore_case,
            ) by {
                if k > 0 {
                    assert(lines[k] == lines.drop_first()[k - 1]);
                }
            }
        }
    }
}

/// An empty result means no line contains the query, and the other
/// way round.
pub proof fn lemma_empty_iff_no_match(q: Seq<char>, doc: Seq<char>, ignore_case: bool)
    ensures
        spec_find_matches(q, doc, ignore_case).len() == 0 <==> forall|k: int|
            0 <= k < crate::lines::spec_lines(doc).len() ==> !spec_line_matches(
                #[trigger] crate::lines::spec_lines(doc)[k],
                q,
                ignore_case,
            ),
{
    lemma_records_empty_iff(crate::lines::spec_lines(doc), q, ignore_case, 1);
}

/// The empty query matches every line, with no spans at all.
proof fn lemma_records_empty_query(lines: Seq<Seq<char>>, ignore_case: bool, base: int)
    ensures
        spec_records(lines, Seq::empty(), ignore_case, base).len() == lines.len(),
        forall|k: int| 0 <= k < lines.len() ==> #[trigger] spec_records(
            lines,
            Seq::empty(),
            ignore_case,
            base,
        )[k] == (base + k, lines[k], Seq::<(int, int)>::empty()),
    decreases lines.len(),
{
    if lines.len() == 0 {
    } else {
        lemma_records_empty_query(lines.drop_first(), ignore_case, base + 1);
        let rest = spec_records(lines.drop_first(), Seq::empty(), ignore_case, base + 1);
        let recs = spec_records(lines, Seq::empty(), ignore_case, base);
        assert(spec_spans(lines[0], Seq::empty(), ignore_case) =~= Seq::<(int, int)>::empty());
        assert forall|k: int| 0 <= k < lines.len() implies #[trigger] recs[k] == (
            base + k,
            lines[k],
            Seq::<(int, int)>::empty(),
        ) by {
            if k > 0 {
                assert(recs[k] == rest[k - 1]);
                assert(lines.drop_first()[k - 1] == lines[k]);
            }
        }
    }
}

/// Empty-pattern policy: against the empty query the engine emits one
/// record per line of the document, in order, each with the line's
/// text and no spans.
pub proof fn lemma_empty_pattern_policy(doc: Seq<char>, ignore_case: bool)
    ensures
        spec_find_matches(Seq::empty(), doc, ignore_case).len() == crate::lines::spec_lines(
            doc,
        ).len(),
        forall|k: int| 0 <= k < crate::lines::spec_lines(doc).len() ==> #[trigger] spec_find_matches(
            Seq::empty(),
            doc,
            ignore_case,
        )[k] == (k + 1, crate::lines::spec_lines(doc)[k], Seq::<(int, int)>::empty()),
{
    lemma_records_empty_query(crate::lines::spec_lines(doc), ignore_case, 1);
}

/// Idempotence of re-scan: the engine's records are a function of the
/// query, the document and the case policy alone, so two runs on
/// identical inputs yield identical records.
pub proof fn lemma_rescan_identical(
    r1: Seq<MatchRecord>,
    r2: Seq<MatchRecord>,
    q: Seq<char>,
    doc: Seq<char>,
    ignore_case: bool,
)
    requires
        rec_views(r1) == spec_find_matches(q, doc, ignore_case),
        rec_views(r2) == spec_find_matches(q, doc, ignore_case),
    ensures
        rec_views(r1) == rec_views(r2),
{
}

} // verus!
