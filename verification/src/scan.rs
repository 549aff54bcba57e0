//! The greedy forward scan for non-overlapping occurrences of a query
//! inside one line.
//!
//! After an occurrence starting at `s` of length `L`, scanning resumes
//! at `s + L`, not `s + 1`: occurrences never overlap, by policy.

use vstd::prelude::*;

verus! {

/// The query occurs in `line` starting at index `i`.
pub open spec fn is_match_at(line: Seq<char>, q: Seq<char>, i: int) -> bool {
    &&& 0 <= i
    &&& i + q.len() <= line.len()
    &&& line.subrange(i, i + q.len()) == q
}

/// The query occurs somewhere in `line`.
pub open spec fn line_contains(line: Seq<char>, q: Seq<char>) -> bool {
    exists|i: int| is_match_at(line, q, i)
}

/// The start offsets found by the greedy forward scan from `from` on:
/// the leftmost occurrence at or after `from`, then the leftmost
/// occurrence at or after its end, and so on.
pub open spec fn scan_starts(line: Seq<char>, q: Seq<char>, from: int) -> Seq<int>
    decreases line.len() - from,
{
    if q.len() == 0 || from < 0 || from + q.len() > line.len() {
        Seq::empty()
    } else if is_match_at(line, q, from) {
        seq![from] + scan_starts(line, q, from + q.len() as int)
    } else {
        scan_starts(line, q, from + 1)
    }
}

/// The scan finds something at or after `from` iff an occurrence
/// starts at or after `from`.
pub proof fn lemma_scan_complete(line: Seq<char>, q: Seq<char>, from: int)
    requires
        q.len() > 0,
        from >= 0,
    ensures
        scan_starts(line, q, from).len() > 0 <==> exists|i: int|
            from <= i && is_match_at(line, q, i),
    decreases line.len() - from,
{
    if from + q.len() > line.len() {
        assert(forall|i: int| from <= i ==> !is_match_at(line, q, i));
    } else if is_match_at(line, q, from) {
    } else {
        lemma_scan_complete(line, q, from + 1);
        if exists|i: int| from <= i && is_match_at(line, q, i) {
            let i = choose|i: int| from <= i && is_match_at(line, q, i);
            assert(i != from);
            assert(from + 1 <= i && is_match_at(line, q, i));
        }
    }
}

/// Every offset the scan yields is a real occurrence, the offsets come
/// strictly left to right, and consecutive occurrences do not overlap.
pub proof fn lemma_scan_sound(line: Seq<char>, q: Seq<char>, from: int)
    requires
        q.len() > 0,
    ensures
        forall|k: int| 0 <= k < scan_starts(line, q, from).len() ==> is_match_at(
            line,
            q,
            #[trigger] scan_starts(line, q, from)[k],
        ),
        forall|k: int| 0 <= k < scan_starts(line, q, from).len() ==> from <= #[trigger] scan_starts(
            line,
            q,
            from,
        )[k],
        forall|k: int| 0 <= k < scan_starts(line, q, from).len() - 1 ==> #[trigger] scan_starts(
            line,
            q,
            from,
        )[k] + q.len() <= scan_starts(line, q, from)[k + 1],
    decreases line.len() - from,
{
    if q.len() == 0 || from < 0 || from + q.len() > line.len() {
    } else if is_match_at(line, q, from) {
        lemma_scan_sound(line, q, from + q.len() as int);
        let tail = scan_starts(line, q, from + q.len() as int);
        let whole = scan_starts(line, q, from);
        assert(whole == seq![from] + tail);
        assert forall|k: int| 0 <= k < whole.len() implies from <= #[trigger] whole[k] by {
            if k > 0 {
                assert(whole[k] == tail[k - 1]);
                assert(from + q.len() <= tail[k - 1]);
            }
        }
        assert forall|k: int| 0 <= k < whole.len() implies is_match_at(
            line,
            q,
            #[trigger] whole[k],
        ) by {
            if k > 0 {
                assert(whole[k] == tail[k - 1]);
            }
        }
        assert forall|k: int| 0 <= k < whole.len() - 1 implies #[trigger] whole[k] + q.len()
            <= whole[k + 1] by {
            if k == 0 {
                if tail.len() > 0 {
                    assert(tail[0] >= from + q.len());
                    assert(whole[1] == tail[0]);
                }
            } else {
                assert(whole[k] == tail[k - 1]);
                assert(whole[k + 1] == tail[k]);
            }
        }
    } else {
        lemma_scan_sound(line, q, from + 1);
        let whole = scan_starts(line, q, from);
        assert(whole == scan_starts(line, q, from + 1));
        assert forall|k: int| 0 <= k < whole.len() implies from <= #[trigger] whole[k] by {
            assert(from + 1 <= scan_starts(line, q, from + 1)[k]);
        }
    }
}

/// Does the query occur in `line` starting exactly at `from`?
pub fn matches_at(line: &Vec<char>, q: &Vec<char>, from: usize) -> (r: bool)
    requires
        from + q@.len() <= line@.len(),
    ensures
        r == is_match_at(line@, q@, from as int),
{
    let n = line.len();
    let mut k: usize = 0;
    while k < q.len()
        invariant
            n == line@.len(),
            from + q@.len() <= line@.len(),
            k <= q@.len(),
            forall|j: int| 0 <= j < k ==> line@[from + j] == q@[j],
        decreases q@.len() - k,
    {
        if line[from + k] != q[k] {
            proof {
                assert(line@.subrange(from as int, from + q@.len())[k as int] != q@[k as int]);
            }
            return false;
        }
        k += 1;
    }
    proof {
        assert(line@.subrange(from as int, from + q@.len()) =~= q@);
    }
    true
}

/// The greedy forward scan over one comparison key: all start offsets
/// of the non-overlapping occurrences of `q`, left to right.
pub fn scan_line(line: &Vec<char>, q: &Vec<char>) -> (starts: Vec<usize>)
    requires
        q@.len() >= 1,
    ensures
        starts@.map_values(|u: usize| u as int) == scan_starts(line@, q@, 0),
{
    let mut starts: Vec<usize> = Vec::new();
    let mut from: usize = 0;
    let n = line.len();
    let qlen = q.len();
    proof {
        assert(Seq::<usize>::empty().map_values(|u: usize| u as int) =~= Seq::<int>::empty());
    }
    if n < qlen {
        proof {
            assert(scan_starts(line@, q@, 0) =~= Seq::<int>::empty());
        }
        return starts;
    }
    while from <= n - qlen
        invariant
            n == line@.len(),
            qlen == q@.len(),
            1 <= qlen <= n,
            starts@.map_values(|u: usize| u as int) + scan_starts(line@, q@, from as int)
                =~= scan_starts(line@, q@, 0),
        decreases line@.len() - from,
    {
        if matches_at(line, q, from) {
            proof {
                assert((starts@ + seq![from]).map_values(|u: usize| u as int) =~= starts@
                    .map_values(|u: usize| u as int).push(from as int));
            }
            starts.push(from);
            from += q.len();
        } else {
            from += 1;
        }
    }
    proof {
        assert(scan_starts(line@, q@, from as int) =~= Seq::<int>::empty());
        assert(starts@.map_values(|u: usize| u as int) =~= scan_starts(line@, q@, 0));
    }
    starts
}

} // verus!
