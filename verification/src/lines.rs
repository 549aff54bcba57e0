//! The document model: the input text segmented into an ordered
//! sequence of lines.
//!
//! A line is a maximal run of characters containing no `'\n'`; a line
//! terminated by `"\r\n"` loses the `'\r'` as well. A trailing line
//! terminator does not open a final empty line, and the empty document
//! has no lines at all.

use vstd::prelude::*;

verus! {

/// The number of characters before the first `'\n'` of `s`
/// (the length of `s` when it has none).
pub open spec fn first_nl(s: Seq<char>) -> int
    decreases s.len(),
{
    if s.len() == 0 {
        0
    } else if s[0] == '\n' {
        0
    } else {
        1 + first_nl(s.drop_first())
    }
}

/// A line's content: the text before its terminator, with a final
/// `'\r'` (from a `"\r\n"` terminator) removed.
pub open spec fn strip_cr(l: Seq<char>) -> Seq<char> {
    if l.len() > 0 && l[l.len() - 1] == '\r' {
        l.drop_last()
    } else {
        l
    }
}

/// The ordered sequence of lines of a document.
pub open spec fn spec_lines(s: Seq<char>) -> Seq<Seq<char>>
    decreases s.len(),
    via spec_lines_decreases
{
    if s.len() == 0 {
        Seq::empty()
    } else {
        let n = first_nl(s);
        if n == s.len() {
            seq![strip_cr(s)]
        } else {
            seq![strip_cr(s.subrange(0, n))] + spec_lines(s.subrange(n + 1, s.len() as int))
        }
    }
}

#[via_fn]
proof fn spec_lines_decreases(s: Seq<char>) {
    lemma_first_nl_bounds(s);
}

/// `first_nl` stays within the sequence, the characters before it are
/// not `'\n'`, and the character at it (if any) is `'\n'`.
pub proof fn lemma_first_nl_bounds(s: Seq<char>)
    ensures
        0 <= first_nl(s) <= s.len(),
        forall|j: int| 0 <= j < first_nl(s) ==> s[j] != '\n',
        first_nl(s) < s.len() ==> s[first_nl(s)] == '\n',
    decreases s.len(),
{
    if s.len() == 0 {
    } else if s[0] == '\n' {
    } else {
        lemma_first_nl_bounds(s.drop_first());
        assert forall|j: int| 0 <= j < first_nl(s) implies s[j] != '\n' by {
            if j > 0 {
                assert(s[j] == s.drop_first()[j - 1]);
            }
        }
        if first_nl(s) < s.len() {
            assert(s[first_nl(s)] == s.drop_first()[first_nl(s) - 1]);
        }
    }
}

/// `first_nl` is the index `k` whenever everything before `k` is not a
/// `'\n'` and `k` is either a `'\n'` or the end of the sequence.
pub proof fn lemma_first_nl_is(s: Seq<char>, k: int)
    requires
        0 <= k <= s.len(),
        forall|j: int| 0 <= j < k ==> s[j] != '\n',
        k < s.len() ==> s[k] == '\n',
    ensures
        first_nl(s) == k,
    decreases s.len(),
{
    if s.len() == 0 {
    } else if s[0] == '\n' {
        assert(k == 0);
    } else {
        assert(k >= 1);
        assert forall|j: int| 0 <= j < k - 1 implies s.drop_first()[j] != '\n' by {
            assert(s.drop_first()[j] == s[j + 1]);
        }
        if k - 1 < s.drop_first().len() {
            assert(s.drop_first()[k - 1] == s[k]);
        }
        lemma_first_nl_is(s.drop_first(), k - 1);
    }
}

/// A document has no more lines than characters.
pub proof fn lemma_lines_count(s: Seq<char>)
    ensures
        spec_lines(s).len() <= s.len(),
    decreases s.len(),
{
    if s.len() == 0 {
    } else {
        lemma_first_nl_bounds(s);
        let n = first_nl(s);
        if n == s.len() {
        } else {
            lemma_lines_count(s.subrange(n + 1, s.len() as int));
        }
    }
}

/// The characters of a string, as a vector.
pub fn chars_of(s: &str) -> (r: Vec<char>)
    ensures
        r@ == s@,
{
    let n = s.unicode_len();
    let mut r: Vec<char> = Vec::new();
    let mut i: usize = 0;
    while i < n
        invariant
            n == s@.len(),
            i <= n,
            r@ =~= s@.subrange(0, i as int),
        decreases n - i,
    {
        r.push(s.get_char(i));
        proof {
            assert(r@ =~= s@.subrange(0, i + 1));
        }
        i += 1;
    }
    proof {
        assert(s@.subrange(0, n as int) =~= s@);
    }
    r
}

/// Splits a document into its lines, as slices of the original text.
pub fn split_lines<'a>(contents: &'a str) -> (lines: Vec<&'a str>)
    ensures
        lines@.map_values(|l: &str| l@) == spec_lines(contents@),
{
    let chars = chars_of(contents);
    let n = chars.len();
    let mut lines: Vec<&'a str> = Vec::new();
    let mut start: usize = 0;
    let mut i: usize = 0;
    proof {
        assert(contents@.subrange(0, n as int) =~= contents@);
        assert(Seq::<&str>::empty().map_values(|l: &str| l@) =~= Seq::<Seq<char>>::empty());
    }
    while i < n
        invariant
            n == contents@.len(),
            chars@ == contents@,
            start <= i <= n,
            forall|j: int| start <= j < i ==> contents@[j] != '\n',
            lines@.map_values(|l: &str| l@) + spec_lines(
                contents@.subrange(start as int, n as int),
            ) =~= spec_lines(contents@),
        decreases n - i,
    {
        if chars[i] == '\n' {
            let line = line_slice(contents, start, i);
            proof {
                let rest = contents@.subrange(start as int, n as int);
                assert forall|j: int| 0 <= j < i - start implies rest[j] != '\n' by {
                    assert(rest[j] == contents@[start + j]);
                }
                assert(rest[i - start] == contents@[i as int]);
                lemma_first_nl_is(rest, i - start);
                assert(rest.subrange(0, i - start) =~= contents@.subrange(
                    start as int,
                    i as int,
                ));
                assert(rest.subrange(i - start + 1, rest.len() as int) =~= contents@.subrange(
                    i + 1,
                    n as int,
                ));
                assert(spec_lines(rest) =~= seq![
                    strip_cr(contents@.subrange(start as int, i as int)),
                ] + spec_lines(contents@.subrange(i + 1, n as int)));
                assert((lines@ + seq![line]).map_values(|l: &str| l@) =~= lines@.map_values(
                    |l: &str| l@,
                ).push(line@));
            }
            lines.push(line);
            start = i + 1;
        }
        i += 1;
    }
    if start < n {
        let line = line_slice(contents, start, n);
        proof {
            let rest = contents@.subrange(start as int, n as int);
            assert forall|j: int| 0 <= j < rest.len() implies rest[j] != '\n' by {
                assert(rest[j] == contents@[start + j]);
            }
            lemma_first_nl_is(rest, rest.len() as int);
            assert(rest.subrange(0, rest.len() as int) =~= rest);
            assert(rest =~= contents@.subrange(start as int, n as int));
            assert(spec_lines(rest) =~= seq![strip_cr(rest)]);
            assert((lines@ + seq![line]).map_values(|l: &str| l@) =~= lines@.map_values(
                |l: &str| l@,
            ).push(line@));
        }
        lines.push(line);
    } else {
        proof {
            assert(contents@.subrange(start as int, n as int).len() == 0);
        }
    }
    proof {
        assert(lines@.map_values(|l: &str| l@) =~= spec_lines(contents@));
    }
    lines
}

/// The slice holding one line's content: the text of `[start, end)`
/// without a final `'\r'`.
fn line_slice<'a>(contents: &'a str, start: usize, end: usize) -> (line: &'a str)
    requires
        start <= end <= contents@.len(),
    ensures
        line@ == strip_cr(contents@.subrange(start as int, end as int)),
{
    let stop: usize = if end > start && contents.get_char(end - 1) == '\r' {
        end - 1
    } else {
        end
    };
    let line = contents.substring_char(start, stop);
    proof {
        let whole = contents@.subrange(start as int, end as int);
        if end > start && contents@[end - 1] == '\r' {
            assert(whole[whole.len() - 1] == contents@[end - 1]);
            assert(line@ =~= whole.drop_last());
        } else {
            if whole.len() > 0 {
                assert(whole[whole.len() - 1] == contents@[end - 1]);
            }
            assert(line@ =~= whole);
        }
    }
    line
}

} // verus!
