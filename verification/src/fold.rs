//! Simple lowercase folding for case-insensitive comparison.
//!
//! The fold maps each character independently: ASCII uppercase letters
//! become their lowercase counterparts, every other character is kept.
//! Folding one character at a time keeps the folded text exactly as long
//! as the original, so match offsets computed on folded text apply
//! directly to the original text.

use vstd::prelude::*;

verus! {

/// The fold of one character: ASCII uppercase letters are lowered,
/// everything else is unchanged.
pub open spec fn fold_char(c: char) -> char {
    if 'A' <= c && c <= 'Z' {
        ((c as u8) + 32) as char
    } else {
        c
    }
}

/// The fold of a whole sequence, character by character.
pub open spec fn fold_seq(s: Seq<char>) -> Seq<char> {
    s.map_values(|c: char| fold_char(c))
}

/// The comparison key of a text under the active case policy:
/// the text itself when case-sensitive, its fold when case-insensitive.
pub open spec fn key_of(s: Seq<char>, ignore_case: bool) -> Seq<char> {
    if ignore_case {
        fold_seq(s)
    } else {
        s
    }
}

/// Taking the comparison key never changes the length: folding is
/// character for character.
pub proof fn lemma_key_len(s: Seq<char>, ignore_case: bool)
    ensures
        key_of(s, ignore_case).len() == s.len(),
{
}

/// Folding commutes with taking a subrange.
pub proof fn lemma_fold_subrange(s: Seq<char>, i: int, j: int)
    requires
        0 <= i <= j <= s.len(),
    ensures
        fold_seq(s).subrange(i, j) == fold_seq(s.subrange(i, j)),
{
    assert(fold_seq(s).subrange(i, j) =~= fold_seq(s.subrange(i, j)));
}

/// Executable fold of one character.
pub fn fold_char_exec(c: char) -> (r: char)
    ensures
        r == fold_char(c),
{
    if 'A' <= c && c <= 'Z' {
        ((c as u8) + 32) as char
    } else {
        c
    }
}

/// Executable fold of a character vector.
pub fn fold_chars(v: &Vec<char>) -> (r: Vec<char>)
    ensures
        r@ == fold_seq(v@),
{
    let mut r: Vec<char> = Vec::new();
    let mut i: usize = 0;
    while i < v.len()
        invariant
            i <= v@.len(),
            r@ =~= fold_seq(v@.subrange(0, i as int)),
        decreases v@.len() - i,
    {
        r.push(fold_char_exec(v[i]));
        proof {
            assert(v@.subrange(0, i + 1) =~= v@.subrange(0, i as int).push(v@[i as int]));
            assert(fold_seq(v@.subrange(0, i + 1)) =~= fold_seq(v@.subrange(0, i as int)).push(
                fold_char(v@[i as int]),
            ));
        }
        i += 1;
    }
    proof {
        assert(v@.subrange(0, v@.len() as int) =~= v@);
    }
    r
}

} // verus!
