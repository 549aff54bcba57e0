//! Decimal formatting of line numbers, verified against a
//! specification of the decimal representation.

use vstd::prelude::*;

use crate::render::esc;
use crate::render::has_esc;

verus! {

/// The character of one decimal digit.
pub open spec fn dec_digit(d: int) -> char {
    if d == 0 {
        '0'
    } else if d == 1 {
        '1'
    } else if d == 2 {
        '2'
    } else if d == 3 {
        '3'
    } else if d == 4 {
        '4'
    } else if d == 5 {
        '5'
    } else if d == 6 {
        '6'
    } else if d == 7 {
        '7'
    } else if d == 8 {
        '8'
    } else {
        '9'
    }
}

/// The decimal representation of a non-negative integer, most
/// significant digit first, without leading zeros (a single zero for
/// zero itself).
pub open spec fn dec_str(n: int) -> Seq<char>
    decreases n,
{
    if n < 10 {
        seq![dec_digit(n)]
    } else {
        dec_str(n / 10).push(dec_digit(n % 10))
    }
}

/// A decimal representation never holds an escape character.
pub proof fn lemma_dec_str_no_esc(n: int)
    requires
        n >= 0,
    ensures
        !has_esc(dec_str(n)),
        forall|i: int| 0 <= i < dec_str(n).len() ==> dec_str(n)[i] != esc(),
    decreases n,
{
    if n < 10 {
        assert(dec_str(n) == seq![dec_digit(n)]);
        assert(dec_digit(n) != esc());
    } else {
        lemma_dec_str_no_esc(n / 10);
        assert forall|i: int| 0 <= i < dec_str(n).len() implies dec_str(n)[i] != esc() by {
            if i < dec_str(n).len() - 1 {
                assert(dec_str(n)[i] == dec_str(n / 10)[i]);
            } else {
                assert(dec_str(n)[i] == dec_digit(n % 10));
            }
        }
    }
}

/// The characters of a digit stack (least significant first), read
/// back most significant first.
spec fn rev_chars(rev: Seq<u32>) -> Seq<char>
    decreases rev.len(),
{
    if rev.len() == 0 {
        Seq::empty()
    } else {
        rev_chars(rev.drop_first()) + seq![dec_digit(rev[0] as int)]
    }
}

/// Stacking one more digit puts its character in front.
proof fn lemma_rev_chars_push(rev: Seq<u32>, d: u32)
    ensures
        rev_chars(rev.push(d)) == seq![dec_digit(d as int)] + rev_chars(rev),
    decreases rev.len(),
{
    if rev.len() == 0 {
        assert(rev.push(d).drop_first() =~= Seq::<u32>::empty());
        assert(rev_chars(rev.push(d).drop_first()) == Seq::<char>::empty());
        assert(rev.push(d)[0] == d);
        assert(rev_chars(rev.push(d)) =~= seq![dec_digit(d as int)] + rev_chars(rev));
    } else {
        assert(rev.push(d).drop_first() =~= rev.drop_first().push(d));
        lemma_rev_chars_push(rev.drop_first(), d);
        assert(rev.push(d)[0] == rev[0]);
        assert(rev_chars(rev.push(d)) =~= seq![dec_digit(d as int)] + rev_chars(rev));
    }
}

/// The one-character string of one decimal digit.
fn digit_char_str(d: u32) -> (s: &'static str)
    requires
        d < 10,
    ensures
        s@ == seq![dec_digit(d as int)],
{
    let s: &'static str = if d == 0 {
        "0"
    } else if d == 1 {
        "1"
    } else if d == 2 {
        "2"
    } else if d == 3 {
        "3"
    } else if d == 4 {
        "4"
    } else if d == 5 {
        "5"
    } else if d == 6 {
        "6"
    } else if d == 7 {
        "7"
    } else if d == 8 {
        "8"
    } else {
        "9"
    };
    proof {
        reveal_strlit("0");
        reveal_strlit("1");
        reveal_strlit("2");
        reveal_strlit("3");
        reveal_strlit("4");
        reveal_strlit("5");
        reveal_strlit("6");
        reveal_strlit("7");
        reveal_strlit("8");
        reveal_strlit("9");
        assert(s@ =~= seq![dec_digit(d as int)]);
    }
    s
}

/// The decimal form of a line number.
pub fn u32_to_string(n: u32) -> (s: String)
    ensures
        s@ == dec_str(n as int),
{
    let mut rev: Vec<u32> = Vec::new();
    let mut m: u32 = n;
    if m == 0 {
        rev.push(0);
        proof {
            assert(rev@.drop_first() =~= Seq::<u32>::empty());
            assert(rev_chars(rev@.drop_first()) == Seq::<char>::empty());
            assert(rev@[0] == 0);
            assert(rev_chars(rev@) =~= dec_str(n as int));
        }
    } else {
        while m > 0
            invariant
                forall|j: int| 0 <= j < rev@.len() ==> rev@[j] < 10,
                m > 0 ==> dec_str(n as int) == dec_str(m as int) + rev_chars(rev@),
                m == 0 ==> dec_str(n as int) == rev_chars(rev@),
            decreases m,
        {
            let d = m % 10;
            proof {
                lemma_rev_chars_push(rev@, d);
                if m >= 10 {
                    assert(dec_str(m as int) == dec_str(m as int / 10).push(
                        dec_digit(m as int % 10),
                    ));
                    assert(dec_str(m as int) =~= dec_str(m as int / 10) + (seq![
                        dec_digit(d as int),
                    ]));
                    assert(dec_str(n as int) =~= dec_str(m as int / 10) + (seq![
                        dec_digit(d as int),
                    ] + rev_chars(rev@)));
                } else {
                    assert(dec_str(m as int) == seq![dec_digit(m as int)]);
                    assert(dec_str(n as int) =~= seq![dec_digit(d as int)] + rev_chars(rev@));
                }
            }
            rev.push(d);
            m = m / 10;
        }
    }
    let len = rev.len();
    let mut s = String::new();
    let mut k: usize = len;
    proof {
        assert(rev@.subrange(len as int, len as int) =~= Seq::<u32>::empty());
    }
    while k > 0
        invariant
            len == rev@.len(),
            k <= len,
            forall|j: int| 0 <= j < rev@.len() ==> rev@[j] < 10,
            dec_str(n as int) == rev_chars(rev@),
            s@ == rev_chars(rev@.subrange(k as int, len as int)),
        decreases k,
    {
        k -= 1;
        let ds = digit_char_str(rev[k]);
        s.append(ds);
        proof {
            let sub = rev@.subrange(k as int, len as int);
            assert(sub[0] == rev@[k as int]);
            assert(sub.drop_first() =~= rev@.subrange(k + 1, len as int));
            assert(s@ =~= rev_chars(sub));
        }
    }
    proof {
        assert(rev@.subrange(0, len as int) =~= rev@);
    }
    s
}

} // verus!
