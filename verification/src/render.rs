//! Highlighting matched spans for display.
//!
//! The emphasis itself comes from the `colored` crate, which decides at
//! run time (from the terminal and the environment) whether to emit
//! ANSI escape sequences or plain text. A rendered line is therefore
//! pinned up to one choice per span: each span's text appears either
//! plain or wrapped in the red escape prefix and the reset suffix, and
//! the text between spans is copied verbatim.

use vstd::prelude::*;

use colored::Colorize;

use crate::engine::Span;
use crate::lines::chars_of;

verus! {

/// The ANSI escape character.
pub open spec fn esc() -> char {
    '\u{1b}'
}

/// The red foreground escape prefix.
pub open spec fn red_prefix() -> Seq<char> {
    "\u{1b}[31m"@
}

/// The blue foreground escape prefix.
pub open spec fn blue_prefix() -> Seq<char> {
    "\u{1b}[34m"@
}

/// The reset escape suffix.
pub open spec fn reset_suffix() -> Seq<char> {
    "\u{1b}[0m"@
}

/// Text wrapped in the red escape codes.
pub open spec fn wrap_red(s: Seq<char>) -> Seq<char> {
    red_prefix() + s + reset_suffix()
}

/// Text wrapped in the blue escape codes.
pub open spec fn wrap_blue(s: Seq<char>) -> Seq<char> {
    blue_prefix() + s + reset_suffix()
}

/// Does the text hold an escape character anywhere?
pub open spec fn has_esc(s: Seq<char>) -> bool {
    exists|i: int| 0 <= i < s.len() && s[i] == esc()
}

/// A span's text, either plain or wrapped in the red escape codes.
pub open spec fn styled(piece: Seq<char>, on: bool) -> Seq<char> {
    if on {
        wrap_red(piece)
    } else {
        piece
    }
}

/// Where the copying cursor stands before span `k`: at the start of
/// the line for the first span, at the previous span's end after.
pub open spec fn span_cursor(spans: Seq<(int, int)>, k: int) -> int {
    if k <= 0 {
        0
    } else {
        spans[k - 1].1
    }
}

/// Well-formed spans: each starts at or after the cursor left by its
/// predecessor and ends within the line.
pub open spec fn spans_ok(spans: Seq<(int, int)>, line_len: int) -> bool {
    forall|k: int| 0 <= k < spans.len() ==> span_cursor(spans, k) <= (#[trigger] spans[k]).0
        && spans[k].0 <= spans[k].1 && spans[k].1 <= line_len
}

/// The rendering of the line up to the end of span `k - 1`: for each
/// span, the text since the previous span copied verbatim, then the
/// span's text, styled as its flag says.
pub open spec fn render_upto(
    line: Seq<char>,
    spans: Seq<(int, int)>,
    flags: Seq<bool>,
    k: int,
) -> Seq<char>
    decreases k,
{
    if k <= 0 {
        Seq::empty()
    } else {
        render_upto(line, spans, flags, k - 1) + line.subrange(
            span_cursor(spans, k - 1),
            spans[k - 1].0,
        ) + styled(line.subrange(spans[k - 1].0, spans[k - 1].1), flags[k - 1])
    }
}

/// The whole rendered line under one choice of flags.
pub open spec fn render(line: Seq<char>, spans: Seq<(int, int)>, flags: Seq<bool>) -> Seq<char> {
    render_upto(line, spans, flags, spans.len() as int) + line.subrange(
        span_cursor(spans, spans.len() as int),
        line.len() as int,
    )
}

/// `out` is a rendering of `line` with its `spans`: some choice of
/// per-span flags produces it.
pub open spec fn rendered(out: Seq<char>, line: Seq<char>, spans: Seq<(int, int)>) -> bool {
    exists|flags: Seq<bool>| flags.len() == spans.len() && out == render(line, spans, flags)
}

/// With no spans, the only rendering of a line is the line itself.
pub proof fn lemma_rendered_no_spans(out: Seq<char>, line: Seq<char>)
    ensures
        rendered(out, line, Seq::empty()) <==> out == line,
{
    let spans = Seq::<(int, int)>::empty();
    let flags = Seq::<bool>::empty();
    assert(render(line, spans, flags) =~= line);
    if rendered(out, line, spans) {
        let f = choose|f: Seq<bool>| f.len() == spans.len() && out == render(line, spans, f);
        assert(render(line, spans, f) =~= line);
    }
    if out == line {
        assert(flags.len() == spans.len() && out == render(line, spans, flags));
        assert(rendered(out, line, spans));
    }
}

/// The first `k` spans render the same under any extension of the flags.
proof fn lemma_render_upto_extend(
    line: Seq<char>,
    spans: Seq<(int, int)>,
    flags: Seq<bool>,
    f: bool,
    k: int,
)
    requires
        k <= flags.len(),
    ensures
        render_upto(line, spans, flags.push(f), k) == render_upto(line, spans, flags, k),
    decreases k,
{
    if k <= 0 {
    } else {
        lemma_render_upto_extend(line, spans, flags, f, k - 1);
        assert(flags.push(f)[k - 1] == flags[k - 1]);
    }
}

/// Relies on `colored`'s `Colorize::red` for `&str` and the `Display`
/// of its `ColoredString`: the result is the input itself when
/// colorization is off, and otherwise the input between the red escape
/// prefix and the reset suffix. The input holds no escape character,
/// so no inner reset sequence gets re-escaped.
#[verifier::external_body]
fn paint_red(s: &str) -> (r: String)
    requires
        !has_esc(s@),
    ensures
        r@ == s@ || r@ == wrap_red(s@),
{
    s.red().to_string()
}

/// Relies on `colored`'s `Colorize::blue` for `&str` and the `Display`
/// of its `ColoredString`: the result is the input itself when
/// colorization is off, and otherwise the input between the blue
/// escape prefix and the reset suffix. The input holds no escape
/// character, so no inner reset sequence gets re-escaped.
#[verifier::external_body]
pub fn paint_blue(s: &str) -> (r: String)
    requires
        !has_esc(s@),
    ensures
        r@ == s@ || r@ == wrap_blue(s@),
{
    s.blue().to_string()
}

/// Does the string hold an escape character?
pub fn str_has_esc(s: &str) -> (r: bool)
    ensures
        r == has_esc(s@),
{
    let chars = chars_of(s);
    let mut i: usize = 0;
    while i < chars.len()
        invariant
            chars@ == s@,
            i <= s@.len(),
            forall|j: int| 0 <= j < i ==> s@[j] != esc(),
        decreases s@.len() - i,
    {
        if chars[i] == '\u{1b}' {
            proof {
                assert(s@[i as int] == esc());
            }
            return true;
        }
        i += 1;
    }
    false
}

/// Builds the display form of one matching line: text between spans
/// copied verbatim, each span's text emphasized through `colored`
/// (except a span holding an escape character, which is copied
/// verbatim to keep the escaping one-level).
pub fn highlight_line(line: &str, spans: &Vec<Span>) -> (out: String)
    requires
        spans_ok(spans@.map_values(|s: Span| s@), line@.len() as int),
    ensures
        rendered(out@, line@, spans@.map_values(|s: Span| s@)),
{
    let ghost sv = spans@.map_values(|s: Span| s@);
    let mut out = String::new();
    let ghost mut flags: Seq<bool> = Seq::empty();
    let mut cursor: usize = 0;
    let mut k: usize = 0;
    while k < spans.len()
        invariant
            sv == spans@.map_values(|s: Span| s@),
            spans_ok(sv, line@.len() as int),
            k <= spans@.len(),
            flags.len() == k,
            cursor as int == span_cursor(sv, k as int),
            cursor <= line@.len(),
            out@ == render_upto(line@, sv, flags, k as int),
        decreases spans@.len() - k,
    {
        let sp = spans[k];
        proof {
            assert(sv[k as int] == spans@[k as int]@);
        }
        let between = line.substring_char(cursor, sp.start);
        out.append(between);
        let piece = line.substring_char(sp.start, sp.end);
        let ghost f: bool;
        if str_has_esc(piece) {
            out.append(piece);
            proof {
                f = false;
            }
        } else {
            let painted = paint_red(piece);
            proof {
                f = painted@ != piece@;
            }
            out.append(painted.as_str());
        }
        proof {
            lemma_render_upto_extend(line@, sv, flags, f, k as int);
            flags = flags.push(f);
            assert(flags[k as int] == f);
            assert(out@ =~= render_upto(line@, sv, flags, k + 1));
        }
        cursor = sp.end;
        k += 1;
    }
    let tail = line.substring_char(cursor, line.unicode_len());
    out.append(tail);
    proof {
        assert(out@ == render(line@, sv, flags));
    }
    out
}

} // verus!
