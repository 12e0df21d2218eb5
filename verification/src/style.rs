//! Bold, coloured text for the terminal.
//!
//! The escape sequences themselves are written by the `colored` crate. Left
//! alone it decides from the process environment whether to write them at
//! all; log lines are always painted, so every call here first switches its
//! override on, which holds for the whole process from then on.

use crate::text::{
    continuation, expand_newlines, lemma_expand_concat, lemma_expand_head, lemma_expand_newline,
    lemma_expand_single_line, lemma_newlines_concat, lemma_single_line_counts_zero, newlines,
    single_line,
};
use colored::Colorize;
use vstd::prelude::*;

verus! {

/// The foreground colours that log lines use.
#[derive(Clone, Copy, Debug, PartialEq, Eq, Structural)]
pub enum Hue {
    Red,
    Yellow,
    Blue,
    Green,
    Magenta,
    White,
}

impl Hue {
    /// The SGR parameter that selects this foreground colour.
    pub open spec fn code(self) -> Seq<char> {
        match self {
            Hue::Red => seq!['3', '1'],
            Hue::Yellow => seq!['3', '3'],
            Hue::Blue => seq!['3', '4'],
            Hue::Green => seq!['3', '2'],
            Hue::Magenta => seq!['3', '5'],
            Hue::White => seq!['3', '7'],
        }
    }
}

/// The sequence that switches on bold and the colour `hue`.
pub open spec fn sgr_bold(hue: Hue) -> Seq<char> {
    seq!['\x1b', '[', '1', ';'] + hue.code() + seq!['m']
}

/// The sequence that switches every attribute off.
pub open spec fn sgr_reset() -> Seq<char> {
    seq!['\x1b', '[', '0', 'm']
}

/// `s` with `style` switched on again behind every reset sequence inside it,
/// so that text which already carries escape sequences keeps the outer style
/// to its end.
pub open spec fn restyled(s: Seq<char>, style: Seq<char>) -> Seq<char>
    decreases s.len(),
{
    if s.len() < 4 {
        s
    } else if s.take(4) == sgr_reset() {
        sgr_reset() + style + restyled(s.skip(4), style)
    } else {
        seq![s[0]] + restyled(s.skip(1), style)
    }
}

/// `s` in bold `hue`: switched on in front, switched off behind.
pub open spec fn painted(hue: Hue, s: Seq<char>) -> Seq<char> {
    sgr_bold(hue) + restyled(s, sgr_bold(hue)) + sgr_reset()
}

/// `s` holds no escape character.
pub open spec fn escape_free(s: Seq<char>) -> bool {
    forall|i: int| 0 <= i < s.len() ==> s[i] != '\x1b'
}

/// A reset sequence starts at position `at` of `s`.
pub open spec fn reset_at(s: Seq<char>, at: int) -> bool {
    0 <= at && at + 4 <= s.len() && s.subrange(at, at + 4) == sgr_reset()
}

/// `s` holds a reset sequence somewhere.
pub open spec fn holds_reset(s: Seq<char>) -> bool {
    exists|at: int| reset_at(s, at)
}

/// `t` without the `style` that stands behind a reset sequence: what
/// `restyled` put in is taken out again.
pub open spec fn unstyled(t: Seq<char>, style: Seq<char>) -> Seq<char>
    decreases t.len(),
{
    if t.len() < 4 {
        t
    } else if t.take(4) == sgr_reset() && t.skip(4).len() >= style.len() && t.skip(4).take(
        style.len() as int,
    ) == style {
        sgr_reset() + unstyled(t.skip(4).skip(style.len() as int), style)
    } else {
        seq![t[0]] + unstyled(t.skip(1), style)
    }
}

/// Text without a reset sequence is not touched inside.
pub proof fn lemma_restyled_unbroken(s: Seq<char>, style: Seq<char>)
    requires
        !holds_reset(s),
    ensures
        restyled(s, style) == s,
    decreases s.len(),
{
    if s.len() >= 4 {
        assert(s.take(4) == s.subrange(0, 4));
        assert(!reset_at(s, 0));
        let rest = s.skip(1);
        assert forall|at: int| !reset_at(rest, at) by {
            if 0 <= at && at + 4 <= rest.len() {
                assert(rest.subrange(at, at + 4) == s.subrange(at + 1, at + 1 + 4));
                assert(!reset_at(s, at + 1));
            }
        }
        lemma_restyled_unbroken(rest, style);
        assert(seq![s[0]] + rest == s);
    }
}

/// The first characters of a text, up to four, stay where they are.
proof fn lemma_restyled_head(s: Seq<char>, style: Seq<char>, k: int)
    requires
        0 <= k <= 4,
        k <= s.len(),
    ensures
        restyled(s, style).len() >= k,
        restyled(s, style).take(k) == s.take(k),
    decreases k,
{
    if k == 0 {
        assert(restyled(s, style).take(0) == s.take(0));
    } else if s.len() < 4 {
    } else if s.take(4) == sgr_reset() {
        let out = sgr_reset() + style + restyled(s.skip(4), style);
        assert(out.take(k) == sgr_reset().take(k));
        assert(s.take(4).take(k) == s.take(k));
    } else {
        lemma_restyled_head(s.skip(1), style, k - 1);
        let tail = restyled(s.skip(1), style);
        let out = seq![s[0]] + tail;
        assert(out.take(k) == seq![s[0]] + tail.take(k - 1));
        assert(s.take(k) == seq![s[0]] + s.skip(1).take(k - 1));
    }
}

/// Nothing of the text is lost and nothing but the style is added: taking
/// the style out behind each reset sequence gives the text back.
pub proof fn lemma_restyled_keeps_text(s: Seq<char>, style: Seq<char>)
    ensures
        unstyled(restyled(s, style), style) == s,
        restyled(s, style).len() >= s.len(),
    decreases s.len(),
{
    if s.len() < 4 {
    } else if s.take(4) == sgr_reset() {
        let rest = restyled(s.skip(4), style);
        let out = sgr_reset() + style + rest;
        lemma_restyled_keeps_text(s.skip(4), style);
        assert(out.take(4) == sgr_reset());
        assert(out.skip(4) == style + rest);
        assert(out.skip(4).take(style.len() as int) == style);
        assert(out.skip(4).skip(style.len() as int) == rest);
        assert(s.take(4) + s.skip(4) == s);
    } else {
        let rest = restyled(s.skip(1), style);
        let out = seq![s[0]] + rest;
        lemma_restyled_keeps_text(s.skip(1), style);
        lemma_restyled_head(s, style, 4);
        assert(out.take(4) == s.take(4));
        assert(out.skip(1) == rest);
        assert(seq![s[0]] + s.skip(1) == s);
    }
}

/// A style without a newline adds none.
pub proof fn lemma_restyled_keeps_newlines(s: Seq<char>, style: Seq<char>)
    requires
        single_line(style),
    ensures
        newlines(restyled(s, style)) == newlines(s),
    decreases s.len(),
{
    if s.len() < 4 {
    } else if s.take(4) == sgr_reset() {
        let rest = restyled(s.skip(4), style);
        lemma_restyled_keeps_newlines(s.skip(4), style);
        lemma_single_line_counts_zero(style);
        lemma_newlines_concat(sgr_reset(), style);
        lemma_newlines_concat(sgr_reset() + style, rest);
        lemma_newlines_concat(s.take(4), s.skip(4));
        assert(s.take(4) + s.skip(4) == s);
    } else {
        let rest = restyled(s.skip(1), style);
        lemma_restyled_keeps_newlines(s.skip(1), style);
        lemma_newlines_concat(seq![s[0]], rest);
        lemma_newlines_concat(seq![s[0]], s.skip(1));
        assert(seq![s[0]] + s.skip(1) == s);
    }
}

/// The two sequences around painted text hold no newline.
pub proof fn lemma_sgr_single_line(hue: Hue)
    ensures
        single_line(sgr_bold(hue)),
        single_line(sgr_reset()),
        sgr_bold(hue).len() == 7,
        sgr_reset().len() == 4,
{
}

/// Painted text is the text wrapped once: the style in front, the reset
/// behind, and between them the text, whole where it holds no reset sequence
/// and with nothing lost where it does.
pub proof fn lemma_painted_wraps_once(hue: Hue, s: Seq<char>)
    ensures
        painted(hue, s).len() >= s.len() + 11,
        painted(hue, s).take(7) == sgr_bold(hue),
        painted(hue, s).skip(painted(hue, s).len() - 4) == sgr_reset(),
        unstyled(painted(hue, s).subrange(7, painted(hue, s).len() - 4), sgr_bold(hue)) == s,
        !holds_reset(s) ==> painted(hue, s) == sgr_bold(hue) + s + sgr_reset(),
        painted(hue, s) != s,
{
    let style = sgr_bold(hue);
    let inner = restyled(s, style);
    let out = painted(hue, s);
    lemma_restyled_keeps_text(s, style);
    assert(style.len() == 7);
    assert(out.take(7) == style);
    assert(out.skip(out.len() - 4) == sgr_reset());
    assert(out.subrange(7, out.len() - 4) == inner);
    if !holds_reset(s) {
        lemma_restyled_unbroken(s, style);
    }
}

/// Text without an escape character holds no reset sequence, so painting
/// it puts the style in front and the reset behind and nothing between.
pub proof fn lemma_painted_escape_free(hue: Hue, s: Seq<char>)
    requires
        escape_free(s),
    ensures
        !holds_reset(s),
        painted(hue, s) == sgr_bold(hue) + s + sgr_reset(),
{
    assert forall|at: int| !reset_at(s, at) by {
        if 0 <= at && at + 4 <= s.len() {
            assert(s.subrange(at, at + 4)[0] == s[at]);
        }
    }
    lemma_restyled_unbroken(s, sgr_bold(hue));
}

/// Two colours never paint a text alike.
pub proof fn lemma_painted_tells_hues_apart(first: Hue, second: Hue, s: Seq<char>)
    ensures
        painted(first, s) == painted(second, s) <==> first == second,
{
    if first != second {
        assert(painted(first, s)[5] == first.code()[1]);
        assert(painted(second, s)[5] == second.code()[1]);
    }
}

/// Painted text holds as many newlines as the text.
pub proof fn lemma_painted_keeps_newlines(hue: Hue, s: Seq<char>)
    ensures
        newlines(painted(hue, s)) == newlines(s),
{
    let style = sgr_bold(hue);
    lemma_sgr_single_line(hue);
    lemma_restyled_keeps_newlines(s, style);
    lemma_single_line_counts_zero(style);
    lemma_single_line_counts_zero(sgr_reset());
    lemma_newlines_concat(style, restyled(s, style));
    lemma_newlines_concat(style + restyled(s, style), sgr_reset());
}

/// No reset sequence can begin inside `a` and end behind it: `a` does not end
/// in one of the first three characters of the sequence.
pub open spec fn ends_clear(a: Seq<char>) -> bool {
    a.len() > 0 ==> a.last() != '\x1b' && a.last() != '[' && a.last() != '0'
}

/// Restyling goes piece by piece where no reset sequence lies across the
/// joint.
pub proof fn lemma_restyled_concat(a: Seq<char>, b: Seq<char>, style: Seq<char>)
    requires
        ends_clear(a),
    ensures
        restyled(a + b, style) == restyled(a, style) + restyled(b, style),
    decreases a.len(),
{
    let whole = a + b;
    if a.len() == 0 {
        assert(whole == b);
        assert(restyled(a, style) + restyled(b, style) == restyled(b, style));
    } else if whole.len() < 4 {
    } else if whole.take(4) == sgr_reset() {
        if a.len() < 4 {
            assert(a.last() == whole.take(4)[a.len() - 1]);
        }
        assert(a.take(4) == whole.take(4));
        assert(whole.skip(4) == a.skip(4) + b);
        if a.skip(4).len() > 0 {
            assert(a.skip(4).last() == a.last());
        }
        lemma_restyled_concat(a.skip(4), b, style);
        assert(sgr_reset() + style + (restyled(a.skip(4), style) + restyled(b, style)) == (
        sgr_reset() + style + restyled(a.skip(4), style)) + restyled(b, style));
    } else {
        assert(whole.skip(1) == a.skip(1) + b);
        if a.skip(1).len() > 0 {
            assert(a.skip(1).last() == a.last());
        }
        lemma_restyled_concat(a.skip(1), b, style);
        if a.len() >= 4 {
            assert(a.take(4) == whole.take(4));
        } else {
            assert(seq![a[0]] + a.skip(1) == a);
        }
        assert(seq![whole[0]] + (restyled(a.skip(1), style) + restyled(b, style)) == (seq![a[0]]
            + restyled(a.skip(1), style)) + restyled(b, style));
    }
}

/// A continuation is restyled in its marker alone.
pub proof fn lemma_restyled_continuation(marker: Seq<char>, style: Seq<char>)
    requires
        ends_clear(marker),
    ensures
        restyled(continuation(marker), style) == continuation(restyled(marker, style)),
        ends_clear(continuation(marker)),
{
    let head = seq!['\n'];
    let tail = seq![' '];
    lemma_restyled_concat(head, marker + tail, style);
    lemma_restyled_concat(marker, tail, style);
    assert(continuation(marker) == head + (marker + tail));
    assert(head + (restyled(marker, style) + tail) == continuation(restyled(marker, style)));
}

/// Restyling an expanded text is expanding the restyled text, with the
/// marker restyled too: behind every reset sequence, that of a marker
/// included, the style is switched on again, and nothing else changes.
pub proof fn lemma_restyled_continued(s: Seq<char>, marker: Seq<char>, style: Seq<char>)
    requires
        single_line(style),
        ends_clear(marker),
    ensures
        restyled(expand_newlines(s, continuation(marker)), style) == expand_newlines(
            restyled(s, style),
            continuation(restyled(marker, style)),
        ),
    decreases s.len(),
{
    let sep = continuation(marker);
    let sep2 = continuation(restyled(marker, style));
    if s.len() == 0 {
    } else if s.len() >= 4 && s.take(4) == sgr_reset() {
        let rest = s.skip(4);
        let behind = expand_newlines(rest, sep);
        let lead = sgr_reset() + style;
        assert(sgr_reset() + rest == s);
        lemma_expand_concat(sgr_reset(), rest, sep);
        lemma_expand_single_line(sgr_reset(), sep);
        let out = sgr_reset() + behind;
        assert(out.take(4) == sgr_reset());
        assert(out.skip(4) == behind);
        lemma_restyled_continued(rest, marker, style);
        lemma_expand_concat(lead, restyled(rest, style), sep2);
        lemma_expand_single_line(lead, sep2);
    } else {
        let first = seq![s[0]];
        let rest = s.skip(1);
        let behind = expand_newlines(rest, sep);
        assert(first + rest == s);
        assert(restyled(s, style) == first + restyled(rest, style));
        lemma_expand_concat(first, rest, sep);
        lemma_expand_concat(first, restyled(rest, style), sep2);
        lemma_restyled_continued(rest, marker, style);
        if s[0] == '\n' {
            lemma_expand_newline(sep);
            lemma_expand_newline(sep2);
            lemma_restyled_continuation(marker, style);
            lemma_restyled_concat(sep, behind, style);
        } else {
            lemma_expand_single_line(first, sep);
            lemma_expand_single_line(first, sep2);
            let out = first + behind;
            if out.len() >= 4 && out.take(4) == sgr_reset() {
                assert forall|i: int| 0 <= i < 3 implies behind[i] != '\n' by {
                    assert(behind[i] == out.take(4)[i + 1]);
                }
                lemma_expand_head(rest, sep, 3);
                assert(s.take(4) == first + rest.take(3));
                assert(out.take(4) == first + behind.take(3));
            } else if out.len() >= 4 {
                assert(out.skip(1) == behind);
            }
        }
    }
}

/// `colored`'s `set_override`, then `red` and `bold`, rendered by its
/// `Display`: with the override on, the text comes back wrapped in
/// `ESC[1;31m` and `ESC[0m`, the former put in again behind every reset
/// sequence inside the text.
#[verifier::external_body]
fn bold_red(msg: &str) -> (out: String)
    ensures
        out@ == painted(Hue::Red, msg@),
{
    colored::control::set_override(true);
    msg.red().bold().to_string()
}

/// `colored`'s `set_override`, then `yellow` and `bold`, rendered by its
/// `Display`: with the override on, the text comes back wrapped in
/// `ESC[1;33m` and `ESC[0m`, the former put in again behind every reset
/// sequence inside the text.
#[verifier::external_body]
fn bold_yellow(msg: &str) -> (out: String)
    ensures
        out@ == painted(Hue::Yellow, msg@),
{
    colored::control::set_override(true);
    msg.yellow().bold().to_string()
}

/// `colored`'s `set_override`, then `blue` and `bold`, rendered by its
/// `Display`: with the override on, the text comes back wrapped in
/// `ESC[1;34m` and `ESC[0m`, the former put in again behind every reset
/// sequence inside the text.
#[verifier::external_body]
fn bold_blue(msg: &str) -> (out: String)
    ensures
        out@ == painted(Hue::Blue, msg@),
{
    colored::control::set_override(true);
    msg.blue().bold().to_string()
}

/// `colored`'s `set_override`, then `green` and `bold`, rendered by its
/// `Display`: with the override on, the text comes back wrapped in
/// `ESC[1;32m` and `ESC[0m`, the former put in again behind every reset
/// sequence inside the text.
#[verifier::external_body]
fn bold_green(msg: &str) -> (out: String)
    ensures
        out@ == painted(Hue::Green, msg@),
{
    colored::control::set_override(true);
    msg.green().bold().to_string()
}

/// `colored`'s `set_override`, then `magenta` and `bold`, rendered by its
/// `Display`: with the override on, the text comes back wrapped in
/// `ESC[1;35m` and `ESC[0m`, the former put in again behind every reset
/// sequence inside the text.
#[verifier::external_body]
fn bold_magenta(msg: &str) -> (out: String)
    ensures
        out@ == painted(Hue::Magenta, msg@),
{
    colored::control::set_override(true);
    msg.magenta().bold().to_string()
}

/// `colored`'s `set_override`, then `white` and `bold`, rendered by its
/// `Display`: with the override on, the text comes back wrapped in
/// `ESC[1;37m` and `ESC[0m`, the former put in again behind every reset
/// sequence inside the text.
#[verifier::external_body]
fn bold_white(msg: &str) -> (out: String)
    ensures
        out@ == painted(Hue::White, msg@),
{
    colored::control::set_override(true);
    msg.white().bold().to_string()
}

/// Paints `msg` in bold `hue`, whatever the terminal and the environment.
pub fn paint(hue: Hue, msg: &str) -> (out: String)
    ensures
        out@ == painted(hue, msg@),
{
    match hue {
        Hue::Red => bold_red(msg),
        Hue::Yellow => bold_yellow(msg),
        Hue::Blue => bold_blue(msg),
        Hue::Green => bold_green(msg),
        Hue::Magenta => bold_magenta(msg),
        Hue::White => bold_white(msg),
    }
}

} // verus!
