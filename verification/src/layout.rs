//! The text of one log line.
//!
//! Two layouts exist. The plain one is the bracketed token, a blank and the
//! message. The timestamped one puts the seconds since the logger was set up
//! and the target of the record between the two. In both, every line of the
//! message after the first starts with a marker under the token and shows in
//! the same colour as the first.

use crate::severity::{full_hue, level_color, level_text_color, level_token, text_hue, token_of};
use crate::style::{
    ends_clear, lemma_painted_escape_free, lemma_painted_keeps_newlines, lemma_restyled_concat,
    lemma_restyled_continued, lemma_restyled_keeps_newlines, lemma_restyled_unbroken,
    lemma_sgr_single_line, paint, painted, reset_at, restyled, sgr_bold, sgr_reset, Hue,
};
use crate::text::{
    continuation, decimal, digits_of, expand_newlines, follows, lemma_continued_between,
    lemma_digits_single_line, lemma_newlines_concat, lemma_single_line_counts_zero, marked,
    newlines, replace_newlines, single_line,
};
use log::Level;
use vstd::prelude::*;

verus! {

/// The text of the marker that starts a continued line.
pub open spec fn marker_text() -> Seq<char> {
    seq![' ', '|', ' ']
}

/// The marker as it is written: bold and white.
pub open spec fn painted_marker() -> Seq<char> {
    painted(Hue::White, marker_text())
}

/// Three pieces, one behind the other.
pub open spec fn bracketed(open: Seq<char>, token: Seq<char>, close: Seq<char>) -> Seq<char> {
    open + token + close
}

/// The prefix of `level`: a blue `[`, the token in its colour, a blue `]`,
/// each in bold.
pub open spec fn prefix_of(level: Level) -> Seq<char> {
    bracketed(
        painted(Hue::Blue, seq!['[']),
        painted(full_hue(level), token_of(level)),
        painted(Hue::Blue, seq![']']),
    )
}

/// The body of a line: the message with its newlines expanded into
/// continuations under the painted marker, the whole in the text colour of
/// `level`. Painting comes last, so the style is switched on again behind
/// each marker and every line of the message shows in its colour.
pub open spec fn body_of(level: Level, message: Seq<char>) -> Seq<char> {
    painted(text_hue(level), expand_newlines(message, continuation(painted_marker())))
}

/// What directly follows each newline of a body: the painted marker, the
/// style of the text switched on again, and a blank.
pub open spec fn line_start(level: Level) -> Seq<char> {
    painted_marker() + sgr_bold(text_hue(level)) + seq![' ']
}

/// The plain layout, from a prefix and a body.
pub open spec fn plain_line(prefix: Seq<char>, body: Seq<char>) -> Seq<char> {
    prefix + seq![' '] + body
}

/// What stands in front of the body in the timestamped layout.
pub open spec fn timestamped_head(prefix: Seq<char>, secs: nat, target: Seq<char>) -> Seq<char> {
    prefix + seq![' ', '['] + digits_of(secs) + seq!['s', ',', ' '] + target + seq![
        ']',
        ' ',
        '-',
        ' ',
    ]
}

/// The timestamped layout, from a prefix, the seconds elapsed, the target
/// and a body.
pub open spec fn timestamped_line(
    prefix: Seq<char>,
    secs: nat,
    target: Seq<char>,
    body: Seq<char>,
) -> Seq<char> {
    timestamped_head(prefix, secs, target) + body
}

/// The plain line of `message` at `level`.
pub open spec fn plain_line_of(level: Level, message: Seq<char>) -> Seq<char> {
    plain_line(prefix_of(level), body_of(level, message))
}

/// The timestamped line of `message` at `level`, logged by `target` `secs`
/// seconds after the logger was set up.
pub open spec fn timestamped_line_of(
    level: Level,
    secs: nat,
    target: Seq<char>,
    message: Seq<char>,
) -> Seq<char> {
    timestamped_line(prefix_of(level), secs, target, body_of(level, message))
}

/// A prefix holds no newline.
pub proof fn lemma_prefix_single_line(level: Level)
    ensures
        single_line(prefix_of(level)),
{
    let open = painted(Hue::Blue, seq!['[']);
    let token = painted(full_hue(level), token_of(level));
    let close = painted(Hue::Blue, seq![']']);
    lemma_painted_keeps_newlines(Hue::Blue, seq!['[']);
    lemma_painted_keeps_newlines(full_hue(level), token_of(level));
    lemma_painted_keeps_newlines(Hue::Blue, seq![']']);
    lemma_single_line_counts_zero(seq!['[']);
    lemma_single_line_counts_zero(token_of(level));
    lemma_single_line_counts_zero(seq![']']);
    lemma_newlines_concat(open, token);
    lemma_newlines_concat(open + token, close);
    lemma_single_line_counts_zero(prefix_of(level));
}

/// The painted marker is the marker's text between the white style and the
/// reset. It holds no newline, and restyling it puts the style behind it.
pub proof fn lemma_marker_shape(style: Seq<char>)
    ensures
        painted_marker() == sgr_bold(Hue::White) + marker_text() + sgr_reset(),
        single_line(painted_marker()),
        ends_clear(painted_marker()),
        restyled(painted_marker(), style) == painted_marker() + style,
{
    let front = sgr_bold(Hue::White) + marker_text();
    lemma_painted_escape_free(Hue::White, marker_text());
    assert forall|at: int| !reset_at(front, at) by {
        if 0 <= at && at + 4 <= front.len() {
            assert(front.subrange(at, at + 4)[0] == front[at]);
            assert(front.subrange(at, at + 4)[2] == front[at + 2]);
        }
    }
    lemma_restyled_unbroken(front, style);
    lemma_restyled_concat(front, sgr_reset(), style);
    assert(sgr_reset().take(4) == sgr_reset());
    assert(sgr_reset().skip(4) == Seq::<char>::empty());
    assert(restyled(Seq::<char>::empty(), style) == Seq::<char>::empty());
    assert(restyled(sgr_reset(), style) == sgr_reset() + style + Seq::<char>::empty());
    assert(front + (sgr_reset() + style + Seq::<char>::empty()) == painted_marker() + style);
}

/// A body is the style of the text, the restyled message with each newline
/// expanded into newline, painted marker, style and blank, and the reset.
pub proof fn lemma_body_shape(level: Level, message: Seq<char>)
    ensures
        body_of(level, message) == sgr_bold(text_hue(level)) + expand_newlines(
            restyled(message, sgr_bold(text_hue(level))),
            continuation(painted_marker() + sgr_bold(text_hue(level))),
        ) + sgr_reset(),
{
    let style = sgr_bold(text_hue(level));
    lemma_sgr_single_line(text_hue(level));
    lemma_marker_shape(style);
    lemma_restyled_continued(message, painted_marker(), style);
}

/// Behind a head without a newline, a body of a message with `k` newlines
/// holds `k` newlines, and each of them is directly followed by the start of
/// a continued line.
proof fn lemma_body_continues_behind(head: Seq<char>, level: Level, message: Seq<char>)
    requires
        single_line(head),
    ensures
        newlines(head + body_of(level, message)) == newlines(message),
        marked(head + body_of(level, message), line_start(level)) == newlines(message),
        forall|at: int|
            0 <= at < (head + body_of(level, message)).len() && (head + body_of(
                level,
                message,
            ))[at] == '\n' ==> #[trigger] follows(
                head + body_of(level, message),
                at,
                line_start(level),
            ),
{
    let style = sgr_bold(text_hue(level));
    let marker = painted_marker() + style;
    let inner = restyled(message, style);
    let middle = expand_newlines(inner, continuation(marker));
    lemma_body_shape(level, message);
    lemma_sgr_single_line(text_hue(level));
    lemma_marker_shape(style);
    lemma_restyled_keeps_newlines(message, style);
    lemma_newlines_concat(head, style);
    lemma_newlines_concat(painted_marker(), style);
    lemma_single_line_counts_zero(head);
    lemma_single_line_counts_zero(style);
    lemma_single_line_counts_zero(painted_marker());
    lemma_single_line_counts_zero(head + style);
    lemma_single_line_counts_zero(marker);
    lemma_continued_between(head + style, inner, marker, sgr_reset());
    assert(head + body_of(level, message) == (head + style) + middle + sgr_reset());
}

/// A plain line of a message with `k` newlines holds `k` newlines, and each
/// of them is directly followed by the painted marker, the style of the text
/// and a blank. So the marker stands exactly `k` times at the start of a
/// line, once for every line of the message after the first, in front of
/// that line's text, which shows in the text colour like the first.
pub proof fn lemma_plain_line_continues(level: Level, message: Seq<char>)
    ensures
        newlines(plain_line_of(level, message)) == newlines(message),
        marked(plain_line_of(level, message), line_start(level)) == newlines(message),
        forall|at: int|
            0 <= at < plain_line_of(level, message).len() && plain_line_of(level, message)[at]
                == '\n' ==> #[trigger] follows(plain_line_of(level, message), at, line_start(level)),
{
    let head = prefix_of(level) + seq![' '];
    lemma_prefix_single_line(level);
    lemma_body_continues_behind(head, level, message);
}

/// The same holds of a timestamped line whose target holds no newline.
pub proof fn lemma_timestamped_line_continues(
    level: Level,
    secs: nat,
    target: Seq<char>,
    message: Seq<char>,
)
    requires
        single_line(target),
    ensures
        newlines(timestamped_line_of(level, secs, target, message)) == newlines(message),
        marked(timestamped_line_of(level, secs, target, message), line_start(level)) == newlines(
            message,
        ),
        forall|at: int|
            0 <= at < timestamped_line_of(level, secs, target, message).len()
                && timestamped_line_of(level, secs, target, message)[at] == '\n'
                ==> #[trigger] follows(
                timestamped_line_of(level, secs, target, message),
                at,
                line_start(level),
            ),
{
    let head = timestamped_head(prefix_of(level), secs, target);
    lemma_prefix_single_line(level);
    lemma_digits_single_line(secs);
    lemma_body_continues_behind(head, level, message);
}

/// Returns the bracketed token of `level`.
pub fn prefix_token(level: &Level) -> (out: String)
    ensures
        out@ == prefix_of(*level),
{
    proof {
        reveal_strlit("[");
        reveal_strlit("]");
        assert("["@ =~= seq!['[']);
        assert("]"@ =~= seq![']']);
    }
    let open = paint(Hue::Blue, "[");
    let token = level_color(level, level_token(level));
    let close = paint(Hue::Blue, "]");
    let mut out = open;
    out.append(token.as_str());
    out.append(close.as_str());
    out
}

/// Returns the painted marker of a continued line.
pub fn continuation_marker() -> (out: String)
    ensures
        out@ == painted_marker(),
{
    proof {
        reveal_strlit(" | ");
        assert(" | "@ =~= marker_text());
    }
    paint(Hue::White, " | ")
}

/// Expands the newlines of `message` into continuations that carry `marker`.
pub fn continued(message: &str, marker: &str) -> (out: String)
    ensures
        out@ == expand_newlines(message@, continuation(marker@)),
{
    proof {
        reveal_strlit("\n");
        reveal_strlit(" ");
        assert("\n"@ =~= seq!['\n']);
        assert(" "@ =~= seq![' ']);
    }
    let mut sep = String::from_str("\n");
    sep.append(marker);
    sep.append(" ");
    replace_newlines(message, sep.as_str())
}

/// Returns the body of a line for `message` at `level`.
pub fn line_body(level: &Level, message: &str) -> (out: String)
    ensures
        out@ == body_of(*level, message@),
{
    let marker = continuation_marker();
    let lines = continued(message, marker.as_str());
    level_text_color(level, lines.as_str())
}

/// Lays out a plain line from its prefix and its body.
pub fn compose(prefix: &str, body: &str) -> (out: String)
    ensures
        out@ == plain_line(prefix@, body@),
{
    proof {
        reveal_strlit(" ");
        assert(" "@ =~= seq![' ']);
    }
    let mut out = String::from_str(prefix);
    out.append(" ");
    out.append(body);
    out
}

/// Lays out a timestamped line from its prefix, the seconds elapsed, the
/// target and its body.
pub fn compose_timestamped(prefix: &str, elapsed_secs: u64, target: &str, body: &str) -> (out:
    String)
    ensures
        out@ == timestamped_line(prefix@, elapsed_secs as nat, target@, body@),
{
    proof {
        reveal_strlit(" [");
        reveal_strlit("s, ");
        reveal_strlit("] - ");
        assert(" ["@ =~= seq![' ', '[']);
        assert("s, "@ =~= seq!['s', ',', ' ']);
        assert("] - "@ =~= seq![']', ' ', '-', ' ']);
    }
    let secs = decimal(elapsed_secs);
    let mut out = String::from_str(prefix);
    out.append(" [");
    out.append(secs.as_str());
    out.append("s, ");
    out.append(target);
    out.append("] - ");
    out.append(body);
    out
}

/// Formats `message` at `level` in the plain layout, without the newline that
/// ends the line.
pub fn format(level: &Level, message: &str) -> (out: String)
    ensures
        out@ == plain_line_of(*level, message@),
{
    let prefix = prefix_token(level);
    let body = line_body(level, message);
    compose(prefix.as_str(), body.as_str())
}

/// Formats `message` at `level` in the timestamped layout, without the
/// newline that ends the line.
pub fn format_timestamped(level: &Level, elapsed_secs: u64, target: &str, message: &str) -> (out:
    String)
    ensures
        out@ == timestamped_line_of(*level, elapsed_secs as nat, target@, message@),
{
    let prefix = prefix_token(level);
    let body = line_body(level, message);
    compose_timestamped(prefix.as_str(), elapsed_secs, target, body.as_str())
}

} // verus!
