//! The five log severities: the token and the colours of each.

use crate::style::{lemma_painted_tells_hues_apart, paint, painted, Hue};
use log::Level;
use vstd::prelude::*;

verus! {

/// `log::Level`, read by Verus as the crate defines it: five variants
/// without fields, from `Error` to `Trace`.
#[verifier::external_type_specification]
pub struct ExLevel(Level);

/// The colour of a severity's token.
pub open spec fn full_hue(level: Level) -> Hue {
    match level {
        Level::Error => Hue::Red,
        Level::Warn => Hue::Yellow,
        Level::Info => Hue::Blue,
        Level::Debug => Hue::Green,
        Level::Trace => Hue::Magenta,
    }
}

/// The colour of a message's text: only errors and warnings stand out.
pub open spec fn text_hue(level: Level) -> Hue {
    match level {
        Level::Error => Hue::Red,
        Level::Warn => Hue::Yellow,
        Level::Info => Hue::White,
        Level::Debug => Hue::White,
        Level::Trace => Hue::White,
    }
}

/// The token that stands for a severity in a line's bracketed prefix.
pub open spec fn token_of(level: Level) -> Seq<char> {
    match level {
        Level::Error => seq!['E'],
        Level::Warn => seq!['W'],
        Level::Info => seq!['*'],
        Level::Debug => seq!['D'],
        Level::Trace => seq!['T'],
    }
}

/// The five tokens.
pub open spec fn tokens() -> Set<Seq<char>> {
    set![seq!['E'], seq!['W'], seq!['*'], seq!['D'], seq!['T']]
}

/// Two severities share a token only if they are the same severity, and the
/// token of a severity is one of the five.
pub proof fn lemma_token_one_to_one(a: Level, b: Level)
    ensures
        token_of(a) == token_of(b) <==> a == b,
        tokens().contains(token_of(a)),
{
    assert(token_of(a).len() == 1 && token_of(b).len() == 1);
    assert(token_of(a) == token_of(b) ==> token_of(a)[0] == token_of(b)[0]);
}

/// Each of the five tokens is the token of some severity.
pub proof fn lemma_token_onto(token: Seq<char>)
    requires
        tokens().contains(token),
    ensures
        exists|level: Level| token_of(level) == token,
{
    if token == seq!['E'] {
        assert(token_of(Level::Error) == token);
    } else if token == seq!['W'] {
        assert(token_of(Level::Warn) == token);
    } else if token == seq!['*'] {
        assert(token_of(Level::Info) == token);
    } else if token == seq!['D'] {
        assert(token_of(Level::Debug) == token);
    } else {
        assert(token_of(Level::Trace) == token);
    }
}

/// Looking a severity up twice gives the same token and the same colours,
/// and painting equal messages gives equal text: nothing but the severity
/// and the message decides them.
pub proof fn lemma_lookup_repeats(
    first: Level,
    second: Level,
    first_message: Seq<char>,
    second_message: Seq<char>,
)
    requires
        first == second,
        first_message == second_message,
    ensures
        token_of(first) == token_of(second),
        full_hue(first) == full_hue(second),
        text_hue(first) == text_hue(second),
        painted(full_hue(first), first_message) == painted(full_hue(second), second_message),
        painted(text_hue(first), first_message) == painted(text_hue(second), second_message),
{
}

/// The token colours tell the five severities apart: two severities paint a
/// message alike only if they are the same severity.
pub proof fn lemma_full_colours_differ(a: Level, b: Level, message: Seq<char>)
    ensures
        full_hue(a) == full_hue(b) <==> a == b,
        painted(full_hue(a), message) == painted(full_hue(b), message) <==> a == b,
{
    lemma_painted_tells_hues_apart(full_hue(a), full_hue(b), message);
}

/// The text colours mark errors and warnings as the token colours do, and
/// paint every other severity white.
pub proof fn lemma_text_colours(level: Level, message: Seq<char>)
    ensures
        level == Level::Error || level == Level::Warn ==> painted(text_hue(level), message)
            == painted(full_hue(level), message),
        level != Level::Error && level != Level::Warn ==> painted(text_hue(level), message)
            == painted(Hue::White, message),
        painted(text_hue(level), message) == painted(text_hue(Level::Error), message) <==> level
            == Level::Error,
        painted(text_hue(level), message) == painted(text_hue(Level::Warn), message) <==> level
            == Level::Warn,
{
    lemma_painted_tells_hues_apart(text_hue(level), text_hue(Level::Error), message);
    lemma_painted_tells_hues_apart(text_hue(level), text_hue(Level::Warn), message);
}

/// Returns the token of `level`.
pub fn level_token(level: &Level) -> (token: &'static str)
    ensures
        token@ == token_of(*level),
{
    proof {
        reveal_strlit("E");
        reveal_strlit("W");
        reveal_strlit("*");
        reveal_strlit("D");
        reveal_strlit("T");
    }
    match *level {
        Level::Error => "E",
        Level::Warn => "W",
        Level::Info => "*",
        Level::Debug => "D",
        Level::Trace => "T",
    }
}

/// Returns the colour in which the token of `level` is shown.
pub fn level_hue(level: &Level) -> (hue: Hue)
    ensures
        hue == full_hue(*level),
{
    match *level {
        Level::Error => Hue::Red,
        Level::Warn => Hue::Yellow,
        Level::Info => Hue::Blue,
        Level::Debug => Hue::Green,
        Level::Trace => Hue::Magenta,
    }
}

/// Returns the colour in which a message of `level` is shown.
pub fn level_text_hue(level: &Level) -> (hue: Hue)
    ensures
        hue == text_hue(*level),
{
    match *level {
        Level::Error => Hue::Red,
        Level::Warn => Hue::Yellow,
        Level::Info => Hue::White,
        Level::Debug => Hue::White,
        Level::Trace => Hue::White,
    }
}

/// Paints `msg` in the bold token colour of `level`.
pub fn level_color(level: &Level, msg: &str) -> (out: String)
    ensures
        out@ == painted(full_hue(*level), msg@),
{
    paint(level_hue(level), msg)
}

/// Paints `msg` in the bold text colour of `level`.
pub fn level_text_color(level: &Level, msg: &str) -> (out: String)
    ensures
        out@ == painted(text_hue(*level), msg@),
{
    paint(level_text_hue(level), msg)
}

} // verus!
