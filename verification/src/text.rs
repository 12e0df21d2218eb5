//! Text building blocks: newline continuation and decimal numerals.

use vstd::prelude::*;

verus! {

/// `String::push` appends one character to the end of the string.
pub assume_specification[ String::push ](s: &mut String, c: char)
    ensures
        final(s)@ == old(s)@.push(c),
;

/// What is written in place of a newline: the newline itself, the marker,
/// and one blank.
pub open spec fn continuation(marker: Seq<char>) -> Seq<char> {
    seq!['\n'] + marker + seq![' ']
}

/// `s` with every newline replaced by `sep`, all other characters kept in
/// place and in order.
pub open spec fn expand_newlines(s: Seq<char>, sep: Seq<char>) -> Seq<char>
    decreases s.len(),
{
    if s.len() == 0 {
        Seq::empty()
    } else if s.last() == '\n' {
        expand_newlines(s.drop_last(), sep) + sep
    } else {
        expand_newlines(s.drop_last(), sep).push(s.last())
    }
}

/// The number of newlines in `s`.
pub open spec fn newlines(s: Seq<char>) -> nat
    decreases s.len(),
{
    if s.len() == 0 {
        0
    } else if s.last() == '\n' {
        newlines(s.drop_last()) + 1
    } else {
        newlines(s.drop_last())
    }
}

/// `s` holds no newline.
pub open spec fn single_line(s: Seq<char>) -> bool {
    forall|i: int| 0 <= i < s.len() ==> s[i] != '\n'
}

/// `piece` stands in `out` directly behind position `at`.
pub open spec fn follows(out: Seq<char>, at: int, piece: Seq<char>) -> bool {
    &&& at + 1 + piece.len() <= out.len()
    &&& out.subrange(at + 1, at + 1 + piece.len()) == piece
}

/// The number of newlines among the first `upto` characters of `out` that
/// `piece` directly follows.
pub open spec fn marked_upto(out: Seq<char>, piece: Seq<char>, upto: nat) -> nat
    decreases upto,
{
    if upto == 0 {
        0
    } else if out[upto - 1] == '\n' && follows(out, upto - 1, piece) {
        marked_upto(out, piece, (upto - 1) as nat) + 1
    } else {
        marked_upto(out, piece, (upto - 1) as nat)
    }
}

/// The number of newlines of `out` that `piece` directly follows.
pub open spec fn marked(out: Seq<char>, piece: Seq<char>) -> nat {
    marked_upto(out, piece, out.len())
}

/// Where `piece` follows every newline, the marked newlines are all of them.
pub proof fn lemma_marked_counts_newlines(out: Seq<char>, piece: Seq<char>, upto: nat)
    requires
        upto <= out.len(),
        forall|at: int| 0 <= at < out.len() && out[at] == '\n' ==> #[trigger] follows(out, at, piece),
    ensures
        marked_upto(out, piece, upto) == newlines(out.take(upto as int)),
    decreases upto,
{
    if upto > 0 {
        lemma_marked_counts_newlines(out, piece, (upto - 1) as nat);
        assert(out.take(upto as int).drop_last() == out.take(upto - 1));
        assert(out.take(upto as int).last() == out[upto - 1]);
    } else {
        assert(out.take(0).len() == 0);
    }
}

/// The newlines of two texts add up when one is put behind the other.
pub proof fn lemma_newlines_concat(a: Seq<char>, b: Seq<char>)
    ensures
        newlines(a + b) == newlines(a) + newlines(b),
    decreases b.len(),
{
    if b.len() == 0 {
        assert(a + b == a);
    } else {
        assert((a + b).drop_last() == a + b.drop_last());
        assert((a + b).last() == b.last());
        lemma_newlines_concat(a, b.drop_last());
    }
}

/// A text holds no newline exactly if its count of newlines is zero.
pub proof fn lemma_single_line_counts_zero(s: Seq<char>)
    ensures
        single_line(s) <==> newlines(s) == 0,
    decreases s.len(),
{
    if s.len() > 0 {
        lemma_single_line_counts_zero(s.drop_last());
        if single_line(s) {
            assert forall|i: int| 0 <= i < s.drop_last().len() implies s.drop_last()[i]
                != '\n' by {
                assert(s.drop_last()[i] == s[i]);
            }
        }
        if newlines(s) == 0 {
            assert forall|i: int| 0 <= i < s.len() implies s[i] != '\n' by {
                if i < s.len() - 1 {
                    assert(s.drop_last()[i] == s[i]);
                }
            }
        }
    }
}

/// Expanding newlines goes piece by piece: what holds of each part of a
/// message holds of the whole, in order.
pub proof fn lemma_expand_concat(a: Seq<char>, b: Seq<char>, sep: Seq<char>)
    ensures
        expand_newlines(a + b, sep) == expand_newlines(a, sep) + expand_newlines(b, sep),
    decreases b.len(),
{
    if b.len() == 0 {
        assert(a + b == a);
        assert(expand_newlines(a, sep) + Seq::<char>::empty() == expand_newlines(a, sep));
    } else {
        assert((a + b).drop_last() == a + b.drop_last());
        assert((a + b).last() == b.last());
        lemma_expand_concat(a, b.drop_last(), sep);
        let ea = expand_newlines(a, sep);
        let eb = expand_newlines(b.drop_last(), sep);
        if b.last() == '\n' {
            assert((ea + eb) + sep == ea + (eb + sep));
        } else {
            assert((ea + eb).push(b.last()) == ea + eb.push(b.last()));
        }
    }
}

/// A text without a newline is left as it is.
pub proof fn lemma_expand_single_line(s: Seq<char>, sep: Seq<char>)
    requires
        single_line(s),
    ensures
        expand_newlines(s, sep) == s,
    decreases s.len(),
{
    if s.len() > 0 {
        assert forall|i: int| 0 <= i < s.drop_last().len() implies s.drop_last()[i] != '\n' by {
            assert(s.drop_last()[i] == s[i]);
        }
        lemma_expand_single_line(s.drop_last(), sep);
        assert(s.drop_last().push(s.last()) == s);
    } else {
        assert(s == Seq::<char>::empty());
    }
}

/// A newline alone becomes the separator.
pub proof fn lemma_expand_newline(sep: Seq<char>)
    ensures
        expand_newlines(seq!['\n'], sep) == sep,
{
    let s = seq!['\n'];
    assert(s.drop_last() == Seq::<char>::empty());
    assert(expand_newlines(s.drop_last(), sep) == Seq::<char>::empty());
    assert(Seq::<char>::empty() + sep == sep);
}

/// A continuation holds one newline, its first character, when the marker
/// holds none.
pub proof fn lemma_continuation_shape(marker: Seq<char>)
    requires
        single_line(marker),
    ensures
        newlines(continuation(marker)) == 1,
        continuation(marker).len() == marker.len() + 2,
        continuation(marker)[0] == '\n',
        continuation(marker).skip(1) == marker + seq![' '],
        single_line(continuation(marker).skip(1)),
{
    let head = seq!['\n'];
    let tail = seq![' '];
    lemma_newlines_concat(head, marker);
    lemma_newlines_concat(head + marker, tail);
    lemma_single_line_counts_zero(marker);
    assert(head.drop_last() == Seq::<char>::empty());
    assert(tail.drop_last() == Seq::<char>::empty());
    assert(newlines(Seq::<char>::empty()) == 0);
    assert(newlines(head) == 1);
    assert(newlines(tail) == 0);
    assert(continuation(marker).skip(1) == marker + tail);
}

/// A message of `k` newlines comes out with `k` newlines: a marker without a
/// newline adds none, and none is lost.
pub proof fn lemma_expand_keeps_newlines(s: Seq<char>, marker: Seq<char>)
    requires
        single_line(marker),
    ensures
        newlines(expand_newlines(s, continuation(marker))) == newlines(s),
    decreases s.len(),
{
    let sep = continuation(marker);
    if s.len() > 0 {
        lemma_expand_keeps_newlines(s.drop_last(), marker);
        let front = expand_newlines(s.drop_last(), sep);
        if s.last() == '\n' {
            lemma_newlines_concat(front, sep);
            lemma_continuation_shape(marker);
        } else {
            assert(front.push(s.last()).drop_last() == front);
        }
    }
}

/// Every newline of the output is directly followed by the marker and a
/// blank, and so by what the message holds behind that newline.
pub proof fn lemma_marker_follows_newline(s: Seq<char>, marker: Seq<char>, at: int)
    requires
        single_line(marker),
        0 <= at < expand_newlines(s, continuation(marker)).len(),
        expand_newlines(s, continuation(marker))[at] == '\n',
    ensures
        follows(expand_newlines(s, continuation(marker)), at, marker + seq![' ']),
    decreases s.len(),
{
    let sep = continuation(marker);
    let out = expand_newlines(s, sep);
    let piece = marker + seq![' '];
    if s.len() > 0 {
        let front = expand_newlines(s.drop_last(), sep);
        lemma_continuation_shape(marker);
        if at < front.len() {
            assert(front[at] == out[at]);
            lemma_marker_follows_newline(s.drop_last(), marker, at);
            assert(out.subrange(at + 1, at + 1 + piece.len()) == front.subrange(
                at + 1,
                at + 1 + piece.len(),
            ));
        } else if s.last() == '\n' {
            let k = at - front.len();
            assert(out[at] == sep[k]);
            if k > 0 {
                assert(sep.skip(1)[k - 1] == sep[k]);
            }
            assert(out.subrange(at + 1, at + 1 + piece.len()) == sep.skip(1));
        } else {
            assert(out[at] == s.last());
        }
    }
}

/// Between a head and a tail without a newline, the expanded message keeps
/// its count of newlines, and each newline of the whole is followed by the
/// marker and a blank: as many markers start a line as the message holds
/// newlines.
pub proof fn lemma_continued_between(
    head: Seq<char>,
    body: Seq<char>,
    marker: Seq<char>,
    tail: Seq<char>,
)
    requires
        single_line(head),
        single_line(marker),
        single_line(tail),
    ensures
        newlines(head + expand_newlines(body, continuation(marker)) + tail) == newlines(body),
        marked(head + expand_newlines(body, continuation(marker)) + tail, marker + seq![' '])
            == newlines(body),
        forall|at: int|
            0 <= at < (head + expand_newlines(body, continuation(marker)) + tail).len() && (head
                + expand_newlines(body, continuation(marker)) + tail)[at] == '\n'
                ==> #[trigger] follows(
                head + expand_newlines(body, continuation(marker)) + tail,
                at,
                marker + seq![' '],
            ),
{
    let middle = expand_newlines(body, continuation(marker));
    let out = head + middle + tail;
    let piece = marker + seq![' '];
    lemma_newlines_concat(head, middle);
    lemma_newlines_concat(head + middle, tail);
    lemma_single_line_counts_zero(head);
    lemma_single_line_counts_zero(tail);
    lemma_expand_keeps_newlines(body, marker);
    assert forall|at: int| 0 <= at < out.len() && out[at] == '\n' implies #[trigger] follows(
        out,
        at,
        piece,
    ) by {
        let inner = at - head.len();
        if at >= head.len() + middle.len() {
            assert(out[at] == tail[inner - middle.len()]);
        }
        assert(0 <= inner < middle.len());
        assert(middle[inner] == out[at]);
        lemma_marker_follows_newline(body, marker, inner);
        assert(out.subrange(at + 1, at + 1 + piece.len()) == middle.subrange(
            inner + 1,
            inner + 1 + piece.len(),
        ));
    }
    lemma_marked_counts_newlines(out, piece, out.len());
    assert(out.take(out.len() as int) == out);
}

/// What the expanded text starts with, as far as it holds no newline, is
/// what the text itself starts with.
pub proof fn lemma_expand_head(s: Seq<char>, sep: Seq<char>, k: int)
    requires
        sep.len() > 0,
        sep[0] == '\n',
        0 <= k <= expand_newlines(s, sep).len(),
        forall|i: int| 0 <= i < k ==> expand_newlines(s, sep)[i] != '\n',
    ensures
        k <= s.len(),
        s.take(k) == expand_newlines(s, sep).take(k),
    decreases k,
{
    let out = expand_newlines(s, sep);
    if k == 0 {
        assert(s.take(0) == out.take(0));
    } else {
        assert(s.len() > 0);
        let first = seq![s[0]];
        let rest = s.skip(1);
        assert(first + rest == s);
        lemma_expand_concat(first, rest, sep);
        if s[0] == '\n' {
            lemma_expand_newline(sep);
            assert(out[0] == sep[0]);
        } else {
            lemma_expand_single_line(first, sep);
            let behind = expand_newlines(rest, sep);
            assert(out == first + behind);
            assert forall|i: int| 0 <= i < k - 1 implies behind[i] != '\n' by {
                assert(behind[i] == out[i + 1]);
            }
            lemma_expand_head(rest, sep, k - 1);
            assert(s.take(k) == first + rest.take(k - 1));
            assert(out.take(k) == first + behind.take(k - 1));
        }
    }
}

/// A decimal numeral holds digits only, and so no newline.
pub proof fn lemma_digits_single_line(n: nat)
    ensures
        single_line(digits_of(n)),
        digits_of(n).len() >= 1,
    decreases n,
{
    if n >= 10 {
        lemma_digits_single_line(n / 10);
    }
}

/// Replaces every newline of `s` by `sep`.
pub fn replace_newlines(s: &str, sep: &str) -> (out: String)
    ensures
        out@ == expand_newlines(s@, sep@),
{
    let mut out = String::new();
    let chars = s.chars();
    for c in it: chars
        invariant
            it.seq() == s@,
            out@ == expand_newlines(s@.take(it.index() as int), sep@),
    {
        proof {
            let i = it.index() as int;
            assert(s@.take(i + 1).drop_last() == s@.take(i));
            assert(s@.take(i + 1).last() == c);
        }
        if c == '\n' {
            out.append(sep);
        } else {
            out.push(c);
        }
    }
    proof {
        assert(s@.take(s@.len() as int) == s@);
    }
    out
}

/// The character of a decimal digit.
pub open spec fn digit_char(d: nat) -> char
    recommends
        d < 10,
{
    (48 + d) as char
}

/// `n` in decimal: no sign, no leading zero, `"0"` for zero.
pub open spec fn digits_of(n: nat) -> Seq<char>
    decreases n,
{
    if n < 10 {
        seq![digit_char(n)]
    } else {
        digits_of(n / 10).push(digit_char(n % 10))
    }
}

/// The digits in front of the last ones already taken off `rest`.
spec fn leading_digits(rest: nat) -> Seq<char> {
    if rest == 0 {
        Seq::empty()
    } else {
        digits_of(rest)
    }
}

/// Writes `n` in decimal.
pub fn decimal(n: u64) -> (out: String)
    ensures
        out@ == digits_of(n as nat),
{
    let mut low: Vec<char> = Vec::new();
    let mut rest: u64 = n;
    low.push((48u8 + (rest % 10) as u8) as char);
    rest = rest / 10;
    while rest > 0
        invariant
            low@.len() >= 1,
            digits_of(n as nat) == leading_digits(rest as nat) + low@.reverse(),
        decreases rest,
    {
        let ghost before = low@;
        low.push((48u8 + (rest % 10) as u8) as char);
        proof {
            assert(low@.reverse() == seq![digit_char((rest % 10) as nat)] + before.reverse());
            assert(digits_of(rest as nat) == leading_digits((rest / 10) as nat).push(
                digit_char((rest % 10) as nat),
            ));
        }
        rest = rest / 10;
    }
    let mut out = String::new();
    let mut k: usize = low.len();
    while k > 0
        invariant
            k <= low@.len(),
            out@ == low@.reverse().take(low@.len() - k),
        decreases k,
    {
        k = k - 1;
        out.push(low[k]);
        proof {
            let r = low@.reverse();
            let i = low@.len() - k - 1;
            assert(r.take(i + 1) == r.take(i).push(r[i]));
        }
    }
    proof {
        assert(low@.reverse().take(low@.len() as int) == low@.reverse());
    }
    out
}

} // verus!
