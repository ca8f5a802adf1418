//! Character classes of coordinate text and its division into tokens.

use vstd::prelude::*;

verus! {

/// White space that may surround or divide the parts of a coordinate.
pub open spec fn is_space(c: char) -> bool {
    c == ' ' || c == '\t' || c == '\n' || c == '\r' || c == '\u{A0}'
}

/// The degree sign and the marks written after minutes and seconds.
pub open spec fn is_mark(c: char) -> bool {
    c == '\u{B0}' || c == '\'' || c == '"' || c == '\u{2018}' || c == '\u{2019}' || c
        == '\u{201B}' || c == '\u{2032}' || c == '\u{201C}' || c == '\u{201D}' || c == '\u{2033}'
}

/// A character that divides two numeric components.
pub open spec fn is_separator(c: char) -> bool {
    is_space(c) || is_mark(c)
}

/// A decimal digit.
pub open spec fn is_digit(c: char) -> bool {
    '0' <= c && c <= '9'
}

/// The number a decimal digit stands for.
pub open spec fn digit_value(c: char) -> nat
    recommends
        is_digit(c),
{
    (c as int - '0' as int) as nat
}

/// Whether `c` is white space.
pub fn char_is_space(c: char) -> (r: bool)
    ensures
        r == is_space(c),
{
    c == ' ' || c == '\t' || c == '\n' || c == '\r' || c == '\u{A0}'
}

/// Whether `c` divides two numeric components.
pub fn char_is_separator(c: char) -> (r: bool)
    ensures
        r == is_separator(c),
{
    char_is_space(c) || c == '\u{B0}' || c == '\'' || c == '"' || c == '\u{2018}' || c
        == '\u{2019}' || c == '\u{201B}' || c == '\u{2032}' || c == '\u{201C}' || c == '\u{201D}'
        || c == '\u{2033}'
}

/// Whether `c` is a decimal digit.
pub fn char_is_digit(c: char) -> (r: bool)
    ensures
        r == is_digit(c),
{
    '0' <= c && c <= '9'
}

/// The number the decimal digit `c` stands for.
pub fn char_digit(c: char) -> (r: u8)
    requires
        is_digit(c),
    ensures
        r == digit_value(c),
        r <= 9,
{
    (c as u32 - '0' as u32) as u8
}

/// The characters of `text`, in order.
pub fn characters(text: &str) -> (r: Vec<char>)
    ensures
        r@ == text@,
{
    broadcast use vstd::string::group_string_axioms;

    let mut out: Vec<char> = Vec::new();
    for c in it: text.chars()
        invariant
            it.seq() == text@,
            out@ == text@.take(it.index()),
    {
        out.push(c);
    }
    out
}

/// Index of the first character at or after `from` that is no space, or the
/// length of `s` where only spaces follow.
pub open spec fn skip_spaces(s: Seq<char>, from: int) -> int
    decreases s.len() - from,
{
    if 0 <= from < s.len() && is_space(s[from]) {
        skip_spaces(s, from + 1)
    } else {
        from
    }
}

/// One past the last character before `to` that is no space, or 0 where only
/// spaces come before.
pub open spec fn drop_spaces(s: Seq<char>, to: int) -> int
    decreases to,
{
    if 0 < to <= s.len() && is_space(s[to - 1]) {
        drop_spaces(s, to - 1)
    } else {
        to
    }
}

/// `s` without the spaces at its two ends.
pub open spec fn trimmed(s: Seq<char>) -> Seq<char> {
    let a = skip_spaces(s, 0);
    if a >= s.len() {
        Seq::empty()
    } else {
        s.subrange(a, drop_spaces(s, s.len() as int))
    }
}

/// The tokens of `s`: its longest runs of characters that are no separators,
/// from left to right.
pub open spec fn tokens(s: Seq<char>) -> Seq<Seq<char>>
    decreases s.len(),
{
    if s.len() == 0 {
        Seq::empty()
    } else {
        let before = tokens(s.drop_last());
        if is_separator(s.last()) {
            before
        } else if ends_in_token(s.drop_last()) && before.len() > 0 {
            before.drop_last().push(before.last().push(s.last()))
        } else {
            before.push(seq![s.last()])
        }
    }
}

/// Whether the last character of `s` belongs to a token.
pub open spec fn ends_in_token(s: Seq<char>) -> bool {
    s.len() > 0 && !is_separator(s.last())
}

/// A range of positions in a text, `start` included and `end` excluded.
#[derive(Clone, Copy, Debug)]
pub struct Span {
    pub start: usize,
    pub end: usize,
}

/// Whether `spans` marks, from left to right and without overlap, the places
/// in `s` between `from` and `upto` where the tokens `toks` stand.
pub open spec fn spans_mark(
    spans: Seq<Span>,
    s: Seq<char>,
    from: int,
    upto: int,
    toks: Seq<Seq<char>>,
) -> bool {
    &&& spans.len() == toks.len()
    &&& forall|k: int|
        0 <= k < spans.len() ==> {
            &&& from <= (#[trigger] spans[k]).start < spans[k].end <= upto
            &&& s.subrange(spans[k].start as int, spans[k].end as int) == toks[k]
        }
    &&& forall|j: int, k: int|
        0 <= j < k < spans.len() ==> (#[trigger] spans[j]).end <= (#[trigger] spans[k]).start
}

/// Bounds of `s` without the spaces at its two ends.
pub fn trim_bounds(s: &Vec<char>) -> (r: Span)
    ensures
        r.start <= r.end <= s.len(),
        r.start == skip_spaces(s@, 0),
        r.end == if r.start < s.len() {
            drop_spaces(s@, s.len() as int)
        } else {
            s.len() as int
        },
        s@.subrange(r.start as int, r.end as int) == trimmed(s@),
        r.start == r.end <==> trimmed(s@).len() == 0,
{
    let n = s.len();
    let mut a: usize = 0;
    while a < n && char_is_space(s[a])
        invariant
            a <= n == s.len(),
            skip_spaces(s@, 0) == skip_spaces(s@, a as int),
        decreases n - a,
    {
        a += 1;
    }
    if a >= n {
        return Span { start: n, end: n };
    }
    let mut b: usize = n;
    while b > a + 1 && char_is_space(s[b - 1])
        invariant
            a < b <= n == s.len(),
            !is_space(s@[a as int]),
            drop_spaces(s@, n as int) == drop_spaces(s@, b as int),
        decreases b,
    {
        b -= 1;
    }
    Span { start: a, end: b }
}

/// The places of the tokens of `s` between `from` and `to`.
pub fn token_spans(s: &Vec<char>, from: usize, to: usize) -> (r: Vec<Span>)
    requires
        from <= to <= s.len(),
    ensures
        spans_mark(r@, s@, from as int, to as int, tokens(s@.subrange(from as int, to as int))),
{
    let ghost body = s@.subrange(from as int, to as int);
    let mut spans: Vec<Span> = Vec::new();
    let mut i: usize = from;
    while i < to
        invariant
            from <= i <= to <= s.len(),
            body == s@.subrange(from as int, to as int),
            spans_mark(spans@, s@, from as int, i as int, tokens(body.take(i - from))),
            ends_in_token(body.take(i - from)) ==> spans.len() > 0 && spans@.last().end == i,
        decreases to - i,
    {
        let c = s[i];
        let ghost seen = body.take(i - from);
        let ghost next = body.take(i + 1 - from);
        let ghost before = tokens(seen);
        proof {
            assert(next.drop_last() =~= seen);
            assert(next.last() == c);
        }
        if !char_is_separator(c) {
            let in_token = i > from && !char_is_separator(s[i - 1]);
            proof {
                if i > from {
                    assert(seen.last() == s@[i - 1]);
                }
                assert(in_token == ends_in_token(seen));
            }
            if in_token {
                let last = spans.len() - 1;
                let open = spans[last];
                let ghost earlier = spans@;
                spans.set(last, Span { start: open.start, end: i + 1 });
                proof {
                    assert(s@.subrange(open.start as int, i + 1) =~= before.last().push(c));
                    assert forall|k: int| 0 <= k < spans.len() implies {
                        &&& from <= (#[trigger] spans@[k]).start < spans@[k].end <= i + 1
                        &&& s@.subrange(spans@[k].start as int, spans@[k].end as int)
                            == tokens(next)[k]
                    } by {
                        if k < last {
                            assert(spans@[k] == earlier[k]);
                        }
                    }
                    assert forall|j: int, k: int| 0 <= j < k < spans.len() implies #[trigger] spans@[j].end
                        <= #[trigger] spans@[k].start by {
                        assert(spans@[j] == earlier[j]);
                        assert(spans@[k].start == earlier[k].start);
                    }
                }
            } else {
                let ghost earlier = spans@;
                spans.push(Span { start: i, end: i + 1 });
                proof {
                    assert(s@.subrange(i as int, i + 1) =~= seq![c]);
                    assert forall|k: int| 0 <= k < spans.len() implies {
                        &&& from <= (#[trigger] spans@[k]).start < spans@[k].end <= i + 1
                        &&& s@.subrange(spans@[k].start as int, spans@[k].end as int)
                            == tokens(next)[k]
                    } by {
                        if k < earlier.len() {
                            assert(spans@[k] == earlier[k]);
                        }
                    }
                    assert forall|j: int, k: int| 0 <= j < k < spans.len() implies #[trigger] spans@[j].end
                        <= #[trigger] spans@[k].start by {
                        assert(spans@[j] == earlier[j]);
                        if k < earlier.len() {
                            assert(spans@[k] == earlier[k]);
                        }
                    }
                }
            }
        }
        i += 1;
    }
    proof {
        assert(body.take(to - from) =~= body);
    }
    spans
}

} // verus!
