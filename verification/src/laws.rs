//! Laws of reading: what the separators and the hemisphere letters of an
//! angle do to what is read, and what is read back from a text that this
//! library wrote.

use crate::decimal::{
    all_digits, digits_value, fraction_digits, fraction_nanos, has_point, has_sign, is_cut,
    is_decimal, is_negative, lemma_pow10_small, magnitude, nano_units, nine_places, point_index, pow10,
    whole_digits, whole_value, WHOLE_LIMIT,
};
use crate::error::{Failure, Field};
use crate::parser::{
    angle_body, angle_of, arc_total, axis_limit, backward_letter, exceeds, first_unreadable,
    forward_letter, is_hemisphere, length_of,
    makes_dms, turns_sign, Axis, LENGTH_LIMIT,
};
use crate::render::{
    decimal_digits, degrees_text, digit_char, fixed_digits, fixed_point_text, metres_text,
    nearest, rounded, DEGREES_STEP, METRES_STEP,
};
use crate::text::{
    digit_value, drop_spaces, ends_in_token, is_digit, is_separator, is_space, skip_spaces,
    tokens, trimmed,
};
use vstd::prelude::*;

verus! {

/// Whether `c` may stand in a number that was written: a digit, the point
/// or the minus sign.
pub open spec fn is_written(c: char) -> bool {
    is_digit(c) || c == '.' || c == '-'
}

/// A digit is written by a digit, and read back as itself.
pub proof fn lemma_digit_char(d: nat)
    requires
        d < 10,
    ensures
        is_digit(digit_char(d)),
        digit_value(digit_char(d)) == d,
{
}

/// The digits written for a number are digits, and are read back as it.
pub proof fn lemma_decimal_digits(n: nat)
    ensures
        decimal_digits(n).len() > 0,
        all_digits(decimal_digits(n)),
        digits_value(decimal_digits(n)) == n,
    decreases n,
{
    let s = decimal_digits(n);
    lemma_digit_char(n % 10);
    if n < 10 {
        assert(s.drop_last() =~= Seq::<char>::empty());
        assert(digits_value(s.drop_last()) == 0);
    } else {
        lemma_decimal_digits(n / 10);
        assert(s.drop_last() =~= decimal_digits(n / 10));
        assert forall|i: int| 0 <= i < s.len() implies is_digit(#[trigger] s[i]) by {
            if i < s.len() - 1 {
                assert(s[i] == decimal_digits(n / 10)[i]);
            }
        }
    }
}

/// As many digits as were asked for are written for a number that needs no
/// more, and are read back as it.
pub proof fn lemma_fixed_digits(n: nat, width: nat)
    requires
        n < pow10(width),
    ensures
        fixed_digits(n, width).len() == width,
        all_digits(fixed_digits(n, width)),
        digits_value(fixed_digits(n, width)) == n,
    decreases width,
{
    let s = fixed_digits(n, width);
    if width > 0 {
        lemma_digit_char(n % 10);
        lemma_fixed_digits(n / 10, (width - 1) as nat);
        assert(s.drop_last() =~= fixed_digits(n / 10, (width - 1) as nat));
        assert forall|i: int| 0 <= i < s.len() implies is_digit(#[trigger] s[i]) by {
            if i < s.len() - 1 {
                assert(s[i] == fixed_digits(n / 10, (width - 1) as nat)[i]);
            }
        }
    }
}

/// Zeros behind the digits of a fraction multiply by ten each.
proof fn lemma_padded_prefix(f: Seq<char>, upto: nat)
    requires
        all_digits(f),
        f.len() <= upto <= 9,
    ensures
        digits_value(nine_places(f).take(upto as int)) == digits_value(f) * pow10(
            (upto - f.len()) as nat,
        ),
    decreases upto,
{
    let np = nine_places(f);
    if upto == f.len() {
        assert(np.take(upto as int) =~= f);
        assert(pow10(0) == 1);
        assert(digits_value(f) * 1 == digits_value(f));
    } else {
        lemma_padded_prefix(f, (upto - 1) as nat);
        let s = np.take(upto as int);
        assert(s.drop_last() =~= np.take(upto - 1));
        assert(s.last() == '0');
        assert(digits_value(s) == digits_value(np.take(upto - 1)) * 10);
        let less = pow10((upto - 1 - f.len()) as nat);
        let more = pow10((upto - f.len()) as nat);
        assert(more == 10 * less);
        assert(digits_value(f) * less * 10 == digits_value(f) * more) by (nonlinear_arith)
            requires
                more == 10 * less,
        ;
    }
}

/// A fraction of at most nine digits counts billionths by its digits and the
/// zeros that fill it up.
pub proof fn lemma_padded_value(f: Seq<char>)
    requires
        all_digits(f),
        f.len() <= 9,
    ensures
        digits_value(nine_places(f)) == digits_value(f) * pow10((9 - f.len()) as nat),
{
    lemma_padded_prefix(f, 9);
    assert(nine_places(f).take(9) =~= nine_places(f));
}

/// The first point stands where one stands with none before it.
proof fn lemma_point_index_at(u: Seq<char>, from: int, at: int)
    requires
        0 <= from <= at < u.len(),
        u[at] == '.',
        forall|j: int| from <= j < at ==> u[j] != '.',
    ensures
        point_index(u, from) == at,
    decreases at - from,
{
    if from < at {
        lemma_point_index_at(u, from + 1, at);
    }
}

/// A text without separators is one token.
pub proof fn lemma_single_token(s: Seq<char>)
    requires
        s.len() > 0,
        forall|i: int| 0 <= i < s.len() ==> !is_separator(#[trigger] s[i]),
    ensures
        tokens(s) == seq![s],
    decreases s.len(),
{
    let init = s.drop_last();
    if init.len() == 0 {
        assert(tokens(init) =~= Seq::<Seq<char>>::empty());
        assert(seq![s.last()] =~= s);
        assert(tokens(s) =~= seq![s]);
    } else {
        assert forall|i: int| 0 <= i < init.len() implies !is_separator(#[trigger] init[i]) by {
            assert(init[i] == s[i]);
        }
        lemma_single_token(init);
        assert(init.last() == s[s.len() - 2]);
        assert(ends_in_token(init));
        assert(init.push(s.last()) =~= s);
        assert(tokens(s) =~= seq![s]);
    }
}

/// What a number that was written with `places` digits behind the point is
/// read as.
pub proof fn lemma_written_number(negative: bool, q: nat, places: nat)
    requires
        1 <= places <= 9,
    ensures
        ({
            let t = fixed_point_text(negative, q, places);
            &&& t.len() > 0
            &&& forall|i: int| 0 <= i < t.len() ==> is_written(#[trigger] t[i])
            &&& is_digit(t.last())
            &&& is_decimal(t)
            &&& has_point(t)
            &&& has_sign(t) == (negative && q > 0)
            &&& is_negative(t) == (negative && q > 0)
            &&& whole_value(t) == q / pow10(places)
            &&& fraction_nanos(t) == (q % pow10(places)) * pow10((9 - places) as nat)
            &&& !is_cut(t)
        }),
{
    let t = fixed_point_text(negative, q, places);
    let scale = pow10(places);
    lemma_pow10_positive(places);
    let w = decimal_digits(q / scale);
    let f = fixed_digits(q % scale, places);
    lemma_decimal_digits(q / scale);
    lemma_fixed_digits(q % scale, places);
    let u = w + seq!['.'] + f;
    assert(is_digit(w[0]));
    assert(is_digit(f.last()));
    if negative && q > 0 {
        assert(t =~= seq!['-'] + u);
        assert(t[0] == '-');
        assert(t.drop_first() =~= u);
    } else {
        assert(t =~= u);
        assert(t[0] == w[0]);
    }
    assert(magnitude(t) == u);
    assert(u[w.len() as int] == '.');
    assert forall|j: int| 0 <= j < w.len() implies u[j] != '.' by {
        assert(u[j] == w[j]);
        assert(is_digit(w[j]));
    }
    lemma_point_index_at(u, 0, w.len() as int);
    assert(whole_digits(t) =~= w);
    assert(fraction_digits(t) =~= f);
    lemma_padded_value(f);
    assert(t.last() == f.last());
    assert forall|i: int| 0 <= i < t.len() implies is_written(#[trigger] t[i]) by {
        let k = if negative && q > 0 {
            i - 1
        } else {
            i
        };
        if k >= 0 {
            assert(t[i] == u[k]);
            if k < w.len() {
                assert(u[k] == w[k]);
                assert(is_digit(w[k]));
            } else if k > w.len() {
                assert(u[k] == f[k - w.len() - 1]);
                assert(is_digit(f[k - w.len() - 1]));
            }
        }
    }
}

/// Powers of ten are above zero.
pub proof fn lemma_pow10_positive(n: nat)
    ensures
        pow10(n) > 0,
    decreases n,
{
    if n > 0 {
        lemma_pow10_positive((n - 1) as nat);
    }
}

/// A length that was written in metres is read back as the length to the
/// nearest step of writing, which is no more than half a step away; and
/// what is read back is written as the same text again.
pub proof fn lemma_metres_read_back(v: int, field: Field)
    requires
        -LENGTH_LIMIT + METRES_STEP / 2 < v < LENGTH_LIMIT - METRES_STEP / 2,
    ensures
        length_of(metres_text(v), field) == Ok::<int, Failure>(nearest(v, METRES_STEP as int)),
        -(METRES_STEP / 2) <= nearest(v, METRES_STEP as int) - v <= METRES_STEP / 2,
        metres_text(nearest(v, METRES_STEP as int)) == metres_text(v),
{
    let q = rounded(v, METRES_STEP as int);
    let t = metres_text(v);
    lemma_written_number(v < 0, q, 4);
    lemma_pow10_small();
    assert(nano_units(t) == q * 100_000);
    assert(whole_value(t) < WHOLE_LIMIT);
    let back = nearest(v, METRES_STEP as int);
    assert(rounded(back, METRES_STEP as int) == q);
    if q == 0 {
        assert(fixed_point_text(back < 0, q, 4) =~= fixed_point_text(v < 0, q, 4));
    }
}

/// An angle that was written in degrees is read back as the angle to the
/// nearest step of writing, which is no more than half a step away; and
/// what is read back is written as the same text again.
pub proof fn lemma_degrees_read_back(v: int, axis: Axis)
    requires
        -axis_limit(axis) <= v <= axis_limit(axis),
    ensures
        angle_of(degrees_text(v), axis) == Ok::<int, Failure>(nearest(v, DEGREES_STEP as int)),
        -(DEGREES_STEP / 2) <= nearest(v, DEGREES_STEP as int) - v <= DEGREES_STEP / 2,
        -axis_limit(axis) <= nearest(v, DEGREES_STEP as int) <= axis_limit(axis),
        degrees_text(nearest(v, DEGREES_STEP as int)) == degrees_text(v),
{
    let q = rounded(v, DEGREES_STEP as int);
    let t = degrees_text(v);
    lemma_written_number(v < 0, q, 8);
    lemma_pow10_small();
    assert(nano_units(t) == q * 10);
    assert(is_written(t[0]));
    assert(!is_space(t[0]) && !is_space(t.last()));
    assert(skip_spaces(t, 0) == 0);
    assert(drop_spaces(t, t.len() as int) == t.len());
    assert(t.subrange(0, t.len() as int) =~= t);
    assert(trimmed(t) == t);
    assert(!is_hemisphere(axis, t[0]) && !is_hemisphere(axis, t.last()));
    assert(angle_body(t, axis) == t);
    assert(!turns_sign(t, axis));
    assert forall|i: int| 0 <= i < t.len() implies !is_separator(#[trigger] t[i]) by {
        assert(is_written(t[i]));
    }
    lemma_single_token(t);
    let toks = tokens(t);
    assert(toks[0] == t);
    assert(first_unreadable(toks, 1) == 1);
    assert(first_unreadable(toks, 0) == 1);
    assert(makes_dms(toks));
    assert(arc_total(toks) == q * 36_000);
    assert(toks.last() == t);
    assert(!exceeds(toks, axis_limit(axis)));
    let back = nearest(v, DEGREES_STEP as int);
    assert(rounded(back, DEGREES_STEP as int) == q);
    if q == 0 {
        assert(fixed_point_text(back < 0, q, 8) =~= fixed_point_text(v < 0, q, 8));
    }
}

/// No token is empty, none holds a separator, and a text that ends in
/// something other than a separator has a token.
pub proof fn lemma_tokens_hold_no_separator(s: Seq<char>)
    ensures
        forall|k: int| 0 <= k < tokens(s).len() ==> (#[trigger] tokens(s)[k]).len() > 0,
        forall|k: int, i: int|
            0 <= k < tokens(s).len() && 0 <= i < tokens(s)[k].len() ==> !is_separator(
                #[trigger] tokens(s)[k][i],
            ),
        ends_in_token(s) ==> tokens(s).len() > 0,
    decreases s.len(),
{
    if s.len() > 0 {
        let init = s.drop_last();
        let before = tokens(init);
        lemma_tokens_hold_no_separator(init);
        if !is_separator(s.last()) && ends_in_token(init) {
            let grown = before.last().push(s.last());
            assert forall|k: int, i: int|
                0 <= k < tokens(s).len() && 0 <= i < tokens(s)[k].len() implies !is_separator(
                #[trigger] tokens(s)[k][i],
            ) by {
                if k < before.len() - 1 {
                    assert(tokens(s)[k] == before[k]);
                } else {
                    assert(tokens(s)[k] == grown);
                    if i < before.last().len() {
                        assert(grown[i] == before[before.len() - 1][i]);
                    }
                }
            }
            assert forall|k: int| 0 <= k < tokens(s).len() implies (#[trigger] tokens(s)[k]).len()
                > 0 by {
                if k < before.len() - 1 {
                    assert(tokens(s)[k] == before[k]);
                }
            }
        } else if !is_separator(s.last()) {
            assert forall|k: int, i: int|
                0 <= k < tokens(s).len() && 0 <= i < tokens(s)[k].len() implies !is_separator(
                #[trigger] tokens(s)[k][i],
            ) by {
                if k < before.len() {
                    assert(tokens(s)[k] == before[k]);
                }
            }
            assert forall|k: int| 0 <= k < tokens(s).len() implies (#[trigger] tokens(s)[k]).len()
                > 0 by {
                if k < before.len() {
                    assert(tokens(s)[k] == before[k]);
                }
            }
        }
    }
}

/// Whether two texts differ in nothing but which separator stands at a
/// place.
pub open spec fn alike(s1: Seq<char>, s2: Seq<char>) -> bool {
    &&& s1.len() == s2.len()
    &&& forall|i: int|
        0 <= i < s1.len() ==> {
            &&& is_separator(#[trigger] s1[i]) == is_separator(s2[i])
            &&& !is_separator(s1[i]) ==> s1[i] == s2[i]
        }
}

/// Texts that differ only in which separators they hold have the same
/// tokens.
pub proof fn lemma_tokens_alike(s1: Seq<char>, s2: Seq<char>)
    requires
        alike(s1, s2),
    ensures
        tokens(s1) == tokens(s2),
    decreases s1.len(),
{
    if s1.len() > 0 {
        let i1 = s1.drop_last();
        let i2 = s2.drop_last();
        assert forall|i: int| 0 <= i < i1.len() implies {
            &&& is_separator(#[trigger] i1[i]) == is_separator(i2[i])
            &&& !is_separator(i1[i]) ==> i1[i] == i2[i]
        } by {
            assert(i1[i] == s1[i] && i2[i] == s2[i]);
        }
        lemma_tokens_alike(i1, i2);
        assert(is_separator(s1[s1.len() - 1]) == is_separator(s2[s1.len() - 1]));
        if i1.len() > 0 {
            assert(is_separator(i1[i1.len() - 1]) == is_separator(i2[i1.len() - 1]));
        }
    }
}

/// Which separators stand between and behind the numbers of an angle makes
/// no difference to what is read: two texts that begin and end with
/// something other than a separator, and differ only in which separators
/// they hold, denote the same.
pub proof fn lemma_separators_alike(s1: Seq<char>, s2: Seq<char>, axis: Axis)
    requires
        alike(s1, s2),
        s1.len() > 0 ==> !is_separator(s1[0]) && !is_separator(s1.last()),
    ensures
        angle_of(s1, axis) == angle_of(s2, axis),
{
    if s1.len() == 0 {
        assert(s1 =~= s2);
    } else {
        assert(s1[0] == s2[0] && s1.last() == s2.last());
        assert(skip_spaces(s1, 0) == 0 && skip_spaces(s2, 0) == 0);
        assert(drop_spaces(s1, s1.len() as int) == s1.len());
        assert(drop_spaces(s2, s2.len() as int) == s2.len());
        assert(s1.subrange(0, s1.len() as int) =~= s1);
        assert(s2.subrange(0, s2.len() as int) =~= s2);
        let b1 = angle_body(s1, axis);
        let b2 = angle_body(s2, axis);
        assert(alike(b1, b2)) by {
            assert(b1.len() == b2.len());
            let skipped: int = if is_hemisphere(axis, s1[0]) {
                1
            } else {
                0
            };
            assert forall|i: int| 0 <= i < b1.len() implies {
                &&& is_separator(#[trigger] b1[i]) == is_separator(b2[i])
                &&& !is_separator(b1[i]) ==> b1[i] == b2[i]
            } by {
                assert(b1[i] == s1[i + skipped] && b2[i] == s2[i + skipped]);
            }
        }
        lemma_tokens_alike(b1, b2);
    }
}

/// A result with the sign of its angle turned.
pub open spec fn turned(r: Result<int, Failure>) -> Result<int, Failure> {
    match r {
        Ok(v) => Ok(-v),
        Err(e) => Err(e),
    }
}

/// A character behind a text does not move the place of its first
/// character that is no space.
proof fn lemma_skip_spaces_push(b: Seq<char>, c: char, from: int)
    requires
        0 <= from <= skip_spaces(b, from) < b.len(),
    ensures
        skip_spaces(b.push(c), from) == skip_spaces(b, from),
    decreases b.len() - from,
{
    assert(b.push(c)[from] == b[from]);
    if is_space(b[from]) {
        lemma_skip_spaces(b, from + 1);
        lemma_skip_spaces_push(b, c, from + 1);
    }
}

/// Spaces alone stand behind the last character that is no space.
proof fn lemma_drop_spaces(s: Seq<char>, to: int)
    requires
        0 <= to <= s.len(),
    ensures
        0 <= drop_spaces(s, to) <= to,
        forall|i: int| drop_spaces(s, to) <= i < to ==> is_space(#[trigger] s[i]),
        drop_spaces(s, to) > 0 ==> !is_space(s[drop_spaces(s, to) - 1]),
    decreases to,
{
    if 0 < to && is_space(s[to - 1]) {
        lemma_drop_spaces(s, to - 1);
    }
}

/// The first character that is no space stands where the search starts or
/// behind it, with spaces alone between.
proof fn lemma_skip_spaces(s: Seq<char>, from: int)
    requires
        0 <= from <= s.len(),
    ensures
        from <= skip_spaces(s, from) <= s.len(),
        skip_spaces(s, from) < s.len() ==> !is_space(s[skip_spaces(s, from)]),
    decreases s.len() - from,
{
    if from < s.len() && is_space(s[from]) {
        lemma_skip_spaces(s, from + 1);
    }
}

/// Separators behind a text add no token.
proof fn lemma_tokens_without_tail(s: Seq<char>, upto: int)
    requires
        0 <= upto <= s.len(),
        forall|i: int| upto <= i < s.len() ==> is_separator(#[trigger] s[i]),
    ensures
        tokens(s) == tokens(s.take(upto)),
    decreases s.len() - upto,
{
    if upto < s.len() {
        let init = s.drop_last();
        assert(is_separator(s[s.len() - 1]));
        assert forall|i: int| upto <= i < init.len() implies is_separator(#[trigger] init[i]) by {
            assert(init[i] == s[i]);
        }
        lemma_tokens_without_tail(init, upto);
        assert(init.take(upto) =~= s.take(upto));
    } else {
        assert(s.take(upto) =~= s);
    }
}

/// The letter of the backward hemisphere turns the sign of what the letter
/// of the forward hemisphere gives: behind any text whose first character
/// that is no space is no hemisphere letter itself, south reads as north
/// with the sign turned, and west as east.
pub proof fn lemma_backward_letter_turns(b: Seq<char>, axis: Axis)
    requires
        skip_spaces(b, 0) < b.len(),
        !is_hemisphere(axis, b[skip_spaces(b, 0)]),
    ensures
        angle_of(b.push(backward_letter(axis)), axis) == turned(
            angle_of(b.push(forward_letter(axis)), axis),
        ),
{
    let s1 = b.push(forward_letter(axis));
    let s2 = b.push(backward_letter(axis));
    let a = skip_spaces(b, 0);
    lemma_skip_spaces(b, 0);
    lemma_skip_spaces_push(b, forward_letter(axis), 0);
    lemma_skip_spaces_push(b, backward_letter(axis), 0);
    assert(!is_space(s1.last()) && !is_space(s2.last()));
    assert(drop_spaces(s1, s1.len() as int) == s1.len());
    assert(drop_spaces(s2, s2.len() as int) == s2.len());
    let t1 = trimmed(s1);
    let t2 = trimmed(s2);
    assert(t1[0] == b[a] && t2[0] == b[a]);
    assert(t1.last() == forward_letter(axis) && t2.last() == backward_letter(axis));
    assert(angle_body(t1, axis) =~= b.subrange(a, b.len() as int));
    assert(angle_body(t2, axis) =~= b.subrange(a, b.len() as int));
}

/// The letter of the forward hemisphere keeps what is read without a
/// letter: behind any text that neither begins nor ends with a hemisphere
/// letter, spaces left aside, north and east change nothing.
pub proof fn lemma_forward_letter_keeps(b: Seq<char>, axis: Axis)
    requires
        skip_spaces(b, 0) < b.len(),
        !is_hemisphere(axis, b[skip_spaces(b, 0)]),
        !is_hemisphere(axis, b[drop_spaces(b, b.len() as int) - 1]),
    ensures
        angle_of(b.push(forward_letter(axis)), axis) == angle_of(b, axis),
{
    let s1 = b.push(forward_letter(axis));
    let a = skip_spaces(b, 0);
    let e = drop_spaces(b, b.len() as int);
    lemma_skip_spaces(b, 0);
    lemma_drop_spaces(b, b.len() as int);
    assert(a < e) by {
        if e <= a {
            assert(is_space(b[a]));
        }
    }
    lemma_skip_spaces_push(b, forward_letter(axis), 0);
    assert(!is_space(s1.last()));
    assert(drop_spaces(s1, s1.len() as int) == s1.len());
    let t1 = trimmed(s1);
    let t = trimmed(b);
    assert(t1[0] == b[a] && t1.last() == forward_letter(axis));
    assert(t[0] == b[a] && t.last() == b[e - 1]);
    let body1 = b.subrange(a, b.len() as int);
    assert(angle_body(t1, axis) =~= body1);
    assert(angle_body(t, axis) =~= b.subrange(a, e));
    assert forall|i: int| e - a <= i < body1.len() implies is_separator(#[trigger] body1[i]) by {
        assert(body1[i] == b[i + a]);
    }
    lemma_tokens_without_tail(body1, e - a);
    assert(body1.take(e - a) =~= b.subrange(a, e));
}

} // verus!
