//! Reading of angles and lengths from text.

use crate::decimal::{
    has_point, has_sign, is_cut, is_decimal, is_negative, nano_units, read_decimal, reads,
    whole_value, Reading, NANOS_PER_UNIT, WHOLE_LIMIT,
};
use crate::error::{Failure, Field, ParseError};
use crate::text::{characters, spans_mark, token_spans, tokens, trim_bounds, trimmed};
use vstd::prelude::*;
use vstd::string::StrSliceExecFns;

verus! {

/// The two axes an angle may be measured along.
#[derive(Clone, Copy, Debug, PartialEq, Eq, Structural)]
pub enum Axis {
    Latitude,
    Longitude,
}

/// A quarter turn, the largest latitude, in billionths of an arcsecond.
pub const LATITUDE_LIMIT: i64 = 324_000_000_000_000;

/// A half turn, the largest longitude, in billionths of an arcsecond.
pub const LONGITUDE_LIMIT: i64 = 648_000_000_000_000;

/// No length is this large: a billion billion metres, in billionths of a
/// metre.
pub const LENGTH_LIMIT: i128 = 1_000_000_000_000_000_000_000_000_000;

/// The field an angle of `axis` is entered in.
pub open spec fn axis_field(axis: Axis) -> Field {
    match axis {
        Axis::Latitude => Field::Latitude,
        Axis::Longitude => Field::Longitude,
    }
}

/// The largest size of an angle along `axis`, in billionths of an arcsecond.
pub open spec fn axis_limit(axis: Axis) -> int {
    match axis {
        Axis::Latitude => LATITUDE_LIMIT as int,
        Axis::Longitude => LONGITUDE_LIMIT as int,
    }
}

/// The letter of the hemisphere in which angles along `axis` are counted
/// upwards: north or east.
pub open spec fn forward_letter(axis: Axis) -> char {
    match axis {
        Axis::Latitude => 'N',
        Axis::Longitude => 'E',
    }
}

/// The letter of the opposite hemisphere: south or west.
pub open spec fn backward_letter(axis: Axis) -> char {
    match axis {
        Axis::Latitude => 'S',
        Axis::Longitude => 'W',
    }
}

/// Whether `c` names a hemisphere of `axis`.
pub open spec fn is_hemisphere(axis: Axis, c: char) -> bool {
    c == forward_letter(axis) || c == backward_letter(axis)
}

/// The numbers of the angle `t`, a text without spaces at its ends: `t`
/// without the hemisphere letter that it begins with or, failing that, ends
/// in.
pub open spec fn angle_body(t: Seq<char>, axis: Axis) -> Seq<char>
    recommends
        t.len() > 0,
{
    if is_hemisphere(axis, t[0]) {
        t.drop_first()
    } else if is_hemisphere(axis, t.last()) {
        t.drop_last()
    } else {
        t
    }
}

/// Whether the hemisphere letter of `t` turns the angle's sign.
pub open spec fn turns_sign(t: Seq<char>, axis: Axis) -> bool
    recommends
        t.len() > 0,
{
    if is_hemisphere(axis, t[0]) {
        t[0] == backward_letter(axis)
    } else {
        t.last() == backward_letter(axis)
    }
}

/// Index of the first token at or after `from` that is no decimal number, or
/// the count of tokens where all of them are.
pub open spec fn first_unreadable(toks: Seq<Seq<char>>, from: int) -> int
    decreases toks.len() - from,
{
    if 0 <= from < toks.len() && is_decimal(toks[from]) {
        first_unreadable(toks, from + 1)
    } else {
        from
    }
}

/// Whether the numbers `toks` make up degrees, then minutes, then seconds:
/// one to three of them, a sign on the first alone, a point in the last
/// alone, and minutes and seconds below a hundred.
pub open spec fn makes_dms(toks: Seq<Seq<char>>) -> bool {
    &&& 1 <= toks.len() <= 3
    &&& forall|k: int|
        0 < k < toks.len() ==> !has_sign(#[trigger] toks[k]) && whole_value(toks[k]) < 100
    &&& forall|k: int| 0 <= k < toks.len() - 1 ==> !has_point(#[trigger] toks[k])
}

/// The size of the angle that the numbers `toks` make up, in billionths of
/// an arcsecond: degrees and sixtieths and their sixtieths.
pub open spec fn arc_total(toks: Seq<Seq<char>>) -> nat
    recommends
        1 <= toks.len(),
{
    nano_units(toks[0]) * 3600 + (if toks.len() > 1 {
        nano_units(toks[1]) * 60
    } else {
        0
    }) + (if toks.len() > 2 {
        nano_units(toks[2])
    } else {
        0
    })
}

/// Whether the angle that the numbers `toks` make up is larger than `limit`:
/// whether what is held of it is, or is as large while a digit that is not
/// held makes the angle larger still.
pub open spec fn exceeds(toks: Seq<Seq<char>>, limit: int) -> bool
    recommends
        1 <= toks.len(),
{
    arc_total(toks) > limit || (arc_total(toks) == limit && is_cut(toks.last()))
}

/// What the text of an angle along `axis` denotes, in billionths of an
/// arcsecond and with what is less than one of them dropped, or why it
/// denotes nothing.
pub open spec fn angle_of(text: Seq<char>, axis: Axis) -> Result<int, Failure> {
    let t = trimmed(text);
    let toks = tokens(angle_body(t, axis));
    let bad = first_unreadable(toks, 0);
    if t.len() == 0 || toks.len() == 0 {
        Err(Failure::Empty(axis_field(axis)))
    } else if bad < toks.len() {
        Err(Failure::NotNumeric(axis_field(axis), toks[bad]))
    } else if !makes_dms(toks) {
        Err(Failure::MalformedDms(axis_field(axis)))
    } else if exceeds(toks, axis_limit(axis)) {
        Err(Failure::OutOfRange(axis_field(axis)))
    } else if is_negative(toks[0]) != turns_sign(t, axis) {
        Ok(-(arc_total(toks) as int))
    } else {
        Ok(arc_total(toks) as int)
    }
}

/// What the text of a length denotes, in billionths of a metre, or why it
/// denotes nothing.
pub open spec fn length_of(text: Seq<char>, field: Field) -> Result<int, Failure> {
    if text.len() == 0 {
        Err(Failure::Empty(field))
    } else if !is_decimal(text) || whole_value(text) >= WHOLE_LIMIT {
        Err(Failure::NotNumeric(field, text))
    } else if is_negative(text) {
        Ok(-(nano_units(text) as int))
    } else {
        Ok(nano_units(text) as int)
    }
}

/// Reads a length in metres, written as a plain decimal number, into
/// billionths of a metre.
pub fn parse_length(text: &str, field: Field) -> (r: Result<i128, ParseError>)
    ensures
        match r {
            Ok(v) => length_of(text@, field) == Ok::<int, Failure>(v as int),
            Err(e) => length_of(text@, field) == Err::<int, Failure>(e@),
        },
        r matches Ok(v) ==> -LENGTH_LIMIT < v < LENGTH_LIMIT,
{
    let chars = characters(text);
    if chars.len() == 0 {
        return Err(ParseError::EmptyOrMalformedField { field });
    }
    proof {
        assert(chars@.subrange(0, chars.len() as int) =~= text@);
    }
    match read_decimal(&chars, 0, chars.len()) {
        None => Err(ParseError::NumericParseFailure { field, text: text.to_owned() }),
        Some(n) => {
            if n.whole >= WHOLE_LIMIT {
                Err(ParseError::NumericParseFailure { field, text: text.to_owned() })
            } else {
                let size: i128 = n.whole as i128 * NANOS_PER_UNIT as i128 + n.nanos as i128;
                if n.negative {
                    Ok(-size)
                } else {
                    Ok(size)
                }
            }
        },
    }
}

/// All tokens before the first unreadable one are decimal numbers.
pub proof fn lemma_first_unreadable(toks: Seq<Seq<char>>, from: int)
    requires
        0 <= from <= toks.len(),
    ensures
        from <= first_unreadable(toks, from) <= toks.len(),
        forall|k: int| from <= k < first_unreadable(toks, from) ==> is_decimal(#[trigger] toks[k]),
        first_unreadable(toks, from) < toks.len() ==> !is_decimal(
            toks[first_unreadable(toks, from)],
        ),
    decreases toks.len() - from,
{
    if from < toks.len() && is_decimal(toks[from]) {
        lemma_first_unreadable(toks, from + 1);
    }
}

fn field_of(axis: Axis) -> (r: Field)
    ensures
        r == axis_field(axis),
{
    match axis {
        Axis::Latitude => Field::Latitude,
        Axis::Longitude => Field::Longitude,
    }
}

fn limit_of(axis: Axis) -> (r: u64)
    ensures
        r == axis_limit(axis),
{
    match axis {
        Axis::Latitude => 324_000_000_000_000,
        Axis::Longitude => 648_000_000_000_000,
    }
}

fn names_hemisphere(axis: Axis, c: char) -> (r: bool)
    ensures
        r == is_hemisphere(axis, c),
{
    match axis {
        Axis::Latitude => c == 'N' || c == 'S',
        Axis::Longitude => c == 'E' || c == 'W',
    }
}

fn names_backward(axis: Axis, c: char) -> (r: bool)
    ensures
        r == (c == backward_letter(axis)),
{
    match axis {
        Axis::Latitude => c == 'S',
        Axis::Longitude => c == 'W',
    }
}

/// The size of a reading in billionths, for a whole part that is known to be
/// small.
fn small_units(n: &Reading) -> (r: u64)
    requires
        n.whole <= 1000,
        n.nanos < NANOS_PER_UNIT,
    ensures
        r == n.whole * 1_000_000_000 + n.nanos,
{
    n.whole * NANOS_PER_UNIT + n.nanos as u64
}

/// Reads an angle along `axis` into billionths of an arcsecond.
///
/// The text holds one to three numbers: degrees, minutes and seconds, with
/// spaces, a degree sign or minute and second marks between and behind them,
/// and may begin or end with the letter of a hemisphere. South and west turn
/// the sign that the degrees were written with.
pub fn parse_angle(text: &str, axis: Axis) -> (r: Result<i64, ParseError>)
    ensures
        match r {
            Ok(v) => angle_of(text@, axis) == Ok::<int, Failure>(v as int),
            Err(e) => angle_of(text@, axis) == Err::<int, Failure>(e@),
        },
        r matches Ok(v) ==> -axis_limit(axis) <= v <= axis_limit(axis),
{
    let field = field_of(axis);
    let chars = characters(text);
    let bounds = trim_bounds(&chars);
    if bounds.start == bounds.end {
        return Err(ParseError::EmptyOrMalformedField { field });
    }
    let ghost t = trimmed(text@);
    let mut from: usize = bounds.start;
    let mut to: usize = bounds.end;
    let mut turned = false;
    proof {
        assert(t[0] == chars@[from as int]);
        assert(t.last() == chars@[to - 1]);
    }
    if names_hemisphere(axis, chars[from]) {
        turned = names_backward(axis, chars[from]);
        from += 1;
    } else if names_hemisphere(axis, chars[to - 1]) {
        turned = names_backward(axis, chars[to - 1]);
        to -= 1;
    }
    let ghost body = angle_body(t, axis);
    proof {
        assert(chars@.subrange(from as int, to as int) =~= body);
    }
    let ghost toks = tokens(body);
    let spans = token_spans(&chars, from, to);
    if spans.len() == 0 {
        return Err(ParseError::EmptyOrMalformedField { field });
    }
    let mut numbers: Vec<Reading> = Vec::new();
    let mut k: usize = 0;
    while k < spans.len()
        invariant
            k <= spans.len(),
            chars@ == text@,
            from <= to <= chars.len(),
            spans_mark(spans@, chars@, from as int, to as int, toks),
            first_unreadable(toks, 0) == first_unreadable(toks, k as int),
            numbers.len() == k,
            forall|j: int| 0 <= j < k ==> reads(#[trigger] numbers@[j], toks[j]),
            t == trimmed(text@),
            t.len() > 0,
            toks == tokens(angle_body(t, axis)),
            toks.len() > 0,
            field == axis_field(axis),
        decreases spans.len() - k,
    {
        let span = spans[k];
        match read_decimal(&chars, span.start, span.end) {
            None => {
                let piece = text.substring_char(span.start, span.end);
                return Err(ParseError::NumericParseFailure { field, text: piece.to_owned() });
            },
            Some(n) => {
                numbers.push(n);
            },
        }
        k += 1;
    }
    let count = numbers.len();
    if count > 3 {
        return Err(ParseError::MalformedDmsFormat { field });
    }
    let degrees = numbers[0];
    let mut total: u64 = 0;
    if count >= 2 {
        let minutes = numbers[1];
        if degrees.pointed || minutes.signed || minutes.whole >= 100 {
            return Err(ParseError::MalformedDmsFormat { field });
        }
        total = small_units(&minutes) * 60;
    }
    if count == 3 {
        let seconds = numbers[2];
        if numbers[1].pointed || seconds.signed || seconds.whole >= 100 {
            return Err(ParseError::MalformedDmsFormat { field });
        }
        total = total + small_units(&seconds);
    }
    assert(makes_dms(toks));
    if degrees.whole > 180 {
        return Err(ParseError::OutOfRangeValue { field });
    }
    total = total + small_units(&degrees) * 3600;
    assert(total == arc_total(toks));
    let limit = limit_of(axis);
    if total > limit || (total == limit && numbers[count - 1].cut) {
        return Err(ParseError::OutOfRangeValue { field });
    }
    if degrees.negative != turned {
        Ok(-(total as i64))
    } else {
        Ok(total as i64)
    }
}

} // verus!
