//! Writing of angles and lengths as plain decimal numbers with a fixed count
//! of digits behind the point.

use crate::decimal::pow10;
use vstd::prelude::*;
use vstd::string::StringExecFns;

verus! {

/// Billionths of an arcsecond in the last digit of an angle written in
/// degrees.
pub const DEGREES_STEP: u64 = 36_000;

/// Billionths of a metre in the last digit of a length written in metres.
pub const METRES_STEP: u128 = 100_000;

/// The digit that writes `d`.
pub open spec fn digit_char(d: nat) -> char
    recommends
        d < 10,
{
    ('0' as nat + d) as char
}

/// The digits that write `n` in base ten, without leading zeros.
pub open spec fn decimal_digits(n: nat) -> Seq<char>
    decreases n,
{
    if n < 10 {
        seq![digit_char(n)]
    } else {
        decimal_digits(n / 10).push(digit_char(n % 10))
    }
}

/// The last `width` digits that write `n` in base ten, with leading zeros.
pub open spec fn fixed_digits(n: nat, width: nat) -> Seq<char>
    decreases width,
{
    if width == 0 {
        Seq::empty()
    } else {
        fixed_digits(n / 10, (width - 1) as nat).push(digit_char(n % 10))
    }
}

/// The size of `v` in steps of `step`, to the nearest step, a half counted
/// as a whole.
pub open spec fn rounded(v: int, step: int) -> nat
    recommends
        step > 0,
{
    let size = if v < 0 {
        -v
    } else {
        v
    };
    ((size + step / 2) / step) as nat
}

/// `v` to the nearest step of `step`.
pub open spec fn nearest(v: int, step: int) -> int
    recommends
        step > 0,
{
    if v < 0 {
        -(rounded(v, step) * step)
    } else {
        rounded(v, step) * step
    }
}

/// The text of the number of size `q` in units of the last of `places`
/// digits behind the point: a minus sign where the number is below zero, the
/// whole part, a point, and the digits behind it.
pub open spec fn fixed_point_text(negative: bool, q: nat, places: nat) -> Seq<char> {
    (if negative && q > 0 {
        seq!['-']
    } else {
        Seq::empty()
    }) + decimal_digits(q / pow10(places)) + seq!['.'] + fixed_digits(q % pow10(places), places)
}

/// The text of the angle `v`, counted in billionths of an arcsecond, in
/// degrees with eight digits behind the point.
pub open spec fn degrees_text(v: int) -> Seq<char> {
    fixed_point_text(v < 0, rounded(v, DEGREES_STEP as int), 8)
}

/// The text of the length `v`, counted in billionths of a metre, in metres
/// with four digits behind the point.
pub open spec fn metres_text(v: int) -> Seq<char> {
    fixed_point_text(v < 0, rounded(v, METRES_STEP as int), 4)
}

fn digit_text(d: u8) -> (r: &'static str)
    requires
        d < 10,
    ensures
        r@ == seq![digit_char(d as nat)],
{
    proof {
        reveal_strlit("0");
        reveal_strlit("1");
        reveal_strlit("2");
        reveal_strlit("3");
        reveal_strlit("4");
        reveal_strlit("5");
        reveal_strlit("6");
        reveal_strlit("7");
        reveal_strlit("8");
        reveal_strlit("9");
    }
    let r = match d {
        0 => "0",
        1 => "1",
        2 => "2",
        3 => "3",
        4 => "4",
        5 => "5",
        6 => "6",
        7 => "7",
        8 => "8",
        _ => "9",
    };
    assert(r@ =~= seq![digit_char(d as nat)]);
    r
}

fn write_digits(out: &mut String, n: u128)
    ensures
        final(out)@ == old(out)@ + decimal_digits(n as nat),
    decreases n,
{
    if n >= 10 {
        write_digits(out, n / 10);
    }
    out.append(digit_text((n % 10) as u8));
    proof {
        if n >= 10 {
            assert(old(out)@ + decimal_digits((n / 10) as nat) + seq![digit_char((n % 10) as nat)]
                =~= old(out)@ + decimal_digits(n as nat));
        }
    }
}

fn write_fixed(out: &mut String, n: u128, width: u32)
    ensures
        final(out)@ == old(out)@ + fixed_digits(n as nat, width as nat),
    decreases width,
{
    if width > 0 {
        write_fixed(out, n / 10, width - 1);
        out.append(digit_text((n % 10) as u8));
        proof {
            assert(old(out)@ + fixed_digits((n / 10) as nat, (width - 1) as nat) + seq![
                digit_char((n % 10) as nat),
            ] =~= old(out)@ + fixed_digits(n as nat, width as nat));
        }
    } else {
        proof {
            assert(old(out)@ + fixed_digits(n as nat, 0) =~= old(out)@);
        }
    }
}

fn size_of(v: i128) -> (r: u128)
    ensures
        r == if v < 0 {
            -v
        } else {
            v as int
        },
{
    if v < 0 {
        (-(v + 1)) as u128 + 1
    } else {
        v as u128
    }
}

fn write_fixed_point(negative: bool, q: u128, scale: u128, places: u32) -> (r: String)
    requires
        scale > 0,
        scale == pow10(places as nat),
    ensures
        r@ == fixed_point_text(negative, q as nat, places as nat),
{
    proof {
        reveal_strlit("-");
        reveal_strlit(".");
    }
    let mut out = String::new();
    if negative && q > 0 {
        out.append("-");
    }
    write_digits(&mut out, q / scale);
    out.append(".");
    write_fixed(&mut out, q % scale, places);
    proof {
        assert(out@ =~= fixed_point_text(negative, q as nat, places as nat));
    }
    out
}

/// Writes an angle, counted in billionths of an arcsecond, in degrees with
/// eight digits behind the point.
pub fn format_degrees(angle: i64) -> (r: String)
    ensures
        r@ == degrees_text(angle as int),
{
    proof {
        crate::decimal::lemma_pow10_small();
    }
    let size: u128 = size_of(angle as i128);
    write_fixed_point(angle < 0, (size + 18_000) / 36_000, 100_000_000, 8)
}

/// Writes a length, counted in billionths of a metre, in metres with four
/// digits behind the point.
pub fn format_metres(length: i128) -> (r: String)
    ensures
        r@ == metres_text(length as int),
{
    proof {
        crate::decimal::lemma_pow10_small();
    }
    let size: u128 = size_of(length);
    write_fixed_point(length < 0, (size + 50_000) / 100_000, 10_000, 4)
}

} // verus!
