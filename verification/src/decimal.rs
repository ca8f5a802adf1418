//! Plain decimal numbers: what a token denotes, and how it is read.
//!
//! A number is an optional sign, digits, and at most one point among them.
//! Its value is held in two parts: the whole part, and the first nine digits
//! behind the point as a count of billionths. Further digits are dropped.

use crate::text::{char_digit, char_is_digit, digit_value, is_digit};
use vstd::prelude::*;

verus! {

/// Billionths in one whole.
pub const NANOS_PER_UNIT: u64 = 1_000_000_000;

/// Whole parts from this number on are too large to be held.
pub const WHOLE_LIMIT: u64 = 1_000_000_000_000_000_000;

/// Ten to the power `n`.
pub open spec fn pow10(n: nat) -> nat
    decreases n,
{
    if n == 0 {
        1
    } else {
        10 * pow10((n - 1) as nat)
    }
}

/// Whether `s` holds decimal digits only.
pub open spec fn all_digits(s: Seq<char>) -> bool {
    forall|i: int| 0 <= i < s.len() ==> is_digit(#[trigger] s[i])
}

/// The number that the digits `s` write in base ten; 0 for no digits.
pub open spec fn digits_value(s: Seq<char>) -> nat
    decreases s.len(),
{
    if s.len() == 0 {
        0
    } else {
        digits_value(s.drop_last()) * 10 + digit_value(s.last())
    }
}

/// Whether `t` begins with a sign.
pub open spec fn has_sign(t: Seq<char>) -> bool {
    t.len() > 0 && (t[0] == '-' || t[0] == '+')
}

/// Whether `t` begins with a minus sign.
pub open spec fn is_negative(t: Seq<char>) -> bool {
    t.len() > 0 && t[0] == '-'
}

/// `t` without its sign.
pub open spec fn magnitude(t: Seq<char>) -> Seq<char> {
    if has_sign(t) {
        t.drop_first()
    } else {
        t
    }
}

/// Index of the first point in `u` at or after `from`, or the length of `u`
/// where there is none.
pub open spec fn point_index(u: Seq<char>, from: int) -> int
    decreases u.len() - from,
{
    if 0 <= from < u.len() && u[from] != '.' {
        point_index(u, from + 1)
    } else {
        from
    }
}

/// Whether `t` holds a point.
pub open spec fn has_point(t: Seq<char>) -> bool {
    point_index(magnitude(t), 0) < magnitude(t).len()
}

/// What stands between the sign and the point of `t`.
pub open spec fn whole_digits(t: Seq<char>) -> Seq<char> {
    magnitude(t).take(point_index(magnitude(t), 0))
}

/// What stands behind the point of `t`; nothing where it has no point.
pub open spec fn fraction_digits(t: Seq<char>) -> Seq<char> {
    if has_point(t) {
        magnitude(t).skip(point_index(magnitude(t), 0) + 1)
    } else {
        Seq::empty()
    }
}

/// Whether `t` writes a plain decimal number: at least one digit, and nothing
/// but digits on either side of the point.
pub open spec fn is_decimal(t: Seq<char>) -> bool {
    &&& all_digits(whole_digits(t))
    &&& all_digits(fraction_digits(t))
    &&& whole_digits(t).len() + fraction_digits(t).len() > 0
}

/// The first nine digits of `f`, with zeros where `f` is shorter.
pub open spec fn nine_places(f: Seq<char>) -> Seq<char> {
    Seq::new(
        9,
        |k: int|
            if k < f.len() {
                f[k]
            } else {
                '0'
            },
    )
}

/// The whole part of the number `t`.
pub open spec fn whole_value(t: Seq<char>) -> nat {
    digits_value(whole_digits(t))
}

/// The fraction of the number `t` in billionths, digits beyond the ninth
/// dropped.
pub open spec fn fraction_nanos(t: Seq<char>) -> nat {
    digits_value(nine_places(fraction_digits(t)))
}

/// Whether the number `t` is larger in size than what is held of it: whether
/// a digit that was dropped is not a zero.
pub open spec fn is_cut(t: Seq<char>) -> bool {
    exists|i: int| 9 <= i < fraction_digits(t).len() && #[trigger] fraction_digits(t)[i] != '0'
}

/// The size of the number `t` in billionths, its sign left aside.
pub open spec fn nano_units(t: Seq<char>) -> nat {
    whole_value(t) * 1_000_000_000 + fraction_nanos(t)
}

/// A number as it was read from a token.
#[derive(Clone, Copy, Debug)]
pub struct Reading {
    /// The token began with a minus sign.
    pub negative: bool,
    /// The token began with a sign.
    pub signed: bool,
    /// The token held a point.
    pub pointed: bool,
    /// The whole part, or `WHOLE_LIMIT` where it is that large or larger.
    pub whole: u64,
    /// The fraction in billionths.
    pub nanos: u32,
    /// A digit that was dropped was not a zero.
    pub cut: bool,
}

/// The smaller of the whole part `n` and the limit.
pub open spec fn capped(n: nat) -> nat {
    if n >= WHOLE_LIMIT {
        WHOLE_LIMIT as nat
    } else {
        n
    }
}

/// Whether `r` is what the number `t` denotes.
pub open spec fn reads(r: Reading, t: Seq<char>) -> bool {
    &&& r.negative == is_negative(t)
    &&& r.signed == has_sign(t)
    &&& r.pointed == has_point(t)
    &&& r.whole == capped(whole_value(t))
    &&& r.nanos == fraction_nanos(t)
    &&& r.nanos < NANOS_PER_UNIT
    &&& r.cut == is_cut(t)
}

/// The first point is not before the place the search starts from, nor
/// behind the end.
pub proof fn lemma_point_index_bounds(u: Seq<char>, from: int)
    requires
        0 <= from <= u.len(),
    ensures
        from <= point_index(u, from) <= u.len(),
        point_index(u, from) < u.len() ==> u[point_index(u, from)] == '.',
        forall|j: int| from <= j < point_index(u, from) ==> u[j] != '.',
    decreases u.len() - from,
{
    if from < u.len() && u[from] != '.' {
        lemma_point_index_bounds(u, from + 1);
    }
}

/// Digits write a number below ten to the power of their count.
pub proof fn lemma_digits_value_bound(s: Seq<char>)
    requires
        all_digits(s),
    ensures
        digits_value(s) < pow10(s.len()),
    decreases s.len(),
{
    if s.len() > 0 {
        let init = s.drop_last();
        assert forall|i: int| 0 <= i < init.len() implies is_digit(#[trigger] init[i]) by {
            assert(init[i] == s[i]);
        }
        lemma_digits_value_bound(init);
        assert(is_digit(s.last()));
    }
}

/// Reads the number that stands in `s` between `from` and `to`.
pub fn read_decimal(s: &Vec<char>, from: usize, to: usize) -> (r: Option<Reading>)
    requires
        from <= to <= s.len(),
    ensures
        r is Some <==> is_decimal(s@.subrange(from as int, to as int)),
        r is Some ==> reads(r.unwrap(), s@.subrange(from as int, to as int)),
{
    let ghost t = s@.subrange(from as int, to as int);
    let mut i: usize = from;
    let mut negative = false;
    let mut signed = false;
    if i < to && (s[i] == '-' || s[i] == '+') {
        signed = true;
        negative = s[i] == '-';
        i += 1;
    }
    let start: usize = i;
    let ghost u = s@.subrange(start as int, to as int);
    proof {
        assert(t.len() > 0 ==> t[0] == s@[from as int]);
        assert(u =~= magnitude(t));
        lemma_point_index_bounds(u, 0);
    }
    let ghost p = point_index(u, 0);
    let mut whole: u64 = 0;
    while i < to && s[i] != '.'
        invariant
            from <= start <= i <= to <= s.len(),
            t == s@.subrange(from as int, to as int),
            u == s@.subrange(start as int, to as int),
            u == magnitude(t),
            p == point_index(u, 0),
            i - start <= p <= u.len(),
            all_digits(u.take(i - start)),
            whole == capped(digits_value(u.take(i - start))),
        decreases to - i,
    {
        let c = s[i];
        proof {
            lemma_point_index_bounds(u, 0);
            assert(u[i - start] == c);
            assert(i - start < p);
            assert(u.take(p)[i - start] == c);
        }
        if !char_is_digit(c) {
            proof {
                assert(!is_digit(whole_digits(t)[i - start]));
            }
            return None;
        }
        let d = char_digit(c);
        proof {
            let next = u.take(i + 1 - start);
            assert(next.drop_last() =~= u.take(i - start));
            assert(next.last() == c);
            assert forall|k: int| 0 <= k < next.len() implies is_digit(#[trigger] next[k]) by {
                if k < i - start {
                    assert(next[k] == u.take(i - start)[k]);
                }
            }
        }
        whole = whole * 10 + d as u64;
        if whole > WHOLE_LIMIT {
            whole = WHOLE_LIMIT;
        }
        i += 1;
    }
    proof {
        lemma_point_index_bounds(u, 0);
        if i < to {
            assert(u[i - start] == '.');
        }
        assert(i - start == p);
        assert(u.take(p) == whole_digits(t));
    }
    let pointed = i < to;
    let ghost f = fraction_digits(t);
    let ghost np = nine_places(f);
    let mut nanos: u32 = 0;
    let mut places: u32 = 0;
    let mut cut = false;
    if pointed {
        i += 1;
        let first: usize = i;
        proof {
            assert(f =~= s@.subrange(first as int, to as int));
        }
        while i < to
            invariant
                from <= first <= i <= to <= s.len(),
                t == s@.subrange(from as int, to as int),
                f == s@.subrange(first as int, to as int),
                f == fraction_digits(t),
                np == nine_places(f),
                all_digits(f.take(i - first)),
                places <= 9,
                places == if i - first < 9 { i - first } else { 9 },
                nanos == digits_value(np.take(places as int)),
                all_digits(np.take(places as int)),
                cut == (exists|k: int| 9 <= k < i - first && #[trigger] f[k] != '0'),
            decreases to - i,
        {
            let c = s[i];
            proof {
                assert(f[i - first] == c);
            }
            if !char_is_digit(c) {
                proof {
                    assert(!is_digit(fraction_digits(t)[i - first]));
                }
                return None;
            }
            if places < 9 {
                let d = char_digit(c);
                proof {
                    let next = np.take(places + 1);
                    assert(next.drop_last() =~= np.take(places as int));
                    assert(next.last() == c);
                    assert forall|k: int| 0 <= k < next.len() implies is_digit(
                        #[trigger] next[k],
                    ) by {
                        if k < places {
                            assert(next[k] == np.take(places as int)[k]);
                        }
                    }
                    lemma_digits_value_bound(np.take(places as int));
                    lemma_pow10_small();
                }
                nanos = nanos * 10 + d as u32;
                places += 1;
            } else if c != '0' {
                cut = true;
            }
            proof {
                let seen = f.take(i + 1 - first);
                assert forall|k: int| 0 <= k < seen.len() implies is_digit(#[trigger] seen[k]) by {
                    if k < i - first {
                        assert(seen[k] == f.take(i - first)[k]);
                    }
                }
            }
            i += 1;
        }
        proof {
            assert(f.take(to - first) =~= f);
        }
    } else {
        proof {
            assert(np.take(0) =~= Seq::<char>::empty());
        }
    }
    if i - start == 0 || (pointed && i - start == 1) {
        return None;
    }
    while places < 9
        invariant
            places <= 9,
            np == nine_places(f),
            places < 9 ==> places >= f.len(),
            nanos == digits_value(np.take(places as int)),
            all_digits(np.take(places as int)),
        decreases 9 - places,
    {
        proof {
            let next = np.take(places + 1);
            assert(next.drop_last() =~= np.take(places as int));
            assert(next.last() == '0');
            assert forall|k: int| 0 <= k < next.len() implies is_digit(#[trigger] next[k]) by {
                if k < places {
                    assert(next[k] == np.take(places as int)[k]);
                }
            }
            lemma_digits_value_bound(np.take(places as int));
            lemma_pow10_small();
        }
        nanos = nanos * 10;
        places += 1;
    }
    proof {
        assert(np.take(9) =~= np);
        lemma_digits_value_bound(np);
        lemma_pow10_small();
    }
    Some(Reading { negative, signed, pointed, whole, nanos, cut })
}

/// The powers of ten up to the ninth.
pub proof fn lemma_pow10_small()
    ensures
        pow10(0) == 1,
        pow10(1) == 10,
        pow10(2) == 100,
        pow10(3) == 1_000,
        pow10(4) == 10_000,
        pow10(5) == 100_000,
        pow10(6) == 1_000_000,
        pow10(7) == 10_000_000,
        pow10(8) == 100_000_000,
        pow10(9) == 1_000_000_000,
{
    reveal_with_fuel(pow10, 10);
}

} // verus!
