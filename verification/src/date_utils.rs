//! The timestamp codec: a UTC calendar instant with millisecond resolution,
//! and its compact positional text form on the wire.
//!
//! The compact text is `YYYYMMDDHHMMSS` (fourteen zero-padded digits),
//! followed by `.mmm` exactly when the instant carries a non-zero
//! millisecond fraction. Decoding also accepts one or two fraction digits,
//! read as a fraction and so padded with zeros on the right.

use crate::{all_digits, digit_of, digit_val, is_digit, DOT};
use vstd::prelude::*;

verus! {

/// A UTC calendar instant with millisecond resolution.
///
/// The wire protocol never carries an offset: every instant is UTC.
#[derive(Clone, Copy, Debug, PartialEq, Eq, Structural)]
pub struct UtcDateTime {
    pub year: u32,
    pub month: u32,
    pub day: u32,
    pub hour: u32,
    pub minute: u32,
    pub second: u32,
    pub millisecond: u32,
}

/// Gregorian leap-year rule.
pub open spec fn is_leap_year(y: int) -> bool {
    y % 4 == 0 && (y % 100 != 0 || y % 400 == 0)
}

/// Number of days in the given month of the given year.
pub open spec fn days_in_month(y: int, m: int) -> int
    recommends
        1 <= m <= 12,
{
    if m == 2 {
        if is_leap_year(y) {
            29
        } else {
            28
        }
    } else if m == 4 || m == 6 || m == 9 || m == 11 {
        30
    } else {
        31
    }
}

/// Days in the month, usable at runtime; 31 for an out-of-range month.
pub fn days_in_month_of(y: u32, m: u32) -> (d: u32)
    ensures
        1 <= m <= 12 ==> d as int == days_in_month(y as int, m as int),
{
    if m == 2 {
        if y % 4 == 0 && (y % 100 != 0 || y % 400 == 0) {
            29
        } else {
            28
        }
    } else if m == 4 || m == 6 || m == 9 || m == 11 {
        30
    } else {
        31
    }
}

impl UtcDateTime {
    /// The fields name a real calendar date and time of day, with a
    /// four-digit year and a millisecond fraction.
    pub open spec fn valid(self) -> bool {
        &&& self.year <= 9999
        &&& 1 <= self.month <= 12
        &&& 1 <= self.day <= days_in_month(self.year as int, self.month as int)
        &&& self.hour <= 23
        &&& self.minute <= 59
        &&& self.second <= 59
        &&& self.millisecond <= 999
    }

    /// Runtime check of `valid`.
    pub fn check_valid(&self) -> (b: bool)
        ensures
            b == self.valid(),
    {
        let dim = days_in_month_of(self.year, self.month);
        self.year <= 9999 && self.month >= 1 && self.month <= 12 && self.day >= 1 && self.day
            <= dim && self.hour <= 23 && self.minute <= 59 && self.second <= 59 && self.millisecond
            <= 999
    }
}

/// Value of two ASCII digits read as a decimal number.
pub open spec fn val2(s: Seq<u8>) -> int
    recommends
        s.len() == 2,
        all_digits(s),
{
    digit_val(s[0]) * 10 + digit_val(s[1])
}

/// Value of four ASCII digits read as a decimal number.
pub open spec fn val4(s: Seq<u8>) -> int
    recommends
        s.len() == 4,
        all_digits(s),
{
    digit_val(s[0]) * 1000 + digit_val(s[1]) * 100 + digit_val(s[2]) * 10 + digit_val(s[3])
}

/// Milliseconds denoted by one to three fraction digits, read as a decimal
/// fraction of a second: fewer than three digits count as if padded with
/// zeros on the right.
pub open spec fn frac_ms(s: Seq<u8>) -> int
    recommends
        1 <= s.len() <= 3,
        all_digits(s),
{
    if s.len() == 1 {
        digit_val(s[0]) * 100
    } else if s.len() == 2 {
        digit_val(s[0]) * 100 + digit_val(s[1]) * 10
    } else {
        digit_val(s[0]) * 100 + digit_val(s[1]) * 10 + digit_val(s[2])
    }
}

/// Shape of the compact timestamp text: fourteen digits, optionally followed
/// by a dot and one to three fraction digits.
pub open spec fn compact_form_ok(s: Seq<u8>) -> bool {
    &&& s.len() >= 14
    &&& all_digits(s.subrange(0, 14))
    &&& (s.len() == 14 || (16 <= s.len() <= 18 && s[14] == DOT && all_digits(
        s.subrange(15, s.len() as int),
    )))
}

/// The calendar fields spelled by a well-shaped compact timestamp text.
pub open spec fn fields_of_compact(s: Seq<u8>) -> UtcDateTime
    recommends
        compact_form_ok(s),
{
    UtcDateTime {
        year: val4(s.subrange(0, 4)) as u32,
        month: val2(s.subrange(4, 6)) as u32,
        day: val2(s.subrange(6, 8)) as u32,
        hour: val2(s.subrange(8, 10)) as u32,
        minute: val2(s.subrange(10, 12)) as u32,
        second: val2(s.subrange(12, 14)) as u32,
        millisecond: (if s.len() == 14 {
            0
        } else {
            frac_ms(s.subrange(15, s.len() as int))
        }) as u32,
    }
}

/// What decoding the compact timestamp text yields: the spelled instant, if
/// the text is well-shaped and its fields form a real date and time; nothing
/// otherwise.
pub open spec fn spec_parse_compact(s: Seq<u8>) -> Option<UtcDateTime> {
    if compact_form_ok(s) && fields_of_compact(s).valid() {
        Some(fields_of_compact(s))
    } else {
        None
    }
}

/// Two-digit zero-padded decimal spelling.
pub open spec fn dec2(n: int) -> Seq<u8>
    recommends
        0 <= n <= 99,
{
    seq![digit_of(n / 10), digit_of(n % 10)]
}

/// Three-digit zero-padded decimal spelling.
pub open spec fn dec3(n: int) -> Seq<u8>
    recommends
        0 <= n <= 999,
{
    seq![digit_of(n / 100), digit_of((n / 10) % 10), digit_of(n % 10)]
}

/// Four-digit zero-padded decimal spelling.
pub open spec fn dec4(n: int) -> Seq<u8>
    recommends
        0 <= n <= 9999,
{
    seq![digit_of(n / 1000), digit_of((n / 100) % 10), digit_of((n / 10) % 10), digit_of(n % 10)]
}

/// Encoding of an instant into compact timestamp text: `YYYYMMDDHHMMSS`,
/// and a `.mmm` fraction exactly when the millisecond field is not zero.
pub open spec fn spec_write_compact(dt: UtcDateTime) -> Seq<u8> {
    dec4(dt.year as int) + dec2(dt.month as int) + dec2(dt.day as int) + dec2(dt.hour as int)
        + dec2(dt.minute as int) + dec2(dt.second as int) + (if dt.millisecond == 0 {
        Seq::<u8>::empty()
    } else {
        seq![DOT] + dec3(dt.millisecond as int)
    })
}

/// Decode the compact timestamp text (the bytes after the provenance tag).
pub fn parse_tcp_feed_date(src: &[u8]) -> (r: Option<UtcDateTime>)
    ensures
        r == spec_parse_compact(src@),
{
    let n = src.len();
    if n < 14 {
        return None;
    }
    let mut i: usize = 0;
    while i < 14
        invariant
            i <= 14,
            n == src@.len(),
            n >= 14,
            forall|j: int| 0 <= j < i ==> is_digit(#[trigger] src@[j]),
        decreases 14 - i,
    {
        let b = src[i];
        if b < 48 || b > 57 {
            proof {
                assert(src@.subrange(0, 14)[i as int] == src@[i as int]);
            }
            return None;
        }
        i += 1;
    }
    if n != 14 {
        if n < 16 || n > 18 {
            return None;
        }
        if src[14] != 46 {
            return None;
        }
        let mut k: usize = 15;
        while k < n
            invariant
                15 <= k <= n,
                16 <= n <= 18,
                n == src@.len(),
                forall|j: int| 15 <= j < k ==> is_digit(#[trigger] src@[j]),
            decreases n - k,
        {
            let b = src[k];
            if b < 48 || b > 57 {
                proof {
                    assert(src@.subrange(15, n as int)[k - 15] == src@[k as int]);
                }
                return None;
            }
            k += 1;
        }
    }
    let year: u32 = (src[0] - 48) as u32 * 1000 + (src[1] - 48) as u32 * 100 + (src[2] - 48) as u32
        * 10 + (src[3] - 48) as u32;
    let month: u32 = (src[4] - 48) as u32 * 10 + (src[5] - 48) as u32;
    let day: u32 = (src[6] - 48) as u32 * 10 + (src[7] - 48) as u32;
    let hour: u32 = (src[8] - 48) as u32 * 10 + (src[9] - 48) as u32;
    let minute: u32 = (src[10] - 48) as u32 * 10 + (src[11] - 48) as u32;
    let second: u32 = (src[12] - 48) as u32 * 10 + (src[13] - 48) as u32;
    let millisecond: u32 = if n == 14 {
        0
    } else if n == 16 {
        (src[15] - 48) as u32 * 100
    } else if n == 17 {
        (src[15] - 48) as u32 * 100 + (src[16] - 48) as u32 * 10
    } else {
        (src[15] - 48) as u32 * 100 + (src[16] - 48) as u32 * 10 + (src[17] - 48) as u32
    };
    let dt = UtcDateTime { year, month, day, hour, minute, second, millisecond };
    proof {
        assert(all_digits(src@.subrange(0, 14))) by {
            assert forall|j: int| 0 <= j < 14 implies is_digit(#[trigger] src@.subrange(0, 14)[j])
            by {
                assert(src@.subrange(0, 14)[j] == src@[j]);
            }
        }
        if n != 14 {
            assert(all_digits(src@.subrange(15, n as int))) by {
                assert forall|j: int|
                    0 <= j < n - 15 implies is_digit(
                    #[trigger] src@.subrange(15, n as int)[j],
                ) by {
                    assert(src@.subrange(15, n as int)[j] == src@[j + 15]);
                }
            }
        }
        assert(compact_form_ok(src@));
        assert(dt == fields_of_compact(src@)) by {
            assert(src@.subrange(0, 4) =~= src@.subrange(0, 14).subrange(0, 4));
            assert(val4(src@.subrange(0, 4)) == year as int);
            assert(val2(src@.subrange(4, 6)) == month as int);
            assert(val2(src@.subrange(6, 8)) == day as int);
            assert(val2(src@.subrange(8, 10)) == hour as int);
            assert(val2(src@.subrange(10, 12)) == minute as int);
            assert(val2(src@.subrange(12, 14)) == second as int);
            if n != 14 {
                assert(frac_ms(src@.subrange(15, n as int)) == millisecond as int);
            }
        }
    }
    if dt.check_valid() {
        Some(dt)
    } else {
        None
    }
}

/// Append the compact text form of the instant to the output buffer.
pub fn write_date(out: &mut Vec<u8>, dt: UtcDateTime)
    requires
        dt.valid(),
    ensures
        final(out)@ == old(out)@ + spec_write_compact(dt),
{
    push_dec4(out, dt.year);
    push_dec2(out, dt.month);
    push_dec2(out, dt.day);
    push_dec2(out, dt.hour);
    push_dec2(out, dt.minute);
    push_dec2(out, dt.second);
    if dt.millisecond != 0 {
        out.push(46);
        push_dec3(out, dt.millisecond);
    }
    proof {
        assert(out@ =~= old(out)@ + spec_write_compact(dt));
    }
}

fn push_dec2(out: &mut Vec<u8>, n: u32)
    requires
        n <= 99,
    ensures
        final(out)@ == old(out)@ + dec2(n as int),
{
    out.push(48 + (n / 10) as u8);
    out.push(48 + (n % 10) as u8);
    proof {
        assert(out@ =~= old(out)@ + dec2(n as int));
    }
}

fn push_dec3(out: &mut Vec<u8>, n: u32)
    requires
        n <= 999,
    ensures
        final(out)@ == old(out)@ + dec3(n as int),
{
    out.push(48 + (n / 100) as u8);
    out.push(48 + ((n / 10) % 10) as u8);
    out.push(48 + (n % 10) as u8);
    proof {
        assert(out@ =~= old(out)@ + dec3(n as int));
    }
}

fn push_dec4(out: &mut Vec<u8>, n: u32)
    requires
        n <= 9999,
    ensures
        final(out)@ == old(out)@ + dec4(n as int),
{
    out.push(48 + (n / 1000) as u8);
    out.push(48 + ((n / 100) % 10) as u8);
    out.push(48 + ((n / 10) % 10) as u8);
    out.push(48 + (n % 10) as u8);
    proof {
        assert(out@ =~= old(out)@ + dec4(n as int));
    }
}

proof fn lemma_dec2(n: int)
    requires
        0 <= n <= 99,
    ensures
        dec2(n).len() == 2,
        all_digits(dec2(n)),
        val2(dec2(n)) == n,
{
    assert(0 <= n / 10 <= 9) by (nonlinear_arith)
        requires
            0 <= n <= 99,
    ;
    assert(n == (n / 10) * 10 + n % 10) by (nonlinear_arith);
}

proof fn lemma_dec3(n: int)
    requires
        0 <= n <= 999,
    ensures
        dec3(n).len() == 3,
        all_digits(dec3(n)),
        frac_ms(dec3(n)) == n,
{
    assert(0 <= n / 100 <= 9) by (nonlinear_arith)
        requires
            0 <= n <= 999,
    ;
    assert(n / 10 == (n / 100) * 10 + (n / 10) % 10) by (nonlinear_arith);
    assert(n == (n / 10) * 10 + n % 10) by (nonlinear_arith);
}

proof fn lemma_dec4(n: int)
    requires
        0 <= n <= 9999,
    ensures
        dec4(n).len() == 4,
        all_digits(dec4(n)),
        val4(dec4(n)) == n,
{
    assert(0 <= n / 1000 <= 9) by (nonlinear_arith)
        requires
            0 <= n <= 9999,
    ;
    assert(n / 100 == (n / 1000) * 10 + (n / 100) % 10) by (nonlinear_arith);
    assert(n / 10 == (n / 100) * 10 + (n / 10) % 10) by (nonlinear_arith);
    assert(n == (n / 10) * 10 + n % 10) by (nonlinear_arith);
}

/// Every byte of the compact text is a digit or the dot: in particular the
/// text is ASCII and free of the space and delimiter bytes.
pub proof fn lemma_compact_bytes(dt: UtcDateTime)
    requires
        dt.valid(),
    ensures
        spec_write_compact(dt).len() >= 14,
        forall|i: int|
            0 <= i < spec_write_compact(dt).len() ==> 46 <= #[trigger] spec_write_compact(dt)[i]
                <= 57,
{
    let s = spec_write_compact(dt);
    lemma_dec4(dt.year as int);
    lemma_dec2(dt.month as int);
    lemma_dec2(dt.day as int);
    lemma_dec2(dt.hour as int);
    lemma_dec2(dt.minute as int);
    lemma_dec2(dt.second as int);
    if dt.millisecond != 0 {
        lemma_dec3(dt.millisecond as int);
    }
    assert forall|i: int| 0 <= i < s.len() implies 46 <= #[trigger] s[i] <= 57 by {
        if i < 4 {
            assert(s[i] == dec4(dt.year as int)[i]);
            assert(is_digit(s[i]));
        } else if i < 6 {
            assert(s[i] == dec2(dt.month as int)[i - 4]);
            assert(is_digit(s[i]));
        } else if i < 8 {
            assert(s[i] == dec2(dt.day as int)[i - 6]);
            assert(is_digit(s[i]));
        } else if i < 10 {
            assert(s[i] == dec2(dt.hour as int)[i - 8]);
            assert(is_digit(s[i]));
        } else if i < 12 {
            assert(s[i] == dec2(dt.minute as int)[i - 10]);
            assert(is_digit(s[i]));
        } else if i < 14 {
            assert(s[i] == dec2(dt.second as int)[i - 12]);
            assert(is_digit(s[i]));
        } else if i == 14 {
            assert(s[i] == DOT);
        } else {
            assert(s[i] == dec3(dt.millisecond as int)[i - 15]);
            assert(is_digit(s[i]));
        }
    }
}

/// Law: decoding an encoded instant gives the instant back. Every valid UTC
/// instant with a millisecond-aligned fraction survives the round trip
/// through its compact text form.
pub proof fn lemma_compact_round_trip(dt: UtcDateTime)
    requires
        dt.valid(),
    ensures
        spec_parse_compact(spec_write_compact(dt)) == Some(dt),
{
    let s = spec_write_compact(dt);
    let y = dt.year as int;
    let mo = dt.month as int;
    let d = dt.day as int;
    let h = dt.hour as int;
    let mi = dt.minute as int;
    let sec = dt.second as int;
    let ms = dt.millisecond as int;
    lemma_dec4(y);
    lemma_dec2(mo);
    lemma_dec2(d);
    lemma_dec2(h);
    lemma_dec2(mi);
    lemma_dec2(sec);
    assert(s.subrange(0, 4) =~= dec4(y));
    assert(s.subrange(4, 6) =~= dec2(mo));
    assert(s.subrange(6, 8) =~= dec2(d));
    assert(s.subrange(8, 10) =~= dec2(h));
    assert(s.subrange(10, 12) =~= dec2(mi));
    assert(s.subrange(12, 14) =~= dec2(sec));
    assert(all_digits(s.subrange(0, 14))) by {
        assert forall|j: int| 0 <= j < 14 implies is_digit(#[trigger] s.subrange(0, 14)[j]) by {
            if j < 4 {
                assert(s.subrange(0, 14)[j] == s.subrange(0, 4)[j]);
            } else if j < 6 {
                assert(s.subrange(0, 14)[j] == s.subrange(4, 6)[j - 4]);
            } else if j < 8 {
                assert(s.subrange(0, 14)[j] == s.subrange(6, 8)[j - 6]);
            } else if j < 10 {
                assert(s.subrange(0, 14)[j] == s.subrange(8, 10)[j - 8]);
            } else if j < 12 {
                assert(s.subrange(0, 14)[j] == s.subrange(10, 12)[j - 10]);
            } else {
                assert(s.subrange(0, 14)[j] == s.subrange(12, 14)[j - 12]);
            }
        }
    }
    if ms != 0 {
        lemma_dec3(ms);
        assert(s.len() == 18);
        assert(s[14] == DOT);
        assert(s.subrange(15, 18) =~= dec3(ms));
    } else {
        assert(s.len() == 14);
    }
    assert(compact_form_ok(s));
    assert(fields_of_compact(s) == dt);
}

} // verus!
