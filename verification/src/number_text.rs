//! The number fields of a tick record: bid, ask and volume travel as decimal
//! text. This module fixes the grammar of that text — an optional sign, then
//! either a case-insensitive special word (`inf`, `infinity`, `nan`) or
//! digits with an optional dot and an optional exponent part — and gives the
//! runtime recognizer for it. The grammar is the one Rust's own
//! floating-point parsing documents, so a field passes here exactly when a
//! consumer can read it as a 64-bit float.

use crate::{all_digits, is_digit};
use vstd::prelude::*;

verus! {

/// ASCII plus sign.
pub const PLUS: u8 = 43;

/// ASCII minus sign.
pub const MINUS: u8 = 45;

/// ASCII full stop inside a number.
pub const NUM_DOT: u8 = 46;

/// ASCII lower-case `e`, the exponent mark.
pub const LOWER_E: u8 = 101;

/// ASCII upper-case `E`, the exponent mark.
pub const UPPER_E: u8 = 69;

/// Lower-case image of a byte: ASCII letters fold, all else stays.
pub open spec fn to_lower(b: u8) -> u8 {
    if 65 <= b <= 90 {
        (b + 32) as u8
    } else {
        b
    }
}

/// The sequence folded to lower case, byte by byte.
pub open spec fn lower_seq(s: Seq<u8>) -> Seq<u8> {
    s.map_values(|b: u8| to_lower(b))
}

/// The bytes of `inf`.
pub open spec fn inf_bytes() -> Seq<u8> {
    seq![105, 110, 102]
}

/// The bytes of `infinity`.
pub open spec fn infinity_bytes() -> Seq<u8> {
    seq![105, 110, 102, 105, 110, 105, 116, 121]
}

/// The bytes of `nan`.
pub open spec fn nan_bytes() -> Seq<u8> {
    seq![110, 97, 110]
}

/// The text is one of the special float words, in any casing.
pub open spec fn is_special_float_word(s: Seq<u8>) -> bool {
    lower_seq(s) == inf_bytes() || lower_seq(s) == infinity_bytes() || lower_seq(s) == nan_bytes()
}

/// Index of the first occurrence of either byte, or the length if absent.
pub open spec fn find_first(s: Seq<u8>, b1: u8, b2: u8) -> int
    decreases s.len(),
{
    if s.len() == 0 {
        0
    } else if s[0] == b1 || s[0] == b2 {
        0
    } else {
        1 + find_first(s.skip(1), b1, b2)
    }
}

proof fn lemma_find_first_props(s: Seq<u8>, b1: u8, b2: u8)
    ensures
        0 <= find_first(s, b1, b2) <= s.len(),
        find_first(s, b1, b2) < s.len() ==> (s[find_first(s, b1, b2)] == b1 || s[find_first(
            s,
            b1,
            b2,
        )] == b2),
        forall|j: int| 0 <= j < find_first(s, b1, b2) ==> s[j] != b1 && s[j] != b2,
    decreases s.len(),
{
    if s.len() == 0 {
    } else if s[0] == b1 || s[0] == b2 {
    } else {
        lemma_find_first_props(s.skip(1), b1, b2);
        let f = find_first(s, b1, b2);
        assert forall|j: int| 0 <= j < f implies s[j] != b1 && s[j] != b2 by {
            if j > 0 {
                assert(s.skip(1)[j - 1] == s[j]);
            }
        }
        if f < s.len() {
            assert(s.skip(1)[f - 1] == s[f]);
        }
    }
}

proof fn lemma_find_first_at(s: Seq<u8>, b1: u8, b2: u8, i: int)
    requires
        0 <= i <= s.len(),
        forall|j: int| 0 <= j < i ==> s[j] != b1 && s[j] != b2,
        i < s.len() ==> (s[i] == b1 || s[i] == b2),
    ensures
        find_first(s, b1, b2) == i,
    decreases s.len(),
{
    if s.len() == 0 {
    } else if i == 0 {
    } else {
        assert(s[0] != b1 && s[0] != b2);
        assert forall|j: int| 0 <= j < i - 1 implies s.skip(1)[j] != b1 && s.skip(1)[j] != b2 by {
            assert(s.skip(1)[j] == s[j + 1]);
        }
        if i - 1 < s.skip(1).len() {
            assert(s.skip(1)[i - 1] == s[i]);
        }
        lemma_find_first_at(s.skip(1), b1, b2, i - 1);
    }
}

/// The mantissa of a decimal number: digits with at most one dot, and at
/// least one digit on some side of it.
pub open spec fn is_mantissa(m: Seq<u8>) -> bool {
    let di = find_first(m, NUM_DOT, NUM_DOT);
    if di == m.len() {
        m.len() > 0 && all_digits(m)
    } else {
        all_digits(m.subrange(0, di)) && all_digits(m.subrange(di + 1, m.len() as int)) && (di > 0
            || m.len() > di + 1)
    }
}

/// The text after the exponent mark: an optional sign, then digits.
pub open spec fn is_exp_part(s: Seq<u8>) -> bool {
    let t = if s.len() > 0 && (s[0] == PLUS || s[0] == MINUS) {
        s.skip(1)
    } else {
        s
    };
    t.len() > 0 && all_digits(t)
}

/// A decimal number: a mantissa, optionally followed by an exponent mark and
/// an exponent part.
pub open spec fn is_decimal_number(s: Seq<u8>) -> bool {
    let ei = find_first(s, LOWER_E, UPPER_E);
    if ei == s.len() {
        is_mantissa(s)
    } else {
        is_mantissa(s.subrange(0, ei)) && is_exp_part(s.subrange(ei + 1, s.len() as int))
    }
}

/// The text with a single leading sign removed, if one is there.
pub open spec fn strip_sign(s: Seq<u8>) -> Seq<u8> {
    if s.len() > 0 && (s[0] == PLUS || s[0] == MINUS) {
        s.skip(1)
    } else {
        s
    }
}

/// Text accepted as a number field.
pub open spec fn is_float_text(s: Seq<u8>) -> bool {
    is_special_float_word(strip_sign(s)) || is_decimal_number(strip_sign(s))
}

/// Every byte of an accepted number field lies in the printable ASCII band
/// from `+` to `y`: in particular the text is non-empty, all ASCII, and free
/// of the space byte and of the delimiter bytes. Its first byte is never the
/// `B` or `A` prefix letter, so a prefixed field strips unambiguously.
pub proof fn lemma_float_text_bytes(s: Seq<u8>)
    requires
        is_float_text(s),
    ensures
        s.len() > 0,
        forall|i: int| 0 <= i < s.len() ==> 43 <= #[trigger] s[i] <= 121,
        s[0] != 65 && s[0] != 66,
{
    let t = strip_sign(s);
    let signed = s.len() > 0 && (s[0] == PLUS || s[0] == MINUS);
    if is_special_float_word(t) {
        assert(lower_seq(t).len() == t.len());
        assert(inf_bytes().len() == 3 && infinity_bytes().len() == 8 && nan_bytes().len() == 3);
        assert(t.len() == 3 || t.len() == 8);
        assert forall|j: int| 0 <= j < t.len() implies 97 <= to_lower(#[trigger] t[j]) <= 121 && (
        to_lower(t[j]) != 65 + 32 || j > 0) by {
            assert(lower_seq(t)[j] == to_lower(t[j]));
            if lower_seq(t) == inf_bytes() {
                assert(to_lower(t[j]) == inf_bytes()[j]);
            } else if lower_seq(t) == infinity_bytes() {
                assert(to_lower(t[j]) == infinity_bytes()[j]);
            } else {
                assert(to_lower(t[j]) == nan_bytes()[j]);
            }
        }
        assert forall|j: int| 0 <= j < t.len() implies 65 <= #[trigger] t[j] <= 121 by {
            assert(97 <= to_lower(t[j]) <= 121);
        }
        assert(t[0] != 65 && t[0] != 66) by {
            assert(to_lower(t[0]) != 97);
            assert(to_lower(t[0]) != 98);
        }
    } else {
        let ei = find_first(t, LOWER_E, UPPER_E);
        lemma_find_first_props(t, LOWER_E, UPPER_E);
        let m = if ei == t.len() {
            t
        } else {
            t.subrange(0, ei)
        };
        assert(is_mantissa(m));
        let di = find_first(m, NUM_DOT, NUM_DOT);
        lemma_find_first_props(m, NUM_DOT, NUM_DOT);
        assert(m.len() > 0);
        assert(t.len() > 0);
        assert forall|j: int| 0 <= j < m.len() implies 46 <= #[trigger] m[j] <= 57 by {
            if di == m.len() {
                assert(is_digit(m[j]));
            } else if j < di {
                assert(m.subrange(0, di)[j] == m[j]);
                assert(is_digit(m[j]));
            } else if j == di {
                assert(m[j] == NUM_DOT);
            } else {
                assert(m.subrange(di + 1, m.len() as int)[j - di - 1] == m[j]);
                assert(is_digit(m[j]));
            }
        }
        assert forall|j: int| 0 <= j < t.len() implies 43 <= #[trigger] t[j] <= 121 by {
            if j < ei {
                assert(m[j] == t[j]);
            } else if j == ei {
            } else {
                let e = t.subrange(ei + 1, t.len() as int);
                assert(is_exp_part(e));
                let d = if e.len() > 0 && (e[0] == PLUS || e[0] == MINUS) {
                    e.skip(1)
                } else {
                    e
                };
                if j == ei + 1 && (e[0] == PLUS || e[0] == MINUS) {
                    assert(t[j] == e[0]);
                } else if e.len() > 0 && (e[0] == PLUS || e[0] == MINUS) {
                    assert(d[j - ei - 2] == e[j - ei - 1]);
                    assert(e[j - ei - 1] == t[j]);
                    assert(is_digit(t[j]));
                } else {
                    assert(d[j - ei - 1] == e[j - ei - 1]);
                    assert(e[j - ei - 1] == t[j]);
                    assert(is_digit(t[j]));
                }
            }
        }
        assert(t[0] != 65 && t[0] != 66) by {
            if 0 < ei {
                assert(m[0] == t[0]);
                assert(46 <= t[0] <= 57);
            } else {
                assert(ei == 0);
                assert(m.len() == 0);
            }
        }
    }
    if signed {
        assert forall|i: int| 0 <= i < s.len() implies 43 <= #[trigger] s[i] <= 121 by {
            if i > 0 {
                assert(t[i - 1] == s[i]);
            }
        }
    } else {
        assert(t == s);
    }
}

fn lower_byte(b: u8) -> (r: u8)
    ensures
        r == to_lower(b),
{
    if b >= 65 && b <= 90 {
        b + 32
    } else {
        b
    }
}

fn check_special_word(s: &[u8], start: usize) -> (b: bool)
    requires
        start <= s@.len(),
    ensures
        b == is_special_float_word(s@.skip(start as int)),
{
    let ghost t = s@.skip(start as int);
    let n = s.len();
    proof {
        assert(lower_seq(t).len() == t.len());
        assert(inf_bytes().len() == 3);
        assert(infinity_bytes().len() == 8);
        assert(nan_bytes().len() == 3);
    }
    if n - start == 3 {
        let c0 = lower_byte(s[start]);
        let c1 = lower_byte(s[start + 1]);
        let c2 = lower_byte(s[start + 2]);
        proof {
            assert(t[0] == s@[start as int] && t[1] == s@[start as int + 1] && t[2] == s@[start as int
                + 2]);
            assert(lower_seq(t)[0] == to_lower(t[0]));
            assert(lower_seq(t)[1] == to_lower(t[1]));
            assert(lower_seq(t)[2] == to_lower(t[2]));
        }
        let inf = c0 == 105 && c1 == 110 && c2 == 102;
        let nan = c0 == 110 && c1 == 97 && c2 == 110;
        proof {
            if inf {
                assert(lower_seq(t) =~= inf_bytes());
            } else if nan {
                assert(lower_seq(t) =~= nan_bytes());
            } else {
                assert(lower_seq(t) != inf_bytes() && lower_seq(t) != nan_bytes());
            }
        }
        inf || nan
    } else if n - start == 8 {
        let c0 = lower_byte(s[start]);
        let c1 = lower_byte(s[start + 1]);
        let c2 = lower_byte(s[start + 2]);
        let c3 = lower_byte(s[start + 3]);
        let c4 = lower_byte(s[start + 4]);
        let c5 = lower_byte(s[start + 5]);
        let c6 = lower_byte(s[start + 6]);
        let c7 = lower_byte(s[start + 7]);
        proof {
            assert forall|j: int| 0 <= j < 8 implies lower_seq(t)[j] == to_lower(
                s@[start as int + j],
            ) by {
                assert(t[j] == s@[start as int + j]);
            }
        }
        let word = c0 == 105 && c1 == 110 && c2 == 102 && c3 == 105 && c4 == 110 && c5 == 105 && c6
            == 116 && c7 == 121;
        proof {
            if word {
                assert(lower_seq(t) =~= infinity_bytes());
            } else {
                assert(lower_seq(t) != infinity_bytes());
            }
        }
        word
    } else {
        false
    }
}

fn check_digit_run(s: &[u8], from: usize, to: usize) -> (b: bool)
    requires
        from <= to <= s@.len(),
    ensures
        b == all_digits(s@.subrange(from as int, to as int)),
{
    let ghost t = s@.subrange(from as int, to as int);
    let mut i = from;
    while i < to
        invariant
            from <= i <= to <= s@.len(),
            t == s@.subrange(from as int, to as int),
            forall|j: int| 0 <= j < i - from ==> is_digit(#[trigger] t[j]),
        decreases to - i,
    {
        let b = s[i];
        if b < 48 || b > 57 {
            proof {
                assert(t[i - from] == s@[i as int]);
            }
            return false;
        }
        proof {
            assert(t[i - from] == s@[i as int]);
        }
        i += 1;
    }
    true
}

/// Decide whether the bytes are accepted as a number field.
pub fn check_float_text(s: &[u8]) -> (b: bool)
    ensures
        b == is_float_text(s@),
{
    let n = s.len();
    let start: usize = if n > 0 && (s[0] == 43 || s[0] == 45) {
        1
    } else {
        0
    };
    let ghost t = strip_sign(s@);
    proof {
        assert(t == s@.skip(start as int));
    }
    if check_special_word(s, start) {
        return true;
    }
    // find the exponent mark
    let mut ei = start;
    while ei < n && s[ei] != 101 && s[ei] != 69
        invariant
            start <= ei <= n,
            n == s@.len(),
            forall|j: int| start <= j < ei ==> s@[j] != 101 && s@[j] != 69,
        decreases n - ei,
    {
        ei += 1;
    }
    proof {
        assert forall|j: int| 0 <= j < ei - start implies t[j] != LOWER_E && t[j] != UPPER_E by {
            assert(t[j] == s@[start as int + j]);
        }
        if ei < n {
            assert(t[ei - start] == s@[ei as int]);
        }
        lemma_find_first_at(t, LOWER_E, UPPER_E, ei - start);
    }
    let ghost m = t.subrange(0, ei - start);
    // find the dot within the mantissa
    let mut di = start;
    while di < ei && s[di] != 46
        invariant
            start <= di <= ei,
            ei <= n == s@.len(),
            forall|j: int| start <= j < di ==> s@[j] != 46,
        decreases ei - di,
    {
        di += 1;
    }
    proof {
        assert forall|j: int| 0 <= j < di - start implies m[j] != NUM_DOT by {
            assert(m[j] == s@[start as int + j]);
        }
        if di < ei {
            assert(m[di - start] == s@[di as int]);
        }
        lemma_find_first_at(m, NUM_DOT, NUM_DOT, di - start);
    }
    let mantissa_ok: bool = if di == ei {
        proof {
            assert(m =~= s@.subrange(start as int, ei as int));
        }
        di > start && check_digit_run(s, start, ei)
    } else {
        proof {
            assert(m.subrange(0, di - start) =~= s@.subrange(start as int, di as int));
            assert(m.subrange(di - start + 1, m.len() as int) =~= s@.subrange(
                di as int + 1,
                ei as int,
            ));
        }
        let head_ok = check_digit_run(s, start, di);
        let tail_ok = check_digit_run(s, di + 1, ei);
        head_ok && tail_ok && (di > start || ei > di + 1)
    };
    if ei == n {
        proof {
            assert(m =~= t);
        }
        return mantissa_ok;
    }
    let ghost e = t.subrange(ei - start + 1, t.len() as int);
    let mut p = ei + 1;
    if p < n && (s[p] == 43 || s[p] == 45) {
        p += 1;
    }
    proof {
        assert(e.len() == n - ei - 1);
        if e.len() > 0 {
            assert(e[0] == s@[ei as int + 1]);
        }
        if p == ei + 2 {
            assert(e.skip(1) =~= s@.subrange(p as int, n as int));
        } else {
            assert(e =~= s@.subrange(p as int, n as int));
        }
    }
    let exp_ok = p < n && check_digit_run(s, p, n);
    proof {
        if p < n {
            assert(exp_ok == is_exp_part(e));
        } else {
            assert(!is_exp_part(e));
        }
    }
    mantissa_ok && exp_ok
}

} // verus!
