//! Whether a token reads as a floating-point literal.
//!
//! `str::parse` for the 32-bit float type accepts exactly the grammar
//! `Sign? ( 'inf' | 'infinity' | 'nan' | Number )` with the special words
//! case-insensitive, `Number ::= Digit+ ('.' Digit*)? Exp? | '.' Digit+
//! Exp?` and `Exp ::= ('e'|'E') Sign? Digit+`; a token of that shape never
//! fails on range, only rounds.  Acceptance therefore depends on the
//! characters alone, and the predicate here is the whole behaviour the
//! parser needs.

use vstd::prelude::*;
use vstd::string::*;
use crate::numbers::{all_digits, is_digit};

verus! {

/// A sign character.
pub open spec fn is_sign(c: char) -> bool {
    c == '+' || c == '-'
}

/// The token with an optional leading sign shed.
pub open spec fn opt_sign(s: Seq<char>) -> Seq<char> {
    if s.len() > 0 && is_sign(s[0]) {
        s.drop_first()
    } else {
        s
    }
}

/// One or more digits.
pub open spec fn is_digits1(s: Seq<char>) -> bool {
    s.len() > 0 && all_digits(s)
}

/// `a` matches `w`, a lower-case letter, ignoring case.
pub open spec fn ci_eq(a: char, w: char) -> bool {
    a == w || (a as u32) + 0x20 == (w as u32)
}

/// Case-insensitive match against a lower-case word.
pub open spec fn matches_ci(s: Seq<char>, w: Seq<char>) -> bool {
    s.len() == w.len() && forall|i: int| 0 <= i < s.len() ==> ci_eq(#[trigger] s[i], w[i])
}

/// The mantissa: `Digit+`, `Digit+ '.' Digit*` or `'.' Digit+`.
pub open spec fn is_mantissa(s: Seq<char>) -> bool {
    ||| is_digits1(s)
    ||| (s.len() >= 2 && exists|i: int|
        0 <= i < s.len() && #[trigger] s[i] == '.' && all_digits(s.take(i)) && all_digits(
            s.skip(i + 1),
        ))
}

/// The exponent: `('e'|'E') Sign? Digit+`.
pub open spec fn is_exponent(s: Seq<char>) -> bool {
    s.len() >= 1 && (s[0] == 'e' || s[0] == 'E') && is_digits1(opt_sign(s.drop_first()))
}

/// A number: a mantissa followed by an optional exponent.
pub open spec fn is_number_text(s: Seq<char>) -> bool {
    ||| is_mantissa(s)
    ||| exists|i: int|
        0 <= i < s.len() && is_mantissa(#[trigger] s.take(i)) && is_exponent(s.skip(i))
}

/// Whether a token is a well-formed floating-point literal.
pub open spec fn is_float_text(s: Seq<char>) -> bool {
    let body = opt_sign(s);
    ||| matches_ci(body, "inf"@)
    ||| matches_ci(body, "infinity"@)
    ||| matches_ci(body, "nan"@)
    ||| is_number_text(body)
}

/// Executable counterpart of [`is_sign`].
fn is_sign_char(c: char) -> (r: bool)
    ensures
        r == is_sign(c),
{
    c == '+' || c == '-'
}

/// Executable counterpart of [`is_digit`].
fn is_digit_char(c: char) -> (r: bool)
    ensures
        r == is_digit(c),
{
    let v = c as u32;
    0x30 <= v && v <= 0x39
}

/// Whether the characters of `s` from `start` on match the lower-case word
/// `w`, ignoring case.
fn tail_matches_ci(s: &str, start: usize, w: &str) -> (r: bool)
    requires
        start <= s@.len(),
    ensures
        r == matches_ci(s@.skip(start as int), w@),
{
    let n = s.unicode_len();
    let wn = w.unicode_len();
    if n - start != wn {
        return false;
    }
    let mut i: usize = 0;
    while i < wn
        invariant
            0 <= i <= wn,
            start <= n,
            n == s@.len(),
            wn == w@.len(),
            n - start == wn,
            forall|j: int| 0 <= j < i ==> ci_eq(#[trigger] s@.skip(start as int)[j], w@[j]),
        decreases wn - i,
    {
        let a = s.get_char(start + i);
        let c = w.get_char(i);
        if !(a == c || (a as u32) + 0x20 == (c as u32)) {
            proof {
                assert(s@.skip(start as int)[i as int] == a);
                assert(!ci_eq(s@.skip(start as int)[i as int], w@[i as int]));
            }
            return false;
        }
        proof {
            assert(s@.skip(start as int)[i as int] == a);
        }
        i += 1;
    }
    true
}

/// Whether `s` parses as a 32-bit float: exactly when [`is_float_text`]
/// holds of its characters.
#[verifier::rlimit(60)]
pub fn is_float_literal(s: &str) -> (r: bool)
    ensures
        r == is_float_text(s@),
{
    let len = s.unicode_len();
    let start: usize = if len > 0 && is_sign_char(s.get_char(0)) {
        1
    } else {
        0
    };
    let ghost b = s@.skip(start as int);
    proof {
        assert(b =~= opt_sign(s@));
    }
    if tail_matches_ci(s, start, "inf") || tail_matches_ci(s, start, "infinity")
        || tail_matches_ci(s, start, "nan") {
        return true;
    }
    // Mantissa: a run of digits, then perhaps a dot and a second run.
    let mut p: usize = start;
    while p < len && is_digit_char(s.get_char(p))
        invariant
            start <= p <= len,
            len == s@.len(),
            b == s@.skip(start as int),
            forall|t: int| 0 <= t < p - start ==> is_digit(#[trigger] b[t]),
        decreases len - p,
    {
        proof {
            assert(b[p - start] == s@[p as int]);
        }
        p += 1;
    }
    let d1 = p - start;
    proof {
        if p < len {
            assert(b[p - start] == s@[p as int]);
            assert(!is_digit(b[d1 as int]));
        }
    }
    let mut mant_end = p;
    let mut d2: usize = 0;
    let mut saw_dot = false;
    if p < len && s.get_char(p) == '.' {
        saw_dot = true;
        proof {
            assert(b[p - start] == s@[p as int]);
        }
        let mut q: usize = p + 1;
        while q < len && is_digit_char(s.get_char(q))
            invariant
                start <= p,
                p + 1 <= q <= len,
                len == s@.len(),
                b == s@.skip(start as int),
                forall|t: int| p + 1 - start <= t < q - start ==> is_digit(#[trigger] b[t]),
            decreases len - q,
        {
            proof {
                assert(b[q - start] == s@[q as int]);
            }
            q += 1;
        }
        proof {
            if q < len {
                assert(b[q - start] == s@[q as int]);
            }
        }
        d2 = q - (p + 1);
        mant_end = q;
    }
    let ghost m = mant_end - start;
    if !(d1 > 0 || (saw_dot && d2 > 0)) {
        // No digit anywhere a mantissa could begin.
        proof {
            lemma_empty_mantissa_rejected(b, saw_dot);
        }
        return false;
    }
    proof {
        lemma_mantissa_shape(b, d1 as int, saw_dot, m);
    }
    if mant_end == len {
        proof {
            assert(b.take(m) =~= b);
        }
        return true;
    }
    let e = s.get_char(mant_end);
    proof {
        assert(b[m] == s@[mant_end as int]);
    }
    if !(e == 'e' || e == 'E') {
        proof {
            lemma_no_exponent_rejected(b, d1 as int, saw_dot, m);
        }
        return false;
    }
    let mut k = mant_end + 1;
    if k < len && is_sign_char(s.get_char(k)) {
        k += 1;
    }
    let ghost exp_tail = b.skip(m + 1);
    proof {
        assert(exp_tail =~= s@.skip(mant_end + 1));
        if k == mant_end + 2 {
            assert(exp_tail[0] == s@[mant_end + 1]);
            assert(opt_sign(exp_tail) =~= s@.skip(k as int));
        } else {
            if exp_tail.len() > 0 {
                assert(exp_tail[0] == s@[mant_end + 1]);
            }
            assert(opt_sign(exp_tail) =~= s@.skip(k as int));
        }
    }
    let mut dig_end = k;
    while dig_end < len && is_digit_char(s.get_char(dig_end))
        invariant
            k <= dig_end <= len,
            k <= len,
            len == s@.len(),
            b == s@.skip(start as int),
            forall|t: int| 0 <= t < dig_end - k ==> is_digit(#[trigger] s@.skip(k as int)[t]),
        decreases len - dig_end,
    {
        proof {
            assert(s@.skip(k as int)[dig_end - k] == s@[dig_end as int]);
        }
        dig_end += 1;
    }
    proof {
        if dig_end < len {
            assert(s@.skip(k as int)[dig_end - k] == s@[dig_end as int]);
        }
    }
    if dig_end == len && dig_end > k {
        proof {
            assert(all_digits(opt_sign(exp_tail)));
            assert(is_exponent(b.skip(m))) by {
                assert(b.skip(m)[0] == b[m]);
                assert(b.skip(m).drop_first() =~= exp_tail);
            }
            assert(is_number_text(b));
        }
        true
    } else {
        proof {
            assert(!is_digits1(opt_sign(exp_tail))) by {
                if dig_end == len {
                    assert(opt_sign(exp_tail).len() == 0);
                } else {
                    assert(!is_digit(opt_sign(exp_tail)[dig_end - k]));
                }
            }
            assert(!is_exponent(b.skip(m))) by {
                assert(b.skip(m).drop_first() =~= exp_tail);
            }
            lemma_exponent_rejected(b, d1 as int, saw_dot, m);
        }
        false
    }
}

/// With no digit before or right after a possible leading dot, nothing in
/// the grammar matches.
proof fn lemma_empty_mantissa_rejected(b: Seq<char>, saw_dot: bool)
    requires
        b.len() > 0 ==> !is_digit(b[0]),
        saw_dot ==> b.len() > 0 && b[0] == '.',
        saw_dot ==> (b.len() == 1 || !is_digit(b[1])),
        !saw_dot ==> (b.len() == 0 || b[0] != '.'),
    ensures
        !is_number_text(b),
{
    assert forall|i: int| 0 <= i < b.len() implies !(is_mantissa(#[trigger] b.take(i))
        && is_exponent(b.skip(i))) by {
        lemma_prefix_not_mantissa(b, saw_dot, i);
    }
    if b.len() > 0 {
        lemma_prefix_not_mantissa(b, saw_dot, b.len() as int);
        assert(b.take(b.len() as int) =~= b);
    }
}

/// No prefix of such a digit-free front can be a mantissa.
proof fn lemma_prefix_not_mantissa(b: Seq<char>, saw_dot: bool, i: int)
    requires
        0 <= i <= b.len(),
        b.len() > 0 ==> !is_digit(b[0]),
        saw_dot ==> b.len() > 0 && b[0] == '.',
        saw_dot ==> (b.len() == 1 || !is_digit(b[1])),
        !saw_dot ==> (b.len() == 0 || b[0] != '.'),
    ensures
        !is_mantissa(b.take(i)),
{
    let t = b.take(i);
    if i == 0 {
    } else {
        assert(t[0] == b[0]);
        assert(!is_digits1(t));
        if t.len() >= 2 {
            assert forall|j: int|
                !(0 <= j < t.len() && #[trigger] t[j] == '.' && all_digits(t.take(j))
                    && all_digits(t.skip(j + 1))) by {
                if 0 <= j < t.len() && t[j] == '.' && all_digits(t.take(j)) && all_digits(
                    t.skip(j + 1),
                ) {
                    if j > 0 {
                        assert(t.take(j)[0] == b[0]);
                    } else {
                        assert(b[0] == '.');
                        assert(t.skip(1)[0] == b[1]);
                        assert(is_digit(b[1]));
                    }
                }
            }
        }
    }
}

/// After the scans, the mantissa region really is a mantissa.
proof fn lemma_mantissa_shape(b: Seq<char>, d1: int, saw_dot: bool, m: int)
    requires
        0 <= d1 <= m <= b.len(),
        forall|t: int| 0 <= t < d1 ==> is_digit(#[trigger] b[t]),
        d1 < b.len() ==> !is_digit(b[d1]),
        saw_dot ==> d1 < b.len() && b[d1] == '.' && m > d1 && forall|t: int|
            d1 + 1 <= t < m ==> is_digit(#[trigger] b[t]),
        !saw_dot ==> m == d1 && (d1 == b.len() || b[d1] != '.'),
        d1 > 0 || (saw_dot && m > d1 + 1),
    ensures
        is_mantissa(b.take(m)),
{
    let t = b.take(m);
    if !saw_dot {
        assert(all_digits(t));
    } else {
        assert(t[d1] == '.');
        assert(all_digits(t.take(d1)));
        assert(all_digits(t.skip(d1 + 1))) by {
            assert(forall|j: int|
                0 <= j < t.skip(d1 + 1).len() ==> #[trigger] t.skip(d1 + 1)[j] == b[d1 + 1 + j]);
        }
        assert(t.len() >= 2);
    }
}

/// Past the scanned mantissa stands something other than an exponent mark:
/// nothing in the grammar matches.
proof fn lemma_no_exponent_rejected(b: Seq<char>, d1: int, saw_dot: bool, m: int)
    requires
        0 <= d1 <= m < b.len(),
        forall|t: int| 0 <= t < d1 ==> is_digit(#[trigger] b[t]),
        !is_digit(b[m]),
        b[m] != 'e',
        b[m] != 'E',
        saw_dot ==> b[d1] == '.' && m > d1 && forall|t: int|
            d1 + 1 <= t < m ==> is_digit(#[trigger] b[t]),
        !saw_dot ==> m == d1 && b[d1] != '.',
    ensures
        !is_number_text(b),
{
    lemma_whole_not_mantissa(b, d1, saw_dot, m);
    assert(b.take(b.len() as int) =~= b);
    assert forall|i: int| 0 <= i < b.len() implies !(is_mantissa(#[trigger] b.take(i))
        && is_exponent(b.skip(i))) by {
        if is_mantissa(b.take(i)) && is_exponent(b.skip(i)) {
            assert(b.skip(i)[0] == b[i]);
            if i < m {
                assert(is_digit(b[i]) || b[i] == '.');
            } else if i == m {
            } else {
                lemma_broken_prefix_not_mantissa(b, d1, saw_dot, m, i);
            }
        }
    }
}

/// The whole remainder cannot be a mantissa once a stray character follows
/// the scanned region.
proof fn lemma_whole_not_mantissa(b: Seq<char>, d1: int, saw_dot: bool, m: int)
    requires
        0 <= d1 <= m < b.len(),
        forall|t: int| 0 <= t < d1 ==> is_digit(#[trigger] b[t]),
        !is_digit(b[m]),
        saw_dot ==> b[d1] == '.' && m > d1 && forall|t: int|
            d1 + 1 <= t < m ==> is_digit(#[trigger] b[t]),
        !saw_dot ==> m == d1 && b[d1] != '.',
    ensures
        !is_mantissa(b),
{
    lemma_broken_prefix_not_mantissa(b, d1, saw_dot, m, b.len() as int);
    assert(b.take(b.len() as int) =~= b);
}

/// Nor can any prefix long enough to take that stray character in.
proof fn lemma_broken_prefix_not_mantissa(b: Seq<char>, d1: int, saw_dot: bool, m: int, i: int)
    requires
        0 <= d1 <= m < i <= b.len(),
        forall|t: int| 0 <= t < d1 ==> is_digit(#[trigger] b[t]),
        !is_digit(b[m]),
        saw_dot ==> b[d1] == '.' && m > d1 && forall|t: int|
            d1 + 1 <= t < m ==> is_digit(#[trigger] b[t]),
        !saw_dot ==> m == d1 && b[d1] != '.',
    ensures
        !is_mantissa(b.take(i)),
{
    let t = b.take(i);
    assert(t[m] == b[m]);
    assert(!is_digits1(t));
    if t.len() >= 2 {
        assert forall|j: int|
            !(0 <= j < t.len() && #[trigger] t[j] == '.' && all_digits(t.take(j)) && all_digits(
                t.skip(j + 1),
            )) by {
            if 0 <= j < t.len() && t[j] == '.' && all_digits(t.take(j)) && all_digits(
                t.skip(j + 1),
            ) {
                // The dot can only stand where digits end.
                if j > d1 {
                    assert(t.take(j)[d1] == b[d1]);
                    assert(is_digit(b[d1]));
                    assert(saw_dot);
                    assert(false);
                } else if j < d1 {
                    assert(is_digit(b[j]));
                    assert(false);
                } else {
                    assert(saw_dot);
                    assert(t.skip(j + 1)[m - d1 - 1] == b[m]);
                    assert(is_digit(b[m]));
                    assert(false);
                }
            }
        }
    }
}

/// The exponent mark stands in place but what follows it is not `Sign?
/// Digit+`: nothing in the grammar matches.
proof fn lemma_exponent_rejected(b: Seq<char>, d1: int, saw_dot: bool, m: int)
    requires
        0 <= d1 <= m < b.len(),
        forall|t: int| 0 <= t < d1 ==> is_digit(#[trigger] b[t]),
        !is_digit(b[m]),
        b[m] == 'e' || b[m] == 'E',
        saw_dot ==> b[d1] == '.' && m > d1 && forall|t: int|
            d1 + 1 <= t < m ==> is_digit(#[trigger] b[t]),
        !saw_dot ==> m == d1 && b[d1] != '.',
        !is_exponent(b.skip(m)),
    ensures
        !is_number_text(b),
{
    lemma_whole_not_mantissa(b, d1, saw_dot, m);
    assert(b.take(b.len() as int) =~= b);
    assert forall|i: int| 0 <= i < b.len() implies !(is_mantissa(#[trigger] b.take(i))
        && is_exponent(b.skip(i))) by {
        if is_mantissa(b.take(i)) && is_exponent(b.skip(i)) {
            assert(b.skip(i)[0] == b[i]);
            if i < m {
                assert(is_digit(b[i]) || b[i] == '.');
            } else if i == m {
            } else {
                lemma_broken_prefix_not_mantissa(b, d1, saw_dot, m, i);
            }
        }
    }
}

} // verus!
