//! Unsigned decimal parsing, stated the way `u64::from_str` and
//! `u16::from_str` behave: an optional leading `+`, then one or more ASCII
//! digits, rejected on overflow.

use vstd::prelude::*;
use vstd::string::*;

verus! {

/// An ASCII decimal digit.
pub open spec fn is_digit(c: char) -> bool {
    0x30 <= (c as u32) && (c as u32) <= 0x39
}

/// The value of one digit.
pub open spec fn digit_val(c: char) -> nat
    recommends
        is_digit(c),
{
    ((c as u32) - 0x30) as nat
}

/// Every character is an ASCII decimal digit.
pub open spec fn all_digits(s: Seq<char>) -> bool {
    forall|i: int| 0 <= i < s.len() ==> is_digit(#[trigger] s[i])
}

/// The number a digit string stands for, most significant digit first.
pub open spec fn digits_val(s: Seq<char>) -> nat
    decreases s.len(),
{
    if s.len() == 0 {
        0
    } else {
        digits_val(s.drop_last()) * 10 + digit_val(s.last())
    }
}

/// The digit part of an unsigned decimal token: what stands after the
/// optional leading `+`.
pub open spec fn uint_digits(s: Seq<char>) -> Seq<char> {
    if s.len() > 0 && s[0] == '+' {
        s.drop_first()
    } else {
        s
    }
}

/// Whether a string is an unsigned decimal token, overflow aside: the shape
/// `str::parse` demands of an unsigned integer.
pub open spec fn is_uint_text(s: Seq<char>) -> bool {
    uint_digits(s).len() > 0 && all_digits(uint_digits(s))
}

/// The number an unsigned decimal token stands for.
pub open spec fn uint_val(s: Seq<char>) -> nat {
    digits_val(uint_digits(s))
}

/// Exactly when `str::parse::<u64>` succeeds.
pub open spec fn parses_as_u64(s: Seq<char>) -> bool {
    is_uint_text(s) && uint_val(s) <= u64::MAX
}

/// Exactly when `str::parse::<u16>` succeeds.
pub open spec fn parses_as_u16(s: Seq<char>) -> bool {
    is_uint_text(s) && uint_val(s) <= u16::MAX
}

/// A digit string is worth at least as much as any of its prefixes.
proof fn lemma_digits_val_prefix(s: Seq<char>, k: int)
    requires
        0 <= k <= s.len(),
    ensures
        digits_val(s.take(k)) <= digits_val(s),
    decreases s.len() - k,
{
    if k == s.len() {
        assert(s.take(k) =~= s);
    } else {
        lemma_digits_val_prefix(s.drop_last(), k);
        assert(s.drop_last().take(k) =~= s.take(k));
        assert(digits_val(s) == digits_val(s.drop_last()) * 10 + digit_val(s.last()));
        assert(digits_val(s.drop_last()) * 10 >= digits_val(s.drop_last())) by (nonlinear_arith);
    }
}

/// The value of a digit string grown by one more digit.
proof fn lemma_digits_val_step(s: Seq<char>, k: int)
    requires
        0 <= k < s.len(),
    ensures
        digits_val(s.take(k + 1)) == digits_val(s.take(k)) * 10 + digit_val(s[k]),
{
    assert(s.take(k + 1).drop_last() =~= s.take(k));
    assert(s.take(k + 1).last() == s[k]);
}

/// Parse the digits of `s` from position `start` on, as `str::parse` reads
/// them once the sign is dealt with.
fn parse_digits(s: &str, start: usize, len: usize) -> (r: Option<u64>)
    requires
        start < len,
        len == s@.len(),
    ensures
        ({
            let d = s@.skip(start as int);
            match r {
                Some(v) => all_digits(d) && digits_val(d) <= u64::MAX && v == digits_val(d),
                None => !(all_digits(d) && digits_val(d) <= u64::MAX),
            }
        }),
{
    let ghost d = s@.skip(start as int);
    let mut i: usize = start;
    let mut acc: u64 = 0;
    while i < len
        invariant
            start <= i <= len,
            len == s@.len(),
            d == s@.skip(start as int),
            all_digits(d.take(i - start)),
            acc == digits_val(d.take(i - start)),
        decreases len - i,
    {
        let c = s.get_char(i);
        proof {
            assert(d[i - start] == s@[i as int]);
        }
        let cv = c as u32;
        if cv < 0x30 || cv > 0x39 {
            proof {
                assert(!is_digit(d[i - start]));
            }
            return None;
        }
        let dig = (cv - 0x30) as u64;
        if acc > (u64::MAX - dig) / 10 {
            proof {
                lemma_digits_val_step(d, i - start);
                assert(acc * 10 + dig > u64::MAX) by (nonlinear_arith)
                    requires
                        acc > (u64::MAX - dig) / 10,
                        dig <= 9,
                ;
                lemma_digits_val_prefix(d, i - start + 1);
            }
            return None;
        }
        proof {
            lemma_digits_val_step(d, i - start);
            assert(acc * 10 + dig <= u64::MAX) by (nonlinear_arith)
                requires
                    acc <= (u64::MAX - dig) / 10,
                    dig <= 9,
            ;
        }
        acc = acc * 10 + dig;
        i += 1;
    }
    proof {
        assert(d.take(i - start) =~= d);
    }
    Some(acc)
}

/// Parse an unsigned 64-bit decimal token, exactly as `str::parse::<u64>`
/// does: `Some` on `[+]?[0-9]+` worth at most `u64::MAX`, `None` otherwise.
pub fn parse_u64_str(s: &str) -> (r: Option<u64>)
    ensures
        parses_as_u64(s@) ==> r == Some((uint_val(s@) as u64)),
        !parses_as_u64(s@) ==> r is None,
{
    let len = s.unicode_len();
    if len == 0 {
        return None;
    }
    let start: usize = if s.get_char(0) == '+' {
        1
    } else {
        0
    };
    proof {
        if start == 1 {
            assert(s@.skip(1) =~= uint_digits(s@));
        } else {
            assert(s@.skip(0) =~= uint_digits(s@));
        }
    }
    if start >= len {
        return None;
    }
    parse_digits(s, start, len)
}

/// Parse an unsigned 16-bit decimal token, exactly as `str::parse::<u16>`
/// does.
pub fn parse_u16_str(s: &str) -> (r: Option<u16>)
    ensures
        parses_as_u16(s@) ==> r == Some((uint_val(s@) as u16)),
        !parses_as_u16(s@) ==> r is None,
{
    match parse_u64_str(s) {
        Some(v) => {
            if v <= 0xffff {
                Some(v as u16)
            } else {
                None
            }
        },
        None => None,
    }
}

} // verus!
