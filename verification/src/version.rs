//! Extracting the copy tool's `major.minor` version from the first line of
//! its version-query output: the token after the last space and before the
//! last period, and the token after that period.

use vstd::prelude::*;
use vstd::string::*;
use crate::numbers::{parse_u16_str, parses_as_u16, uint_val};
use crate::text::{find_first, split_at_last, split_last_at, trim_seq, trim_str};

verus! {

/// The first line of a text, as `str::lines` yields it: up to the first
/// newline, with a carriage return shed where a newline followed it.
pub open spec fn first_line_of(s: Seq<char>) -> Seq<char> {
    match s.index_of_first('\n') {
        Some(i) => {
            let head = s.take(i);
            if head.len() > 0 && head.last() == '\r' {
                head.drop_last()
            } else {
                head
            }
        },
        None => s,
    }
}

/// What the version probe extracts from the tool's output: the trimmed
/// first line splits at its last period, the part before that at its last
/// space, and the two tokens around the period must read as unsigned 16-bit
/// numbers.  Anything else is malformed output.
pub open spec fn version_spec(out: Seq<char>) -> Option<(u16, u16)> {
    if out.len() == 0 {
        None
    } else {
        let line = trim_seq(first_line_of(out));
        match split_at_last(line, '.') {
            None => None,
            Some((before, end)) => match split_at_last(before, ' ') {
                None => None,
                Some((_, start)) => if parses_as_u16(start) && parses_as_u16(end) {
                    Some(((uint_val(start) as u16), (uint_val(end) as u16)))
                } else {
                    None
                },
            },
        }
    }
}

/// The first line of `s`, as `str::lines` would hand it out.
pub fn first_line(s: &str) -> (r: &str)
    ensures
        r@ == first_line_of(s@),
{
    let len = s.unicode_len();
    match find_first(s, '\n') {
        Some(i) => {
            proof {
                s@.index_of_first_ensures('\n');
            }
            let head = s.substring_char(0, i);
            proof {
                assert(head@ =~= s@.take(i as int));
            }
            if i > 0 && head.get_char(i - 1) == '\r' {
                proof {
                    assert(s@.subrange(0, i - 1) =~= s@.take(i as int).drop_last());
                }
                s.substring_char(0, i - 1)
            } else {
                head
            }
        },
        None => s,
    }
}

/// Parse a `major.minor` version pair out of the tool's version-query
/// output, or report it malformed; [`version_spec`] says exactly which
/// outputs yield which pair.
pub fn parse_version(out: &str) -> (r: Option<(u16, u16)>)
    ensures
        r == version_spec(out@),
{
    if out.is_empty() {
        return None;
    }
    let line = trim_str(first_line(out));
    let (before, end) = match split_last_at(line, '.') {
        Some(p) => p,
        None => {
            return None;
        },
    };
    let start = match split_last_at(before, ' ') {
        Some(p) => p.1,
        None => {
            return None;
        },
    };
    let major = match parse_u16_str(start) {
        Some(v) => v,
        None => {
            return None;
        },
    };
    let minor = match parse_u16_str(end) {
        Some(v) => v,
        None => {
            return None;
        },
    };
    Some((major, minor))
}

} // verus!
