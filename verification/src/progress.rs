//! The progress-line parser: telling the copy tool's periodic progress
//! reports apart from its incidental diagnostic lines, and taking the
//! numeric fields out of a report.
//!
//! A progress line has the shape `"<bytes> <freeform text>, <elapsed> s,
//! <throughput>"`: a leading unsigned byte count before the first space, and
//! after the last two commas an elapsed-seconds token suffixed `" s"` and a
//! throughput label.  Any departure from that shape is not an error, only
//! "not a progress line".

use vstd::prelude::*;
use vstd::string::*;
use crate::float_text::{is_float_literal, is_float_text};
use crate::numbers::{parse_u64_str, parses_as_u64, uint_val};
use crate::text::{split_at_first, split_at_last, split_first_at, split_last_at, trim_seq, trim_str};

verus! {

/// One parsed progress report: cumulative bytes copied, the elapsed-seconds
/// token with its `" s"` suffix shed, and the trimmed throughput label.
pub struct ProgressReport {
    pub bytes_transferred: u64,
    pub elapsed: String,
    pub throughput_label: String,
}

/// The fields of a progress report, as mathematical values.
pub struct ProgressFields {
    pub bytes: u64,
    pub elapsed: Seq<char>,
    pub throughput: Seq<char>,
}

impl View for ProgressReport {
    type V = ProgressFields;

    open spec fn view(&self) -> ProgressFields {
        ProgressFields {
            bytes: self.bytes_transferred,
            elapsed: self.elapsed@,
            throughput: self.throughput_label@,
        }
    }
}

/// The elapsed-seconds token carries a literal `" s"` suffix.
pub open spec fn has_seconds_suffix(tok: Seq<char>) -> bool {
    tok.len() >= 2 && tok[tok.len() - 2] == ' ' && tok[tok.len() - 1] == 's'
}

/// What parsing one line yields: the fields of its progress report, or
/// nothing where the line is not a progress line.
///
/// Step by step: the text before the first space must be an unsigned 64-bit
/// byte count; the line splits at its last comma into a remainder and the
/// throughput label, both trimmed; the remainder splits at its own last
/// comma, and the trimmed field after it must end in `" s"` and, with that
/// suffix shed, read as a 32-bit float.
pub open spec fn parse_spec(line: Seq<char>) -> Option<ProgressFields> {
    match split_at_first(line, ' ') {
        None => None,
        Some((head, _)) => {
            if !parses_as_u64(head) {
                None
            } else {
                match split_at_last(line, ',') {
                    None => None,
                    Some((before, after)) => {
                        let rest = trim_seq(before);
                        let label = trim_seq(after);
                        match split_at_last(rest, ',') {
                            None => None,
                            Some((_, second)) => {
                                let tok = trim_seq(second);
                                if has_seconds_suffix(tok) && is_float_text(
                                    tok.take(tok.len() - 2),
                                ) {
                                    Some(
                                        ProgressFields {
                                            bytes: uint_val(head) as u64,
                                            elapsed: tok.take(tok.len() - 2),
                                            throughput: label,
                                        },
                                    )
                                } else {
                                    None
                                }
                            },
                        }
                    },
                }
            }
        },
    }
}

/// Parse one line from the copy tool's diagnostic stream.
///
/// Returns the progress report the line carries, or `None` for any line
/// that is not a progress line; [`parse_spec`] says which is which, and
/// what the fields hold.
pub fn parse(line: &str) -> (r: Option<ProgressReport>)
    ensures
        match (r, parse_spec(line@)) {
            (Some(rep), Some(f)) => rep@ == f,
            (None, None) => true,
            _ => false,
        },
{
    let head = match split_first_at(line, ' ') {
        Some(p) => p.0,
        None => {
            return None;
        },
    };
    let bytes = match parse_u64_str(head) {
        Some(v) => v,
        None => {
            return None;
        },
    };
    let (before, after) = match split_last_at(line, ',') {
        Some(p) => p,
        None => {
            return None;
        },
    };
    let rest = trim_str(before);
    let label = trim_str(after);
    let second = match split_last_at(rest, ',') {
        Some(p) => p.1,
        None => {
            return None;
        },
    };
    let tok = trim_str(second);
    let tok_len = tok.unicode_len();
    if tok_len < 2 || tok.get_char(tok_len - 2) != ' ' || tok.get_char(tok_len - 1) != 's' {
        return None;
    }
    let secs = tok.substring_char(0, tok_len - 2);
    if !is_float_literal(secs) {
        return None;
    }
    Some(
        ProgressReport {
            bytes_transferred: bytes,
            elapsed: String::from_str(secs),
            throughput_label: String::from_str(label),
        },
    )
}

} // verus!
