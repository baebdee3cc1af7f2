//! The laws the progress parser obeys, stated over the same specification
//! the executable parser is proved against.

use vstd::prelude::*;
use crate::float_text::is_float_text;
use crate::numbers::{all_digits, digits_val, is_digit, parses_as_u64, uint_digits, uint_val};
use crate::progress::{has_seconds_suffix, parse_spec, ProgressFields};
use crate::text::{
    is_space, lemma_first_occurrence, lemma_last_occurrence, lemma_trim_drop_leading_space,
    lemma_trim_noop, split_at_first, split_at_last, trim_seq,
};

verus! {

/// A digit is none of the characters the parser treats specially.
proof fn lemma_digit_is_plain(c: char)
    requires
        is_digit(c),
    ensures
        !is_space(c),
        c != ' ',
        c != ',',
        c != '+',
{
}

/// Every line of the progress shape is recognised, field for field: a
/// leading byte count, freeform comma-free text, an elapsed-seconds token
/// marked `" s"`, and a throughput label that comes back trimmed.
pub proof fn lemma_parse_recognises_progress(
    count: Seq<char>,
    middle: Seq<char>,
    secs: Seq<char>,
    label: Seq<char>,
)
    requires
        count.len() > 0,
        all_digits(count),
        digits_val(count) <= u64::MAX,
        !middle.contains(','),
        secs.len() > 0,
        !is_space(secs[0]),
        !secs.contains(','),
        is_float_text(secs),
        !label.contains(','),
    ensures
        parse_spec(
            count + seq![' '] + middle + seq![',', ' '] + secs + seq![' ', 's', ',', ' '] + label,
        ) == Some(
            ProgressFields {
                bytes: digits_val(count) as u64,
                elapsed: secs,
                throughput: trim_seq(label),
            },
        ),
{
    let line = count + seq![' '] + middle + seq![',', ' '] + secs + seq![' ', 's', ',', ' ']
        + label;
    let lb = count.len() as int;
    let lx = middle.len() as int;
    let ls = secs.len() as int;
    let ly = label.len() as int;
    let p1 = lb + 1 + lx;
    let p2 = lb + lx + ls + 5;
    let n = lb + lx + ls + ly + 7;
    assert(line.len() == n);

    // Where each piece of the line stands.
    assert forall|j: int| 0 <= j < lb implies line[j] == count[j] by {}
    assert(line[lb] == ' ');
    assert forall|j: int| lb + 1 <= j < p1 implies line[j] == middle[j - lb - 1] by {}
    assert(line[p1] == ',');
    assert(line[p1 + 1] == ' ');
    assert forall|j: int| p1 + 2 <= j < p1 + 2 + ls implies line[j] == secs[j - p1 - 2] by {}
    assert(line[p1 + 2 + ls] == ' ');
    assert(line[p1 + 3 + ls] == 's');
    assert(line[p2] == ',');
    assert(line[p2 + 1] == ' ');
    assert forall|j: int| p2 + 2 <= j < n implies line[j] == label[j - p2 - 2] by {}

    // The first space ends the byte count.
    assert forall|j: int| 0 <= j < lb implies #[trigger] line[j] != ' ' by {
        lemma_digit_is_plain(count[j]);
    }
    lemma_first_occurrence(line, ' ', lb);
    let head = line.take(lb);
    assert(head =~= count);
    assert(uint_digits(count) == count) by {
        lemma_digit_is_plain(count[0]);
    }
    assert(parses_as_u64(head));

    // The last comma of the whole line splits off the throughput label.
    assert(!label.contains(',') ==> forall|t: int| 0 <= t < ly ==> #[trigger] label[t] != ',');
    assert forall|j: int| p2 < j < n implies #[trigger] line[j] != ',' by {
        if j > p2 + 1 {
            assert(line[j] == label[j - p2 - 2]);
        }
    }
    lemma_last_occurrence(line, ',', p2);
    let before = line.take(p2);
    let after = line.skip(p2 + 1);
    assert(after =~= seq![' '] + label);
    lemma_trim_drop_leading_space(' ', label);
    assert(trim_seq(after) == trim_seq(label));

    // What stands before that comma is untouched by trimming.
    assert(before.len() == p2);
    assert forall|j: int| 0 <= j < p2 implies before[j] == line[j] by {}
    assert(before[0] == count[0]);
    assert(!is_space(before[0])) by {
        lemma_digit_is_plain(count[0]);
    }
    assert(before.last() == 's');
    assert(!is_space('s'));
    lemma_trim_noop(before);
    assert(trim_seq(before) == before);

    // Its own last comma splits off the elapsed-seconds field.
    assert(!secs.contains(',') ==> forall|t: int| 0 <= t < ls ==> #[trigger] secs[t] != ',');
    assert forall|j: int| p1 < j < p2 implies #[trigger] before[j] != ',' by {
        if p1 + 2 <= j < p1 + 2 + ls {
            assert(before[j] == secs[j - p1 - 2]);
        }
    }
    lemma_last_occurrence(before, ',', p1);
    let second = before.skip(p1 + 1);
    let core = secs + seq![' ', 's'];
    assert(second =~= seq![' '] + core);
    lemma_trim_drop_leading_space(' ', core);
    assert(core[0] == secs[0]);
    assert(core.last() == 's');
    lemma_trim_noop(core);
    assert(trim_seq(second) == core);

    // The elapsed field carries its `" s"` suffix, and sheds it.
    assert(core.len() == ls + 2);
    assert(core[ls] == ' ');
    assert(core[ls + 1] == 's');
    assert(has_seconds_suffix(core));
    assert(core.take(ls) =~= secs);
    assert(uint_val(head) == digits_val(count));
}

/// A line without a leading unsigned byte count before its first space is
/// no progress line.
pub proof fn lemma_no_count_no_match(line: Seq<char>)
    requires
        match split_at_first(line, ' ') {
            Some(p) => !parses_as_u64(p.0),
            None => true,
        },
    ensures
        parse_spec(line) is None,
{
}

/// A line without two comma-separated trailing fields is no progress
/// line.
pub proof fn lemma_missing_fields_no_match(line: Seq<char>)
    requires
        match split_at_last(line, ',') {
            Some(p) => split_at_last(trim_seq(p.0), ',') is None,
            None => true,
        },
    ensures
        parse_spec(line) is None,
{
}

/// A line whose second-to-last field does not end in `" s"` once trimmed
/// is no progress line.
pub proof fn lemma_missing_suffix_no_match(line: Seq<char>)
    requires
        match split_at_last(line, ',') {
            Some(p) => match split_at_last(trim_seq(p.0), ',') {
                Some(q) => !has_seconds_suffix(trim_seq(q.1)),
                None => false,
            },
            None => false,
        },
    ensures
        parse_spec(line) is None,
{
}

} // verus!
