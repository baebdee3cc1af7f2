use ddr::float_text::is_float_literal;
use ddr::numbers::{parse_u16_str, parse_u64_str};
use ddr::progress::parse;

#[test]
fn scenario_progress_line() {
    let r = parse("1048576 bytes (1.0 MB) copied, 2.5 s, 419 kB/s").unwrap();
    assert_eq!(r.bytes_transferred, 1048576);
    assert_eq!(r.elapsed, "2.5");
    assert_eq!(r.elapsed.parse::<f32>().unwrap(), 2.5f32);
    assert_eq!(r.throughput_label, "419 kB/s");
}

#[test]
fn progress_line_with_freeform_middle() {
    let r = parse("999 records in and out again, 0.125 s,   9.9 MB/s  ").unwrap();
    assert_eq!(r.bytes_transferred, 999);
    assert_eq!(r.elapsed, "0.125");
    assert_eq!(r.throughput_label, "9.9 MB/s");
}

#[test]
fn leading_plus_is_a_valid_count() {
    let r = parse("+5 bytes copied, 1 s, x").unwrap();
    assert_eq!(r.bytes_transferred, 5);
    assert_eq!(r.elapsed, "1");
}

#[test]
fn largest_count_is_accepted() {
    let r = parse("18446744073709551615 bytes copied, 1 s, x").unwrap();
    assert_eq!(r.bytes_transferred, u64::MAX);
}

#[test]
fn overflowing_count_is_no_match() {
    assert!(parse("18446744073709551616 bytes copied, 1 s, x").is_none());
}

#[test]
fn no_leading_integer_is_no_match() {
    assert!(parse("abc 123").is_none());
    assert!(parse("dd: invalid option").is_none());
    assert!(parse("1e3 bytes copied, 1 s, x").is_none());
}

#[test]
fn no_space_is_no_match() {
    assert!(parse("123,4,5").is_none());
    assert!(parse("").is_none());
}

#[test]
fn missing_comma_fields_are_no_match() {
    assert!(parse("123 bytes copied").is_none());
    assert!(parse("123 bytes copied, 3 s").is_none());
}

#[test]
fn second_to_last_field_must_end_in_seconds() {
    assert!(parse("123 bytes copied, 3 q, 4 MB/s").is_none());
    assert!(parse("123 bytes copied, 3s, 4 MB/s").is_none());
    assert!(parse("123 bytes copied, abc s, 4 MB/s").is_none());
    assert!(parse("123 bytes copied, 2.5  s, 4 MB/s").is_none());
}

#[test]
fn elapsed_accepts_float_shapes() {
    assert_eq!(parse("8 b, 2.5e2 s, x").unwrap().elapsed, "2.5e2");
    assert_eq!(parse("8 b, .5 s, x").unwrap().elapsed, ".5");
    assert_eq!(parse("8 b, -0.5 s, x").unwrap().elapsed, "-0.5");
    assert_eq!(parse("8 b, inf s, x").unwrap().elapsed, "inf");
}

#[test]
fn float_shapes_match_the_standard_parser() {
    let samples = [
        "2.5", "-2.5", "+.5", ".", "", "1.", "1e3", "1E-3", "1e+3", "inf", "Infinity", "NAN",
        "-inf", "nan", "1.2.3", "1e", "e3", "+", "--5", "5 ", " 5", "0x10", "1_000", "2.5e",
        "2.5e+", "infx", "3f", "\u{ff11}\u{ff12}", "+infinity", "-nAn", "0", "00.00e00",
    ];
    for s in samples {
        assert_eq!(is_float_literal(s), s.parse::<f32>().is_ok(), "sample {s:?}");
    }
}

#[test]
fn unsigned_parsing_matches_the_standard_parser() {
    let samples = [
        "0", "123", "+123", "", "+", "-1", "18446744073709551615", "18446744073709551616",
        "0009", "12a", " 12", "１２", "99999999999999999999999999",
    ];
    for s in samples {
        assert_eq!(parse_u64_str(s), s.parse::<u64>().ok(), "sample {s:?}");
        assert_eq!(parse_u16_str(s), s.parse::<u16>().ok(), "sample {s:?}");
    }
    assert_eq!(parse_u16_str("65535"), Some(65535));
    assert_eq!(parse_u16_str("65536"), None);
}
