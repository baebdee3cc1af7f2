use ddr::version::parse_version;

#[test]
fn coreutils_version_line() {
    let out = "dd (coreutils) 9.4\nCopyright (C) 2023 Free Software Foundation, Inc.\n";
    assert_eq!(parse_version(out), Some((9, 4)));
}

#[test]
fn surrounding_space_is_trimmed() {
    assert_eq!(parse_version("  dd 9.4  \nmore\n"), Some((9, 4)));
}

#[test]
fn carriage_return_is_shed_with_its_newline() {
    assert_eq!(parse_version("dd (coreutils) 8.32\r\nrest"), Some((8, 32)));
}

#[test]
fn malformed_output_is_rejected() {
    assert_eq!(parse_version(""), None);
    assert_eq!(parse_version("dd\n"), None);
    assert_eq!(parse_version("dd (coreutils) 9\n"), None);
    assert_eq!(parse_version("dd nine.four\n"), None);
    assert_eq!(parse_version("9.4\n"), None);
    assert_eq!(parse_version("dd 9.4.1\n"), None);
    assert_eq!(parse_version("dd 99999.4\n"), None);
}
