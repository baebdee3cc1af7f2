use ddr::cli::{build_copy_tool_args, read_arguments, CliRequest};

fn args_of(words: &[&str]) -> Vec<String> {
    words.iter().map(|w| w.to_string()).collect()
}

#[test]
fn transfer_with_passthrough() {
    match read_arguments(&args_of(&["in.img", "out.img", "--", "bs=4M", "count=2"])) {
        CliRequest::Transfer(t) => {
            assert_eq!(t.source, "in.img");
            assert_eq!(t.destination, "out.img");
            assert_eq!(t.passthrough, vec!["bs=4M", "count=2"]);
            let dd = build_copy_tool_args(&t);
            assert_eq!(
                dd,
                vec!["status=progress", "if=in.img", "of=out.img", "bs=4M", "count=2"]
            );
        },
        _ => panic!("expected a transfer"),
    }
}

#[test]
fn two_arguments_carry_nothing_through() {
    match read_arguments(&args_of(&["a", "b"])) {
        CliRequest::Transfer(t) => {
            assert_eq!(t.source, "a");
            assert_eq!(t.destination, "b");
            assert!(t.passthrough.is_empty());
            assert_eq!(build_copy_tool_args(&t), vec!["status=progress", "if=a", "of=b"]);
        },
        _ => panic!("expected a transfer"),
    }
}

#[test]
fn version_flag_wins_among_the_first_three() {
    assert!(matches!(read_arguments(&args_of(&["--version"])), CliRequest::ShowVersion));
    assert!(matches!(read_arguments(&args_of(&["a", "--version"])), CliRequest::ShowVersion));
    assert!(matches!(
        read_arguments(&args_of(&["a", "b", "--version"])),
        CliRequest::ShowVersion
    ));
}

#[test]
fn version_flag_after_the_separator_is_passed_through() {
    match read_arguments(&args_of(&["a", "b", "--", "--version"])) {
        CliRequest::Transfer(t) => assert_eq!(t.passthrough, vec!["--version"]),
        _ => panic!("expected a transfer"),
    }
}

#[test]
fn a_bare_third_argument_is_too_many() {
    assert!(matches!(
        read_arguments(&args_of(&["a", "b", "c"])),
        CliRequest::TooManyArguments
    ));
}

#[test]
fn fewer_than_two_arguments_are_too_few() {
    assert!(matches!(read_arguments(&args_of(&[])), CliRequest::TooFewArguments(0)));
    assert!(matches!(read_arguments(&args_of(&["a"])), CliRequest::TooFewArguments(1)));
}
