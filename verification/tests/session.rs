use ddr::session::{ratio_scaled, TransferSession};

#[test]
fn scenario_ratio_is_half() {
    assert_eq!(ratio_scaled(1048576, 2097152, 1000), 500);
}

#[test]
fn ratio_is_exact_and_rounded_down() {
    assert_eq!(ratio_scaled(1, 3, 100), 33);
    assert_eq!(ratio_scaled(2, 3, 1000), 666);
    assert_eq!(ratio_scaled(0, 7, 100), 0);
    assert_eq!(ratio_scaled(7, 7, 100), 100);
}

#[test]
fn ratio_is_deliberately_unclamped() {
    assert_eq!(ratio_scaled(300, 200, 100), 150);
}

#[test]
fn scenario_diagnostic_line_joins_the_window() {
    let mut s = TransferSession::new(2097152);
    assert!(s.handle_line("dd: invalid option".to_string()).is_none());
    assert_eq!(s.diagnostic_lines(), vec!["dd: invalid option"]);
    assert_eq!(s.rewind_rows(), 1);
}

#[test]
fn scenario_progress_line_leaves_the_window_alone() {
    let mut s = TransferSession::new(2097152);
    assert!(s.handle_line("dd: invalid option".to_string()).is_none());
    let rep = s
        .handle_line("1048576 bytes (1.0 MB) copied, 2.5 s, 419 kB/s".to_string())
        .unwrap();
    assert_eq!(rep.bytes_transferred, 1048576);
    assert_eq!(rep.elapsed, "2.5");
    assert_eq!(rep.throughput_label, "419 kB/s");
    assert_eq!(s.diagnostic_lines(), vec!["dd: invalid option"]);
    assert_eq!(s.rewind_rows(), 1);
    assert_eq!(s.total_bytes(), 2097152);
    assert_eq!(ratio_scaled(rep.bytes_transferred, s.total_bytes(), 1000), 500);
}
