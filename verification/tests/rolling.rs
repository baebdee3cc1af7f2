use ddr::window::DiagnosticWindow;

#[test]
fn scenario_six_pushes_keep_the_last_five() {
    let mut w = DiagnosticWindow::new();
    for s in ["A", "B", "C", "D", "E", "F"] {
        w.push(s.to_string());
    }
    assert_eq!(w.lines(), vec!["B", "C", "D", "E", "F"]);
    assert_eq!(w.len(), 5);
}

#[test]
fn fewer_than_capacity_stay_in_arrival_order() {
    let mut w = DiagnosticWindow::new();
    assert_eq!(w.len(), 0);
    for s in ["one", "two", "three"] {
        assert!(w.push(s.to_string()).is_none());
    }
    assert_eq!(w.lines(), vec!["one", "two", "three"]);
    assert_eq!(w.len(), 3);
}

#[test]
fn push_hands_back_the_evicted_line() {
    let mut w = DiagnosticWindow::new();
    for s in ["A", "B", "C", "D", "E"] {
        assert!(w.push(s.to_string()).is_none());
    }
    assert_eq!(w.push("F".to_string()).as_deref(), Some("A"));
    assert_eq!(w.push("G".to_string()).as_deref(), Some("B"));
    assert_eq!(w.lines(), vec!["C", "D", "E", "F", "G"]);
}
