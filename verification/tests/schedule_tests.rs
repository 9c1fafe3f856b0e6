use pia::schedule::{Schedule, Step};

#[test]
fn schedule_stops_after_budget() {
    let mut s = Schedule::new(3);
    let mut started = 0;
    while s.start_iteration() {
        started += 1;
        assert_eq!(s.after_refine(false, false), Step::Continue);
    }
    assert_eq!(started, 3);
    assert_eq!(s.iterations(), 3);
    assert!(!s.converged());
}

#[test]
fn schedule_expands_then_converges() {
    let mut s = Schedule::new(10);
    assert!(s.start_iteration());
    assert_eq!(s.after_refine(true, false), Step::Expand);
    assert!(!s.converged());
    assert!(s.start_iteration());
    assert_eq!(s.after_refine(false, true), Step::Continue);
    assert!(s.start_iteration());
    assert_eq!(s.after_refine(true, true), Step::Converged);
    assert!(s.converged());
    assert_eq!(s.iterations(), 3);
}

#[test]
fn schedule_with_zero_budget_never_starts() {
    let mut s = Schedule::new(0);
    assert!(!s.start_iteration());
    assert_eq!(s.iterations(), 0);
}
