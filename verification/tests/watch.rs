use herdr_activity_monitor::watch::{may_be_alive, should_exit};

#[test]
fn exits_when_socket_gone() {
    assert!(should_exit(0, 5, false));
    assert!(should_exit(3, 5, false));
}

#[test]
fn continues_when_socket_present_and_under_threshold() {
    assert!(!should_exit(0, 5, true));
    assert!(!should_exit(5, 5, true));
}

#[test]
fn exits_when_socket_present_and_over_threshold() {
    assert!(should_exit(6, 5, true));
    assert!(should_exit(100, 5, true));
}

#[test]
fn pid_zero_is_never_alive() {
    assert!(!may_be_alive(0));
    assert!(may_be_alive(1));
}
