use dsh_desktop::shell::{
    close_needs_confirm, exit_cleanup, kernel_followup, kernel_running, orphan_pid, switched_to,
    ExitCleanup, REQUEST_QUIT_EVENT,
};

#[test]
fn closing_the_management_window_over_a_running_kernel_asks_first() {
    assert!(close_needs_confirm("main", true));
    assert!(!close_needs_confirm("main", false));
    assert!(!close_needs_confirm("harness", true));
    assert!(kernel_running(false, true));
    assert!(kernel_running(true, false));
    assert!(!kernel_running(false, false));
    assert_eq!(REQUEST_QUIT_EVENT, "request-quit-confirm");
}

#[test]
fn exit_reaps_recorded_orphans_only_while_the_port_answers() {
    assert!(matches!(exit_cleanup(false, Some(7)), ExitCleanup::ClearPid));
    assert!(matches!(exit_cleanup(true, Some(7)), ExitCleanup::KillAndClear(7)));
    assert!(matches!(exit_cleanup(true, None), ExitCleanup::Nothing));
}

#[test]
fn stop_kills_the_recorded_pid_then_a_verified_listener() {
    assert_eq!(orphan_pid(false, Some(1), Some(2), true, false), None);
    assert_eq!(orphan_pid(true, Some(1), Some(2), true, false), Some(1));
    assert_eq!(orphan_pid(true, None, Some(2), true, false), Some(2));
    assert_eq!(orphan_pid(true, None, Some(2), false, false), None);
    assert_eq!(orphan_pid(true, None, Some(2), false, true), Some(2));
    assert_eq!(orphan_pid(true, None, None, true, true), None);
}

#[test]
fn first_kernel_becomes_active_and_starts_on_a_free_port() {
    let f = kernel_followup(&None, false);
    assert!(f.activate && f.start);
    let f = kernel_followup(&Some("0.1.0".into()), true);
    assert!(!f.activate && !f.start);
    assert_eq!(switched_to("0.2.0"), "已切换到版本 0.2.0");
}
