use taskmgr::process_identity::ProcIdentity;

#[test]
fn pid_only_identity_is_never_verified() {
    assert!(!ProcIdentity::pid_only(42).is_verified());
    assert!(ProcIdentity::new(42, 1).is_verified());
}

#[test]
fn creation_time_distinguishes_reused_pid() {
    assert_ne!(ProcIdentity::new(42, 100), ProcIdentity::new(42, 200));
}
