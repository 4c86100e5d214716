use fuse_access_guard::planner::MountPoint;
use fuse_access_guard::supervisor::id_map_line;
use fuse_access_guard::supervisor::wait_exit_code;
use fuse_access_guard::supervisor::NamespaceConfig;
use fuse_access_guard::supervisor::SetupAction;
use fuse_access_guard::supervisor::Supervisor;
use fuse_access_guard::supervisor::WaitOutcome;

#[test]
fn test_needs_sandbox() {
    let none = NamespaceConfig {
        mount_points: vec![],
        command: "cat".to_string(),
        args: vec!["hello.txt".to_string()],
    };
    assert!(!none.needs_sandbox());
    let one = NamespaceConfig {
        mount_points: vec![MountPoint { source: "/w".to_string(), target: "/w".to_string() }],
        command: "cat".to_string(),
        args: vec![],
    };
    assert!(one.needs_sandbox());
}

#[test]
fn test_wait_exit_code() {
    assert_eq!(wait_exit_code(&WaitOutcome::Exited(0)), 0);
    assert_eq!(wait_exit_code(&WaitOutcome::Exited(3)), 3);
    assert_eq!(wait_exit_code(&WaitOutcome::Signaled(9)), 137);
    assert_eq!(wait_exit_code(&WaitOutcome::Other), 1);
}

#[test]
fn test_id_map_line() {
    assert_eq!(id_map_line(1000), "1000 1000 1\n");
    assert_eq!(id_map_line(0), "0 0 1\n");
}

#[test]
fn test_pipeline_happy_path() {
    let mut sup = Supervisor::new(2);
    assert_eq!(sup.pending, SetupAction::Unshare);
    assert_eq!(sup.step(true, 0), SetupAction::WriteIdMaps);
    assert_eq!(sup.step(true, 0), SetupAction::MountPrivate);
    assert_eq!(sup.step(true, 0), SetupAction::CreatePipe);
    assert_eq!(sup.step(true, 0), SetupAction::ForkRunner);
    assert_eq!(sup.step(true, 0), SetupAction::OpenSource { idx: 0 });
    assert_eq!(sup.step(true, 0), SetupAction::OpenSource { idx: 1 });
    assert_eq!(sup.step(true, 0), SetupAction::MountOverlay { idx: 0 });
    assert_eq!(sup.step(true, 0), SetupAction::MountOverlay { idx: 1 });
    // The runner is released only now, after the last overlay is live.
    assert_eq!(sup.step(true, 0), SetupAction::ReleaseRunner);
    assert_eq!(sup.step(true, 0), SetupAction::WaitRunner);
    assert_eq!(sup.step(true, 7), SetupAction::Exit { code: 7 });
}

#[test]
fn test_pipeline_failure_before_fork_exits_directly() {
    let mut sup = Supervisor::new(1);
    assert_eq!(sup.step(false, 0), SetupAction::Exit { code: 126 });
}

#[test]
fn test_pipeline_failure_after_fork_aborts_runner() {
    let mut sup = Supervisor::new(1);
    sup.step(true, 0);
    sup.step(true, 0);
    sup.step(true, 0);
    sup.step(true, 0);
    assert_eq!(sup.step(true, 0), SetupAction::OpenSource { idx: 0 });
    assert_eq!(sup.step(false, 0), SetupAction::AbortRunner);
    assert_eq!(sup.step(true, 0), SetupAction::Exit { code: 126 });
}

#[test]
fn test_pipeline_mount_failure_aborts_runner() {
    let mut sup = Supervisor::new(1);
    for _ in 0..5 {
        sup.step(true, 0);
    }
    assert_eq!(sup.pending, SetupAction::OpenSource { idx: 0 });
    assert_eq!(sup.step(true, 0), SetupAction::MountOverlay { idx: 0 });
    assert_eq!(sup.step(false, 0), SetupAction::AbortRunner);
    assert_eq!(sup.step(true, 0), SetupAction::Exit { code: 126 });
}
