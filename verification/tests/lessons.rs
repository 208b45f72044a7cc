//! Where lessons lie, and which processes run.

use loop_engine::engine::storage::lock::sidecar_lock_path;
use loop_engine::engine::yaml::frontmatter::combine_frontmatter;
use loop_engine::engine::yaml::schema::LessonStatus;
use loop_engine::lessons::loader::{
    get_lesson_by_id, is_valid_lesson_id, lesson_file_path, lesson_locations, open_lesson,
};
use loop_engine::pid::{
    can_be_probed, daemon_state, pid_is_alive, status, stop, DaemonState, Probe, StopPlan,
};

const HOME: &str = "/home/u/.loop";

#[test]
fn rejects_invalid_id_formats() {
    assert!(!is_valid_lesson_id(""));
    assert!(!is_valid_lesson_id("les-"));
    assert!(!is_valid_lesson_id("not-a-lesson"));
    assert!(!is_valid_lesson_id("les-bad/path"));
    assert!(is_valid_lesson_id("les-aaaaaaaa"));
    assert!(is_valid_lesson_id("les-dfs24ojt"));
}

#[test]
fn returns_none_when_lesson_missing() {
    assert!(get_lesson_by_id(HOME, "les-missing", &vec![]).is_none());
}

#[test]
fn returns_none_for_invalid_id() {
    let files = vec![format!("{HOME}/lessons/active/not-a-lesson-id.md")];
    assert!(get_lesson_by_id(HOME, "not-a-lesson-id", &files).is_none());
    assert!(lesson_locations(HOME, "not-a-lesson-id").is_empty());
}

#[test]
fn finds_lesson_in_active_status() {
    let files = vec![format!("{HOME}/lessons/active/les-aaaaaaaa.md")];
    let found = get_lesson_by_id(HOME, "les-aaaaaaaa", &files).expect("lesson should be found");
    assert_eq!(found.status, LessonStatus::Active);
    assert_eq!(found.path, files[0]);
}

#[test]
fn finds_lesson_in_each_status_dir() {
    for status in ["pending", "active", "promoted", "discarded", "superseded"] {
        let files = vec![format!("{HOME}/lessons/{status}/les-pertest1.md")];
        let found =
            get_lesson_by_id(HOME, "les-pertest1", &files).expect("should find in any status");
        assert_eq!(found.status.as_str(), status);
    }
}

#[test]
fn the_first_status_wins() {
    let files = vec![
        format!("{HOME}/lessons/promoted/les-twice.md"),
        format!("{HOME}/lessons/pending/les-twice.md"),
    ];
    let found = get_lesson_by_id(HOME, "les-twice", &files).unwrap();
    assert_eq!(found.status, LessonStatus::Pending);
    assert_eq!(lesson_locations(HOME, "les-twice").len(), 5);
}

#[test]
fn lesson_file_path_uses_status_dir() {
    let path = lesson_file_path(HOME, "active", "les-aaaaaaaa").unwrap();
    assert!(path.ends_with("/lessons/active/les-aaaaaaaa.md"));
}

#[test]
fn lesson_file_path_rejects_invalid_id() {
    let result = lesson_file_path(HOME, "active", "bogus");
    assert!(result.is_err());
}

#[test]
fn lesson_files_are_opened() {
    let source = combine_frontmatter("id: les-a", "test body\n");
    let split = open_lesson("/x/les-a.md", &source).unwrap();
    assert_eq!(split.yaml, "id: les-a");
    assert_eq!(split.body.trim(), "test body");
    let error = open_lesson("/x/les-a.md", "no frontmatter").unwrap_err();
    assert!(error.contains("/x/les-a.md"), "{error}");
}

#[test]
fn sidecar_path_is_hidden_and_in_same_dir() {
    let target = "/tmp/foo/les-abc.md";
    let lock = sidecar_lock_path(target).unwrap();
    assert_eq!(lock, "/tmp/foo/.les-abc.md.lock");
}

#[test]
fn pid_zero_is_not_alive() {
    assert!(!can_be_probed(0));
    assert!(!pid_is_alive(0, Probe::Sent));
}

#[test]
fn very_high_pid_is_not_alive() {
    assert!(!pid_is_alive(u32::MAX - 1, Probe::Failed));
    assert!(!can_be_probed(u32::MAX - 1));
}

#[test]
fn a_process_of_another_user_is_alive() {
    assert!(pid_is_alive(4711, Probe::NotPermitted));
    assert!(pid_is_alive(4711, Probe::Sent));
    assert!(!pid_is_alive(4711, Probe::Failed));
}

#[test]
fn the_status_tells_what_is_known() {
    let at = "/home/u/.loop/daemon.pid";
    assert_eq!(daemon_state(None, Probe::Sent), DaemonState::NoPidFile);
    assert_eq!(
        daemon_state(Some(7), Probe::NotPermitted),
        DaemonState::Running(7)
    );
    assert_eq!(daemon_state(Some(7), Probe::Failed), DaemonState::Stale(7));
    assert_eq!(
        status(DaemonState::NoPidFile, at),
        (
            "loop-engine: not running (no PID file at /home/u/.loop/daemon.pid)".to_string(),
            1
        )
    );
    assert_eq!(
        status(DaemonState::Running(4711), at),
        ("loop-engine: running (pid=4711)".to_string(), 0)
    );
    assert_eq!(
        status(DaemonState::Stale(4711), at).0,
        "loop-engine: not running (stale PID file at /home/u/.loop/daemon.pid, pid=4711)"
    );
}

#[test]
fn only_a_running_daemon_is_signalled() {
    assert!(matches!(
        stop(DaemonState::NoPidFile),
        StopPlan::Nothing { .. }
    ));
    match stop(DaemonState::Stale(12)) {
        StopPlan::ClearPidFile { message } => assert_eq!(
            message,
            "loop-engine: PID file present (pid=12) but process not alive; clearing"
        ),
        other => panic!("expected ClearPidFile, got {other:?}"),
    }
    match stop(DaemonState::Running(12)) {
        StopPlan::Terminate { pid, message } => {
            assert_eq!(pid, 12);
            assert_eq!(message, "loop-engine: sent SIGTERM to pid=12");
        }
        other => panic!("expected Terminate, got {other:?}"),
    }
}
