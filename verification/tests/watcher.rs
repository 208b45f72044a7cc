//! Cursors, reads and the translation of watcher events.

use loop_engine::engine::clock::Moment;
use loop_engine::engine::events::{EngineEvent, EventSourceError};
use loop_engine::host::jsonl_watcher::cursor::{mtime_ms, CursorAction, FileCursor, FileStat};
use loop_engine::host::jsonl_watcher::events::{WatcherEvent, PARSE_ERROR_REPORT_EVERY};
use loop_engine::host::jsonl_watcher::parser::ParseOutcome;
use loop_engine::host::jsonl_watcher::runner::{
    is_transcript, next_read, plan_change, process_line, process_outcome, session_started,
    take_read, AfterRead, ChangePlan, PathChangeKind, ReadStep, MAX_APPEND_READ,
    MAX_ITER,
};
use loop_engine::host::jsonl_watcher::source::{derive_project_tag, translate, JsonlWatcherSource};

const STAMP: Moment = Moment {
    secs: 1_778_666_400,
    nanos: 0,
};

fn stat(inode: u64, size: usize) -> FileStat {
    FileStat {
        inode,
        size: size as u64,
        mtime_ms: 17,
    }
}

fn at_eof(contents: &str) -> FileCursor {
    FileCursor::new_at_eof("/t/s.jsonl".into(), "s".into(), stat(7, contents.len()))
}

fn at_start(contents: &str) -> FileCursor {
    FileCursor::new_at_start("/t/s.jsonl".into(), "s".into(), stat(7, contents.len()))
}

/// Reads a file to its end as a host does, and gives the events.
fn drain(cursor: &mut FileCursor, contents: &str) -> Vec<WatcherEvent> {
    let mut events = vec![];
    for reads in 0.. {
        match next_read(cursor, Some(stat(7, contents.len()))) {
            ReadStep::Read { from, count } => {
                let end = contents.len().min((from + count) as usize);
                let bytes = &contents.as_bytes()[from as usize..end];
                let result = cursor.read_appended(bytes).unwrap();
                let outcome = take_read(cursor, from, count, &result, reads);
                events.extend(outcome.events);
                if outcome.next != AfterRead::ReadOn {
                    return events;
                }
            }
            ReadStep::Ended(event) => {
                events.push(event);
                return events;
            }
            ReadStep::Done => return events,
        }
    }
    events
}

fn user_turn_line(uuid: &str, text: &str) -> String {
    format!(
        r#"{{"type":"user","uuid":"{uuid}","cwd":"/c","timestamp":"2026-05-13T10:00:00.000Z","version":"2.1.139","sessionId":"sess-1","message":{{"role":"user","content":"{text}"}}}}"#
    ) + "\n"
}

#[test]
fn new_at_eof_sets_offset_to_file_size() {
    let contents = "line1\nline2\n";
    let cursor = at_eof(contents);
    assert_eq!(cursor.offset, contents.len() as u64);
}

#[test]
fn classify_detects_append() {
    let mut cursor = at_eof("line1\n");
    match cursor.classify(Some(stat(7, "line1\nline2\n".len()))) {
        CursorAction::Append { read_bytes } => assert_eq!(read_bytes, 6),
        other => panic!("expected Append, got {other:?}"),
    }
}

#[test]
fn classify_detects_no_change() {
    let mut cursor = at_eof("line1\n");
    match cursor.classify(Some(stat(7, "line1\n".len()))) {
        CursorAction::NoChange => {}
        other => panic!("expected NoChange, got {other:?}"),
    }
}

#[test]
fn classify_detects_truncation() {
    let mut cursor = at_eof("long content here line\n");
    match cursor.classify(Some(stat(7, "short\n".len()))) {
        CursorAction::ReplayFromStart { .. } => assert_eq!(cursor.offset, 0),
        other => panic!("expected ReplayFromStart, got {other:?}"),
    }
}

#[test]
fn classify_detects_rotation() {
    let mut cursor = at_eof("line1\n");
    let original_inode = cursor.inode;
    match cursor.classify(Some(stat(8, "new content\n".len()))) {
        CursorAction::ReplayFromStart { .. } => {
            assert_eq!(cursor.offset, 0);
            assert_ne!(cursor.inode, original_inode);
        }
        other => panic!("expected ReplayFromStart, got {other:?}"),
    }
}

#[test]
fn classify_detects_removed_file() {
    let mut cursor = at_eof("line1\n");
    match cursor.classify(None) {
        CursorAction::Removed => {}
        other => panic!("expected Removed, got {other:?}"),
    }
}

#[test]
fn read_appended_splits_complete_lines() {
    let contents = "line1\nline2\nline3\n";
    let result = at_start(contents).read_appended(contents.as_bytes()).unwrap();
    assert_eq!(result.lines, vec!["line1", "line2", "line3"]);
    assert_eq!(result.fragment_len, 0);
    assert_eq!(result.actual_read, 18);
}

#[test]
fn read_appended_preserves_trailing_fragment() {
    let contents = "complete\npartial";
    let result = at_start(contents).read_appended(contents.as_bytes()).unwrap();
    assert_eq!(result.lines, vec!["complete"]);
    assert_eq!(result.fragment_len, 7);
    assert_eq!(result.actual_read, 16);
    assert_eq!(result.advance(), 9);
}

#[test]
fn read_appended_handles_only_fragment() {
    let contents = "no_newline_here";
    let result = at_start(contents).read_appended(contents.as_bytes()).unwrap();
    assert!(result.lines.is_empty());
    assert_eq!(result.fragment_len, 15);
    assert_eq!(result.actual_read, 15);
    assert_eq!(result.advance(), 0);
}

#[test]
fn session_id_from_path_uses_stem() {
    let path = "/tmp/-Users-x-loop/abc-123.jsonl";
    assert_eq!(FileCursor::session_id_from_path(path), "abc-123");
}

#[test]
fn modification_times_are_milliseconds() {
    assert_eq!(mtime_ms(2, 7_900_000), 2_007);
    assert_eq!(mtime_ms(0, 0), 0);
}

#[test]
fn integration_emits_user_turn_on_append() {
    let mut cursor = at_eof("");
    let contents = user_turn_line("u1", "hello daemon");
    let events = drain(&mut cursor, &contents);
    assert_eq!(events.len(), 1);
    match &events[0] {
        WatcherEvent::UserTurn {
            text, event_uuid, ..
        } => {
            assert_eq!(text, "hello daemon");
            assert_eq!(event_uuid, "u1");
        }
        other => panic!("expected UserTurn, got {other:?}"),
    }
    assert_eq!(cursor.offset, contents.len() as u64);
}

#[test]
fn integration_filters_assistant_turns() {
    let mut cursor = at_eof("");
    let mut contents = String::from(
        "{\"type\":\"assistant\",\"uuid\":\"a1\",\"message\":{\"role\":\"assistant\",\"content\":\"hi\"}}\n",
    );
    contents.push_str(&user_turn_line("u2", "real input"));
    let events = drain(&mut cursor, &contents);
    assert_eq!(events.len(), 1);
    match &events[0] {
        WatcherEvent::UserTurn { text, .. } => assert_eq!(text, "real input"),
        other => panic!("expected UserTurn, got {other:?}"),
    }
}

#[test]
fn a_line_in_two_writes_is_read_once() {
    let line = user_turn_line("u1", "split");
    let mut cursor = at_eof("");
    let (first, _) = line.split_at(30);
    assert!(drain(&mut cursor, first).is_empty());
    assert_eq!(cursor.offset, 0);
    let events = drain(&mut cursor, &line);
    assert_eq!(events.len(), 1);
    assert!(drain(&mut cursor, &line).is_empty());
}

#[test]
fn reads_are_bounded() {
    let mut cursor = at_start("");
    match next_read(&mut cursor, Some(stat(7, 5 << 20))) {
        ReadStep::Read { from, count } => {
            assert_eq!(from, 0);
            assert_eq!(count, MAX_APPEND_READ);
        }
        _ => panic!("expected a read"),
    }
    match next_read(&mut cursor, None) {
        ReadStep::Ended(WatcherEvent::SessionEnded { session_id }) => {
            assert_eq!(session_id, "s")
        }
        _ => panic!("expected the end"),
    }
}

#[test]
fn every_fifth_parse_error_is_reported() {
    let mut cursor = at_start("");
    let mut reported = vec![];
    for n in 1..=11u32 {
        if let Some(event) = process_line(&mut cursor, "{bad") {
            match event {
                WatcherEvent::ParseError {
                    session_id,
                    raw_line,
                    error,
                    ..
                } => {
                    assert_eq!(session_id, "s");
                    assert_eq!(raw_line, "{bad");
                    assert!(error.contains("json parse"), "{error}");
                }
                other => panic!("expected ParseError, got {other:?}"),
            }
            reported.push(n);
        }
    }
    assert_eq!(cursor.parse_error_count, 1);
    assert_eq!(PARSE_ERROR_REPORT_EVERY, 5);
    assert_eq!(reported, vec![5, 10]);
}

#[test]
fn reported_lines_are_cut() {
    let mut cursor = at_start("");
    let long = "x".repeat(500);
    cursor.parse_error_count = PARSE_ERROR_REPORT_EVERY - 1;
    let event = process_outcome(&mut cursor, &long, ParseOutcome::Error("e".into())).unwrap();
    match event {
        WatcherEvent::ParseError { raw_line, .. } => assert_eq!(raw_line, "x".repeat(200)),
        other => panic!("expected ParseError, got {other:?}"),
    }
}

#[test]
fn changes_are_planned_by_kind() {
    assert!(is_transcript("/t/a.jsonl"));
    assert!(!is_transcript("/t/a.json"));
    assert!(matches!(
        plan_change("/t/a.jsonl", PathChangeKind::Remove, false),
        ChangePlan::Ignore
    ));
    assert!(matches!(
        plan_change("/t/a.jsonl", PathChangeKind::Modify, false),
        ChangePlan::Open { from_start: false }
    ));
    assert!(matches!(
        plan_change("/t/a.jsonl", PathChangeKind::Create, false),
        ChangePlan::Open { from_start: true }
    ));
    assert!(matches!(
        plan_change("/t/a.jsonl", PathChangeKind::Modify, true),
        ChangePlan::Advance
    ));
    match plan_change("/t/a.jsonl", PathChangeKind::Remove, true) {
        ChangePlan::End(WatcherEvent::SessionEnded { session_id }) => assert_eq!(session_id, "a"),
        _ => panic!("expected the end"),
    }
}

#[test]
fn sessions_start_under_their_file_name() {
    match session_started("/t/abc.jsonl", STAMP) {
        WatcherEvent::SessionStarted {
            session_id,
            path,
            started_at,
        } => {
            assert_eq!(session_id, "abc");
            assert_eq!(path, "/t/abc.jsonl");
            assert_eq!(started_at, STAMP);
        }
        other => panic!("expected SessionStarted, got {other:?}"),
    }
}

fn make_user_turn() -> WatcherEvent {
    WatcherEvent::UserTurn {
        session_id: "sess-1".into(),
        event_uuid: "evt-1".into(),
        parent_uuid: Some("evt-0".into()),
        cwd: "/tmp/loop-test".into(),
        git_branch: Some("main".into()),
        timestamp: STAMP,
        text: "thanks".into(),
        cc_version: "2.1.139".into(),
    }
}

#[test]
fn translate_user_turn_maps_all_fields() {
    let w = make_user_turn();
    let e = translate(w).unwrap();
    let EngineEvent::UserTurn {
        session_id,
        event_uuid,
        parent_event_uuid,
        text,
        cwd,
        host_version,
        project_tag,
        ..
    } = e
    else {
        panic!("expected UserTurn");
    };
    assert_eq!(session_id.as_str(), "sess-1");
    assert_eq!(event_uuid, "evt-1");
    assert_eq!(parent_event_uuid.as_deref(), Some("evt-0"));
    assert_eq!(text, "thanks");
    assert_eq!(cwd.unwrap(), "/tmp/loop-test");
    assert_eq!(host_version.unwrap().as_str(), "2.1.139");
    assert_eq!(project_tag.unwrap().as_str(), "main");
}

#[test]
fn translate_parse_error_is_transient() {
    let w = WatcherEvent::ParseError {
        session_id: "sess-1".into(),
        offset: 42,
        raw_line: "{bad json".into(),
        error: "unexpected token".into(),
    };
    let result = translate(w);
    assert!(matches!(result, Err(EventSourceError::Transient(_))));
}

#[test]
fn translate_session_started_and_ended_pass_through() {
    let started = WatcherEvent::SessionStarted {
        session_id: "sess-1".into(),
        path: "/tmp/sess-1.jsonl".into(),
        started_at: STAMP,
    };
    match translate(started).unwrap() {
        EngineEvent::SessionStarted { session_id, .. } => {
            assert_eq!(session_id.as_str(), "sess-1");
        }
        _ => panic!("expected SessionStarted"),
    }
    let ended = WatcherEvent::SessionEnded {
        session_id: "sess-1".into(),
    };
    match translate(ended).unwrap() {
        EngineEvent::SessionEnded { session_id } => {
            assert_eq!(session_id.as_str(), "sess-1");
        }
        _ => panic!("expected SessionEnded"),
    }
}

#[test]
fn derive_project_tag_prefers_git_branch() {
    let tag = derive_project_tag(&Some("feature/x".into()), "/tmp/projects/myrepo").unwrap();
    assert_eq!(tag.as_str(), "feature/x");
}

#[test]
fn derive_project_tag_falls_back_to_cwd_basename() {
    let tag = derive_project_tag(&None, "/tmp/projects/myrepo").unwrap();
    assert_eq!(tag.as_str(), "myrepo");
}

#[test]
fn derive_project_tag_empty_branch_falls_back_to_cwd() {
    let tag = derive_project_tag(&Some("".into()), "/tmp/projects/myrepo").unwrap();
    assert_eq!(tag.as_str(), "myrepo");
}

#[test]
fn derive_project_tag_returns_none_for_root_cwd_no_branch() {
    let tag = derive_project_tag(&None, "/");
    assert!(tag.is_none());
}

#[test]
fn a_source_watches_one_directory() {
    let source = JsonlWatcherSource::new("/t".to_string());
    assert_eq!(source.dir(), "/t");
    assert_eq!(source.name(), "jsonl_watcher");
}

#[test]
fn reads_for_one_change_are_bounded() {
    let mut cursor = at_start("");
    let nothing = cursor.read_appended(b"").unwrap();
    let mut next = |count, reads| take_read(&mut cursor, 0, count, &nothing, reads).next;
    assert_eq!(next(MAX_APPEND_READ - 1, 0), AfterRead::CaughtUp);
    assert_eq!(next(MAX_APPEND_READ, 0), AfterRead::ReadOn);
    assert_eq!(next(MAX_APPEND_READ, MAX_ITER - 2), AfterRead::ReadOn);
    assert_eq!(next(MAX_APPEND_READ, MAX_ITER - 1), AfterRead::GiveUp);
    assert_eq!(next(MAX_APPEND_READ - 1, MAX_ITER), AfterRead::CaughtUp);
}
