//! Lines of a transcript.

use loop_engine::host::jsonl_watcher::events::WatcherEvent;
use loop_engine::host::jsonl_watcher::parser::{
    parse_line, parse_record, Content, ContentBlock, LineRecord, ParseOutcome, SkipReason,
};

fn user_turn_json(extra: &str) -> String {
    format!(
        r#"{{"type":"user","uuid":"u1","parentUuid":"p1","cwd":"/cwd","gitBranch":"main","timestamp":"2026-05-13T10:00:00.000Z","version":"2.1.139","sessionId":"sess-1","message":{{"role":"user","content":"hello there"}}{extra}}}"#
    )
}

#[test]
fn parses_plain_user_turn() {
    let line = user_turn_json("");
    let outcome = parse_line(&line, "sess-1");
    let ev = match outcome {
        ParseOutcome::Event(e) => e,
        other => panic!("expected event, got {other:?}"),
    };
    match ev {
        WatcherEvent::UserTurn {
            text,
            cc_version,
            event_uuid,
            ..
        } => {
            assert_eq!(text, "hello there");
            assert_eq!(cc_version, "2.1.139");
            assert_eq!(event_uuid, "u1");
        }
        other => panic!("expected UserTurn, got {other:?}"),
    }
}

#[test]
fn skips_assistant_type() {
    let line = r#"{"type":"assistant","uuid":"a1"}"#;
    match parse_line(line, "sess-1") {
        ParseOutcome::Skip(SkipReason::NotUserType) => {}
        other => panic!("expected NotUserType, got {other:?}"),
    }
}

#[test]
fn skips_is_meta_true() {
    let line = user_turn_json(r#","isMeta":true"#);
    match parse_line(&line, "sess-1") {
        ParseOutcome::Skip(SkipReason::IsMeta) => {}
        other => panic!("expected IsMeta, got {other:?}"),
    }
}

#[test]
fn skips_is_sidechain_true() {
    let line = user_turn_json(r#","isSidechain":true"#);
    match parse_line(&line, "sess-1") {
        ParseOutcome::Skip(SkipReason::IsSidechain) => {}
        other => panic!("expected IsSidechain, got {other:?}"),
    }
}

#[test]
fn skips_tool_result_array_content() {
    let line = r#"{"type":"user","uuid":"u1","message":{"role":"user","content":[{"type":"tool_result","tool_use_id":"t1","content":"output"}]}}"#;
    match parse_line(line, "sess-1") {
        ParseOutcome::Skip(SkipReason::ToolResultContent) => {}
        other => panic!("expected ToolResultContent, got {other:?}"),
    }
}

#[test]
fn skips_slash_command_sentinel() {
    let line = r#"{"type":"user","uuid":"u1","cwd":"/c","timestamp":"2026-05-13T10:00:00.000Z","message":{"role":"user","content":"<command-name>doc</command-name>"}}"#;
    match parse_line(line, "sess-1") {
        ParseOutcome::Skip(SkipReason::SlashCommandSentinel) => {}
        other => panic!("expected SlashCommandSentinel, got {other:?}"),
    }
}

#[test]
fn promotes_request_interrupted_to_interrupt_event() {
    let line = r#"{"type":"user","uuid":"u1","parentUuid":"p1","cwd":"/cwd","timestamp":"2026-05-13T10:00:00.000Z","message":{"role":"user","content":"[Request interrupted by user]"}}"#;
    match parse_line(line, "sess-1") {
        ParseOutcome::Event(WatcherEvent::UserInterrupt {
            event_uuid,
            parent_uuid,
            ..
        }) => {
            assert_eq!(event_uuid, "u1");
            assert_eq!(parent_uuid.as_deref(), Some("p1"));
        }
        other => panic!("expected UserInterrupt, got {other:?}"),
    }
}

#[test]
fn extracts_text_from_array_content_with_text_block() {
    let line = r#"{"type":"user","uuid":"u1","cwd":"/cwd","timestamp":"2026-05-13T10:00:00.000Z","message":{"role":"user","content":[{"type":"text","text":"hello"},{"type":"text","text":"world"}]}}"#;
    match parse_line(line, "sess-1") {
        ParseOutcome::Event(WatcherEvent::UserTurn { text, .. }) => {
            assert_eq!(text, "hello\nworld");
        }
        other => panic!("expected UserTurn, got {other:?}"),
    }
}

#[test]
fn skips_empty_content_string() {
    let line = r#"{"type":"user","uuid":"u1","cwd":"/cwd","timestamp":"2026-05-13T10:00:00.000Z","message":{"role":"user","content":"   "}}"#;
    match parse_line(line, "sess-1") {
        ParseOutcome::Skip(SkipReason::NoText) => {}
        other => panic!("expected NoText, got {other:?}"),
    }
}

#[test]
fn errors_on_malformed_json() {
    let line = "{not valid json";
    match parse_line(line, "sess-1") {
        ParseOutcome::Error(msg) => assert!(msg.contains("json parse")),
        other => panic!("expected Error, got {other:?}"),
    }
}

#[test]
fn errors_when_required_field_missing() {
    let line = r#"{"type":"user","message":{"role":"user","content":"hi"}}"#;
    match parse_line(line, "sess-1") {
        ParseOutcome::Error(_) => {}
        other => panic!("expected Error, got {other:?}"),
    }
}

#[test]
fn cc_version_defaults_when_missing() {
    let line = r#"{"type":"user","uuid":"u1","cwd":"/c","timestamp":"2026-05-13T10:00:00.000Z","message":{"role":"user","content":"hi"}}"#;
    match parse_line(line, "sess-1") {
        ParseOutcome::Event(WatcherEvent::UserTurn { cc_version, .. }) => {
            assert_eq!(cc_version, "unknown");
        }
        other => panic!("expected UserTurn, got {other:?}"),
    }
}

#[test]
fn timestamps_are_read() {
    let line = user_turn_json("");
    match parse_line(&line, "sess-1") {
        ParseOutcome::Event(WatcherEvent::UserTurn {
            session_id,
            timestamp,
            cwd,
            git_branch,
            parent_uuid,
            ..
        }) => {
            assert_eq!(session_id, "sess-1");
            assert_eq!(timestamp.secs, 1_778_666_400);
            assert_eq!(timestamp.nanos, 0);
            assert_eq!(cwd, "/cwd");
            assert_eq!(git_branch.as_deref(), Some("main"));
            assert_eq!(parent_uuid.as_deref(), Some("p1"));
        }
        other => panic!("expected UserTurn, got {other:?}"),
    }
}

#[test]
fn errors_on_a_timestamp_that_is_none() {
    let line = r#"{"type":"user","uuid":"u1","cwd":"/c","timestamp":"noon","message":{"role":"user","content":"hi"}}"#;
    assert!(matches!(parse_line(line, "s"), ParseOutcome::Error(_)));
}

#[test]
fn false_flags_do_not_skip() {
    let line = user_turn_json(r#","isMeta":false,"isSidechain":false"#);
    assert!(matches!(parse_line(&line, "s"), ParseOutcome::Event(_)));
}

#[test]
fn lines_that_are_no_objects_are_not_user_turns() {
    for line in ["3", "[]", "null", "\"user\""] {
        match parse_line(line, "s") {
            ParseOutcome::Skip(SkipReason::NotUserType) => {}
            other => panic!("expected NotUserType, got {other:?}"),
        }
    }
}

#[test]
fn escapes_in_text_are_resolved() {
    let line = r#"{"type":"user","uuid":"u1","cwd":"/c","timestamp":"2026-05-13T10:00:00Z","message":{"content":"a\u0041\n\"b\""}}"#;
    match parse_line(line, "s") {
        ParseOutcome::Event(WatcherEvent::UserTurn { text, .. }) => {
            assert_eq!(text, "aA\n\"b\"");
        }
        other => panic!("expected UserTurn, got {other:?}"),
    }
}

fn record(content: Content) -> LineRecord {
    LineRecord {
        kind: Some("user".into()),
        is_meta: None,
        is_sidechain: None,
        content,
        uuid: Some("u1".into()),
        parent_uuid: None,
        cwd: Some("/c".into()),
        git_branch: None,
        timestamp: Some("2026-05-13T10:00:00.000Z".into()),
        version: None,
    }
}

#[test]
fn a_tool_result_among_texts_skips_the_line() {
    let blocks = vec![
        ContentBlock {
            kind: Some("text".into()),
            text: Some("hi".into()),
        },
        ContentBlock {
            kind: Some("tool_result".into()),
            text: None,
        },
    ];
    let stamp = loop_engine::engine::clock::Moment { secs: 1, nanos: 2 };
    let outcome = parse_record(&record(Content::Blocks(blocks)), "s", Some(stamp));
    assert!(matches!(
        outcome,
        ParseOutcome::Skip(SkipReason::ToolResultContent)
    ));
    let outcome = parse_record(&record(Content::Text("hi".into())), "s", Some(stamp));
    match outcome {
        ParseOutcome::Event(WatcherEvent::UserTurn { timestamp, .. }) => {
            assert_eq!(timestamp, stamp)
        }
        other => panic!("expected UserTurn, got {other:?}"),
    }
    let outcome = parse_record(&record(Content::Absent), "s", Some(stamp));
    assert!(matches!(outcome, ParseOutcome::Skip(SkipReason::NoText)));
}
