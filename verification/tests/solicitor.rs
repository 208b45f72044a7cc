//! Lessons that have gone stale.

use loop_engine::engine::clock::{age_in_days, parse_utc, to_rfc3339, Moment};
use loop_engine::engine::context::Context;
use loop_engine::engine::sentiment::solicitor::{
    consider, is_full, is_lesson_key, open_lesson_file, solicit_stale_lessons, LessonFacts,
    SolicitorConfig, SolicitorOutput, StaleReason,
};
use loop_engine::engine::storage::key::StorageKey;

const DAY: i64 = 86_400;
const NOW: Moment = Moment {
    secs: 1_780_000_000,
    nanos: 0,
};

fn days_ago(days: i64) -> String {
    let m = Moment {
        secs: NOW.secs - days * DAY,
        nanos: 0,
    };
    to_rfc3339(m).unwrap()
}

fn lesson(id: &str, created_at: &str, signals: usize) -> Option<LessonFacts> {
    Some(LessonFacts {
        id: id.to_string(),
        created_at: created_at.to_string(),
        signal_count: signals,
    })
}

#[test]
fn no_lessons_no_candidates() {
    let out = solicit_stale_lessons(&SolicitorConfig::default(), NOW, &vec![]);
    assert_eq!(out.scanned_count, 0);
    assert!(out.stale_candidates.is_empty());
}

#[test]
fn fresh_lesson_is_not_stale() {
    let out = solicit_stale_lessons(
        &SolicitorConfig::default(),
        NOW,
        &vec![lesson("les-fresh", &days_ago(3), 0)],
    );
    assert_eq!(out.scanned_count, 1);
    assert!(out.stale_candidates.is_empty());
}

#[test]
fn old_lesson_with_no_signals_is_stale_no_signals_in_window() {
    let out = solicit_stale_lessons(
        &SolicitorConfig::default(),
        NOW,
        &vec![lesson("les-stale", &days_ago(30), 0)],
    );
    assert_eq!(out.stale_candidates.len(), 1);
    assert_eq!(out.stale_candidates[0].lesson_id, "les-stale");
    assert_eq!(
        out.stale_candidates[0].reason,
        StaleReason::NoSignalsInWindow
    );
    assert!(out.stale_candidates[0].age_days >= 30);
}

#[test]
fn old_lesson_with_some_signals_below_threshold_is_stale() {
    let lessons = vec![lesson("les-thin", &days_ago(30), 1)];
    let out = solicit_stale_lessons(&SolicitorConfig::default(), NOW, &lessons);
    assert!(out.stale_candidates.is_empty());

    let mut config = SolicitorConfig::default();
    config.min_signals_threshold = 2;
    let out = solicit_stale_lessons(&config, NOW, &lessons);
    assert_eq!(out.stale_candidates.len(), 1);
    assert_eq!(
        out.stale_candidates[0].reason,
        StaleReason::BelowDensityThreshold
    );
}

#[test]
fn max_candidates_per_call_bounds_output() {
    let lessons = (0..5)
        .map(|i| lesson(&format!("les-many-{i}"), &days_ago(60), 0))
        .collect();
    let mut config = SolicitorConfig::default();
    config.max_candidates_per_call = 3;
    let out = solicit_stale_lessons(&config, NOW, &lessons);
    assert_eq!(out.stale_candidates.len(), 3);
    assert!(out.scanned_count >= 3);
}

#[test]
fn max_candidates_zero_returns_no_candidates() {
    let lessons = vec![lesson("les-would-be-stale", &days_ago(60), 0)];
    let mut config = SolicitorConfig::default();
    config.max_candidates_per_call = 0;
    let out = solicit_stale_lessons(&config, NOW, &lessons);
    assert!(out.stale_candidates.is_empty(), "expected zero candidates");
}

#[test]
fn malformed_lesson_increments_skipped() {
    assert!(open_lesson_file(b"just body, no frontmatter\n").is_none());
    let out = solicit_stale_lessons(&SolicitorConfig::default(), NOW, &vec![None]);
    assert_eq!(out.scanned_count, 1);
    assert_eq!(out.skipped_count, 1);
    assert!(out.stale_candidates.is_empty());
}

#[test]
fn well_formed_lesson_file_opens() {
    let split = open_lesson_file(b"---\nid: les-a\n---\nbody\n").unwrap();
    assert_eq!(split.yaml, "id: les-a");
    assert!(open_lesson_file(&[0xff, 0xfe]).is_none());
}

#[test]
fn a_creation_time_that_does_not_parse_is_skipped() {
    let out = solicit_stale_lessons(
        &SolicitorConfig::default(),
        NOW,
        &vec![lesson("les-odd", "yesterday", 0)],
    );
    assert_eq!(out.scanned_count, 1);
    assert_eq!(out.skipped_count, 1);
}

#[test]
fn a_week_is_the_least_age() {
    let out = solicit_stale_lessons(
        &SolicitorConfig::default(),
        NOW,
        &vec![
            lesson("les-six", &days_ago(6), 0),
            lesson("les-seven", &days_ago(7), 0),
        ],
    );
    assert_eq!(out.stale_candidates.len(), 1);
    assert_eq!(out.stale_candidates[0].lesson_id, "les-seven");
    assert_eq!(out.stale_candidates[0].age_days, 7);
    assert_eq!(out.stale_candidates[0].created_at.secs, NOW.secs - 7 * DAY);
}

#[test]
fn a_full_list_takes_no_more() {
    let mut config = SolicitorConfig::default();
    config.max_candidates_per_call = 1;
    let mut out = SolicitorOutput::default();
    assert!(!is_full(&config, &out));
    consider(&config, NOW, &mut out, &lesson("les-a", &days_ago(9), 0));
    assert!(is_full(&config, &out));
}

#[test]
fn only_markdown_files_are_lessons() {
    let ctx = Context::single_user_local();
    assert!(is_lesson_key(&StorageKey::lesson(&ctx, "active", "les-a")));
    assert!(!is_lesson_key(&StorageKey::from_raw("lessons/active/x.txt".to_string())));
}

#[test]
fn ages_count_whole_days() {
    let at = |secs, nanos| Moment { secs, nanos };
    assert_eq!(age_in_days(at(DAY, 0), at(0, 0)), 1);
    assert_eq!(age_in_days(at(DAY, 0), at(0, 1)), 0);
    assert_eq!(age_in_days(at(0, 0), at(DAY, 0)), 0);
}

#[test]
fn clock_texts_are_read_and_written() {
    let m = parse_utc("2026-05-13T00:00:00.250Z").unwrap();
    assert_eq!(m.secs, 1_778_630_400);
    assert_eq!(m.nanos, 250_000_000);
    assert_eq!(
        parse_utc("2026-05-13T02:00:00.250+02:00").unwrap().secs,
        m.secs
    );
    assert!(parse_utc("not a time").is_none());
    assert_eq!(
        to_rfc3339(m).unwrap(),
        "2026-05-13T00:00:00.250+00:00"
    );
}
