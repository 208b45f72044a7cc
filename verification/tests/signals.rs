//! Signals and what is recorded of them.

use loop_engine::engine::clock::Moment;
use loop_engine::engine::context::Context;
use loop_engine::engine::sentiment::signals::{
    aggregation_failed, note_source, plan_record, render_signal_yaml, MockSignalWriter,
    OrchestratorOutput, SentimentSignal, SignalPolarity, SignalWriteError, SignalWriter,
};
use loop_engine::engine::sentiment::types::{
    AttributionMethod, CalibratedConfidence, Hazard, LoadedItemId, Polarity,
};
use loop_engine::engine::storage::key::StorageKey;
use loop_engine::engine::storage::memory::MemoryStorage;

fn fake_signal(id: &str) -> SentimentSignal {
    SentimentSignal {
        item_id: LoadedItemId::new(id.to_string()),
        polarity: Polarity::Positive,
        calibrated_confidence: CalibratedConfidence::new(0.9f32.to_bits()),
        attribution_method: AttributionMethod::DirectMention,
        detected_hazards: vec![Hazard::LowConfidence],
        source_event_uuid: "evt-1".into(),
        timestamp: Moment {
            secs: 1_778_630_400,
            nanos: 0,
        },
    }
}

#[test]
fn mock_writer_captures_signals_in_order() {
    let mut w = MockSignalWriter::default();
    let ctx = Context::single_user_local();
    w.record(&ctx, &fake_signal("les-a")).unwrap();
    w.record(&ctx, &fake_signal("les-b")).unwrap();
    let captured = w.captured();
    assert_eq!(captured.len(), 2);
    assert_eq!(captured[0].item_id.as_str(), "les-a");
    assert_eq!(captured[1].item_id.as_str(), "les-b");
}

#[test]
fn mock_writer_returns_one_shot_error_then_resumes() {
    let mut w = MockSignalWriter::default()
        .with_record_error(SignalWriteError::backend("boom".to_string()));
    let ctx = Context::single_user_local();

    let err_result = w.record(&ctx, &fake_signal("les-a"));
    assert!(matches!(err_result, Err(SignalWriteError::Backend(_))));
    w.record(&ctx, &fake_signal("les-b")).unwrap();
    assert_eq!(w.captured().len(), 1);
    assert_eq!(w.captured()[0].item_id.as_str(), "les-b");
}

#[test]
fn output_empty_helpers() {
    let empty = OrchestratorOutput::empty();
    assert!(empty.is_empty());
    let with_signals = OrchestratorOutput {
        signals: vec![fake_signal("a")],
        abstentions: vec![],
    };
    assert!(!with_signals.is_empty());
}

#[test]
fn storage_backed_writer_persists_signal_to_storage() {
    let mut storage = MemoryStorage::default();
    let ctx = Context::single_user_local();
    let signal = fake_signal("les-quokka-special");
    let record = plan_record(&ctx, &signal, "0.9").unwrap();
    assert!(storage.put_if_version(&record.key, record.body.into_bytes(), None));

    let key = StorageKey::sentiment_signal(&ctx, &ctx.session_id, &signal.source_event_uuid);
    let stored = storage.get(&key).unwrap();
    let body = std::str::from_utf8(&stored).unwrap();
    assert!(body.contains("item_id: les-quokka-special"));
    assert!(body.contains("polarity: positive"));
    assert!(body.contains("attribution_method: direct_mention"));
    assert!(body.contains("detected_hazards: [low_confidence]"));
    assert!(body.contains("source_event_uuid: evt-1"));

    let mut sources = vec![];
    note_source(&mut sources, record.lesson.unwrap());
    assert_eq!(sources, vec!["sentiment_positive".to_string()]);
}

#[test]
fn storage_backed_writer_aggregates_negative_polarity() {
    let ctx = Context::single_user_local();
    let mut signal = fake_signal("les-neg-agg");
    signal.polarity = Polarity::Negative;
    let record = plan_record(&ctx, &signal, "0.9").unwrap();
    let mut sources = vec![];
    note_source(&mut sources, record.lesson.unwrap());
    assert_eq!(sources, vec!["sentiment_negative".to_string()]);
}

#[test]
fn storage_backed_writer_skips_aggregation_for_neutral_polarity() {
    let ctx = Context::single_user_local();
    let mut signal = fake_signal("les-neut-agg");
    signal.polarity = Polarity::Neutral;
    let record = plan_record(&ctx, &signal, "0.9").unwrap();
    assert!(record.lesson.is_none());
    let mut storage = MemoryStorage::default();
    assert!(storage.put_if_version(&record.key, record.body.into_bytes(), None));
    let key = StorageKey::sentiment_signal(&ctx, &ctx.session_id, &signal.source_event_uuid);
    assert!(storage.get(&key).is_some());
}

#[test]
fn storage_backed_writer_bubbles_when_lesson_missing() {
    let mut storage = MemoryStorage::default();
    let ctx = Context::single_user_local();
    let signal = fake_signal("les-nofile99");
    let record = plan_record(&ctx, &signal, "0.9").unwrap();
    assert!(storage.put_if_version(&record.key, record.body.into_bytes(), None));
    assert!(record.lesson.is_some());
    let error = aggregation_failed(&signal, "lesson not found");
    let key = StorageKey::sentiment_signal(&ctx, &ctx.session_id, &signal.source_event_uuid);
    assert!(storage.get(&key).is_some());
    assert!(matches!(error, SignalWriteError::Backend(_)));
    let message = error.message();
    assert!(message.contains("les-nofile99"), "{message}");
    assert!(message.contains("lesson not found"), "{message}");
}

#[test]
fn storage_backed_writer_dedups_on_same_event_uuid() {
    let mut storage = MemoryStorage::default();
    let ctx = Context::single_user_local();
    let first = fake_signal("les-a");
    let second = fake_signal("les-b");
    let one = plan_record(&ctx, &first, "0.9").unwrap();
    let two = plan_record(&ctx, &second, "0.9").unwrap();
    assert!(storage.put_if_version(&one.key, one.body.into_bytes(), None));
    assert!(!storage.put_if_version(&two.key, two.body.into_bytes(), None));

    let key = StorageKey::sentiment_signal(&ctx, &ctx.session_id, &first.source_event_uuid);
    let stored = storage.get(&key).unwrap();
    let body = std::str::from_utf8(&stored).unwrap();
    assert!(body.contains("item_id: les-a"));
}

#[test]
fn signals_without_a_key_or_a_time_are_not_recorded() {
    let ctx = Context::single_user_local();
    let mut astray = fake_signal("les-a");
    astray.source_event_uuid = "../evt".into();
    let error = plan_record(&ctx, &astray, "0.9").unwrap_err();
    assert_eq!(
        error.message(),
        "signal write backend error: no key for the signal of event ../evt"
    );
    let mut timeless = fake_signal("les-a");
    timeless.timestamp.secs = i64::MAX;
    let error = plan_record(&ctx, &timeless, "0.9").unwrap_err();
    assert!(error.message().contains("out of range"));
}

#[test]
fn noting_a_source_twice_changes_nothing() {
    let mut sources = vec!["manual".to_string()];
    note_source(&mut sources, SignalPolarity::Positive);
    note_source(&mut sources, SignalPolarity::Positive);
    assert_eq!(sources, vec!["manual", "sentiment_positive"]);
    note_source(&mut sources, SignalPolarity::Negative);
    assert_eq!(sources.len(), 3);
}

#[test]
fn records_show_every_field() {
    let yaml = render_signal_yaml(&fake_signal("les-a"), "0.9", "2026-05-13T00:00:00+00:00");
    for part in [
        "item_id: les-a\n",
        "polarity: positive\n",
        "calibrated_confidence: 0.9\n",
        "attribution_method: direct_mention\n",
        "detected_hazards: [low_confidence]\n",
        "source_event_uuid: evt-1\n",
        "2026-05-13T00:00:00+00:00",
    ] {
        assert!(yaml.contains(part), "{yaml}");
    }
}
