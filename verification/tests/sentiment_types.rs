//! Confidences, ids and the classifier's vocabulary.

use loop_engine::engine::context::Context;
use loop_engine::engine::sentiment::classifier::{
    ClassifierError, MockSentimentClassifier, SentimentClassifier,
};
use loop_engine::engine::sentiment::types::{
    AttributionConfidence, AttributionMethod, CalibratedConfidence, ClassificationRequest,
    ClassifierConfidence, Hazard, ItemClassification, LoadedItemId, Polarity, RawClassification,
};

fn bits(v: f32) -> u32 {
    v.to_bits()
}

fn empty_request() -> ClassificationRequest {
    ClassificationRequest {
        utterance: String::new(),
        loaded_items: vec![],
        recent_turns: vec![],
    }
}

#[test]
fn confidences_clamp_to_unit_interval() {
    assert_eq!(AttributionConfidence::new(bits(-0.5)).value(), bits(0.0));
    assert_eq!(AttributionConfidence::new(bits(0.5)).value(), bits(0.5));
    assert_eq!(AttributionConfidence::new(bits(1.5)).value(), bits(1.0));
    assert_eq!(ClassifierConfidence::new(bits(0.85)).value(), bits(0.85));
    assert_eq!(CalibratedConfidence::new(bits(2.0)).value(), bits(1.0));
}

#[test]
fn confidences_clamp_as_floats_do() {
    for v in [
        0.0f32,
        -0.0,
        1.0,
        f32::MIN_POSITIVE,
        -f32::MIN_POSITIVE,
        f32::INFINITY,
        f32::NEG_INFINITY,
        f32::EPSILON,
        0.999_999,
    ] {
        let expected = v.clamp(0.0, 1.0).to_bits();
        assert_eq!(ClassifierConfidence::new(v.to_bits()).value(), expected);
    }
}

#[test]
fn confidences_are_distinct_types() {
    let _ = AttributionConfidence::new(bits(0.5));
    let _ = ClassifierConfidence::new(bits(0.5));
    let _ = CalibratedConfidence::new(bits(0.5));
}

#[test]
fn loaded_item_id_round_trip() {
    let id = LoadedItemId::new("les-abc123".to_string());
    assert_eq!(id.as_str(), "les-abc123");
    let cloned = id.clone();
    assert_eq!(id, cloned);
}

#[test]
fn raw_classification_abstain_is_distinguishable() {
    let abstain = RawClassification::abstain();
    assert!(abstain.is_abstain());
    let non_abstain = RawClassification {
        per_item: vec![],
        global_hazards: vec![Hazard::Sarcasm],
    };
    assert!(!non_abstain.is_abstain());
}

#[test]
fn mock_returns_abstain_when_queue_empty() {
    let mut mock = MockSentimentClassifier::default();
    let ctx = Context::single_user_local();
    let result = mock.classify(&ctx, &empty_request()).unwrap();
    assert!(result.is_abstain());
    assert_eq!(mock.call_count(), 1);
}

#[test]
fn mock_returns_canned_responses_in_order() {
    let canned = RawClassification {
        per_item: vec![ItemClassification {
            item_id: LoadedItemId::new("les-a".to_string()),
            polarity: Polarity::Positive,
            confidence: ClassifierConfidence::new(bits(0.9)),
            evidence: Some("thanks".into()),
            hazards: vec![],
        }],
        global_hazards: vec![],
    };
    let mut mock = MockSentimentClassifier::default()
        .with_response(canned.clone())
        .with_response(RawClassification::abstain());

    let ctx = Context::single_user_local();
    let first = mock.classify(&ctx, &empty_request()).unwrap();
    let second = mock.classify(&ctx, &empty_request()).unwrap();
    let third = mock.classify(&ctx, &empty_request()).unwrap();

    assert_eq!(first, canned);
    assert!(second.is_abstain());
    assert!(third.is_abstain());
    assert_eq!(mock.call_count(), 3);
}

#[test]
fn mock_returns_canned_error() {
    let mut mock = MockSentimentClassifier::default().with_error(ClassifierError::RateLimited {
        retry_after_secs: 5,
    });
    let ctx = Context::single_user_local();
    let result = mock.classify(&ctx, &empty_request());
    assert!(matches!(
        result,
        Err(ClassifierError::RateLimited {
            retry_after_secs: 5
        })
    ));
}

#[test]
fn mock_name_is_stable() {
    let mock = MockSentimentClassifier::default();
    assert_eq!(mock.name(), "mock");
}

#[test]
fn classifier_trait_is_object_safe() {
    let mock: std::sync::Arc<dyn SentimentClassifier> =
        std::sync::Arc::new(MockSentimentClassifier::default());
    assert_eq!(mock.name(), "mock");
}

#[test]
fn hazard_variants_are_distinguishable() {
    let h1 = Hazard::Sarcasm;
    let h2 = Hazard::AmbiguousReferent;
    assert_ne!(h1, h2);
}

#[test]
fn polarity_display_is_snake_case() {
    assert_eq!(Polarity::Positive.as_str(), "positive");
    assert_eq!(Polarity::Negative.as_str(), "negative");
    assert_eq!(Polarity::Neutral.as_str(), "neutral");
}

#[test]
fn hazard_display_is_snake_case() {
    assert_eq!(Hazard::Sarcasm.as_str(), "sarcasm");
    assert_eq!(Hazard::AmbiguousReferent.as_str(), "ambiguous_referent");
    assert_eq!(Hazard::SelfDirected.as_str(), "self_directed");
    assert_eq!(Hazard::OutOfDistribution.as_str(), "out_of_distribution");
}

#[test]
fn attribution_method_display_is_snake_case() {
    assert_eq!(AttributionMethod::DirectMention.as_str(), "direct_mention");
    assert_eq!(
        AttributionMethod::PronounResolved.as_str(),
        "pronoun_resolved"
    );
    assert_eq!(AttributionMethod::Recency.as_str(), "recency");
    assert_eq!(AttributionMethod::Salience.as_str(), "salience");
}

#[test]
fn classifier_errors_have_messages() {
    assert_eq!(
        ClassifierError::transport("boom".to_string()).message(),
        "classifier transport error: boom"
    );
    assert_eq!(
        ClassifierError::InvalidOutput("bad json".to_string()).message(),
        "classifier returned unparseable output: bad json"
    );
    let limited = ClassifierError::RateLimited {
        retry_after_secs: 17,
    };
    assert_eq!(
        limited.message(),
        "classifier rate-limited; retry after 17s"
    );
    assert_eq!(
        ClassifierError::Timeout { elapsed_ms: 1234 }.message(),
        "classifier timeout after 1234ms"
    );
}
