//! From a classification to signals.

use loop_engine::engine::clock::Moment;
use loop_engine::engine::sentiment::orchestrator::derive::{
    derive_signals, is_auto_abstain_hazard, NEGATIVE_MIN, POSITIVE_MIN,
};
use loop_engine::engine::sentiment::orchestrator::state::RateLimits;
use loop_engine::engine::sentiment::orchestrator::OrchestratorConfig;
use loop_engine::engine::sentiment::signals::AbstainReason;
use loop_engine::engine::sentiment::types::{
    AttributionMethod, ClassificationRequest, ClassifierConfidence, Hazard, ItemClassification,
    LoadedItem, LoadedItemId, LoadedItemKind, Polarity, RawClassification,
};

const SECOND: u64 = 1_000_000_000;
const NOW: u64 = 1_000 * SECOND;
const STAMP: Moment = Moment {
    secs: 1_780_000_000,
    nanos: 5,
};

fn id(s: &str) -> LoadedItemId {
    LoadedItemId::new(s.to_string())
}

fn item(name: &str) -> LoadedItem {
    LoadedItem {
        id: id(name),
        kind: LoadedItemKind::Lesson,
        label: name.into(),
        keywords: vec![],
    }
}

fn classification(name: &str, polarity: Polarity, conf: f32) -> ItemClassification {
    ItemClassification {
        item_id: id(name),
        polarity,
        confidence: ClassifierConfidence::new(conf.to_bits()),
        evidence: None,
        hazards: vec![],
    }
}

fn empty_request_with_text(text: &str, items: Vec<LoadedItem>) -> ClassificationRequest {
    ClassificationRequest {
        utterance: text.into(),
        loaded_items: items,
        recent_turns: vec![],
    }
}

#[test]
fn derive_skips_positive_below_threshold() {
    let raw = RawClassification {
        per_item: vec![classification("a", Polarity::Positive, 0.70)],
        global_hazards: vec![],
    };
    let req = empty_request_with_text("thanks", vec![item("a")]);
    let out = derive_signals(
        &raw,
        &req,
        &RateLimits::new(),
        &OrchestratorConfig::default(),
        NOW,
        "evt-1",
        STAMP,
    );
    assert!(out.signals.is_empty());
    assert!(matches!(
        out.abstentions[0].1,
        AbstainReason::BelowThreshold { .. }
    ));
}

#[test]
fn derive_skips_negative_below_threshold() {
    let raw = RawClassification {
        per_item: vec![classification("a", Polarity::Negative, 0.80)],
        global_hazards: vec![],
    };
    let req = empty_request_with_text("broken", vec![item("a")]);
    let out = derive_signals(
        &raw,
        &req,
        &RateLimits::new(),
        &OrchestratorConfig::default(),
        NOW,
        "evt-1",
        STAMP,
    );
    assert!(out.signals.is_empty());
}

#[test]
fn derive_skips_neutral_polarity() {
    let raw = RawClassification {
        per_item: vec![classification("a", Polarity::Neutral, 0.99)],
        global_hazards: vec![],
    };
    let req = empty_request_with_text("ok", vec![item("a")]);
    let out = derive_signals(
        &raw,
        &req,
        &RateLimits::new(),
        &OrchestratorConfig::default(),
        NOW,
        "evt-1",
        STAMP,
    );
    assert!(out.signals.is_empty());
    assert!(matches!(out.abstentions[0].1, AbstainReason::Neutral));
}

#[test]
fn derive_auto_abstains_on_sarcasm() {
    let mut c = classification("a", Polarity::Positive, 0.95);
    c.hazards = vec![Hazard::Sarcasm];
    let raw = RawClassification {
        per_item: vec![c],
        global_hazards: vec![],
    };
    let req = empty_request_with_text("great", vec![item("a")]);
    let out = derive_signals(
        &raw,
        &req,
        &RateLimits::new(),
        &OrchestratorConfig::default(),
        NOW,
        "evt-1",
        STAMP,
    );
    assert!(out.signals.is_empty());
    assert!(matches!(out.abstentions[0].1, AbstainReason::HazardSet(Hazard::Sarcasm)));
}

#[test]
fn derive_auto_abstains_on_self_directed() {
    let mut c = classification("a", Polarity::Negative, 0.90);
    c.hazards = vec![Hazard::SelfDirected];
    let raw = RawClassification {
        per_item: vec![c],
        global_hazards: vec![],
    };
    let req = empty_request_with_text("ugh i'm an idiot", vec![item("a")]);
    let out = derive_signals(
        &raw,
        &req,
        &RateLimits::new(),
        &OrchestratorConfig::default(),
        NOW,
        "evt-1",
        STAMP,
    );
    assert!(out.signals.is_empty());
    assert!(matches!(
        out.abstentions[0].1,
        AbstainReason::HazardSet(Hazard::SelfDirected)
    ));
}

#[test]
fn derive_does_not_auto_abstain_on_low_confidence_hazard() {
    let mut c = classification("a", Polarity::Positive, 0.90);
    c.hazards = vec![Hazard::LowConfidence];
    let raw = RawClassification {
        per_item: vec![c],
        global_hazards: vec![],
    };
    let mut it = item("a");
    it.keywords = vec!["thanks".into()];
    let req = empty_request_with_text("thanks", vec![it]);
    let out = derive_signals(
        &raw,
        &req,
        &RateLimits::new(),
        &OrchestratorConfig::default(),
        NOW,
        "evt-1",
        STAMP,
    );
    assert_eq!(out.signals.len(), 1);
    assert_eq!(out.signals[0].detected_hazards, vec![Hazard::LowConfidence]);
}

#[test]
fn derive_skips_when_attribution_does_not_match() {
    let raw = RawClassification {
        per_item: vec![classification("les-aardvark", Polarity::Positive, 0.90)],
        global_hazards: vec![],
    };
    let mut item_a = item("les-aardvark");
    item_a.keywords = vec!["zebra-special".into()];
    let mut item_b = item("les-beaver");
    item_b.keywords = vec!["quokka-special".into()];
    let req = empty_request_with_text("thanks for quokka-special", vec![item_a, item_b]);
    let out = derive_signals(
        &raw,
        &req,
        &RateLimits::new(),
        &OrchestratorConfig::default(),
        NOW,
        "evt-1",
        STAMP,
    );
    assert!(out.signals.is_empty());
    assert!(matches!(out.abstentions[0].1, AbstainReason::AttributionMismatch));
}

#[test]
fn derive_rate_limits_recent_signal() {
    let raw = RawClassification {
        per_item: vec![classification("a", Polarity::Positive, 0.90)],
        global_hazards: vec![],
    };
    let mut it = item("a");
    it.keywords = vec!["thanks".into()];
    let req = empty_request_with_text("thanks", vec![it]);
    let mut rate = RateLimits::new();
    let now = NOW;
    rate.insert(id("a"), now - 1 * SECOND);
    let out = derive_signals(
        &raw,
        &req,
        &rate,
        &OrchestratorConfig::default(),
        now,
        "evt-1",
        STAMP,
    );
    assert!(out.signals.is_empty());
    assert!(matches!(out.abstentions[0].1, AbstainReason::RateLimited));
}

#[test]
fn derive_allows_signal_after_cooldown_elapses() {
    let raw = RawClassification {
        per_item: vec![classification("a", Polarity::Positive, 0.90)],
        global_hazards: vec![],
    };
    let mut it = item("a");
    it.keywords = vec!["thanks".into()];
    let req = empty_request_with_text("thanks", vec![it]);
    let mut rate = RateLimits::new();
    let now = NOW;
    rate.insert(id("a"), now - 120 * SECOND);
    let out = derive_signals(
        &raw,
        &req,
        &rate,
        &OrchestratorConfig::default(),
        now,
        "evt-1",
        STAMP,
    );
    assert_eq!(out.signals.len(), 1);
}

#[test]
fn derive_returns_abstain_when_classifier_abstained() {
    let raw = RawClassification::abstain();
    let req = empty_request_with_text("", vec![]);
    let out = derive_signals(
        &raw,
        &req,
        &RateLimits::new(),
        &OrchestratorConfig::default(),
        NOW,
        "evt-1",
        STAMP,
    );
    assert!(out.signals.is_empty());
    assert!(matches!(out.abstentions[0].1, AbstainReason::ClassifierAbstained));
}

#[test]
fn skips_positive_below_threshold() {
    let raw = RawClassification {
        per_item: vec![classification("a", Polarity::Positive, 0.70)],
        global_hazards: vec![],
    };
    let req = empty_request_with_text("thanks", vec![item("a")]);
    let out = derive_signals(
        &raw,
        &req,
        &RateLimits::new(),
        &OrchestratorConfig::default(),
        NOW,
        "evt-1",
        STAMP,
    );
    assert!(out.signals.is_empty());
    assert!(matches!(
        out.abstentions[0].1,
        AbstainReason::BelowThreshold { .. }
    ));
}

#[test]
fn skips_neutral_polarity() {
    let raw = RawClassification {
        per_item: vec![classification("a", Polarity::Neutral, 0.99)],
        global_hazards: vec![],
    };
    let req = empty_request_with_text("ok", vec![item("a")]);
    let out = derive_signals(
        &raw,
        &req,
        &RateLimits::new(),
        &OrchestratorConfig::default(),
        NOW,
        "evt-1",
        STAMP,
    );
    assert!(out.signals.is_empty());
    assert!(matches!(out.abstentions[0].1, AbstainReason::Neutral));
}

#[test]
fn auto_abstains_on_sarcasm() {
    let mut c = classification("a", Polarity::Positive, 0.95);
    c.hazards = vec![Hazard::Sarcasm];
    let raw = RawClassification {
        per_item: vec![c],
        global_hazards: vec![],
    };
    let req = empty_request_with_text("great", vec![item("a")]);
    let out = derive_signals(
        &raw,
        &req,
        &RateLimits::new(),
        &OrchestratorConfig::default(),
        NOW,
        "evt-1",
        STAMP,
    );
    assert!(out.signals.is_empty());
    assert!(matches!(
        out.abstentions[0].1,
        AbstainReason::HazardSet(Hazard::Sarcasm)
    ));
}

#[test]
fn auto_abstains_on_self_directed() {
    let mut c = classification("a", Polarity::Negative, 0.90);
    c.hazards = vec![Hazard::SelfDirected];
    let raw = RawClassification {
        per_item: vec![c],
        global_hazards: vec![],
    };
    let req = empty_request_with_text("ugh i'm an idiot", vec![item("a")]);
    let out = derive_signals(
        &raw,
        &req,
        &RateLimits::new(),
        &OrchestratorConfig::default(),
        NOW,
        "evt-1",
        STAMP,
    );
    assert!(out.signals.is_empty());
    assert!(matches!(
        out.abstentions[0].1,
        AbstainReason::HazardSet(Hazard::SelfDirected)
    ));
}

#[test]
fn does_not_auto_abstain_on_low_confidence_hazard() {
    let mut c = classification("a", Polarity::Positive, 0.90);
    c.hazards = vec![Hazard::LowConfidence];
    let raw = RawClassification {
        per_item: vec![c],
        global_hazards: vec![],
    };
    let mut it = item("a");
    it.keywords = vec!["thanks".into()];
    let req = empty_request_with_text("thanks", vec![it]);
    let out = derive_signals(
        &raw,
        &req,
        &RateLimits::new(),
        &OrchestratorConfig::default(),
        NOW,
        "evt-1",
        STAMP,
    );
    assert_eq!(out.signals.len(), 1);
    assert_eq!(out.signals[0].detected_hazards, vec![Hazard::LowConfidence]);
}

#[test]
fn skips_when_attribution_does_not_match() {
    let raw = RawClassification {
        per_item: vec![classification("les-aardvark", Polarity::Positive, 0.90)],
        global_hazards: vec![],
    };
    let mut item_a = item("les-aardvark");
    item_a.keywords = vec!["zebra-special".into()];
    let mut item_b = item("les-beaver");
    item_b.keywords = vec!["quokka-special".into()];
    let req = empty_request_with_text("thanks for quokka-special", vec![item_a, item_b]);
    let out = derive_signals(
        &raw,
        &req,
        &RateLimits::new(),
        &OrchestratorConfig::default(),
        NOW,
        "evt-1",
        STAMP,
    );
    assert!(out.signals.is_empty());
    assert!(matches!(
        out.abstentions[0].1,
        AbstainReason::AttributionMismatch
    ));
}

#[test]
fn rate_limits_recent_signal() {
    let raw = RawClassification {
        per_item: vec![classification("a", Polarity::Positive, 0.90)],
        global_hazards: vec![],
    };
    let mut it = item("a");
    it.keywords = vec!["thanks".into()];
    let req = empty_request_with_text("thanks", vec![it]);
    let mut rate = RateLimits::new();
    let now = NOW;
    rate.insert(
        id("a"),
        now - 1 * SECOND,
    );
    let out = derive_signals(
        &raw,
        &req,
        &rate,
        &OrchestratorConfig::default(),
        now,
        "evt-1",
        STAMP,
    );
    assert!(out.signals.is_empty());
    assert!(matches!(out.abstentions[0].1, AbstainReason::RateLimited));
}

#[test]
fn allows_signal_after_cooldown_elapses() {
    let raw = RawClassification {
        per_item: vec![classification("a", Polarity::Positive, 0.90)],
        global_hazards: vec![],
    };
    let mut it = item("a");
    it.keywords = vec!["thanks".into()];
    let req = empty_request_with_text("thanks", vec![it]);
    let mut rate = RateLimits::new();
    let now = NOW;
    rate.insert(
        id("a"),
        now - 120 * SECOND,
    );
    let out = derive_signals(
        &raw,
        &req,
        &rate,
        &OrchestratorConfig::default(),
        now,
        "evt-1",
        STAMP,
    );
    assert_eq!(out.signals.len(), 1);
}

#[test]
fn returns_abstain_when_classifier_abstained() {
    let raw = RawClassification::abstain();
    let req = empty_request_with_text("", vec![]);
    let out = derive_signals(
        &raw,
        &req,
        &RateLimits::new(),
        &OrchestratorConfig::default(),
        NOW,
        "evt-1",
        STAMP,
    );
    assert!(out.signals.is_empty());
    assert!(matches!(
        out.abstentions[0].1,
        AbstainReason::ClassifierAbstained
    ));
}

#[test]
fn thresholds_are_inclusive() {
    assert_eq!(POSITIVE_MIN, 0.75f32.to_bits());
    assert_eq!(NEGATIVE_MIN, 0.85f32.to_bits());
    for (polarity, conf) in [(Polarity::Positive, 0.75), (Polarity::Negative, 0.85)] {
        let raw = RawClassification {
            per_item: vec![classification("a", polarity, conf)],
            global_hazards: vec![],
        };
        let mut it = item("a");
        it.keywords = vec!["word".into()];
        let req = empty_request_with_text("word", vec![it]);
        let out = derive_signals(
            &raw,
            &req,
            &RateLimits::new(),
            &OrchestratorConfig::default(),
            NOW,
            "evt-9",
            STAMP,
        );
        assert_eq!(out.signals.len(), 1);
        let signal = &out.signals[0];
        assert_eq!(signal.item_id.as_str(), "a");
        assert_eq!(signal.polarity, polarity);
        assert_eq!(signal.calibrated_confidence.value(), conf.to_bits());
        assert_eq!(signal.attribution_method, AttributionMethod::DirectMention);
        assert_eq!(signal.source_event_uuid, "evt-9");
        assert_eq!(signal.timestamp, STAMP);
        assert!(out.abstentions.is_empty());
    }
}

#[test]
fn below_threshold_reports_what_was_required() {
    let raw = RawClassification {
        per_item: vec![classification("a", Polarity::Negative, 0.80)],
        global_hazards: vec![],
    };
    let req = empty_request_with_text("broken", vec![item("a")]);
    let out = derive_signals(
        &raw,
        &req,
        &RateLimits::new(),
        &OrchestratorConfig::default(),
        NOW,
        "evt-1",
        STAMP,
    );
    let (who, why) = &out.abstentions[0];
    assert_eq!(who.as_ref().unwrap().as_str(), "a");
    assert_eq!(
        *why,
        AbstainReason::BelowThreshold {
            polarity: Polarity::Negative,
            observed: 0.80f32.to_bits(),
            required: NEGATIVE_MIN,
        }
    );
}

#[test]
fn unattributed_text_abstains() {
    let raw = RawClassification {
        per_item: vec![classification("les-a", Polarity::Positive, 0.99)],
        global_hazards: vec![],
    };
    let req = empty_request_with_text("hello", vec![item("les-a")]);
    let out = derive_signals(
        &raw,
        &req,
        &RateLimits::new(),
        &OrchestratorConfig::default(),
        NOW,
        "evt-1",
        STAMP,
    );
    assert_eq!(out.abstentions[0].1, AbstainReason::AttributionAbstained);
}

#[test]
fn global_hazards_rule_items_out_too() {
    let raw = RawClassification {
        per_item: vec![classification("a", Polarity::Positive, 0.99)],
        global_hazards: vec![Hazard::SelfDirected],
    };
    let mut it = item("a");
    it.keywords = vec!["thanks".into()];
    let req = empty_request_with_text("thanks", vec![it]);
    let out = derive_signals(
        &raw,
        &req,
        &RateLimits::new(),
        &OrchestratorConfig::default(),
        NOW,
        "evt-1",
        STAMP,
    );
    assert!(out.signals.is_empty());
}

#[test]
fn informational_hazards_do_not_rule_out() {
    assert!(is_auto_abstain_hazard(Hazard::Sarcasm));
    assert!(is_auto_abstain_hazard(Hazard::SelfDirected));
    assert!(!is_auto_abstain_hazard(Hazard::LowConfidence));
}

#[test]
fn the_cooldown_ends_on_time() {
    let cooldown = OrchestratorConfig::default().per_lesson_cooldown;
    assert_eq!(cooldown, 60 * SECOND);
    let mut rate = RateLimits::new();
    rate.insert(id("a"), NOW);
    assert!(rate.limits(&id("a"), cooldown, NOW + cooldown - 1));
    assert!(!rate.limits(&id("a"), cooldown, NOW + cooldown));
    assert!(!rate.limits(&id("b"), cooldown, NOW));
    assert_eq!(rate.get(&id("a")), Some(NOW));
    rate.insert(id("a"), NOW + 7);
    assert_eq!(rate.get(&id("a")), Some(NOW + 7));
}
