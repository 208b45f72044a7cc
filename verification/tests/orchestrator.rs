//! Events, answers and sessions.

use loop_engine::engine::clock::Moment;
use loop_engine::engine::context::Context;
use loop_engine::engine::events::EngineEvent;
use loop_engine::engine::sentiment::classifier::{
    ClassifierError, MockSentimentClassifier, SentimentClassifier,
};
use loop_engine::engine::sentiment::orchestrator::config::{
    HostVersionAction, HostVersionPolicy, OrchestratorConfig, VersionRange,
};
use loop_engine::engine::sentiment::orchestrator::state::{
    push_turn, time_between, SessionPhase, SessionState,
};
use loop_engine::engine::sentiment::orchestrator::{EventStep, Orchestrator};
use loop_engine::engine::sentiment::signals::{
    AbstainReason, MockSignalWriter, OrchestratorOutput, SignalWriter,
};
use loop_engine::engine::sentiment::types::{
    ClassifierConfidence, Hazard, ItemClassification, LoadedItem, LoadedItemId, LoadedItemKind,
    Polarity, RawClassification, RecentTurn, TurnRole,
};

const SECOND: u64 = 1_000_000_000;
const NOW: u64 = 1_000 * SECOND;
const STAMP: Moment = Moment {
    secs: 1_780_000_000,
    nanos: 0,
};

struct Rig {
    orch: Orchestrator,
    classifier: MockSentimentClassifier,
    writer: MockSignalWriter,
    ctx: Context,
}

fn rig_with(classifier: MockSentimentClassifier, config: OrchestratorConfig) -> Rig {
    Rig {
        orch: Orchestrator::new(config),
        classifier,
        writer: MockSignalWriter::default(),
        ctx: Context::single_user_local(),
    }
}

fn rig() -> Rig {
    rig_with(
        MockSentimentClassifier::default(),
        OrchestratorConfig::default(),
    )
}

impl Rig {
    fn process_event(&mut self, event: &EngineEvent) -> OrchestratorOutput {
        let session = self.ctx.session_id.clone();
        let out = match self.orch.process_event(&session, event, NOW, STAMP) {
            EventStep::Done(out) => out,
            EventStep::Classify(request) => {
                let answer = self.classifier.classify(&self.ctx, &request);
                let uuid = match event {
                    EngineEvent::UserTurn { event_uuid, .. } => event_uuid.as_str(),
                    _ => "",
                };
                self.orch
                    .take_answer(&session, &request, answer, uuid, NOW, STAMP)
            }
        };
        for signal in &out.signals {
            self.writer.record(&self.ctx, signal).unwrap();
        }
        out
    }
}

fn id(s: &str) -> LoadedItemId {
    LoadedItemId::new(s.to_string())
}

fn item(name: &str, keywords: &[&str]) -> LoadedItem {
    LoadedItem {
        id: id(name),
        kind: LoadedItemKind::Lesson,
        label: name.into(),
        keywords: keywords.iter().map(|s| s.to_string()).collect(),
    }
}

fn positive_classification(name: &str, conf: f32) -> RawClassification {
    RawClassification {
        per_item: vec![ItemClassification {
            item_id: id(name),
            polarity: Polarity::Positive,
            confidence: ClassifierConfidence::new(conf.to_bits()),
            evidence: None,
            hazards: vec![],
        }],
        global_hazards: vec![],
    }
}

fn user_turn_event(session_id: &str, uuid: &str, text: &str) -> EngineEvent {
    EngineEvent::UserTurn {
        session_id: session_id.to_string(),
        event_uuid: uuid.into(),
        parent_event_uuid: None,
        text: text.into(),
        timestamp: STAMP,
        cwd: None,
        host_version: None,
        project_tag: None,
    }
}

fn user_turn_event_with_host_version(session_id: &str, version: &str) -> EngineEvent {
    EngineEvent::UserTurn {
        session_id: session_id.to_string(),
        event_uuid: "evt-tripwire".into(),
        parent_event_uuid: None,
        text: "thanks".into(),
        timestamp: STAMP,
        cwd: None,
        host_version: Some(version.to_string()),
        project_tag: None,
    }
}

fn interrupt_event(session_id: &str) -> EngineEvent {
    EngineEvent::UserInterrupt {
        session_id: session_id.to_string(),
        event_uuid: "i1".into(),
        parent_event_uuid: None,
        timestamp: STAMP,
    }
}

fn version_config(action: HostVersionAction) -> OrchestratorConfig {
    let mut config = OrchestratorConfig::default();
    config.host_version_policy = HostVersionPolicy {
        tested_range: Some(VersionRange {
            first: "2.0.0".to_string(),
            last: "2.1.999".to_string(),
        }),
        action,
    };
    config
}

fn mentions_untested(out: &OrchestratorOutput) -> bool {
    out.abstentions
        .iter()
        .any(|(_, r)| matches!(r, AbstainReason::UntestedHostVersion))
}

#[test]
fn emits_signal_when_manifest_classifier_and_attribution_all_agree() {
    let mut rig = rig_with(
        MockSentimentClassifier::default()
            .with_response(positive_classification("les-quokka-special", 0.92)),
        OrchestratorConfig::default(),
    );
    let session = rig.ctx.session_id.clone();
    rig.orch.update_manifest(
        &session,
        vec![item("les-quokka-special", &["quokka-special"])],
    );

    let out = rig.process_event(&user_turn_event(
        &session,
        "evt-1",
        "thanks for quokka-special",
    ));

    assert_eq!(out.signals.len(), 1, "expected one signal emitted");
    assert_eq!(out.signals[0].item_id.as_str(), "les-quokka-special");
    assert_eq!(out.signals[0].polarity, Polarity::Positive);
    assert!(f32::from_bits(out.signals[0].calibrated_confidence.value()) >= 0.75);
    assert_eq!(rig.classifier.call_count(), 1);

    let captured = rig.writer.captured();
    assert_eq!(captured.len(), 1);
    assert_eq!(captured[0].item_id.as_str(), "les-quokka-special");
}

#[test]
fn emits_correction_window_negative_after_assistant_then_interrupt() {
    let mut rig = rig();
    let session = rig.ctx.session_id.clone();
    rig.orch.push_assistant_turn(
        &session,
        "I applied the les-zebra-unique fix".into(),
        vec![id("les-zebra-unique")],
        NOW,
    );
    let out = rig.process_event(&interrupt_event(&session));
    assert_eq!(out.signals.len(), 1, "expected one negative signal");
    assert_eq!(out.signals[0].polarity, Polarity::Negative);
    assert_eq!(out.signals[0].item_id.as_str(), "les-zebra-unique");
    assert_eq!(rig.writer.captured().len(), 1);
}

#[test]
fn auto_abstain_hazard_suppresses_signal_even_at_high_confidence() {
    let mut classification = positive_classification("les-quokka-special", 0.99);
    classification.per_item[0].hazards = vec![Hazard::Sarcasm];
    let mut rig = rig_with(
        MockSentimentClassifier::default().with_response(classification),
        OrchestratorConfig::default(),
    );
    let session = rig.ctx.session_id.clone();
    rig.orch.update_manifest(
        &session,
        vec![item("les-quokka-special", &["quokka-special"])],
    );
    let out = rig.process_event(&user_turn_event(
        &session,
        "evt-1",
        "thanks for quokka-special",
    ));
    assert!(out.signals.is_empty());
    assert!(rig.writer.captured().is_empty());
    assert!(matches!(
        out.abstentions[0].1,
        AbstainReason::HazardSet(Hazard::Sarcasm)
    ));
}

#[test]
fn session_ended_drops_state() {
    let mut rig = rig();
    let session = rig.ctx.session_id.clone();
    rig.process_event(&user_turn_event(&session, "e1", "hello"));
    assert_eq!(rig.orch.session_count(), 1);
    let end = EngineEvent::SessionEnded {
        session_id: session.clone(),
    };
    rig.process_event(&end);
    assert_eq!(rig.orch.session_count(), 0);
}

#[test]
fn orchestrator_session_ended_drops_state() {
    let mut rig = rig();
    let session = rig.ctx.session_id.clone();
    let turn = user_turn_event(&session, "e1", "hello");
    rig.process_event(&turn);
    assert_eq!(rig.orch.session_count(), 1);

    let end = EngineEvent::SessionEnded {
        session_id: session.clone(),
    };
    rig.process_event(&end);
    assert_eq!(rig.orch.session_count(), 0);
}

#[test]
fn abstains_when_classifier_returns_abstain() {
    let mut rig = rig();
    let session = rig.ctx.session_id.clone();
    let out = rig.process_event(&user_turn_event(&session, "e1", "thanks"));
    assert!(out.signals.is_empty());
    assert!(matches!(
        out.abstentions[0].1,
        AbstainReason::ClassifierAbstained
    ));
    assert!(rig.writer.captured().is_empty());
}

#[test]
fn orchestrator_abstains_when_classifier_returns_abstain() {
    let mut rig = rig();
    let session = rig.ctx.session_id.clone();
    let out = rig.process_event(&user_turn_event(&session, "e1", "thanks"));
    assert!(out.signals.is_empty());
    assert_eq!(out.abstentions.len(), 1);
    assert!(matches!(
        out.abstentions[0].1,
        AbstainReason::ClassifierAbstained
    ));
    assert!(rig.writer.captured().is_empty());
}

#[test]
fn user_interrupt_no_proximal_assistant_abstains() {
    let mut rig = rig();
    let session = rig.ctx.session_id.clone();
    let out = rig.process_event(&interrupt_event(&session));
    assert!(out.signals.is_empty());
    assert!(matches!(
        out.abstentions[0].1,
        AbstainReason::NoProximalReference
    ));
}

#[test]
fn orchestrator_user_interrupt_no_proximal_assistant_abstains() {
    let mut rig = rig();
    let session = rig.ctx.session_id.clone();
    let out = rig.process_event(&interrupt_event(&session));
    assert!(out.signals.is_empty());
    assert!(matches!(
        out.abstentions[0].1,
        AbstainReason::NoProximalReference
    ));
}

#[test]
fn tripwire_off_by_default_no_abstain() {
    let mut rig = rig();
    let session = rig.ctx.session_id.clone();
    let out = rig.process_event(&user_turn_event_with_host_version(&session, "0.0.0"));
    assert!(!mentions_untested(&out));
}

#[test]
fn tripwire_warn_action_does_not_abstain() {
    let mut rig = rig_with(
        MockSentimentClassifier::default(),
        version_config(HostVersionAction::Warn),
    );
    let session = rig.ctx.session_id.clone();
    let out = rig.process_event(&user_turn_event_with_host_version(&session, "1.0.0"));
    assert!(
        !mentions_untested(&out),
        "warn-action should NOT abstain"
    );
}

#[test]
fn tripwire_abstain_action_skips_turn_for_out_of_range_version() {
    let mut rig = rig_with(
        MockSentimentClassifier::default(),
        version_config(HostVersionAction::Abstain),
    );
    let session = rig.ctx.session_id.clone();
    let out = rig.process_event(&user_turn_event_with_host_version(&session, "9.9.9"));
    assert!(out.signals.is_empty());
    assert_eq!(out.abstentions.len(), 1);
    assert!(matches!(
        out.abstentions[0].1,
        AbstainReason::UntestedHostVersion
    ));
    assert_eq!(rig.orch.session_count(), 0);
}

#[test]
fn tripwire_abstain_action_passes_through_in_range_version() {
    let mut rig = rig_with(
        MockSentimentClassifier::default(),
        version_config(HostVersionAction::Abstain),
    );
    let session = rig.ctx.session_id.clone();
    let out = rig.process_event(&user_turn_event_with_host_version(&session, "2.1.139"));
    assert!(!mentions_untested(&out));
}

#[test]
fn end_to_end_positive_signal_flows_classifier_through_writer() {
    let canned = positive_classification("les-quokka-special", 0.92);
    let mut rig = rig_with(
        MockSentimentClassifier::default().with_response(canned),
        OrchestratorConfig::default(),
    );
    let session = rig.ctx.session_id.clone();
    rig.orch.update_manifest(
        &session,
        vec![LoadedItem {
            id: id("les-quokka-special"),
            kind: LoadedItemKind::Lesson,
            label: "Quokka special".into(),
            keywords: vec!["quokka-special".into()],
        }],
    );
    let out = rig.process_event(&user_turn_event(
        &session,
        "evt-e2e-1",
        "thanks for quokka-special",
    ));
    assert_eq!(out.signals.len(), 1, "expected one signal emitted");
    assert_eq!(out.signals[0].item_id.as_str(), "les-quokka-special");
    assert_eq!(out.signals[0].polarity, Polarity::Positive);
    assert_eq!(rig.classifier.call_count(), 1);
    let captured = rig.writer.captured();
    assert_eq!(captured.len(), 1);
    assert_eq!(captured[0].item_id.as_str(), "les-quokka-special");
}

#[test]
fn a_signal_starts_the_cooldown() {
    let hit = || positive_classification("les-quokka", 0.92);
    let mut rig = rig_with(
        MockSentimentClassifier::default()
            .with_response(hit())
            .with_response(hit()),
        OrchestratorConfig::default(),
    );
    let session = rig.ctx.session_id.clone();
    rig.orch
        .update_manifest(&session, vec![item("les-quokka", &["quokka"])]);
    let first = rig.process_event(&user_turn_event(&session, "e1", "thanks quokka"));
    assert_eq!(first.signals.len(), 1);
    let second = rig.process_event(&user_turn_event(&session, "e2", "thanks quokka"));
    assert!(second.signals.is_empty());
    assert_eq!(second.abstentions[0].1, AbstainReason::RateLimited);
}

#[test]
fn sessions_do_not_touch_each_other() {
    let mut orch = Orchestrator::new(OrchestratorConfig::default());
    orch.update_manifest("s1", vec![item("les-a", &["alpha"])]);
    orch.update_manifest("s2", vec![item("les-b", &["beta"])]);
    assert_eq!(orch.session_count(), 2);
    let step = orch.process_event("s1", &user_turn_event("s1", "e1", "hi"), NOW, STAMP);
    match step {
        EventStep::Classify(request) => {
            assert_eq!(request.utterance, "hi");
            assert_eq!(request.loaded_items.len(), 1);
            assert_eq!(request.loaded_items[0].id.as_str(), "les-a");
            assert_eq!(request.recent_turns.len(), 1);
        }
        EventStep::Done(_) => panic!("the classifier was not asked"),
    }
    let step = orch.process_event("s2", &user_turn_event("s2", "e2", "ho"), NOW, STAMP);
    match step {
        EventStep::Classify(request) => {
            assert_eq!(request.loaded_items[0].id.as_str(), "les-b");
            assert_eq!(request.recent_turns.len(), 1);
        }
        EventStep::Done(_) => panic!("the classifier was not asked"),
    }
}

#[test]
fn an_answer_for_an_ended_session_is_dropped() {
    let mut orch = Orchestrator::new(OrchestratorConfig::default());
    let request = match orch.process_event("s", &user_turn_event("s", "e1", "hi"), NOW, STAMP) {
        EventStep::Classify(request) => request,
        EventStep::Done(_) => panic!("the classifier was not asked"),
    };
    let end = EngineEvent::SessionEnded {
        session_id: "s".into(),
    };
    match orch.process_event("s", &end, NOW, STAMP) {
        EventStep::Done(out) => assert!(out.is_empty()),
        EventStep::Classify(_) => panic!("an ended session asks nothing"),
    }
    let raw = positive_classification("les-a", 0.99);
    let out = orch.take_answer("s", &request, Ok(raw), "e1", NOW, STAMP);
    assert!(out.signals.is_empty());
    assert_eq!(out.abstentions[0].1, AbstainReason::SessionRecycled);
    assert_eq!(orch.session_count(), 0);
}

#[test]
fn a_failing_classifier_is_an_abstention() {
    let mut rig = rig_with(
        MockSentimentClassifier::default().with_error(ClassifierError::Timeout { elapsed_ms: 1 }),
        OrchestratorConfig::default(),
    );
    let session = rig.ctx.session_id.clone();
    let out = rig.process_event(&user_turn_event(&session, "e1", "thanks"));
    assert_eq!(out.abstentions.len(), 1);
    assert_eq!(out.abstentions[0].1, AbstainReason::ClassifierAbstained);
    assert!(out.abstentions[0].0.is_none());
    assert_eq!(rig.orch.session_count(), 1);
}

#[test]
fn an_interrupt_after_the_window_says_nothing() {
    let mut orch = Orchestrator::new(OrchestratorConfig::default());
    orch.push_assistant_turn("s", "done".into(), vec![id("les-a")], NOW);
    let late = NOW + OrchestratorConfig::default().correction_window + 1;
    match orch.process_event("s", &interrupt_event("s"), late, STAMP) {
        EventStep::Done(out) => {
            assert!(out.signals.is_empty());
            assert_eq!(out.abstentions[0].1, AbstainReason::NoProximalReference);
        }
        EventStep::Classify(_) => panic!("an interrupt asks nothing"),
    }
}

#[test]
fn an_interrupt_signals_every_referenced_item_once() {
    let mut orch = Orchestrator::new(OrchestratorConfig::default());
    orch.push_assistant_turn("s", "done".into(), vec![id("les-a"), id("les-b")], NOW);
    let out = match orch.process_event("s", &interrupt_event("s"), NOW + 1, STAMP) {
        EventStep::Done(out) => out,
        EventStep::Classify(_) => panic!("an interrupt asks nothing"),
    };
    let names: Vec<&str> = out.signals.iter().map(|s| s.item_id.as_str()).collect();
    assert_eq!(names, vec!["les-a", "les-b"]);
    for s in &out.signals {
        assert_eq!(s.calibrated_confidence.value(), 0.90f32.to_bits());
    }
    let again = match orch.process_event("s", &interrupt_event("s"), NOW + 2, STAMP) {
        EventStep::Done(out) => out,
        EventStep::Classify(_) => panic!("an interrupt asks nothing"),
    };
    assert!(again.signals.is_empty());
}

#[test]
fn only_the_last_turns_are_kept() {
    let mut state = SessionState::default();
    assert_eq!(state.phase, SessionPhase::Idle);
    for n in 0..5u64 {
        let turn = RecentTurn {
            role: TurnRole::User,
            text: n.to_string(),
            referenced_items: vec![],
        };
        push_turn(&mut state, 3, turn, n);
    }
    let texts: Vec<&str> = state.recent_turns.iter().map(|t| t.text.as_str()).collect();
    assert_eq!(texts, vec!["2", "3", "4"]);
    assert_eq!(state.last_assistant_turn_at, None);
}

#[test]
fn a_started_session_is_not_tracked_yet() {
    let started = EngineEvent::SessionStarted {
        session_id: "s".into(),
        path: "/p".into(),
        started_at: STAMP,
    };
    let mut orch = Orchestrator::new(OrchestratorConfig::default());
    match orch.process_event("s", &started, NOW, STAMP) {
        EventStep::Done(out) => assert!(out.is_empty()),
        EventStep::Classify(_) => panic!("a start asks nothing"),
    }
    assert_eq!(orch.session_count(), 0);
}

#[test]
fn clocks_that_run_backwards_measure_nothing() {
    assert_eq!(time_between(10, 25), 15);
    assert_eq!(time_between(25, 10), 0);
}

#[test]
fn versions_compare_as_texts() {
    let policy = version_config(HostVersionAction::Abstain).host_version_policy;
    assert!(!policy.is_out_of_range("2.0.0"));
    assert!(!policy.is_out_of_range("2.1.999"));
    assert!(policy.is_out_of_range("2.2"));
    assert!(policy.is_out_of_range("1.9.9"));
    assert!(!HostVersionPolicy::off().is_out_of_range("0"));
}

#[test]
fn asking_whether_a_turn_counts_changes_nothing() {
    let mut orch = Orchestrator::new(OrchestratorConfig::default());
    assert!(orch.can_count_turn("s1"));
    assert_eq!(orch.session_count(), 0);
    orch.update_manifest("s1", vec![]);
    assert!(orch.can_count_turn("s1"));
    assert_eq!(orch.session_count(), 1);
}
