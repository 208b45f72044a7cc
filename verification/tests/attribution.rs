//! Which loaded item an utterance speaks of.

use loop_engine::engine::sentiment::attribution::{
    attribute_signal, attribute_signal_with_fallback, accept_judgement, is_named,
    recently_referenced_items, resolve_pronoun, single_recent, PASS4_MIN_CONFIDENCE,
};
use loop_engine::engine::sentiment::types::{
    AttributionConfidence, AttributionMethod, LoadedItem, LoadedItemId, LoadedItemKind, RecentTurn,
    TurnRole,
};

fn id(s: &str) -> LoadedItemId {
    LoadedItemId::new(s.to_string())
}

fn item(name: &str, label: &str, keywords: &[&str]) -> LoadedItem {
    LoadedItem {
        id: id(name),
        kind: LoadedItemKind::Lesson,
        label: label.into(),
        keywords: keywords.iter().map(|s| s.to_string()).collect(),
    }
}

fn turn(role: TurnRole, text: &str, refs: &[&str]) -> RecentTurn {
    RecentTurn {
        role,
        text: text.into(),
        referenced_items: refs.iter().map(|s| id(s)).collect(),
    }
}

fn bits(v: f32) -> u32 {
    v.to_bits()
}

#[test]
fn pass1_fires_on_id_mention() {
    let items = vec![item("les-abc123", "Atomic rename", &["atomic", "rename"])];
    let result = attribute_signal("thanks for les-abc123", &items, &vec![]).unwrap();
    assert_eq!(result.item_id.as_str(), "les-abc123");
    assert_eq!(result.method, AttributionMethod::DirectMention);
    assert_eq!(result.confidence.value(), bits(0.95));
}

#[test]
fn pass1_fires_on_keyword_mention() {
    let items = vec![item("les-abc123", "Atomic rename", &["atomic", "rename"])];
    let result = attribute_signal("the atomic rename was wrong", &items, &vec![]).unwrap();
    assert_eq!(result.item_id.as_str(), "les-abc123");
    assert_eq!(result.method, AttributionMethod::DirectMention);
}

#[test]
fn pass1_ignores_unrelated_text() {
    let items = vec![item("les-abc123", "Atomic rename", &["atomic", "rename"])];
    let result = attribute_signal("hello", &items, &vec![]);
    assert!(result.is_none());
}

#[test]
fn pass2_fires_on_pronoun_with_single_referenced_in_prior_assistant_turn() {
    let items = vec![item("les-a", "X", &[])];
    let recents = vec![turn(TurnRole::Assistant, "I applied X", &["les-a"])];
    let result = attribute_signal("that worked", &items, &recents).unwrap();
    assert_eq!(result.item_id.as_str(), "les-a");
    assert_eq!(result.method, AttributionMethod::PronounResolved);
    assert_eq!(result.confidence.value(), bits(0.80));
}

#[test]
fn pass2_abstains_when_no_prior_assistant_turn() {
    let items = vec![item("les-a", "X", &[])];
    let recents = vec![turn(TurnRole::User, "hi", &[])];
    let result = attribute_signal("that worked", &items, &recents);
    assert!(result.is_none());
}

#[test]
fn pass2_abstains_when_prior_assistant_referenced_multiple_items() {
    let items = vec![item("les-a", "X", &[])];
    let recents = vec![turn(
        TurnRole::Assistant,
        "I applied X and Y",
        &["les-a", "les-b"],
    )];
    let result = attribute_signal("that worked", &items, &recents);
    assert!(result.is_none());
}

#[test]
fn pass3_fires_when_only_one_item_in_recent_turns() {
    let items = vec![item("les-x", "X", &[])];
    let recents = vec![
        turn(TurnRole::User, "first", &["les-x"]),
        turn(TurnRole::Assistant, "ack", &["les-x"]),
    ];
    let result = attribute_signal("works", &items, &recents).unwrap();
    assert_eq!(result.item_id.as_str(), "les-x");
    assert_eq!(result.method, AttributionMethod::Recency);
    assert_eq!(result.confidence.value(), bits(0.65));
}

#[test]
fn pass4_with_fallback_fires_when_2_to_5_candidates_and_judge_confident() {
    let items = vec![
        item("les-a", "A", &[]),
        item("les-b", "B", &[]),
        item("les-c", "C", &[]),
    ];
    let recents = vec![turn(
        TurnRole::Assistant,
        "ack",
        &["les-a", "les-b", "les-c"],
    )];
    let result = attribute_signal_with_fallback("hmm", &items, &recents, |candidates| {
        let pick = &candidates[0];
        Some((pick.id.clone(), AttributionConfidence::new(bits(0.9))))
    })
    .unwrap();
    assert_eq!(result.item_id.as_str(), "les-a");
    assert_eq!(result.method, AttributionMethod::Salience);
    assert_eq!(result.confidence.value(), bits(0.9));
}

#[test]
fn pass4_abstains_when_judge_below_threshold() {
    let items = vec![
        item("les-a", "A", &[]),
        item("les-b", "B", &[]),
        item("les-c", "C", &[]),
    ];
    let recents = vec![turn(
        TurnRole::Assistant,
        "ack",
        &["les-a", "les-b", "les-c"],
    )];
    let result = attribute_signal_with_fallback("hmm", &items, &recents, |candidates| {
        Some((
            candidates[0].id.clone(),
            AttributionConfidence::new(bits(0.5)),
        ))
    });
    assert!(result.is_none());
}

#[test]
fn pass4_skipped_when_only_one_candidate() {
    let items = vec![item("les-a", "A", &[])];
    let recents = vec![turn(TurnRole::Assistant, "ack", &["les-a"])];
    let result =
        attribute_signal_with_fallback("hmm", &items, &recents, |_| panic!("unreachable")).unwrap();
    assert_eq!(result.method, AttributionMethod::Recency);
}

#[test]
fn abstains_when_no_pass_fires() {
    let items = vec![item("les-a", "A", &["alpha"])];
    let recents: Vec<RecentTurn> = vec![];
    let result = attribute_signal("hello world", &items, &recents);
    assert!(result.is_none());
}

#[test]
fn direct_mention_wins_over_a_pronoun() {
    let items = vec![item("les-a", "A", &[]), item("les-b", "B", &["beta"])];
    let recents = vec![turn(TurnRole::Assistant, "ack", &["les-a"])];
    let result = attribute_signal("That BETA thing", &items, &recents).unwrap();
    assert_eq!(result.item_id.as_str(), "les-b");
    assert_eq!(result.method, AttributionMethod::DirectMention);
}

#[test]
fn the_first_named_item_wins() {
    let items = vec![item("les-a", "A", &["one"]), item("les-b", "B", &["one"])];
    let result = attribute_signal("one", &items, &vec![]).unwrap();
    assert_eq!(result.item_id.as_str(), "les-a");
}

#[test]
fn mentions_ignore_case() {
    let items = vec![item("les-a", "A", &["Łódź"])];
    let result = attribute_signal("ŁÓDŹ is great", &items, &vec![]).unwrap();
    assert_eq!(result.item_id.as_str(), "les-a");
    assert!(is_named("see les-a", "les-a", &vec![]));
    assert!(!is_named("see les-a", "les-b", &vec!["beta".to_string()]));
    let empty = vec![item("les-b", "B", &[""])];
    assert!(attribute_signal("see les-a", &empty, &vec![]).is_none());
}

#[test]
fn pronouns_are_stripped_of_punctuation() {
    let recents = vec![turn(TurnRole::Assistant, "ack", &["les-a", "les-b"])];
    assert!(resolve_pronoun("that", &recents).is_none());
    let one = vec![
        turn(TurnRole::Assistant, "ack", &["les-b"]),
        turn(TurnRole::User, "x", &[]),
    ];
    assert_eq!(resolve_pronoun("that", &one).unwrap().as_str(), "les-b");
    assert!(resolve_pronoun("atomic", &one).is_none());
    let items = vec![item("les-b", "B", &[])];
    let result = attribute_signal("  \"It\" worked", &items, &one).unwrap();
    assert_eq!(result.method, AttributionMethod::PronounResolved);
}

#[test]
fn a_single_recent_item_may_be_referenced_often() {
    let twice = vec![
        turn(TurnRole::User, "a", &["les-x"]),
        turn(TurnRole::User, "b", &["les-x"]),
    ];
    assert_eq!(single_recent(&twice).unwrap().as_str(), "les-x");
    let two = vec![turn(TurnRole::User, "a", &["les-x", "les-y"])];
    assert!(single_recent(&two).is_none());
    assert!(single_recent(&vec![]).is_none());
}

#[test]
fn candidates_are_the_loaded_items_that_were_referenced() {
    let items = vec![
        item("les-a", "A", &[]),
        item("les-b", "B", &[]),
        item("les-c", "C", &[]),
    ];
    let recents = vec![turn(TurnRole::User, "a", &["les-c", "les-z", "les-a"])];
    let found = recently_referenced_items(&items, &recents);
    let names: Vec<&str> = found.iter().map(|i| i.id.as_str()).collect();
    assert_eq!(names, vec!["les-a", "les-c"]);
}

#[test]
fn judgements_at_the_threshold_are_accepted() {
    let at = AttributionConfidence::new(PASS4_MIN_CONFIDENCE);
    assert_eq!(PASS4_MIN_CONFIDENCE, bits(0.80));
    assert!(accept_judgement(Some((id("les-a"), at))).is_some());
    let below = AttributionConfidence::new(PASS4_MIN_CONFIDENCE - 1);
    assert!(accept_judgement(Some((id("les-a"), below))).is_none());
    assert!(accept_judgement(None).is_none());
}

#[test]
fn six_candidates_are_too_many() {
    let names = ["les-1", "les-2", "les-3", "les-4", "les-5", "les-6"];
    let items: Vec<LoadedItem> = names.iter().map(|n| item(n, "L", &[])).collect();
    let recents = vec![turn(TurnRole::Assistant, "ack", &names)];
    let result =
        attribute_signal_with_fallback("hmm", &items, &recents, |_| panic!("unreachable"));
    assert!(result.is_none());
}
