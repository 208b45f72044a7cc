//! From a classification to signals: threshold, hazards, attribution and rate limit, in this
//! order.

use vstd::prelude::*;

use crate::engine::clock::Moment;
use super::config::OrchestratorConfig;
use super::state::{RateLimits, is_limited};
use crate::engine::sentiment::attribution::{
    Attribution, attribute_signal, attributed, first_mentioned, lemma_first_mentioned, opt_model,
};
use crate::engine::sentiment::signals::{
    AbstainReason, OrchestratorOutput, OutputModel, SentimentSignal, SignalModel, abstention_model,
    abstention_models, signal_models, silent,
};
use crate::engine::sentiment::types::{
    AttributionMethod, CalibratedConfidence, ClassificationRequest, Hazard, ItemClassification,
    ItemModel, LoadedItemId, Polarity, RawClassification, TurnModel, item_models, turn_models,
};
use crate::engine::single::{less, less_than, unit_clamped};
use crate::text::opt_text;

verus! {

/// Least confidence for a positive signal: 0.75.
pub const POSITIVE_MIN: u32 = 0x3f40_0000;

/// Least confidence for a negative signal: 0.85. Negatives carry more friction, so they need more
/// certainty.
pub const NEGATIVE_MIN: u32 = 0x3f59_999a;

// ---- Model -------------------------------------------------------------------

/// The hazards that rule a signal out.
pub open spec fn rules_out(h: Hazard) -> bool {
    h is Sarcasm || h is AmbiguousReferent || h is OutOfDistribution || h is SelfDirected
}

/// The first hazard that rules a signal out.
pub open spec fn ruling_hazard(hazards: Seq<Hazard>) -> Option<Hazard>
    decreases hazards.len(),
{
    if hazards.len() == 0 {
        None
    } else if rules_out(hazards[0]) {
        Some(hazards[0])
    } else {
        ruling_hazard(hazards.skip(1))
    }
}

/// The model of what a classifier says about one item.
#[verifier::ext_equal]
pub struct ClassModel {
    pub item_id: Seq<char>,
    pub polarity: Polarity,
    pub confidence: u32,
    pub evidence: Option<Seq<char>>,
    pub hazards: Seq<Hazard>,
}

impl View for ItemClassification {
    type V = ClassModel;

    open spec fn view(&self) -> ClassModel {
        ClassModel {
            item_id: self.item_id@,
            polarity: self.polarity,
            confidence: self.confidence.bits(),
            evidence: opt_text(self.evidence),
            hazards: self.hazards@,
        }
    }
}

/// The models of a list of classifications.
pub open spec fn class_models(v: Seq<ItemClassification>) -> Seq<ClassModel> {
    v.map_values(|c: ItemClassification| c@)
}

/// What a decision rests on besides the classification of the item.
#[verifier::ext_equal]
pub struct Setting {
    pub global_hazards: Seq<Hazard>,
    pub utterance: Seq<char>,
    pub items: Seq<ItemModel>,
    pub turns: Seq<TurnModel>,
    pub limits: Map<Seq<char>, u64>,
    pub cooldown: u64,
    pub now: u64,
    pub event_uuid: Seq<char>,
    pub timestamp: Moment,
}

/// The decision about one item.
pub enum Verdict {
    Silent(AbstainReason),
    Signal(AttributionMethod),
}

/// The least confidence that a polarity needs.
pub open spec fn required(polarity: Polarity) -> u32 {
    match polarity {
        Polarity::Positive => POSITIVE_MIN,
        _ => NEGATIVE_MIN,
    }
}

/// The decision about one item.
pub open spec fn verdict(c: ClassModel, s: Setting) -> Verdict {
    let found = attributed(
        match c.evidence {
            Some(e) => e,
            None => s.utterance,
        },
        s.items,
        s.turns,
    );
    if c.polarity is Neutral {
        Verdict::Silent(AbstainReason::Neutral)
    } else if less(c.confidence, required(c.polarity)) {
        Verdict::Silent(
            AbstainReason::BelowThreshold {
                polarity: c.polarity,
                observed: c.confidence,
                required: required(c.polarity),
            },
        )
    } else if let Some(h) = ruling_hazard(c.hazards + s.global_hazards) {
        Verdict::Silent(AbstainReason::HazardSet(h))
    } else if found is None {
        Verdict::Silent(AbstainReason::AttributionAbstained)
    } else if found->0.item_id != c.item_id {
        Verdict::Silent(AbstainReason::AttributionMismatch)
    } else if is_limited(s.limits, c.item_id, s.cooldown, s.now) {
        Verdict::Silent(AbstainReason::RateLimited)
    } else {
        Verdict::Signal(found->0.method)
    }
}

/// The signal about one item.
pub open spec fn signal_of(c: ClassModel, s: Setting, method: AttributionMethod) -> SignalModel {
    SignalModel {
        item_id: c.item_id,
        polarity: c.polarity,
        confidence: crate::engine::single::unit_clamped(c.confidence),
        method,
        hazards: c.hazards + s.global_hazards,
        event_uuid: s.event_uuid,
        timestamp: s.timestamp,
    }
}

/// Whether an item was dealt with before.
pub open spec fn seen(classes: Seq<ClassModel>, id: Seq<char>) -> bool {
    exists|j: int| 0 <= j < classes.len() && (#[trigger] classes[j]).item_id == id
}

/// What the classifications lead to. Only the first one about an item counts.
pub open spec fn decided(classes: Seq<ClassModel>, s: Setting) -> OutputModel
    decreases classes.len(),
{
    if classes.len() == 0 {
        OutputModel { signals: seq![], abstentions: seq![] }
    } else {
        let before = decided(classes.drop_last(), s);
        let c = classes.last();
        if seen(classes.drop_last(), c.item_id) {
            before
        } else {
            match verdict(c, s) {
                Verdict::Silent(reason) => OutputModel {
                    abstentions: before.abstentions.push((Some(c.item_id), reason)),
                    ..before
                },
                Verdict::Signal(method) => OutputModel {
                    signals: before.signals.push(signal_of(c, s, method)),
                    ..before
                },
            }
        }
    }
}

/// What a raw classification leads to.
pub open spec fn derived(raw: RawClassification, s: Setting) -> OutputModel {
    if raw.abstains() {
        silent(AbstainReason::ClassifierAbstained)
    } else {
        decided(class_models(raw.per_item@), s)
    }
}

/// The setting of a call of `derive_signals`.
pub open spec fn setting(
    raw: RawClassification,
    request: ClassificationRequest,
    limits: Map<Seq<char>, u64>,
    config: OrchestratorConfig,
    now: u64,
    event_uuid: Seq<char>,
    timestamp: Moment,
) -> Setting {
    Setting {
        global_hazards: raw.global_hazards@,
        utterance: request.utterance@,
        items: item_models(request.loaded_items@),
        turns: turn_models(request.recent_turns@),
        limits,
        cooldown: config.per_lesson_cooldown,
        now,
        event_uuid,
        timestamp,
    }
}

// ---- Executable --------------------------------------------------------------

/// Sarcasm, ambiguity, unfamiliar input and self-directed words rule a signal out.
pub fn is_auto_abstain_hazard(h: Hazard) -> (b: bool)
    ensures
        b == rules_out(h),
{
    match h {
        Hazard::Sarcasm => true,
        Hazard::AmbiguousReferent => true,
        Hazard::OutOfDistribution => true,
        Hazard::SelfDirected => true,
        _ => false,
    }
}

/// The hazards of the item, then the global ones.
fn join_hazards(own: &Vec<Hazard>, global: &Vec<Hazard>) -> (out: Vec<Hazard>)
    ensures
        out@ == own@ + global@,
{
    let mut out: Vec<Hazard> = Vec::new();
    let mut i: usize = 0;
    while i < own.len()
        invariant
            i <= own.len(),
            out@ == own@.take(i as int),
        decreases own.len() - i,
    {
        out.push(own[i]);
        proof {
            assert(own@.take(i + 1) =~= own@.take(i as int).push(own@[i as int]));
        }
        i += 1;
    }
    proof {
        assert(own@.take(own@.len() as int) =~= own@);
        assert(own@ + global@.take(0) =~= own@);
    }
    let mut j: usize = 0;
    while j < global.len()
        invariant
            j <= global.len(),
            out@ == own@ + global@.take(j as int),
        decreases global.len() - j,
    {
        out.push(global[j]);
        proof {
            assert(own@ + global@.take(j + 1) =~= (own@ + global@.take(j as int)).push(
                global@[j as int],
            ));
        }
        j += 1;
    }
    proof {
        assert(global@.take(global@.len() as int) =~= global@);
    }
    out
}

/// The first hazard that rules a signal out.
fn first_ruling(hazards: &Vec<Hazard>) -> (r: Option<Hazard>)
    ensures
        r == ruling_hazard(hazards@),
{
    let mut i: usize = 0;
    proof {
        assert(hazards@.skip(0) =~= hazards@);
    }
    while i < hazards.len()
        invariant
            i <= hazards.len(),
            ruling_hazard(hazards@) == ruling_hazard(hazards@.skip(i as int)),
        decreases hazards.len() - i,
    {
        proof {
            assert(hazards@.skip(i as int).skip(1) =~= hazards@.skip(i + 1));
        }
        if is_auto_abstain_hazard(hazards[i]) {
            return Some(hazards[i]);
        }
        i += 1;
    }
    None
}

/// What is decided about one item: a reason for silence, or how it was attributed and its
/// hazards.
enum Decision {
    Silent(AbstainReason),
    Signal(AttributionMethod, Vec<Hazard>),
}

fn decide(
    item: &ItemClassification,
    raw: &RawClassification,
    request: &ClassificationRequest,
    rate_limit: &RateLimits,
    config: &OrchestratorConfig,
    now: u64,
    Ghost(s): Ghost<Setting>,
) -> (d: Decision)
    requires
        s.global_hazards == raw.global_hazards@,
        s.utterance == request.utterance@,
        s.items == item_models(request.loaded_items@),
        s.turns == turn_models(request.recent_turns@),
        s.limits == rate_limit@,
        s.cooldown == config.per_lesson_cooldown,
        s.now == now,
    ensures
        match d {
            Decision::Silent(reason) => verdict(item@, s) == Verdict::Silent(reason),
            Decision::Signal(method, hazards) => {
                &&& verdict(item@, s) == Verdict::Signal(method)
                &&& hazards@ == item@.hazards + s.global_hazards
            },
        },
{
    let threshold: u32 = match item.polarity {
        Polarity::Positive => POSITIVE_MIN,
        Polarity::Negative => NEGATIVE_MIN,
        Polarity::Neutral => return Decision::Silent(AbstainReason::Neutral),
    };
    let observed: u32 = item.confidence.value();
    if less_than(observed, threshold) {
        return Decision::Silent(
            AbstainReason::BelowThreshold {
                polarity: item.polarity,
                observed,
                required: threshold,
            },
        );
    }
    let hazards = join_hazards(&item.hazards, &raw.global_hazards);
    if let Some(h) = first_ruling(&hazards) {
        return Decision::Silent(AbstainReason::HazardSet(h));
    }
    let utterance: &str = match &item.evidence {
        Some(e) => e.as_str(),
        None => request.utterance.as_str(),
    };
    let found = attribute_signal(utterance, &request.loaded_items, &request.recent_turns);
    match found {
        None => Decision::Silent(AbstainReason::AttributionAbstained),
        Some(a) => {
            if !a.item_id.same(&item.item_id) {
                Decision::Silent(AbstainReason::AttributionMismatch)
            } else if rate_limit.limits(&item.item_id, config.per_lesson_cooldown, now) {
                Decision::Silent(AbstainReason::RateLimited)
            } else {
                Decision::Signal(a.method, hazards)
            }
        },
    }
}

/// Whether one of the first `n` classifications is about `id`.
fn already_seen(per_item: &Vec<ItemClassification>, n: usize, id: &LoadedItemId) -> (b: bool)
    requires
        n <= per_item.len(),
    ensures
        b == seen(class_models(per_item@).take(n as int), id@),
{
    let ghost models = class_models(per_item@).take(n as int);
    let mut j: usize = 0;
    while j < n
        invariant
            j <= n <= per_item.len(),
            models == class_models(per_item@).take(n as int),
            forall|k: int| 0 <= k < j ==> (#[trigger] models[k]).item_id != id@,
        decreases n - j,
    {
        if per_item[j].item_id.same(id) {
            proof {
                assert(models[j as int].item_id == id@);
            }
            return true;
        }
        j += 1;
    }
    false
}

/// Derives the signals of one classification. `now` is a moment of the monotonic clock, against
/// which the rate limits stand; `timestamp` goes into the signals.
pub fn derive_signals(
    raw: &RawClassification,
    request: &ClassificationRequest,
    rate_limit: &RateLimits,
    config: &OrchestratorConfig,
    now: u64,
    source_event_uuid: &str,
    timestamp: Moment,
) -> (out: OrchestratorOutput)
    ensures
        out@ == derived(
            *raw,
            setting(
                *raw,
                *request,
                rate_limit@,
                *config,
                now,
                source_event_uuid@,
                timestamp,
            ),
        ),
{
    if raw.is_abstain() {
        return OrchestratorOutput::abstained(AbstainReason::ClassifierAbstained);
    }
    let ghost s = setting(
        *raw,
        *request,
        rate_limit@,
        *config,
        now,
        source_event_uuid@,
        timestamp,
    );
    let ghost models = class_models(raw.per_item@);
    let mut signals: Vec<SentimentSignal> = Vec::new();
    let mut abstentions: Vec<(Option<LoadedItemId>, AbstainReason)> = Vec::new();
    let mut i: usize = 0;
    proof {
        assert(signal_models(signals@) =~= decided(models.take(0), s).signals);
        assert(abstention_models(abstentions@) =~= decided(models.take(0), s).abstentions);
    }
    while i < raw.per_item.len()
        invariant
            i <= raw.per_item.len(),
            models == class_models(raw.per_item@),
            s == setting(
                *raw,
                *request,
                rate_limit@,
                *config,
                now,
                source_event_uuid@,
                timestamp,
            ),
            signal_models(signals@) == decided(models.take(i as int), s).signals,
            abstention_models(abstentions@) == decided(models.take(i as int), s).abstentions,
        decreases raw.per_item.len() - i,
    {
        let item = &raw.per_item[i];
        let ghost c = item@;
        proof {
            assert(models.take(i + 1).drop_last() =~= models.take(i as int));
            assert(models.take(i + 1).last() == c);
        }
        if !already_seen(&raw.per_item, i, &item.item_id) {
            match decide(item, raw, request, rate_limit, config, now, Ghost(s)) {
                Decision::Silent(reason) => {
                    let ghost before = abstention_models(abstentions@);
                    abstentions.push((Some(item.item_id.duplicate()), reason));
                    proof {
                        assert(abstention_models(abstentions@) =~= before.push(
                            (Some(c.item_id), reason),
                        ));
                    }
                },
                Decision::Signal(method, hazards) => {
                    let ghost before = signal_models(signals@);
                    let signal = SentimentSignal {
                        item_id: item.item_id.duplicate(),
                        polarity: item.polarity,
                        calibrated_confidence: CalibratedConfidence::new(item.confidence.value()),
                        attribution_method: method,
                        detected_hazards: hazards,
                        source_event_uuid: source_event_uuid.to_owned(),
                        timestamp,
                    };
                    proof {
                        assert(signal@ =~= signal_of(c, s, method));
                    }
                    signals.push(signal);
                    proof {
                        assert(signal_models(signals@) =~= before.push(signal_of(c, s, method)));
                    }
                },
            }
        }
        i += 1;
    }
    proof {
        assert(models.take(models.len() as int) =~= models);
    }
    let out = OrchestratorOutput { signals, abstentions };
    proof {
        assert(out@ =~= decided(models, s));
    }
    out
}

// ---- Laws --------------------------------------------------------------------

/// Every emitted signal passed every test: it is not neutral, its confidence reaches the threshold
/// of its polarity, none of its hazards rules it out, and its item was not limited.
pub proof fn law_emitted_signals_pass_every_test(classes: Seq<ClassModel>, s: Setting, i: int)
    requires
        0 <= i < decided(classes, s).signals.len(),
    ensures
        ({
            let signal = decided(classes, s).signals[i];
            &&& !(signal.polarity is Neutral)
            &&& ruling_hazard(signal.hazards) is None
            &&& !is_limited(s.limits, signal.item_id, s.cooldown, s.now)
            &&& signal.event_uuid == s.event_uuid
            &&& signal.timestamp == s.timestamp
            &&& exists|k: int|
                {
                    &&& 0 <= k < classes.len()
                    &&& (#[trigger] classes[k]).item_id == signal.item_id
                    &&& classes[k].polarity == signal.polarity
                    &&& !less(classes[k].confidence, required(signal.polarity))
                }
        }),
    decreases classes.len(),
{
    let rest = classes.drop_last();
    let before = decided(rest, s);
    if i < before.signals.len() {
        law_emitted_signals_pass_every_test(rest, s, i);
        let k = choose|k: int|
            {
                &&& 0 <= k < rest.len()
                &&& (#[trigger] rest[k]).item_id == before.signals[i].item_id
                &&& rest[k].polarity == before.signals[i].polarity
                &&& !less(rest[k].confidence, required(before.signals[i].polarity))
            };
        assert(classes[k] == rest[k]);
    } else {
        let k = classes.len() - 1;
        assert(classes[k] == classes.last());
    }
}

/// No item gets two signals from one classification.
pub proof fn law_one_signal_per_item(classes: Seq<ClassModel>, s: Setting, i: int, j: int)
    requires
        0 <= i < j < decided(classes, s).signals.len(),
    ensures
        decided(classes, s).signals[i].item_id != decided(classes, s).signals[j].item_id,
    decreases classes.len(),
{
    let rest = classes.drop_last();
    let before = decided(rest, s);
    if j < before.signals.len() {
        law_one_signal_per_item(rest, s, i, j);
    } else {
        law_emitted_signals_pass_every_test(rest, s, i);
        let id = before.signals[i].item_id;
        assert(seen(rest, id));
    }
}

/// Every item that the classifier names is accounted for exactly once: it has a signal, or a
/// reason why it has none.
pub proof fn law_every_named_item_is_answered(classes: Seq<ClassModel>, s: Setting, k: int)
    requires
        0 <= k < classes.len(),
    ensures
        ({
            let out = decided(classes, s);
            let id = classes[k].item_id;
            ||| exists|i: int| 0 <= i < out.signals.len() && (#[trigger] out.signals[i]).item_id == id
            ||| exists|i: int|
                0 <= i < out.abstentions.len() && (#[trigger] out.abstentions[i]).0 == Some(id)
        }),
    decreases classes.len(),
{
    let rest = classes.drop_last();
    let before = decided(rest, s);
    let out = decided(classes, s);
    let id = classes[k].item_id;
    if seen(rest, id) {
        let j = choose|j: int| 0 <= j < rest.len() && (#[trigger] rest[j]).item_id == id;
        law_every_named_item_is_answered(rest, s, j);
        if exists|i: int|
            0 <= i < before.signals.len() && (#[trigger] before.signals[i]).item_id == id {
            let i = choose|i: int|
                0 <= i < before.signals.len() && (#[trigger] before.signals[i]).item_id == id;
            assert(out.signals[i] == before.signals[i]);
        } else {
            let i = choose|i: int|
                0 <= i < before.abstentions.len() && (#[trigger] before.abstentions[i]).0 == Some(
                    id,
                );
            assert(out.abstentions[i] == before.abstentions[i]);
        }
    } else {
        if k < rest.len() {
            assert(rest[k].item_id == id);
        }
        assert(classes.last() == classes[k]);
        match verdict(classes.last(), s) {
            Verdict::Silent(reason) => {
                assert(out.abstentions[before.abstentions.len() as int].0 == Some(id));
            },
            Verdict::Signal(method) => {
                assert(out.signals[before.signals.len() as int].item_id == id);
            },
        }
    }
}

/// Whether the classification at `k` is the first one about its item.
pub open spec fn first_about(per_item: Seq<ItemClassification>, k: int) -> bool {
    &&& 0 <= k < per_item.len()
    &&& forall|j: int|
        0 <= j < k ==> (#[trigger] per_item[j]).item_id@ != per_item[k].item_id@
}

/// Whether `words` are what a classification is attributed by: its evidence where it gives one,
/// else the whole utterance.
pub open spec fn speaks_for(
    words: Seq<char>,
    c: ItemClassification,
    request: ClassificationRequest,
) -> bool {
    match c.evidence {
        Some(e) => words == e@,
        None => words == request.utterance@,
    }
}

/// Whether a classification is confident enough: 0.75 for a positive one, 0.85 for a negative one.
pub open spec fn confident(c: ItemClassification) -> bool {
    &&& c.polarity == Polarity::Positive ==> !less(c.confidence.bits(), 0x3f40_0000)
    &&& c.polarity == Polarity::Negative ==> !less(c.confidence.bits(), 0x3f59_999a)
}

/// Whether one of the hazards is sarcasm, an ambiguous referent, unfamiliar input or words about
/// oneself.
pub open spec fn hazardous(hazards: Seq<Hazard>) -> bool {
    hazards.contains(Hazard::Sarcasm) || hazards.contains(Hazard::AmbiguousReferent)
        || hazards.contains(Hazard::OutOfDistribution) || hazards.contains(Hazard::SelfDirected)
}

/// Whether the item had a signal within the cooldown before `now`.
pub open spec fn cooling(limits: RateLimits, id: Seq<char>, cooldown: u64, now: u64) -> bool {
    limits@.dom().contains(id) && (if now >= limits@[id] {
        now - limits@[id] < cooldown
    } else {
        0 < cooldown
    })
}

/// Whether the output holds a signal for the classification, found by `method`.
pub open spec fn has_signal(
    out: OrchestratorOutput,
    c: ItemClassification,
    raw: RawClassification,
    method: AttributionMethod,
    event_uuid: Seq<char>,
    timestamp: Moment,
) -> bool {
    exists|i: int|
        {
            &&& 0 <= i < out.signals@.len()
            &&& (#[trigger] out.signals@[i]).item_id@ == c.item_id@
            &&& out.signals@[i].polarity == c.polarity
            &&& out.signals@[i].calibrated_confidence.bits() == unit_clamped(c.confidence.bits())
            &&& out.signals@[i].attribution_method == method
            &&& out.signals@[i].detected_hazards@ == c.hazards@ + raw.global_hazards@
            &&& out.signals@[i].source_event_uuid@ == event_uuid
            &&& out.signals@[i].timestamp == timestamp
        }
}

/// Whether the output says of an item why it has no signal.
pub open spec fn has_reason(out: OrchestratorOutput, id: Seq<char>, reason: AbstainReason) -> bool {
    exists|i: int|
        {
            &&& 0 <= i < out.abstentions@.len()
            &&& (#[trigger] out.abstentions@[i]).0 matches Some(a)
            &&& a@ == id
            &&& out.abstentions@[i].1 == reason
        }
}

/// Whether the output holds a signal about an item.
pub open spec fn signals_about(out: OrchestratorOutput, id: Seq<char>) -> bool {
    exists|i: int| 0 <= i < out.signals@.len() && (#[trigger] out.signals@[i]).item_id@ == id
}

/// Whether the output holds a reason for silence about an item.
pub open spec fn silence_about(out: OrchestratorOutput, id: Seq<char>) -> bool {
    exists|reason: AbstainReason| #[trigger] has_reason(out, id, reason)
}

/// What was decided speaks only of items that were classified.
proof fn lemma_decided_items(classes: Seq<ClassModel>, s: Setting)
    ensures
        ({
            let out = decided(classes, s);
            &&& forall|i: int|
                0 <= i < out.signals.len() ==> seen(classes, (#[trigger] out.signals[i]).item_id)
            &&& forall|i: int|
                0 <= i < out.abstentions.len() ==> (#[trigger] out.abstentions[i]).0 is Some
                    && seen(classes, out.abstentions[i].0->0)
        }),
    decreases classes.len(),
{
    if classes.len() > 0 {
        let rest = classes.drop_last();
        lemma_decided_items(rest, s);
        let before = decided(rest, s);
        let out = decided(classes, s);
        assert(classes[classes.len() - 1] == classes.last());
        assert(seen(classes, classes.last().item_id));
        assert forall|id: Seq<char>| #[trigger] seen(rest, id) implies seen(classes, id) by {
            let j = choose|j: int| 0 <= j < rest.len() && (#[trigger] rest[j]).item_id == id;
            assert(classes[j] == rest[j]);
        }
        assert forall|i: int| 0 <= i < out.signals.len() implies seen(
            classes,
            (#[trigger] out.signals[i]).item_id,
        ) by {
            if i < before.signals.len() {
                assert(out.signals[i] == before.signals[i]);
            }
        }
        assert forall|i: int| 0 <= i < out.abstentions.len() implies (
        #[trigger] out.abstentions[i]).0 is Some && seen(classes, out.abstentions[i].0->0) by {
            if i < before.abstentions.len() {
                assert(out.abstentions[i] == before.abstentions[i]);
            }
        }
    }
}

/// The first classification about an item decides, and decides once.
proof fn lemma_decided_at(classes: Seq<ClassModel>, s: Setting, k: int)
    requires
        0 <= k < classes.len(),
        forall|j: int| 0 <= j < k ==> (#[trigger] classes[j]).item_id != classes[k].item_id,
    ensures
        ({
            let out = decided(classes, s);
            let id = classes[k].item_id;
            match verdict(classes[k], s) {
                Verdict::Silent(reason) => {
                    &&& exists|i: int|
                        0 <= i < out.abstentions.len() && #[trigger] out.abstentions[i] == (
                            Some(id),
                            reason,
                        )
                    &&& forall|i: int|
                        0 <= i < out.abstentions.len() && (#[trigger] out.abstentions[i]).0 == Some(
                            id,
                        ) ==> out.abstentions[i].1 == reason
                    &&& forall|i: int|
                        0 <= i < out.signals.len() ==> (#[trigger] out.signals[i]).item_id != id
                },
                Verdict::Signal(method) => {
                    &&& exists|i: int|
                        0 <= i < out.signals.len() && #[trigger] out.signals[i] == signal_of(
                            classes[k],
                            s,
                            method,
                        )
                    &&& forall|i: int|
                        0 <= i < out.signals.len() && (#[trigger] out.signals[i]).item_id == id
                            ==> out.signals[i] == signal_of(classes[k], s, method)
                    &&& forall|i: int|
                        0 <= i < out.abstentions.len() ==> (#[trigger] out.abstentions[i]).0 != Some(
                            id,
                        )
                },
            }
        }),
    decreases classes.len(),
{
    let rest = classes.drop_last();
    let before = decided(rest, s);
    let out = decided(classes, s);
    let id = classes[k].item_id;
    if k < rest.len() {
        assert(rest[k] == classes[k]);
        assert forall|j: int| 0 <= j < k implies (#[trigger] rest[j]).item_id != rest[k].item_id by {
            assert(rest[j] == classes[j]);
        }
        lemma_decided_at(rest, s, k);
        assert(seen(rest, id));
        match verdict(classes[k], s) {
            Verdict::Silent(reason) => {
                let i = choose|i: int|
                    0 <= i < before.abstentions.len() && #[trigger] before.abstentions[i] == (
                        Some(id),
                        reason,
                    );
                assert(out.abstentions[i] == before.abstentions[i]);
            },
            Verdict::Signal(method) => {
                let i = choose|i: int|
                    0 <= i < before.signals.len() && #[trigger] before.signals[i] == signal_of(
                        classes[k],
                        s,
                        method,
                    );
                assert(out.signals[i] == before.signals[i]);
            },
        }
        assert forall|i: int| 0 <= i < out.signals.len() implies (i < before.signals.len()
            && #[trigger] out.signals[i] == before.signals[i]) || out.signals[i].item_id != id by {}
        assert forall|i: int| 0 <= i < out.abstentions.len() implies (i < before.abstentions.len()
            && #[trigger] out.abstentions[i] == before.abstentions[i]) || out.abstentions[i].0
            != Some(id) by {}
    } else {
        assert(classes.last() == classes[k]);
        lemma_decided_items(rest, s);
        assert(!seen(rest, id)) by {
            if seen(rest, id) {
                let j = choose|j: int| 0 <= j < rest.len() && (#[trigger] rest[j]).item_id == id;
                assert(classes[j] == rest[j]);
            }
        }
        match verdict(classes[k], s) {
            Verdict::Silent(reason) => {
                assert(out.abstentions[before.abstentions.len() as int] == (Some(id), reason));
            },
            Verdict::Signal(method) => {
                assert(out.signals[before.signals.len() as int] == signal_of(classes[k], s, method));
            },
        }
    }
}

proof fn lemma_hazardous(hazards: Seq<Hazard>)
    ensures
        hazardous(hazards) <==> ruling_hazard(hazards) is Some,
        ruling_hazard(hazards) matches Some(h) ==> exists|i: int|
            {
                &&& 0 <= i < hazards.len()
                &&& #[trigger] hazards[i] == h
                &&& hazardous(seq![h])
                &&& !hazardous(hazards.take(i))
            },
    decreases hazards.len(),
{
    assert(forall|h: Hazard| #[trigger] seq![h].contains(h)) by {
        assert forall|h: Hazard| #[trigger] seq![h].contains(h) by {
            assert(seq![h][0] == h);
        }
    }
    if hazards.len() > 0 {
        let rest = hazards.skip(1);
        lemma_hazardous(rest);
        assert forall|h: Hazard| #[trigger]
            hazards.contains(h) <==> hazards[0] == h || rest.contains(h) by {
            if hazards.contains(h) {
                let i = choose|i: int| 0 <= i < hazards.len() && hazards[i] == h;
                if i > 0 {
                    assert(rest[i - 1] == h);
                }
            }
            if rest.contains(h) {
                let i = choose|i: int| 0 <= i < rest.len() && rest[i] == h;
                assert(hazards[i + 1] == h);
            }
            if hazards[0] == h {
                assert(hazards.contains(hazards[0]));
            }
        }
        if rules_out(hazards[0]) {
            assert(hazardous(seq![hazards[0]]));
            assert(hazards.take(0).len() == 0);
        } else if ruling_hazard(rest) is Some {
            let h = ruling_hazard(rest)->0;
            let i = choose|i: int|
                {
                    &&& 0 <= i < rest.len()
                    &&& #[trigger] rest[i] == h
                    &&& hazardous(seq![h])
                    &&& !hazardous(rest.take(i))
                };
            assert(hazards[i + 1] == h);
            let head = hazards.take(i + 1);
            assert(head =~= seq![hazards[0]] + rest.take(i));
            assert forall|g: Hazard| #[trigger]
                head.contains(g) implies g == hazards[0] || rest.take(i).contains(g) by {
                let n = choose|n: int| 0 <= n < head.len() && head[n] == g;
                if n > 0 {
                    assert(rest.take(i)[n - 1] == g);
                }
            }
        }
    }
}

/// The first classification about an item leads to a signal about it or to a reason why there is
/// none, never to both. It is attributed as its evidence alone would be, and only without evidence
/// as the utterance would be. The tests come in this order: sentiment, confidence, hazards,
/// attribution, cooldown.
pub proof fn law_an_item_is_decided_by_its_own_evidence(
    raw: &RawClassification,
    request: &ClassificationRequest,
    rate_limit: &RateLimits,
    config: &OrchestratorConfig,
    now: u64,
    event_uuid: &str,
    timestamp: Moment,
    out: OrchestratorOutput,
    k: int,
    words: &str,
    found: Option<Attribution>,
)
    requires
        call_ensures(
            derive_signals,
            (raw, request, rate_limit, config, now, event_uuid, timestamp),
            out,
        ),
        first_about(raw.per_item@, k),
        speaks_for(words@, raw.per_item@[k], *request),
        call_ensures(
            attribute_signal,
            (words, &request.loaded_items, &request.recent_turns),
            found,
        ),
    ensures
        ({
            let c = raw.per_item@[k];
            let id = c.item_id@;
            let hazards = c.hazards@ + raw.global_hazards@;
            let cooldown = config.per_lesson_cooldown;
            let passes = c.polarity != Polarity::Neutral && confident(c) && !hazardous(hazards)
                && found is Some && found->0.item_id@ == id && !cooling(
                *rate_limit,
                id,
                cooldown,
                now,
            );
            &&& passes ==> has_signal(out, c, *raw, found->0.method, event_uuid@, timestamp)
            &&& passes <==> signals_about(out, id)
            &&& passes <==> !silence_about(out, id)
            &&& c.polarity == Polarity::Neutral ==> has_reason(out, id, AbstainReason::Neutral)
            &&& c.polarity == Polarity::Positive && !confident(c) ==> has_reason(
                out,
                id,
                AbstainReason::BelowThreshold {
                    polarity: Polarity::Positive,
                    observed: c.confidence.bits(),
                    required: 0x3f40_0000,
                },
            )
            &&& c.polarity == Polarity::Negative && !confident(c) ==> has_reason(
                out,
                id,
                AbstainReason::BelowThreshold {
                    polarity: Polarity::Negative,
                    observed: c.confidence.bits(),
                    required: 0x3f59_999a,
                },
            )
            &&& c.polarity != Polarity::Neutral && confident(c) ==> {
                &&& hazardous(hazards) ==> exists|n: int|
                    {
                        &&& 0 <= n < hazards.len()
                        &&& hazardous(seq![#[trigger] hazards[n]])
                        &&& !hazardous(hazards.take(n))
                        &&& has_reason(out, id, AbstainReason::HazardSet(hazards[n]))
                    }
                &&& !hazardous(hazards) && found is None ==> has_reason(
                    out,
                    id,
                    AbstainReason::AttributionAbstained,
                )
                &&& !hazardous(hazards) && found is Some && found->0.item_id@ != id ==> has_reason(
                    out,
                    id,
                    AbstainReason::AttributionMismatch,
                )
                &&& !hazardous(hazards) && found is Some && found->0.item_id@ == id && cooling(
                    *rate_limit,
                    id,
                    cooldown,
                    now,
                ) ==> has_reason(out, id, AbstainReason::RateLimited)
            }
        }),
{
    let s = setting(*raw, *request, rate_limit@, *config, now, event_uuid@, timestamp);
    let classes = class_models(raw.per_item@);
    let c = raw.per_item@[k];
    let id = c.item_id@;
    let hazards = c.hazards@ + raw.global_hazards@;
    assert(classes[k] == c@);
    assert forall|j: int| 0 <= j < k implies (#[trigger] classes[j]).item_id != classes[k].item_id by {
        assert(classes[j] == raw.per_item@[j]@);
    }
    lemma_decided_at(classes, s, k);
    lemma_hazardous(hazards);
    let o = decided(classes, s);
    assert(out@ == o);
    assert(opt_model(found) == attributed(words@, s.items, s.turns));
    assert forall|i: int| 0 <= i < out.signals@.len() implies #[trigger] out.signals@[i]@
        == o.signals[i] by {}
    assert forall|i: int| 0 <= i < out.abstentions@.len() implies abstention_model(
        #[trigger] out.abstentions@[i],
    ) == o.abstentions[i] by {}
    match verdict(classes[k], s) {
        Verdict::Silent(reason) => {
            let i = choose|i: int|
                0 <= i < o.abstentions.len() && #[trigger] o.abstentions[i] == (Some(id), reason);
            assert(abstention_model(out.abstentions@[i]) == o.abstentions[i]);
            assert(has_reason(out, id, reason));
            assert(!signals_about(out, id)) by {
                if signals_about(out, id) {
                    let n = choose|n: int|
                        0 <= n < out.signals@.len() && (#[trigger] out.signals@[n]).item_id@ == id;
                    assert(o.signals[n].item_id == id);
                }
            }
        },
        Verdict::Signal(method) => {
            let i = choose|i: int|
                0 <= i < o.signals.len() && #[trigger] o.signals[i] == signal_of(
                    classes[k],
                    s,
                    method,
                );
            assert(out.signals@[i]@ == o.signals[i]);
            assert(has_signal(out, c, *raw, method, event_uuid@, timestamp));
            assert(!silence_about(out, id)) by {
                if silence_about(out, id) {
                    let reason = choose|reason: AbstainReason| #[trigger]
                        has_reason(out, id, reason);
                    let n = choose|n: int|
                        {
                            &&& 0 <= n < out.abstentions@.len()
                            &&& (#[trigger] out.abstentions@[n]).0 matches Some(a)
                            &&& a@ == id
                            &&& out.abstentions@[n].1 == reason
                        };
                    assert(abstention_model(out.abstentions@[n]) == o.abstentions[n]);
                }
            }
        },
    }
}

/// Where the first item that the evidence mentions is the classified one, its signal is a direct
/// mention, whatever else the utterance mentions. Without evidence the same holds of the utterance.
pub proof fn law_evidence_that_names_the_item_carries_the_signal(
    raw: &RawClassification,
    request: &ClassificationRequest,
    rate_limit: &RateLimits,
    config: &OrchestratorConfig,
    now: u64,
    event_uuid: &str,
    timestamp: Moment,
    out: OrchestratorOutput,
    k: int,
    words: Seq<char>,
    at: int,
)
    requires
        call_ensures(
            derive_signals,
            (raw, request, rate_limit, config, now, event_uuid, timestamp),
            out,
        ),
        first_about(raw.per_item@, k),
        speaks_for(words, raw.per_item@[k], *request),
        first_mentioned(words, item_models(request.loaded_items@), at),
        request.loaded_items@[at].id@ == raw.per_item@[k].item_id@,
        raw.per_item@[k].polarity != Polarity::Neutral,
        confident(raw.per_item@[k]),
        !hazardous(raw.per_item@[k].hazards@ + raw.global_hazards@),
        !cooling(*rate_limit, raw.per_item@[k].item_id@, config.per_lesson_cooldown, now),
    ensures
        has_signal(
            out,
            raw.per_item@[k],
            *raw,
            AttributionMethod::DirectMention,
            event_uuid@,
            timestamp,
        ),
{
    let s = setting(*raw, *request, rate_limit@, *config, now, event_uuid@, timestamp);
    let classes = class_models(raw.per_item@);
    let c = raw.per_item@[k];
    assert(classes[k] == c@);
    assert forall|j: int| 0 <= j < k implies (#[trigger] classes[j]).item_id != classes[k].item_id by {
        assert(classes[j] == raw.per_item@[j]@);
    }
    lemma_first_mentioned(words, s.items, s.turns, at);
    lemma_decided_at(classes, s, k);
    lemma_hazardous(c.hazards@ + raw.global_hazards@);
    let o = decided(classes, s);
    assert(out@ == o);
    let method = AttributionMethod::DirectMention;
    assert(s.items[at].id == c.item_id@);
    assert(verdict(classes[k], s) == Verdict::Signal(method));
    let i = choose|i: int|
        0 <= i < o.signals.len() && #[trigger] o.signals[i] == signal_of(classes[k], s, method);
    assert(out.signals@[i]@ == o.signals[i]);
}

/// A classification without items and hazards gives one reason for the whole event. Otherwise
/// nothing is said of the whole event, and only of items that were classified.
pub proof fn law_an_empty_classification_abstains(
    raw: &RawClassification,
    request: &ClassificationRequest,
    rate_limit: &RateLimits,
    config: &OrchestratorConfig,
    now: u64,
    event_uuid: &str,
    timestamp: Moment,
    out: OrchestratorOutput,
)
    requires
        call_ensures(
            derive_signals,
            (raw, request, rate_limit, config, now, event_uuid, timestamp),
            out,
        ),
    ensures
        raw.per_item@.len() == 0 ==> out.signals@.len() == 0,
        raw.per_item@.len() == 0 && raw.global_hazards@.len() == 0 ==> out.abstentions@ == seq![
            (None::<LoadedItemId>, AbstainReason::ClassifierAbstained),
        ],
        raw.per_item@.len() == 0 && raw.global_hazards@.len() > 0 ==> out.abstentions@.len() == 0,
        forall|i: int|
            #![trigger out.signals@[i]]
            0 <= i < out.signals@.len() ==> exists|k: int|
                0 <= k < raw.per_item@.len() && (#[trigger] raw.per_item@[k]).item_id@
                    == out.signals@[i].item_id@,
        raw.per_item@.len() > 0 ==> forall|i: int|
            #![trigger out.abstentions@[i]]
            0 <= i < out.abstentions@.len() ==> out.abstentions@[i].0 is Some && exists|k: int|
                0 <= k < raw.per_item@.len() && (#[trigger] raw.per_item@[k]).item_id@
                    == (out.abstentions@[i].0->0)@,
{
    let s = setting(*raw, *request, rate_limit@, *config, now, event_uuid@, timestamp);
    let classes = class_models(raw.per_item@);
    lemma_decided_items(classes, s);
    assert(out@ == derived(*raw, s));
    if raw.per_item@.len() == 0 {
        assert(out@.signals.len() == 0);
        if raw.global_hazards@.len() == 0 {
            assert(out@.abstentions.len() == 1);
            assert(abstention_model(out.abstentions@[0]) == out@.abstentions[0]);
            assert(out.abstentions@ =~= seq![
                (None::<LoadedItemId>, AbstainReason::ClassifierAbstained),
            ]);
        } else {
            assert(out@.abstentions.len() == 0);
        }
    } else {
        assert forall|i: int| #![trigger out.signals@[i]] 0 <= i < out.signals@.len() implies exists|
            k: int,
        |
            0 <= k < raw.per_item@.len() && (#[trigger] raw.per_item@[k]).item_id@
                == out.signals@[i].item_id@ by {
            assert(out.signals@[i]@ == out@.signals[i]);
            let j = choose|j: int|
                0 <= j < classes.len() && (#[trigger] classes[j]).item_id == out@.signals[i].item_id;
            assert(classes[j] == raw.per_item@[j]@);
        }
        assert forall|i: int|
            #![trigger out.abstentions@[i]]
            0 <= i < out.abstentions@.len() implies out.abstentions@[i].0 is Some && exists|k: int|
            0 <= k < raw.per_item@.len() && (#[trigger] raw.per_item@[k]).item_id@ == (
            out.abstentions@[i].0->0)@ by {
            assert(abstention_model(out.abstentions@[i]) == out@.abstentions[i]);
            let j = choose|j: int|
                0 <= j < classes.len() && (#[trigger] classes[j]).item_id
                    == out@.abstentions[i].0->0;
            assert(classes[j] == raw.per_item@[j]@);
        }
    }
}

/// Signals come in the order in which their items were first classified.
pub proof fn law_signals_keep_the_order_of_the_items(
    raw: &RawClassification,
    request: &ClassificationRequest,
    rate_limit: &RateLimits,
    config: &OrchestratorConfig,
    now: u64,
    event_uuid: &str,
    timestamp: Moment,
    out: OrchestratorOutput,
    i: int,
    j: int,
    k: int,
    l: int,
)
    requires
        call_ensures(
            derive_signals,
            (raw, request, rate_limit, config, now, event_uuid, timestamp),
            out,
        ),
        0 <= i < j < out.signals@.len(),
        first_about(raw.per_item@, k),
        first_about(raw.per_item@, l),
        raw.per_item@[k].item_id@ == out.signals@[i].item_id@,
        raw.per_item@[l].item_id@ == out.signals@[j].item_id@,
    ensures
        k < l,
{
    let s = setting(*raw, *request, rate_limit@, *config, now, event_uuid@, timestamp);
    let classes = class_models(raw.per_item@);
    lemma_decided_items(classes, s);
    assert(out@ == decided(classes, s));
    assert(out.signals@[i]@ == out@.signals[i] && out.signals@[j]@ == out@.signals[j]);
    assert forall|n: int| 0 <= n < classes.len() implies #[trigger] classes[n]
        == raw.per_item@[n]@ by {}
    lemma_signals_in_order(classes, s, i, j, k, l);
}

proof fn lemma_signals_in_order(
    classes: Seq<ClassModel>,
    s: Setting,
    i: int,
    j: int,
    k: int,
    l: int,
)
    requires
        0 <= i < j < decided(classes, s).signals.len(),
        0 <= k < classes.len(),
        0 <= l < classes.len(),
        classes[k].item_id == decided(classes, s).signals[i].item_id,
        classes[l].item_id == decided(classes, s).signals[j].item_id,
        forall|n: int| 0 <= n < k ==> (#[trigger] classes[n]).item_id != classes[k].item_id,
        forall|n: int| 0 <= n < l ==> (#[trigger] classes[n]).item_id != classes[l].item_id,
    ensures
        k < l,
    decreases classes.len(),
{
    let rest = classes.drop_last();
    let before = decided(rest, s);
    let last = classes.len() - 1;
    lemma_decided_items(rest, s);
    assert(classes.last() == classes[last]);
    assert forall|n: int| 0 <= n < rest.len() implies #[trigger] rest[n] == classes[n] by {}
    assert(i < before.signals.len());
    assert(seen(rest, before.signals[i].item_id));
    let n = choose|n: int|
        0 <= n < rest.len() && (#[trigger] rest[n]).item_id == before.signals[i].item_id;
    assert(classes[n].item_id == classes[k].item_id);
    assert(k <= n);
    if j < before.signals.len() {
        assert(seen(rest, before.signals[j].item_id));
        let m = choose|m: int|
            0 <= m < rest.len() && (#[trigger] rest[m]).item_id == before.signals[j].item_id;
        assert(classes[m].item_id == classes[l].item_id);
        lemma_signals_in_order(rest, s, i, j, k, l);
    } else {
        assert(!seen(rest, classes.last().item_id));
        if l < last {
            assert(rest[l].item_id == classes.last().item_id);
        }
    }
}

} // verus!
