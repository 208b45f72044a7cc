//! What each event does to a session.
//!
//! A user turn takes two steps around the classifier call: `begin_user_turn` and then
//! `finish_user_turn`, or `classifier_failed`, or `session_recycled` where the session is gone by
//! then. An interrupt takes one.

use vstd::prelude::*;

use super::config::{HostVersionAction, HostVersionPolicy, OrchestratorConfig};
use super::derive::{ClassModel, Setting, derive_signals, derived, setting, verdict};
use super::state::{
    SessionPhase, SessionState, StateModel, elapsed, is_limited, law_the_last_turns_are_kept,
    push_turn, time_between, with_turn,
};
use crate::engine::clock::Moment;
use crate::engine::sentiment::signals::{
    AbstainReason, OrchestratorOutput, OutputModel, SentimentSignal, SignalModel, abstention_models,
    signal_models, silent,
};
use crate::engine::sentiment::types::{
    AttributionMethod, CalibratedConfidence, ClassificationRequest, Hazard, LoadedItem,
    LoadedItemId, Polarity, RawClassification, RecentTurn, TurnModel, TurnRole, clone_ids,
    clone_items, clone_turns, id_texts, item_models, turn_models,
};
use crate::text::text_less;

verus! {

/// Confidence of a signal from an interrupt: 0.9.
pub const INTERRUPT_CONFIDENCE: u32 = 0x3f66_6666;

// ---- Manifest and assistant turns --------------------------------------------

/// Replaces the manifest of the session.
pub fn update_manifest(state: &mut SessionState, items: Vec<LoadedItem>)
    ensures
        final(state)@ == (StateModel { items: item_models(items@), ..old(state)@ }),
{
    state.loaded_items = items;
    proof {
        assert(state@ =~= (StateModel { items: item_models(items@), ..old(state)@ }));
    }
}

/// Records an assistant turn and what it referenced.
pub fn push_assistant_turn(
    state: &mut SessionState,
    config: &OrchestratorConfig,
    text: String,
    referenced_items: Vec<LoadedItemId>,
    now: u64,
)
    ensures
        final(state)@ == with_turn(
            old(state)@,
            config.recent_turn_capacity as nat,
            (TurnModel {
                role: TurnRole::Assistant,
                text: text@,
                refs: id_texts(referenced_items@),
            }),
            now,
        ),
{
    push_turn(
        state,
        config.recent_turn_capacity,
        RecentTurn { role: TurnRole::Assistant, text, referenced_items },
        now,
    );
}

// ---- User turns --------------------------------------------------------------

/// Whether the tripwire skips a turn from this host version.
pub open spec fn tripped(policy: HostVersionPolicy, version: Option<Seq<char>>) -> bool {
    version is Some && policy.excludes(version->0) && policy.action is Abstain
}

/// The tripwire for host versions, tried before the classifier is asked. Gives the output of a
/// turn that is skipped.
pub fn check_host_version(policy: &HostVersionPolicy, host_version: &Option<String>) -> (r: Option<
    OrchestratorOutput,
>)
    ensures
        match r {
            Some(out) => tripped(*policy, crate::text::opt_text(*host_version)) && out@ == silent(
                AbstainReason::UntestedHostVersion,
            ),
            None => !tripped(*policy, crate::text::opt_text(*host_version)),
        },
{
    match host_version {
        Some(version) => {
            if policy.is_out_of_range(version.as_str()) && policy.action
                == HostVersionAction::Abstain {
                Some(OrchestratorOutput::abstained(AbstainReason::UntestedHostVersion))
            } else {
                None
            }
        },
        None => None,
    }
}

/// A turn of the user, which references nothing.
pub open spec fn user_turn(text: Seq<char>) -> TurnModel {
    TurnModel { role: TurnRole::User, text, refs: seq![] }
}

/// The session while the classifier is asked about `text`.
pub open spec fn awaiting(s: StateModel, capacity: nat, text: Seq<char>, now: u64) -> StateModel {
    StateModel {
        phase: Some((text, now)),
        ..with_turn(s, capacity, user_turn(text), now)
    }
}

/// Appends the user's turn and gives what the classifier is to be asked.
pub fn begin_user_turn(
    state: &mut SessionState,
    config: &OrchestratorConfig,
    text: &str,
    now: u64,
) -> (request: ClassificationRequest)
    ensures
        final(state)@ == awaiting(old(state)@, config.recent_turn_capacity as nat, text@, now),
        request.utterance@ == text@,
        item_models(request.loaded_items@) == old(state)@.items,
        turn_models(request.recent_turns@) == final(state)@.turns,
{
    let turn = RecentTurn {
        role: TurnRole::User,
        text: text.to_owned(),
        referenced_items: Vec::new(),
    };
    proof {
        assert(turn@ =~= user_turn(text@));
    }
    push_turn(state, config.recent_turn_capacity, turn, now);
    state.phase = SessionPhase::AwaitingClassifier { utterance: text.to_owned(), started_at: now };
    proof {
        assert(state@ =~= awaiting(
            old(state)@,
            config.recent_turn_capacity as nat,
            text@,
            now,
        ));
    }
    ClassificationRequest {
        utterance: text.to_owned(),
        loaded_items: clone_items(&state.loaded_items),
        recent_turns: clone_turns(&state.recent_turns),
    }
}

/// The classifier failed: the session waits for nothing any more, and the turn has no signal.
pub fn classifier_failed(state: &mut SessionState) -> (out: OrchestratorOutput)
    ensures
        final(state)@ == (StateModel { phase: None, ..old(state)@ }),
        out@ == silent(AbstainReason::ClassifierAbstained),
{
    state.phase = SessionPhase::Idle;
    proof {
        assert(state@ =~= (StateModel { phase: None, ..old(state)@ }));
    }
    OrchestratorOutput::abstained(AbstainReason::ClassifierAbstained)
}

/// The session ended while the classifier was at work; it is not brought back.
pub fn session_recycled() -> (out: OrchestratorOutput)
    ensures
        out@ == silent(AbstainReason::SessionRecycled),
{
    OrchestratorOutput::abstained(AbstainReason::SessionRecycled)
}

/// The rate limits after these signals.
pub open spec fn noted(
    limits: Map<Seq<char>, u64>,
    signals: Seq<SignalModel>,
    now: u64,
) -> Map<Seq<char>, u64>
    decreases signals.len(),
{
    if signals.len() == 0 {
        limits
    } else {
        noted(limits, signals.drop_last(), now).insert(signals.last().item_id, now)
    }
}

/// The session after a user turn with this output.
pub open spec fn settled(s: StateModel, out: OutputModel, now: u64) -> StateModel {
    StateModel {
        limits: noted(s.limits, out.signals, now),
        phase: None,
        turn_count: (s.turn_count + 1) as u64,
        ..s
    }
}

/// Turns the classifier's answer into signals and notes them against the rate limits.
pub fn finish_user_turn(
    state: &mut SessionState,
    config: &OrchestratorConfig,
    raw: &RawClassification,
    request: &ClassificationRequest,
    event_uuid: &str,
    now: u64,
    timestamp: Moment,
) -> (out: OrchestratorOutput)
    requires
        old(state).turn_count < u64::MAX,
    ensures
        out@ == derived(
            *raw,
            setting(
                *raw,
                *request,
                old(state)@.limits,
                *config,
                now,
                event_uuid@,
                timestamp,
            ),
        ),
        final(state)@ == settled(old(state)@, out@, now),
{
    let out = derive_signals(
        raw,
        request,
        &state.rate_limit,
        config,
        now,
        event_uuid,
        timestamp,
    );
    let ghost models = signal_models(out.signals@);
    let mut i: usize = 0;
    while i < out.signals.len()
        invariant
            i <= out.signals.len(),
            models == signal_models(out.signals@),
            state.rate_limit@ == noted(old(state)@.limits, models.take(i as int), now),
            state.recent_turns == old(state).recent_turns,
            state.phase == old(state).phase,
            state.turn_count == old(state).turn_count,
            state.last_assistant_turn_at == old(state).last_assistant_turn_at,
            state.loaded_items == old(state).loaded_items,
        decreases out.signals.len() - i,
    {
        state.rate_limit.insert(out.signals[i].item_id.duplicate(), now);
        proof {
            assert(models.take(i + 1).drop_last() =~= models.take(i as int));
            assert(models.take(i + 1).last() == out.signals@[i as int]@);
        }
        i += 1;
    }
    state.phase = SessionPhase::Idle;
    state.turn_count = state.turn_count + 1;
    proof {
        assert(models.take(models.len() as int) =~= models);
        assert(state@ =~= settled(old(state)@, out@, now));
    }
    out
}

// ---- Interrupts --------------------------------------------------------------

/// What the last assistant turn with references referenced.
pub open spec fn proximal_refs(turns: Seq<TurnModel>) -> Option<Seq<Seq<char>>>
    decreases turns.len(),
{
    if turns.len() == 0 {
        None
    } else if turns.last().role == TurnRole::Assistant && turns.last().refs.len() > 0 {
        Some(turns.last().refs)
    } else {
        proximal_refs(turns.drop_last())
    }
}

/// Whether the last assistant turn was recent enough to be corrected.
pub open spec fn in_window(last: Option<u64>, window: u64, now: u64) -> bool {
    last is Some && elapsed(last->0, now) <= window
}

/// The signal that an interrupt sends about one item.
pub open spec fn interrupt_signal(
    id: Seq<char>,
    event_uuid: Seq<char>,
    timestamp: Moment,
) -> SignalModel {
    SignalModel {
        item_id: id,
        polarity: Polarity::Negative,
        confidence: INTERRUPT_CONFIDENCE,
        method: AttributionMethod::Recency,
        hazards: seq![],
        event_uuid,
        timestamp,
    }
}

/// What an interrupt leads to for the items of the interrupted turn, and the rate limits after
/// it. An item is limited by what came before it in the same turn, too.
pub open spec fn interrupted(
    ids: Seq<Seq<char>>,
    limits: Map<Seq<char>, u64>,
    cooldown: u64,
    now: u64,
    event_uuid: Seq<char>,
    timestamp: Moment,
) -> (OutputModel, Map<Seq<char>, u64>)
    decreases ids.len(),
{
    if ids.len() == 0 {
        (OutputModel { signals: seq![], abstentions: seq![] }, limits)
    } else {
        let (out, mid) = interrupted(
            ids.drop_last(),
            limits,
            cooldown,
            now,
            event_uuid,
            timestamp,
        );
        let id = ids.last();
        if is_limited(mid, id, cooldown, now) {
            (
                OutputModel {
                    abstentions: out.abstentions.push((Some(id), AbstainReason::RateLimited)),
                    ..out
                },
                mid,
            )
        } else {
            (
                OutputModel {
                    signals: out.signals.push(interrupt_signal(id, event_uuid, timestamp)),
                    ..out
                },
                mid.insert(id, now),
            )
        }
    }
}

/// What an interrupt leads to in a session, and the rate limits after it.
pub open spec fn interrupt_outcome(
    s: StateModel,
    config: OrchestratorConfig,
    now: u64,
    event_uuid: Seq<char>,
    timestamp: Moment,
) -> (OutputModel, Map<Seq<char>, u64>) {
    match proximal_refs(s.turns) {
        Some(refs) => if in_window(s.last_assistant, config.correction_window, now) {
            interrupted(
                refs,
                s.limits,
                config.per_lesson_cooldown,
                now,
                event_uuid,
                timestamp,
            )
        } else {
            (silent(AbstainReason::NoProximalReference), s.limits)
        },
        None => (silent(AbstainReason::NoProximalReference), s.limits),
    }
}

/// The items of the last assistant turn that referenced any.
fn find_proximal(turns: &Vec<RecentTurn>) -> (r: Option<Vec<LoadedItemId>>)
    ensures
        match proximal_refs(turn_models(turns@)) {
            Some(refs) => r is Some && id_texts(r->0@) == refs,
            None => r is None,
        },
{
    let ghost models = turn_models(turns@);
    let mut i: usize = turns.len();
    proof {
        assert(models.take(i as int) =~= models);
    }
    while i > 0
        invariant
            i <= turns.len(),
            models == turn_models(turns@),
            proximal_refs(models) == proximal_refs(models.take(i as int)),
        decreases i,
    {
        let turn = &turns[i - 1];
        proof {
            assert(models.take(i as int).last() == turn@);
            assert(models.take(i as int).drop_last() =~= models.take(i - 1));
        }
        if turn.role == TurnRole::Assistant && turn.referenced_items.len() > 0 {
            return Some(clone_ids(&turn.referenced_items));
        }
        i -= 1;
    }
    None
}

/// An interrupt soon after an assistant turn corrects what that turn referenced: a negative signal
/// for each item that is not limited.
pub fn handle_user_interrupt(
    state: &mut SessionState,
    config: &OrchestratorConfig,
    event_uuid: &str,
    now: u64,
    timestamp: Moment,
) -> (out: OrchestratorOutput)
    requires
        old(state).turn_count < u64::MAX,
    ensures
        out@ == interrupt_outcome(old(state)@, *config, now, event_uuid@, timestamp).0,
        final(state)@ == (StateModel {
            limits: interrupt_outcome(old(state)@, *config, now, event_uuid@, timestamp).1,
            turn_count: (old(state)@.turn_count + 1) as u64,
            ..old(state)@
        }),
{
    let ghost s = state@;
    let proximal = find_proximal(&state.recent_turns);
    let within = match state.last_assistant_turn_at {
        Some(at) => time_between(at, now) <= config.correction_window,
        None => false,
    };
    let ids = match proximal {
        Some(ids) => {
            if !within {
                state.turn_count = state.turn_count + 1;
                proof {
                    assert(state@ =~= (StateModel { turn_count: (s.turn_count + 1) as u64, ..s }));
                }
                return OrchestratorOutput::abstained(AbstainReason::NoProximalReference);
            }
            ids
        },
        None => {
            state.turn_count = state.turn_count + 1;
            proof {
                assert(state@ =~= (StateModel { turn_count: (s.turn_count + 1) as u64, ..s }));
            }
            return OrchestratorOutput::abstained(AbstainReason::NoProximalReference);
        },
    };
    let ghost models = id_texts(ids@);
    let cooldown: u64 = config.per_lesson_cooldown;
    let mut signals: Vec<SentimentSignal> = Vec::new();
    let mut abstentions: Vec<(Option<LoadedItemId>, AbstainReason)> = Vec::new();
    let mut i: usize = 0;
    proof {
        let start = interrupted(models.take(0), s.limits, cooldown, now, event_uuid@, timestamp);
        assert(signal_models(signals@) =~= start.0.signals);
        assert(abstention_models(abstentions@) =~= start.0.abstentions);
    }
    while i < ids.len()
        invariant
            i <= ids.len(),
            models == id_texts(ids@),
            s == old(state)@,
            ({
                let so_far = interrupted(
                    models.take(i as int),
                    s.limits,
                    cooldown,
                    now,
                    event_uuid@,
                    timestamp,
                );
                &&& signal_models(signals@) == so_far.0.signals
                &&& abstention_models(abstentions@) == so_far.0.abstentions
                &&& state.rate_limit@ == so_far.1
            }),
            state.recent_turns == old(state).recent_turns,
            state.phase == old(state).phase,
            state.turn_count == old(state).turn_count,
            state.last_assistant_turn_at == old(state).last_assistant_turn_at,
            state.loaded_items == old(state).loaded_items,
        decreases ids.len() - i,
    {
        let id = &ids[i];
        proof {
            assert(models.take(i + 1).drop_last() =~= models.take(i as int));
            assert(models.take(i + 1).last() == id@);
        }
        if state.rate_limit.limits(id, cooldown, now) {
            let ghost before = abstention_models(abstentions@);
            abstentions.push((Some(id.duplicate()), AbstainReason::RateLimited));
            proof {
                assert(abstention_models(abstentions@) =~= before.push(
                    (Some(id@), AbstainReason::RateLimited),
                ));
            }
        } else {
            let ghost before = signal_models(signals@);
            let hazards: Vec<Hazard> = Vec::new();
            let signal = SentimentSignal {
                item_id: id.duplicate(),
                polarity: Polarity::Negative,
                calibrated_confidence: CalibratedConfidence::new(INTERRUPT_CONFIDENCE),
                attribution_method: AttributionMethod::Recency,
                detected_hazards: hazards,
                source_event_uuid: event_uuid.to_owned(),
                timestamp,
            };
            proof {
                assert(signal@ =~= interrupt_signal(id@, event_uuid@, timestamp));
            }
            state.rate_limit.insert(id.duplicate(), now);
            signals.push(signal);
            proof {
                assert(signal_models(signals@) =~= before.push(
                    interrupt_signal(id@, event_uuid@, timestamp),
                ));
            }
        }
        i += 1;
    }
    state.turn_count = state.turn_count + 1;
    let out = OrchestratorOutput { signals, abstentions };
    proof {
        assert(models.take(models.len() as int) =~= models);
        let done = interrupted(models, s.limits, cooldown, now, event_uuid@, timestamp);
        assert(out@ =~= done.0);
        assert(state@ =~= (StateModel {
            limits: done.1,
            turn_count: (s.turn_count + 1) as u64,
            ..s
        }));
    }
    out
}

// ---- Laws --------------------------------------------------------------------

/// Noting signals marks exactly their items, all with the same moment.
proof fn lemma_noted(limits: Map<Seq<char>, u64>, signals: Seq<SignalModel>, now: u64, i: int)
    requires
        0 <= i < signals.len(),
    ensures
        noted(limits, signals, now).dom().contains(signals[i].item_id),
        noted(limits, signals, now)[signals[i].item_id] == now,
    decreases signals.len(),
{
    if i < signals.len() - 1 {
        lemma_noted(limits, signals.drop_last(), now, i);
        assert(signals.drop_last()[i] == signals[i]);
    }
}

/// An item that had a signal has no other from the classifier before the cooldown is over,
/// whatever the classifier says about it.
pub proof fn law_no_second_signal_within_cooldown(
    s: StateModel,
    out: OutputModel,
    now: u64,
    i: int,
    again: ClassModel,
    later: Setting,
)
    requires
        0 <= i < out.signals.len(),
        again.item_id == out.signals[i].item_id,
        later.limits == settled(s, out, now).limits,
        elapsed(now, later.now) < later.cooldown,
    ensures
        verdict(again, later) is Silent,
{
    lemma_noted(s.limits, out.signals, now, i);
}

/// The same holds of an interrupt: within the cooldown no item of the interrupted turn that had a
/// signal gets another one.
pub proof fn law_interrupt_respects_cooldown(
    ids: Seq<Seq<char>>,
    limits: Map<Seq<char>, u64>,
    cooldown: u64,
    now: u64,
    event_uuid: Seq<char>,
    timestamp: Moment,
    i: int,
)
    requires
        0 <= i < interrupted(ids, limits, cooldown, now, event_uuid, timestamp).0.signals.len(),
        limits.dom().contains(
            interrupted(ids, limits, cooldown, now, event_uuid, timestamp).0.signals[i].item_id,
        ),
    ensures
        !is_limited(
            limits,
            interrupted(ids, limits, cooldown, now, event_uuid, timestamp).0.signals[i].item_id,
            cooldown,
            now,
        ),
    decreases ids.len(),
{
    let rest = interrupted(ids.drop_last(), limits, cooldown, now, event_uuid, timestamp);
    if i < rest.0.signals.len() {
        law_interrupt_respects_cooldown(
            ids.drop_last(),
            limits,
            cooldown,
            now,
            event_uuid,
            timestamp,
            i,
        );
    } else {
        lemma_interrupt_limits(
            ids.drop_last(),
            limits,
            cooldown,
            now,
            event_uuid,
            timestamp,
            ids.last(),
        );
    }
}

/// What an interrupt leaves of an earlier rate limit: the same moment, or the interrupt's own.
proof fn lemma_interrupt_limits(
    ids: Seq<Seq<char>>,
    limits: Map<Seq<char>, u64>,
    cooldown: u64,
    now: u64,
    event_uuid: Seq<char>,
    timestamp: Moment,
    id: Seq<char>,
)
    requires
        limits.dom().contains(id),
    ensures
        ({
            let after = interrupted(ids, limits, cooldown, now, event_uuid, timestamp).1;
            &&& after.dom().contains(id)
            &&& after[id] == limits[id] || (after[id] == now && !is_limited(
                limits,
                id,
                cooldown,
                now,
            ))
        }),
    decreases ids.len(),
{
    if ids.len() > 0 {
        lemma_interrupt_limits(
            ids.drop_last(),
            limits,
            cooldown,
            now,
            event_uuid,
            timestamp,
            id,
        );
    }
}

/// Every signal of an interrupt is negative, by recency, and about an item of the interrupted
/// turn.
pub proof fn law_interrupt_signals_are_negative(
    ids: Seq<Seq<char>>,
    limits: Map<Seq<char>, u64>,
    cooldown: u64,
    now: u64,
    event_uuid: Seq<char>,
    timestamp: Moment,
    i: int,
)
    requires
        0 <= i < interrupted(ids, limits, cooldown, now, event_uuid, timestamp).0.signals.len(),
    ensures
        ({
            let signal = interrupted(ids, limits, cooldown, now, event_uuid, timestamp).0.signals[i];
            &&& signal == interrupt_signal(signal.item_id, event_uuid, timestamp)
            &&& ids.contains(signal.item_id)
        }),
    decreases ids.len(),
{
    let rest = interrupted(ids.drop_last(), limits, cooldown, now, event_uuid, timestamp);
    if i < rest.0.signals.len() {
        law_interrupt_signals_are_negative(
            ids.drop_last(),
            limits,
            cooldown,
            now,
            event_uuid,
            timestamp,
            i,
        );
        let id = rest.0.signals[i].item_id;
        let k = choose|k: int| 0 <= k < ids.drop_last().len() && ids.drop_last()[k] == id;
        assert(ids[k] == id);
    } else {
        assert(ids[ids.len() - 1] == ids.last());
    }
}

/// A host version outside the tested range has no effect while the policy is off.
pub proof fn law_tripwire_is_off_without_range(policy: HostVersionPolicy, version: Seq<char>)
    requires
        policy.tested_range is None,
    ensures
        !tripped(policy, Some(version)),
{
}

/// Whether turn `k` is the last one in which the assistant spoke about some item.
pub open spec fn is_proximal(turns: Seq<TurnModel>, k: int) -> bool {
    &&& 0 <= k < turns.len()
    &&& turns[k].role == TurnRole::Assistant
    &&& turns[k].refs.len() > 0
    &&& forall|j: int|
        k < j < turns.len() ==> (#[trigger] turns[j]).role != TurnRole::Assistant
            || turns[j].refs.len() == 0
}

/// Whether an interrupt at `now` comes soon enough after the assistant last spoke.
pub open spec fn comes_soon(s: StateModel, window: u64, now: u64) -> bool {
    s.last_assistant matches Some(t) && now <= t + window
}

proof fn lemma_proximal(turns: Seq<TurnModel>, k: int)
    requires
        is_proximal(turns, k),
    ensures
        proximal_refs(turns) == Some(turns[k].refs),
    decreases turns.len(),
{
    if k < turns.len() - 1 {
        let rest = turns.drop_last();
        assert(turns.last() == turns[turns.len() - 1]);
        assert(rest[k] == turns[k]);
        assert forall|j: int| k < j < rest.len() implies (#[trigger] rest[j]).role
            != TurnRole::Assistant || rest[j].refs.len() == 0 by {
            assert(rest[j] == turns[j]);
        }
        lemma_proximal(rest, k);
    }
}

proof fn lemma_proximal_at(turns: Seq<TurnModel>) -> (k: int)
    requires
        proximal_refs(turns) is Some,
    ensures
        is_proximal(turns, k),
    decreases turns.len(),
{
    if turns.last().role == TurnRole::Assistant && turns.last().refs.len() > 0 {
        turns.len() - 1
    } else {
        let rest = turns.drop_last();
        let k = lemma_proximal_at(rest);
        assert(rest[k] == turns[k]);
        assert forall|j: int| k < j < turns.len() implies (#[trigger] turns[j]).role
            != TurnRole::Assistant || turns[j].refs.len() == 0 by {
            if j < rest.len() {
                assert(rest[j] == turns[j]);
            }
        }
        k
    }
}

/// What an interrupt does to items that are each named once: those that are held back are told so,
/// the others get a signal, in their order.
proof fn lemma_interrupted(
    ids: Seq<Seq<char>>,
    limits: Map<Seq<char>, u64>,
    cooldown: u64,
    now: u64,
    event_uuid: Seq<char>,
    timestamp: Moment,
)
    requires
        ids.no_duplicates(),
    ensures
        ({
            let (out, after) = interrupted(ids, limits, cooldown, now, event_uuid, timestamp);
            let free = ids.filter(|id: Seq<char>| !is_limited(limits, id, cooldown, now));
            let held = ids.filter(|id: Seq<char>| is_limited(limits, id, cooldown, now));
            &&& out.signals == free.map_values(
                |id: Seq<char>| interrupt_signal(id, event_uuid, timestamp),
            )
            &&& out.abstentions == held.map_values(
                |id: Seq<char>| (Some(id), AbstainReason::RateLimited),
            )
            &&& forall|id: Seq<char>|
                #![trigger after.dom().contains(id)]
                after.dom().contains(id) <==> limits.dom().contains(id) || free.contains(id)
            &&& forall|id: Seq<char>| #[trigger] free.contains(id) ==> after[id] == now
            &&& forall|id: Seq<char>|
                #![trigger after[id]]
                limits.dom().contains(id) && !free.contains(id) ==> after[id] == limits[id]
            &&& forall|id: Seq<char>| #[trigger] free.contains(id) ==> ids.contains(id)
        }),
    decreases ids.len(),
{
    let p = |id: Seq<char>| !is_limited(limits, id, cooldown, now);
    let q = |id: Seq<char>| is_limited(limits, id, cooldown, now);
    let f = |id: Seq<char>| interrupt_signal(id, event_uuid, timestamp);
    let g = |id: Seq<char>| (Some(id), AbstainReason::RateLimited);
    reveal(Seq::filter);
    let (out, after) = interrupted(ids, limits, cooldown, now, event_uuid, timestamp);
    if ids.len() > 0 {
        let rest = ids.drop_last();
        let last = ids.last();
        assert(ids[ids.len() - 1] == last);
        assert(rest.no_duplicates()) by {
            assert forall|i: int, j: int|
                0 <= i < rest.len() && 0 <= j < rest.len() && i != j implies rest[i] != rest[j] by {
                assert(ids[i] == rest[i] && ids[j] == rest[j]);
            }
        }
        assert(!rest.contains(last)) by {
            if rest.contains(last) {
                let i = choose|i: int| 0 <= i < rest.len() && rest[i] == last;
                assert(ids[i] == last);
            }
        }
        lemma_interrupted(rest, limits, cooldown, now, event_uuid, timestamp);
        let (before, mid) = interrupted(rest, limits, cooldown, now, event_uuid, timestamp);
        let free = rest.filter(p);
        assert(!free.contains(last));
        assert(mid.dom().contains(last) <==> limits.dom().contains(last));
        assert(is_limited(mid, last, cooldown, now) == is_limited(limits, last, cooldown, now));
        assert forall|id: Seq<char>| rest.contains(id) implies #[trigger] ids.contains(id) by {
            let i = choose|i: int| 0 <= i < rest.len() && rest[i] == id;
            assert(ids[i] == id);
        }
        assert(ids.contains(last));
        if p(last) {
            let now_free = ids.filter(p);
            assert(now_free == free.push(last));
            assert(now_free.map_values(f) =~= free.map_values(f).push(f(last)));
            assert(ids.filter(q) == rest.filter(q));
            assert forall|id: Seq<char>| #[trigger]
                now_free.contains(id) <==> free.contains(id) || id == last by {
                if now_free.contains(id) {
                    let i = choose|i: int| 0 <= i < now_free.len() && now_free[i] == id;
                    if i < free.len() {
                        assert(free[i] == id);
                    }
                }
                if free.contains(id) {
                    let i = choose|i: int| 0 <= i < free.len() && free[i] == id;
                    assert(now_free[i] == id);
                }
                if id == last {
                    assert(now_free[free.len() as int] == id);
                }
            }
        } else {
            assert(ids.filter(q) == rest.filter(q).push(last));
            assert(ids.filter(q).map_values(g) =~= rest.filter(q).map_values(g).push(g(last)));
            assert(ids.filter(p) == free);
        }
    } else {
        assert(ids.filter(p).map_values(f) =~= out.signals);
        assert(ids.filter(q).map_values(g) =~= out.abstentions);
    }
}

/// An interrupt soon after the assistant spoke goes to the items of the last turn in which it spoke
/// about any: each gets a negative signal of confidence 0.9, unless it is held back. From then on
/// the ones with a signal are held back from `now` on, and nothing else is.
pub proof fn law_an_interrupt_goes_to_the_last_items(
    s: StateModel,
    config: OrchestratorConfig,
    now: u64,
    event_uuid: Seq<char>,
    timestamp: Moment,
    k: int,
)
    requires
        is_proximal(s.turns, k),
        s.turns[k].refs.no_duplicates(),
        comes_soon(s, config.correction_window, now),
    ensures
        ({
            let (out, after) = interrupt_outcome(s, config, now, event_uuid, timestamp);
            let cooldown = config.per_lesson_cooldown;
            let refs = s.turns[k].refs;
            let free = refs.filter(|id: Seq<char>| !is_limited(s.limits, id, cooldown, now));
            let held = refs.filter(|id: Seq<char>| is_limited(s.limits, id, cooldown, now));
            &&& out.signals.len() == free.len()
            &&& forall|i: int|
                0 <= i < free.len() ==> {
                    &&& (#[trigger] out.signals[i]).item_id == free[i]
                    &&& out.signals[i].polarity == Polarity::Negative
                    &&& out.signals[i].confidence == 0x3f66_6666
                    &&& out.signals[i].method == AttributionMethod::Recency
                    &&& out.signals[i].hazards.len() == 0
                    &&& out.signals[i].event_uuid == event_uuid
                    &&& out.signals[i].timestamp == timestamp
                }
            &&& out.abstentions.len() == held.len()
            &&& forall|i: int|
                0 <= i < held.len() ==> #[trigger] out.abstentions[i] == (
                    Some(held[i]),
                    AbstainReason::RateLimited,
                )
            &&& forall|id: Seq<char>|
                #![trigger after.dom().contains(id)]
                after.dom().contains(id) <==> s.limits.dom().contains(id) || free.contains(id)
            &&& forall|id: Seq<char>| #[trigger] free.contains(id) ==> after[id] == now
            &&& forall|id: Seq<char>|
                #![trigger after[id]]
                s.limits.dom().contains(id) && !free.contains(id) ==> after[id] == s.limits[id]
        }),
{
    lemma_proximal(s.turns, k);
    lemma_interrupted(
        s.turns[k].refs,
        s.limits,
        config.per_lesson_cooldown,
        now,
        event_uuid,
        timestamp,
    );
}

/// An interrupt that comes too late, or where the assistant spoke about no item, is no signal.
pub proof fn law_other_interrupts_say_nothing(
    s: StateModel,
    config: OrchestratorConfig,
    now: u64,
    event_uuid: Seq<char>,
    timestamp: Moment,
)
    requires
        !comes_soon(s, config.correction_window, now) || forall|k: int|
            !#[trigger] is_proximal(s.turns, k),
    ensures
        ({
            let (out, after) = interrupt_outcome(s, config, now, event_uuid, timestamp);
            &&& out.signals.len() == 0
            &&& out.abstentions == seq![(None::<Seq<char>>, AbstainReason::NoProximalReference)]
            &&& after == s.limits
        }),
{
    if proximal_refs(s.turns) is Some {
        let k = lemma_proximal_at(s.turns);
        assert(is_proximal(s.turns, k));
    }
}

proof fn lemma_noted_only(
    limits: Map<Seq<char>, u64>,
    signals: Seq<SignalModel>,
    now: u64,
    id: Seq<char>,
)
    requires
        forall|i: int| 0 <= i < signals.len() ==> (#[trigger] signals[i]).item_id != id,
    ensures
        noted(limits, signals, now).dom().contains(id) <==> limits.dom().contains(id),
        limits.dom().contains(id) ==> noted(limits, signals, now)[id] == limits[id],
    decreases signals.len(),
{
    if signals.len() > 0 {
        let rest = signals.drop_last();
        assert(signals[signals.len() - 1] == signals.last());
        assert forall|i: int| 0 <= i < rest.len() implies (#[trigger] rest[i]).item_id != id by {
            assert(rest[i] == signals[i]);
        }
        lemma_noted_only(limits, rest, now, id);
    }
}

/// Once a turn is worked off, exactly the items with a signal are held back from `now` on; the
/// session waits for nothing, has one more turn behind it, and is otherwise as it was.
pub proof fn law_a_turn_is_settled(s: StateModel, out: OutputModel, now: u64, id: Seq<char>)
    requires
        s.turn_count < u64::MAX,
    ensures
        ({
            let after = settled(s, out, now);
            let has_signal = exists|i: int|
                0 <= i < out.signals.len() && (#[trigger] out.signals[i]).item_id == id;
            &&& has_signal ==> after.limits.dom().contains(id) && after.limits[id] == now
            &&& !has_signal ==> after.limits.dom().contains(id) == s.limits.dom().contains(id)
            &&& !has_signal && s.limits.dom().contains(id) ==> after.limits[id] == s.limits[id]
            &&& after.phase is None
            &&& after.turn_count == s.turn_count + 1
            &&& after.turns == s.turns
            &&& after.items == s.items
            &&& after.last_assistant == s.last_assistant
        }),
{
    if exists|i: int| 0 <= i < out.signals.len() && (#[trigger] out.signals[i]).item_id == id {
        let i = choose|i: int|
            0 <= i < out.signals.len() && (#[trigger] out.signals[i]).item_id == id;
        lemma_noted(s.limits, out.signals, now, i);
    } else {
        lemma_noted_only(s.limits, out.signals, now, id);
    }
}

/// A user turn is remembered like any other, about no item, and its session waits for the
/// classifier.
pub proof fn law_a_user_turn_awaits_the_classifier(
    s: StateModel,
    capacity: nat,
    text: Seq<char>,
    now: u64,
)
    ensures
        ({
            let turn = TurnModel { role: TurnRole::User, text, refs: seq![] };
            let all = s.turns.push(turn);
            let after = awaiting(s, capacity, text, now);
            let gone = all.len() - after.turns.len();
            &&& after.phase == Some((text, now))
            &&& all.len() <= capacity ==> gone == 0
            &&& all.len() > capacity ==> after.turns.len() == capacity
            &&& forall|i: int|
                0 <= i < after.turns.len() ==> #[trigger] after.turns[i] == all[gone + i]
            &&& after.limits == s.limits
            &&& after.turn_count == s.turn_count
            &&& after.items == s.items
            &&& after.last_assistant == s.last_assistant
        }),
{
    law_the_last_turns_are_kept(s, capacity, user_turn(text), now);
}

/// The tripwire catches exactly the versions before the first or after the last tested one, and
/// only where it is set to abstain. A turn without a version is never caught.
pub proof fn law_untested_versions_are_caught(
    policy: &HostVersionPolicy,
    version: &Option<String>,
    r: Option<OrchestratorOutput>,
)
    requires
        call_ensures(check_host_version, (policy, version), r),
    ensures
        r is Some <==> policy.action == HostVersionAction::Abstain && version is Some
            && policy.tested_range is Some && (text_less(
            version->0@,
            policy.tested_range->0.first@,
        ) || text_less(policy.tested_range->0.last@, version->0@)),
        r matches Some(out) ==> out@.signals.len() == 0 && out@.abstentions == seq![
            (None::<Seq<char>>, AbstainReason::UntestedHostVersion),
        ],
{
}

/// However often the assistant named an item, an interrupt gives it at most one signal while there
/// is a cooldown; every mention is accounted for, and every item that was not held back before has
/// its signal.
pub proof fn law_an_interrupt_hits_each_item_once(
    ids: Seq<Seq<char>>,
    limits: Map<Seq<char>, u64>,
    cooldown: u64,
    now: u64,
    event_uuid: Seq<char>,
    timestamp: Moment,
)
    requires
        cooldown > 0,
    ensures
        ({
            let (out, after) = interrupted(ids, limits, cooldown, now, event_uuid, timestamp);
            &&& out.signals.len() + out.abstentions.len() == ids.len()
            &&& forall|i: int, j: int|
                0 <= i < j < out.signals.len() ==> (#[trigger] out.signals[i]).item_id != (
                #[trigger] out.signals[j]).item_id
            &&& forall|i: int|
                0 <= i < out.signals.len() ==> ids.contains((#[trigger] out.signals[i]).item_id)
                    && !is_limited(limits, out.signals[i].item_id, cooldown, now)
            &&& forall|i: int|
                #![trigger ids[i]]
                0 <= i < ids.len() && !is_limited(limits, ids[i], cooldown, now) ==> exists|k: int|
                    0 <= k < out.signals.len() && (#[trigger] out.signals[k]).item_id == ids[i]
            &&& forall|id: Seq<char>| #[trigger]
                is_limited(after, id, cooldown, now) <==> is_limited(limits, id, cooldown, now)
                    || ids.contains(id)
        }),
    decreases ids.len(),
{
    if ids.len() == 0 {
        assert forall|id: Seq<char>| !(#[trigger] ids.contains(id)) by {}
    } else {
        let rest = ids.drop_last();
        let last = ids.last();
        law_an_interrupt_hits_each_item_once(rest, limits, cooldown, now, event_uuid, timestamp);
        let (before, mid) = interrupted(rest, limits, cooldown, now, event_uuid, timestamp);
        let (out, after) = interrupted(ids, limits, cooldown, now, event_uuid, timestamp);
        assert(ids[ids.len() - 1] == last);
        assert(ids.contains(last));
        assert forall|id: Seq<char>| #[trigger]
            ids.contains(id) <==> rest.contains(id) || id == last by {
            if ids.contains(id) {
                let i = choose|i: int| 0 <= i < ids.len() && ids[i] == id;
                if i < rest.len() {
                    assert(rest[i] == id);
                }
            }
            if rest.contains(id) {
                let i = choose|i: int| 0 <= i < rest.len() && rest[i] == id;
                assert(ids[i] == id);
            }
        }
        if is_limited(mid, last, cooldown, now) {
            assert(out.signals == before.signals);
            assert(is_limited(limits, last, cooldown, now) || rest.contains(last));
            assert forall|id: Seq<char>| #[trigger]
                is_limited(after, id, cooldown, now) <==> is_limited(limits, id, cooldown, now)
                    || ids.contains(id) by {
                assert(is_limited(mid, id, cooldown, now) <==> is_limited(
                    limits,
                    id,
                    cooldown,
                    now,
                ) || rest.contains(id));
            }
            assert forall|i: int|
                #![trigger ids[i]]
                0 <= i < ids.len() && !is_limited(limits, ids[i], cooldown, now) implies exists|
                k: int,
            |
                0 <= k < out.signals.len() && (#[trigger] out.signals[k]).item_id == ids[i] by {
                if i < rest.len() {
                    assert(rest[i] == ids[i]);
                } else {
                    assert(rest.contains(last));
                    let n = choose|n: int| 0 <= n < rest.len() && rest[n] == last;
                    assert(!is_limited(limits, rest[n], cooldown, now));
                }
            }
        } else {
            assert(!rest.contains(last));
            let n = before.signals.len() as int;
            assert(out.signals[n].item_id == last);
            assert forall|i: int| 0 <= i < n implies #[trigger] out.signals[i]
                == before.signals[i] by {}
            assert forall|i: int, j: int| 0 <= i < j < out.signals.len() implies (
            #[trigger] out.signals[i]).item_id != (#[trigger] out.signals[j]).item_id by {
                assert(out.signals[i] == before.signals[i]);
                assert(rest.contains(before.signals[i].item_id));
            }
            assert forall|i: int| 0 <= i < out.signals.len() implies ids.contains(
                (#[trigger] out.signals[i]).item_id,
            ) && !is_limited(limits, out.signals[i].item_id, cooldown, now) by {
                if i < n {
                    assert(out.signals[i] == before.signals[i]);
                    assert(rest.contains(before.signals[i].item_id));
                }
            }
            assert(is_limited(after, last, cooldown, now));
            assert forall|id: Seq<char>| #[trigger]
                is_limited(after, id, cooldown, now) <==> is_limited(limits, id, cooldown, now)
                    || ids.contains(id) by {
                assert(is_limited(mid, id, cooldown, now) <==> is_limited(
                    limits,
                    id,
                    cooldown,
                    now,
                ) || rest.contains(id));
            }
            assert forall|i: int|
                #![trigger ids[i]]
                0 <= i < ids.len() && !is_limited(limits, ids[i], cooldown, now) implies exists|
                k: int,
            |
                0 <= k < out.signals.len() && (#[trigger] out.signals[k]).item_id == ids[i] by {
                if i < rest.len() {
                    assert(rest[i] == ids[i]);
                    let k = choose|k: int|
                        0 <= k < before.signals.len() && (#[trigger] before.signals[k]).item_id
                            == rest[i];
                    assert(out.signals[k].item_id == ids[i]);
                }
            }
        }
    }
}

} // verus!
