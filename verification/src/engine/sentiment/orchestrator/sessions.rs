//! All sessions of the engine.
//!
//! An event is worked off in one step, or in two where the classifier has to be asked in between.
//! Nothing is held while it is asked: the session may be gone when it answers.

use dashmap::DashMap;
use vstd::prelude::*;

use super::config::OrchestratorConfig;
use super::derive::{derive_signals, derived, setting};
use super::session::{
    awaiting, begin_user_turn, check_host_version, classifier_failed, finish_user_turn,
    handle_user_interrupt, interrupt_outcome, law_a_turn_is_settled,
    law_a_user_turn_awaits_the_classifier, session_recycled, settled, tripped,
};
use super::state::{RateLimits, SessionState, StateModel, fresh, with_turn};
use crate::engine::clock::Moment;
use crate::engine::events::EngineEvent;
use crate::engine::sentiment::classifier::ClassifierError;
use crate::engine::sentiment::signals::{AbstainReason, OrchestratorOutput, OutputModel, silent};
use crate::engine::sentiment::types::{
    ClassificationRequest, LoadedItem, LoadedItemId, RawClassification, TurnModel, TurnRole,
    id_texts, item_models, turn_models,
};
use crate::text::opt_text;

verus! {

/// The concurrent map of the `dashmap` crate. Here it is only changed through exclusive references.
#[verifier::external_type_specification]
#[verifier::external_body]
#[verifier::reject_recursive_types(K)]
#[verifier::reject_recursive_types(V)]
#[verifier::reject_recursive_types(S)]
pub struct ExDashMap<K, V, S>(DashMap<K, V, S>);

/// What a `DashMap` of sessions holds, by the text of the key.
pub uninterp spec fn held(sessions: DashMap<String, SessionState>) -> Map<Seq<char>, SessionState>;

/// Calls `DashMap::new`: the map holds nothing.
#[verifier::external_body]
fn no_sessions() -> (m: DashMap<String, SessionState>)
    ensures
        (held(m) == Map::<Seq<char>, SessionState>::empty()),
{
    DashMap::new()
}

/// Calls `DashMap::len`: as many as there are keys.
#[verifier::external_body]
fn count_sessions(m: &DashMap<String, SessionState>) -> (n: usize)
    ensures
        n == held(*m).dom().len(),
{
    m.len()
}

/// Calls `DashMap::remove` and hands out the value: that of the key, if there was one. The key is
/// gone, everything else stays.
#[verifier::external_body]
fn take_session(m: &mut DashMap<String, SessionState>, id: &str) -> (r: Option<SessionState>)
    ensures
        held(*final(m)) == held(*old(m)).remove(id@),
        match r {
            Some(s) => held(*old(m)).dom().contains(id@) && s == held(*old(m))[id@],
            None => !held(*old(m)).dom().contains(id@),
        },
{
    m.remove(id).map(|entry| entry.1)
}

/// Calls `DashMap::insert`: the key has the value, everything else stays. The value that it had is
/// handed out.
#[verifier::external_body]
fn put_session(m: &mut DashMap<String, SessionState>, id: &str, s: SessionState) -> (r: Option<
    SessionState,
>)
    ensures
        held(*final(m)) == held(*old(m)).insert(id@, s),
        match r {
            Some(before) => held(*old(m)).dom().contains(id@) && before == held(*old(m))[id@],
            None => !held(*old(m)).dom().contains(id@),
        },
{
    m.insert(id.to_owned(), s)
}

/// The sessions and the tunables.
#[derive(Debug)]
pub struct Orchestrator {
    config: OrchestratorConfig,
    sessions: DashMap<String, SessionState>,
}

/// The model of all sessions.
pub type Sessions = Map<Seq<char>, StateModel>;

impl View for Orchestrator {
    type V = Sessions;

    closed spec fn view(&self) -> Sessions {
        held(self.sessions).map_values(|s: SessionState| s@)
    }
}

/// The state of a session; a fresh one where it is not known.
pub open spec fn state_of(sessions: Sessions, id: Seq<char>) -> StateModel {
    if sessions.dom().contains(id) {
        sessions[id]
    } else {
        fresh()
    }
}

/// What an event asks of the host.
#[derive(Debug)]
pub enum EventStep {
    /// The event is worked off.
    Done(OrchestratorOutput),
    /// The classifier is to be asked this.
    Classify(ClassificationRequest),
}

/// The sessions after the first step of an event in the session `id`.
pub open spec fn after_event(
    config: OrchestratorConfig,
    sessions: Sessions,
    id: Seq<char>,
    event: EngineEvent,
    now: u64,
    timestamp: Moment,
) -> Sessions {
    match event {
        EngineEvent::UserTurn { text, host_version, .. } => if tripped(
            config.host_version_policy,
            opt_text(host_version),
        ) {
            sessions
        } else {
            sessions.insert(
                id,
                awaiting(state_of(sessions, id), config.recent_turn_capacity as nat, text@, now),
            )
        },
        EngineEvent::UserInterrupt { event_uuid, .. } => {
            let s = state_of(sessions, id);
            sessions.insert(
                id,
                StateModel {
                    limits: interrupt_outcome(s, config, now, event_uuid@, timestamp).1,
                    turn_count: (s.turn_count + 1) as u64,
                    ..s
                },
            )
        },
        EngineEvent::SessionEnded { session_id } => sessions.remove(session_id@),
        EngineEvent::SessionStarted { .. } => sessions,
    }
}

/// Whether the step is the right one for the event.
pub open spec fn is_step(
    config: OrchestratorConfig,
    sessions: Sessions,
    id: Seq<char>,
    event: EngineEvent,
    now: u64,
    timestamp: Moment,
    step: EventStep,
) -> bool {
    match event {
        EngineEvent::UserTurn { text, host_version, .. } => if tripped(
            config.host_version_policy,
            opt_text(host_version),
        ) {
            step matches EventStep::Done(out) && out@ == silent(AbstainReason::UntestedHostVersion)
        } else {
            &&& step matches EventStep::Classify(request)
            &&& request.utterance@ == text@
            &&& item_models(request.loaded_items@) == state_of(sessions, id).items
            &&& turn_models(request.recent_turns@) == awaiting(
                state_of(sessions, id),
                config.recent_turn_capacity as nat,
                text@,
                now,
            ).turns
        },
        EngineEvent::UserInterrupt { event_uuid, .. } => step matches EventStep::Done(out) && out@
            == interrupt_outcome(state_of(sessions, id), config, now, event_uuid@, timestamp).0,
        _ => step matches EventStep::Done(out) && out@ == (OutputModel {
            signals: seq![],
            abstentions: seq![],
        }),
    }
}

/// What the classifier's answer leads to, and the sessions after it.
pub open spec fn after_answer(
    config: OrchestratorConfig,
    sessions: Sessions,
    id: Seq<char>,
    request: ClassificationRequest,
    answer: Result<RawClassification, ClassifierError>,
    event_uuid: Seq<char>,
    now: u64,
    timestamp: Moment,
) -> (Sessions, OutputModel) {
    match answer {
        Err(_) => (
            if sessions.dom().contains(id) {
                sessions.insert(id, StateModel { phase: None, ..sessions[id] })
            } else {
                sessions
            },
            silent(AbstainReason::ClassifierAbstained),
        ),
        Ok(raw) => if sessions.dom().contains(id) {
            let s = sessions[id];
            let out = derived(
                raw,
                setting(raw, request, s.limits, config, now, event_uuid, timestamp),
            );
            (sessions.insert(id, settled(s, out, now)), out)
        } else {
            (sessions, silent(AbstainReason::SessionRecycled))
        },
    }
}

impl Orchestrator {
    pub closed spec fn tunables(self) -> OrchestratorConfig {
        self.config
    }

    pub fn new(config: OrchestratorConfig) -> (o: Orchestrator)
        ensures
            o.tunables() == config,
            o@ == Map::<Seq<char>, StateModel>::empty(),
    {
        let o = Orchestrator { config, sessions: no_sessions() };
        proof {
            assert(o@ =~= Map::<Seq<char>, StateModel>::empty());
        }
        o
    }

    /// How many sessions there are.
    pub fn session_count(&self) -> (n: usize)
        ensures
            n == self@.dom().len(),
    {
        proof {
            assert(self@.dom() =~= held(self.sessions).dom());
        }
        count_sessions(&self.sessions)
    }

    /// The state of a session, which is made if it is not known.
    fn take_state(&mut self, id: &str) -> (s: SessionState)
        ensures
            final(self).tunables() == old(self).tunables(),
            final(self)@ == old(self)@.remove(id@),
            s@ == state_of(old(self)@, id@),
    {
        let taken = take_session(&mut self.sessions, id);
        proof {
            assert(self@ =~= old(self)@.remove(id@));
        }
        match taken {
            Some(s) => s,
            None => SessionState::default(),
        }
    }

    fn put_state(&mut self, id: &str, s: SessionState)
        ensures
            final(self).tunables() == old(self).tunables(),
            final(self)@ == old(self)@.insert(id@, s@),
    {
        let _ = put_session(&mut self.sessions, id, s);
        proof {
            assert(self@ =~= old(self)@.insert(id@, s@));
        }
    }

    /// Replaces the manifest of a session.
    pub fn update_manifest(&mut self, session_id: &str, items: Vec<LoadedItem>)
        ensures
            final(self).tunables() == old(self).tunables(),
            final(self)@ == old(self)@.insert(
                session_id@,
                (StateModel {
                    items: item_models(items@),
                    ..state_of(old(self)@, session_id@)
                }),
            ),
    {
        let ghost before = self@;
        let mut s = self.take_state(session_id);
        super::session::update_manifest(&mut s, items);
        let ghost m = s@;
        self.put_state(session_id, s);
        proof {
            assert(self@ =~= before.insert(session_id@, m));
        }
    }

    /// Records an assistant turn of a session.
    pub fn push_assistant_turn(
        &mut self,
        session_id: &str,
        text: String,
        referenced_items: Vec<LoadedItemId>,
        now: u64,
    )
        ensures
            final(self).tunables() == old(self).tunables(),
            final(self)@ == old(self)@.insert(
                session_id@,
                with_turn(
                    state_of(old(self)@, session_id@),
                    old(self).tunables().recent_turn_capacity as nat,
                    (TurnModel {
                        role: TurnRole::Assistant,
                        text: text@,
                        refs: id_texts(referenced_items@),
                    }),
                    now,
                ),
            ),
    {
        let ghost before = self@;
        let mut s = self.take_state(session_id);
        super::session::push_assistant_turn(&mut s, &self.config, text, referenced_items, now);
        let ghost m = s@;
        self.put_state(session_id, s);
        proof {
            assert(self@ =~= before.insert(session_id@, m));
        }
    }

    /// Whether one more turn of a session can be counted.
    pub fn can_count_turn(&mut self, session_id: &str) -> (b: bool)
        ensures
            final(self).tunables() == old(self).tunables(),
            final(self)@ == old(self)@,
            b == (state_of(old(self)@, session_id@).turn_count < u64::MAX),
    {
        let ghost before = self@;
        match take_session(&mut self.sessions, session_id) {
            Some(s) => {
                let b = s.turn_count < u64::MAX;
                self.put_state(session_id, s);
                proof {
                    assert(self@ =~= before);
                }
                b
            },
            None => {
                proof {
                    assert(self@ =~= before);
                }
                true
            },
        }
    }

    /// The first step of an event that came with the session `session_id`.
    pub fn process_event(
        &mut self,
        session_id: &str,
        event: &EngineEvent,
        now: u64,
        timestamp: Moment,
    ) -> (step: EventStep)
        requires
            event is UserInterrupt ==> state_of(old(self)@, session_id@).turn_count < u64::MAX,
        ensures
            final(self).tunables() == old(self).tunables(),
            final(self)@ == after_event(
                old(self).tunables(),
                old(self)@,
                session_id@,
                *event,
                now,
                timestamp,
            ),
            is_step(
                old(self).tunables(),
                old(self)@,
                session_id@,
                *event,
                now,
                timestamp,
                step,
            ),
    {
        let ghost before = self@;
        match event {
            EngineEvent::UserTurn { text, host_version, .. } => {
                if let Some(out) = check_host_version(
                    &self.config.host_version_policy,
                    host_version,
                ) {
                    return EventStep::Done(out);
                }
                let mut s = self.take_state(session_id);
                let request = begin_user_turn(&mut s, &self.config, text.as_str(), now);
                let ghost m = s@;
                self.put_state(session_id, s);
                proof {
                    assert(self@ =~= before.insert(session_id@, m));
                }
                EventStep::Classify(request)
            },
            EngineEvent::UserInterrupt { event_uuid, .. } => {
                let mut s = self.take_state(session_id);
                let out = handle_user_interrupt(
                    &mut s,
                    &self.config,
                    event_uuid.as_str(),
                    now,
                    timestamp,
                );
                let ghost m = s@;
                self.put_state(session_id, s);
                proof {
                    assert(self@ =~= before.insert(session_id@, m));
                }
                EventStep::Done(out)
            },
            EngineEvent::SessionEnded { session_id: ended } => {
                let _ = take_session(&mut self.sessions, ended.as_str());
                let out = OrchestratorOutput::empty();
                proof {
                    assert(self@ =~= before.remove(ended@));
                    assert(out@ =~= OutputModel { signals: seq![], abstentions: seq![] });
                }
                EventStep::Done(out)
            },
            EngineEvent::SessionStarted { .. } => {
                let out = OrchestratorOutput::empty();
                proof {
                    assert(out@ =~= OutputModel { signals: seq![], abstentions: seq![] });
                }
                EventStep::Done(out)
            },
        }
    }

    /// The second step of a user turn: takes in what the classifier answered to `request`. A session
    /// that ended meanwhile stays ended.
    pub fn take_answer(
        &mut self,
        session_id: &str,
        request: &ClassificationRequest,
        answer: Result<RawClassification, ClassifierError>,
        event_uuid: &str,
        now: u64,
        timestamp: Moment,
    ) -> (out: OrchestratorOutput)
        requires
            answer is Ok && old(self)@.dom().contains(session_id@) ==> old(
                self,
            )@[session_id@].turn_count < u64::MAX,
        ensures
            final(self).tunables() == old(self).tunables(),
            (final(self)@, out@) == after_answer(
                old(self).tunables(),
                old(self)@,
                session_id@,
                *request,
                answer,
                event_uuid@,
                now,
                timestamp,
            ),
    {
        let ghost before = self@;
        let taken = take_session(&mut self.sessions, session_id);
        let mut s = match taken {
            Some(s) => s,
            None => {
                proof {
                    assert(self@ =~= before);
                }
                return match answer {
                    Ok(_) => session_recycled(),
                    Err(_) => OrchestratorOutput::abstained(AbstainReason::ClassifierAbstained),
                };
            },
        };
        proof {
            assert(s@ == before[session_id@]);
        }
        let out = match &answer {
            Ok(raw) => finish_user_turn(
                &mut s,
                &self.config,
                raw,
                request,
                event_uuid,
                now,
                timestamp,
            ),
            Err(_) => classifier_failed(&mut s),
        };
        let ghost m = s@;
        self.put_state(session_id, s);
        proof {
            assert(self@ =~= before.insert(session_id@, m));
        }
        out
    }
}

// ---- Laws --------------------------------------------------------------------

/// What happens in one session leaves every other as it is, except that a session that ended is
/// forgotten.
pub proof fn law_sessions_are_independent(
    config: OrchestratorConfig,
    sessions: Sessions,
    id: Seq<char>,
    event: EngineEvent,
    now: u64,
    timestamp: Moment,
    other: Seq<char>,
)
    requires
        other != id,
        !(event is SessionEnded),
    ensures
        ({
            let after = after_event(config, sessions, id, event, now, timestamp);
            &&& after.dom().contains(other) == sessions.dom().contains(other)
            &&& sessions.dom().contains(other) ==> after[other] == sessions[other]
        }),
{
}

/// An answer for a session that has ended does not bring it back.
pub proof fn law_ended_sessions_stay_ended(
    config: OrchestratorConfig,
    sessions: Sessions,
    id: Seq<char>,
    request: ClassificationRequest,
    answer: Result<RawClassification, ClassifierError>,
    event_uuid: Seq<char>,
    now: u64,
    timestamp: Moment,
)
    requires
        !sessions.dom().contains(id),
    ensures
        ({
            let (after, out) = after_answer(
                config,
                sessions,
                id,
                request,
                answer,
                event_uuid,
                now,
                timestamp,
            );
            after == sessions && out.signals.len() == 0
        }),
{
}

/// A user turn that the tripwire lets through is put to the classifier as it stands after the turn
/// is remembered; only its own session changes.
pub proof fn law_a_user_turn_is_put_to_the_classifier(
    config: OrchestratorConfig,
    sessions: Sessions,
    id: Seq<char>,
    event: EngineEvent,
    now: u64,
    timestamp: Moment,
    step: EventStep,
)
    requires
        event is UserTurn,
        !tripped(config.host_version_policy, opt_text(event->host_version)),
        is_step(config, sessions, id, event, now, timestamp, step),
    ensures
        ({
            let after = after_event(config, sessions, id, event, now, timestamp);
            let items = if sessions.dom().contains(id) {
                sessions[id].items
            } else {
                seq![]
            };
            &&& after.dom() == sessions.dom().insert(id)
            &&& forall|other: Seq<char>|
                #![trigger after[other]]
                other != id && sessions.dom().contains(other) ==> after[other] == sessions[other]
            &&& after[id].phase == Some((event->text@, now))
            &&& after[id].items == items
            &&& step is Classify
            &&& step->Classify_0.utterance@ == event->text@
            &&& item_models(step->Classify_0.loaded_items@) == items
            &&& turn_models(step->Classify_0.recent_turns@) == after[id].turns
            &&& config.recent_turn_capacity > 0 ==> {
                &&& after[id].turns.last().text == event->text@
                &&& after[id].turns.last().role == TurnRole::User
            }
        }),
{
    law_a_user_turn_awaits_the_classifier(
        state_of(sessions, id),
        config.recent_turn_capacity as nat,
        event->text@,
        now,
    );
    let after = after_event(config, sessions, id, event, now, timestamp);
    assert(after.dom() =~= sessions.dom().insert(id));
}

/// A turn that the tripwire catches leaves every session as it is, and so does the start of one;
/// the end of a session forgets that one and no other.
pub proof fn law_sessions_end_and_are_left_alone(
    config: OrchestratorConfig,
    sessions: Sessions,
    id: Seq<char>,
    event: EngineEvent,
    now: u64,
    timestamp: Moment,
    step: EventStep,
)
    requires
        is_step(config, sessions, id, event, now, timestamp, step),
    ensures
        event is UserTurn && tripped(config.host_version_policy, opt_text(event->host_version)) ==> {
            &&& after_event(config, sessions, id, event, now, timestamp) == sessions
            &&& step is Done
            &&& step->Done_0@.signals.len() == 0
            &&& step->Done_0@.abstentions == seq![
                (None::<Seq<char>>, AbstainReason::UntestedHostVersion),
            ]
        },
        event is SessionStarted ==> after_event(config, sessions, id, event, now, timestamp)
            == sessions,
        event matches EngineEvent::SessionEnded { session_id } ==> {
            let after = after_event(config, sessions, id, event, now, timestamp);
            &&& !after.dom().contains(session_id@)
            &&& forall|other: Seq<char>|
                #![trigger after.dom().contains(other)]
                other != session_id@ ==> after.dom().contains(other) == sessions.dom().contains(
                    other,
                ) && (sessions.dom().contains(other) ==> after[other] == sessions[other])
        },
        event is SessionStarted || event is SessionEnded ==> step is Done
            && step->Done_0@.signals.len() == 0 && step->Done_0@.abstentions.len() == 0,
{
}

/// An interrupt counts as a turn of its session, is decided by that session alone, and keeps its
/// turns, items and what it waits for.
pub proof fn law_an_interrupt_is_a_turn_of_its_session(
    config: OrchestratorConfig,
    sessions: Sessions,
    id: Seq<char>,
    event: EngineEvent,
    now: u64,
    timestamp: Moment,
    step: EventStep,
)
    requires
        event is UserInterrupt,
        sessions.dom().contains(id),
        sessions[id].turn_count < u64::MAX,
        is_step(config, sessions, id, event, now, timestamp, step),
    ensures
        ({
            let after = after_event(config, sessions, id, event, now, timestamp);
            let (out, limits) = interrupt_outcome(
                sessions[id],
                config,
                now,
                event->UserInterrupt_event_uuid@,
                timestamp,
            );
            &&& step is Done
            &&& step->Done_0@ == out
            &&& after.dom() == sessions.dom()
            &&& after[id].limits == limits
            &&& after[id].turn_count == sessions[id].turn_count + 1
            &&& after[id].turns == sessions[id].turns
            &&& after[id].items == sessions[id].items
            &&& after[id].phase == sessions[id].phase
            &&& after[id].last_assistant == sessions[id].last_assistant
        }),
{
    let after = after_event(config, sessions, id, event, now, timestamp);
    assert(after.dom() =~= sessions.dom());
}

/// An answer of the classifier leads to the signals that follow from it and the session, and to no
/// others; a failed one to none, and the session waits no longer.
pub proof fn law_an_answer_leads_to_its_signals(
    config: OrchestratorConfig,
    sessions: Sessions,
    id: Seq<char>,
    request: ClassificationRequest,
    answer: Result<RawClassification, ClassifierError>,
    event_uuid: &str,
    now: u64,
    timestamp: Moment,
    limits: RateLimits,
    o: OrchestratorOutput,
)
    requires
        sessions.dom().contains(id),
        sessions[id].turn_count < u64::MAX,
        limits@ == sessions[id].limits,
        answer matches Ok(raw) ==> call_ensures(
            derive_signals,
            (&raw, &request, &limits, &config, now, event_uuid, timestamp),
            o,
        ),
    ensures
        ({
            let (after, out) = after_answer(
                config,
                sessions,
                id,
                request,
                answer,
                event_uuid@,
                now,
                timestamp,
            );
            &&& after.dom() == sessions.dom()
            &&& after[id].phase is None
            &&& after[id].turns == sessions[id].turns
            &&& after[id].items == sessions[id].items
            &&& forall|other: Seq<char>|
                #![trigger after[other]]
                other != id && sessions.dom().contains(other) ==> after[other] == sessions[other]
            &&& answer is Ok ==> {
                &&& out == o@
                &&& after[id].turn_count == sessions[id].turn_count + 1
                &&& forall|i: int|
                    0 <= i < out.signals.len() ==> after[id].limits.dom().contains(
                        (#[trigger] out.signals[i]).item_id,
                    ) && after[id].limits[out.signals[i].item_id] == now
            }
            &&& answer is Err ==> {
                &&& out.signals.len() == 0
                &&& out.abstentions == seq![
                    (None::<Seq<char>>, AbstainReason::ClassifierAbstained),
                ]
                &&& after[id].limits == sessions[id].limits
                &&& after[id].turn_count == sessions[id].turn_count
            }
        }),
{
    let (after, out) = after_answer(
        config,
        sessions,
        id,
        request,
        answer,
        event_uuid@,
        now,
        timestamp,
    );
    assert(after.dom() =~= sessions.dom());
    if answer is Ok {
        assert forall|i: int| 0 <= i < out.signals.len() implies after[id].limits.dom().contains(
            (#[trigger] out.signals[i]).item_id,
        ) && after[id].limits[out.signals[i].item_id] == now by {
            law_a_turn_is_settled(sessions[id], out, now, out.signals[i].item_id);
        }
    }
}

} // verus!
