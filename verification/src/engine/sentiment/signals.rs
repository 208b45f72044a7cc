//! What the orchestrator puts out: signals, and reasons for keeping silent. How a signal is
//! recorded.

use vstd::prelude::*;

use crate::engine::clock::{Moment, rfc3339_text, to_rfc3339};
use crate::engine::context::Context;
use crate::engine::storage::StorageKey;
use crate::engine::storage::key::{
    is_canonical_text, is_stem_text, lemma_routed_head, routed, routes_inside,
};
use crate::text::{
    concat2, concat3, has_prefix, has_suffix, law_a_part_occurs_in_the_whole, occurs_in, same_text,
    texts,
};
use super::types::{
    AttributionMethod, CalibratedConfidence, Hazard, LoadedItemId, Polarity,
};

verus! {

/// Feedback about a loaded item.
#[derive(Debug, Clone, PartialEq, Eq)]
pub struct SentimentSignal {
    pub item_id: LoadedItemId,
    pub polarity: Polarity,
    pub calibrated_confidence: CalibratedConfidence,
    pub attribution_method: AttributionMethod,
    pub detected_hazards: Vec<Hazard>,
    pub source_event_uuid: String,
    pub timestamp: Moment,
}

/// The model of a signal.
#[verifier::ext_equal]
pub struct SignalModel {
    pub item_id: Seq<char>,
    pub polarity: Polarity,
    pub confidence: u32,
    pub method: AttributionMethod,
    pub hazards: Seq<Hazard>,
    pub event_uuid: Seq<char>,
    pub timestamp: Moment,
}

impl View for SentimentSignal {
    type V = SignalModel;

    open spec fn view(&self) -> SignalModel {
        SignalModel {
            item_id: self.item_id@,
            polarity: self.polarity,
            confidence: self.calibrated_confidence.bits(),
            method: self.attribution_method,
            hazards: self.detected_hazards@,
            event_uuid: self.source_event_uuid@,
            timestamp: self.timestamp,
        }
    }
}

/// The models of a list of signals.
pub open spec fn signal_models(v: Seq<SentimentSignal>) -> Seq<SignalModel> {
    v.map_values(|s: SentimentSignal| s@)
}

/// Why no signal was emitted, for one item or for the whole event.
#[derive(Debug, Clone, Copy, PartialEq, Eq, Structural)]
#[non_exhaustive]
pub enum AbstainReason {
    /// The utterance has no sentiment to act on.
    PretriggerNotFired,
    /// The classifier had nothing to say, or failed.
    ClassifierAbstained,
    /// The confidence is below what its polarity asks for. Both are single-precision bit
    /// patterns.
    BelowThreshold { polarity: Polarity, observed: u32, required: u32 },
    /// One of the hazards that rule a signal out.
    HazardSet(Hazard),
    /// Attribution found another item than the classifier named.
    AttributionMismatch,
    /// Attribution found nothing.
    AttributionAbstained,
    /// The item had a signal a moment ago.
    RateLimited,
    /// Neutral is never emitted.
    Neutral,
    /// An interrupt without an assistant turn that it could be about.
    NoProximalReference,
    /// The session ended while the classifier was at work.
    SessionRecycled,
    /// The host's version is outside the tested range.
    UntestedHostVersion,
}

/// What one event led to.
#[derive(Debug, Clone, PartialEq, Eq)]
pub struct OrchestratorOutput {
    pub signals: Vec<SentimentSignal>,
    pub abstentions: Vec<(Option<LoadedItemId>, AbstainReason)>,
}

/// The model of an abstention.
pub type AbstentionModel = (Option<Seq<char>>, AbstainReason);

/// The model of one abstention.
pub open spec fn abstention_model(a: (Option<LoadedItemId>, AbstainReason)) -> AbstentionModel {
    (
        match a.0 {
            Some(id) => Some(id@),
            None => None,
        },
        a.1,
    )
}

/// The models of a list of abstentions.
pub open spec fn abstention_models(
    v: Seq<(Option<LoadedItemId>, AbstainReason)>,
) -> Seq<AbstentionModel> {
    v.map_values(|a: (Option<LoadedItemId>, AbstainReason)| abstention_model(a))
}

/// The model of an output.
#[verifier::ext_equal]
pub struct OutputModel {
    pub signals: Seq<SignalModel>,
    pub abstentions: Seq<AbstentionModel>,
}

impl View for OrchestratorOutput {
    type V = OutputModel;

    open spec fn view(&self) -> OutputModel {
        OutputModel {
            signals: signal_models(self.signals@),
            abstentions: abstention_models(self.abstentions@),
        }
    }
}

/// The output that only gives one reason for the whole event.
pub open spec fn silent(reason: AbstainReason) -> OutputModel {
    OutputModel { signals: seq![], abstentions: seq![(None, reason)] }
}

impl Default for OrchestratorOutput {
    fn default() -> (o: OrchestratorOutput)
        ensures
            o.signals@.len() == 0,
            o.abstentions@.len() == 0,
    {
        OrchestratorOutput { signals: Vec::new(), abstentions: Vec::new() }
    }
}

impl OrchestratorOutput {
    pub fn empty() -> (o: OrchestratorOutput)
        ensures
            o.signals@.len() == 0,
            o.abstentions@.len() == 0,
    {
        OrchestratorOutput { signals: Vec::new(), abstentions: Vec::new() }
    }

    pub fn is_empty(&self) -> (b: bool)
        ensures
            b == (self.signals@.len() == 0 && self.abstentions@.len() == 0),
    {
        self.signals.len() == 0 && self.abstentions.len() == 0
    }

    /// An output that only gives one reason for the whole event.
    pub fn abstained(reason: AbstainReason) -> (o: OrchestratorOutput)
        ensures
            o@ == silent(reason),
    {
        let mut abstentions: Vec<(Option<LoadedItemId>, AbstainReason)> = Vec::new();
        abstentions.push((None, reason));
        let o = OrchestratorOutput { signals: Vec::new(), abstentions };
        proof {
            assert(o@ =~= silent(reason));
        }
        o
    }
}

impl SentimentSignal {
    /// A copy of this signal.
    pub fn duplicate(&self) -> (r: SentimentSignal)
        ensures
            r@ == self@,
    {
        let r = SentimentSignal {
            item_id: self.item_id.duplicate(),
            polarity: self.polarity,
            calibrated_confidence: self.calibrated_confidence,
            attribution_method: self.attribution_method,
            detected_hazards: clone_hazards(&self.detected_hazards),
            source_event_uuid: self.source_event_uuid.clone(),
            timestamp: self.timestamp,
        };
        proof {
            assert(r@ =~= self@);
        }
        r
    }
}

fn clone_hazards(v: &Vec<Hazard>) -> (out: Vec<Hazard>)
    ensures
        out@ == v@,
{
    let mut out: Vec<Hazard> = Vec::new();
    let mut i: usize = 0;
    while i < v.len()
        invariant
            i <= v.len(),
            out@ == v@.take(i as int),
        decreases v.len() - i,
    {
        out.push(v[i]);
        proof {
            assert(v@.take(i + 1) =~= v@.take(i as int).push(v@[i as int]));
        }
        i += 1;
    }
    proof {
        assert(v@.take(v@.len() as int) =~= v@);
    }
    out
}

/// Names of hazards, with commas between them.
pub open spec fn hazard_names(hazards: Seq<Hazard>) -> Seq<char>
    decreases hazards.len(),
{
    if hazards.len() == 0 {
        seq![]
    } else if hazards.len() == 1 {
        hazards[0].text()
    } else {
        hazard_names(hazards.drop_last()) + ", "@ + hazards.last().text()
    }
}

fn push_hazard_names(out: &mut String, hazards: &Vec<Hazard>)
    ensures
        final(out)@ == old(out)@ + hazard_names(hazards@),
{
    let ghost start = out@;
    let mut i: usize = 0;
    proof {
        assert(start + hazard_names(hazards@.take(0)) =~= start);
    }
    while i < hazards.len()
        invariant
            i <= hazards.len(),
            out@ == start + hazard_names(hazards@.take(i as int)),
        decreases hazards.len() - i,
    {
        let ghost next = hazards@.take(i + 1);
        proof {
            assert(next.drop_last() =~= hazards@.take(i as int));
            assert(next.last() == hazards@[i as int]);
        }
        if i > 0 {
            out.append(", ");
        }
        out.append(hazards[i].as_str());
        proof {
            assert(out@ =~= start + hazard_names(next));
        }
        i += 1;
    }
    proof {
        assert(hazards@.take(hazards@.len() as int) =~= hazards@);
    }
}

/// The file of a signal.
pub open spec fn signal_yaml(
    s: SignalModel,
    confidence: Seq<char>,
    timestamp: Seq<char>,
) -> Seq<char> {
    "item_id: "@ + s.item_id + "\npolarity: "@ + s.polarity.text() + "\ncalibrated_confidence: "@
        + confidence + "\nattribution_method: "@ + s.method.text() + "\ndetected_hazards: ["@
        + hazard_names(s.hazards) + "]\nsource_event_uuid: "@ + s.event_uuid + "\ntimestamp: "@
        + timestamp + "\n"@
}

/// Renders the file of a signal, with the texts of its confidence and its timestamp.
pub fn render_signal_yaml(s: &SentimentSignal, confidence: &str, timestamp: &str) -> (out: String)
    ensures
        out@ == signal_yaml(s@, confidence@, timestamp@),
{
    let mut out = "item_id: ".to_owned();
    out.append(s.item_id.as_str());
    out.append("\npolarity: ");
    out.append(s.polarity.as_str());
    out.append("\ncalibrated_confidence: ");
    out.append(confidence);
    out.append("\nattribution_method: ");
    out.append(s.attribution_method.as_str());
    out.append("\ndetected_hazards: [");
    push_hazard_names(&mut out, &s.detected_hazards);
    out.append("]\nsource_event_uuid: ");
    out.append(s.source_event_uuid.as_str());
    out.append("\ntimestamp: ");
    out.append(timestamp);
    out.append("\n");
    out
}

/// Direction in which a signal moves a lesson.
#[derive(Debug, Clone, Copy, PartialEq, Eq, Structural)]
pub enum SignalPolarity {
    Positive,
    Negative,
}

impl SignalPolarity {
    pub open spec fn tag_text(self) -> Seq<char> {
        match self {
            SignalPolarity::Positive => "sentiment_positive"@,
            SignalPolarity::Negative => "sentiment_negative"@,
        }
    }

    /// The source that the lesson notes.
    pub fn tag(self) -> (s: &'static str)
        ensures
            s@ == self.tag_text(),
    {
        match self {
            SignalPolarity::Positive => "sentiment_positive",
            SignalPolarity::Negative => "sentiment_negative",
        }
    }
}

/// Notes a source; each is noted once.
pub open spec fn noted(sources: Seq<Seq<char>>, tag: Seq<char>) -> Seq<Seq<char>> {
    if sources.contains(tag) {
        sources
    } else {
        sources.push(tag)
    }
}

/// Notes the source of a signal in a lesson's list.
pub fn note_source(sources: &mut Vec<String>, polarity: SignalPolarity)
    ensures
        texts(final(sources)@) == noted(texts(old(sources)@), polarity.tag_text()),
{
    let tag = polarity.tag();
    let ghost before = texts(sources@);
    let mut i: usize = 0;
    while i < sources.len()
        invariant
            i <= sources.len(),
            sources@ == old(sources)@,
            before == texts(sources@),
            tag@ == polarity.tag_text(),
            forall|j: int| 0 <= j < i ==> #[trigger] before[j] != tag@,
        decreases sources.len() - i,
    {
        if same_text(sources[i].as_str(), tag) {
            proof {
                assert(before[i as int] == tag@);
            }
            return;
        }
        i += 1;
    }
    sources.push(tag.to_owned());
    proof {
        assert(texts(sources@) =~= before.push(tag@));
    }
}

/// Noting a source a second time changes nothing.
pub proof fn law_noting_is_idempotent(sources: Seq<Seq<char>>, tag: Seq<char>)
    ensures
        noted(noted(sources, tag), tag) == noted(sources, tag),
        noted(sources, tag).contains(tag),
{
    assert(sources.push(tag)[sources.len() as int] == tag);
}

/// The direction of a polarity; neutral has none.
pub open spec fn direction(p: Polarity) -> Option<SignalPolarity> {
    match p {
        Polarity::Positive => Some(SignalPolarity::Positive),
        Polarity::Negative => Some(SignalPolarity::Negative),
        Polarity::Neutral => None,
    }
}

/// How a signal could not be recorded.
#[derive(Debug, Clone, PartialEq, Eq)]
#[non_exhaustive]
pub enum SignalWriteError {
    Backend(String),
}

impl SignalWriteError {
    pub open spec fn text(self) -> Seq<char> {
        match self {
            SignalWriteError::Backend(e) => "signal write backend error: "@ + e@,
        }
    }

    /// Wraps the message of a backend failure.
    pub fn backend(err: String) -> (e: SignalWriteError)
        ensures
            e == SignalWriteError::Backend(err),
    {
        SignalWriteError::Backend(err)
    }

    /// The message shown for this error.
    pub fn message(&self) -> (m: String)
        ensures
            m@ == self.text(),
    {
        match self {
            SignalWriteError::Backend(e) => concat2("signal write backend error: ", e.as_str()),
        }
    }
}

/// The two writes that record a signal: a file of its own, made once and never overwritten, and
/// after it, where the signal has a direction, a source noted in the lesson.
#[derive(Debug)]
pub struct SignalRecord {
    pub key: StorageKey,
    pub body: String,
    pub lesson: Option<SignalPolarity>,
}

/// Whether there is a key for the record of a signal.
pub open spec fn has_key(ctx: Context, event_uuid: Seq<char>) -> bool {
    routes_inside(ctx) && is_canonical_text(ctx.session_id@) && is_stem_text(event_uuid)
}

/// Plans the writes for a signal, given the text of its confidence. There are none where session and
/// event are not fit for a key, or where the timestamp cannot be written.
pub fn plan_record(ctx: &Context, signal: &SentimentSignal, confidence: &str) -> (r: Result<
    SignalRecord,
    SignalWriteError,
>)
    ensures
        ({
            let ts = rfc3339_text(signal.timestamp.secs, signal.timestamp.nanos);
            match r {
                Ok(record) => {
                    &&& has_key(*ctx, signal@.event_uuid)
                    &&& ts is Some
                    &&& record.key@ == routed(
                        *ctx,
                        "signals/"@ + ctx.session_id@ + "/"@ + signal@.event_uuid + ".yaml"@,
                    )
                    &&& record.body@ == signal_yaml(signal@, confidence@, ts->0)
                    &&& record.lesson == direction(signal.polarity)
                },
                Err(e) => e is Backend && if !has_key(*ctx, signal@.event_uuid) {
                    e->Backend_0@ == "no key for the signal of event "@ + signal@.event_uuid
                } else {
                    ts is None && e->Backend_0@ == "the timestamp of the signal is out of range"@
                },
            }
        }),
{
    if !StorageKey::routes(ctx) || !StorageKey::is_canonical(ctx.session_id.as_str())
        || !StorageKey::is_stem(signal.source_event_uuid.as_str()) {
        return Err(
            SignalWriteError::Backend(
                concat2("no key for the signal of event ", signal.source_event_uuid.as_str()),
            ),
        );
    }
    match to_rfc3339(signal.timestamp) {
        Some(ts) => Ok(
            SignalRecord {
                key: StorageKey::sentiment_signal(
                    ctx,
                    ctx.session_id.as_str(),
                    signal.source_event_uuid.as_str(),
                ),
                body: render_signal_yaml(signal, confidence, ts.as_str()),
                lesson: match signal.polarity {
                    Polarity::Positive => Some(SignalPolarity::Positive),
                    Polarity::Negative => Some(SignalPolarity::Negative),
                    Polarity::Neutral => None,
                },
            },
        ),
        None => Err(
            SignalWriteError::Backend("the timestamp of the signal is out of range".to_owned()),
        ),
    }
}

/// What is reported when the lesson could not be updated. The file of the signal stays.
pub fn aggregation_failed(signal: &SentimentSignal, error: &str) -> (e: SignalWriteError)
    ensures
        e is Backend,
        e->Backend_0@ == "lesson aggregation failed for "@ + signal@.item_id + ": "@ + error@,
{
    let mut m = concat3("lesson aggregation failed for ", signal.item_id.as_str(), ": ");
    m.append(error);
    SignalWriteError::Backend(m)
}

/// Takes the signals that the orchestrator emits.
pub trait SignalWriter {
    fn record(&mut self, ctx: &Context, signal: &SentimentSignal) -> (r: Result<
        (),
        SignalWriteError,
    >);
}

/// Keeps every signal in memory; can be told to fail once.
#[derive(Debug)]
pub struct MockSignalWriter {
    captured: Vec<SentimentSignal>,
    error: Option<SignalWriteError>,
}

impl Default for MockSignalWriter {
    fn default() -> (m: MockSignalWriter)
        ensures
            m.seen() == Seq::<SignalModel>::empty(),
            m.pending() is None,
    {
        let m = MockSignalWriter { captured: Vec::new(), error: None };
        proof {
            assert(m.seen() =~= Seq::<SignalModel>::empty());
        }
        m
    }
}

impl MockSignalWriter {
    /// The signals so far.
    pub closed spec fn seen(self) -> Seq<SignalModel> {
        signal_models(self.captured@)
    }

    /// The failure of the next call.
    pub closed spec fn pending(self) -> Option<SignalWriteError> {
        self.error
    }

    /// A copy of the signals so far.
    pub fn captured(&self) -> (out: Vec<SentimentSignal>)
        ensures
            signal_models(out@) == self.seen(),
    {
        let ghost all = self.seen();
        let mut out: Vec<SentimentSignal> = Vec::new();
        let mut i: usize = 0;
        while i < self.captured.len()
            invariant
                i <= self.captured.len(),
                all == signal_models(self.captured@),
                signal_models(out@) == all.take(i as int),
            decreases self.captured.len() - i,
        {
            out.push(self.captured[i].duplicate());
            proof {
                assert(signal_models(out@) =~= all.take(i as int).push(all[i as int]));
                assert(all.take(i + 1) =~= all.take(i as int).push(all[i as int]));
            }
            i += 1;
        }
        proof {
            assert(all.take(all.len() as int) =~= all);
        }
        out
    }

    /// Makes the next call fail.
    pub fn with_record_error(self, err: SignalWriteError) -> (m: MockSignalWriter)
        ensures
            m.pending() == Some(err),
            m.seen() == self.seen(),
    {
        MockSignalWriter { captured: self.captured, error: Some(err) }
    }

    /// Takes a pending failure back.
    pub fn clear_record_error(&mut self)
        ensures
            final(self).pending() is None,
            final(self).seen() == old(self).seen(),
    {
        self.error = None;
    }
}

impl SignalWriter for MockSignalWriter {
    fn record(&mut self, ctx: &Context, signal: &SentimentSignal) -> (r: Result<
        (),
        SignalWriteError,
    >)
        ensures
            final(self).pending() is None,
            match old(self).pending() {
                Some(e) => r == Err::<(), SignalWriteError>(e) && final(self).seen() == old(
                    self,
                ).seen(),
                None => r is Ok && final(self).seen() == old(self).seen().push(signal@),
            },
    {
        match self.error.take() {
            Some(e) => Err(e),
            None => {
                self.captured.push(signal.duplicate());
                proof {
                    assert(self.seen() =~= old(self).seen().push(signal@));
                }
                Ok(())
            },
        }
    }
}

/// The names of two lists of hazards are written one after the other, with a comma between them.
pub proof fn law_hazards_are_written_one_after_the_other(a: Seq<Hazard>, b: Seq<Hazard>)
    requires
        a.len() > 0,
        b.len() > 0,
    ensures
        hazard_names(a + b) == hazard_names(a) + ", "@ + hazard_names(b),
        hazard_names(Seq::<Hazard>::empty()).len() == 0,
        a.len() == 1 ==> hazard_names(a) == a[0].text(),
    decreases b.len(),
{
    let whole = a + b;
    assert(whole.drop_last() =~= a + b.drop_last());
    assert(whole.last() == b.last());
    if b.len() == 1 {
        assert(a + b.drop_last() =~= a);
        assert(b.last() == b[0]);
    } else {
        law_hazards_are_written_one_after_the_other(a, b.drop_last());
        assert(hazard_names(whole) =~= hazard_names(a) + ", "@ + hazard_names(b));
    }
}

/// A signal is written under its event and session, with each of its fields; a positive or negative
/// one also goes to its lesson, a neutral one does not.
pub proof fn law_a_signal_is_recorded(
    ctx: &Context,
    signal: &SentimentSignal,
    confidence: &str,
    r: Result<SignalRecord, SignalWriteError>,
)
    requires
        call_ensures(plan_record, (ctx, signal, confidence), r),
    ensures
        r is Ok <==> routes_inside(*ctx) && is_canonical_text(ctx.session_id@) && is_stem_text(
            signal.source_event_uuid@,
        ) && rfc3339_text(signal.timestamp.secs, signal.timestamp.nanos) is Some,
        r matches Ok(record) ==> {
            let body = record.body@;
            let ts = rfc3339_text(signal.timestamp.secs, signal.timestamp.nanos)->0;
            &&& has_suffix(record.key@, "/"@ + signal.source_event_uuid@ + ".yaml"@)
            &&& occurs_in(record.key@, "signals/"@ + ctx.session_id@ + "/"@)
            &&& has_prefix(body, "item_id: "@ + signal.item_id@ + "\npolarity: "@)
            &&& occurs_in(
                body,
                "\npolarity: "@ + signal.polarity.text() + "\ncalibrated_confidence: "@,
            )
            &&& occurs_in(
                body,
                "\ncalibrated_confidence: "@ + confidence@ + "\nattribution_method: "@,
            )
            &&& occurs_in(
                body,
                "\nattribution_method: "@ + signal.attribution_method.text()
                    + "\ndetected_hazards: ["@,
            )
            &&& occurs_in(
                body,
                "\ndetected_hazards: ["@ + hazard_names(signal.detected_hazards@)
                    + "]\nsource_event_uuid: "@,
            )
            &&& occurs_in(
                body,
                "]\nsource_event_uuid: "@ + signal.source_event_uuid@ + "\ntimestamp: "@,
            )
            &&& has_suffix(body, "\ntimestamp: "@ + ts + "\n"@)
            &&& signal.polarity == Polarity::Positive <==> record.lesson == Some(
                SignalPolarity::Positive,
            )
            &&& signal.polarity == Polarity::Negative <==> record.lesson == Some(
                SignalPolarity::Negative,
            )
        },
{
    if let Ok(record) = r {
        let ts = rfc3339_text(signal.timestamp.secs, signal.timestamp.nanos)->0;
        lemma_signal_lines(signal@, confidence@, ts);
        lemma_signal_name(*ctx, ctx.session_id@, signal@.event_uuid);
    }
}

/// A value between two marks, taken together with them, occurs in the whole.
proof fn lemma_between_marks(
    before: Seq<char>,
    mark: Seq<char>,
    value: Seq<char>,
    next: Seq<char>,
    after: Seq<char>,
    whole: Seq<char>,
)
    requires
        whole == (before + mark + value) + next + after,
    ensures
        occurs_in(whole, mark + value + next),
        whole == before + mark + (value + next + after),
{
    let part = mark + value + next;
    assert(before + part + after =~= whole);
    law_a_part_occurs_in_the_whole(before, part, after, whole);
    assert(whole =~= before + mark + (value + next + after));
}

proof fn lemma_signal_name(ctx: Context, session: Seq<char>, event: Seq<char>)
    ensures
        ({
            let key = routed(ctx, "signals/"@ + session + "/"@ + event + ".yaml"@);
            &&& has_suffix(key, "/"@ + event + ".yaml"@)
            &&& occurs_in(key, "signals/"@ + session + "/"@)
        }),
{
    let name = "signals/"@ + session + "/"@ + event + ".yaml"@;
    let head = lemma_routed_head(ctx, name);
    lemma_name_parts(head, "signals/"@, session, "/"@, event, ".yaml"@);
}

proof fn lemma_name_parts(
    head: Seq<char>,
    dir: Seq<char>,
    session: Seq<char>,
    slash: Seq<char>,
    event: Seq<char>,
    extension: Seq<char>,
)
    ensures
        has_suffix(head + (dir + session + slash + event + extension), slash + event + extension),
        occurs_in(head + (dir + session + slash + event + extension), dir + session + slash),
{
    let key = head + (dir + session + slash + event + extension);
    assert(key =~= (head + dir + session) + slash + (event + extension));
    lemma_between_marks(head, dir, session, slash, event + extension, key);
    let front = head + dir + session;
    let tail = slash + event + extension;
    assert(key =~= front + tail);
    law_a_part_occurs_in_the_whole(front, tail, Seq::empty(), key);
}

#[verifier::spinoff_prover]
proof fn lemma_signal_lines(s: SignalModel, confidence: Seq<char>, ts: Seq<char>)
    ensures
        ({
            let body = signal_yaml(s, confidence, ts);
            &&& has_prefix(body, "item_id: "@ + s.item_id + "\npolarity: "@)
            &&& occurs_in(body, "\npolarity: "@ + s.polarity.text() + "\ncalibrated_confidence: "@)
            &&& occurs_in(
                body,
                "\ncalibrated_confidence: "@ + confidence + "\nattribution_method: "@,
            )
            &&& occurs_in(
                body,
                "\nattribution_method: "@ + s.method.text() + "\ndetected_hazards: ["@,
            )
            &&& occurs_in(
                body,
                "\ndetected_hazards: ["@ + hazard_names(s.hazards) + "]\nsource_event_uuid: "@,
            )
            &&& occurs_in(body, "]\nsource_event_uuid: "@ + s.event_uuid + "\ntimestamp: "@)
            &&& has_suffix(body, "\ntimestamp: "@ + ts + "\n"@)
        }),
{
    lemma_lines(
        "item_id: "@,
        s.item_id,
        "\npolarity: "@,
        s.polarity.text(),
        "\ncalibrated_confidence: "@,
        confidence,
        "\nattribution_method: "@,
        s.method.text(),
        "\ndetected_hazards: ["@,
        hazard_names(s.hazards),
        "]\nsource_event_uuid: "@,
        s.event_uuid,
        "\ntimestamp: "@,
        ts,
        "\n"@,
    );
}

#[verifier::spinoff_prover]
proof fn lemma_lines(
    m0: Seq<char>,
    v0: Seq<char>,
    m1: Seq<char>,
    v1: Seq<char>,
    m2: Seq<char>,
    v2: Seq<char>,
    m3: Seq<char>,
    v3: Seq<char>,
    m4: Seq<char>,
    v4: Seq<char>,
    m5: Seq<char>,
    v5: Seq<char>,
    m6: Seq<char>,
    v6: Seq<char>,
    end: Seq<char>,
)
    ensures
        ({
            let body = m0 + v0 + m1 + v1 + m2 + v2 + m3 + v3 + m4 + v4 + m5 + v5 + m6 + v6 + end;
            &&& has_prefix(body, m0 + v0 + m1)
            &&& occurs_in(body, m1 + v1 + m2)
            &&& occurs_in(body, m2 + v2 + m3)
            &&& occurs_in(body, m3 + v3 + m4)
            &&& occurs_in(body, m4 + v4 + m5)
            &&& occurs_in(body, m5 + v5 + m6)
            &&& has_suffix(body, m6 + v6 + end)
        }),
{
    let b0 = m0 + v0;
    let b1 = b0 + m1 + v1;
    let b2 = b1 + m2 + v2;
    let b3 = b2 + m3 + v3;
    let b4 = b3 + m4 + v4;
    let b5 = b4 + m5 + v5;
    let body = b5 + m6 + v6 + end;
    let t6 = v6 + end;
    lemma_rejoin(b5, m6, v6, end);
    lemma_between_marks(b4, m5, v5, m6, t6, body);
    let t5 = v5 + m6 + t6;
    lemma_between_marks(b3, m4, v4, m5, t5, body);
    let t4 = v4 + m5 + t5;
    lemma_between_marks(b2, m3, v3, m4, t4, body);
    let t3 = v3 + m4 + t4;
    lemma_between_marks(b1, m2, v2, m3, t3, body);
    let t2 = v2 + m3 + t3;
    lemma_between_marks(b0, m1, v1, m2, t2, body);
    let t1 = v1 + m2 + t2;
    law_a_part_occurs_in_the_whole(Seq::empty(), b0 + m1, t1, body);
}

proof fn lemma_rejoin(before: Seq<char>, mark: Seq<char>, value: Seq<char>, end: Seq<char>)
    ensures
        before + mark + value + end == before + mark + (value + end),
        has_suffix(before + mark + value + end, mark + value + end),
{
    let whole = before + mark + value + end;
    let tail = mark + value + end;
    assert(whole =~= before + mark + (value + end));
    assert(whole =~= before + tail);
    law_a_part_occurs_in_the_whole(before, tail, Seq::empty(), whole);
}

/// Noting a source keeps the ones there are, in their order, and adds the new one behind them.
pub proof fn law_noting_keeps_the_sources(sources: Seq<Seq<char>>, tag: Seq<char>)
    ensures
        noted(sources, tag).take(sources.len() as int) == sources,
        sources.contains(tag) ==> noted(sources, tag).len() == sources.len(),
        !sources.contains(tag) ==> noted(sources, tag).len() == sources.len() + 1 && noted(
            sources,
            tag,
        ).last() == tag,
{
    assert(noted(sources, tag).take(sources.len() as int) =~= sources);
}

// ---- Laws --------------------------------------------------------------------

/// The message of an error ends in its cause.
pub proof fn law_signal_errors_tell_their_cause(e: &SignalWriteError, m: String)
    requires
        call_ensures(SignalWriteError::message, (e,), m),
    ensures
        e matches SignalWriteError::Backend(c) ==> m@ == "signal write backend error: "@ + c@,
{
}

} // verus!
