//! Finds lessons that have gone stale, so that the user can be asked about them.
//!
//! A lesson is stale once it is old enough and has too few external signals. Its age is taken from
//! the `created_at` of its frontmatter, not from the file system.

use vstd::prelude::*;
use vstd::utf8::{encode_utf8, valid_utf8};

use crate::engine::clock::{Moment, age_in_days, days_between, moment_of, parse_utc, utc_of};
use crate::engine::storage::StorageKey;
use crate::engine::yaml::envelope::{
    is_record_file, law_a_record_file_opens_into_its_parts, opened,
};
use crate::engine::yaml::frontmatter::{
    FrontmatterError, OwnedFrontmatterSplit, split_frontmatter_normalized,
};
use crate::text::{decode_text, ends_with, has_suffix};

verus! {

#[derive(Debug, Clone, PartialEq, Eq)]
pub struct SolicitorConfig {
    /// Age in days from which a lesson can be stale.
    pub min_age_days: u64,
    /// With fewer external signals than this a lesson can be stale.
    pub min_signals_threshold: usize,
    /// How many lessons are reported in one go.
    pub max_candidates_per_call: usize,
    /// The status whose lessons are looked at.
    pub scan_status: String,
}

impl Default for SolicitorConfig {
    fn default() -> (c: SolicitorConfig)
        ensures
            c.min_age_days == 7,
            c.min_signals_threshold == 1,
            c.max_candidates_per_call == 1,
            c.scan_status@ == "active"@,
    {
        SolicitorConfig {
            min_age_days: 7,
            min_signals_threshold: 1,
            max_candidates_per_call: 1,
            scan_status: "active".to_owned(),
        }
    }
}

/// Why a lesson is reported.
#[derive(Debug, Clone, Copy, PartialEq, Eq, Structural)]
#[non_exhaustive]
pub enum StaleReason {
    /// It has no external signal at all.
    NoSignalsInWindow,
    /// It has some, but too few.
    BelowDensityThreshold,
}

/// A stale lesson.
#[derive(Debug, Clone, PartialEq, Eq)]
pub struct StaleCandidate {
    pub lesson_id: String,
    pub created_at: Moment,
    pub age_days: u64,
    pub signal_count: usize,
    pub reason: StaleReason,
}

/// The model of a stale lesson.
#[verifier::ext_equal]
pub struct CandidateModel {
    pub lesson_id: Seq<char>,
    pub created_at: Moment,
    pub age_days: int,
    pub signal_count: usize,
    pub reason: StaleReason,
}

impl View for StaleCandidate {
    type V = CandidateModel;

    open spec fn view(&self) -> CandidateModel {
        CandidateModel {
            lesson_id: self.lesson_id@,
            created_at: self.created_at,
            age_days: self.age_days as int,
            signal_count: self.signal_count,
            reason: self.reason,
        }
    }
}

#[derive(Debug, Clone, PartialEq, Eq)]
pub struct SolicitorOutput {
    pub stale_candidates: Vec<StaleCandidate>,
    pub scanned_count: usize,
    /// Entries that are no readable lesson.
    pub skipped_count: usize,
}

/// The model of an output.
#[verifier::ext_equal]
pub struct ReportModel {
    pub candidates: Seq<CandidateModel>,
    pub scanned: int,
    pub skipped: int,
}

impl View for SolicitorOutput {
    type V = ReportModel;

    open spec fn view(&self) -> ReportModel {
        ReportModel {
            candidates: candidate_models(self.stale_candidates@),
            scanned: self.scanned_count as int,
            skipped: self.skipped_count as int,
        }
    }
}

/// The models of a list of candidates.
pub open spec fn candidate_models(v: Seq<StaleCandidate>) -> Seq<CandidateModel> {
    v.map_values(|c: StaleCandidate| c@)
}

/// An output before anything was looked at.
pub open spec fn empty_report() -> ReportModel {
    ReportModel { candidates: seq![], scanned: 0, skipped: 0 }
}

impl Default for SolicitorOutput {
    fn default() -> (o: SolicitorOutput)
        ensures
            o@ == empty_report(),
    {
        let o = SolicitorOutput {
            stale_candidates: Vec::new(),
            scanned_count: 0,
            skipped_count: 0,
        };
        proof {
            assert(o@ =~= empty_report());
        }
        o
    }
}

/// What the frontmatter of a lesson says that matters here.
#[derive(Debug, Clone, PartialEq, Eq)]
pub struct LessonFacts {
    pub id: String,
    pub created_at: String,
    pub signal_count: usize,
}

/// The model of what was found at a key: id, moment of creation and number of signals, or nothing
/// that can be read as a lesson.
pub type FindingModel = Option<(Seq<char>, Moment, usize)>;

/// The model of a finding.
pub open spec fn finding_model(f: Option<LessonFacts>) -> FindingModel {
    match f {
        Some(l) => match moment_of(utc_of(l.created_at@)) {
            Some(t) => Some((l.id@, t, l.signal_count)),
            None => None,
        },
        None => None,
    }
}

/// The models of a list of findings.
pub open spec fn finding_models(v: Seq<Option<LessonFacts>>) -> Seq<FindingModel> {
    v.map_values(|f: Option<LessonFacts>| finding_model(f))
}

/// Whether a lesson is stale.
pub open spec fn is_stale(c: SolicitorConfig, now: Moment, created: Moment, signals: usize) -> bool {
    days_between(now, created) >= c.min_age_days && signals < c.min_signals_threshold
}

/// The output after one more finding.
pub open spec fn considered(
    c: SolicitorConfig,
    now: Moment,
    out: ReportModel,
    f: FindingModel,
) -> ReportModel {
    match f {
        None => ReportModel { scanned: out.scanned + 1, skipped: out.skipped + 1, ..out },
        Some((id, created, signals)) => if is_stale(c, now, created, signals) {
            ReportModel {
                candidates: out.candidates.push(
                    CandidateModel {
                        lesson_id: id,
                        created_at: created,
                        age_days: days_between(now, created),
                        signal_count: signals,
                        reason: if signals == 0 {
                            StaleReason::NoSignalsInWindow
                        } else {
                            StaleReason::BelowDensityThreshold
                        },
                    },
                ),
                scanned: out.scanned + 1,
                skipped: out.skipped,
            }
        } else {
            ReportModel { scanned: out.scanned + 1, ..out }
        },
    }
}

/// The output after a list of findings. Nothing is looked at once there are enough candidates.
pub open spec fn solicited(
    c: SolicitorConfig,
    now: Moment,
    out: ReportModel,
    findings: Seq<FindingModel>,
) -> ReportModel
    decreases findings.len(),
{
    if findings.len() == 0 || out.candidates.len() >= c.max_candidates_per_call {
        out
    } else {
        solicited(c, now, considered(c, now, out, findings[0]), findings.skip(1))
    }
}

/// Whether a key below the status prefix can be a lesson.
pub fn is_lesson_key(key: &StorageKey) -> (b: bool)
    ensures
        b == has_suffix(key@, ".md"@),
{
    ends_with(key.as_str(), ".md")
}

/// Opens the file of a lesson; absent where it is no text or has no frontmatter.
pub fn open_lesson_file(bytes: &[u8]) -> (r: Option<OwnedFrontmatterSplit>)
    ensures
        match r {
            Some(split) => valid_utf8(bytes@) && opened(bytes@) == Ok::<
                (Seq<char>, Seq<char>),
                FrontmatterError,
            >((split.yaml@, split.body@)),
            None => !valid_utf8(bytes@) || opened(bytes@) is Err,
        },
{
    match decode_text(bytes) {
        Ok(content) => match split_frontmatter_normalized(content.as_str()) {
            Ok(split) => Some(split),
            Err(_) => None,
        },
        Err(_) => None,
    }
}

/// Whether there are enough candidates.
pub fn is_full(config: &SolicitorConfig, output: &SolicitorOutput) -> (b: bool)
    ensures
        b == (output@.candidates.len() >= config.max_candidates_per_call),
{
    output.stale_candidates.len() >= config.max_candidates_per_call
}

/// Takes in one finding: the id and the number of signals of a lesson with its moment of creation,
/// or nothing.
pub fn consider_at(
    config: &SolicitorConfig,
    now: Moment,
    output: &mut SolicitorOutput,
    lesson: Option<(&str, Moment, usize)>,
)
    requires
        old(output).scanned_count < usize::MAX,
        old(output).skipped_count < usize::MAX,
    ensures
        final(output)@ == considered(
            *config,
            now,
            old(output)@,
            match lesson {
                Some((id, created, signals)) => Some((id@, created, signals)),
                None => None,
            },
        ),
{
    let ghost before = output@;
    output.scanned_count = output.scanned_count + 1;
    match lesson {
        None => {
            output.skipped_count = output.skipped_count + 1;
        },
        Some((id, created_at, signal_count)) => {
            let age_days = age_in_days(now, created_at);
            if age_days >= config.min_age_days && signal_count < config.min_signals_threshold {
                let candidate = StaleCandidate {
                    lesson_id: id.to_owned(),
                    created_at,
                    age_days,
                    signal_count,
                    reason: if signal_count == 0 {
                        StaleReason::NoSignalsInWindow
                    } else {
                        StaleReason::BelowDensityThreshold
                    },
                };
                let ghost c = candidate@;
                output.stale_candidates.push(candidate);
                proof {
                    assert(output@.candidates =~= before.candidates.push(c));
                }
            }
        },
    }
    proof {
        let f = match lesson {
            Some((id, created, signals)) => Some((id@, created, signals)),
            None => None,
        };
        assert(output@ =~= considered(*config, now, before, f));
    }
}

/// Takes in what was found at one key. A creation time that cannot be read counts as nothing.
pub fn consider(
    config: &SolicitorConfig,
    now: Moment,
    output: &mut SolicitorOutput,
    finding: &Option<LessonFacts>,
)
    requires
        old(output).scanned_count < usize::MAX,
        old(output).skipped_count < usize::MAX,
    ensures
        final(output)@ == considered(*config, now, old(output)@, finding_model(*finding)),
{
    match finding {
        Some(lesson) => match parse_utc(lesson.created_at.as_str()) {
            Some(created) => consider_at(
                config,
                now,
                output,
                Some((lesson.id.as_str(), created, lesson.signal_count)),
            ),
            None => consider_at(config, now, output, None),
        },
        None => consider_at(config, now, output, None),
    }
}

proof fn lemma_counts(c: SolicitorConfig, now: Moment, out: ReportModel, f: FindingModel)
    ensures
        considered(c, now, out, f).scanned == out.scanned + 1,
        considered(c, now, out, f).skipped <= out.skipped + 1,
{
}

/// Goes through what was found, one key after the other, until there are enough candidates.
pub fn solicit_stale_lessons(
    config: &SolicitorConfig,
    now: Moment,
    findings: &Vec<Option<LessonFacts>>,
) -> (output: SolicitorOutput)
    ensures
        output@ == solicited(*config, now, empty_report(), finding_models(findings@)),
{
    let ghost models = finding_models(findings@);
    let ghost whole = solicited(*config, now, empty_report(), models);
    let mut output = SolicitorOutput::default();
    let mut i: usize = 0;
    proof {
        assert(models.skip(0) =~= models);
    }
    while i < findings.len() && !is_full(config, &output)
        invariant
            i <= findings.len(),
            models == finding_models(findings@),
            output.scanned_count == i,
            output.skipped_count <= i,
            solicited(*config, now, output@, models.skip(i as int)) == whole,
        decreases findings.len() - i,
    {
        let ghost rest = models.skip(i as int);
        proof {
            assert(rest[0] == finding_model(findings@[i as int]));
            assert(rest.skip(1) =~= models.skip(i + 1));
            lemma_counts(*config, now, output@, rest[0]);
        }
        consider(config, now, &mut output, &findings[i]);
        i += 1;
    }
    output
}

// ---- Laws --------------------------------------------------------------------

/// Whatever is reported is stale, and never more than allowed.
pub proof fn law_reported_lessons_are_stale(
    c: SolicitorConfig,
    now: Moment,
    out: ReportModel,
    findings: Seq<FindingModel>,
)
    requires
        out.candidates.len() <= c.max_candidates_per_call,
        forall|i: int|
            0 <= i < out.candidates.len() ==> is_stale(
                c,
                now,
                (#[trigger] out.candidates[i]).created_at,
                out.candidates[i].signal_count,
            ),
    ensures
        solicited(c, now, out, findings).candidates.len() <= c.max_candidates_per_call,
        forall|i: int|
            0 <= i < solicited(c, now, out, findings).candidates.len() ==> is_stale(
                c,
                now,
                (#[trigger] solicited(c, now, out, findings).candidates[i]).created_at,
                solicited(c, now, out, findings).candidates[i].signal_count,
            ),
    decreases findings.len(),
{
    if findings.len() > 0 && out.candidates.len() < c.max_candidates_per_call {
        let next = considered(c, now, out, findings[0]);
        assert forall|i: int| 0 <= i < next.candidates.len() implies is_stale(
            c,
            now,
            (#[trigger] next.candidates[i]).created_at,
            next.candidates[i].signal_count,
        ) by {
            if i < out.candidates.len() {
                assert(next.candidates[i] == out.candidates[i]);
            }
        }
        law_reported_lessons_are_stale(c, now, next, findings.skip(1));
    }
}

/// A stale lesson among the findings is reported, as long as there is room for every stale one.
pub proof fn law_stale_lessons_are_reported(
    c: SolicitorConfig,
    now: Moment,
    out: ReportModel,
    findings: Seq<FindingModel>,
    at: int,
)
    requires
        0 <= at < findings.len(),
        findings[at] is Some,
        is_stale(c, now, (findings[at]->0).1, (findings[at]->0).2),
        out.candidates.len() + findings.len() <= c.max_candidates_per_call,
    ensures
        exists|i: int|
            0 <= i < solicited(c, now, out, findings).candidates.len() && (
            #[trigger] solicited(c, now, out, findings).candidates[i]).lesson_id
                == (findings[at]->0).0,
    decreases findings.len(),
{
    let next = considered(c, now, out, findings[0]);
    let end = solicited(c, now, out, findings);
    assert(end == solicited(c, now, next, findings.skip(1)));
    if at == 0 {
        let n = out.candidates.len() as int;
        assert(next.candidates[n].lesson_id == (findings[0]->0).0);
        lemma_candidates_stay(c, now, next, findings.skip(1), n);
        assert(end.candidates[n].lesson_id == (findings[at]->0).0);
    } else {
        assert(findings.skip(1)[at - 1] == findings[at]);
        law_stale_lessons_are_reported(c, now, next, findings.skip(1), at - 1);
    }
}

proof fn lemma_candidates_stay(
    c: SolicitorConfig,
    now: Moment,
    out: ReportModel,
    findings: Seq<FindingModel>,
    i: int,
)
    requires
        0 <= i < out.candidates.len(),
    ensures
        i < solicited(c, now, out, findings).candidates.len(),
        solicited(c, now, out, findings).candidates[i] == out.candidates[i],
    decreases findings.len(),
{
    if findings.len() > 0 && out.candidates.len() < c.max_candidates_per_call {
        lemma_candidates_stay(c, now, considered(c, now, out, findings[0]), findings.skip(1), i);
    }
}

/// Asked for none, it looks at nothing.
pub proof fn law_no_candidates_wanted(
    c: SolicitorConfig,
    now: Moment,
    findings: Seq<FindingModel>,
)
    requires
        c.max_candidates_per_call == 0,
    ensures
        solicited(c, now, empty_report(), findings) == empty_report(),
{
}

/// Whether a lesson was found that is old enough and has too few signals.
pub open spec fn is_due(c: SolicitorConfig, now: Moment, f: FindingModel) -> bool {
    f matches Some(l) && days_between(now, l.1) >= c.min_age_days && l.2 < c.min_signals_threshold
}

/// Whether a candidate tells what was found: age, signals, and whether there are none at all.
pub open spec fn tells(candidate: CandidateModel, now: Moment, f: FindingModel) -> bool {
    &&& f is Some
    &&& candidate.lesson_id == (f->0).0
    &&& candidate.created_at == (f->0).1
    &&& candidate.age_days == days_between(now, (f->0).1)
    &&& candidate.signal_count == (f->0).2
    &&& candidate.reason == StaleReason::NoSignalsInWindow <==> (f->0).2 == 0
}

spec fn all_considered(c: SolicitorConfig, now: Moment, findings: Seq<FindingModel>) -> ReportModel
    decreases findings.len(),
{
    if findings.len() == 0 {
        empty_report()
    } else {
        considered(c, now, all_considered(c, now, findings.drop_last()), findings.last())
    }
}

proof fn lemma_where_it_stops(
    c: SolicitorConfig,
    now: Moment,
    findings: Seq<FindingModel>,
    i: int,
) -> (n: int)
    requires
        0 <= i <= findings.len(),
    ensures
        i <= n <= findings.len(),
        solicited(c, now, all_considered(c, now, findings.take(i)), findings.skip(i))
            == all_considered(c, now, findings.take(n)),
        n < findings.len() ==> all_considered(c, now, findings.take(n)).candidates.len()
            >= c.max_candidates_per_call,
        n > i ==> all_considered(c, now, findings.take(n - 1)).candidates.len()
            < c.max_candidates_per_call,
    decreases findings.len() - i,
{
    let so_far = all_considered(c, now, findings.take(i));
    if i == findings.len() || so_far.candidates.len() >= c.max_candidates_per_call {
        i
    } else {
        assert(findings.take(i + 1).drop_last() =~= findings.take(i));
        assert(findings.take(i + 1).last() == findings[i]);
        assert(findings.skip(i)[0] == findings[i]);
        assert(findings.skip(i).skip(1) =~= findings.skip(i + 1));
        lemma_where_it_stops(c, now, findings, i + 1)
    }
}

proof fn lemma_all_considered(c: SolicitorConfig, now: Moment, findings: Seq<FindingModel>)
    ensures
        ({
            let out = all_considered(c, now, findings);
            let due = findings.filter(|f: FindingModel| is_due(c, now, f));
            &&& out.candidates.len() == due.len()
            &&& forall|i: int| 0 <= i < due.len() ==> tells(#[trigger] out.candidates[i], now, due[i])
            &&& out.scanned == findings.len()
            &&& out.skipped == findings.filter(|f: FindingModel| f is None).len()
        }),
    decreases findings.len(),
{
    reveal(Seq::filter);
    if findings.len() > 0 {
        lemma_all_considered(c, now, findings.drop_last());
    }
}

/// The lessons are looked at one after the other, until there are as many candidates as wanted or
/// none is left. The candidates are the stale ones among those looked at, in their order; what is
/// no readable lesson is counted.
pub proof fn law_the_first_stale_lessons_are_reported(
    config: &SolicitorConfig,
    now: Moment,
    findings: &Vec<Option<LessonFacts>>,
    output: SolicitorOutput,
)
    requires
        call_ensures(solicit_stale_lessons, (config, now, findings), output),
    ensures
        exists|n: int|
            {
                let looked_at = #[trigger] finding_models(findings@).take(n);
                let due = looked_at.filter(|f: FindingModel| is_due(*config, now, f));
                let wanted = config.max_candidates_per_call;
                &&& 0 <= n <= findings@.len()
                &&& output.scanned_count == n
                &&& output.skipped_count == looked_at.filter(|f: FindingModel| f is None).len()
                &&& output.stale_candidates@.len() == due.len()
                &&& forall|i: int|
                    0 <= i < due.len() ==> tells(
                        (#[trigger] output.stale_candidates@[i])@,
                        now,
                        due[i],
                    )
                &&& due.len() <= wanted
                &&& n < findings@.len() ==> due.len() == wanted
                &&& n > 0 && due.len() == wanted && n < findings@.len() ==> is_due(
                    *config,
                    now,
                    looked_at[n - 1],
                )
                &&& wanted == 0 ==> n == 0
            },
{
    let all = finding_models(findings@);
    assert(all.take(0).len() == 0);
    assert(all.skip(0) =~= all);
    let n = lemma_where_it_stops(*config, now, all, 0);
    lemma_all_considered(*config, now, all.take(n));
    if n > 0 {
        assert(all.take(n).drop_last() =~= all.take(n - 1));
        assert(all.take(n).last() == all[n - 1]);
        lemma_all_considered(*config, now, all.take(n - 1));
    } else {
        lemma_all_considered(*config, now, all.take(0));
    }
    let o = all_considered(*config, now, all.take(n));
    assert(output@ == o);
    assert forall|i: int| 0 <= i < output.stale_candidates@.len() implies (
    #[trigger] output.stale_candidates@[i])@ == o.candidates[i] by {
        assert(output@.candidates[i] == output.stale_candidates@[i]@);
    }
    assert(all.take(n) == finding_models(findings@).take(n));
}

/// The file of a lesson opens into its two parts.
pub proof fn law_lesson_files_open_into_their_parts(
    bytes: &[u8],
    r: Option<OwnedFrontmatterSplit>,
    file: Seq<char>,
    yaml: Seq<char>,
    body: Seq<char>,
)
    requires
        call_ensures(open_lesson_file, (bytes,), r),
        is_record_file(file, yaml, body),
        bytes@ == encode_utf8(file),
    ensures
        r is Some,
        r->0.yaml@ == yaml,
        r->0.body@ == body,
{
    law_a_record_file_opens_into_its_parts(file, yaml, body);
}

/// Scanning stops once there are as many candidates as wanted.
pub proof fn law_scanning_stops_when_full(
    config: &SolicitorConfig,
    output: &SolicitorOutput,
    b: bool,
)
    requires
        call_ensures(is_full, (config, output), b),
    ensures
        b <==> output.stale_candidates@.len() >= config.max_candidates_per_call,
{
    assert(output@.candidates.len() == output.stale_candidates@.len());
}

/// A lesson without a readable time of creation counts as unreadable; any other is judged by it.
pub proof fn law_lessons_are_judged_by_their_creation(
    c: SolicitorConfig,
    now: Moment,
    out: ReportModel,
    facts: LessonFacts,
)
    ensures
        ({
            let read = moment_of(utc_of(facts.created_at@));
            let after = considered(c, now, out, finding_model(Some(facts)));
            let unread = considered(c, now, out, finding_model(None));
            &&& unread.scanned == out.scanned + 1
            &&& unread.skipped == out.skipped + 1
            &&& unread.candidates == out.candidates
            &&& read is None ==> after == unread
            &&& read is Some ==> after.scanned == out.scanned + 1 && after.skipped == out.skipped
            &&& read matches Some(t) ==> (after.candidates.len() == out.candidates.len() + 1
                <==> days_between(now, t) >= c.min_age_days && facts.signal_count
                < c.min_signals_threshold)
            &&& after.candidates.len() > out.candidates.len() ==> {
                &&& after.candidates.last().lesson_id == facts.id@
                &&& after.candidates.last().signal_count == facts.signal_count
            }
        }),
{
}

} // verus!
