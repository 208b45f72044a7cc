//! `manifest.assemble`: the lessons and memories that bear on what the agent is about to do.

use vstd::prelude::*;

use super::json::{
    Fields, Items, Json, JsonModel, has_member, no_members, number, opt, opt_value, single, text,
};
use super::lessons::is_status_name;
use super::memories::{ScopeFilterWire, filter_meaning, scope_filter};
use super::rpc::{DispatchError, RefusalModel};
use crate::engine::clock::{Moment, rfc3339_text, to_rfc3339};
use crate::engine::memory::{MemoryId, MemoryScopeFilter};
use crate::engine::yaml::schema::{LessonStatus, law_status_names_are_distinct};
use crate::text::{
    concat3, is_blank, law_a_part_occurs_in_the_whole, occurs_in, opt_text, texts, trim, trimmed,
    trims_to_nothing,
};

verus! {

/// The parameters of `manifest.assemble`.
#[derive(Debug, Clone, PartialEq, Eq)]
pub struct ManifestAssembleParams {
    pub statuses: Option<Vec<String>>,
    pub lesson_limit: Option<usize>,
    pub body_preview_len: Option<usize>,
    pub annotate_with_gate: bool,
    pub record_applied: bool,
    pub memory_query: Option<String>,
    pub memory_limit: Option<usize>,
    pub memory_scope_filter: Option<ScopeFilterWire>,
}

/// What is to be assembled.
#[derive(Debug, Clone, PartialEq, Eq)]
pub struct AssembleConfig {
    pub statuses: Vec<LessonStatus>,
    pub lesson_limit: usize,
    /// How many characters of a body are shown.
    pub body_preview_len: usize,
    /// Say of each lesson whether it would be promoted.
    pub annotate_with_gate: bool,
    /// Count each lesson as applied.
    pub record_applied: bool,
    pub memory_query: Option<String>,
    pub memory_limit: usize,
    pub memory_scope_filter: Option<MemoryScopeFilter>,
}

/// The status of a name.
pub open spec fn status_named(name: Seq<char>) -> Option<LessonStatus> {
    if exists|s: LessonStatus| name == #[trigger] s.text() {
        Some(choose|s: LessonStatus| name == #[trigger] s.text())
    } else {
        None
    }
}

/// The statuses of a list of names, or the first name that is none.
pub open spec fn statuses_named(names: Seq<Seq<char>>) -> Result<Seq<LessonStatus>, Seq<char>>
    decreases names.len(),
{
    if names.len() == 0 {
        Ok(seq![])
    } else {
        match statuses_named(names.drop_last()) {
            Err(name) => Err(name),
            Ok(before) => match status_named(names.last()) {
                Some(s) => Ok(before.push(s)),
                None => Err(names.last()),
            },
        }
    }
}

/// The statuses that a request asks for; the active ones where it does not say.
pub open spec fn statuses_asked(names: Option<Vec<String>>) -> Result<
    Seq<LessonStatus>,
    Seq<char>,
> {
    match names {
        Some(v) => if v@.len() > 0 {
            statuses_named(texts(v@))
        } else {
            Ok(seq![LessonStatus::Active])
        },
        None => Ok(seq![LessonStatus::Active]),
    }
}

proof fn lemma_first_error_stays(names: Seq<Seq<char>>, i: int)
    requires
        0 <= i <= names.len(),
        statuses_named(names.take(i)) is Err,
    ensures
        statuses_named(names) == statuses_named(names.take(i)),
    decreases names.len() - i,
{
    if i < names.len() {
        assert(names.take(i + 1).drop_last() =~= names.take(i));
        lemma_first_error_stays(names, i + 1);
    } else {
        assert(names.take(i) =~= names);
    }
}

fn parse_statuses(names: &Vec<String>) -> (r: Result<Vec<LessonStatus>, DispatchError>)
    ensures
        match statuses_named(texts(names@)) {
            Ok(s) => r is Ok && r->Ok_0@ == s,
            Err(name) => r is Err && r->Err_0@ == RefusalModel::InvalidParams(
                "unknown lesson status '"@ + name + "'"@,
            ),
        },
{
    let ghost all = texts(names@);
    let mut out: Vec<LessonStatus> = Vec::new();
    let mut i: usize = 0;
    while i < names.len()
        invariant
            i <= names.len(),
            all == texts(names@),
            statuses_named(all.take(i as int)) == Ok::<Seq<LessonStatus>, Seq<char>>(out@),
        decreases names.len() - i,
    {
        proof {
            assert(all.take(i + 1).drop_last() =~= all.take(i as int));
            assert(all.take(i + 1).last() == all[i as int]);
        }
        match LessonStatus::parse(names[i].as_str()) {
            Some(s) => {
                proof {
                    let chosen = status_named(all[i as int])->0;
                    assert(all[i as int] == s.text());
                    law_status_names_are_distinct(chosen, s);
                }
                out.push(s);
            },
            None => {
                proof {
                    lemma_first_error_stays(all, i + 1);
                }
                return Err(
                    DispatchError::InvalidParams(
                        concat3("unknown lesson status '", names[i].as_str(), "'"),
                    ),
                );
            },
        }
        i += 1;
    }
    proof {
        assert(all.take(all.len() as int) =~= all);
    }
    Ok(out)
}

/// The query for memories: trimmed, and none where nothing is left.
pub open spec fn query_asked(query: Option<Seq<char>>) -> Option<Seq<char>> {
    match query {
        Some(q) => if is_blank(q) {
            None
        } else {
            Some(trimmed(q))
        },
        None => None,
    }
}

/// A number that a request may leave out.
pub open spec fn or_else(n: Option<usize>, default: usize) -> usize {
    match n {
        Some(n) => n,
        None => default,
    }
}

fn number_or(n: Option<usize>, default: usize) -> (r: usize)
    ensures
        r == or_else(n, default),
{
    match n {
        Some(n) => n,
        None => default,
    }
}

/// Plans what to assemble.
pub fn plan_manifest(p: ManifestAssembleParams) -> (r: Result<AssembleConfig, DispatchError>)
    ensures
        match r {
            Ok(c) => {
                &&& statuses_asked(p.statuses) == Ok::<Seq<LessonStatus>, Seq<char>>(c.statuses@)
                &&& c.lesson_limit == or_else(p.lesson_limit, 5)
                &&& c.body_preview_len == or_else(p.body_preview_len, 200)
                &&& c.annotate_with_gate == p.annotate_with_gate
                &&& c.record_applied == p.record_applied
                &&& opt_text(c.memory_query) == query_asked(opt_text(p.memory_query))
                &&& c.memory_limit == or_else(p.memory_limit, 5)
                &&& filter_meaning(p.memory_scope_filter) == Ok::<
                    Option<MemoryScopeFilter>,
                    Seq<char>,
                >(c.memory_scope_filter)
            },
            Err(e) => match statuses_asked(p.statuses) {
                Err(name) => e@ == RefusalModel::InvalidParams(
                    "unknown lesson status '"@ + name + "'"@,
                ),
                Ok(_) => filter_meaning(p.memory_scope_filter) is Err && e@
                    == RefusalModel::InvalidParams(filter_meaning(p.memory_scope_filter)->Err_0),
            },
        },
{
    let statuses = match &p.statuses {
        Some(names) => {
            if names.len() > 0 {
                match parse_statuses(names) {
                    Ok(s) => s,
                    Err(e) => return Err(e),
                }
            } else {
                active_only()
            }
        },
        None => active_only(),
    };
    let memory_scope_filter = match scope_filter(p.memory_scope_filter) {
        Ok(f) => f,
        Err(e) => return Err(e),
    };
    let memory_query = match &p.memory_query {
        Some(q) => {
            if trims_to_nothing(q.as_str()) {
                None
            } else {
                Some(trim(q.as_str()))
            }
        },
        None => None,
    };
    Ok(
        AssembleConfig {
            statuses,
            lesson_limit: number_or(p.lesson_limit, 5),
            body_preview_len: number_or(p.body_preview_len, 200),
            annotate_with_gate: p.annotate_with_gate,
            record_applied: p.record_applied,
            memory_query,
            memory_limit: number_or(p.memory_limit, 5),
            memory_scope_filter,
        },
    )
}

fn active_only() -> (v: Vec<LessonStatus>)
    ensures
        v@ == seq![LessonStatus::Active],
{
    let mut v: Vec<LessonStatus> = Vec::new();
    v.push(LessonStatus::Active);
    v
}

/// Whether a lesson would be promoted, and how many reasons were given.
#[derive(Debug, Clone, Copy, PartialEq, Eq, Structural)]
pub enum GateDecision {
    Promote { reasons: u64 },
    Block { reasons: u64 },
}

/// A lesson of a manifest.
#[derive(Debug, Clone, PartialEq, Eq)]
pub struct ManifestLesson {
    pub id: String,
    pub description: String,
    pub status: LessonStatus,
    pub body_preview: String,
    pub applied_count: u64,
    pub last_applied_at: Option<Moment>,
    pub target_skill: Option<String>,
    pub gate: Option<GateDecision>,
}

/// A memory of a manifest.
#[derive(Debug, Clone, PartialEq, Eq)]
pub struct ManifestMemory {
    pub id: MemoryId,
    pub description: String,
    pub body_preview: String,
    /// The similarity as the answer shows it, a single-precision bit pattern.
    pub shown: u32,
}

/// How assembling went.
#[derive(Debug, Clone, Copy, PartialEq, Eq)]
pub struct AssemblyStats {
    pub assembled_at: Moment,
    pub total_listed: u64,
    pub skipped_count: u64,
    pub gate_skip_count: u64,
    pub record_applied_failures: u64,
    pub memories_returned: u64,
    pub memory_search_failures: u64,
    pub session_section_skips: u64,
}

/// What was assembled.
#[derive(Debug, Clone, PartialEq, Eq)]
pub struct Manifest {
    pub active_lessons: Vec<ManifestLesson>,
    pub memories: Vec<ManifestMemory>,
    pub assembly_stats: AssemblyStats,
}

/// A decision in the answer.
pub open spec fn gate_value(g: GateDecision) -> JsonModel {
    match g {
        GateDecision::Promote { reasons } => JsonModel::Object(
            no_members().push(("kind"@, JsonModel::Text("promote"@))).push(
                ("reason_count"@, JsonModel::Number(reasons)),
            ),
        ),
        GateDecision::Block { reasons } => JsonModel::Object(
            no_members().push(("kind"@, JsonModel::Text("block"@))).push(
                ("reason_count"@, JsonModel::Number(reasons)),
            ),
        ),
    }
}

/// Shows a decision.
pub fn serialize_gate_decision(g: GateDecision) -> (j: Json)
    ensures
        j.model() == gate_value(g),
{
    let mut f = Fields::new();
    match g {
        GateDecision::Promote { reasons } => {
            f.put("kind", text("promote"));
            f.put("reason_count", number(reasons));
        },
        GateDecision::Block { reasons } => {
            f.put("kind", text("block"));
            f.put("reason_count", number(reasons));
        },
    }
    f.done()
}

/// A lesson of a manifest in the answer; `last` is the text of when it was last applied.
pub open spec fn manifest_lesson_value(l: ManifestLesson, last: Option<Seq<char>>) -> JsonModel {
    let row = no_members().push(("id"@, JsonModel::Text(l.id@))).push(
        ("description"@, JsonModel::Text(l.description@)),
    ).push(("status"@, JsonModel::Text(l.status.text()))).push(
        ("body_preview"@, JsonModel::Text(l.body_preview@)),
    ).push(("applied_count"@, JsonModel::Number(l.applied_count))).push(
        ("last_applied_at"@, opt_value(last)),
    ).push(("target_skill"@, opt_value(opt_text(l.target_skill))));
    JsonModel::Object(
        match l.gate {
            Some(g) => row.push(("gate"@, gate_value(g))),
            None => row,
        },
    )
}

/// Shows a lesson, with the text of when it was last applied.
pub fn serialize_lesson(l: &ManifestLesson, last: &Option<String>) -> (j: Json)
    ensures
        j.model() == manifest_lesson_value(*l, opt_text(*last)),
{
    let mut f = Fields::new();
    f.put("id", text(l.id.as_str()));
    f.put("description", text(l.description.as_str()));
    f.put("status", text(l.status.as_str()));
    f.put("body_preview", text(l.body_preview.as_str()));
    f.put("applied_count", number(l.applied_count));
    f.put("last_applied_at", opt(last));
    f.put("target_skill", opt(&l.target_skill));
    if let Some(g) = l.gate {
        f.put("gate", serialize_gate_decision(g));
    }
    f.done()
}

/// The text of a moment that may be missing.
pub open spec fn moment_text(m: Option<Moment>) -> Option<Seq<char>> {
    match m {
        Some(t) => rfc3339_text(t.secs, t.nanos),
        None => None,
    }
}

fn text_of_moment(m: Option<Moment>) -> (s: Option<String>)
    ensures
        opt_text(s) == moment_text(m),
{
    match m {
        Some(t) => to_rfc3339(t),
        None => None,
    }
}

/// A memory of a manifest in the answer.
pub open spec fn manifest_memory_value(m: ManifestMemory) -> JsonModel {
    JsonModel::Object(
        no_members().push(("id"@, JsonModel::Text(m.id@))).push(
            ("description"@, JsonModel::Text(m.description@)),
        ).push(("body_preview"@, JsonModel::Text(m.body_preview@))).push(
            ("similarity"@, JsonModel::Single(m.shown)),
        ),
    )
}

fn serialize_memory(m: &ManifestMemory) -> (j: Json)
    ensures
        j.model() == manifest_memory_value(*m),
{
    let mut f = Fields::new();
    f.put("id", text(m.id.as_str()));
    f.put("description", text(m.description.as_str()));
    f.put("body_preview", text(m.body_preview.as_str()));
    f.put("similarity", single(m.shown));
    f.done()
}

/// The statistics in the answer; `at` is the text of when it was assembled.
pub open spec fn stats_value(s: AssemblyStats, at: Option<Seq<char>>) -> JsonModel {
    JsonModel::Object(
        no_members().push(("assembled_at"@, opt_value(at))).push(
            ("total_listed"@, JsonModel::Number(s.total_listed)),
        ).push(("skipped_count"@, JsonModel::Number(s.skipped_count))).push(
            ("gate_skip_count"@, JsonModel::Number(s.gate_skip_count)),
        ).push(("record_applied_failures"@, JsonModel::Number(s.record_applied_failures))).push(
            ("memories_returned"@, JsonModel::Number(s.memories_returned)),
        ).push(("memory_search_failures"@, JsonModel::Number(s.memory_search_failures))).push(
            ("session_section_skips"@, JsonModel::Number(s.session_section_skips)),
        ),
    )
}

/// Shows the statistics, with the text of when the manifest was assembled.
pub fn serialize_stats(s: &AssemblyStats, at: &Option<String>) -> (j: Json)
    ensures
        j.model() == stats_value(*s, opt_text(*at)),
{
    let mut f = Fields::new();
    f.put("assembled_at", opt(at));
    f.put("total_listed", number(s.total_listed));
    f.put("skipped_count", number(s.skipped_count));
    f.put("gate_skip_count", number(s.gate_skip_count));
    f.put("record_applied_failures", number(s.record_applied_failures));
    f.put("memories_returned", number(s.memories_returned));
    f.put("memory_search_failures", number(s.memory_search_failures));
    f.put("session_section_skips", number(s.session_section_skips));
    f.done()
}

/// A manifest in the answer. Skills, personas and teams have their sections, always empty.
pub open spec fn manifest_value(m: Manifest) -> JsonModel {
    JsonModel::Object(
        no_members().push(
            (
                "active_lessons"@,
                JsonModel::Array(
                    m.active_lessons@.map_values(
                        |l: ManifestLesson|
                            manifest_lesson_value(l, moment_text(l.last_applied_at)),
                    ),
                ),
            ),
        ).push(
            (
                "memories"@,
                JsonModel::Array(
                    m.memories@.map_values(|r: ManifestMemory| manifest_memory_value(r)),
                ),
            ),
        ).push(("active_skills"@, JsonModel::Array(Seq::empty()))).push(
            ("active_personas"@, JsonModel::Array(Seq::empty())),
        ).push(("active_teams"@, JsonModel::Array(Seq::empty()))).push(
            (
                "assembly_stats"@,
                stats_value(
                    m.assembly_stats,
                    moment_text(Some(m.assembly_stats.assembled_at)),
                ),
            ),
        ),
    )
}

fn empty_array() -> (j: Json)
    ensures
        j.model() == JsonModel::Array(Seq::empty()),
{
    let items = Items::new();
    items.done()
}

fn serialize_lessons(lessons: &Vec<ManifestLesson>) -> (j: Json)
    ensures
        j.model() == JsonModel::Array(
            lessons@.map_values(
                |l: ManifestLesson| manifest_lesson_value(l, moment_text(l.last_applied_at)),
            ),
        ),
{
    let ghost all = lessons@.map_values(
        |l: ManifestLesson| manifest_lesson_value(l, moment_text(l.last_applied_at)),
    );
    let mut items = Items::new();
    let mut i: usize = 0;
    while i < lessons.len()
        invariant
            i <= lessons.len(),
            all == lessons@.map_values(
                |l: ManifestLesson| manifest_lesson_value(l, moment_text(l.last_applied_at)),
            ),
            items@ == all.take(i as int),
        decreases lessons.len() - i,
    {
        let last = text_of_moment(lessons[i].last_applied_at);
        items.put(serialize_lesson(&lessons[i], &last));
        proof {
            assert(all.take(i + 1) =~= all.take(i as int).push(all[i as int]));
        }
        i += 1;
    }
    proof {
        assert(all.take(all.len() as int) =~= all);
    }
    items.done()
}

fn serialize_memories(memories: &Vec<ManifestMemory>) -> (j: Json)
    ensures
        j.model() == JsonModel::Array(
            memories@.map_values(|r: ManifestMemory| manifest_memory_value(r)),
        ),
{
    let ghost all = memories@.map_values(|r: ManifestMemory| manifest_memory_value(r));
    let mut items = Items::new();
    let mut i: usize = 0;
    while i < memories.len()
        invariant
            i <= memories.len(),
            all == memories@.map_values(|r: ManifestMemory| manifest_memory_value(r)),
            items@ == all.take(i as int),
        decreases memories.len() - i,
    {
        items.put(serialize_memory(&memories[i]));
        proof {
            assert(all.take(i + 1) =~= all.take(i as int).push(all[i as int]));
        }
        i += 1;
    }
    proof {
        assert(all.take(all.len() as int) =~= all);
    }
    items.done()
}

/// Shows a manifest.
pub fn serialize_manifest(m: &Manifest) -> (j: Json)
    ensures
        j.model() == manifest_value(*m),
{
    let at = text_of_moment(Some(m.assembly_stats.assembled_at));
    let mut f = Fields::new();
    f.put("active_lessons", serialize_lessons(&m.active_lessons));
    f.put("memories", serialize_memories(&m.memories));
    f.put("active_skills", empty_array());
    f.put("active_personas", empty_array());
    f.put("active_teams", empty_array());
    f.put("assembly_stats", serialize_stats(&m.assembly_stats, &at));
    f.done()
}

// ---- Laws --------------------------------------------------------------------

proof fn lemma_statuses_named(names: Seq<Seq<char>>)
    ensures
        statuses_named(names) matches Ok(s) ==> s.len() == names.len() && forall|i: int|
            0 <= i < names.len() ==> (#[trigger] s[i]).text() == names[i],
        statuses_named(names) matches Err(name) ==> exists|i: int|
            {
                &&& 0 <= i < names.len()
                &&& #[trigger] names[i] == name
                &&& !is_status_name(name)
                &&& forall|k: int|
                    0 <= k < i ==> is_status_name(#[trigger] names[k])
            },
    decreases names.len(),
{
    if names.len() > 0 {
        let rest = names.drop_last();
        lemma_statuses_named(rest);
        match statuses_named(rest) {
            Err(name) => {
                let i = choose|i: int|
                    {
                        &&& 0 <= i < rest.len()
                        &&& #[trigger] rest[i] == name
                        &&& !is_status_name(name)
                        &&& forall|k: int|
                            0 <= k < i ==> is_status_name(#[trigger] rest[k])
                    };
                assert(names[i] == name);
                assert forall|k: int| 0 <= k < i implies is_status_name(#[trigger] names[k]) by {
                    assert(rest[k] == names[k]);
                }
            },
            Ok(before) => {
                let last = names.len() - 1;
                assert(names[last] == names.last());
                if let Some(s) = status_named(names.last()) {
                    assert(s.text() == names.last());
                    let all = before.push(s);
                    assert forall|i: int| 0 <= i < names.len() implies (#[trigger] all[i]).text()
                        == names[i] by {
                        if i < last {
                            assert(all[i] == before[i]);
                            assert(rest[i] == names[i]);
                        }
                    }
                } else {
                    assert forall|k: int| 0 <= k < last implies is_status_name(#[trigger] names[k]) by {
                        assert(rest[k] == names[k]);
                        assert(before[k].text() == names[k]);
                    }
                }
            },
        }
    }
}

/// A manifest takes the statuses that are asked for, in their order, and only active lessons where
/// none is; the first one that does not exist is refused by its name. Five lessons, five memories
/// and previews of 200 characters where nothing else is asked for. A blank query is none.
pub proof fn law_a_manifest_takes_what_is_asked_for(
    p: ManifestAssembleParams,
    r: Result<AssembleConfig, DispatchError>,
)
    requires
        call_ensures(plan_manifest, (p,), r),
    ensures
        r matches Ok(c) ==> {
            &&& p.statuses is None || p.statuses->0@.len() == 0 ==> c.statuses@ == seq![
                LessonStatus::Active,
            ]
            &&& p.statuses is Some && p.statuses->0@.len() > 0 ==> {
                &&& c.statuses@.len() == p.statuses->0@.len()
                &&& forall|i: int|
                    0 <= i < c.statuses@.len() ==> (#[trigger] c.statuses@[i]).text()
                        == p.statuses->0@[i]@
            }
            &&& p.lesson_limit is None ==> c.lesson_limit == 5
            &&& p.lesson_limit matches Some(n) ==> c.lesson_limit == n
            &&& p.memory_limit is None ==> c.memory_limit == 5
            &&& p.memory_limit matches Some(n) ==> c.memory_limit == n
            &&& p.body_preview_len is None ==> c.body_preview_len == 200
            &&& p.body_preview_len matches Some(n) ==> c.body_preview_len == n
            &&& c.annotate_with_gate == p.annotate_with_gate
            &&& c.record_applied == p.record_applied
            &&& c.memory_query is Some <==> p.memory_query is Some && !is_blank(p.memory_query->0@)
            &&& c.memory_query is Some ==> c.memory_query->0@ == trimmed(p.memory_query->0@)
            &&& c.memory_scope_filter is None <==> p.memory_scope_filter is None
        },
        r matches Err(e) ==> {
            ||| p.memory_scope_filter is Some
            ||| exists|i: int|
                {
                    &&& p.statuses is Some
                    &&& 0 <= i < p.statuses->0@.len()
                    &&& !is_status_name((#[trigger] p.statuses->0@[i])@)
                    &&& e@ is InvalidParams
                    &&& occurs_in(e@->InvalidParams_0, p.statuses->0@[i]@)
                }
        },
        p.statuses is Some && (exists|i: int|
            0 <= i < p.statuses->0@.len() && !is_status_name((#[trigger] p.statuses->0@[i])@)) ==> r is Err,
{
    if let Some(v) = p.statuses {
        let names = texts(v@);
        assert forall|i: int| 0 <= i < v@.len() implies #[trigger] names[i] == v@[i]@ by {}
        lemma_statuses_named(names);
        if r is Err && v@.len() > 0 && statuses_named(names) is Err {
            let name = statuses_named(names)->Err_0;
            let i = choose|i: int|
                {
                    &&& 0 <= i < names.len()
                    &&& #[trigger] names[i] == name
                    &&& !is_status_name(name)
                    &&& forall|k: int|
                        0 <= k < i ==> is_status_name(#[trigger] names[k])
                };
            assert(names[i] == v@[i]@);
            law_a_part_occurs_in_the_whole("unknown lesson status '"@, name, "'"@, name);
        }
        if exists|i: int|
            0 <= i < v@.len() && !is_status_name((#[trigger] v@[i])@) {
            let i = choose|i: int|
                0 <= i < v@.len() && !is_status_name((#[trigger] v@[i])@);
            if let Ok(s) = statuses_named(names) {
                assert(s[i].text() == names[i]);
            }
        }
    }
}

/// Whether a row of a manifest shows a lesson.
pub open spec fn shows_manifest_lesson(row: JsonModel, l: ManifestLesson) -> bool {
    &&& has_member(row, "id"@, JsonModel::Text(l.id@))
    &&& has_member(row, "description"@, JsonModel::Text(l.description@))
    &&& has_member(row, "status"@, JsonModel::Text(l.status.text()))
    &&& has_member(row, "body_preview"@, JsonModel::Text(l.body_preview@))
    &&& has_member(row, "applied_count"@, JsonModel::Number(l.applied_count))
    &&& l.last_applied_at is None ==> has_member(row, "last_applied_at"@, JsonModel::Null)
    &&& l.last_applied_at matches Some(t) ==> (rfc3339_text(t.secs, t.nanos) matches Some(s)
        ==> has_member(row, "last_applied_at"@, JsonModel::Text(s)))
    &&& l.target_skill matches Some(s) ==> has_member(row, "target_skill"@, JsonModel::Text(s@))
    &&& l.target_skill is None ==> has_member(row, "target_skill"@, JsonModel::Null)
    &&& l.gate is None ==> row->Object_0.len() == 7
    &&& l.gate is Some ==> row->Object_0.len() == 8 && row->Object_0[7].0 == "gate"@
        && shows_gate(row->Object_0[7].1, l.gate->0)
}

/// Whether a value shows a decision on promotion: which way, and on how many reasons.
pub open spec fn shows_gate(j: JsonModel, g: GateDecision) -> bool {
    match g {
        GateDecision::Promote { reasons } => has_member(j, "kind"@, JsonModel::Text("promote"@))
            && has_member(j, "reason_count"@, JsonModel::Number(reasons)),
        GateDecision::Block { reasons } => has_member(j, "kind"@, JsonModel::Text("block"@))
            && has_member(j, "reason_count"@, JsonModel::Number(reasons)),
    }
}

/// Whether a row of a manifest shows a memory.
pub open spec fn shows_manifest_memory(row: JsonModel, m: ManifestMemory) -> bool {
    &&& has_member(row, "id"@, JsonModel::Text(m.id@))
    &&& has_member(row, "description"@, JsonModel::Text(m.description@))
    &&& has_member(row, "body_preview"@, JsonModel::Text(m.body_preview@))
    &&& has_member(row, "similarity"@, JsonModel::Single(m.shown))
}

proof fn lemma_manifest_lesson(l: ManifestLesson)
    ensures
        shows_manifest_lesson(manifest_lesson_value(l, moment_text(l.last_applied_at)), l),
{
    let m = manifest_lesson_value(l, moment_text(l.last_applied_at))->Object_0;
    assert(m[0].0 == "id"@ && m[1].0 == "description"@ && m[2].0 == "status"@ && m[3].0
        == "body_preview"@ && m[4].0 == "applied_count"@ && m[5].0 == "last_applied_at"@ && m[6].0
        == "target_skill"@);
    if let Some(g) = l.gate {
        assert(m[7] == ("gate"@, gate_value(g)));
        let inner = gate_value(g)->Object_0;
        assert(inner[0].0 == "kind"@ && inner[1].0 == "reason_count"@);
    }
}

proof fn lemma_manifest_memory(r: ManifestMemory)
    ensures
        shows_manifest_memory(manifest_memory_value(r), r),
{
    let m = manifest_memory_value(r)->Object_0;
    assert(m[0].0 == "id"@ && m[1].0 == "description"@ && m[2].0 == "body_preview"@ && m[3].0
        == "similarity"@);
}

/// A manifest shows every lesson and every memory of it, in their order, and each of its counts.
pub proof fn law_a_manifest_shows_all_of_it(m: &Manifest, j: Json)
    requires
        call_ensures(serialize_manifest, (m,), j),
    ensures
        exists|lessons: Seq<JsonModel>, memories: Seq<JsonModel>, stats: JsonModel|
            {
                let s = m.assembly_stats;
                &&& #[trigger] has_member(j.model(), "active_lessons"@, JsonModel::Array(lessons))
                &&& #[trigger] has_member(j.model(), "memories"@, JsonModel::Array(memories))
                &&& #[trigger] has_member(j.model(), "assembly_stats"@, stats)
                &&& has_member(j.model(), "active_skills"@, JsonModel::Array(Seq::empty()))
                &&& has_member(j.model(), "active_personas"@, JsonModel::Array(Seq::empty()))
                &&& has_member(j.model(), "active_teams"@, JsonModel::Array(Seq::empty()))
                &&& lessons.len() == m.active_lessons@.len()
                &&& forall|i: int|
                    0 <= i < lessons.len() ==> shows_manifest_lesson(
                        #[trigger] lessons[i],
                        m.active_lessons@[i],
                    )
                &&& memories.len() == m.memories@.len()
                &&& forall|i: int|
                    0 <= i < memories.len() ==> shows_manifest_memory(
                        #[trigger] memories[i],
                        m.memories@[i],
                    )
                &&& has_member(stats, "total_listed"@, JsonModel::Number(s.total_listed))
                &&& has_member(stats, "skipped_count"@, JsonModel::Number(s.skipped_count))
                &&& has_member(stats, "gate_skip_count"@, JsonModel::Number(s.gate_skip_count))
                &&& has_member(
                    stats,
                    "record_applied_failures"@,
                    JsonModel::Number(s.record_applied_failures),
                )
                &&& has_member(stats, "memories_returned"@, JsonModel::Number(s.memories_returned))
                &&& has_member(
                    stats,
                    "memory_search_failures"@,
                    JsonModel::Number(s.memory_search_failures),
                )
                &&& has_member(
                    stats,
                    "session_section_skips"@,
                    JsonModel::Number(s.session_section_skips),
                )
                &&& rfc3339_text(s.assembled_at.secs, s.assembled_at.nanos) matches Some(at)
                    ==> has_member(stats, "assembled_at"@, JsonModel::Text(at))
            },
{
    let lessons = m.active_lessons@.map_values(
        |l: ManifestLesson| manifest_lesson_value(l, moment_text(l.last_applied_at)),
    );
    let memories = m.memories@.map_values(|r: ManifestMemory| manifest_memory_value(r));
    let s = m.assembly_stats;
    let stats = stats_value(s, moment_text(Some(s.assembled_at)));
    let members = j.model()->Object_0;
    assert(members[0] == ("active_lessons"@, JsonModel::Array(lessons)));
    assert(members[1] == ("memories"@, JsonModel::Array(memories)));
    assert(members[2] == ("active_skills"@, JsonModel::Array(Seq::empty())));
    assert(members[3] == ("active_personas"@, JsonModel::Array(Seq::empty())));
    assert(members[4] == ("active_teams"@, JsonModel::Array(Seq::empty())));
    assert(members[5] == ("assembly_stats"@, stats));
    let inner = stats->Object_0;
    assert(inner[0].0 == "assembled_at"@);
    assert(inner[1].0 == "total_listed"@ && inner[2].0 == "skipped_count"@ && inner[3].0
        == "gate_skip_count"@ && inner[4].0 == "record_applied_failures"@ && inner[5].0
        == "memories_returned"@ && inner[6].0 == "memory_search_failures"@ && inner[7].0
        == "session_section_skips"@);
    assert forall|i: int| 0 <= i < lessons.len() implies shows_manifest_lesson(
        #[trigger] lessons[i],
        m.active_lessons@[i],
    ) by {
        lemma_manifest_lesson(m.active_lessons@[i]);
    }
    assert forall|i: int| 0 <= i < memories.len() implies shows_manifest_memory(
        #[trigger] memories[i],
        m.memories@[i],
    ) by {
        lemma_manifest_memory(m.memories@[i]);
    }
    assert(has_member(j.model(), "active_lessons"@, JsonModel::Array(lessons)));
    assert(has_member(j.model(), "memories"@, JsonModel::Array(memories)));
    assert(has_member(j.model(), "assembly_stats"@, stats));
}

} // verus!
