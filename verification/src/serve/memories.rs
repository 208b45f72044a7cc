//! The methods on memories.

use vstd::prelude::*;

use super::json::{
    Fields, Items, Json, JsonModel, boolean, has_member, no_members, null, number, opt, opt_value,
    owned, raw, single, strings, text, text_array,
};
use super::lessons::{
    list_limit, list_offset, lemma_text_order, page, page_answer, page_limit, query_answer,
    query_results, require_query,
};
use super::order::{
    Ordered, in_order, law_a_page_is_a_stretch_of_the_list, law_sorting_orders_and_keeps,
    lemma_filter_items, lemma_page_is_subrange, page_bounds, page_of, sort,
};
use super::rpc::{
    DispatchError, Outcome, OutcomeModel, RefusalModel, failed, failure, invalid, outcome_model,
    refuse,
};
use crate::engine::error::EngineError;
use crate::engine::memory::{
    MemoryId, MemoryScope, MemoryScopeFilter, ScopeKind, ScopeModel, law_kind_names_are_distinct,
};
use crate::engine::single::{at_least, clamp_unit, in_unit, not_below, unit_clamped};
use crate::engine::storage::StorageKey;
use crate::engine::yaml::schema::memory_texts;
use crate::path::{after_last_slash, lemma_last_slash};
use crate::text::{
    chars_occur_at, concat2, from_chars, has_suffix, is_blank, opt_text, text_before, text_less,
    texts, to_chars, trims_to_nothing,
};

verus! {

/// A scope as a value: its kind, or its kind with the id it names.
pub open spec fn scope_value(s: ScopeModel) -> JsonModel {
    match s.0 {
        ScopeKind::User => JsonModel::Text("user"@),
        ScopeKind::Global => JsonModel::Text("global"@),
        _ => JsonModel::Object(no_members().push((s.0.text(), JsonModel::Text(s.1)))),
    }
}

fn scope_json(s: &MemoryScope) -> (j: Json)
    ensures
        j.model() == scope_value(s@),
{
    match s {
        MemoryScope::User => text("user"),
        MemoryScope::Global => text("global"),
        MemoryScope::Team(id) => {
            let mut f = Fields::new();
            f.put("team", text(id.as_str()));
            f.done()
        },
        MemoryScope::Skill(id) => {
            let mut f = Fields::new();
            f.put("skill", text(id.as_str()));
            f.done()
        },
        MemoryScope::Project(id) => {
            let mut f = Fields::new();
            f.put("project", text(id.as_str()));
            f.done()
        },
    }
}

/// JSON text that may be missing, as a value.
pub open spec fn raw_value(o: Option<Seq<char>>) -> JsonModel {
    match o {
        Some(s) => JsonModel::Raw(s),
        None => JsonModel::Null,
    }
}

fn raw_json(o: &Option<String>) -> (j: Json)
    ensures
        j.model() == raw_value(opt_text(*o)),
{
    match o {
        Some(s) => raw(s.clone()),
        None => null(),
    }
}

/// Fails where the id is missing.
pub fn require_id(id: &str) -> (r: Result<(), DispatchError>)
    ensures
        match r {
            Ok(_) => !is_blank(id@),
            Err(e) => is_blank(id@) && e@ == RefusalModel::InvalidParams("id required"@),
        },
{
    if trims_to_nothing(id) {
        Err(refuse("id required"))
    } else {
        Ok(())
    }
}

/// A memory, as answers show it.
#[derive(Debug, Clone, PartialEq, Eq)]
pub struct MemoryView {
    pub id: MemoryId,
    pub description: String,
    pub content: String,
    pub created_at: String,
    pub updated_at: Option<String>,
    pub scope: MemoryScope,
    /// Where it came from, as JSON text.
    pub origin: Option<String>,
    pub consumed_by_user_lessons: u32,
    pub derived_from: Vec<MemoryId>,
}

fn id_strings(ids: &Vec<MemoryId>) -> (out: Vec<String>)
    ensures
        texts(out@) == memory_texts(ids@),
{
    let ghost all = memory_texts(ids@);
    let mut out: Vec<String> = Vec::new();
    let mut i: usize = 0;
    while i < ids.len()
        invariant
            i <= ids.len(),
            all == memory_texts(ids@),
            texts(out@) == all.take(i as int),
        decreases ids.len() - i,
    {
        out.push(ids[i].as_str().to_owned());
        proof {
            assert(texts(out@) =~= all.take(i as int).push(all[i as int]));
            assert(all.take(i + 1) =~= all.take(i as int).push(all[i as int]));
        }
        i += 1;
    }
    proof {
        assert(all.take(all.len() as int) =~= all);
    }
    out
}

// ---- memory.create -----------------------------------------------------------

/// Fails where a memory without description or content is to be made.
pub fn check_memory_create(description: &str, content: &str) -> (r: Result<(), DispatchError>)
    ensures
        match r {
            Ok(_) => !is_blank(description@) && !is_blank(content@),
            Err(e) => (is_blank(description@) || is_blank(content@)) && e@
                == RefusalModel::InvalidParams("description and content required"@),
        },
{
    if trims_to_nothing(description) || trims_to_nothing(content) {
        Err(refuse("description and content required"))
    } else {
        Ok(())
    }
}

/// The scope of a new memory: the one given, or the user's.
pub fn new_memory_scope(given: Option<MemoryScope>) -> (s: MemoryScope)
    ensures
        s@ == match given {
            Some(g) => g@,
            None => (ScopeKind::User, Seq::<char>::empty()),
        },
{
    match given {
        Some(g) => g,
        None => MemoryScope::default(),
    }
}

/// What making a memory is answered.
pub open spec fn create_outcome(made: Result<MemoryView, EngineError>) -> OutcomeModel {
    match made {
        Ok(m) => Ok(
            JsonModel::Object(
                no_members().push(("id"@, JsonModel::Text(m.id@))).push(
                    ("description"@, JsonModel::Text(m.description@)),
                ).push(("created_at"@, JsonModel::Text(m.created_at@))).push(
                    ("scope"@, scope_value(m.scope@)),
                ).push(("origin"@, raw_value(opt_text(m.origin)))),
            ),
        ),
        Err(e) => Err(failed("memory.insert"@, e.text())),
    }
}

/// Answers making a memory.
pub fn memory_create(made: Result<MemoryView, EngineError>) -> (o: Outcome)
    ensures
        outcome_model(o) == create_outcome(made),
{
    match made {
        Ok(m) => {
            let mut f = Fields::new();
            f.put("id", text(m.id.as_str()));
            f.put("description", text(m.description.as_str()));
            f.put("created_at", text(m.created_at.as_str()));
            f.put("scope", scope_json(&m.scope));
            f.put("origin", raw_json(&m.origin));
            Ok(f.done())
        },
        Err(e) => {
            let m = e.message();
            Err(failure("memory.insert", m.as_str()))
        },
    }
}

// ---- memory.search -----------------------------------------------------------

/// Which search is run.
#[derive(Debug, Clone, Copy, PartialEq, Eq, Structural)]
pub enum SearchMode {
    Semantic,
    Text,
    Hybrid,
}

impl Default for SearchMode {
    fn default() -> (m: SearchMode)
        ensures
            m == SearchMode::Semantic,
    {
        SearchMode::Semantic
    }
}

/// A scope filter as a request gives it.
#[derive(Debug, Clone, PartialEq, Eq)]
pub enum ScopeFilterWire {
    Exact { scope: MemoryScope },
    Kind { kind_name: String },
    AnyOf { scopes: Vec<MemoryScope> },
}

impl ScopeFilterWire {
    /// The filter, or the complaint about an unknown kind.
    pub open spec fn meaning(self) -> Result<MemoryScopeFilter, Seq<char>> {
        match self {
            ScopeFilterWire::Exact { scope } => Ok(MemoryScopeFilter::Exact(scope)),
            ScopeFilterWire::AnyOf { scopes } => Ok(MemoryScopeFilter::AnyOf(scopes)),
            ScopeFilterWire::Kind { kind_name } => if kind_name@ == "user"@ {
                Ok(MemoryScopeFilter::Kind(ScopeKind::User))
            } else if kind_name@ == "team"@ {
                Ok(MemoryScopeFilter::Kind(ScopeKind::Team))
            } else if kind_name@ == "skill"@ {
                Ok(MemoryScopeFilter::Kind(ScopeKind::Skill))
            } else if kind_name@ == "project"@ {
                Ok(MemoryScopeFilter::Kind(ScopeKind::Project))
            } else if kind_name@ == "global"@ {
                Ok(MemoryScopeFilter::Kind(ScopeKind::Global))
            } else {
                Err("unknown scope kind: "@ + kind_name@)
            },
        }
    }

    /// The filter that the request means.
    pub fn into_engine(self) -> (r: Result<MemoryScopeFilter, DispatchError>)
        ensures
            match self.meaning() {
                Ok(f) => r == Ok::<MemoryScopeFilter, DispatchError>(f),
                Err(m) => r is Err && r->Err_0@ == RefusalModel::InvalidParams(m),
            },
    {
        match self {
            ScopeFilterWire::Exact { scope } => Ok(MemoryScopeFilter::Exact(scope)),
            ScopeFilterWire::AnyOf { scopes } => Ok(MemoryScopeFilter::AnyOf(scopes)),
            ScopeFilterWire::Kind { kind_name } => match ScopeKind::parse(kind_name.as_str()) {
                Some(kind) => {
                    proof {
                        law_kind_names_are_distinct(kind);
                        assert(ScopeKind::User.text() == "user"@);
                        assert(ScopeKind::Team.text() == "team"@);
                        assert(ScopeKind::Skill.text() == "skill"@);
                        assert(ScopeKind::Project.text() == "project"@);
                        assert(ScopeKind::Global.text() == "global"@);
                    }
                    Ok(MemoryScopeFilter::Kind(kind))
                },
                None => {
                    proof {
                        assert(kind_name@ != ScopeKind::User.text());
                        assert(kind_name@ != ScopeKind::Team.text());
                        assert(kind_name@ != ScopeKind::Skill.text());
                        assert(kind_name@ != ScopeKind::Project.text());
                        assert(kind_name@ != ScopeKind::Global.text());
                    }
                    Err(
                        DispatchError::InvalidParams(
                            concat2("unknown scope kind: ", kind_name.as_str()),
                        ),
                    )
                },
            },
        }
    }
}

/// The filter of a request that may have none.
pub open spec fn filter_meaning(w: Option<ScopeFilterWire>) -> Result<
    Option<MemoryScopeFilter>,
    Seq<char>,
> {
    match w {
        None => Ok(None),
        Some(w) => match w.meaning() {
            Ok(f) => Ok(Some(f)),
            Err(m) => Err(m),
        },
    }
}

/// The filter of a request that may have none.
pub fn scope_filter(w: Option<ScopeFilterWire>) -> (r: Result<
    Option<MemoryScopeFilter>,
    DispatchError,
>)
    ensures
        match filter_meaning(w) {
            Ok(f) => r == Ok::<Option<MemoryScopeFilter>, DispatchError>(f),
            Err(m) => r is Err && r->Err_0@ == RefusalModel::InvalidParams(m),
        },
{
    match w {
        None => Ok(None),
        Some(w) => match w.into_engine() {
            Ok(f) => Ok(Some(f)),
            Err(e) => Err(e),
        },
    }
}

/// The parameters of `memory.search`.
#[derive(Debug, Clone, PartialEq, Eq)]
pub struct MemorySearchParams {
    pub query: String,
    pub limit: usize,
    pub include_body: bool,
    pub scope_filter: Option<ScopeFilterWire>,
    pub mode: Option<SearchMode>,
    /// A single-precision bit pattern.
    pub min_similarity: Option<u32>,
}

/// How a search is run.
#[derive(Debug, Clone, PartialEq, Eq)]
pub struct SearchPlan {
    pub query: String,
    pub limit: usize,
    /// How many characters of a body are shown.
    pub preview_len: usize,
    pub scope_filter: Option<MemoryScopeFilter>,
    pub mode: SearchMode,
    /// A single-precision bit pattern in the unit interval.
    pub min_similarity: u32,
}

/// Plans a search.
pub fn plan_search(p: MemorySearchParams) -> (r: Result<SearchPlan, DispatchError>)
    ensures
        match r {
            Ok(plan) => {
                &&& !is_blank(p.query@)
                &&& plan.query == p.query
                &&& plan.limit == p.limit
                &&& plan.preview_len == if p.include_body {
                    usize::MAX
                } else {
                    240
                }
                &&& filter_meaning(p.scope_filter) == Ok::<Option<MemoryScopeFilter>, Seq<char>>(
                    plan.scope_filter,
                )
                &&& plan.mode == match p.mode {
                    Some(m) => m,
                    None => SearchMode::Semantic,
                }
                &&& plan.min_similarity == match p.min_similarity {
                    Some(s) => unit_clamped(s),
                    None => 0,
                }
            },
            Err(e) => if is_blank(p.query@) {
                e@ == RefusalModel::InvalidParams("query required"@)
            } else {
                filter_meaning(p.scope_filter) is Err && e@ == RefusalModel::InvalidParams(
                    filter_meaning(p.scope_filter)->Err_0,
                )
            },
        },
{
    if let Err(e) = require_query(p.query.as_str()) {
        return Err(e);
    }
    let scope_filter = match scope_filter(p.scope_filter) {
        Ok(f) => f,
        Err(e) => return Err(e),
    };
    Ok(
        SearchPlan {
            query: p.query,
            limit: p.limit,
            preview_len: if p.include_body {
                usize::MAX
            } else {
                240
            },
            scope_filter,
            mode: match p.mode {
                Some(m) => m,
                None => SearchMode::Semantic,
            },
            min_similarity: match p.min_similarity {
                Some(s) => clamp_unit(s),
                None => 0,
            },
        },
    )
}

/// A hit of a search. Similarities are single-precision bit patterns.
#[derive(Debug, Clone, PartialEq, Eq)]
pub struct MemoryHit {
    pub id: MemoryId,
    pub description: String,
    pub body_preview: String,
    pub similarity: u32,
    /// The similarity as the answer shows it.
    pub shown: u32,
    /// Which search found it, as JSON text.
    pub source: Option<String>,
}

/// The hits that are similar enough. A hybrid search has seen to that itself.
pub open spec fn similar_enough(
    mode: SearchMode,
    min_similarity: u32,
    hits: Seq<MemoryHit>,
) -> Seq<MemoryHit>
    decreases hits.len(),
{
    if hits.len() == 0 {
        seq![]
    } else if mode == SearchMode::Hybrid || at_least(hits.last().similarity, min_similarity) {
        similar_enough(mode, min_similarity, hits.drop_last()).push(hits.last())
    } else {
        similar_enough(mode, min_similarity, hits.drop_last())
    }
}

/// A hit in the answer.
pub open spec fn hit_row(h: MemoryHit) -> JsonModel {
    let row = no_members().push(("kind"@, JsonModel::Text("memory"@))).push(
        ("id"@, JsonModel::Text(h.id@)),
    ).push(("description"@, JsonModel::Text(h.description@))).push(
        ("body_preview"@, JsonModel::Text(h.body_preview@)),
    ).push(("similarity"@, JsonModel::Single(h.shown)));
    JsonModel::Object(
        match opt_text(h.source) {
            Some(s) => row.push(("source"@, JsonModel::Raw(s))),
            None => row,
        },
    )
}

fn hit_object(h: MemoryHit) -> (j: Json)
    ensures
        j.model() == hit_row(h),
{
    let mut f = Fields::new();
    f.put("kind", text("memory"));
    f.put("id", text(h.id.as_str()));
    f.put("description", owned(h.description));
    f.put("body_preview", owned(h.body_preview));
    f.put("similarity", single(h.shown));
    if let Some(s) = h.source {
        f.put("source", raw(s));
    }
    f.done()
}

/// What each search calls itself in a failure.
pub open spec fn search_name(mode: SearchMode) -> Seq<char> {
    match mode {
        SearchMode::Semantic => "memory.search (semantic)"@,
        SearchMode::Text => "memory.search (text)"@,
        SearchMode::Hybrid => "memory.search (hybrid)"@,
    }
}

/// What a search is answered.
pub open spec fn search_outcome(
    plan: SearchPlan,
    found: Result<Seq<MemoryHit>, EngineError>,
) -> OutcomeModel {
    match found {
        Ok(hits) => Ok(
            query_answer(
                plan.query@,
                similar_enough(plan.mode, plan.min_similarity, hits).map_values(
                    |h: MemoryHit| hit_row(h),
                ),
            ),
        ),
        Err(e) => Err(failed(search_name(plan.mode), e.text())),
    }
}

/// Answers a search.
pub fn memory_search(plan: &SearchPlan, found: Result<Vec<MemoryHit>, EngineError>) -> (o: Outcome)
    ensures
        outcome_model(o) == search_outcome(
            *plan,
            match found {
                Ok(hits) => Ok(hits@),
                Err(e) => Err(e),
            },
        ),
{
    let hits = match found {
        Ok(hits) => hits,
        Err(e) => {
            let m = e.message();
            return Err(
                match plan.mode {
                    SearchMode::Semantic => failure("memory.search (semantic)", m.as_str()),
                    SearchMode::Text => failure("memory.search (text)", m.as_str()),
                    SearchMode::Hybrid => failure("memory.search (hybrid)", m.as_str()),
                },
            );
        },
    };
    let ghost all = hits@;
    let bound: usize = hits.len();
    let mut items = Items::new();
    let mut returned: usize = 0;
    let ghost mut kept: Seq<MemoryHit> = seq![];
    for h in it: hits
        invariant
            it.seq() == all,
            all.len() == bound,
            kept == similar_enough(
                plan.mode,
                plan.min_similarity,
                all.take(it.index() as int),
            ),
            items@ == kept.map_values(|h: MemoryHit| hit_row(h)),
            returned == kept.len(),
            kept.len() <= it.index(),
    {
        proof {
            assert(all.take(it.index() as int + 1).drop_last() =~= all.take(it.index() as int));
            assert(all.take(it.index() as int + 1).last() == h);
        }
        let keep = plan.mode == SearchMode::Hybrid || not_below(h.similarity, plan.min_similarity);
        if keep {
            proof {
                assert(kept.push(h).map_values(|h: MemoryHit| hit_row(h)) =~= kept.map_values(
                    |h: MemoryHit| hit_row(h),
                ).push(hit_row(h)));
                kept = kept.push(h);
            }
            items.put(hit_object(h));
            returned = returned + 1;
        }
    }
    proof {
        assert(all.take(all.len() as int) =~= all);
    }
    Ok(query_results(plan.query.as_str(), returned, items.done()))
}

// ---- memory.get --------------------------------------------------------------

/// What fetching a memory is answered.
pub open spec fn get_outcome(
    id: Seq<char>,
    found: Result<Option<MemoryView>, EngineError>,
) -> OutcomeModel {
    if is_blank(id) {
        invalid("id required"@)
    } else {
        match found {
            Ok(Some(m)) => Ok(
                JsonModel::Object(
                    no_members().push(("id"@, JsonModel::Text(m.id@))).push(
                        ("description"@, JsonModel::Text(m.description@)),
                    ).push(("content"@, JsonModel::Text(m.content@))).push(
                        ("created_at"@, JsonModel::Text(m.created_at@)),
                    ).push(("scope"@, scope_value(m.scope@))).push(
                        ("origin"@, raw_value(opt_text(m.origin))),
                    ).push(
                        (
                            "consumed_by_user_lessons"@,
                            JsonModel::Number(m.consumed_by_user_lessons as u64),
                        ),
                    ).push(("derived_from"@, text_array(memory_texts(m.derived_from@)))),
                ),
            ),
            Ok(None) => Err(RefusalModel::NotFound(id)),
            Err(e) => Err(failed("memory.get"@, e.text())),
        }
    }
}

/// Answers fetching a memory, with its whole content.
pub fn memory_get(id: &str, found: Result<Option<MemoryView>, EngineError>) -> (o: Outcome)
    ensures
        outcome_model(o) == get_outcome(id@, found),
{
    if let Err(e) = require_id(id) {
        return Err(e);
    }
    match found {
        Ok(Some(m)) => {
            let derived = id_strings(&m.derived_from);
            let mut f = Fields::new();
            f.put("id", text(m.id.as_str()));
            f.put("description", text(m.description.as_str()));
            f.put("content", text(m.content.as_str()));
            f.put("created_at", text(m.created_at.as_str()));
            f.put("scope", scope_json(&m.scope));
            f.put("origin", raw_json(&m.origin));
            f.put("consumed_by_user_lessons", number(m.consumed_by_user_lessons as u64));
            f.put("derived_from", strings(&derived));
            Ok(f.done())
        },
        Ok(None) => Err(DispatchError::NotFound(id.to_owned())),
        Err(e) => {
            let m = e.message();
            Err(failure("memory.get", m.as_str()))
        },
    }
}

// ---- memory.list -------------------------------------------------------------

/// The memory that a key is the file of: the last part of the key without `.md`.
pub open spec fn memory_of_key(key: Seq<char>) -> Option<Seq<char>> {
    if !has_suffix(key, ".md"@) {
        None
    } else {
        let name = key.skip(after_last_slash(key));
        Some(name.take(name.len() - 3))
    }
}

/// The memory that a key is the file of. Vectors and anything else are left out.
pub fn memory_id_of_key(key: &StorageKey) -> (id: Option<MemoryId>)
    ensures
        match memory_of_key(key@) {
            Some(m) => id is Some && id->0@ == m,
            None => id is None,
        },
{
    let chars = to_chars(key.as_str());
    let suffix = to_chars(".md");
    proof {
        reveal_strlit(".md");
        assert(suffix@.len() == 3);
    }
    let n: usize = chars.len();
    if n < 3 || !chars_occur_at(&chars, &suffix, n - 3) {
        return None;
    }
    let mut start: usize = n;
    proof {
        assert(chars@.take(n as int) =~= chars@);
    }
    while start > 0 && chars[start - 1] != '/'
        invariant
            start <= n,
            n == chars.len(),
            after_last_slash(chars@.take(start as int)) == after_last_slash(chars@),
        decreases start,
    {
        proof {
            assert(chars@.take(start as int).drop_last() =~= chars@.take(start - 1));
            assert(chars@.take(start as int).last() == chars@[start - 1]);
        }
        start -= 1;
    }
    proof {
        let front = chars@.take(start as int);
        if start > 0 {
            assert(front.last() == chars@[start - 1]);
        }
        assert(after_last_slash(chars@) == start);
        let tail = chars@.subrange(n - 3, n as int);
        assert(tail == ".md"@);
        assert(start <= n - 3) by {
            if start > n - 3 {
                assert(chars@[start - 1] == tail[start - 1 - (n - 3)]);
            }
        }
        let name = chars@.skip(start as int);
        assert(name.take(name.len() - 3) =~= chars@.subrange(start as int, n - 3));
    }
    Some(MemoryId::new(from_chars(&chars, start, n - 3)))
}

impl Ordered for MemoryView {
    open spec fn before(self, other: MemoryView) -> bool {
        text_less(self.id@, other.id@)
    }

    proof fn order(a: MemoryView, b: MemoryView, c: MemoryView) {
        lemma_text_order(a.id@, b.id@, c.id@);
    }

    fn comes_before(&self, other: &MemoryView) -> (b: bool) {
        text_before(self.id.as_str(), other.id.as_str())
    }
}

/// The parameters of `memory.list`.
#[derive(Debug, Clone, PartialEq, Eq)]
pub struct MemoryListParams {
    pub scope_filter: Option<MemoryScopeFilter>,
    pub limit: Option<usize>,
    pub offset: Option<usize>,
}

/// The memories that a filter lets through.
pub open spec fn in_scope(
    filter: Option<MemoryScopeFilter>,
    memories: Seq<MemoryView>,
) -> Seq<MemoryView>
    decreases memories.len(),
{
    if memories.len() == 0 {
        seq![]
    } else if filter is None || filter->0.admits(memories.last().scope@) {
        in_scope(filter, memories.drop_last()).push(memories.last())
    } else {
        in_scope(filter, memories.drop_last())
    }
}

/// A memory of a list in the answer, without its content.
pub open spec fn memory_row(m: MemoryView) -> JsonModel {
    JsonModel::Object(
        no_members().push(("id"@, JsonModel::Text(m.id@))).push(
            ("description"@, JsonModel::Text(m.description@)),
        ).push(("scope"@, scope_value(m.scope@))).push(
            ("origin"@, raw_value(opt_text(m.origin))),
        ).push(("created_at"@, JsonModel::Text(m.created_at@))).push(
            ("updated_at"@, opt_value(opt_text(m.updated_at))),
        ).push(
            (
                "consumed_by_user_lessons"@,
                JsonModel::Number(m.consumed_by_user_lessons as u64),
            ),
        ),
    )
}

fn memory_object(m: &MemoryView) -> (j: Json)
    ensures
        j.model() == memory_row(*m),
{
    let mut f = Fields::new();
    f.put("id", text(m.id.as_str()));
    f.put("description", text(m.description.as_str()));
    f.put("scope", scope_json(&m.scope));
    f.put("origin", raw_json(&m.origin));
    f.put("created_at", text(m.created_at.as_str()));
    f.put("updated_at", opt(&m.updated_at));
    f.put("consumed_by_user_lessons", number(m.consumed_by_user_lessons as u64));
    f.done()
}

fn keep_in_scope(filter: &Option<MemoryScopeFilter>, memories: Vec<MemoryView>) -> (kept: Vec<
    MemoryView,
>)
    ensures
        kept@ == in_scope(*filter, memories@),
{
    let ghost all = memories@;
    let mut kept: Vec<MemoryView> = Vec::new();
    for m in it: memories
        invariant
            it.seq() == all,
            kept@ == in_scope(*filter, all.take(it.index() as int)),
    {
        proof {
            assert(all.take(it.index() as int + 1).drop_last() =~= all.take(it.index() as int));
            assert(all.take(it.index() as int + 1).last() == m);
        }
        let keep = match filter {
            Some(f) => f.matches(&m.scope),
            None => true,
        };
        if keep {
            kept.push(m);
        }
    }
    proof {
        assert(all.take(all.len() as int) =~= all);
    }
    kept
}

/// A page of the memories that the filter lets through, by id.
pub fn memory_list(p: &MemoryListParams, memories: Vec<MemoryView>) -> (j: Json)
    ensures
        ({
            let kept = in_scope(p.scope_filter, memories@);
            j.model() == page_answer(
                kept.len(),
                list_limit(p.limit),
                list_offset(p.offset),
                page_of(
                    in_order(kept),
                    list_offset(p.offset) as nat,
                    list_limit(p.limit) as nat,
                ).map_values(|m: MemoryView| memory_row(m)),
            )
        }),
{
    let limit = page_limit(p.limit);
    let offset: usize = match p.offset {
        Some(n) => n,
        None => 0,
    };
    let kept = keep_in_scope(&p.scope_filter, memories);
    let total: usize = kept.len();
    proof {
        law_sorting_orders_and_keeps(kept@);
    }
    let sorted = sort(kept);
    let (from, to) = page_bounds(sorted.len(), offset, limit);
    let ghost shown = page_of(sorted@, offset as nat, limit as nat);
    proof {
        lemma_page_is_subrange(sorted@, offset as nat, limit as nat, from as int, to as int);
    }
    let ghost models = shown.map_values(|m: MemoryView| memory_row(m));
    let mut items = Items::new();
    let mut i: usize = from;
    while i < to
        invariant
            from <= i <= to <= sorted.len(),
            shown == sorted@.subrange(from as int, to as int),
            models == shown.map_values(|m: MemoryView| memory_row(m)),
            items@ == models.take(i - from),
        decreases to - i,
    {
        items.put(memory_object(&sorted[i]));
        proof {
            assert(models.take(i - from + 1) =~= models.take(i - from).push(models[i - from]));
        }
        i += 1;
    }
    proof {
        assert(models.take(models.len() as int) =~= models);
    }
    page(total, limit, offset, to - from, items.done())
}

// ---- memory.update, memory.delete --------------------------------------------

/// What is wrong with an update, if anything.
pub open spec fn update_objection(
    id: Seq<char>,
    description: Option<Seq<char>>,
    content: Option<Seq<char>>,
    has_scope: bool,
) -> Option<Seq<char>> {
    if is_blank(id) {
        Some("id required"@)
    } else if description is None && content is None && !has_scope {
        Some("at least one of description, content, scope must be supplied"@)
    } else {
        None
    }
}

/// Fails where an update has no id or changes nothing.
pub fn check_memory_update(
    id: &str,
    description: &Option<String>,
    content: &Option<String>,
    scope: &Option<MemoryScope>,
) -> (r: Result<(), DispatchError>)
    ensures
        match update_objection(id@, opt_text(*description), opt_text(*content), *scope is Some) {
            None => r is Ok,
            Some(m) => r is Err && r->Err_0@ == RefusalModel::InvalidParams(m),
        },
{
    if trims_to_nothing(id) {
        return Err(refuse("id required"));
    }
    if description.is_none() && content.is_none() && scope.is_none() {
        return Err(refuse("at least one of description, content, scope must be supplied"));
    }
    Ok(())
}

/// What an update is answered.
pub open spec fn update_outcome(
    id: Seq<char>,
    updated: Result<Option<MemoryView>, EngineError>,
) -> OutcomeModel {
    match updated {
        Ok(Some(m)) => Ok(
            JsonModel::Object(
                no_members().push(("ok"@, JsonModel::Bool(true))).push(
                    ("id"@, JsonModel::Text(m.id@)),
                ).push(("description"@, JsonModel::Text(m.description@))).push(
                    ("created_at"@, JsonModel::Text(m.created_at@)),
                ).push(("updated_at"@, opt_value(opt_text(m.updated_at)))).push(
                    ("scope"@, scope_value(m.scope@)),
                ).push(("origin"@, raw_value(opt_text(m.origin)))),
            ),
        ),
        Ok(None) => Err(RefusalModel::NotFound(id)),
        Err(e) => Err(failed("memory.update"@, e.text())),
    }
}

/// Answers an update, without the content.
pub fn memory_update(id: &str, updated: Result<Option<MemoryView>, EngineError>) -> (o: Outcome)
    ensures
        outcome_model(o) == update_outcome(id@, updated),
{
    match updated {
        Ok(Some(m)) => {
            let mut f = Fields::new();
            f.put("ok", boolean(true));
            f.put("id", text(m.id.as_str()));
            f.put("description", text(m.description.as_str()));
            f.put("created_at", text(m.created_at.as_str()));
            f.put("updated_at", opt(&m.updated_at));
            f.put("scope", scope_json(&m.scope));
            f.put("origin", raw_json(&m.origin));
            Ok(f.done())
        },
        Ok(None) => Err(DispatchError::NotFound(id.to_owned())),
        Err(e) => {
            let m = e.message();
            Err(failure("memory.update", m.as_str()))
        },
    }
}

/// What deleting a memory is answered.
pub open spec fn delete_outcome(
    id: Seq<char>,
    force: bool,
    deleted: Result<(), EngineError>,
) -> OutcomeModel {
    if is_blank(id) {
        invalid("id required"@)
    } else {
        match deleted {
            Ok(_) => Ok(
                JsonModel::Object(
                    no_members().push(("ok"@, JsonModel::Bool(true))).push(
                        ("id"@, JsonModel::Text(id)),
                    ).push(("forced"@, JsonModel::Bool(force))),
                ),
            ),
            Err(EngineError::UserMemoryImmune { id: immune, cited_by }) => Err(
                RefusalModel::UserMemoryImmune { id: immune@, cited_by },
            ),
            Err(e) => Err(failed("memory.delete"@, e.text())),
        }
    }
}

/// Answers deleting a memory.
pub fn memory_delete(id: &str, force: bool, deleted: Result<(), EngineError>) -> (o: Outcome)
    ensures
        outcome_model(o) == delete_outcome(id@, force, deleted),
{
    if let Err(e) = require_id(id) {
        return Err(e);
    }
    match deleted {
        Ok(_) => {
            let mut f = Fields::new();
            f.put("ok", boolean(true));
            f.put("id", text(id));
            f.put("forced", boolean(force));
            Ok(f.done())
        },
        Err(EngineError::UserMemoryImmune { id: immune, cited_by }) => Err(
            DispatchError::UserMemoryImmune { id: immune, cited_by },
        ),
        Err(e) => {
            let m = e.message();
            Err(failure("memory.delete", m.as_str()))
        },
    }
}

// ---- memory.compress, memory.consolidate -------------------------------------

/// Which of the two that need a language model.
#[derive(Debug, Clone, Copy, PartialEq, Eq, Structural)]
pub enum WindowMethod {
    Compress,
    Consolidate,
}

/// The refusal of a window before the language model is asked, if any.
pub open spec fn window_refusal(method: WindowMethod, ids: nat, has_llm: bool) -> Option<
    RefusalModel,
> {
    if ids == 0 {
        Some(RefusalModel::InvalidParams("ids required (non-empty)"@))
    } else if !has_llm {
        Some(
            RefusalModel::Other(
                match method {
                    WindowMethod::Compress =>
                        "memory.compress requires an LLM adapter, but none is configured on this engine"@,
                    WindowMethod::Consolidate =>
                        "memory.consolidate requires an LLM adapter, but none is configured on this engine"@,
                },
            ),
        )
    } else {
        None
    }
}

/// The memories of a window. Fails where there are none or nothing can summarize them.
pub fn check_window(method: WindowMethod, ids: &Vec<String>, has_llm: bool) -> (r: Result<
    Vec<MemoryId>,
    DispatchError,
>)
    ensures
        match window_refusal(method, ids@.len(), has_llm) {
            None => r is Ok && memory_texts(r->Ok_0@) == texts(ids@),
            Some(e) => r is Err && r->Err_0@ == e,
        },
{
    if ids.len() == 0 {
        return Err(refuse("ids required (non-empty)"));
    }
    if !has_llm {
        return Err(
            DispatchError::Other(
                match method {
                    WindowMethod::Compress =>
                        "memory.compress requires an LLM adapter, but none is configured on this engine".to_owned(),
                    WindowMethod::Consolidate =>
                        "memory.consolidate requires an LLM adapter, but none is configured on this engine".to_owned(),
                },
            ),
        );
    }
    let ghost all = texts(ids@);
    let mut out: Vec<MemoryId> = Vec::new();
    let mut i: usize = 0;
    while i < ids.len()
        invariant
            i <= ids.len(),
            all == texts(ids@),
            memory_texts(out@) == all.take(i as int),
        decreases ids.len() - i,
    {
        out.push(MemoryId::new(ids[i].clone()));
        proof {
            assert(memory_texts(out@) =~= all.take(i as int).push(all[i as int]));
            assert(all.take(i + 1) =~= all.take(i as int).push(all[i as int]));
        }
        i += 1;
    }
    proof {
        assert(all.take(all.len() as int) =~= all);
    }
    Ok(out)
}

/// What compressing is answered.
pub open spec fn compress_outcome(made: Result<MemoryView, EngineError>) -> OutcomeModel {
    match made {
        Ok(m) => Ok(
            JsonModel::Object(
                no_members().push(("id"@, JsonModel::Text(m.id@))).push(
                    ("description"@, JsonModel::Text(m.description@)),
                ).push(("derived_from"@, text_array(memory_texts(m.derived_from@)))).push(
                    (
                        "consumed_by_user_lessons"@,
                        JsonModel::Number(m.consumed_by_user_lessons as u64),
                    ),
                ),
            ),
        ),
        Err(EngineError::CompressionInsufficientInput) => invalid(
            "compression refused: insufficient input for the supplied window"@,
        ),
        Err(e) => Err(failed("memory.compress"@, e.text())),
    }
}

/// Answers compressing. A window that is too thin is no fault of the engine.
pub fn memory_compress(made: Result<MemoryView, EngineError>) -> (o: Outcome)
    ensures
        outcome_model(o) == compress_outcome(made),
{
    match made {
        Ok(m) => {
            let derived = id_strings(&m.derived_from);
            let mut f = Fields::new();
            f.put("id", text(m.id.as_str()));
            f.put("description", text(m.description.as_str()));
            f.put("derived_from", strings(&derived));
            f.put("consumed_by_user_lessons", number(m.consumed_by_user_lessons as u64));
            Ok(f.done())
        },
        Err(EngineError::CompressionInsufficientInput) => Err(
            refuse("compression refused: insufficient input for the supplied window"),
        ),
        Err(e) => {
            let m = e.message();
            Err(failure("memory.compress", m.as_str()))
        },
    }
}

/// What consolidating came to.
#[derive(Debug, Clone, PartialEq, Eq)]
pub struct Consolidation {
    pub mc_id: String,
    pub deleted: Vec<String>,
    pub kept_immune: Vec<String>,
    pub verified: bool,
}

/// What consolidating is answered.
pub open spec fn consolidate_outcome(done: Result<Consolidation, EngineError>) -> OutcomeModel {
    match done {
        Ok(c) => Ok(
            JsonModel::Object(
                no_members().push(("mc_id"@, JsonModel::Text(c.mc_id@))).push(
                    ("deleted"@, text_array(texts(c.deleted@))),
                ).push(("kept_immune"@, text_array(texts(c.kept_immune@)))).push(
                    ("verified"@, JsonModel::Bool(c.verified)),
                ),
            ),
        ),
        Err(EngineError::CompressionInsufficientInput) => invalid(
            "consolidation refused: insufficient input for the supplied window"@,
        ),
        Err(e) => Err(failed("memory.consolidate"@, e.text())),
    }
}

/// Answers consolidating.
pub fn memory_consolidate(done: Result<Consolidation, EngineError>) -> (o: Outcome)
    ensures
        outcome_model(o) == consolidate_outcome(done),
{
    match done {
        Ok(c) => {
            let mut f = Fields::new();
            f.put("mc_id", owned(c.mc_id));
            f.put("deleted", strings(&c.deleted));
            f.put("kept_immune", strings(&c.kept_immune));
            f.put("verified", boolean(c.verified));
            Ok(f.done())
        },
        Err(EngineError::CompressionInsufficientInput) => Err(
            refuse("consolidation refused: insufficient input for the supplied window"),
        ),
        Err(e) => {
            let m = e.message();
            Err(failure("memory.consolidate", m.as_str()))
        },
    }
}

/// What counting citations anew found.
#[derive(Debug, Clone, Copy, PartialEq, Eq)]
pub struct CitationStats {
    pub lessons_scanned: u64,
    pub memories_recomputed: u64,
    pub counters_repaired: u64,
    pub orphan_citations: u64,
}

/// What counting citations anew is answered.
pub open spec fn citations_outcome(stats: Result<CitationStats, EngineError>) -> OutcomeModel {
    match stats {
        Ok(s) => Ok(
            JsonModel::Object(
                no_members().push(("lessons_scanned"@, JsonModel::Number(s.lessons_scanned))).push(
                    ("memories_recomputed"@, JsonModel::Number(s.memories_recomputed)),
                ).push(("counters_repaired"@, JsonModel::Number(s.counters_repaired))).push(
                    ("orphan_citations"@, JsonModel::Number(s.orphan_citations)),
                ),
            ),
        ),
        Err(e) => Err(failed("memory.recompute_citations"@, e.text())),
    }
}

/// Answers counting citations anew.
pub fn memory_recompute_citations(stats: Result<CitationStats, EngineError>) -> (o: Outcome)
    ensures
        outcome_model(o) == citations_outcome(stats),
{
    match stats {
        Ok(s) => {
            let mut f = Fields::new();
            f.put("lessons_scanned", number(s.lessons_scanned));
            f.put("memories_recomputed", number(s.memories_recomputed));
            f.put("counters_repaired", number(s.counters_repaired));
            f.put("orphan_citations", number(s.orphan_citations));
            Ok(f.done())
        },
        Err(e) => {
            let m = e.message();
            Err(failure("memory.recompute_citations", m.as_str()))
        },
    }
}

// ---- Laws --------------------------------------------------------------------

/// A list shows only memories that the filter lets through, and every one of them is counted.
pub proof fn law_lists_respect_the_filter(filter: MemoryScopeFilter, memories: Seq<MemoryView>)
    ensures
        forall|i: int|
            0 <= i < in_scope(Some(filter), memories).len() ==> filter.admits(
                (#[trigger] in_scope(Some(filter), memories)[i]).scope@,
            ),
        forall|i: int|
            0 <= i < memories.len() && filter.admits((#[trigger] memories[i]).scope@) ==> in_scope(
                Some(filter),
                memories,
            ).contains(memories[i]),
    decreases memories.len(),
{
    if memories.len() > 0 {
        let rest = memories.drop_last();
        let before = in_scope(Some(filter), rest);
        let now = in_scope(Some(filter), memories);
        law_lists_respect_the_filter(filter, rest);
        assert forall|i: int| 0 <= i < now.len() implies filter.admits(
            (#[trigger] now[i]).scope@,
        ) by {
            if i < before.len() {
                assert(now[i] == before[i]);
            }
        }
        assert forall|i: int|
            0 <= i < memories.len() && filter.admits(
                (#[trigger] memories[i]).scope@,
            ) implies now.contains(memories[i]) by {
            if i < rest.len() {
                assert(rest[i] == memories[i]);
                let k = choose|k: int| 0 <= k < before.len() && before[k] == rest[i];
                assert(now[k] == memories[i]);
            } else {
                assert(now[now.len() - 1] == memories[i]);
            }
        }
    }
}

/// Outside a hybrid search no hit is less similar than asked for.
pub proof fn law_hits_are_similar_enough(
    mode: SearchMode,
    min_similarity: u32,
    hits: Seq<MemoryHit>,
)
    requires
        mode != SearchMode::Hybrid,
    ensures
        forall|i: int|
            0 <= i < similar_enough(mode, min_similarity, hits).len() ==> at_least(
                (#[trigger] similar_enough(mode, min_similarity, hits)[i]).similarity,
                min_similarity,
            ),
    decreases hits.len(),
{
    if hits.len() > 0 {
        law_hits_are_similar_enough(mode, min_similarity, hits.drop_last());
        let before = similar_enough(mode, min_similarity, hits.drop_last());
        let now = similar_enough(mode, min_similarity, hits);
        assert forall|i: int| 0 <= i < now.len() implies at_least(
            (#[trigger] now[i]).similarity,
            min_similarity,
        ) by {
            if i < before.len() {
                assert(now[i] == before[i]);
            }
        }
    }
}

/// Whether a row of an answer shows a hit.
pub open spec fn shows_hit(row: JsonModel, h: MemoryHit) -> bool {
    &&& has_member(row, "kind"@, JsonModel::Text("memory"@))
    &&& has_member(row, "id"@, JsonModel::Text(h.id@))
    &&& has_member(row, "description"@, JsonModel::Text(h.description@))
    &&& has_member(row, "body_preview"@, JsonModel::Text(h.body_preview@))
    &&& has_member(row, "similarity"@, JsonModel::Single(h.shown))
    &&& h.source matches Some(s) ==> has_member(row, "source"@, JsonModel::Raw(s@))
    &&& h.source is None ==> row->Object_0.len() == 5
}

/// Whether a value stands for a scope: its kind, or for the kinds that name something an object
/// from the kind to the name.
pub open spec fn shows_scope(j: JsonModel, scope: ScopeModel) -> bool {
    &&& scope.0 == ScopeKind::User ==> j == JsonModel::Text("user"@)
    &&& scope.0 == ScopeKind::Global ==> j == JsonModel::Text("global"@)
    &&& scope.0 == ScopeKind::Team ==> has_member(j, "team"@, JsonModel::Text(scope.1))
    &&& scope.0 == ScopeKind::Skill ==> has_member(j, "skill"@, JsonModel::Text(scope.1))
    &&& scope.0 == ScopeKind::Project ==> has_member(j, "project"@, JsonModel::Text(scope.1))
    &&& j is Object ==> j->Object_0.len() == 1
}

/// Whether an object tells the scope and the origin of a memory.
pub open spec fn tells_origin(j: JsonModel, m: MemoryView) -> bool {
    &&& exists|scope: JsonModel| #[trigger]
        has_member(j, "scope"@, scope) && shows_scope(scope, m.scope@)
    &&& m.origin matches Some(s) ==> has_member(j, "origin"@, JsonModel::Raw(s@))
    &&& m.origin is None ==> has_member(j, "origin"@, JsonModel::Null)
}

/// Whether a row of an answer shows a memory of a list.
pub open spec fn shows_memory(row: JsonModel, m: MemoryView) -> bool {
    &&& has_member(row, "id"@, JsonModel::Text(m.id@))
    &&& has_member(row, "description"@, JsonModel::Text(m.description@))
    &&& has_member(row, "created_at"@, JsonModel::Text(m.created_at@))
    &&& m.updated_at matches Some(s) ==> has_member(row, "updated_at"@, JsonModel::Text(s@))
    &&& m.updated_at is None ==> has_member(row, "updated_at"@, JsonModel::Null)
    &&& has_member(
        row,
        "consumed_by_user_lessons"@,
        JsonModel::Number(m.consumed_by_user_lessons as u64),
    )
    &&& tells_origin(row, m)
}

proof fn lemma_similar_enough(mode: SearchMode, min: u32, hits: Seq<MemoryHit>)
    ensures
        similar_enough(mode, min, hits) == hits.filter(
            |h: MemoryHit| mode == SearchMode::Hybrid || at_least(h.similarity, min),
        ),
    decreases hits.len(),
{
    reveal(Seq::filter);
    if hits.len() > 0 {
        lemma_similar_enough(mode, min, hits.drop_last());
    }
}

proof fn lemma_in_scope(filter: Option<MemoryScopeFilter>, memories: Seq<MemoryView>)
    ensures
        in_scope(filter, memories) == memories.filter(
            |m: MemoryView| filter is None || filter->0.admits(m.scope@),
        ),
    decreases memories.len(),
{
    reveal(Seq::filter);
    if memories.len() > 0 {
        lemma_in_scope(filter, memories.drop_last());
    }
}

proof fn lemma_hit_row(h: MemoryHit)
    ensures
        shows_hit(hit_row(h), h),
{
    let m = hit_row(h)->Object_0;
    assert(m[0].0 == "kind"@ && m[1].0 == "id"@ && m[2].0 == "description"@ && m[3].0
        == "body_preview"@ && m[4].0 == "similarity"@);
    if let Some(s) = h.source {
        assert(m[5] == ("source"@, JsonModel::Raw(s@)));
    }
}

proof fn lemma_scope_value(scope: ScopeModel)
    ensures
        shows_scope(scope_value(scope), scope),
{
    if scope.0 != ScopeKind::User && scope.0 != ScopeKind::Global {
        assert(scope_value(scope)->Object_0[0] == (scope.0.text(), JsonModel::Text(scope.1)));
    }
}

proof fn lemma_memory_row(v: MemoryView)
    ensures
        shows_memory(memory_row(v), v),
{
    let m = memory_row(v)->Object_0;
    lemma_scope_value(v.scope@);
    assert(m[0].0 == "id"@ && m[1].0 == "description"@ && m[3].0 == "origin"@ && m[4].0
        == "created_at"@ && m[5].0 == "updated_at"@ && m[6].0 == "consumed_by_user_lessons"@);
    assert(m[2] == ("scope"@, scope_value(v.scope@)));
    assert(has_member(memory_row(v), "scope"@, scope_value(v.scope@)));
}

/// In every mode a search shows each hit that is at least as similar as asked for, in the order
/// they were found in; a hybrid search shows every hit. Nothing else is shown.
pub proof fn law_a_search_shows_every_similar_hit(
    plan: &SearchPlan,
    hits: Vec<MemoryHit>,
    o: Outcome,
)
    requires
        call_ensures(memory_search, (plan, Ok(hits)), o),
    ensures
        exists|rows: Seq<JsonModel>|
            {
                let kept = hits@.filter(
                    |h: MemoryHit|
                        plan.mode == SearchMode::Hybrid || at_least(
                            h.similarity,
                            plan.min_similarity,
                        ),
                );
                &&& outcome_model(o) is Ok
                &&& has_member(outcome_model(o)->Ok_0, "query"@, JsonModel::Text(plan.query@))
                &&& has_member(
                    outcome_model(o)->Ok_0,
                    "returned"@,
                    JsonModel::Number(kept.len() as u64),
                )
                &&& #[trigger] has_member(
                    outcome_model(o)->Ok_0,
                    "results"@,
                    JsonModel::Array(rows),
                )
                &&& rows.len() == kept.len()
                &&& forall|i: int| 0 <= i < rows.len() ==> shows_hit(#[trigger] rows[i], kept[i])
            },
        forall|i: int|
            0 <= i < hits@.len() && (plan.mode == SearchMode::Hybrid || at_least(
                (#[trigger] hits@[i]).similarity,
                plan.min_similarity,
            )) ==> exists|rows: Seq<JsonModel>, k: int|
                {
                    &&& has_member(
                        outcome_model(o)->Ok_0,
                        "results"@,
                        JsonModel::Array(rows),
                    )
                    &&& 0 <= k < rows.len()
                    &&& shows_hit(#[trigger] rows[k], hits@[i])
                },
{
    let p = |h: MemoryHit|
        plan.mode == SearchMode::Hybrid || at_least(h.similarity, plan.min_similarity);
    let kept = hits@.filter(p);
    lemma_similar_enough(plan.mode, plan.min_similarity, hits@);
    lemma_filter_items(hits@, p);
    let rows = kept.map_values(|h: MemoryHit| hit_row(h));
    let m = outcome_model(o)->Ok_0->Object_0;
    assert(m[0] == ("query"@, JsonModel::Text(plan.query@)));
    assert(m[1] == ("returned"@, JsonModel::Number(rows.len() as u64)));
    assert(m[2] == ("results"@, JsonModel::Array(rows)));
    assert forall|i: int| 0 <= i < rows.len() implies shows_hit(#[trigger] rows[i], kept[i]) by {
        lemma_hit_row(kept[i]);
    }
    assert(has_member(outcome_model(o)->Ok_0, "results"@, JsonModel::Array(rows)));
    assert forall|i: int|
        0 <= i < hits@.len() && (plan.mode == SearchMode::Hybrid || at_least(
            (#[trigger] hits@[i]).similarity,
            plan.min_similarity,
        )) implies exists|rows: Seq<JsonModel>, k: int|
        {
            &&& has_member(outcome_model(o)->Ok_0, "results"@, JsonModel::Array(rows))
            &&& 0 <= k < rows.len()
            &&& shows_hit(#[trigger] rows[k], hits@[i])
        } by {
        assert(p(hits@[i]));
        assert(kept.contains(hits@[i]));
        let k = choose|k: int| 0 <= k < kept.len() && kept[k] == hits@[i];
        assert(shows_hit(rows[k], hits@[i]));
    }
}

/// A search that failed says in which mode.
pub proof fn law_a_failed_search_names_its_mode(plan: &SearchPlan, e: EngineError, o: Outcome)
    requires
        call_ensures(memory_search, (plan, Err(e)), o),
    ensures
        plan.mode == SearchMode::Semantic ==> outcome_model(o) == Err::<JsonModel, RefusalModel>(
            failed("memory.search (semantic)"@, e.text()),
        ),
        plan.mode == SearchMode::Text ==> outcome_model(o) == Err::<JsonModel, RefusalModel>(
            failed("memory.search (text)"@, e.text()),
        ),
        plan.mode == SearchMode::Hybrid ==> outcome_model(o) == Err::<JsonModel, RefusalModel>(
            failed("memory.search (hybrid)"@, e.text()),
        ),
{
}

/// A list shows a stretch of the memories that the filter lets through, ordered by id: from the
/// offset on, and as many as the limit says, which is 50 where none is given and at most 500.
pub proof fn law_memories_are_listed_by_id(p: &MemoryListParams, memories: Vec<MemoryView>, j: Json)
    requires
        call_ensures(memory_list, (p, memories), j),
    ensures
        exists|sorted: Seq<MemoryView>, shown: Seq<JsonModel>|
            {
                let kept = memories@.filter(
                    |m: MemoryView| p.scope_filter is None || p.scope_filter->0.admits(m.scope@),
                );
                let offset: int = match p.offset {
                    Some(n) => n as int,
                    None => 0,
                };
                let limit: int = match p.limit {
                    Some(n) => if n <= 500 {
                        n as int
                    } else {
                        500
                    },
                    None => 50,
                };
                &&& #[trigger] sorted.to_multiset() == kept.to_multiset()
                &&& forall|a: int, b: int|
                    0 <= a < b < sorted.len() ==> !text_less(
                        (#[trigger] sorted[b]).id@,
                        (#[trigger] sorted[a]).id@,
                    )
                &&& has_member(j.model(), "total"@, JsonModel::Number(kept.len() as u64))
                &&& has_member(j.model(), "limit"@, JsonModel::Number(limit as u64))
                &&& has_member(j.model(), "offset"@, JsonModel::Number(offset as u64))
                &&& has_member(j.model(), "returned"@, JsonModel::Number(shown.len() as u64))
                &&& #[trigger] has_member(j.model(), "results"@, JsonModel::Array(shown))
                &&& offset >= kept.len() ==> shown.len() == 0
                &&& offset + limit <= kept.len() ==> shown.len() == limit
                &&& offset <= kept.len() <= offset + limit ==> shown.len() == kept.len() - offset
                &&& forall|i: int|
                    0 <= i < shown.len() ==> shows_memory(#[trigger] shown[i], sorted[offset + i])
            },
{
    let kept = in_scope(p.scope_filter, memories@);
    lemma_in_scope(p.scope_filter, memories@);
    let sorted = in_order(kept);
    let offset = list_offset(p.offset) as nat;
    let limit = list_limit(p.limit) as nat;
    let page = page_of(sorted, offset, limit);
    let shown = page.map_values(|m: MemoryView| memory_row(m));
    law_sorting_orders_and_keeps(kept);
    law_a_page_is_a_stretch_of_the_list(sorted, offset, limit);
    let m = j.model()->Object_0;
    assert(m[0].0 == "total"@ && m[1].0 == "limit"@ && m[2].0 == "offset"@ && m[3].0 == "returned"@);
    assert(m[4] == ("results"@, JsonModel::Array(shown)));
    assert forall|i: int| 0 <= i < shown.len() implies shows_memory(
        #[trigger] shown[i],
        sorted[offset + i],
    ) by {
        lemma_memory_row(page[i]);
    }
    assert(sorted.to_multiset() == kept.to_multiset());
    assert(has_member(j.model(), "results"@, JsonModel::Array(shown)));
}

/// A memory that was fetched is shown with its whole content; one that is not there is not found.
pub proof fn law_a_fetched_memory_is_shown_whole(
    id: &str,
    found: Result<Option<MemoryView>, EngineError>,
    o: Outcome,
)
    requires
        call_ensures(memory_get, (id, found), o),
    ensures
        outcome_model(o) is Ok <==> !is_blank(id@) && found is Ok && found->Ok_0 is Some,
        is_blank(id@) ==> outcome_model(o) == Err::<JsonModel, RefusalModel>(
            RefusalModel::InvalidParams("id required"@),
        ),
        !is_blank(id@) ==> (found matches Ok(None) ==> outcome_model(o) == Err::<
            JsonModel,
            RefusalModel,
        >(RefusalModel::NotFound(id@))),
        !is_blank(id@) ==> (found matches Ok(Some(m)) ==> {
            let j = outcome_model(o)->Ok_0;
            &&& has_member(j, "id"@, JsonModel::Text(m.id@))
            &&& has_member(j, "description"@, JsonModel::Text(m.description@))
            &&& has_member(j, "content"@, JsonModel::Text(m.content@))
            &&& has_member(j, "created_at"@, JsonModel::Text(m.created_at@))
            &&& tells_origin(j, m)
            &&& has_member(
                j,
                "consumed_by_user_lessons"@,
                JsonModel::Number(m.consumed_by_user_lessons as u64),
            )
            &&& has_member(j, "derived_from"@, text_array(memory_texts(m.derived_from@)))
        }),
        !is_blank(id@) && found is Err ==> outcome_model(o) == Err::<JsonModel, RefusalModel>(
            failed("memory.get"@, found->Err_0.text()),
        ),
{
    if !is_blank(id@) {
        if let Ok(Some(v)) = found {
            let m = outcome_model(o)->Ok_0->Object_0;
            lemma_scope_value(v.scope@);
            assert(m[0].0 == "id"@ && m[1].0 == "description"@ && m[2].0 == "content"@ && m[3].0
                == "created_at"@ && m[5].0 == "origin"@ && m[6].0 == "consumed_by_user_lessons"@
                && m[7].0 == "derived_from"@);
            assert(m[4] == ("scope"@, scope_value(v.scope@)));
            assert(has_member(outcome_model(o)->Ok_0, "scope"@, scope_value(v.scope@)));
        }
    }
}

/// A memory that was made is told back.
pub proof fn law_a_made_memory_is_told_back(made: Result<MemoryView, EngineError>, o: Outcome)
    requires
        call_ensures(memory_create, (made,), o),
    ensures
        outcome_model(o) is Ok <==> made is Ok,
        made matches Ok(m) ==> {
            let j = outcome_model(o)->Ok_0;
            &&& has_member(j, "id"@, JsonModel::Text(m.id@))
            &&& has_member(j, "description"@, JsonModel::Text(m.description@))
            &&& has_member(j, "created_at"@, JsonModel::Text(m.created_at@))
            &&& tells_origin(j, m)
        },
        made is Err ==> outcome_model(o) == Err::<JsonModel, RefusalModel>(
            failed("memory.insert"@, made->Err_0.text()),
        ),
{
    if let Ok(v) = made {
        let m = outcome_model(o)->Ok_0->Object_0;
        lemma_scope_value(v.scope@);
        assert(m[0].0 == "id"@ && m[1].0 == "description"@ && m[2].0 == "created_at"@ && m[4].0
            == "origin"@);
        assert(m[3] == ("scope"@, scope_value(v.scope@)));
        assert(has_member(outcome_model(o)->Ok_0, "scope"@, scope_value(v.scope@)));
    }
}

/// A memory that was changed is told back as it is now; one that is not there is not found.
pub proof fn law_a_changed_memory_is_told_back(
    id: &str,
    updated: Result<Option<MemoryView>, EngineError>,
    o: Outcome,
)
    requires
        call_ensures(memory_update, (id, updated), o),
    ensures
        outcome_model(o) is Ok <==> updated is Ok && updated->Ok_0 is Some,
        updated matches Ok(None) ==> outcome_model(o) == Err::<JsonModel, RefusalModel>(
            RefusalModel::NotFound(id@),
        ),
        updated matches Ok(Some(m)) ==> {
            let j = outcome_model(o)->Ok_0;
            &&& has_member(j, "ok"@, JsonModel::Bool(true))
            &&& has_member(j, "id"@, JsonModel::Text(m.id@))
            &&& has_member(j, "description"@, JsonModel::Text(m.description@))
            &&& has_member(j, "created_at"@, JsonModel::Text(m.created_at@))
            &&& m.updated_at matches Some(s) ==> has_member(
                j,
                "updated_at"@,
                JsonModel::Text(s@),
            )
            &&& m.updated_at is None ==> has_member(j, "updated_at"@, JsonModel::Null)
            &&& tells_origin(j, m)
        },
        updated is Err ==> outcome_model(o) == Err::<JsonModel, RefusalModel>(
            failed("memory.update"@, updated->Err_0.text()),
        ),
{
    if let Ok(Some(v)) = updated {
        let m = outcome_model(o)->Ok_0->Object_0;
        lemma_scope_value(v.scope@);
        assert(m[0].0 == "ok"@ && m[1].0 == "id"@ && m[2].0 == "description"@ && m[3].0
            == "created_at"@ && m[4].0 == "updated_at"@ && m[6].0 == "origin"@);
        assert(m[5] == ("scope"@, scope_value(v.scope@)));
        assert(has_member(outcome_model(o)->Ok_0, "scope"@, scope_value(v.scope@)));
    }
}

/// A deletion names the memory; a cited memory of the user is immune, and by how many lessons.
pub proof fn law_deletion_is_answered(
    id: &str,
    force: bool,
    deleted: Result<(), EngineError>,
    o: Outcome,
)
    requires
        call_ensures(memory_delete, (id, force, deleted), o),
    ensures
        outcome_model(o) is Ok <==> !is_blank(id@) && deleted is Ok,
        is_blank(id@) ==> outcome_model(o) == Err::<JsonModel, RefusalModel>(
            RefusalModel::InvalidParams("id required"@),
        ),
        outcome_model(o) matches Ok(j) ==> {
            &&& has_member(j, "ok"@, JsonModel::Bool(true))
            &&& has_member(j, "id"@, JsonModel::Text(id@))
            &&& has_member(j, "forced"@, JsonModel::Bool(force))
        },
        !is_blank(id@) ==> (deleted matches Err(
            EngineError::UserMemoryImmune { id: immune, cited_by },
        ) ==> outcome_model(o) == Err::<JsonModel, RefusalModel>(
            RefusalModel::UserMemoryImmune { id: immune@, cited_by },
        )),
        !is_blank(id@) && deleted is Err && deleted->Err_0 !is UserMemoryImmune ==> outcome_model(o) == Err::<JsonModel, RefusalModel>(
            failed("memory.delete"@, deleted->Err_0.text()),
        ),
{
    if let Ok(j) = outcome_model(o) {
        let m = j->Object_0;
        assert(m[0].0 == "ok"@ && m[1].0 == "id"@ && m[2].0 == "forced"@);
    }
}

/// A window needs ids, and a model to work on them; the ids are then taken as they are.
pub proof fn law_a_window_needs_ids_and_a_model(
    method: WindowMethod,
    ids: &Vec<String>,
    has_llm: bool,
    r: Result<Vec<MemoryId>, DispatchError>,
)
    requires
        call_ensures(check_window, (method, ids, has_llm), r),
    ensures
        r is Ok <==> ids@.len() > 0 && has_llm,
        r matches Ok(v) ==> v@.len() == ids@.len() && forall|i: int|
            0 <= i < v@.len() ==> (#[trigger] v@[i])@ == ids@[i]@,
        r is Err && ids@.len() == 0 ==> r->Err_0@ is InvalidParams,
        r is Err && ids@.len() > 0 ==> r->Err_0@ is Other,
{
    if let Ok(v) = r {
        assert(memory_texts(v@).len() == v@.len());
        assert forall|i: int| 0 <= i < v@.len() implies (#[trigger] v@[i])@ == ids@[i]@ by {
            assert(memory_texts(v@)[i] == v@[i]@);
            assert(texts(ids@)[i] == ids@[i]@);
        }
    }
}

/// A compression tells what it was made from; one without enough input is refused.
pub proof fn law_compression_is_answered(made: Result<MemoryView, EngineError>, o: Outcome)
    requires
        call_ensures(memory_compress, (made,), o),
    ensures
        outcome_model(o) is Ok <==> made is Ok,
        made matches Ok(m) ==> {
            let j = outcome_model(o)->Ok_0;
            &&& has_member(j, "id"@, JsonModel::Text(m.id@))
            &&& has_member(j, "description"@, JsonModel::Text(m.description@))
            &&& has_member(j, "derived_from"@, text_array(memory_texts(m.derived_from@)))
            &&& has_member(
                j,
                "consumed_by_user_lessons"@,
                JsonModel::Number(m.consumed_by_user_lessons as u64),
            )
        },
        made matches Err(EngineError::CompressionInsufficientInput) ==> outcome_model(o)->Err_0
            == RefusalModel::InvalidParams(
            "compression refused: insufficient input for the supplied window"@,
        ),
        made is Err && made->Err_0 !is CompressionInsufficientInput ==> outcome_model(o) == Err::<JsonModel, RefusalModel>(
            failed("memory.compress"@, made->Err_0.text()),
        ),
{
    if made is Ok {
        let m = outcome_model(o)->Ok_0->Object_0;
        assert(m[0].0 == "id"@ && m[1].0 == "description"@ && m[2].0 == "derived_from"@ && m[3].0
            == "consumed_by_user_lessons"@);
    }
}

/// A consolidation tells what was deleted and what was kept.
pub proof fn law_consolidation_is_answered(done: Result<Consolidation, EngineError>, o: Outcome)
    requires
        call_ensures(memory_consolidate, (done,), o),
    ensures
        outcome_model(o) is Ok <==> done is Ok,
        done matches Ok(c) ==> {
            let j = outcome_model(o)->Ok_0;
            &&& has_member(j, "mc_id"@, JsonModel::Text(c.mc_id@))
            &&& has_member(j, "deleted"@, text_array(texts(c.deleted@)))
            &&& has_member(j, "kept_immune"@, text_array(texts(c.kept_immune@)))
            &&& has_member(j, "verified"@, JsonModel::Bool(c.verified))
        },
        done matches Err(EngineError::CompressionInsufficientInput) ==> outcome_model(o)->Err_0
            == RefusalModel::InvalidParams(
            "consolidation refused: insufficient input for the supplied window"@,
        ),
        done is Err && done->Err_0 !is CompressionInsufficientInput ==> outcome_model(o) == Err::<JsonModel, RefusalModel>(
            failed("memory.consolidate"@, done->Err_0.text()),
        ),
{
    if done is Ok {
        let m = outcome_model(o)->Ok_0->Object_0;
        assert(m[0].0 == "mc_id"@ && m[1].0 == "deleted"@ && m[2].0 == "kept_immune"@ && m[3].0
            == "verified"@);
    }
}

/// A recount of citations tells each of its four counts.
pub proof fn law_recounts_are_answered(stats: Result<CitationStats, EngineError>, o: Outcome)
    requires
        call_ensures(memory_recompute_citations, (stats,), o),
    ensures
        outcome_model(o) is Ok <==> stats is Ok,
        stats matches Ok(s) ==> {
            let j = outcome_model(o)->Ok_0;
            &&& has_member(j, "lessons_scanned"@, JsonModel::Number(s.lessons_scanned))
            &&& has_member(j, "memories_recomputed"@, JsonModel::Number(s.memories_recomputed))
            &&& has_member(j, "counters_repaired"@, JsonModel::Number(s.counters_repaired))
            &&& has_member(j, "orphan_citations"@, JsonModel::Number(s.orphan_citations))
        },
        stats is Err ==> outcome_model(o) == Err::<JsonModel, RefusalModel>(
            failed("memory.recompute_citations"@, stats->Err_0.text()),
        ),
{
    if stats is Ok {
        let m = outcome_model(o)->Ok_0->Object_0;
        assert(m[0].0 == "lessons_scanned"@ && m[1].0 == "memories_recomputed"@ && m[2].0
            == "counters_repaired"@ && m[3].0 == "orphan_citations"@);
    }
}

/// A change of a memory must change something: the id is needed, and one of description, content
/// and scope.
pub proof fn law_a_change_changes_something(
    id: &str,
    description: &Option<String>,
    content: &Option<String>,
    scope: &Option<MemoryScope>,
    r: Result<(), DispatchError>,
)
    requires
        call_ensures(check_memory_update, (id, description, content, scope), r),
    ensures
        r is Ok <==> !is_blank(id@) && (description is Some || content is Some || scope is Some),
        r is Err ==> r->Err_0@ is InvalidParams,
{
}

proof fn lemma_memory_of_key(dir: Seq<char>, name: Seq<char>)
    requires
        dir.len() > 0 ==> dir.last() == '/',
        forall|i: int| 0 <= i < name.len() ==> (#[trigger] name[i]) != '/',
    ensures
        memory_of_key(dir + name + ".md"@) == Some(name),
{
    reveal_strlit(".md");
    let suffix = ".md"@;
    let whole = dir + name + suffix;
    assert(whole.len() == dir.len() + name.len() + 3);
    assert(whole.subrange(whole.len() - 3, whole.len() as int) =~= suffix);
    assert(has_suffix(whole, suffix));
    assert forall|i: int| dir.len() <= i < whole.len() implies (#[trigger] whole[i]) != '/' by {
        if i < dir.len() + name.len() {
            assert(whole[i] == name[i - dir.len()]);
        } else {
            assert(whole[i] == suffix[i - dir.len() - name.len()]);
        }
    }
    if dir.len() > 0 {
        assert(whole[dir.len() - 1] == dir.last());
    }
    lemma_last_slash(whole, dir.len() as int);
    let rest = whole.skip(dir.len() as int);
    assert(rest.take(rest.len() - 3) =~= name);
}

/// The file of a memory is named after it, in whatever directory it stands; a key that does not
/// end in `.md` is no memory's.
pub proof fn law_a_memory_is_found_by_its_key(
    key: &StorageKey,
    id: Option<MemoryId>,
    dir: Seq<char>,
    name: Seq<char>,
)
    requires
        call_ensures(memory_id_of_key, (key,), id),
        dir.len() > 0 ==> dir.last() == '/',
        forall|i: int| 0 <= i < name.len() ==> (#[trigger] name[i]) != '/',
    ensures
        key@ == dir + name + ".md"@ ==> id is Some && id->0@ == name,
        id is Some <==> has_suffix(key@, ".md"@),
{
    if key@ == dir + name + ".md"@ {
        lemma_memory_of_key(dir, name);
    }
}

/// A search without content is refused. Without a mode it is semantic, without a least similarity
/// it takes all; a preview shows 240 characters, or the whole body where that is asked for.
pub proof fn law_searches_are_planned(
    p: MemorySearchParams,
    r: Result<SearchPlan, DispatchError>,
)
    requires
        call_ensures(plan_search, (p,), r),
    ensures
        is_blank(p.query@) ==> r is Err && r->Err_0@ == RefusalModel::InvalidParams(
            "query required"@,
        ),
        r is Err && !is_blank(p.query@) ==> p.scope_filter is Some && p.scope_filter->0 is Kind,
        r matches Ok(plan) ==> {
            &&& plan.query@ == p.query@
            &&& plan.limit == p.limit
            &&& !p.include_body ==> plan.preview_len == 240
            &&& p.include_body ==> plan.preview_len == usize::MAX
            &&& p.mode is None ==> plan.mode == SearchMode::Semantic
            &&& p.mode is Some ==> plan.mode == p.mode->0
            &&& p.min_similarity is None ==> plan.min_similarity == 0
            &&& p.min_similarity is Some && in_unit(p.min_similarity->0) ==> plan.min_similarity
                == p.min_similarity->0
            &&& p.scope_filter is None <==> plan.scope_filter is None
        },
{
}

/// A filter is taken as it is meant; a kind that does not exist is refused by its name.
pub proof fn law_filters_are_taken_as_meant(
    w: Option<ScopeFilterWire>,
    r: Result<Option<MemoryScopeFilter>, DispatchError>,
    scope: ScopeModel,
)
    requires
        call_ensures(scope_filter, (w,), r),
    ensures
        w is None ==> r is Ok && r->Ok_0 is None,
        w matches Some(ScopeFilterWire::Exact { scope: s }) ==> {
            &&& r is Ok && r->Ok_0 is Some
            &&& r->Ok_0->0.admits(scope) <==> scope == s@
        },
        w matches Some(ScopeFilterWire::AnyOf { scopes }) ==> {
            &&& r is Ok && r->Ok_0 is Some
            &&& r->Ok_0->0.admits(scope) <==> exists|i: int|
                0 <= i < scopes@.len() && (#[trigger] scopes@[i])@ == scope
        },
        w matches Some(ScopeFilterWire::Kind { kind_name }) ==> {
            &&& r is Ok <==> exists|k: ScopeKind| kind_name@ == #[trigger] k.text()
            &&& r is Ok ==> r->Ok_0 is Some && (r->Ok_0->0.admits(scope) <==> kind_name@
                == scope.0.text())
            &&& r matches Err(e) ==> e@ is InvalidParams && has_suffix(
                e@->InvalidParams_0,
                kind_name@,
            )
        },
{
    if let Some(ScopeFilterWire::AnyOf { scopes }) = w {
        assert(r->Ok_0->0 == MemoryScopeFilter::AnyOf(scopes));
        assert(r->Ok_0->0.admits(scope) <==> exists|i: int|
            0 <= i < scopes@.len() && (#[trigger] scopes@[i])@ == scope);
    }
    if let Some(ScopeFilterWire::Kind { kind_name }) = w {
        law_kind_names_are_distinct(scope.0);
        assert(ScopeKind::User.text() == "user"@);
        assert(ScopeKind::Team.text() == "team"@);
        assert(ScopeKind::Skill.text() == "skill"@);
        assert(ScopeKind::Project.text() == "project"@);
        assert(ScopeKind::Global.text() == "global"@);
        let a = "unknown scope kind: "@;
        let m = a + kind_name@;
        assert(m.subrange(a.len() as int, m.len() as int) =~= kind_name@);
        if r is Ok {
            let k = r->Ok_0->0->Kind_0;
            assert(k.text() == kind_name@);
            law_kind_names_are_distinct(k);
        }
    }
}

/// A memory needs a description and a content; without a scope it is the user's.
pub proof fn law_what_a_new_memory_needs(
    description: &str,
    content: &str,
    r: Result<(), DispatchError>,
    given: Option<MemoryScope>,
    scope: MemoryScope,
)
    requires
        call_ensures(check_memory_create, (description, content), r),
        call_ensures(new_memory_scope, (given,), scope),
    ensures
        r is Ok <==> !is_blank(description@) && !is_blank(content@),
        r is Err ==> r->Err_0@ is InvalidParams,
        given matches Some(g) ==> scope@ == g@,
        given is None ==> scope is User,
{
}

} // verus!
