//! The other methods on lessons. The host does what the engine is asked for; what it may ask for,
//! and what the caller is told, is decided here.

use vstd::prelude::*;

use super::ids::{preview, preview_of};
use super::json::{
    Fields, Items, Json, JsonModel, boolean, has_member, no_members, number, opt, opt_value, owned,
    single, strings, text, text_array,
};
use super::lesson_create::{author_name, authorship_str, citations_in, cited_memory_ids};
use super::order::{
    Ordered, in_order, law_a_page_is_a_stretch_of_the_list, law_sorting_is_stable,
    law_sorting_orders_and_keeps, lemma_filter_agree, lemma_filter_items, lemma_filter_push,
    lemma_page_is_subrange, lemma_same_items, page_bounds, page_of, same_rank, sort,
};
use super::rpc::{
    DispatchError, Outcome, OutcomeModel, RefusalModel, failed, failure, invalid, outcome_model,
    refuse,
};
use crate::engine::error::EngineError;
use crate::engine::single::{less, less_than, rank, rank_of};
use crate::engine::yaml::schema::{Authorship, CausalNarrative, LessonStatus, opt_narrative};
use crate::text::{
    clone_texts, concat2, concat3, has_prefix, has_suffix, is_blank, law_a_part_occurs_in_the_whole,
    lemma_text_less_irreflexive, lemma_text_less_total, lemma_text_less_transitive, occurs_in,
    opt_text, same_text, text_before, text_less, texts, trims_to_nothing,
};

verus! {

/// How many results a search gives where the request does not say.
pub const DEFAULT_LIMIT: usize = 5;

/// How many characters of a body a result shows.
pub const PREVIEW_LEN: usize = 240;

/// How many entries a page has where the request does not say.
pub const DEFAULT_LIST_LIMIT: usize = 50;

/// How many entries a page has at most.
pub const MAX_LIST_LIMIT: usize = 500;

/// The length of a page.
pub open spec fn list_limit(limit: Option<usize>) -> usize {
    let n = match limit {
        Some(n) => n,
        None => DEFAULT_LIST_LIMIT,
    };
    if n < MAX_LIST_LIMIT {
        n
    } else {
        MAX_LIST_LIMIT
    }
}

/// The length of a page.
pub fn page_limit(limit: Option<usize>) -> (n: usize)
    ensures
        n == list_limit(limit),
{
    let n: usize = match limit {
        Some(n) => n,
        None => DEFAULT_LIST_LIMIT,
    };
    if n < MAX_LIST_LIMIT {
        n
    } else {
        MAX_LIST_LIMIT
    }
}

/// Where a page starts.
pub open spec fn list_offset(offset: Option<usize>) -> usize {
    match offset {
        Some(n) => n,
        None => 0,
    }
}

/// The answer with a page of results.
pub open spec fn page_answer(
    total: nat,
    limit: usize,
    offset: usize,
    results: Seq<JsonModel>,
) -> JsonModel {
    JsonModel::Object(
        no_members().push(("total"@, JsonModel::Number(total as u64))).push(
            ("limit"@, JsonModel::Number(limit as u64)),
        ).push(("offset"@, JsonModel::Number(offset as u64))).push(
            ("returned"@, JsonModel::Number(results.len() as u64)),
        ).push(("results"@, JsonModel::Array(results))),
    )
}

/// The answer with a page of results.
pub(crate) fn page(
    total: usize,
    limit: usize,
    offset: usize,
    returned: usize,
    results: Json,
) -> (j: Json)
    requires
        results.model() is Array,
        results.model()->Array_0.len() == returned,
    ensures
        j.model() == page_answer(total as nat, limit, offset, results.model()->Array_0),
{
    let mut f = Fields::new();
    f.put("total", number(total as u64));
    f.put("limit", number(limit as u64));
    f.put("offset", number(offset as u64));
    f.put("returned", number(returned as u64));
    f.put("results", results);
    f.done()
}

/// The answer with the results of a query.
pub open spec fn query_answer(query: Seq<char>, results: Seq<JsonModel>) -> JsonModel {
    JsonModel::Object(
        no_members().push(("query"@, JsonModel::Text(query))).push(
            ("returned"@, JsonModel::Number(results.len() as u64)),
        ).push(("results"@, JsonModel::Array(results))),
    )
}

/// The answer with the results of a query.
pub(crate) fn query_results(query: &str, returned: usize, results: Json) -> (j: Json)
    requires
        results.model() is Array,
        results.model()->Array_0.len() == returned,
    ensures
        j.model() == query_answer(query@, results.model()->Array_0),
{
    let mut f = Fields::new();
    f.put("query", text(query));
    f.put("returned", number(returned as u64));
    f.put("results", results);
    f.done()
}

// ---- lesson.recall -----------------------------------------------------------

/// A lesson that was held against a query. Scores are single-precision bit patterns.
#[derive(Debug, Clone, PartialEq, Eq)]
pub struct RecallCandidate {
    /// How well it matches; nothing above zero is no match.
    pub score: u32,
    /// The score as the answer shows it.
    pub shown: u32,
    pub id: String,
    pub description: String,
    /// The status directory it stands in.
    pub status: String,
    pub body: String,
    pub applied_count: u64,
}

impl Ordered for RecallCandidate {
    open spec fn before(self, other: RecallCandidate) -> bool {
        rank(other.score) < rank(self.score)
    }

    proof fn order(a: RecallCandidate, b: RecallCandidate, c: RecallCandidate) {
    }

    fn comes_before(&self, other: &RecallCandidate) -> (b: bool) {
        rank_of(other.score) < rank_of(self.score)
    }
}

/// The candidates that match at all.
pub open spec fn matching(found: Seq<RecallCandidate>) -> Seq<RecallCandidate>
    decreases found.len(),
{
    if found.len() == 0 {
        seq![]
    } else if less(0, found.last().score) {
        matching(found.drop_last()).push(found.last())
    } else {
        matching(found.drop_last())
    }
}

/// A lesson in the answer.
pub open spec fn recall_row(c: RecallCandidate) -> JsonModel {
    JsonModel::Object(
        no_members().push(("kind"@, JsonModel::Text("lesson"@))).push(
            ("id"@, JsonModel::Text(c.id@)),
        ).push(("description"@, JsonModel::Text(c.description@))).push(
            ("status"@, JsonModel::Text(c.status@)),
        ).push(("body_preview"@, JsonModel::Text(preview_of(c.body@, PREVIEW_LEN as nat)))).push(
            ("similarity"@, JsonModel::Single(c.shown)),
        ).push(("applied_count"@, JsonModel::Number(c.applied_count))),
    )
}

/// What a recall yields: the best matches, best first, as many as asked for.
pub open spec fn recalled(
    query: Seq<char>,
    limit: nat,
    found: Seq<RecallCandidate>,
) -> OutcomeModel {
    if is_blank(query) {
        invalid("query required"@)
    } else {
        Ok(
            query_answer(
                query,
                page_of(in_order(matching(found)), 0, limit).map_values(
                    |c: RecallCandidate| recall_row(c),
                ),
            ),
        )
    }
}

/// Refuses a query without content.
pub fn require_query(query: &str) -> (r: Result<(), DispatchError>)
    ensures
        match r {
            Ok(_) => !is_blank(query@),
            Err(e) => is_blank(query@) && e@ == RefusalModel::InvalidParams("query required"@),
        },
{
    if trims_to_nothing(query) {
        Err(refuse("query required"))
    } else {
        Ok(())
    }
}

fn recall_object(c: &RecallCandidate) -> (j: Json)
    ensures
        j.model() == recall_row(*c),
{
    let mut f = Fields::new();
    f.put("kind", text("lesson"));
    f.put("id", text(c.id.as_str()));
    f.put("description", text(c.description.as_str()));
    f.put("status", text(c.status.as_str()));
    f.put("body_preview", owned(preview(c.body.as_str(), PREVIEW_LEN)));
    f.put("similarity", single(c.shown));
    f.put("applied_count", number(c.applied_count));
    f.done()
}

fn keep_matching(found: Vec<RecallCandidate>) -> (kept: Vec<RecallCandidate>)
    ensures
        kept@ == matching(found@),
{
    let ghost all = found@;
    let mut kept: Vec<RecallCandidate> = Vec::new();
    for c in it: found
        invariant
            it.seq() == all,
            kept@ == matching(all.take(it.index() as int)),
    {
        proof {
            assert(all.take(it.index() as int + 1).drop_last() =~= all.take(it.index() as int));
            assert(all.take(it.index() as int + 1).last() == c);
        }
        if less_than(0, c.score) {
            kept.push(c);
        }
    }
    proof {
        assert(all.take(all.len() as int) =~= all);
    }
    kept
}

/// Answers a recall, given every lesson that was held against the query.
pub fn lesson_recall(query: &str, limit: usize, found: Vec<RecallCandidate>) -> (o: Outcome)
    ensures
        outcome_model(o) == recalled(query@, limit as nat, found@),
{
    if let Err(e) = require_query(query) {
        return Err(e);
    }
    let sorted = sort(keep_matching(found));
    let (from, to) = page_bounds(sorted.len(), 0, limit);
    let ghost best = page_of(sorted@, 0, limit as nat);
    proof {
        lemma_page_is_subrange(sorted@, 0, limit as nat, from as int, to as int);
    }
    let ghost rows = best.map_values(|c: RecallCandidate| recall_row(c));
    let mut items = Items::new();
    let mut i: usize = from;
    while i < to
        invariant
            from <= i <= to <= sorted.len(),
            best == sorted@.subrange(from as int, to as int),
            rows == best.map_values(|c: RecallCandidate| recall_row(c)),
            items@ == rows.take(i - from),
        decreases to - i,
    {
        items.put(recall_object(&sorted[i]));
        proof {
            assert(rows.take(i - from + 1) =~= rows.take(i - from).push(rows[i - from]));
        }
        i += 1;
    }
    proof {
        assert(rows.take(rows.len() as int) =~= rows);
    }
    Ok(query_results(query, to - from, items.done()))
}

// ---- lesson.promote, lesson.discard ------------------------------------------

/// Fails where the lesson to promote is not there; `found` says whether it is, or why that could
/// not be told.
pub fn require_lesson(id: &str, found: Result<bool, EngineError>) -> (r: Result<(), DispatchError>)
    ensures
        match found {
            Ok(true) => r is Ok,
            Ok(false) => r is Err && r->Err_0@ == RefusalModel::NotFound(id@),
            Err(e) => r is Err && r->Err_0@ == failed("load"@, e.text()),
        },
{
    match found {
        Ok(true) => Ok(()),
        Ok(false) => Err(DispatchError::NotFound(id.to_owned())),
        Err(e) => {
            let m = e.message();
            Err(failure("load", m.as_str()))
        },
    }
}

/// A lesson that was promoted.
#[derive(Debug)]
pub struct PromotedLesson {
    /// Where it stood.
    pub status_dir: String,
    pub narrative: Option<CausalNarrative>,
}

/// What a promotion is answered.
pub open spec fn promote_outcome(
    id: Seq<char>,
    promoted: Result<PromotedLesson, EngineError>,
) -> OutcomeModel {
    match promoted {
        Ok(l) => Ok(
            JsonModel::Object(
                no_members().push(("ok"@, JsonModel::Bool(true))).push(
                    ("id"@, JsonModel::Text(id)),
                ).push(("gate"@, JsonModel::Text("passed"@))).push(
                    ("status"@, JsonModel::Text("promoted"@)),
                ).push(("from"@, JsonModel::Text(l.status_dir@))).push(
                    ("cited_memory_ids"@, text_array(citations_in(opt_narrative(l.narrative)))),
                ),
            ),
        ),
        Err(EngineError::PromotionBlocked { reasons }) => Err(
            RefusalModel::PromotionBlocked(texts(reasons@)),
        ),
        Err(EngineError::LessonNotFound { id: missing }) => Err(RefusalModel::NotFound(missing@)),
        Err(e) => Err(failed("promote"@, e.text())),
    }
}

/// Answers a promotion. The memories that the lesson cites are named, quotes are not.
pub fn lesson_promote(id: &str, promoted: Result<PromotedLesson, EngineError>) -> (o: Outcome)
    ensures
        outcome_model(o) == promote_outcome(id@, promoted),
{
    match promoted {
        Ok(lesson) => {
            let cited = cited_memory_ids(lesson.narrative.as_ref());
            let mut f = Fields::new();
            f.put("ok", boolean(true));
            f.put("id", text(id));
            f.put("gate", text("passed"));
            f.put("status", text("promoted"));
            f.put("from", owned(lesson.status_dir));
            f.put("cited_memory_ids", strings(&cited));
            Ok(f.done())
        },
        Err(EngineError::PromotionBlocked { reasons }) => Err(
            DispatchError::PromotionBlocked(reasons),
        ),
        Err(EngineError::LessonNotFound { id: missing }) => Err(DispatchError::NotFound(missing)),
        Err(e) => {
            let m = e.message();
            Err(failure("promote", m.as_str()))
        },
    }
}

/// What a discard is answered; it yields the directory the lesson stood in.
pub open spec fn discard_outcome(
    id: Seq<char>,
    reason: Option<Seq<char>>,
    discarded: Result<String, EngineError>,
) -> OutcomeModel {
    match discarded {
        Ok(from) => Ok(
            JsonModel::Object(
                no_members().push(("ok"@, JsonModel::Bool(true))).push(
                    ("id"@, JsonModel::Text(id)),
                ).push(("status"@, JsonModel::Text("discarded"@))).push(
                    ("from"@, JsonModel::Text(from@)),
                ).push(("reason"@, opt_value(reason))),
            ),
        ),
        Err(EngineError::UserLessonImmune { id: immune }) => Err(
            RefusalModel::UserLessonImmune(immune@),
        ),
        Err(EngineError::LessonNotFound { id: missing }) => Err(RefusalModel::NotFound(missing@)),
        Err(e) => Err(failed("discard"@, e.text())),
    }
}

/// Answers a discard.
pub fn lesson_discard(
    id: &str,
    reason: &Option<String>,
    discarded: Result<String, EngineError>,
) -> (o: Outcome)
    ensures
        outcome_model(o) == discard_outcome(id@, opt_text(*reason), discarded),
{
    match discarded {
        Ok(from) => {
            let mut f = Fields::new();
            f.put("ok", boolean(true));
            f.put("id", text(id));
            f.put("status", text("discarded"));
            f.put("from", owned(from));
            f.put("reason", opt(reason));
            Ok(f.done())
        },
        Err(EngineError::UserLessonImmune { id: immune }) => Err(
            DispatchError::UserLessonImmune(immune),
        ),
        Err(EngineError::LessonNotFound { id: missing }) => Err(DispatchError::NotFound(missing)),
        Err(e) => {
            let m = e.message();
            Err(failure("discard", m.as_str()))
        },
    }
}

// ---- lesson.list -------------------------------------------------------------

/// The parameters of `lesson.list`.
#[derive(Debug, Clone, PartialEq, Eq)]
pub struct LessonListParams {
    pub statuses: Option<Vec<String>>,
    pub limit: Option<usize>,
    pub offset: Option<usize>,
}

pub open spec fn is_status_name(name: Seq<char>) -> bool {
    exists|s: LessonStatus| name == #[trigger] s.text()
}

/// The statuses that are listed where the request does not say: all but the discarded.
pub open spec fn default_statuses() -> Seq<Seq<char>> {
    Seq::empty().push("pending"@).push("active"@).push("promoted"@).push("superseded"@)
}

/// The first of the names that is no status.
pub open spec fn first_unknown(names: Seq<Seq<char>>) -> Option<Seq<char>>
    decreases names.len(),
{
    if names.len() == 0 {
        None
    } else if !is_status_name(names[0]) {
        Some(names[0])
    } else {
        first_unknown(names.skip(1))
    }
}

/// The statuses to list, or what is wrong with those asked for.
pub open spec fn statuses_to_list(asked: Option<Seq<Seq<char>>>) -> Result<
    Seq<Seq<char>>,
    Seq<char>,
> {
    match asked {
        Some(names) => if names.len() == 0 {
            Ok(default_statuses())
        } else {
            match first_unknown(names) {
                Some(name) => Err(
                    "unknown status '"@ + name
                        + "'; expected one of [\"pending\", \"active\", \"promoted\", \"discarded\", \"superseded\"]"@,
                ),
                None => Ok(names),
            }
        },
        None => Ok(default_statuses()),
    }
}

/// The texts of an optional list.
pub open spec fn opt_texts(o: Option<Vec<String>>) -> Option<Seq<Seq<char>>> {
    match o {
        Some(v) => Some(texts(v@)),
        None => None,
    }
}

/// The statuses to list.
pub fn list_statuses(asked: &Option<Vec<String>>) -> (r: Result<Vec<String>, DispatchError>)
    ensures
        match statuses_to_list(opt_texts(*asked)) {
            Ok(names) => r is Ok && texts(r->Ok_0@) == names,
            Err(m) => r is Err && r->Err_0@ == RefusalModel::InvalidParams(m),
        },
{
    if let Some(names) = asked {
        if names.len() > 0 {
            let ghost all = texts(names@);
            let mut i: usize = 0;
            proof {
                assert(all.skip(0) =~= all);
            }
            while i < names.len()
                invariant
                    i <= names.len(),
                    names.len() > 0,
                    all == texts(names@),
                    opt_texts(*asked) == Some(all),
                    first_unknown(all) == first_unknown(all.skip(i as int)),
                decreases names.len() - i,
            {
                proof {
                    assert(all.skip(i as int)[0] == all[i as int]);
                    assert(all.skip(i as int).skip(1) =~= all.skip(i + 1));
                }
                if LessonStatus::parse(names[i].as_str()).is_none() {
                    return Err(
                        DispatchError::InvalidParams(
                            concat3(
                                "unknown status '",
                                names[i].as_str(),
                                "'; expected one of [\"pending\", \"active\", \"promoted\", \"discarded\", \"superseded\"]",
                            ),
                        ),
                    );
                }
                i += 1;
            }
            return Ok(clone_texts(names));
        }
    }
    let mut out: Vec<String> = Vec::new();
    out.push("pending".to_owned());
    out.push("active".to_owned());
    out.push("promoted".to_owned());
    out.push("superseded".to_owned());
    proof {
        assert(texts(out@) =~= default_statuses());
    }
    Ok(out)
}

/// A lesson in a list.
#[derive(Debug, Clone, PartialEq, Eq)]
pub struct LessonRow {
    pub id: String,
    pub description: String,
    /// The status directory it stands in.
    pub status: String,
    pub authored_by: Authorship,
    pub pack_id: Option<String>,
    pub external_id: Option<String>,
    pub applied_count: u64,
    pub thumbs_up_count: u64,
    pub thumbs_down_count: u64,
    pub created_at: String,
    pub updated_at: Option<String>,
}

impl Ordered for LessonRow {
    open spec fn before(self, other: LessonRow) -> bool {
        text_less(self.status@, other.status@) || (self.status@ == other.status@ && text_less(
            self.id@,
            other.id@,
        ))
    }

    proof fn order(a: LessonRow, b: LessonRow, c: LessonRow) {
        lemma_text_order(a.status@, b.status@, c.status@);
        lemma_text_order(a.id@, b.id@, c.id@);
        lemma_text_less_total(a.status@, b.status@);
        lemma_text_less_total(b.status@, c.status@);
        lemma_text_less_total(a.status@, c.status@);
    }

    fn comes_before(&self, other: &LessonRow) -> (b: bool) {
        text_before(self.status.as_str(), other.status.as_str()) || (same_text(
            self.status.as_str(),
            other.status.as_str(),
        ) && text_before(self.id.as_str(), other.id.as_str()))
    }
}

/// The order of texts is one that lists can be sorted by.
pub proof fn lemma_text_order(a: Seq<char>, b: Seq<char>, c: Seq<char>)
    ensures
        !text_less(a, a),
        !text_less(a, b) && !text_less(b, c) ==> !text_less(a, c),
        text_less(a, b) ==> !text_less(b, a),
        !text_less(a, b) && !text_less(b, c) && a == c ==> b == a,
{
    lemma_text_less_irreflexive(a);
    lemma_text_less_total(a, b);
    lemma_text_less_total(b, c);
    if text_less(a, b) && text_less(b, a) {
        lemma_text_less_transitive(a, b, a);
    }
    if !text_less(a, b) && !text_less(b, c) && text_less(a, c) {
        if a != b {
            lemma_text_less_transitive(b, a, c);
        }
    }
    if !text_less(a, b) && !text_less(b, c) && a == c && b != a {
        lemma_text_less_transitive(b, a, b);
        lemma_text_less_irreflexive(b);
    }
}

/// A lesson of a list in the answer.
pub open spec fn lesson_row(r: LessonRow) -> JsonModel {
    JsonModel::Object(
        no_members().push(("id"@, JsonModel::Text(r.id@))).push(
            ("description"@, JsonModel::Text(r.description@)),
        ).push(("status"@, JsonModel::Text(r.status@))).push(
            ("authored_by"@, JsonModel::Text(author_name(r.authored_by))),
        ).push(("pack_id"@, opt_value(opt_text(r.pack_id)))).push(
            ("external_id"@, opt_value(opt_text(r.external_id))),
        ).push(("applied_count"@, JsonModel::Number(r.applied_count))).push(
            ("thumbs_up_count"@, JsonModel::Number(r.thumbs_up_count)),
        ).push(("thumbs_down_count"@, JsonModel::Number(r.thumbs_down_count))).push(
            ("created_at"@, JsonModel::Text(r.created_at@)),
        ).push(("updated_at"@, opt_value(opt_text(r.updated_at)))),
    )
}

fn lesson_object(r: &LessonRow) -> (j: Json)
    ensures
        j.model() == lesson_row(*r),
{
    let mut f = Fields::new();
    f.put("id", text(r.id.as_str()));
    f.put("description", text(r.description.as_str()));
    f.put("status", text(r.status.as_str()));
    f.put("authored_by", text(authorship_str(r.authored_by)));
    f.put("pack_id", opt(&r.pack_id));
    f.put("external_id", opt(&r.external_id));
    f.put("applied_count", number(r.applied_count));
    f.put("thumbs_up_count", number(r.thumbs_up_count));
    f.put("thumbs_down_count", number(r.thumbs_down_count));
    f.put("created_at", text(r.created_at.as_str()));
    f.put("updated_at", opt(&r.updated_at));
    f.done()
}

/// A page of the lessons, by status and id.
pub fn lesson_list(p: &LessonListParams, rows: Vec<LessonRow>) -> (j: Json)
    ensures
        j.model() == page_answer(
            rows@.len(),
            list_limit(p.limit),
            list_offset(p.offset),
            page_of(
                in_order(rows@),
                list_offset(p.offset) as nat,
                list_limit(p.limit) as nat,
            ).map_values(|r: LessonRow| lesson_row(r)),
        ),
{
    let limit = page_limit(p.limit);
    let offset: usize = match p.offset {
        Some(n) => n,
        None => 0,
    };
    let total: usize = rows.len();
    proof {
        super::order::law_sorting_orders_and_keeps(rows@);
    }
    let sorted = sort(rows);
    let (from, to) = page_bounds(sorted.len(), offset, limit);
    let ghost shown = page_of(sorted@, offset as nat, limit as nat);
    proof {
        lemma_page_is_subrange(sorted@, offset as nat, limit as nat, from as int, to as int);
    }
    let ghost models = shown.map_values(|r: LessonRow| lesson_row(r));
    let mut items = Items::new();
    let mut i: usize = from;
    while i < to
        invariant
            from <= i <= to <= sorted.len(),
            shown == sorted@.subrange(from as int, to as int),
            models == shown.map_values(|r: LessonRow| lesson_row(r)),
            items@ == models.take(i - from),
        decreases to - i,
    {
        items.put(lesson_object(&sorted[i]));
        proof {
            assert(models.take(i - from + 1) =~= models.take(i - from).push(models[i - from]));
        }
        i += 1;
    }
    proof {
        assert(models.take(models.len() as int) =~= models);
    }
    page(total, limit, offset, to - from, items.done())
}

// ---- lesson.capture_feedback, lesson.supersede -------------------------------

#[derive(Debug, Clone, Copy, PartialEq, Eq, Structural)]
pub enum FeedbackPolarity {
    ThumbsUp,
    ThumbsDown,
}

/// The feedback that a word stands for.
pub open spec fn polarity_of(word: Seq<char>) -> Option<FeedbackPolarity> {
    if word == "thumbs_up"@ || word == "up"@ || word == "+"@ {
        Some(FeedbackPolarity::ThumbsUp)
    } else if word == "thumbs_down"@ || word == "down"@ || word == "-"@ {
        Some(FeedbackPolarity::ThumbsDown)
    } else {
        None
    }
}

/// The feedback that a word stands for.
pub fn parse_polarity(word: &str) -> (r: Result<FeedbackPolarity, DispatchError>)
    ensures
        match r {
            Ok(p) => polarity_of(word@) == Some(p),
            Err(e) => polarity_of(word@) is None && e@ == RefusalModel::InvalidParams(
                "polarity must be 'thumbs_up' or 'thumbs_down', got '"@ + word@ + "'"@,
            ),
        },
{
    if same_text(word, "thumbs_up") || same_text(word, "up") || same_text(word, "+") {
        Ok(FeedbackPolarity::ThumbsUp)
    } else if same_text(word, "thumbs_down") || same_text(word, "down") || same_text(word, "-") {
        Ok(FeedbackPolarity::ThumbsDown)
    } else {
        Err(
            DispatchError::InvalidParams(
                concat3("polarity must be 'thumbs_up' or 'thumbs_down', got '", word, "'"),
            ),
        )
    }
}

/// The id of the signal behind feedback: the one given, or one made from a new id.
pub fn feedback_signal_id(given: &Option<String>, new_id: &str) -> (id: String)
    ensures
        id@ == match opt_text(*given) {
            Some(s) => s,
            None => "rpc-"@ + new_id@,
        },
{
    match given {
        Some(s) => s.clone(),
        None => concat2("rpc-", new_id),
    }
}

/// A lesson after feedback.
#[derive(Debug, Clone, PartialEq, Eq)]
pub struct FeedbackResult {
    pub id: String,
    pub status_dir: String,
    pub thumbs_up_count: u64,
    pub thumbs_down_count: u64,
    pub external_signal_sources: Vec<String>,
}

/// What feedback is answered.
pub open spec fn feedback_outcome(captured: Result<FeedbackResult, EngineError>) -> OutcomeModel {
    match captured {
        Ok(l) => Ok(
            JsonModel::Object(
                no_members().push(("ok"@, JsonModel::Bool(true))).push(
                    ("id"@, JsonModel::Text(l.id@)),
                ).push(("status"@, JsonModel::Text(l.status_dir@))).push(
                    ("thumbs_up_count"@, JsonModel::Number(l.thumbs_up_count)),
                ).push(("thumbs_down_count"@, JsonModel::Number(l.thumbs_down_count))).push(
                    ("external_signal_sources"@, text_array(texts(l.external_signal_sources@))),
                ),
            ),
        ),
        Err(EngineError::LessonNotFound { id }) => Err(RefusalModel::NotFound(id@)),
        Err(e) => Err(failed("capture_feedback"@, e.text())),
    }
}

/// Answers feedback.
pub fn lesson_capture_feedback(captured: Result<FeedbackResult, EngineError>) -> (o: Outcome)
    ensures
        outcome_model(o) == feedback_outcome(captured),
{
    match captured {
        Ok(lesson) => {
            let mut f = Fields::new();
            f.put("ok", boolean(true));
            f.put("id", owned(lesson.id));
            f.put("status", owned(lesson.status_dir));
            f.put("thumbs_up_count", number(lesson.thumbs_up_count));
            f.put("thumbs_down_count", number(lesson.thumbs_down_count));
            f.put("external_signal_sources", strings(&lesson.external_signal_sources));
            Ok(f.done())
        },
        Err(EngineError::LessonNotFound { id }) => Err(DispatchError::NotFound(id)),
        Err(e) => {
            let m = e.message();
            Err(failure("capture_feedback", m.as_str()))
        },
    }
}

/// What superseding is answered; it yields the directory the old lesson stands in.
pub open spec fn supersede_outcome(
    old_id: Seq<char>,
    new_id: Seq<char>,
    superseded: Result<String, EngineError>,
) -> OutcomeModel {
    match superseded {
        Ok(dir) => Ok(
            JsonModel::Object(
                no_members().push(("ok"@, JsonModel::Bool(true))).push(
                    ("old_id"@, JsonModel::Text(old_id)),
                ).push(("new_id"@, JsonModel::Text(new_id))).push(
                    ("old_status"@, JsonModel::Text(dir@)),
                ),
            ),
        ),
        Err(EngineError::LessonNotFound { id }) => Err(RefusalModel::NotFound(id@)),
        Err(EngineError::UserLessonImmune { id }) => Err(RefusalModel::UserLessonImmune(id@)),
        Err(EngineError::LessonSupersedeInvalid { reason }) => Err(
            RefusalModel::SupersedeBlocked(reason@),
        ),
        Err(e) => Err(failed("supersede"@, e.text())),
    }
}

/// Answers superseding.
pub fn lesson_supersede(
    old_id: &str,
    new_id: &str,
    superseded: Result<String, EngineError>,
) -> (o: Outcome)
    ensures
        outcome_model(o) == supersede_outcome(old_id@, new_id@, superseded),
{
    match superseded {
        Ok(dir) => {
            let mut f = Fields::new();
            f.put("ok", boolean(true));
            f.put("old_id", text(old_id));
            f.put("new_id", text(new_id));
            f.put("old_status", owned(dir));
            Ok(f.done())
        },
        Err(EngineError::LessonNotFound { id }) => Err(DispatchError::NotFound(id)),
        Err(EngineError::UserLessonImmune { id }) => Err(DispatchError::UserLessonImmune(id)),
        Err(EngineError::LessonSupersedeInvalid { reason }) => Err(
            DispatchError::SupersedeBlocked(reason),
        ),
        Err(e) => {
            let m = e.message();
            Err(failure("supersede", m.as_str()))
        },
    }
}

// ---- Laws --------------------------------------------------------------------

/// Whether a row of an answer shows a lesson that was recalled.
pub open spec fn shows_recalled(row: JsonModel, c: RecallCandidate) -> bool {
    &&& has_member(row, "kind"@, JsonModel::Text("lesson"@))
    &&& has_member(row, "id"@, JsonModel::Text(c.id@))
    &&& has_member(row, "description"@, JsonModel::Text(c.description@))
    &&& has_member(row, "status"@, JsonModel::Text(c.status@))
    &&& has_member(row, "body_preview"@, JsonModel::Text(preview_of(c.body@, 240)))
    &&& has_member(row, "similarity"@, JsonModel::Single(c.shown))
    &&& has_member(row, "applied_count"@, JsonModel::Number(c.applied_count))
}

/// Whether `ranked` are the candidates with a score above zero, each as often as it was found, the
/// better ones first, and those of one score in the order they were found in.
pub open spec fn is_ranking(found: Seq<RecallCandidate>, ranked: Seq<RecallCandidate>) -> bool {
    &&& ranked.to_multiset() == found.filter(
        |c: RecallCandidate| less(0, c.score),
    ).to_multiset()
    &&& forall|i: int, j: int|
        0 <= i < j < ranked.len() ==> !less(
            (#[trigger] ranked[i]).score,
            (#[trigger] ranked[j]).score,
        )
    &&& forall|score: u32|
        #![trigger less(0, score)]
        less(0, score) ==> ranked.filter(|c: RecallCandidate| c.score == score) == found.filter(
            |c: RecallCandidate| c.score == score,
        )
}

/// Whether a row of an answer shows a lesson of a list.
pub open spec fn shows_lesson(row: JsonModel, r: LessonRow) -> bool {
    &&& has_member(row, "id"@, JsonModel::Text(r.id@))
    &&& has_member(row, "description"@, JsonModel::Text(r.description@))
    &&& has_member(row, "status"@, JsonModel::Text(r.status@))
    &&& has_member(row, "authored_by"@, JsonModel::Text(author_name(r.authored_by)))
    &&& r.pack_id matches Some(s) ==> has_member(row, "pack_id"@, JsonModel::Text(s@))
    &&& r.pack_id is None ==> has_member(row, "pack_id"@, JsonModel::Null)
    &&& r.external_id matches Some(s) ==> has_member(row, "external_id"@, JsonModel::Text(s@))
    &&& r.external_id is None ==> has_member(row, "external_id"@, JsonModel::Null)
    &&& has_member(row, "applied_count"@, JsonModel::Number(r.applied_count))
    &&& has_member(row, "thumbs_up_count"@, JsonModel::Number(r.thumbs_up_count))
    &&& has_member(row, "thumbs_down_count"@, JsonModel::Number(r.thumbs_down_count))
    &&& has_member(row, "created_at"@, JsonModel::Text(r.created_at@))
    &&& r.updated_at matches Some(s) ==> has_member(row, "updated_at"@, JsonModel::Text(s@))
    &&& r.updated_at is None ==> has_member(row, "updated_at"@, JsonModel::Null)
}

proof fn lemma_matching(found: Seq<RecallCandidate>)
    ensures
        matching(found) == found.filter(|c: RecallCandidate| less(0, c.score)),
    decreases found.len(),
{
    reveal(Seq::filter);
    if found.len() > 0 {
        lemma_matching(found.drop_last());
    }
}

proof fn lemma_recall_row(c: RecallCandidate)
    ensures
        shows_recalled(recall_row(c), c),
{
    let m = recall_row(c)->Object_0;
    assert(m[0].0 == "kind"@ && m[1].0 == "id"@ && m[2].0 == "description"@ && m[3].0 == "status"@);
    assert(m[4] == ("body_preview"@, JsonModel::Text(preview_of(c.body@, 240))));
    assert(m[5].0 == "similarity"@ && m[6].0 == "applied_count"@);
}

proof fn lemma_lesson_row(r: LessonRow)
    ensures
        shows_lesson(lesson_row(r), r),
{
    let m = lesson_row(r)->Object_0;
    assert(m[0].0 == "id"@ && m[1].0 == "description"@ && m[2].0 == "status"@ && m[3].0
        == "authored_by"@ && m[4].0 == "pack_id"@ && m[5].0 == "external_id"@ && m[6].0
        == "applied_count"@ && m[7].0 == "thumbs_up_count"@ && m[8].0 == "thumbs_down_count"@
        && m[9].0 == "created_at"@ && m[10].0 == "updated_at"@);
}

/// What is picked by score from the matches is what is picked by it from all that was found.
proof fn lemma_scores(found: Seq<RecallCandidate>, score: u32)
    requires
        less(0, score),
    ensures
        found.filter(|c: RecallCandidate| less(0, c.score)).filter(
            |c: RecallCandidate| c.score == score,
        ) == found.filter(|c: RecallCandidate| c.score == score),
    decreases found.len(),
{
    let p = |c: RecallCandidate| less(0, c.score);
    let q = |c: RecallCandidate| c.score == score;
    if found.len() > 0 {
        let rest = found.drop_last();
        let last = found.last();
        lemma_scores(rest, score);
        assert(rest.push(last) =~= found);
        lemma_filter_push(rest, last, p);
        lemma_filter_push(rest, last, q);
        lemma_filter_push(rest.filter(p), last, q);
    } else {
        reveal(Seq::filter);
        assert(found.filter(p) =~= found);
    }
}

proof fn lemma_ranking(found: Seq<RecallCandidate>)
    ensures
        is_ranking(found, in_order(matching(found))),
{
    let p = |c: RecallCandidate| less(0, c.score);
    let kept = found.filter(p);
    let ranked = in_order(kept);
    lemma_matching(found);
    law_sorting_orders_and_keeps(kept);
    lemma_filter_items(found, p);
    lemma_same_items(ranked, kept);
    assert forall|i: int| 0 <= i < ranked.len() implies less(0, (#[trigger] ranked[i]).score) by {
        assert(ranked.contains(ranked[i]));
        assert(kept.contains(ranked[i]));
        let k = choose|k: int| 0 <= k < kept.len() && kept[k] == ranked[i];
        assert(p(kept[k]));
    }
    assert forall|score: u32|
        #![trigger less(0, score)]
        less(0, score) implies ranked.filter(|c: RecallCandidate| c.score == score) == found.filter(
        |c: RecallCandidate| c.score == score,
    ) by {
        let q = |c: RecallCandidate| c.score == score;
        lemma_scores(found, score);
        if exists|i: int| 0 <= i < kept.len() && (#[trigger] kept[i]).score == score {
            let i = choose|i: int| 0 <= i < kept.len() && (#[trigger] kept[i]).score == score;
            let r = kept[i];
            law_sorting_is_stable(kept, r);
            let same = |y: RecallCandidate| same_rank(y, r);
            assert forall|k: int| 0 <= k < kept.len() implies q(#[trigger] kept[k]) == same(
                kept[k],
            ) by {
                assert(p(kept[k]) && p(kept[i]));
            }
            assert forall|k: int| 0 <= k < ranked.len() implies q(#[trigger] ranked[k]) == same(
                ranked[k],
            ) by {
                assert(p(kept[i]));
            }
            lemma_filter_agree(kept, q, same);
            lemma_filter_agree(ranked, q, same);
        } else {
            lemma_filter_items(kept, q);
            lemma_filter_items(ranked, q);
            assert(kept.filter(q).len() == 0) by {
                if kept.filter(q).len() > 0 {
                    assert(q(kept.filter(q)[0]));
                }
            }
            assert(ranked.filter(q).len() == 0) by {
                if ranked.filter(q).len() > 0 {
                    let x = ranked.filter(q)[0];
                    assert(q(x));
                    assert(ranked.contains(x));
                    assert(kept.contains(x));
                    let k = choose|k: int| 0 <= k < kept.len() && kept[k] == x;
                    assert(kept[k].score == score);
                }
            }
            assert(kept.filter(q) =~= ranked.filter(q));
        }
    }
}

/// A recall ranks every candidate with a score above zero and none other, whatever else is known of
/// it, and shows the best, as many as asked for.
pub proof fn law_recall_shows_the_best_matches(
    query: &str,
    limit: usize,
    found: Vec<RecallCandidate>,
    o: Outcome,
)
    requires
        call_ensures(lesson_recall, (query, limit, found), o),
        !is_blank(query@),
    ensures
        exists|ranked: Seq<RecallCandidate>, rows: Seq<JsonModel>|
            {
                &&& #[trigger] is_ranking(found@, ranked)
                &&& outcome_model(o) is Ok
                &&& has_member(outcome_model(o)->Ok_0, "query"@, JsonModel::Text(query@))
                &&& #[trigger] has_member(
                    outcome_model(o)->Ok_0,
                    "results"@,
                    JsonModel::Array(rows),
                )
                &&& has_member(
                    outcome_model(o)->Ok_0,
                    "returned"@,
                    JsonModel::Number(rows.len() as u64),
                )
                &&& rows.len() == if limit < ranked.len() {
                    limit as int
                } else {
                    ranked.len() as int
                }
                &&& forall|i: int| 0 <= i < rows.len() ==> shows_recalled(#[trigger] rows[i], ranked[i])
            },
{
    let ranked = in_order(matching(found@));
    let shown = page_of(ranked, 0, limit as nat);
    let rows = shown.map_values(|c: RecallCandidate| recall_row(c));
    lemma_ranking(found@);
    law_a_page_is_a_stretch_of_the_list(ranked, 0, limit as nat);
    let m = outcome_model(o)->Ok_0->Object_0;
    assert(m[0] == ("query"@, JsonModel::Text(query@)));
    assert(m[1] == ("returned"@, JsonModel::Number(rows.len() as u64)));
    assert(m[2] == ("results"@, JsonModel::Array(rows)));
    assert forall|i: int| 0 <= i < rows.len() implies shows_recalled(#[trigger] rows[i], ranked[i]) by {
        lemma_recall_row(ranked[i]);
    }
    assert(has_member(outcome_model(o)->Ok_0, "results"@, JsonModel::Array(rows)));
}

/// With room for all of them, every candidate with a score above zero has its row.
pub proof fn law_recall_leaves_no_match_out(
    query: &str,
    limit: usize,
    found: Vec<RecallCandidate>,
    o: Outcome,
    i: int,
)
    requires
        call_ensures(lesson_recall, (query, limit, found), o),
        !is_blank(query@),
        found@.filter(|c: RecallCandidate| less(0, c.score)).len() <= limit,
        0 <= i < found@.len(),
        less(0, found@[i].score),
    ensures
        exists|rows: Seq<JsonModel>, k: int|
            {
                &&& has_member(outcome_model(o)->Ok_0, "results"@, JsonModel::Array(rows))
                &&& 0 <= k < rows.len()
                &&& shows_recalled(#[trigger] rows[k], found@[i])
            },
{
    let p = |c: RecallCandidate| less(0, c.score);
    law_recall_shows_the_best_matches(query, limit, found, o);
    let (ranked, rows) = choose|ranked: Seq<RecallCandidate>, rows: Seq<JsonModel>|
        {
            &&& #[trigger] is_ranking(found@, ranked)
            &&& outcome_model(o) is Ok
            &&& has_member(outcome_model(o)->Ok_0, "query"@, JsonModel::Text(query@))
            &&& #[trigger] has_member(outcome_model(o)->Ok_0, "results"@, JsonModel::Array(rows))
            &&& has_member(
                outcome_model(o)->Ok_0,
                "returned"@,
                JsonModel::Number(rows.len() as u64),
            )
            &&& rows.len() == if limit < ranked.len() {
                limit as int
            } else {
                ranked.len() as int
            }
            &&& forall|i: int| 0 <= i < rows.len() ==> shows_recalled(#[trigger] rows[i], ranked[i])
        };
    lemma_same_items(ranked, found@.filter(p));
    lemma_filter_items(found@, p);
    assert(p(found@[i]));
    assert(ranked.contains(found@[i]));
    let k = choose|k: int| 0 <= k < ranked.len() && ranked[k] == found@[i];
    assert(shows_recalled(rows[k], found@[i]));
}

/// A query without content is refused.
pub proof fn law_recall_needs_a_query(
    query: &str,
    limit: usize,
    found: Vec<RecallCandidate>,
    o: Outcome,
)
    requires
        call_ensures(lesson_recall, (query, limit, found), o),
    ensures
        outcome_model(o) is Err <==> is_blank(query@),
        is_blank(query@) ==> outcome_model(o) == Err::<JsonModel, RefusalModel>(
            RefusalModel::InvalidParams("query required"@),
        ),
{
}

/// A list shows a stretch of all lessons, ordered by status and then by id: from the offset on, and
/// as many as the limit says, which is 50 where none is given and at most 500.
pub proof fn law_lessons_are_listed_by_status_and_id(
    p: &LessonListParams,
    rows: Vec<LessonRow>,
    j: Json,
)
    requires
        call_ensures(lesson_list, (p, rows), j),
    ensures
        exists|sorted: Seq<LessonRow>, shown: Seq<JsonModel>|
            {
                let offset: int = match p.offset {
                    Some(n) => n as int,
                    None => 0,
                };
                let limit: int = match p.limit {
                    Some(n) => if n <= 500 {
                        n as int
                    } else {
                        500
                    },
                    None => 50,
                };
                &&& #[trigger] sorted.to_multiset() == rows@.to_multiset()
                &&& forall|a: int, b: int|
                    0 <= a < b < sorted.len() ==> !text_less(
                        (#[trigger] sorted[b]).status@,
                        (#[trigger] sorted[a]).status@,
                    ) && (sorted[a].status@ == sorted[b].status@ ==> !text_less(
                        sorted[b].id@,
                        sorted[a].id@,
                    ))
                &&& has_member(j.model(), "total"@, JsonModel::Number(rows@.len() as u64))
                &&& has_member(j.model(), "limit"@, JsonModel::Number(limit as u64))
                &&& has_member(j.model(), "offset"@, JsonModel::Number(offset as u64))
                &&& has_member(j.model(), "returned"@, JsonModel::Number(shown.len() as u64))
                &&& #[trigger] has_member(j.model(), "results"@, JsonModel::Array(shown))
                &&& offset >= rows@.len() ==> shown.len() == 0
                &&& offset + limit <= rows@.len() ==> shown.len() == limit
                &&& offset <= rows@.len() <= offset + limit ==> shown.len() == rows@.len() - offset
                &&& forall|i: int|
                    0 <= i < shown.len() ==> shows_lesson(#[trigger] shown[i], sorted[offset + i])
            },
{
    let sorted = in_order(rows@);
    let offset = list_offset(p.offset) as nat;
    let limit = list_limit(p.limit) as nat;
    let page = page_of(sorted, offset, limit);
    let shown = page.map_values(|r: LessonRow| lesson_row(r));
    law_sorting_orders_and_keeps(rows@);
    law_a_page_is_a_stretch_of_the_list(sorted, offset, limit);
    let m = j.model()->Object_0;
    assert(m[0].0 == "total"@ && m[1].0 == "limit"@ && m[2].0 == "offset"@ && m[3].0 == "returned"@);
    assert(m[4] == ("results"@, JsonModel::Array(shown)));
    assert forall|i: int| 0 <= i < shown.len() implies shows_lesson(
        #[trigger] shown[i],
        sorted[offset + i],
    ) by {
        lemma_lesson_row(page[i]);
    }
    assert(sorted.to_multiset() == rows@.to_multiset());
    assert(has_member(j.model(), "results"@, JsonModel::Array(shown)));
}

proof fn lemma_first_unknown(names: Seq<Seq<char>>)
    ensures
        first_unknown(names) is None <==> forall|i: int|
            0 <= i < names.len() ==> is_status_name(#[trigger] names[i]),
        first_unknown(names) matches Some(name) ==> exists|i: int|
            {
                &&& 0 <= i < names.len()
                &&& #[trigger] names[i] == name
                &&& !is_status_name(name)
                &&& forall|k: int| 0 <= k < i ==> is_status_name(#[trigger] names[k])
            },
    decreases names.len(),
{
    if names.len() > 0 {
        let rest = names.skip(1);
        lemma_first_unknown(rest);
        assert forall|i: int| 0 < i < names.len() implies #[trigger] names[i] == rest[i - 1] by {}
        if !is_status_name(names[0]) {
            assert(names[0] == names[0]);
        } else if first_unknown(rest) is Some {
            let i = choose|i: int|
                {
                    &&& 0 <= i < rest.len()
                    &&& #[trigger] rest[i] == first_unknown(rest)->0
                    &&& !is_status_name(first_unknown(rest)->0)
                    &&& forall|k: int| 0 <= k < i ==> is_status_name(#[trigger] rest[k])
                };
            assert(names[i + 1] == rest[i]);
        } else {
            assert forall|i: int| 0 <= i < names.len() implies is_status_name(
                #[trigger] names[i],
            ) by {
                if i > 0 {
                    assert(names[i] == rest[i - 1]);
                }
            }
        }
    }
}

/// Statuses that are asked for are listed as they are asked for; one that does not exist is refused
/// by its name, the first such one. Where none is asked for, all are listed but the discarded.
pub proof fn law_asked_statuses_are_listed(
    asked: &Option<Vec<String>>,
    r: Result<Vec<String>, DispatchError>,
)
    requires
        call_ensures(list_statuses, (asked,), r),
    ensures
        asked is None || asked->0@.len() == 0 ==> r is Ok && texts(r->Ok_0@) == seq![
            "pending"@,
            "active"@,
            "promoted"@,
            "superseded"@,
        ],
        asked is Some && asked->0@.len() > 0 ==> (r is Ok <==> forall|i: int|
            0 <= i < asked->0@.len() ==> is_status_name((#[trigger] asked->0@[i])@)),
        asked is Some && asked->0@.len() > 0 && r is Ok ==> texts(r->Ok_0@) == texts(asked->0@),
        r is Err ==> exists|i: int|
            {
                &&& 0 <= i < asked->0@.len()
                &&& !is_status_name((#[trigger] asked->0@[i])@)
                &&& forall|k: int| 0 <= k < i ==> is_status_name((#[trigger] asked->0@[k])@)
                &&& r->Err_0@ is InvalidParams
                &&& occurs_in(r->Err_0@->InvalidParams_0, asked->0@[i]@)
            },
{
    if let Some(v) = asked {
        let names = texts(v@);
        assert forall|i: int| 0 <= i < v@.len() implies #[trigger] names[i] == v@[i]@ by {}
        lemma_first_unknown(names);
        if v@.len() > 0 && first_unknown(names) is Some {
            let name = first_unknown(names)->0;
            let i = choose|i: int|
                {
                    &&& 0 <= i < names.len()
                    &&& #[trigger] names[i] == name
                    &&& !is_status_name(name)
                    &&& forall|k: int| 0 <= k < i ==> is_status_name(#[trigger] names[k])
                };
            assert(names[i] == v@[i]@);
            assert forall|k: int| 0 <= k < i implies is_status_name((#[trigger] v@[k])@) by {
                assert(names[k] == v@[k]@);
            }
            law_a_part_occurs_in_the_whole(
                "unknown status '"@,
                name,
                "'; expected one of [\"pending\", \"active\", \"promoted\", \"discarded\", \"superseded\"]"@,
                name,
            );
        }
        if v@.len() > 0 && first_unknown(names) is None {
            assert forall|i: int| 0 <= i < v@.len() implies is_status_name(
                (#[trigger] v@[i])@,
            ) by {
                assert(names[i] == v@[i]@);
            }
        }
        if v@.len() > 0 && (forall|i: int|
            0 <= i < v@.len() ==> is_status_name((#[trigger] v@[i])@)) {
            assert forall|i: int| 0 <= i < names.len() implies is_status_name(
                #[trigger] names[i],
            ) by {
                assert(names[i] == v@[i]@);
            }
        }
    }
    assert(default_statuses() =~= seq!["pending"@, "active"@, "promoted"@, "superseded"@]);
}

/// The names of the statuses.
pub proof fn law_five_names_are_statuses(name: Seq<char>)
    ensures
        is_status_name(name) <==> name == "pending"@ || name == "active"@ || name == "promoted"@
            || name == "discarded"@ || name == "superseded"@,
{
    assert(LessonStatus::Pending.text() == "pending"@);
    assert(LessonStatus::Active.text() == "active"@);
    assert(LessonStatus::Promoted.text() == "promoted"@);
    assert(LessonStatus::Discarded.text() == "discarded"@);
    assert(LessonStatus::Superseded.text() == "superseded"@);
}

/// A promotion tells where the lesson stood and which memories it cites; a blocked one tells every
/// reason.
pub proof fn law_promotion_is_answered(
    id: &str,
    promoted: Result<PromotedLesson, EngineError>,
    o: Outcome,
)
    requires
        call_ensures(lesson_promote, (id, promoted), o),
    ensures
        outcome_model(o) is Ok <==> promoted is Ok,
        promoted matches Ok(l) ==> {
            let j = outcome_model(o)->Ok_0;
            &&& has_member(j, "ok"@, JsonModel::Bool(true))
            &&& has_member(j, "id"@, JsonModel::Text(id@))
            &&& has_member(j, "gate"@, JsonModel::Text("passed"@))
            &&& has_member(j, "status"@, JsonModel::Text("promoted"@))
            &&& has_member(j, "from"@, JsonModel::Text(l.status_dir@))
            &&& has_member(
                j,
                "cited_memory_ids"@,
                text_array(citations_in(opt_narrative(l.narrative))),
            )
        },
        promoted matches Err(EngineError::PromotionBlocked { reasons }) ==> outcome_model(o)->Err_0
            == RefusalModel::PromotionBlocked(texts(reasons@)),
        promoted matches Err(EngineError::LessonNotFound { id: missing }) ==> outcome_model(
            o,
        )->Err_0 == RefusalModel::NotFound(missing@),
        promoted is Err && promoted->Err_0 !is PromotionBlocked && promoted->Err_0 !is LessonNotFound ==> outcome_model(o) == Err::<JsonModel, RefusalModel>(
            failed("promote"@, promoted->Err_0.text()),
        ),
{
    let m = outcome_model(o)->Ok_0->Object_0;
    if let Ok(l) = promoted {
        assert(m[0].0 == "ok"@ && m[1].0 == "id"@ && m[2].0 == "gate"@ && m[3].0 == "status"@
            && m[4].0 == "from"@ && m[5].0 == "cited_memory_ids"@);
    }
}

/// A discard tells where the lesson stood and why it was discarded; a lesson of the user is immune.
pub proof fn law_discard_is_answered(
    id: &str,
    reason: &Option<String>,
    discarded: Result<String, EngineError>,
    o: Outcome,
)
    requires
        call_ensures(lesson_discard, (id, reason, discarded), o),
    ensures
        outcome_model(o) is Ok <==> discarded is Ok,
        discarded matches Ok(from) ==> {
            let j = outcome_model(o)->Ok_0;
            &&& has_member(j, "ok"@, JsonModel::Bool(true))
            &&& has_member(j, "id"@, JsonModel::Text(id@))
            &&& has_member(j, "status"@, JsonModel::Text("discarded"@))
            &&& has_member(j, "from"@, JsonModel::Text(from@))
            &&& reason matches Some(s) ==> has_member(j, "reason"@, JsonModel::Text(s@))
            &&& reason is None ==> has_member(j, "reason"@, JsonModel::Null)
        },
        discarded matches Err(EngineError::UserLessonImmune { id: immune }) ==> outcome_model(
            o,
        )->Err_0 == RefusalModel::UserLessonImmune(immune@),
        discarded matches Err(EngineError::LessonNotFound { id: missing }) ==> outcome_model(
            o,
        )->Err_0 == RefusalModel::NotFound(missing@),
        discarded is Err && discarded->Err_0 !is UserLessonImmune && discarded->Err_0 !is LessonNotFound ==> outcome_model(o) == Err::<JsonModel, RefusalModel>(
            failed("discard"@, discarded->Err_0.text()),
        ),
{
    let m = outcome_model(o)->Ok_0->Object_0;
    if discarded is Ok {
        assert(m[0].0 == "ok"@ && m[1].0 == "id"@ && m[2].0 == "status"@ && m[3].0 == "from"@
            && m[4].0 == "reason"@);
    }
}

/// Feedback is answered with the lesson's counts after it.
pub proof fn law_feedback_is_answered(captured: Result<FeedbackResult, EngineError>, o: Outcome)
    requires
        call_ensures(lesson_capture_feedback, (captured,), o),
    ensures
        outcome_model(o) is Ok <==> captured is Ok,
        captured matches Ok(l) ==> {
            let j = outcome_model(o)->Ok_0;
            &&& has_member(j, "ok"@, JsonModel::Bool(true))
            &&& has_member(j, "id"@, JsonModel::Text(l.id@))
            &&& has_member(j, "status"@, JsonModel::Text(l.status_dir@))
            &&& has_member(j, "thumbs_up_count"@, JsonModel::Number(l.thumbs_up_count))
            &&& has_member(j, "thumbs_down_count"@, JsonModel::Number(l.thumbs_down_count))
            &&& has_member(
                j,
                "external_signal_sources"@,
                text_array(texts(l.external_signal_sources@)),
            )
        },
        captured matches Err(EngineError::LessonNotFound { id: missing }) ==> outcome_model(
            o,
        )->Err_0 == RefusalModel::NotFound(missing@),
        captured is Err && captured->Err_0 !is LessonNotFound ==> outcome_model(o) == Err::<JsonModel, RefusalModel>(
            failed("capture_feedback"@, captured->Err_0.text()),
        ),
{
    let m = outcome_model(o)->Ok_0->Object_0;
    if captured is Ok {
        assert(m[0].0 == "ok"@ && m[1].0 == "id"@ && m[2].0 == "status"@ && m[3].0
            == "thumbs_up_count"@ && m[4].0 == "thumbs_down_count"@ && m[5].0
            == "external_signal_sources"@);
    }
}

/// A supersession names both lessons, the old one first, and where the old one stands now.
pub proof fn law_supersession_is_answered(
    old_id: &str,
    new_id: &str,
    superseded: Result<String, EngineError>,
    o: Outcome,
)
    requires
        call_ensures(lesson_supersede, (old_id, new_id, superseded), o),
    ensures
        outcome_model(o) is Ok <==> superseded is Ok,
        superseded matches Ok(dir) ==> {
            let j = outcome_model(o)->Ok_0;
            &&& has_member(j, "ok"@, JsonModel::Bool(true))
            &&& has_member(j, "old_id"@, JsonModel::Text(old_id@))
            &&& has_member(j, "new_id"@, JsonModel::Text(new_id@))
            &&& has_member(j, "old_status"@, JsonModel::Text(dir@))
        },
        superseded matches Err(EngineError::LessonNotFound { id: missing }) ==> outcome_model(
            o,
        )->Err_0 == RefusalModel::NotFound(missing@),
        superseded matches Err(EngineError::UserLessonImmune { id: immune }) ==> outcome_model(
            o,
        )->Err_0 == RefusalModel::UserLessonImmune(immune@),
        superseded matches Err(EngineError::LessonSupersedeInvalid { reason }) ==> outcome_model(
            o,
        )->Err_0 == RefusalModel::SupersedeBlocked(reason@),
        superseded is Err && superseded->Err_0 !is LessonNotFound && superseded->Err_0 !is UserLessonImmune && superseded->Err_0 !is LessonSupersedeInvalid ==> outcome_model(o) == Err::<JsonModel, RefusalModel>(
            failed("supersede"@, superseded->Err_0.text()),
        ),
{
    let m = outcome_model(o)->Ok_0->Object_0;
    if superseded is Ok {
        assert(m[0].0 == "ok"@ && m[1].0 == "old_id"@ && m[2].0 == "new_id"@ && m[3].0
            == "old_status"@);
    }
}

/// Feedback without a signal id gets a fresh one that tells where it came from.
pub proof fn law_feedback_ids(given: &Option<String>, new_id: &str, id: String)
    requires
        call_ensures(feedback_signal_id, (given, new_id), id),
    ensures
        given matches Some(s) ==> id@ == s@,
        given is None ==> has_prefix(id@, "rpc-"@) && has_suffix(id@, new_id@) && id@.len()
            == new_id@.len() + 4,
{
    reveal_strlit("rpc-");
    law_a_part_occurs_in_the_whole(Seq::empty(), "rpc-"@, new_id@, id@);
    law_a_part_occurs_in_the_whole("rpc-"@, new_id@, Seq::empty(), id@);
}

/// Three words each stand for praise and blame; every other is refused by its name.
pub proof fn law_feedback_words(word: &str, r: Result<FeedbackPolarity, DispatchError>)
    requires
        call_ensures(parse_polarity, (word,), r),
    ensures
        r == Ok::<FeedbackPolarity, DispatchError>(FeedbackPolarity::ThumbsUp) <==> word@
            == "thumbs_up"@ || word@ == "up"@ || word@ == "+"@,
        r == Ok::<FeedbackPolarity, DispatchError>(FeedbackPolarity::ThumbsDown) <==> word@
            == "thumbs_down"@ || word@ == "down"@ || word@ == "-"@,
        r matches Err(e) ==> e@ is InvalidParams && occurs_in(e@->InvalidParams_0, word@),
{
    reveal_strlit("thumbs_up");
    reveal_strlit("thumbs_down");
    reveal_strlit("up");
    reveal_strlit("down");
    reveal_strlit("+");
    reveal_strlit("-");
    assert("thumbs_up"@.len() == 9 && "up"@.len() == 2 && "+"@.len() == 1);
    assert("thumbs_down"@.len() == 11 && "down"@.len() == 4 && "-"@.len() == 1);
    assert("+"@[0] != "-"@[0]);
    law_a_part_occurs_in_the_whole(
        "polarity must be 'thumbs_up' or 'thumbs_down', got '"@,
        word@,
        "'"@,
        word@,
    );
}

/// A lesson that was asked for must be there.
pub proof fn law_lessons_must_exist(
    id: &str,
    found: Result<bool, EngineError>,
    r: Result<(), DispatchError>,
)
    requires
        call_ensures(require_lesson, (id, found), r),
    ensures
        r is Ok <==> found is Ok && found->Ok_0,
        found is Ok && !found->Ok_0 ==> r->Err_0@ == RefusalModel::NotFound(id@),
        found is Err ==> r->Err_0@ is Other,
{
}

/// A page holds 50 entries where nothing else is asked for, and never more than 500.
pub proof fn law_pages_have_a_limit(limit: Option<usize>, n: usize)
    requires
        call_ensures(page_limit, (limit,), n),
    ensures
        limit is None ==> n == 50,
        limit matches Some(asked) ==> (asked <= 500 ==> n == asked) && (asked > 500 ==> n == 500),
{
}

} // verus!
