//! `lesson.create`: a new lesson, or a new version of one that a pack installed before.

use vstd::prelude::*;

use super::ids::{hex, id_number, law_new_ids_name_files};
use super::json::{Fields, Json, JsonModel, boolean, has_member, no_members, owned, text};
use super::rpc::{DispatchError, RefusalModel, refuse};
use crate::engine::context::Context;
use crate::engine::memory::MemoryId;
use crate::engine::storage::StorageKey;
use crate::engine::storage::key::{
    is_canonical_text, is_stem_text, lemma_plain_key, routed, routes_inside,
};
use crate::engine::yaml::frontmatter::{combine_frontmatter, combined};
use crate::engine::yaml::schema::{
    Authorship, CausalNarrative, Confidence, EvidenceModel, EvidenceRef, GeneratedBy,
    LessonFrontmatter, LessonModel, LessonStatus, NarrativeModel, cited_memories, evidence_models,
    memory_citations, memory_texts, opt_narrative,
};
use crate::engine::yaml::writer::{lesson_yaml, serialize_lesson_frontmatter};
use crate::text::{
    clone_opt, concat2, has_prefix, is_blank, opt_text, same_text, starts_with, texts,
    trims_to_nothing,
};

verus! {

/// The author that a request names; anyone but the user and a pack is the model.
pub open spec fn authorship_of(name: Option<Seq<char>>) -> Authorship {
    if name == Some("user"@) {
        Authorship::User
    } else if name == Some("pack"@) {
        Authorship::Pack
    } else {
        Authorship::Llm
    }
}

/// The author that a request names.
pub fn parse_authorship(name: &Option<String>) -> (a: Authorship)
    ensures
        a == authorship_of(opt_text(*name)),
{
    match name {
        Some(s) => {
            if same_text(s.as_str(), "user") {
                Authorship::User
            } else if same_text(s.as_str(), "pack") {
                Authorship::Pack
            } else {
                Authorship::Llm
            }
        },
        None => Authorship::Llm,
    }
}

/// What an answer calls an author.
pub open spec fn author_name(a: Authorship) -> Seq<char> {
    match a {
        Authorship::User => "user"@,
        Authorship::Pack => "pack"@,
        _ => "agent"@,
    }
}

/// What an answer calls an author.
pub fn authorship_str(a: Authorship) -> (s: &'static str)
    ensures
        s@ == author_name(a),
{
    match a {
        Authorship::User => "user",
        Authorship::Pack => "pack",
        _ => "agent",
    }
}

/// What a piece of evidence in a request refers to.
pub open spec fn evidence_of(e: Seq<char>) -> EvidenceModel {
    if has_prefix(e, "mem-"@) {
        EvidenceModel::Memory(e)
    } else {
        EvidenceModel::Quote(e)
    }
}

/// The narrative that evidence in a request makes; none without evidence.
pub open spec fn narrative_of(
    evidence: Seq<Seq<char>>,
    authored_by: Authorship,
    now: Seq<char>,
) -> Option<NarrativeModel> {
    if evidence.len() == 0 {
        None
    } else {
        Some(
            NarrativeModel {
                trigger: "user-supplied"@,
                failure_mode: "user-supplied"@,
                correction: "user-supplied"@,
                confidence: Confidence::Inferred,
                evidence_refs: evidence.map_values(|e: Seq<char>| evidence_of(e)),
                generated_by: if authored_by is User {
                    GeneratedBy::User
                } else {
                    GeneratedBy::Llm
                },
                generated_at: now,
            },
        )
    }
}

/// Builds the narrative of a lesson. Without evidence there is none, and the lesson cannot be
/// promoted.
pub fn build_narrative(evidence: &Vec<String>, authored_by: Authorship, now_iso: &str) -> (n: Option<
    CausalNarrative,
>)
    ensures
        opt_narrative(n) == narrative_of(texts(evidence@), authored_by, now_iso@),
{
    if evidence.len() == 0 {
        return None;
    }
    let ghost all = texts(evidence@).map_values(|e: Seq<char>| evidence_of(e));
    let mut refs: Vec<EvidenceRef> = Vec::new();
    let mut i: usize = 0;
    while i < evidence.len()
        invariant
            i <= evidence.len(),
            all == texts(evidence@).map_values(|e: Seq<char>| evidence_of(e)),
            evidence_models(refs@) == all.take(i as int),
        decreases evidence.len() - i,
    {
        let e = if starts_with(evidence[i].as_str(), "mem-") {
            EvidenceRef::Memory(MemoryId::new(evidence[i].clone()))
        } else {
            EvidenceRef::Quote(evidence[i].clone())
        };
        refs.push(e);
        proof {
            assert(all[i as int] == evidence_of(evidence@[i as int]@));
            assert(evidence_models(refs@) =~= all.take(i as int).push(all[i as int]));
            assert(all.take(i + 1) =~= all.take(i as int).push(all[i as int]));
        }
        i += 1;
    }
    proof {
        assert(all.take(all.len() as int) =~= all);
    }
    Some(
        CausalNarrative {
            trigger: "user-supplied".to_owned(),
            failure_mode: "user-supplied".to_owned(),
            correction: "user-supplied".to_owned(),
            confidence: Confidence::Inferred,
            evidence_refs: refs,
            generated_by: if authored_by.is_user() {
                GeneratedBy::User
            } else {
                GeneratedBy::Llm
            },
            generated_at: now_iso.to_owned(),
        },
    )
}

/// The memories that a narrative cites, in order.
pub open spec fn citations_in(narrative: Option<NarrativeModel>) -> Seq<Seq<char>> {
    match narrative {
        Some(n) => memory_citations(n.evidence_refs),
        None => seq![],
    }
}

/// The ids of the memories that a narrative cites, in order.
pub fn cited_memory_ids(narrative: Option<&CausalNarrative>) -> (ids: Vec<String>)
    ensures
        texts(ids@) == citations_in(
            match narrative {
                Some(n) => Some(n@),
                None => None,
            },
        ),
{
    let mut ids: Vec<String> = Vec::new();
    if let Some(n) = narrative {
        let memories = cited_memories(&n.evidence_refs);
        let ghost all = memory_texts(memories@);
        let mut i: usize = 0;
        while i < memories.len()
            invariant
                i <= memories.len(),
                all == memory_texts(memories@),
                texts(ids@) == all.take(i as int),
            decreases memories.len() - i,
        {
            ids.push(memories[i].as_str().to_owned());
            proof {
                assert(texts(ids@) =~= all.take(i as int).push(all[i as int]));
                assert(all.take(i + 1) =~= all.take(i as int).push(all[i as int]));
            }
            i += 1;
        }
        proof {
            assert(all.take(all.len() as int) =~= all);
        }
    } else {
        proof {
            assert(texts(ids@) =~= seq![]);
        }
    }
    ids
}

/// The parameters of `lesson.create`.
#[derive(Debug, Clone, PartialEq, Eq)]
pub struct LessonCreateParams {
    pub description: String,
    pub body: String,
    pub evidence: Vec<String>,
    pub authored_by: Option<String>,
    /// The pack; needed where a pack is the author, otherwise ignored.
    pub pack_id: Option<String>,
    /// The pack's own name for the lesson. A lesson of the same pack with the same name is
    /// replaced and keeps its id.
    pub external_id: Option<String>,
    /// Promoted from the start; for packs only.
    pub seed_as_promoted: bool,
}

impl LessonCreateParams {
    pub open spec fn author(self) -> Authorship {
        authorship_of(opt_text(self.authored_by))
    }

    /// The pack, where a pack is the author.
    pub open spec fn pack(self) -> Option<Seq<char>> {
        if self.author() is Pack {
            opt_text(self.pack_id)
        } else {
            None
        }
    }

    /// The pack's name for the lesson, where a pack is the author.
    pub open spec fn external(self) -> Option<Seq<char>> {
        if self.author() is Pack {
            opt_text(self.external_id)
        } else {
            None
        }
    }

    /// Whether a lesson that is already there may be replaced.
    pub open spec fn replaces(self) -> bool {
        self.pack() is Some && self.external() is Some
    }

    /// What is wrong with the parameters, if anything.
    pub open spec fn objection(self) -> Option<Seq<char>> {
        if is_blank(self.description@) || is_blank(self.body@) {
            Some("description and body required"@)
        } else if self.author() is Pack && (self.pack() is None || self.pack()->0.len() == 0) {
            Some("pack_id required when authored_by = \"pack\""@)
        } else if self.seed_as_promoted && !(self.author() is Pack) {
            Some("seed_as_promoted requires authored_by = \"pack\""@)
        } else {
            None
        }
    }
}

/// Under what a lesson of a pack is looked up.
#[derive(Debug, Clone, PartialEq, Eq)]
pub struct PackKey {
    pub pack_id: String,
    pub external_id: String,
}

/// Looks at the parameters: what is wrong with them, or under what to look for a lesson to replace.
pub fn check_create(p: &LessonCreateParams) -> (r: Result<Option<PackKey>, DispatchError>)
    ensures
        match r {
            Ok(key) => p.objection() is None && match key {
                Some(k) => p.replaces() && p.pack() == Some(k.pack_id@) && p.external() == Some(
                    k.external_id@,
                ),
                None => !p.replaces(),
            },
            Err(e) => p.objection() is Some && e@ == RefusalModel::InvalidParams(p.objection()->0),
        },
{
    if trims_to_nothing(p.description.as_str()) || trims_to_nothing(p.body.as_str()) {
        return Err(refuse("description and body required"));
    }
    match parse_authorship(&p.authored_by) {
        Authorship::Pack => {
            let pack = match &p.pack_id {
                Some(pack) => pack,
                None => {
                    return Err(refuse("pack_id required when authored_by = \"pack\""));
                },
            };
            if pack.as_str().is_empty() {
                return Err(refuse("pack_id required when authored_by = \"pack\""));
            }
            match &p.external_id {
                Some(external) => Ok(
                    Some(PackKey { pack_id: pack.clone(), external_id: external.clone() }),
                ),
                None => Ok(None),
            }
        },
        _ => {
            if p.seed_as_promoted {
                Err(refuse("seed_as_promoted requires authored_by = \"pack\""))
            } else {
                Ok(None)
            }
        },
    }
}

/// A lesson that is already there.
#[derive(Debug, Clone, PartialEq, Eq)]
pub struct ExistingLesson {
    pub id: String,
    pub created_at: String,
    pub status: LessonStatus,
    pub status_dir: String,
}

/// What identifies a created lesson.
#[verifier::ext_equal]
pub struct Identity {
    pub id: Seq<char>,
    pub created_at: Seq<char>,
    pub status: LessonStatus,
    pub dir: Seq<char>,
    pub updated_at: Option<Seq<char>>,
}

/// The identity of a created lesson: that of the one it replaces, or a new one.
pub open spec fn identity(
    p: LessonCreateParams,
    existing: Option<ExistingLesson>,
    now: Seq<char>,
    new_id: Seq<char>,
) -> Identity {
    if p.replaces() && existing is Some {
        Identity {
            id: existing->0.id@,
            created_at: existing->0.created_at@,
            status: existing->0.status,
            dir: existing->0.status_dir@,
            updated_at: Some(now),
        }
    } else if p.seed_as_promoted {
        Identity {
            id: new_id,
            created_at: now,
            status: LessonStatus::Promoted,
            dir: "promoted"@,
            updated_at: None,
        }
    } else {
        Identity {
            id: new_id,
            created_at: now,
            status: LessonStatus::Pending,
            dir: "pending"@,
            updated_at: None,
        }
    }
}

/// The frontmatter of a created lesson.
pub open spec fn created_lesson(p: LessonCreateParams, at: Identity) -> LessonModel {
    LessonModel {
        id: at.id,
        description: p.description@,
        status: at.status,
        created_at: at.created_at,
        causal_narrative: narrative_of(texts(p.evidence@), p.author(), at.created_at),
        target_skill: None,
        source_feedback_ids: None,
        applied_count: 0,
        last_applied_at: None,
        thumbs_up_count: 0,
        thumbs_down_count: 0,
        external_signal_sources: seq![],
        applied_session_ids: seq![],
        promotion_eligible_at: None,
        superseded_by: None,
        superseded_at: None,
        ingest_provenance: None,
        authored_by: p.author(),
        pack_id: p.pack(),
        external_id: p.external(),
        updated_at: at.updated_at,
    }
}

/// A member that is left out where there is no text for it.
pub open spec fn with_opt(
    members: Seq<(Seq<char>, JsonModel)>,
    key: Seq<char>,
    value: Option<Seq<char>>,
) -> Seq<(Seq<char>, JsonModel)> {
    match value {
        Some(s) => members.push((key, JsonModel::Text(s))),
        None => members,
    }
}

/// The answer to `lesson.create`.
pub open spec fn created_answer(p: LessonCreateParams, at: Identity) -> JsonModel {
    let head = no_members().push(("id"@, JsonModel::Text(at.id))).push(
        ("status"@, JsonModel::Text(at.dir)),
    ).push(("authored_by"@, JsonModel::Text(author_name(p.author()))));
    JsonModel::Object(
        with_opt(with_opt(head, "pack_id"@, p.pack()), "external_id"@, p.external()).push(
            ("created_at"@, JsonModel::Text(at.created_at)),
        ).push(("updated"@, JsonModel::Bool(at.updated_at is Some))),
    )
}

/// Whether there is a key for a created lesson.
pub open spec fn has_key(ctx: Context, at: Identity) -> bool {
    routes_inside(ctx) && is_canonical_text(at.dir) && is_stem_text(at.id)
}

/// What creating a lesson does: write the content under the key and give the answer.
#[derive(Debug)]
pub struct LessonCreation {
    pub key: StorageKey,
    pub content: String,
    pub answer: Json,
}

fn created_frontmatter(
    p: &LessonCreateParams,
    id: &str,
    created_at: &str,
    status: LessonStatus,
    updated_at: Option<String>,
) -> (fm: LessonFrontmatter)
    ensures
        forall|dir: Seq<char>|
            fm@ == #[trigger] created_lesson(
                *p,
                Identity {
                    id: id@,
                    created_at: created_at@,
                    status,
                    dir,
                    updated_at: opt_text(updated_at),
                },
            ),
{
    let authored_by = parse_authorship(&p.authored_by);
    let by_pack = match authored_by {
        Authorship::Pack => true,
        _ => false,
    };
    let fm = LessonFrontmatter {
        id: id.to_owned(),
        description: p.description.clone(),
        status,
        created_at: created_at.to_owned(),
        causal_narrative: build_narrative(&p.evidence, authored_by, created_at),
        target_skill: None,
        source_feedback_ids: None,
        applied_count: 0,
        last_applied_at: None,
        thumbs_up_count: 0,
        thumbs_down_count: 0,
        external_signal_sources: Vec::new(),
        applied_session_ids: Vec::new(),
        promotion_eligible_at: None,
        superseded_by: None,
        superseded_at: None,
        ingest_provenance: None,
        authored_by,
        pack_id: if by_pack {
            clone_opt(&p.pack_id)
        } else {
            None
        },
        external_id: if by_pack {
            clone_opt(&p.external_id)
        } else {
            None
        },
        updated_at,
    };
    proof {
        assert forall|dir: Seq<char>|
            fm@ == #[trigger] created_lesson(
                *p,
                Identity {
                    id: id@,
                    created_at: created_at@,
                    status,
                    dir,
                    updated_at: opt_text(updated_at),
                },
            ) by {
            assert(fm@ =~= created_lesson(
                *p,
                Identity {
                    id: id@,
                    created_at: created_at@,
                    status,
                    dir,
                    updated_at: opt_text(updated_at),
                },
            ));
        }
    }
    fm
}

/// Creates a lesson, given the one to replace, the time and a new id.
pub fn lesson_create(
    p: &LessonCreateParams,
    ctx: &Context,
    existing: Option<ExistingLesson>,
    now_iso: &str,
    new_id: String,
) -> (r: Result<LessonCreation, DispatchError>)
    ensures
        match r {
            Ok(creation) => {
                let at = identity(*p, existing, now_iso@, new_id@);
                &&& p.objection() is None
                &&& has_key(*ctx, at)
                &&& creation.key@ == routed(*ctx, "lessons/"@ + at.dir + "/"@ + at.id + ".md"@)
                &&& creation.content@ == combined(lesson_yaml(created_lesson(*p, at)), p.body@)
                &&& creation.answer.model() == created_answer(*p, at)
            },
            Err(e) => match p.objection() {
                Some(objection) => e@ == RefusalModel::InvalidParams(objection),
                None => {
                    let at = identity(*p, existing, now_iso@, new_id@);
                    !has_key(*ctx, at) && e@ == RefusalModel::Other("no key for lesson "@ + at.id)
                },
            },
        },
{
    let lookup = match check_create(p) {
        Ok(lookup) => lookup,
        Err(e) => return Err(e),
    };
    let ghost at = identity(*p, existing, now_iso@, new_id@);
    let mut id = new_id;
    let mut created_at = now_iso.to_owned();
    let mut status = if p.seed_as_promoted {
        LessonStatus::Promoted
    } else {
        LessonStatus::Pending
    };
    let mut dir = if p.seed_as_promoted {
        "promoted".to_owned()
    } else {
        "pending".to_owned()
    };
    let mut updated_at: Option<String> = None;
    let mut updated = false;
    if lookup.is_some() {
        if let Some(found) = existing {
            id = found.id;
            created_at = found.created_at;
            status = found.status;
            dir = found.status_dir;
            updated_at = Some(now_iso.to_owned());
            updated = true;
        }
    }
    proof {
        assert(at =~= Identity {
            id: id@,
            created_at: created_at@,
            status,
            dir: dir@,
            updated_at: opt_text(updated_at),
        });
    }
    if !StorageKey::routes(ctx) || !StorageKey::is_canonical(dir.as_str()) || !StorageKey::is_stem(
        id.as_str(),
    ) {
        return Err(DispatchError::Other(concat2("no key for lesson ", id.as_str())));
    }
    let fm = created_frontmatter(p, id.as_str(), created_at.as_str(), status, updated_at);
    proof {
        assert(fm@ == created_lesson(*p, at));
    }
    let yaml = serialize_lesson_frontmatter(&fm);
    let content = combine_frontmatter(yaml.as_str(), p.body.as_str());
    let key = StorageKey::lesson(ctx, dir.as_str(), id.as_str());
    let mut answer = Fields::new();
    answer.put("id", owned(id));
    answer.put("status", owned(dir));
    answer.put("authored_by", text(authorship_str(fm.authored_by)));
    if let Some(pack) = fm.pack_id {
        answer.put("pack_id", owned(pack));
    }
    if let Some(external) = fm.external_id {
        answer.put("external_id", owned(external));
    }
    answer.put("created_at", owned(created_at));
    answer.put("updated", boolean(updated));
    Ok(LessonCreation { key, content, answer: answer.done() })
}

// ---- Laws --------------------------------------------------------------------

/// A lesson of a pack that is installed again keeps its id, its creation time and its status.
pub proof fn law_reinstalled_lesson_keeps_its_identity(
    p: LessonCreateParams,
    existing: ExistingLesson,
    now: Seq<char>,
    new_id: Seq<char>,
)
    requires
        p.replaces(),
    ensures
        ({
            let at = identity(p, Some(existing), now, new_id);
            &&& at.id == existing.id@
            &&& at.created_at == existing.created_at@
            &&& at.status == existing.status
            &&& at.dir == existing.status_dir@
            &&& at.updated_at == Some(now)
        }),
{
}

/// A lesson that replaces none always has a key, unless the context has none at all.
pub proof fn law_new_lessons_have_a_key(
    p: LessonCreateParams,
    ctx: Context,
    now: Seq<char>,
    nanos: u32,
    counter: u32,
)
    requires
        routes_inside(ctx),
    ensures
        has_key(
            ctx,
            identity(p, None, now, "les-"@ + hex(id_number(nanos, counter) as nat, 8)),
        ),
{
    law_new_ids_name_files(nanos, counter);
    reveal_strlit("pending");
    reveal_strlit("promoted");
    lemma_plain_key("pending"@);
    lemma_plain_key("promoted"@);
}

/// Nothing but a pack can put a lesson among the promoted ones when it is created: what is new and
/// not from a pack is pending.
pub proof fn law_only_packs_skip_the_gate(
    p: LessonCreateParams,
    existing: Option<ExistingLesson>,
    now: Seq<char>,
    new_id: Seq<char>,
)
    requires
        p.objection() is None,
        !(p.author() is Pack),
    ensures
        identity(p, existing, now, new_id).status == LessonStatus::Pending,
        identity(p, existing, now, new_id).dir == "pending"@,
        identity(p, existing, now, new_id).id == new_id,
{
}

/// A lesson has a narrative exactly when evidence came with it.
pub proof fn law_no_narrative_without_evidence(
    evidence: Seq<Seq<char>>,
    authored_by: Authorship,
    now: Seq<char>,
)
    ensures
        narrative_of(evidence, authored_by, now) is None <==> evidence.len() == 0,
{
}

/// A lesson needs a description and a body; one of a pack needs to name the pack, and only packs may
/// have theirs promoted from the start. Only a pack that has its own name for the lesson can replace
/// one.
pub proof fn law_what_a_new_lesson_needs(
    p: &LessonCreateParams,
    r: Result<Option<PackKey>, DispatchError>,
)
    requires
        call_ensures(check_create, (p,), r),
    ensures
        ({
            let by_pack = opt_text(p.authored_by) == Some("pack"@);
            &&& r is Ok <==> {
                &&& !is_blank(p.description@)
                &&& !is_blank(p.body@)
                &&& by_pack ==> p.pack_id is Some && p.pack_id->0@.len() > 0
                &&& p.seed_as_promoted ==> by_pack
            }
            &&& r matches Ok(key) ==> {
                &&& key is Some <==> by_pack && p.external_id is Some
                &&& key is Some ==> key->0.pack_id@ == p.pack_id->0@ && key->0.external_id@
                    == p.external_id->0@
            }
            &&& r is Err ==> r->Err_0@ is InvalidParams
        }),
{
    lemma_author_names_are_told_apart();
}

proof fn lemma_author_names_are_told_apart()
    ensures
        "user"@ != "pack"@,
{
    reveal_strlit("user");
    reveal_strlit("pack");
    assert("user"@[0] != "pack"@[0]);
}

/// Only the users and packs are told apart by name; every other author is a model.
pub proof fn law_authors_are_named(name: &Option<String>, a: Authorship)
    requires
        call_ensures(parse_authorship, (name,), a),
    ensures
        a is User <==> opt_text(*name) == Some("user"@),
        a is Pack <==> opt_text(*name) == Some("pack"@),
        a is Llm <==> opt_text(*name) != Some("user"@) && opt_text(*name) != Some("pack"@),
        a is User ==> author_name(a) == "user"@,
        a is Pack ==> author_name(a) == "pack"@,
        a is Llm ==> author_name(a) == "agent"@,
{
    lemma_author_names_are_told_apart();
}

proof fn lemma_citations(evidence: Seq<Seq<char>>)
    ensures
        memory_citations(evidence.map_values(|e: Seq<char>| evidence_of(e))) == evidence.filter(
            |e: Seq<char>| has_prefix(e, "mem-"@),
        ),
    decreases evidence.len(),
{
    reveal(Seq::filter);
    let refs = evidence.map_values(|e: Seq<char>| evidence_of(e));
    if evidence.len() > 0 {
        let rest = evidence.drop_last();
        lemma_citations(rest);
        assert(refs.drop_last() =~= rest.map_values(|e: Seq<char>| evidence_of(e)));
        assert(refs.last() == evidence_of(evidence.last()));
    }
}

/// Evidence that begins like the id of a memory cites that memory, in its order; all other evidence
/// is a quote, and none is lost.
pub proof fn law_evidence_cites_memories(
    evidence: &Vec<String>,
    authored_by: Authorship,
    now_iso: &str,
    n: Option<CausalNarrative>,
)
    requires
        call_ensures(build_narrative, (evidence, authored_by, now_iso), n),
    ensures
        n is None <==> evidence@.len() == 0,
        citations_in(opt_narrative(n)) == texts(evidence@).filter(
            |e: Seq<char>| has_prefix(e, "mem-"@),
        ),
        opt_narrative(n) matches Some(m) ==> {
            &&& m.evidence_refs.len() == evidence@.len()
            &&& forall|i: int|
                #![trigger evidence@[i]]
                0 <= i < evidence@.len() ==> {
                    &&& has_prefix(evidence@[i]@, "mem-"@) ==> m.evidence_refs[i]
                        == EvidenceModel::Memory(evidence@[i]@)
                    &&& !has_prefix(evidence@[i]@, "mem-"@) ==> m.evidence_refs[i]
                        == EvidenceModel::Quote(evidence@[i]@)
                }
            &&& m.generated_at == now_iso@
            &&& m.generated_by is User <==> authored_by is User
            &&& m.confidence is Inferred
            &&& m.trigger == "user-supplied"@
            &&& m.failure_mode == "user-supplied"@
            &&& m.correction == "user-supplied"@
        },
{
    lemma_citations(texts(evidence@));
    if evidence@.len() == 0 {
        reveal(Seq::filter);
        assert(texts(evidence@).filter(|e: Seq<char>| has_prefix(e, "mem-"@)).len() == 0);
    }
}

/// A lesson that replaces one keeps its id, place and time of creation; any other gets a new id and
/// is pending, or promoted where a pack asks for it. The answer tells all of that.
pub proof fn law_a_created_lesson_is_answered(
    p: &LessonCreateParams,
    ctx: &Context,
    existing: Option<ExistingLesson>,
    now_iso: &str,
    new_id: String,
    r: Result<LessonCreation, DispatchError>,
)
    requires
        call_ensures(lesson_create, (p, ctx, existing, now_iso, new_id), r),
        r is Ok,
    ensures
        ({
            let j = r->Ok_0.answer.model();
            let by_pack = opt_text(p.authored_by) == Some("pack"@);
            let replaces = by_pack && p.pack_id is Some && p.external_id is Some && existing is Some;
            let id = if replaces {
                existing->0.id@
            } else {
                new_id@
            };
            let dir = if replaces {
                existing->0.status_dir@
            } else if p.seed_as_promoted {
                "promoted"@
            } else {
                "pending"@
            };
            &&& r->Ok_0.key@ == routed(*ctx, "lessons/"@ + dir + "/"@ + id + ".md"@)
            &&& has_member(j, "id"@, JsonModel::Text(id))
            &&& has_member(j, "status"@, JsonModel::Text(dir))
            &&& has_member(j, "updated"@, JsonModel::Bool(replaces))
            &&& replaces ==> has_member(
                j,
                "created_at"@,
                JsonModel::Text(existing->0.created_at@),
            )
            &&& !replaces ==> has_member(j, "created_at"@, JsonModel::Text(now_iso@))
            &&& by_pack ==> has_member(j, "pack_id"@, JsonModel::Text(p.pack_id->0@))
            &&& by_pack && p.external_id is Some ==> has_member(
                j,
                "external_id"@,
                JsonModel::Text(p.external_id->0@),
            )
            &&& by_pack ==> has_member(j, "authored_by"@, JsonModel::Text("pack"@))
            &&& opt_text(p.authored_by) == Some("user"@) ==> has_member(
                j,
                "authored_by"@,
                JsonModel::Text("user"@),
            )
        }),
{
    lemma_author_names_are_told_apart();
    let at = identity(*p, existing, now_iso@, new_id@);
    let m = r->Ok_0.answer.model()->Object_0;
    assert(m[0].0 == "id"@ && m[1].0 == "status"@ && m[2].0 == "authored_by"@);
    let n = m.len() as int;
    assert(m[n - 2] == ("created_at"@, JsonModel::Text(at.created_at)));
    assert(m[n - 1] == ("updated"@, JsonModel::Bool(at.updated_at is Some)));
    if p.pack() is Some {
        assert(m[3] == ("pack_id"@, JsonModel::Text(p.pack()->0)));
        if p.external() is Some {
            assert(m[4] == ("external_id"@, JsonModel::Text(p.external()->0)));
        }
    }
}

/// A new lesson holds what it was created from and has no history yet; pack and external id are
/// those of a pack only.
pub proof fn law_a_new_lesson_has_no_history(
    p: LessonCreateParams,
    existing: Option<ExistingLesson>,
    now: Seq<char>,
    new_id: Seq<char>,
)
    ensures
        ({
            let at = identity(p, existing, now, new_id);
            let l = created_lesson(p, at);
            let by_pack = opt_text(p.authored_by) == Some("pack"@);
            &&& l.id == at.id
            &&& l.description == p.description@
            &&& l.created_at == at.created_at
            &&& l.status == at.status
            &&& at.dir == "promoted"@ && !(p.replaces() && existing is Some) ==> l.status
                == LessonStatus::Promoted
            &&& at.dir == "pending"@ && !(p.replaces() && existing is Some) ==> l.status
                == LessonStatus::Pending
            &&& l.authored_by == p.author()
            &&& by_pack ==> l.pack_id == opt_text(p.pack_id) && l.external_id == opt_text(
                p.external_id,
            )
            &&& !by_pack ==> l.pack_id is None && l.external_id is None
            &&& l.applied_count == 0 && l.thumbs_up_count == 0 && l.thumbs_down_count == 0
            &&& l.external_signal_sources.len() == 0 && l.applied_session_ids.len() == 0
            &&& l.superseded_by is None && l.superseded_at is None
            &&& l.last_applied_at is None && l.promotion_eligible_at is None
            &&& citations_in(l.causal_narrative) == texts(p.evidence@).filter(
                |e: Seq<char>| has_prefix(e, "mem-"@),
            )
        }),
{
    lemma_author_names_are_told_apart();
    reveal_strlit("promoted");
    reveal_strlit("pending");
    assert("promoted"@[1] != "pending"@[1]);
    lemma_citations(texts(p.evidence@));
    if p.evidence@.len() == 0 {
        reveal(Seq::filter);
        assert(texts(p.evidence@).filter(|e: Seq<char>| has_prefix(e, "mem-"@)).len() == 0);
    }
}

} // verus!
