//! The rules of the skill store.
//!
//! The host reads and writes storage and the YAML of the frontmatter; what it may write, and what
//! it answers, is decided here. A skill that the user authored is neither archived nor deleted by
//! the engine: without `force` both are refused.

use vstd::prelude::*;
use vstd::utf8::{encode_utf8, valid_utf8};

use super::model::{Skill, SkillFrontmatter, SkillStatus};
use crate::engine::context::Context;
use crate::engine::error::EngineError;
use crate::engine::immunity::{
    RecordKind, is_immune, is_refusal, is_ruling, refusal, rule_on_delete,
};
use crate::engine::memory::MemoryId;
use crate::engine::storage::StorageKey;
use crate::engine::storage::key::{
    is_canonical_text, lemma_routed_head, routed, routes_inside,
};
use crate::engine::yaml::envelope::{
    is_record_file, law_a_record_file_opens_into_its_parts, opened,
};
use crate::engine::yaml::frontmatter::{
    FrontmatterError, OwnedFrontmatterSplit, combine_frontmatter, combined,
    split_frontmatter_normalized,
};
use crate::engine::yaml::schema::{
    Authorship, EvidenceModel, cited_memories, evidence_models, law_citations_are_the_memories,
    memory_citations, memory_texts,
};
use crate::text::{
    concat2, decode_text, ends_with, has_suffix, law_a_part_occurs_in_the_whole, to_chars, trim,
    trimmed, utf8_error,
};

verus! {

/// How often an update is tried when its writes lose their races.
pub const SKILL_CAS_MAX_RETRIES: u32 = 5;

/// The longest name of a skill, in characters.
pub const MAX_SKILL_NAME: usize = 64;

/// Hosts cut a description off after this many characters.
pub const MAX_SHOWN_DESCRIPTION: usize = 1024;

/// Lower-case letters, digits and hyphens, at most 64 of them.
pub open spec fn is_skill_name(name: Seq<char>) -> bool {
    &&& name.len() <= MAX_SKILL_NAME
    &&& forall|i: int|
        0 <= i < name.len() ==> 'a' <= #[trigger] name[i] <= 'z' || '0' <= name[i] <= '9' || name[i]
            == '-'
}

/// The key of a skill.
pub open spec fn skill_key(ctx: Context, id: Seq<char>) -> Seq<char> {
    routed(ctx, "skills/"@ + id + "/SKILL.md"@)
}

/// The memories that become immune because a skill cites them: only a user-authored skill does
/// that.
pub open spec fn citations_of(fm: SkillFrontmatter) -> Seq<Seq<char>> {
    if fm.authored_by is User {
        memory_citations(evidence_models(fm.evidence_refs@))
    } else {
        seq![]
    }
}

/// Whether the name of a skill is allowed.
pub fn is_valid_skill_name(name: &str) -> (b: bool)
    ensures
        b == is_skill_name(name@),
{
    let chars = to_chars(name);
    if chars.len() > MAX_SKILL_NAME {
        return false;
    }
    let mut i: usize = 0;
    while i < chars.len()
        invariant
            chars@ == name@,
            chars.len() <= MAX_SKILL_NAME,
            i <= chars.len(),
            forall|j: int|
                0 <= j < i ==> 'a' <= #[trigger] name@[j] <= 'z' || '0' <= name@[j] <= '9'
                    || name@[j] == '-',
        decreases chars.len() - i,
    {
        let c = chars[i];
        if !(('a' <= c && c <= 'z') || ('0' <= c && c <= '9') || c == '-') {
            proof {
                assert(name@[i as int] == c);
            }
            return false;
        }
        i += 1;
    }
    true
}

/// Whether there is a key for a skill of this id.
pub open spec fn has_key(ctx: Context, id: Seq<char>) -> bool {
    routes_inside(ctx) && is_canonical_text(id)
}

/// The key of a skill, where there is one. An id that is not fit for a key names no skill.
pub open spec fn place(ctx: Context, id: Seq<char>) -> Option<Seq<char>> {
    if has_key(ctx, id) {
        Some(skill_key(ctx, id))
    } else {
        None
    }
}

/// The key of a skill, where there is one.
pub fn locate(ctx: &Context, id: &str) -> (r: Option<StorageKey>)
    ensures
        match r {
            Some(key) => place(*ctx, id@) == Some(key@),
            None => place(*ctx, id@) is None,
        },
{
    if StorageKey::routes(ctx) && StorageKey::is_canonical(id) {
        Some(StorageKey::skill(ctx, id))
    } else {
        None
    }
}

/// The file of a skill whose frontmatter was rendered to `yaml`.
pub fn render_skill_file(yaml: &str, body: &str) -> (content: String)
    ensures
        content@ == combined(trimmed(yaml@), body@),
{
    let yaml = trim(yaml);
    combine_frontmatter(yaml.as_str(), body)
}

/// Opens the file of a skill: the YAML, ready for its reader, and the body.
pub fn open_skill_file(bytes: &[u8]) -> (r: Result<OwnedFrontmatterSplit, EngineError>)
    ensures
        match r {
            Ok(split) => valid_utf8(bytes@) && opened(bytes@) == Ok::<
                (Seq<char>, Seq<char>),
                FrontmatterError,
            >((split.yaml@, split.body@)),
            Err(e) => e is Parse && e->Parse_0@ == (if !valid_utf8(bytes@) {
                "non-utf8 skill bytes: "@ + utf8_error(bytes@)
            } else {
                "split frontmatter: "@ + opened(bytes@)->Err_0.text()
            }) && (valid_utf8(bytes@) ==> opened(bytes@) is Err),
        },
{
    match decode_text(bytes) {
        Err(e) => Err(EngineError::Parse(concat2("non-utf8 skill bytes: ", e.as_str()))),
        Ok(content) => match split_frontmatter_normalized(content.as_str()) {
            Ok(split) => Ok(split),
            Err(e) => {
                let message = e.message();
                Err(EngineError::Parse(concat2("split frontmatter: ", message.as_str())))
            },
        },
    }
}

/// What an insert does.
pub struct SkillInsert {
    pub key: StorageKey,
    pub content: String,
    /// Memories whose citation counters go up, once per citation.
    pub citations: Vec<MemoryId>,
    /// The description is longer than hosts show; worth a warning.
    pub description_is_long: bool,
    pub skill: Skill,
}

/// Decides an insert. `exists` says whether the key is taken, `yaml` is the rendered frontmatter.
pub fn insert(
    ctx: &Context,
    id: &str,
    frontmatter: SkillFrontmatter,
    body: String,
    exists: bool,
    yaml: Result<String, String>,
) -> (r: Result<SkillInsert, EngineError>)
    ensures
        match r {
            Ok(plan) => {
                &&& has_key(*ctx, id@)
                &&& !exists
                &&& is_skill_name(frontmatter.name@)
                &&& yaml is Ok
                &&& plan.key@ == skill_key(*ctx, id@)
                &&& plan.content@ == combined(trimmed(yaml->Ok_0@), body@)
                &&& memory_texts(plan.citations@) == citations_of(frontmatter)
                &&& plan.description_is_long == (frontmatter.description@.len()
                    > MAX_SHOWN_DESCRIPTION)
                &&& plan.skill.frontmatter == frontmatter
                &&& plan.skill.body == body
            },
            Err(e) => if !has_key(*ctx, id@) {
                e is Parse && e->Parse_0@ == "invalid skill id: "@ + id@
            } else if exists {
                e is Parse && e->Parse_0@ == "skill already exists: "@ + id@
            } else if !is_skill_name(frontmatter.name@) {
                e is Parse && e->Parse_0@ == "invalid skill name: "@ + frontmatter.name@
            } else {
                yaml is Err && e == EngineError::Yaml(yaml->Err_0)
            },
        },
{
    let key = match locate(ctx, id) {
        Some(key) => key,
        None => return Err(EngineError::Parse(concat2("invalid skill id: ", id))),
    };
    if exists {
        return Err(EngineError::Parse(concat2("skill already exists: ", id)));
    }
    if !is_valid_skill_name(frontmatter.name.as_str()) {
        return Err(
            EngineError::Parse(concat2("invalid skill name: ", frontmatter.name.as_str())),
        );
    }
    match yaml {
        Err(e) => Err(EngineError::Yaml(e)),
        Ok(text) => {
            let content = render_skill_file(text.as_str(), body.as_str());
            let citations = if frontmatter.authored_by.is_user() {
                cited_memories(&frontmatter.evidence_refs)
            } else {
                let none: Vec<MemoryId> = Vec::new();
                proof {
                    assert(memory_texts(none@) =~= seq![]);
                }
                none
            };
            let description = to_chars(frontmatter.description.as_str());
            Ok(
                SkillInsert {
                    key,
                    content,
                    citations,
                    description_is_long: description.len() > MAX_SHOWN_DESCRIPTION,
                    skill: Skill::new(frontmatter, body),
                },
            )
        },
    }
}

/// Whether a key below the skills prefix is the file of a skill.
pub fn is_skill_file(key: &StorageKey) -> (b: bool)
    ensures
        b == has_suffix(key@, "/SKILL.md"@),
{
    ends_with(key.as_str(), "/SKILL.md")
}

/// The skills that could be read, in order.
pub open spec fn readable(loaded: Seq<Result<Skill, EngineError>>) -> Seq<Skill>
    decreases loaded.len(),
{
    if loaded.len() == 0 {
        seq![]
    } else {
        match loaded.last() {
            Ok(skill) => readable(loaded.drop_last()).push(skill),
            Err(_) => readable(loaded.drop_last()),
        }
    }
}

/// The skills of a listing. What cannot be read is left out.
pub fn list(loaded: Vec<Result<Skill, EngineError>>) -> (out: Vec<Skill>)
    ensures
        out@ == readable(loaded@),
{
    let ghost all = loaded@;
    let mut out: Vec<Skill> = Vec::new();
    for entry in it: loaded
        invariant
            it.seq() == all,
            out@ == readable(all.take(it.index() as int)),
    {
        proof {
            assert(all.take(it.index() as int + 1).drop_last() =~= all.take(it.index() as int));
            assert(all.take(it.index() as int + 1).last() == entry);
        }
        if let Ok(skill) = entry {
            out.push(skill);
        }
    }
    proof {
        assert(all.take(all.len() as int) =~= all);
    }
    out
}

/// The answer about a skill that is not there.
pub fn not_found(id: &str) -> (e: EngineError)
    ensures
        e is Parse,
        e->Parse_0@ == "skill not found: "@ + id@,
{
    EngineError::Parse(concat2("skill not found: ", id))
}

/// Decides whether a skill may be archived. `stored` is the author of the stored skill, absent
/// where there is none; it is not looked at with `force`.
pub fn archive(id: &str, force: bool, stored: Option<Authorship>) -> (r: Result<(), EngineError>)
    ensures
        match r {
            Ok(_) => force || (stored is Some && !is_immune(force, stored->0)),
            Err(e) => !force && match stored {
                None => e is Parse && e->Parse_0@ == "skill not found: "@ + id@,
                Some(author) => is_immune(force, author) && is_refusal(RecordKind::Skill, id@, e),
            },
        },
{
    if force {
        return Ok(());
    }
    match stored {
        None => Err(not_found(id)),
        Some(author) => {
            if author.is_user() {
                Err(refusal(RecordKind::Skill, id))
            } else {
                Ok(())
            }
        },
    }
}

/// The frontmatter of the skill once it is archived.
pub fn archived(fm: SkillFrontmatter) -> (out: SkillFrontmatter)
    ensures
        out == (SkillFrontmatter { status: SkillStatus::Archived, ..fm }),
{
    let mut out = fm;
    out.status = SkillStatus::Archived;
    out
}

/// Decides whether a skill may be deleted. Deleting an absent skill is no error.
pub fn delete(id: &str, force: bool, stored: Option<Authorship>) -> (r: Result<(), EngineError>)
    ensures
        is_ruling(RecordKind::Skill, id@, force, stored, r),
{
    rule_on_delete(RecordKind::Skill, id, force, stored)
}

// ---- Laws --------------------------------------------------------------------

/// A skill that the user did not author makes no memory immune.
pub proof fn law_only_user_skills_cite(fm: SkillFrontmatter)
    requires
        !(fm.authored_by is User),
    ensures
        citations_of(fm).len() == 0,
{
}

/// The name of a skill is at most 64 lower-case letters, digits and hyphens.
pub proof fn law_skill_names(name: &str, b: bool)
    requires
        call_ensures(is_valid_skill_name, (name,), b),
    ensures
        b <==> name@.len() <= 64 && forall|i: int|
            0 <= i < name@.len() ==> {
                ||| 'a' <= #[trigger] name@[i] <= 'z'
                ||| '0' <= name@[i] <= '9'
                ||| name@[i] == '-'
            },
{
}

/// Listing skips what could not be read and nothing else, and keeps the order.
pub proof fn law_listing_skips_only_the_unreadable(
    loaded: Vec<Result<Skill, EngineError>>,
    out: Vec<Skill>,
)
    requires
        call_ensures(list, (loaded,), out),
    ensures
        out@ == loaded@.filter(|r: Result<Skill, EngineError>| r is Ok).map_values(
            |r: Result<Skill, EngineError>| r->Ok_0,
        ),
{
    lemma_readable(loaded@);
}

proof fn lemma_readable(loaded: Seq<Result<Skill, EngineError>>)
    ensures
        readable(loaded) == loaded.filter(|r: Result<Skill, EngineError>| r is Ok).map_values(
            |r: Result<Skill, EngineError>| r->Ok_0,
        ),
    decreases loaded.len(),
{
    reveal(Seq::filter);
    let f = |r: Result<Skill, EngineError>| r->Ok_0;
    let ok = loaded.filter(|r: Result<Skill, EngineError>| r is Ok);
    if loaded.len() > 0 {
        lemma_readable(loaded.drop_last());
        let before = loaded.drop_last().filter(|r: Result<Skill, EngineError>| r is Ok);
        if let Ok(skill) = loaded.last() {
            assert(ok.map_values(f) =~= before.map_values(f).push(skill));
        }
    } else {
        assert(ok.map_values(f) =~= readable(loaded));
    }
}

/// A skill can be archived where that is forced, or where it exists and is not the user's; it can be
/// deleted unless it is the user's and that is not forced.
pub proof fn law_only_force_removes_a_users_skill(
    id: &str,
    force: bool,
    stored: Option<Authorship>,
    put_away: Result<(), EngineError>,
    removed: Result<(), EngineError>,
)
    requires
        call_ensures(archive, (id, force, stored), put_away),
        call_ensures(delete, (id, force, stored), removed),
    ensures
        put_away is Ok <==> force || (stored is Some && !(stored->0 is User)),
        removed is Ok <==> force || stored is None || !(stored->0 is User),
        removed matches Err(e) ==> (e matches EngineError::UserSkillImmune { id: named } && named@
            == id@),
        put_away is Err && stored is Some ==> (put_away->Err_0 matches EngineError::UserSkillImmune {
            id: named,
        } && named@ == id@),
{
}

/// A skill of the user cites the memories among its evidence, in their order and as often as they
/// stand there; no other skill cites any.
pub proof fn law_skills_cite_memories(fm: SkillFrontmatter)
    ensures
        fm.authored_by is User ==> citations_of(fm) == evidence_models(
            fm.evidence_refs@,
        ).filter(|e: EvidenceModel| e is Memory).map_values(|e: EvidenceModel| e->Memory_0),
        !(fm.authored_by is User) ==> citations_of(fm).len() == 0,
{
    law_citations_are_the_memories(evidence_models(fm.evidence_refs@));
}

/// A skill is entered where it can be stored, does not exist yet, has a proper name and can be
/// written; its file then holds it, and its citations count.
pub proof fn law_new_skills_are_entered(
    ctx: &Context,
    id: &str,
    frontmatter: SkillFrontmatter,
    body: String,
    exists: bool,
    yaml: Result<String, String>,
    r: Result<SkillInsert, EngineError>,
)
    requires
        call_ensures(insert, (ctx, id, frontmatter, body, exists, yaml), r),
    ensures
        r is Ok <==> routes_inside(*ctx) && is_canonical_text(id@) && !exists && is_skill_name(
            frontmatter.name@,
        ) && yaml is Ok,
        r matches Ok(plan) ==> {
            &&& has_suffix(plan.key@, "skills/"@ + id@ + "/SKILL.md"@)
            &&& plan.skill.frontmatter == frontmatter
            &&& plan.skill.body == body
            &&& plan.description_is_long <==> frontmatter.description@.len() > 1024
            &&& frontmatter.authored_by is User ==> memory_texts(plan.citations@)
                == memory_citations(evidence_models(frontmatter.evidence_refs@))
            &&& !(frontmatter.authored_by is User) ==> plan.citations@.len() == 0
        },
{
    if let Ok(plan) = r {
        let name = "skills/"@ + id@ + "/SKILL.md"@;
        let head = lemma_routed_head(*ctx, name);
        law_a_part_occurs_in_the_whole(head, name, Seq::empty(), plan.key@);
        assert(memory_texts(plan.citations@).len() == plan.citations@.len());
    }
}

/// The file of a skill opens into its two parts.
pub proof fn law_skill_files_open_into_their_parts(
    bytes: &[u8],
    r: Result<OwnedFrontmatterSplit, EngineError>,
    file: Seq<char>,
    yaml: Seq<char>,
    body: Seq<char>,
)
    requires
        call_ensures(open_skill_file, (bytes,), r),
        is_record_file(file, yaml, body),
        bytes@ == encode_utf8(file),
    ensures
        r is Ok,
        r->Ok_0.yaml@ == yaml,
        r->Ok_0.body@ == body,
{
    law_a_record_file_opens_into_its_parts(file, yaml, body);
}

/// The file of a skill is found by its name.
pub proof fn law_skill_files_are_told_by_name(key: &StorageKey, b: bool, dir: Seq<char>)
    requires
        call_ensures(is_skill_file, (key,), b),
    ensures
        key@ == dir + "/SKILL.md"@ ==> b,
        b ==> exists|head: Seq<char>| key@ == #[trigger] (head + "/SKILL.md"@),
{
    law_a_part_occurs_in_the_whole(dir, "/SKILL.md"@, Seq::empty(), key@);
    if b {
        let head = key@.take(key@.len() - "/SKILL.md"@.len());
        assert(key@ == head + "/SKILL.md"@);
    }
}

/// A skill has a place where its user and its id are fit for a key; the place is below the tenant
/// and ends in the name of the skill and of its file.
pub proof fn law_a_skill_has_its_place(ctx: &Context, id: &str, r: Option<StorageKey>)
    requires
        call_ensures(locate, (ctx, id), r),
    ensures
        r is Some <==> routes_inside(*ctx) && is_canonical_text(id@),
        r matches Some(key) ==> has_suffix(key@, "skills/"@ + id@ + "/SKILL.md"@),
        r matches Some(key) ==> key@ == routed(*ctx, "skills/"@ + id@ + "/SKILL.md"@),
{
    if let Some(key) = r {
        let name = "skills/"@ + id@ + "/SKILL.md"@;
        let head = lemma_routed_head(*ctx, name);
        law_a_part_occurs_in_the_whole(head, name, Seq::empty(), key@);
    }
}

} // verus!
