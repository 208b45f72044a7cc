//! The rules of the team store.
//!
//! The host reads and writes storage and the YAML of the frontmatter; what it may write, and what
//! it answers, is decided here. A team that the user authored is neither archived nor deleted by
//! the engine: without `force` both are refused.

use vstd::prelude::*;
use vstd::utf8::{encode_utf8, valid_utf8};

use super::model::{Team, TeamFrontmatter, TeamStatus};
use crate::engine::context::Context;
use crate::engine::error::EngineError;
use crate::engine::immunity::{
    RecordKind, is_immune, is_refusal, is_ruling, refusal, rule_on_delete,
};
use crate::engine::storage::StorageKey;
use crate::engine::storage::key::{
    is_canonical_text, lemma_routed_head, routed, routes_inside,
};
use crate::engine::yaml::envelope::{
    is_record_file, law_a_record_file_opens_into_its_parts, opened,
};
use crate::engine::yaml::frontmatter::{
    FrontmatterError, OwnedFrontmatterSplit, combine_frontmatter, combined,
    split_frontmatter_normalized,
};
use crate::engine::yaml::schema::Authorship;
use crate::text::{
    concat2, decode_text, ends_with, has_suffix, law_a_part_occurs_in_the_whole, trim, trimmed,
    utf8_error,
};

verus! {

/// How often an update is tried when its writes lose their races.
pub const TEAM_CAS_MAX_RETRIES: u32 = 5;

/// The key of a team.
pub open spec fn team_key(ctx: Context, id: Seq<char>) -> Seq<char> {
    routed(ctx, "teams/"@ + id + "/TEAM.md"@)
}

/// Whether there is a key for a team of this id.
pub open spec fn has_key(ctx: Context, id: Seq<char>) -> bool {
    routes_inside(ctx) && is_canonical_text(id)
}

/// The key of a team, where there is one. An id that is not fit for a key names no team.
pub open spec fn place(ctx: Context, id: Seq<char>) -> Option<Seq<char>> {
    if has_key(ctx, id) {
        Some(team_key(ctx, id))
    } else {
        None
    }
}

/// The key of a team, where there is one.
pub fn locate(ctx: &Context, id: &str) -> (r: Option<StorageKey>)
    ensures
        match r {
            Some(key) => place(*ctx, id@) == Some(key@),
            None => place(*ctx, id@) is None,
        },
{
    if StorageKey::routes(ctx) && StorageKey::is_canonical(id) {
        Some(StorageKey::team(ctx, id))
    } else {
        None
    }
}

/// The file of a team whose frontmatter was rendered to `yaml`.
pub fn render_team_file(yaml: &str, body: &str) -> (content: String)
    ensures
        content@ == combined(trimmed(yaml@), body@),
{
    let yaml = trim(yaml);
    combine_frontmatter(yaml.as_str(), body)
}

/// Opens the file of a team: the YAML, ready for its reader, and the body.
pub fn open_team_file(bytes: &[u8]) -> (r: Result<OwnedFrontmatterSplit, EngineError>)
    ensures
        match r {
            Ok(split) => valid_utf8(bytes@) && opened(bytes@) == Ok::<
                (Seq<char>, Seq<char>),
                FrontmatterError,
            >((split.yaml@, split.body@)),
            Err(e) => e is Parse && e->Parse_0@ == (if !valid_utf8(bytes@) {
                "non-utf8 team bytes: "@ + utf8_error(bytes@)
            } else {
                "split frontmatter: "@ + opened(bytes@)->Err_0.text()
            }) && (valid_utf8(bytes@) ==> opened(bytes@) is Err),
        },
{
    match decode_text(bytes) {
        Err(e) => Err(EngineError::Parse(concat2("non-utf8 team bytes: ", e.as_str()))),
        Ok(content) => match split_frontmatter_normalized(content.as_str()) {
            Ok(split) => Ok(split),
            Err(e) => {
                let message = e.message();
                Err(EngineError::Parse(concat2("split frontmatter: ", message.as_str())))
            },
        },
    }
}

/// What an insert does.
pub struct TeamInsert {
    pub key: StorageKey,
    pub content: String,
    pub team: Team,
}

/// Decides an insert. `exists` says whether the key is taken, `yaml` is the rendered frontmatter.
pub fn insert(
    ctx: &Context,
    id: &str,
    frontmatter: TeamFrontmatter,
    body: String,
    exists: bool,
    yaml: Result<String, String>,
) -> (r: Result<TeamInsert, EngineError>)
    ensures
        match r {
            Ok(plan) => {
                &&& has_key(*ctx, id@)
                &&& !exists
                &&& yaml is Ok
                &&& plan.key@ == team_key(*ctx, id@)
                &&& plan.content@ == combined(trimmed(yaml->Ok_0@), body@)
                &&& plan.team.frontmatter == frontmatter
                &&& plan.team.body == body
            },
            Err(e) => if !has_key(*ctx, id@) {
                e is Parse && e->Parse_0@ == "invalid team id: "@ + id@
            } else if exists {
                e is Parse && e->Parse_0@ == "team already exists: "@ + id@
            } else {
                yaml is Err && e == EngineError::Yaml(yaml->Err_0)
            },
        },
{
    let key = match locate(ctx, id) {
        Some(key) => key,
        None => return Err(EngineError::Parse(concat2("invalid team id: ", id))),
    };
    if exists {
        return Err(EngineError::Parse(concat2("team already exists: ", id)));
    }
    match yaml {
        Err(e) => Err(EngineError::Yaml(e)),
        Ok(text) => {
            let content = render_team_file(text.as_str(), body.as_str());
            Ok(
                TeamInsert {
                    key,
                    content,
                    team: Team::new(frontmatter, body),
                },
            )
        },
    }
}

/// Whether a key below the teams prefix is the file of a team.
pub fn is_team_file(key: &StorageKey) -> (b: bool)
    ensures
        b == has_suffix(key@, "/TEAM.md"@),
{
    ends_with(key.as_str(), "/TEAM.md")
}

/// The teams that could be read, in order.
pub open spec fn readable(loaded: Seq<Result<Team, EngineError>>) -> Seq<Team>
    decreases loaded.len(),
{
    if loaded.len() == 0 {
        seq![]
    } else {
        match loaded.last() {
            Ok(team) => readable(loaded.drop_last()).push(team),
            Err(_) => readable(loaded.drop_last()),
        }
    }
}

/// The teams of a listing. What cannot be read is left out.
pub fn list(loaded: Vec<Result<Team, EngineError>>) -> (out: Vec<Team>)
    ensures
        out@ == readable(loaded@),
{
    let ghost all = loaded@;
    let mut out: Vec<Team> = Vec::new();
    for entry in it: loaded
        invariant
            it.seq() == all,
            out@ == readable(all.take(it.index() as int)),
    {
        proof {
            assert(all.take(it.index() as int + 1).drop_last() =~= all.take(it.index() as int));
            assert(all.take(it.index() as int + 1).last() == entry);
        }
        if let Ok(team) = entry {
            out.push(team);
        }
    }
    proof {
        assert(all.take(all.len() as int) =~= all);
    }
    out
}

/// The answer about a team that is not there.
pub fn not_found(id: &str) -> (e: EngineError)
    ensures
        e is Parse,
        e->Parse_0@ == "team not found: "@ + id@,
{
    EngineError::Parse(concat2("team not found: ", id))
}

/// Decides whether a team may be archived. `stored` is the author of the stored team, absent
/// where there is none; it is not looked at with `force`.
pub fn archive(id: &str, force: bool, stored: Option<Authorship>) -> (r: Result<(), EngineError>)
    ensures
        match r {
            Ok(_) => force || (stored is Some && !is_immune(force, stored->0)),
            Err(e) => !force && match stored {
                None => e is Parse && e->Parse_0@ == "team not found: "@ + id@,
                Some(author) => is_immune(force, author) && is_refusal(RecordKind::Team, id@, e),
            },
        },
{
    if force {
        return Ok(());
    }
    match stored {
        None => Err(not_found(id)),
        Some(author) => {
            if author.is_user() {
                Err(refusal(RecordKind::Team, id))
            } else {
                Ok(())
            }
        },
    }
}

/// The frontmatter of the team once it is archived.
pub fn archived(fm: TeamFrontmatter) -> (out: TeamFrontmatter)
    ensures
        out == (TeamFrontmatter { status: TeamStatus::Archived, ..fm }),
{
    let mut out = fm;
    out.status = TeamStatus::Archived;
    out
}

/// Decides whether a team may be deleted. Deleting an absent team is no error.
pub fn delete(id: &str, force: bool, stored: Option<Authorship>) -> (r: Result<(), EngineError>)
    ensures
        is_ruling(RecordKind::Team, id@, force, stored, r),
{
    rule_on_delete(RecordKind::Team, id, force, stored)
}

// ---- Laws --------------------------------------------------------------------

/// Listing skips what could not be read and nothing else, and keeps the order.
pub proof fn law_listing_skips_only_the_unreadable(
    loaded: Vec<Result<Team, EngineError>>,
    out: Vec<Team>,
)
    requires
        call_ensures(list, (loaded,), out),
    ensures
        out@ == loaded@.filter(|r: Result<Team, EngineError>| r is Ok).map_values(
            |r: Result<Team, EngineError>| r->Ok_0,
        ),
{
    lemma_readable(loaded@);
}

proof fn lemma_readable(loaded: Seq<Result<Team, EngineError>>)
    ensures
        readable(loaded) == loaded.filter(|r: Result<Team, EngineError>| r is Ok).map_values(
            |r: Result<Team, EngineError>| r->Ok_0,
        ),
    decreases loaded.len(),
{
    reveal(Seq::filter);
    let f = |r: Result<Team, EngineError>| r->Ok_0;
    let ok = loaded.filter(|r: Result<Team, EngineError>| r is Ok);
    if loaded.len() > 0 {
        lemma_readable(loaded.drop_last());
        let before = loaded.drop_last().filter(|r: Result<Team, EngineError>| r is Ok);
        if let Ok(team) = loaded.last() {
            assert(ok.map_values(f) =~= before.map_values(f).push(team));
        }
    } else {
        assert(ok.map_values(f) =~= readable(loaded));
    }
}

/// A team can be archived where that is forced, or where it exists and is not the user's; it can be
/// deleted unless it is the user's and that is not forced.
pub proof fn law_only_force_removes_a_users_team(
    id: &str,
    force: bool,
    stored: Option<Authorship>,
    put_away: Result<(), EngineError>,
    removed: Result<(), EngineError>,
)
    requires
        call_ensures(archive, (id, force, stored), put_away),
        call_ensures(delete, (id, force, stored), removed),
    ensures
        put_away is Ok <==> force || (stored is Some && !(stored->0 is User)),
        removed is Ok <==> force || stored is None || !(stored->0 is User),
        removed matches Err(e) ==> (e matches EngineError::UserTeamImmune { id: named } && named@
            == id@),
        put_away is Err && stored is Some ==> (put_away->Err_0 matches EngineError::UserTeamImmune {
            id: named,
        } && named@ == id@),
{
}

/// A team is entered where it can be stored, does not exist yet and can be written; its file then
/// holds it.
pub proof fn law_new_teams_are_entered(
    ctx: &Context,
    id: &str,
    frontmatter: TeamFrontmatter,
    body: String,
    exists: bool,
    yaml: Result<String, String>,
    r: Result<TeamInsert, EngineError>,
)
    requires
        call_ensures(insert, (ctx, id, frontmatter, body, exists, yaml), r),
    ensures
        r is Ok <==> routes_inside(*ctx) && is_canonical_text(id@) && !exists && yaml is Ok,
        r matches Ok(plan) ==> {
            &&& has_suffix(plan.key@, "teams/"@ + id@ + "/TEAM.md"@)
            &&& plan.team.frontmatter == frontmatter
            &&& plan.team.body == body
        },
{
    if let Ok(plan) = r {
        let name = "teams/"@ + id@ + "/TEAM.md"@;
        let head = lemma_routed_head(*ctx, name);
        law_a_part_occurs_in_the_whole(head, name, Seq::empty(), plan.key@);
    }
}

/// The file of a team opens into its two parts.
pub proof fn law_team_files_open_into_their_parts(
    bytes: &[u8],
    r: Result<OwnedFrontmatterSplit, EngineError>,
    file: Seq<char>,
    yaml: Seq<char>,
    body: Seq<char>,
)
    requires
        call_ensures(open_team_file, (bytes,), r),
        is_record_file(file, yaml, body),
        bytes@ == encode_utf8(file),
    ensures
        r is Ok,
        r->Ok_0.yaml@ == yaml,
        r->Ok_0.body@ == body,
{
    law_a_record_file_opens_into_its_parts(file, yaml, body);
}

/// The file of a team is found by its name.
pub proof fn law_team_files_are_told_by_name(key: &StorageKey, b: bool, dir: Seq<char>)
    requires
        call_ensures(is_team_file, (key,), b),
    ensures
        key@ == dir + "/TEAM.md"@ ==> b,
        b ==> exists|head: Seq<char>| key@ == #[trigger] (head + "/TEAM.md"@),
{
    law_a_part_occurs_in_the_whole(dir, "/TEAM.md"@, Seq::empty(), key@);
    if b {
        let head = key@.take(key@.len() - "/TEAM.md"@.len());
        assert(key@ == head + "/TEAM.md"@);
    }
}

/// A team has a place where its user and its id are fit for a key; the place is below the tenant
/// and ends in the name of the team and of its file.
pub proof fn law_a_team_has_its_place(ctx: &Context, id: &str, r: Option<StorageKey>)
    requires
        call_ensures(locate, (ctx, id), r),
    ensures
        r is Some <==> routes_inside(*ctx) && is_canonical_text(id@),
        r matches Some(key) ==> has_suffix(key@, "teams/"@ + id@ + "/TEAM.md"@),
        r matches Some(key) ==> key@ == routed(*ctx, "teams/"@ + id@ + "/TEAM.md"@),
{
    if let Some(key) = r {
        let name = "teams/"@ + id@ + "/TEAM.md"@;
        let head = lemma_routed_head(*ctx, name);
        law_a_part_occurs_in_the_whole(head, name, Seq::empty(), key@);
    }
}

} // verus!
