//! What the user authored is immune: the engine neither archives nor deletes it unless it is forced
//! to. The rule is the same for skills and teams.

use vstd::prelude::*;

use crate::engine::error::EngineError;
use crate::engine::storage::memory::{StoreModel, deleted};
use crate::engine::yaml::schema::Authorship;

verus! {

/// The records that have an author.
#[derive(Debug, Clone, Copy, PartialEq, Eq, Structural)]
pub enum RecordKind {
    Skill,
    Team,
}

/// Whether a record by this author is immune.
pub open spec fn is_immune(force: bool, author: Authorship) -> bool {
    !force && author is User
}

/// Whether this is the error about an immune record.
pub open spec fn is_refusal(kind: RecordKind, id: Seq<char>, e: EngineError) -> bool {
    match kind {
        RecordKind::Skill => e matches EngineError::UserSkillImmune { id: named } && named@ == id,
        RecordKind::Team => e matches EngineError::UserTeamImmune { id: named } && named@ == id,
    }
}

/// The ruling on a deletion, given the author of what is stored.
pub open spec fn is_ruling(
    kind: RecordKind,
    id: Seq<char>,
    force: bool,
    stored: Option<Authorship>,
    r: Result<(), EngineError>,
) -> bool {
    match r {
        Ok(_) => stored is None || !is_immune(force, stored->0),
        Err(e) => stored is Some && is_immune(force, stored->0) && is_refusal(kind, id, e),
    }
}

/// The error about an immune record.
pub fn refusal(kind: RecordKind, id: &str) -> (e: EngineError)
    ensures
        is_refusal(kind, id@, e),
{
    match kind {
        RecordKind::Skill => EngineError::UserSkillImmune { id: id.to_owned() },
        RecordKind::Team => EngineError::UserTeamImmune { id: id.to_owned() },
    }
}

/// Rules on a deletion. Deleting what is not there is no error.
pub fn rule_on_delete(
    kind: RecordKind,
    id: &str,
    force: bool,
    stored: Option<Authorship>,
) -> (r: Result<(), EngineError>)
    ensures
        is_ruling(kind, id@, force, stored, r),
{
    match stored {
        Some(author) => {
            if !force && author.is_user() {
                Err(refusal(kind, id))
            } else {
                Ok(())
            }
        },
        None => Ok(()),
    }
}

// ---- Laws --------------------------------------------------------------------

/// Only authorship makes a record immune, and `force` always overrides it.
pub proof fn law_immunity_is_by_authorship(author: Authorship)
    ensures
        is_immune(false, author) <==> author is User,
        !is_immune(true, author),
{
}

/// Whether a store holds something under the key of a record; some ids have no key.
pub open spec fn is_stored(s: StoreModel, key: Option<Seq<char>>) -> bool {
    key is Some && s.entries.dom().contains(key->0)
}

/// The author of what is stored, as the reader of the frontmatter finds it.
pub open spec fn stored_author(
    s: StoreModel,
    key: Option<Seq<char>>,
    reader: spec_fn(Seq<u8>) -> Authorship,
) -> Option<Authorship> {
    if is_stored(s, key) {
        Some(reader(s.entries[key->0].0))
    } else {
        None
    }
}

/// What a ruling on a deletion makes of a store.
pub open spec fn after_delete(
    s: StoreModel,
    key: Option<Seq<char>>,
    ruling: Result<(), EngineError>,
) -> StoreModel {
    if ruling is Ok && key is Some {
        deleted(s, key->0)
    } else {
        s
    }
}

/// A deletion is refused exactly where the user authored what is stored and it is not forced. Then
/// the store is as it was. In every other case nothing is left under the key, and every other key
/// holds what it held.
pub proof fn law_delete_respects_immunity(
    kind: RecordKind,
    s: StoreModel,
    key: Option<Seq<char>>,
    id: Seq<char>,
    force: bool,
    reader: spec_fn(Seq<u8>) -> Authorship,
    ruling: Result<(), EngineError>,
)
    requires
        is_ruling(kind, id, force, stored_author(s, key, reader), ruling),
    ensures
        ({
            let after = after_delete(s, key, ruling);
            let refused = !force && is_stored(s, key) && reader(s.entries[key->0].0) is User;
            &&& ruling is Err <==> refused
            &&& refused ==> after == s && is_refusal(kind, id, ruling->Err_0)
            &&& !refused ==> !is_stored(after, key)
            &&& forall|other: Seq<char>|
                key != Some(other) ==> #[trigger] after.entries.dom().contains(other)
                    == s.entries.dom().contains(other) && (s.entries.dom().contains(other)
                    ==> after.entries[other] == s.entries[other])
        }),
{
}

} // verus!
