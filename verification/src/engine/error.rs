//! Errors of the engine.

use vstd::prelude::*;

use crate::engine::storage::StorageError;
use crate::engine::vector::VectorIndexError;
use crate::text::{concat2, decimal, push_u64};

verus! {

#[derive(Debug, Clone, PartialEq, Eq)]
#[non_exhaustive]
pub enum EngineError {
    /// A record could not be read or a request makes no sense.
    Parse(String),
    /// The YAML reader or writer failed.
    Yaml(String),
    Storage(StorageError),
    /// Every compare-and-set attempt lost its race.
    CasContended { key: String, retries: u32 },
    UserSkillImmune { id: String },
    UserTeamImmune { id: String },
    UserLessonImmune { id: String },
    UserMemoryImmune { id: String, cited_by: u32 },
    LessonNotFound { id: String },
    PromotionBlocked { reasons: Vec<String> },
    LessonSupersedeInvalid { reason: String },
    /// The window is too thin or too contradictory to summarize.
    CompressionInsufficientInput,
    VectorIndex(VectorIndexError),
    Other(String),
}

impl EngineError {
    pub open spec fn text(self) -> Seq<char> {
        match self {
            EngineError::Parse(m) => "parse error: "@ + m@,
            EngineError::Yaml(m) => "yaml error: "@ + m@,
            EngineError::Storage(e) => e.text(),
            EngineError::CasContended { key, retries } => "write contended on "@ + key@ + " after "@
                + decimal(retries as nat) + " attempts"@,
            EngineError::UserSkillImmune { id } => "user-authored skill is immune: "@ + id@,
            EngineError::UserTeamImmune { id } => "user-authored team is immune: "@ + id@,
            EngineError::UserLessonImmune { id } => "user-authored lesson is immune: "@ + id@,
            EngineError::UserMemoryImmune { id, cited_by } => "user-cited memory is immune: "@ + id@
                + " cited by "@ + decimal(cited_by as nat),
            EngineError::LessonNotFound { id } => "lesson not found: "@ + id@,
            EngineError::PromotionBlocked { .. } => "promotion blocked"@,
            EngineError::LessonSupersedeInvalid { reason } => "supersede invalid: "@ + reason@,
            EngineError::CompressionInsufficientInput => "insufficient input for compression"@,
            EngineError::VectorIndex(e) => e.text(),
            EngineError::Other(m) => m@,
        }
    }

    /// The message shown for this error.
    pub fn message(&self) -> (m: String)
        ensures
            m@ == self.text(),
    {
        match self {
            EngineError::Parse(m) => concat2("parse error: ", m.as_str()),
            EngineError::Yaml(m) => concat2("yaml error: ", m.as_str()),
            EngineError::Storage(e) => e.message(),
            EngineError::CasContended { key, retries } => {
                let mut m = concat2("write contended on ", key.as_str());
                m.append(" after ");
                push_u64(&mut m, *retries as u64);
                m.append(" attempts");
                m
            },
            EngineError::UserSkillImmune { id } => concat2(
                "user-authored skill is immune: ",
                id.as_str(),
            ),
            EngineError::UserTeamImmune { id } => concat2(
                "user-authored team is immune: ",
                id.as_str(),
            ),
            EngineError::UserLessonImmune { id } => concat2(
                "user-authored lesson is immune: ",
                id.as_str(),
            ),
            EngineError::UserMemoryImmune { id, cited_by } => {
                let mut m = concat2("user-cited memory is immune: ", id.as_str());
                m.append(" cited by ");
                push_u64(&mut m, *cited_by as u64);
                m
            },
            EngineError::LessonNotFound { id } => concat2("lesson not found: ", id.as_str()),
            EngineError::PromotionBlocked { .. } => "promotion blocked".to_owned(),
            EngineError::LessonSupersedeInvalid { reason } => concat2(
                "supersede invalid: ",
                reason.as_str(),
            ),
            EngineError::CompressionInsufficientInput =>
                "insufficient input for compression".to_owned(),
            EngineError::VectorIndex(e) => e.message(),
            EngineError::Other(m) => m.clone(),
        }
    }
}

impl From<VectorIndexError> for EngineError {
    fn from(err: VectorIndexError) -> (e: EngineError) {
        EngineError::VectorIndex(err)
    }
}

impl vstd::std_specs::convert::FromSpecImpl<VectorIndexError> for EngineError {
    open spec fn obeys_from_spec() -> bool {
        true
    }

    open spec fn from_spec(err: VectorIndexError) -> EngineError {
        EngineError::VectorIndex(err)
    }
}

// ---- Laws --------------------------------------------------------------------

/// The message of an error tells what failed and names the record or the cause.
pub proof fn law_errors_name_the_record(e: &EngineError, m: String)
    requires
        call_ensures(EngineError::message, (e,), m),
    ensures
        e matches EngineError::Parse(c) ==> m@ == "parse error: "@ + c@,
        e matches EngineError::Yaml(c) ==> m@ == "yaml error: "@ + c@,
        e matches EngineError::CasContended { key, retries } ==> m@ == "write contended on "@ + key@
            + " after "@ + decimal(retries as nat) + " attempts"@,
        e matches EngineError::UserSkillImmune { id } ==> m@ == "user-authored skill is immune: "@
            + id@,
        e matches EngineError::UserTeamImmune { id } ==> m@ == "user-authored team is immune: "@
            + id@,
        e matches EngineError::UserLessonImmune { id } ==> m@ == "user-authored lesson is immune: "@
            + id@,
        e matches EngineError::UserMemoryImmune { id, cited_by } ==> m@
            == "user-cited memory is immune: "@ + id@ + " cited by "@ + decimal(cited_by as nat),
        e matches EngineError::LessonNotFound { id } ==> m@ == "lesson not found: "@ + id@,
        e is PromotionBlocked ==> m@ == "promotion blocked"@,
        e matches EngineError::LessonSupersedeInvalid { reason } ==> m@ == "supersede invalid: "@
            + reason@,
        e is CompressionInsufficientInput ==> m@ == "insufficient input for compression"@,
        e matches EngineError::Other(c) ==> m@ == c@,
{
}

} // verus!
