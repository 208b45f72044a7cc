//! Trimmed view of a skill.

use vstd::prelude::*;

use super::model::{ActivationMode, SkillStatus};

verus! {

/// Enough to render a skill, and the id to fetch the rest.
#[derive(Debug, Clone, PartialEq, Eq)]
#[non_exhaustive]
pub struct SkillRef {
    pub id: String,
    pub name: String,
    pub description: String,
    pub status: SkillStatus,
    pub activation: ActivationMode,
}

impl SkillRef {
    pub fn new(id: String, name: String, description: String) -> (r: SkillRef)
        ensures
            r.id == id,
            r.name == name,
            r.description == description,
            r.status == SkillStatus::Draft,
            r.activation is UserTriggered,
    {
        SkillRef {
            id,
            name,
            description,
            status: SkillStatus::Draft,
            activation: ActivationMode::UserTriggered,
        }
    }
}

} // verus!
