//! Skill records.

use vstd::prelude::*;

use super::hooks::{HookEvent, HookMatcherGroup};
use crate::engine::yaml::schema::{Authorship, EvidenceRef};

verus! {

/// How a skill becomes active in a session.
#[derive(Debug, Clone, PartialEq, Eq)]
pub enum ActivationMode {
    /// Always on once loaded.
    Auto,
    /// When one of the path globs matches.
    PathTriggered(Vec<String>),
    /// The host activates it explicitly.
    UserTriggered,
}

impl Default for ActivationMode {
    fn default() -> (m: ActivationMode)
        ensures
            m is UserTriggered,
    {
        ActivationMode::UserTriggered
    }
}

/// Categorical hint for grouping.
#[derive(Debug, Clone, Copy, PartialEq, Eq, Structural)]
pub enum SkillType {
    Generative,
    Analytical,
}

/// Effort hint; `Other` keeps levels that are not known here.
#[derive(Debug, Clone, PartialEq, Eq)]
pub enum EffortLevel {
    Low,
    Medium,
    High,
    Other(String),
}

/// Whether a skill runs in a forked context.
#[derive(Debug, Clone, Copy, PartialEq, Eq, Structural)]
pub enum ContextMode {
    Inherit,
    Fork,
}

/// Lifecycle of a skill.
#[derive(Debug, Clone, Copy, PartialEq, Eq, Structural)]
pub enum SkillStatus {
    Draft,
    Active,
    Archived,
}

impl Default for SkillStatus {
    fn default() -> (s: SkillStatus)
        ensures
            s == SkillStatus::Draft,
    {
        SkillStatus::Draft
    }
}

/// The hooks of one event.
#[derive(Debug, Clone, PartialEq, Eq)]
pub struct EventHooks {
    pub event: HookEvent,
    pub groups: Vec<HookMatcherGroup>,
}

/// Skill frontmatter. An event occurs at most once in `hooks`.
#[derive(Debug, Clone, PartialEq, Eq)]
pub struct SkillFrontmatter {
    /// Lower-case letters, digits and hyphens, at most 64 characters; enforced on insert.
    pub name: String,
    /// What the skill does and when to use it.
    pub description: String,
    pub skill_type: Option<SkillType>,
    pub version: Option<String>,
    pub when_to_use: Option<String>,
    pub argument_hint: Option<String>,
    pub arguments: Vec<String>,
    pub allowed_tools: Vec<String>,
    pub model: Option<String>,
    pub effort: Option<EffortLevel>,
    pub context: Option<ContextMode>,
    pub agent: Option<String>,
    pub hooks: Vec<EventHooks>,
    pub paths: Vec<String>,
    pub activation: ActivationMode,
    pub status: SkillStatus,
    /// User-authored skills are immune from archiving and deletion by the engine.
    pub authored_by: Authorship,
    /// What the skill rests on. A memory cited by a user-authored skill becomes immune.
    pub evidence_refs: Vec<EvidenceRef>,
}

impl SkillFrontmatter {
    /// The two required fields; everything else takes its default.
    pub fn new(name: String, description: String) -> (fm: SkillFrontmatter)
        ensures
            fm.name == name,
            fm.description == description,
            fm.skill_type is None,
            fm.version is None,
            fm.when_to_use is None,
            fm.argument_hint is None,
            fm.arguments@.len() == 0,
            fm.allowed_tools@.len() == 0,
            fm.model is None,
            fm.effort is None,
            fm.context is None,
            fm.agent is None,
            fm.hooks@.len() == 0,
            fm.paths@.len() == 0,
            fm.activation is UserTriggered,
            fm.status == SkillStatus::Draft,
            fm.authored_by == Authorship::Llm,
            fm.evidence_refs@.len() == 0,
    {
        SkillFrontmatter {
            name,
            description,
            skill_type: None,
            version: None,
            when_to_use: None,
            argument_hint: None,
            arguments: Vec::new(),
            allowed_tools: Vec::new(),
            model: None,
            effort: None,
            context: None,
            agent: None,
            hooks: Vec::new(),
            paths: Vec::new(),
            activation: ActivationMode::UserTriggered,
            status: SkillStatus::Draft,
            authored_by: Authorship::Llm,
            evidence_refs: Vec::new(),
        }
    }
}

/// A skill: frontmatter and markdown instructions, which the engine does not read.
#[derive(Debug, Clone, PartialEq, Eq)]
#[non_exhaustive]
pub struct Skill {
    pub frontmatter: SkillFrontmatter,
    pub body: String,
}

impl Skill {
    pub fn new(frontmatter: SkillFrontmatter, body: String) -> (s: Skill)
        ensures
            s.frontmatter == frontmatter,
            s.body == body,
    {
        Skill { frontmatter, body }
    }
}

// ---- Laws --------------------------------------------------------------------

/// A new skill is a draft that a model wrote and that only the user triggers; beyond its name and
/// its description nothing is said of it.
pub proof fn law_a_new_skill_is_a_draft(name: String, description: String, fm: SkillFrontmatter)
    requires
        call_ensures(SkillFrontmatter::new, (name, description), fm),
    ensures
        fm.name@ == name@ && fm.description@ == description@,
        fm.status == SkillStatus::Draft,
        fm.authored_by == Authorship::Llm,
        fm.activation is UserTriggered,
        fm.skill_type is None && fm.version is None && fm.when_to_use is None,
        fm.argument_hint is None && fm.model is None && fm.effort is None,
        fm.context is None && fm.agent is None,
        fm.arguments@.len() + fm.allowed_tools@.len() + fm.hooks@.len() + fm.paths@.len()
            + fm.evidence_refs@.len() == 0,
{
}

} // verus!
