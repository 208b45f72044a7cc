//! Team records.

use vstd::prelude::*;

use crate::engine::yaml::schema::Authorship;

verus! {

/// A member, told apart by kind.
#[derive(Debug, Clone, PartialEq, Eq, Hash)]
pub enum TeamMember {
    Persona(String),
    Skill(String),
    User(String),
}

impl TeamMember {
    pub open spec fn id_text(self) -> Seq<char> {
        match self {
            TeamMember::Persona(s) => s@,
            TeamMember::Skill(s) => s@,
            TeamMember::User(s) => s@,
        }
    }

    pub open spec fn kind_text(self) -> Seq<char> {
        match self {
            TeamMember::Persona(_) => "persona"@,
            TeamMember::Skill(_) => "skill"@,
            TeamMember::User(_) => "user"@,
        }
    }

    pub fn id(&self) -> (s: &str)
        ensures
            s@ == self.id_text(),
    {
        match self {
            TeamMember::Persona(s) => s.as_str(),
            TeamMember::Skill(s) => s.as_str(),
            TeamMember::User(s) => s.as_str(),
        }
    }

    pub fn kind(&self) -> (s: &'static str)
        ensures
            s@ == self.kind_text(),
    {
        match self {
            TeamMember::Persona(_) => "persona",
            TeamMember::Skill(_) => "skill",
            TeamMember::User(_) => "user",
        }
    }

    /// What a bare slug in an older file stands for.
    pub fn from_slug(slug: String) -> (m: TeamMember)
        ensures
            m == TeamMember::User(slug),
    {
        TeamMember::User(slug)
    }
}

/// Lifecycle of a team.
#[derive(Debug, Clone, Copy, PartialEq, Eq, Hash, Structural)]
pub enum TeamStatus {
    Draft,
    Active,
    Archived,
}

impl Default for TeamStatus {
    fn default() -> (s: TeamStatus)
        ensures
            s == TeamStatus::Draft,
    {
        TeamStatus::Draft
    }
}

/// Team frontmatter. The body is free-form markdown.
#[derive(Debug, Clone, PartialEq, Eq)]
pub struct TeamFrontmatter {
    pub id: String,
    pub name: String,
    pub description: String,
    pub members: Vec<TeamMember>,
    pub status: TeamStatus,
    pub authored_by: Authorship,
}

impl TeamFrontmatter {
    pub fn new(id: String, name: String, description: String) -> (fm: TeamFrontmatter)
        ensures
            fm.id == id,
            fm.name == name,
            fm.description == description,
            fm.members@.len() == 0,
            fm.status == TeamStatus::Draft,
            fm.authored_by == Authorship::Llm,
    {
        TeamFrontmatter {
            id,
            name,
            description,
            members: Vec::new(),
            status: TeamStatus::Draft,
            authored_by: Authorship::Llm,
        }
    }
}

/// A team: frontmatter and body.
#[derive(Debug, Clone, PartialEq, Eq)]
#[non_exhaustive]
pub struct Team {
    pub frontmatter: TeamFrontmatter,
    pub body: String,
}

impl Team {
    pub fn new(frontmatter: TeamFrontmatter, body: String) -> (t: Team)
        ensures
            t.frontmatter == frontmatter,
            t.body == body,
    {
        Team { frontmatter, body }
    }
}

/// Trimmed view of a team.
#[derive(Debug, Clone, PartialEq, Eq, Hash)]
#[non_exhaustive]
pub struct TeamRef {
    pub id: String,
    pub name: String,
    pub description: String,
    pub status: TeamStatus,
    pub member_count: usize,
}

// ---- Laws --------------------------------------------------------------------

/// A new team is a draft that a model wrote, with no members yet.
pub proof fn law_a_new_team_is_a_draft(
    id: String,
    name: String,
    description: String,
    fm: TeamFrontmatter,
)
    requires
        call_ensures(TeamFrontmatter::new, (id, name, description), fm),
    ensures
        fm.id@ == id@ && fm.name@ == name@ && fm.description@ == description@,
        fm.status == TeamStatus::Draft,
        fm.authored_by == Authorship::Llm,
        fm.members@.len() == 0,
{
}

/// A member is told by what it is and by its id.
pub proof fn law_members_are_told_apart(m: &TeamMember, id: &str, kind: &'static str)
    requires
        call_ensures(TeamMember::id, (m,), id),
        call_ensures(TeamMember::kind, (m,), kind),
    ensures
        m matches TeamMember::Persona(s) ==> id@ == s@ && kind@ == "persona"@,
        m matches TeamMember::Skill(s) ==> id@ == s@ && kind@ == "skill"@,
        m matches TeamMember::User(s) ==> id@ == s@ && kind@ == "user"@,
{
}

} // verus!
