//! Identity and scope of memories.

use vstd::prelude::*;

use crate::text::same_text;

verus! {

/// Identifier of a stored memory.
#[derive(Debug, Clone, PartialEq, Eq, Hash, PartialOrd, Ord)]
pub struct MemoryId(String);

impl View for MemoryId {
    type V = Seq<char>;

    closed spec fn view(&self) -> Seq<char> {
        self.0@
    }
}

impl MemoryId {
    pub fn new(id: String) -> (r: MemoryId)
        ensures
            r@ == id@,
    {
        MemoryId(id)
    }

    pub fn as_str(&self) -> (s: &str)
        ensures
            s@ == self@,
    {
        self.0.as_str()
    }

    /// A copy of this id.
    pub fn duplicate(&self) -> (r: MemoryId)
        ensures
            r == *self,
    {
        MemoryId(self.0.clone())
    }
}

/// Who a memory belongs to.
#[derive(Debug, Clone, PartialEq, Eq)]
pub enum MemoryScope {
    User,
    Global,
    Team(String),
    Skill(String),
    Project(String),
}

/// The five kinds of scope.
#[derive(Debug, Clone, Copy, PartialEq, Eq, Structural)]
pub enum ScopeKind {
    User,
    Team,
    Skill,
    Project,
    Global,
}

impl ScopeKind {
    pub open spec fn text(self) -> Seq<char> {
        match self {
            ScopeKind::User => "user"@,
            ScopeKind::Team => "team"@,
            ScopeKind::Skill => "skill"@,
            ScopeKind::Project => "project"@,
            ScopeKind::Global => "global"@,
        }
    }

    /// The kind that `name` stands for.
    pub fn parse(name: &str) -> (kind: Option<ScopeKind>)
        ensures
            match kind {
                Some(k) => name@ == k.text(),
                None => forall|k: ScopeKind| name@ != #[trigger] k.text(),
            },
    {
        if same_text(name, "user") {
            Some(ScopeKind::User)
        } else if same_text(name, "team") {
            Some(ScopeKind::Team)
        } else if same_text(name, "skill") {
            Some(ScopeKind::Skill)
        } else if same_text(name, "project") {
            Some(ScopeKind::Project)
        } else if same_text(name, "global") {
            Some(ScopeKind::Global)
        } else {
            None
        }
    }

    pub fn as_str(self) -> (s: &'static str)
        ensures
            s@ == self.text(),
    {
        match self {
            ScopeKind::User => "user",
            ScopeKind::Team => "team",
            ScopeKind::Skill => "skill",
            ScopeKind::Project => "project",
            ScopeKind::Global => "global",
        }
    }
}

/// No other kind shares the name of `kind`.
pub proof fn law_kind_names_are_distinct(kind: ScopeKind)
    ensures
        forall|other: ScopeKind| #[trigger] other.text() == kind.text() ==> other == kind,
{
    reveal_strlit("user");
    reveal_strlit("team");
    reveal_strlit("skill");
    reveal_strlit("project");
    reveal_strlit("global");
    assert("user"@[0] == 'u');
    assert("team"@[0] == 't');
    assert("skill"@[0] == 's');
    assert("project"@[0] == 'p');
    assert("global"@[0] == 'g');
}

/// A scope as a mathematical value: its kind and the id it names, empty where it names none.
pub type ScopeModel = (ScopeKind, Seq<char>);

impl View for MemoryScope {
    type V = ScopeModel;

    open spec fn view(&self) -> ScopeModel {
        match self {
            MemoryScope::User => (ScopeKind::User, seq![]),
            MemoryScope::Global => (ScopeKind::Global, seq![]),
            MemoryScope::Team(id) => (ScopeKind::Team, id@),
            MemoryScope::Skill(id) => (ScopeKind::Skill, id@),
            MemoryScope::Project(id) => (ScopeKind::Project, id@),
        }
    }
}

impl Default for MemoryScope {
    fn default() -> (s: MemoryScope)
        ensures
            s@ == (ScopeKind::User, Seq::<char>::empty()),
    {
        MemoryScope::User
    }
}

impl MemoryScope {
    /// The kind of this scope.
    pub fn kind(&self) -> (k: ScopeKind)
        ensures
            k == self@.0,
    {
        match self {
            MemoryScope::User => ScopeKind::User,
            MemoryScope::Global => ScopeKind::Global,
            MemoryScope::Team(_) => ScopeKind::Team,
            MemoryScope::Skill(_) => ScopeKind::Skill,
            MemoryScope::Project(_) => ScopeKind::Project,
        }
    }

    /// Whether both are the same scope.
    pub fn same(&self, other: &MemoryScope) -> (b: bool)
        ensures
            b == (self@ == other@),
    {
        match (self, other) {
            (MemoryScope::User, MemoryScope::User) => true,
            (MemoryScope::Global, MemoryScope::Global) => true,
            (MemoryScope::Team(a), MemoryScope::Team(b)) => same_text(a.as_str(), b.as_str()),
            (MemoryScope::Skill(a), MemoryScope::Skill(b)) => same_text(a.as_str(), b.as_str()),
            (MemoryScope::Project(a), MemoryScope::Project(b)) => same_text(
                a.as_str(),
                b.as_str(),
            ),
            _ => false,
        }
    }
}

/// Restricts a search to some scopes.
#[derive(Debug, Clone, PartialEq, Eq)]
pub enum MemoryScopeFilter {
    /// This scope only.
    Exact(MemoryScope),
    /// Every scope of this kind.
    Kind(ScopeKind),
    /// Any of these scopes.
    AnyOf(Vec<MemoryScope>),
}

impl MemoryScopeFilter {
    /// Whether the filter lets `scope` through.
    pub open spec fn admits(self, scope: ScopeModel) -> bool {
        match self {
            MemoryScopeFilter::Exact(s) => s@ == scope,
            MemoryScopeFilter::Kind(k) => k == scope.0,
            MemoryScopeFilter::AnyOf(v) => exists|i: int|
                0 <= i < v@.len() && (#[trigger] v@[i])@ == scope,
        }
    }

    pub fn matches(&self, scope: &MemoryScope) -> (b: bool)
        ensures
            b == self.admits(scope@),
    {
        match self {
            MemoryScopeFilter::Exact(s) => s.same(scope),
            MemoryScopeFilter::Kind(k) => *k == scope.kind(),
            MemoryScopeFilter::AnyOf(v) => {
                let mut i: usize = 0;
                while i < v.len()
                    invariant
                        i <= v.len(),
                        *self == MemoryScopeFilter::AnyOf(*v),
                        forall|j: int| 0 <= j < i ==> (#[trigger] v@[j])@ != scope@,
                    decreases v.len() - i,
                {
                    if v[i].same(scope) {
                        proof {
                            assert(self->AnyOf_0@[i as int]@ == scope@);
                        }
                        return true;
                    }
                    i += 1;
                }
                false
            },
        }
    }
}

// ---- Laws --------------------------------------------------------------------

/// A filter for one scope lets that scope through and no other: of the kinds that name something,
/// the same name.
pub proof fn law_an_exact_filter_lets_its_scope_through(s: MemoryScope, scope: &MemoryScope, b: bool)
    requires
        call_ensures(MemoryScopeFilter::matches, (&MemoryScopeFilter::Exact(s), scope), b),
    ensures
        b <==> match s {
            MemoryScope::User => scope is User,
            MemoryScope::Global => scope is Global,
            MemoryScope::Team(x) => scope matches MemoryScope::Team(y) && x@ == y@,
            MemoryScope::Skill(x) => scope matches MemoryScope::Skill(y) && x@ == y@,
            MemoryScope::Project(x) => scope matches MemoryScope::Project(y) && x@ == y@,
        },
{
}

/// A filter for a kind lets every scope of the kind through, whatever it names.
pub proof fn law_a_kind_filter_lets_its_kind_through(kind: ScopeKind, scope: &MemoryScope, b: bool)
    requires
        call_ensures(MemoryScopeFilter::matches, (&MemoryScopeFilter::Kind(kind), scope), b),
    ensures
        b <==> match kind {
            ScopeKind::User => scope is User,
            ScopeKind::Global => scope is Global,
            ScopeKind::Team => scope is Team,
            ScopeKind::Skill => scope is Skill,
            ScopeKind::Project => scope is Project,
        },
{
}

/// A filter for several scopes lets through what a filter for one of them would, and so nothing
/// where there are none.
pub proof fn law_a_filter_for_several_is_any_of_them(scopes: Vec<MemoryScope>, scope: ScopeModel)
    ensures
        MemoryScopeFilter::AnyOf(scopes).admits(scope) <==> exists|i: int|
            0 <= i < scopes@.len() && MemoryScopeFilter::Exact(#[trigger] scopes@[i]).admits(scope),
        scopes@.len() == 0 ==> !MemoryScopeFilter::AnyOf(scopes).admits(scope),
{
}

/// The words for the kinds of scope.
pub proof fn law_words_for_scopes(x: ScopeKind, s: &'static str)
    requires
        call_ensures(ScopeKind::as_str, (x,), s),
    ensures
        x is User ==> s@ == "user"@,
        x is Team ==> s@ == "team"@,
        x is Skill ==> s@ == "skill"@,
        x is Project ==> s@ == "project"@,
        x is Global ==> s@ == "global"@,
{
}

} // verus!
