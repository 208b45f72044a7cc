//! Typed storage key.
//!
//! Slash-delimited and path-like, always canonical: no `..`, no leading slash, no empty segment, no
//! backslash. There is one constructor per resource, never fed with names that would spoil the key.
//! Multi-tenant routing lives here and not in the backends: the tenant `local` has the plain layout
//! (`lessons/active/<id>.md`), other tenants are prefixed with `tenants/<id>/users/<id>/`.

use vstd::prelude::*;

use crate::engine::context::Context;
use crate::text::{
    concat2, concat3, contains_text, ends_with, has_prefix, has_suffix,
    law_a_part_occurs_in_the_whole, occurs_at, occurs_in, same_text, starts_with,
};

verus! {

/// Opaque storage key, always canonical; only a backend interprets it.
#[derive(Debug, PartialEq, Eq, Hash, PartialOrd, Ord)]
pub struct StorageKey(String);

impl View for StorageKey {
    type V = Seq<char>;

    closed spec fn view(&self) -> Seq<char> {
        self.0@
    }
}

impl Clone for StorageKey {
    fn clone(&self) -> (k: StorageKey)
        ensures
            k == *self,
    {
        self.duplicate()
    }
}

/// The key of the resource `suffix` of the user of `ctx`.
pub open spec fn routed(ctx: Context, suffix: Seq<char>) -> Seq<char> {
    if ctx.tenant_id@ == "local"@ {
        suffix
    } else {
        "tenants/"@ + ctx.tenant_id@ + "/users/"@ + ctx.user_id@ + "/"@ + suffix
    }
}

/// Neither `..` nor a backslash, and no two slashes in a row.
pub open spec fn is_tidy(s: Seq<char>) -> bool {
    !occurs_in(s, ".."@) && !occurs_in(s, "\\"@) && !occurs_in(s, "//"@)
}

/// Whether a text is fit to be a key, or to stand between two slashes of one: relative, without `..`
/// and backslashes, and with something between any two slashes and at both ends.
pub open spec fn is_canonical_text(s: Seq<char>) -> bool {
    s.len() > 0 && !has_prefix(s, "/"@) && !has_suffix(s, "/"@) && is_tidy(s)
}

/// Whether a text is fit to stand between the last slash of a key and the extension.
pub open spec fn is_stem_text(s: Seq<char>) -> bool {
    !has_prefix(s, "/"@) && !has_suffix(s, "."@) && is_tidy(s)
}

/// Whether tenant and user are fit to stand in a key; those of the local tenant do not.
pub open spec fn routes_inside(ctx: Context) -> bool {
    ctx.tenant_id@ == "local"@ || (is_canonical_text(ctx.tenant_id@) && is_canonical_text(
        ctx.user_id@,
    ))
}

/// Composes the tenant and user prefix.
fn prefixed(ctx: &Context, suffix: &str) -> (s: String)
    ensures
        s@ == routed(*ctx, suffix@),
{
    if same_text(ctx.tenant_id.as_str(), "local") {
        suffix.to_owned()
    } else {
        let mut s = concat3("tenants/", ctx.tenant_id.as_str(), "/users/");
        s.append(ctx.user_id.as_str());
        s.append("/");
        s.append(suffix);
        s
    }
}

/// Whether a text holds nothing that no key holds.
fn is_tidy_text(s: &str) -> (b: bool)
    ensures
        b == is_tidy(s@),
{
    !contains_text(s, "..") && !contains_text(s, "\\") && !contains_text(s, "//")
}

impl StorageKey {
    /// Every key is canonical.
    #[verifier::type_invariant]
    spec fn inv(self) -> bool {
        is_canonical_text(self.0@)
    }

    /// Lesson file by status.
    pub fn lesson(ctx: &Context, status: &str, id: &str) -> (k: StorageKey)
        requires
            routes_inside(*ctx),
            is_canonical_text(status@),
            is_stem_text(id@),
        ensures
            k@ == routed(*ctx, "lessons/"@ + status@ + "/"@ + id@ + ".md"@),
            is_canonical_text(k@),
    {
        proof {
            law_file_keys_are_canonical(*ctx, status@, id@);
        }
        let mut suffix = concat3("lessons/", status, "/");
        suffix.append(id);
        suffix.append(".md");
        StorageKey(prefixed(ctx, suffix.as_str()))
    }

    /// Daemon PID file.
    pub fn pid_file(ctx: &Context) -> (k: StorageKey)
        requires
            routes_inside(*ctx),
        ensures
            k@ == routed(*ctx, "daemon.pid"@),
            is_canonical_text(k@),
    {
        proof {
            law_fixed_keys_are_canonical(*ctx);
        }
        StorageKey(prefixed(ctx, "daemon.pid"))
    }

    /// Daemon config file.
    pub fn config(ctx: &Context) -> (k: StorageKey)
        requires
            routes_inside(*ctx),
        ensures
            k@ == routed(*ctx, "config.yaml"@),
            is_canonical_text(k@),
    {
        proof {
            law_fixed_keys_are_canonical(*ctx);
        }
        StorageKey(prefixed(ctx, "config.yaml"))
    }

    /// Daemon log file.
    pub fn daemon_log(ctx: &Context) -> (k: StorageKey)
        requires
            routes_inside(*ctx),
        ensures
            k@ == routed(*ctx, "daemon.log"@),
            is_canonical_text(k@),
    {
        proof {
            law_fixed_keys_are_canonical(*ctx);
        }
        StorageKey(prefixed(ctx, "daemon.log"))
    }

    /// The record of one sentiment signal, per session and event.
    pub fn sentiment_signal(ctx: &Context, session_id: &str, event_uuid: &str) -> (k: StorageKey)
        requires
            routes_inside(*ctx),
            is_canonical_text(session_id@),
            is_stem_text(event_uuid@),
        ensures
            k@ == routed(*ctx, "signals/"@ + session_id@ + "/"@ + event_uuid@ + ".yaml"@),
            is_canonical_text(k@),
    {
        proof {
            law_file_keys_are_canonical(*ctx, session_id@, event_uuid@);
        }
        let mut suffix = concat3("signals/", session_id, "/");
        suffix.append(event_uuid);
        suffix.append(".yaml");
        StorageKey(prefixed(ctx, suffix.as_str()))
    }

    /// Memory file.
    pub fn memory(ctx: &Context, id: &str) -> (k: StorageKey)
        requires
            routes_inside(*ctx),
            is_stem_text(id@),
        ensures
            k@ == routed(*ctx, "memories/"@ + id@ + ".md"@),
            is_canonical_text(k@),
    {
        proof {
            law_memory_keys_are_canonical(*ctx, id@);
        }
        let suffix = concat3("memories/", id, ".md");
        StorageKey(prefixed(ctx, suffix.as_str()))
    }

    /// Prefix of all memories.
    pub fn memories_prefix(ctx: &Context) -> (k: StorageKey)
        requires
            routes_inside(*ctx),
        ensures
            k@ == routed(*ctx, "memories"@),
            is_canonical_text(k@),
    {
        proof {
            law_fixed_keys_are_canonical(*ctx);
        }
        StorageKey(prefixed(ctx, "memories"))
    }

    /// Skill file; each skill has a directory.
    pub fn skill(ctx: &Context, id: &str) -> (k: StorageKey)
        requires
            routes_inside(*ctx),
            is_canonical_text(id@),
        ensures
            k@ == routed(*ctx, "skills/"@ + id@ + "/SKILL.md"@),
            is_canonical_text(k@),
    {
        proof {
            law_directory_keys_are_canonical(*ctx, id@);
        }
        let suffix = concat3("skills/", id, "/SKILL.md");
        StorageKey(prefixed(ctx, suffix.as_str()))
    }

    /// The append-only record of the lessons that went into a skill.
    pub fn skill_history(ctx: &Context, id: &str) -> (k: StorageKey)
        requires
            routes_inside(*ctx),
            is_canonical_text(id@),
        ensures
            k@ == routed(*ctx, "skills/"@ + id@ + "/lesson-history.yaml"@),
            is_canonical_text(k@),
    {
        proof {
            law_directory_keys_are_canonical(*ctx, id@);
        }
        let suffix = concat3("skills/", id, "/lesson-history.yaml");
        StorageKey(prefixed(ctx, suffix.as_str()))
    }

    /// Prefix of all skills.
    pub fn skills_prefix(ctx: &Context) -> (k: StorageKey)
        requires
            routes_inside(*ctx),
        ensures
            k@ == routed(*ctx, "skills"@),
            is_canonical_text(k@),
    {
        proof {
            law_fixed_keys_are_canonical(*ctx);
        }
        StorageKey(prefixed(ctx, "skills"))
    }

    /// Persona file.
    pub fn persona(ctx: &Context, id: &str) -> (k: StorageKey)
        requires
            routes_inside(*ctx),
            is_canonical_text(id@),
        ensures
            k@ == routed(*ctx, "personas/"@ + id@ + "/PERSONA.md"@),
            is_canonical_text(k@),
    {
        proof {
            law_directory_keys_are_canonical(*ctx, id@);
        }
        let suffix = concat3("personas/", id, "/PERSONA.md");
        StorageKey(prefixed(ctx, suffix.as_str()))
    }

    /// Prefix of all personas.
    pub fn personas_prefix(ctx: &Context) -> (k: StorageKey)
        requires
            routes_inside(*ctx),
        ensures
            k@ == routed(*ctx, "personas"@),
            is_canonical_text(k@),
    {
        proof {
            law_fixed_keys_are_canonical(*ctx);
        }
        StorageKey(prefixed(ctx, "personas"))
    }

    /// Team file.
    pub fn team(ctx: &Context, id: &str) -> (k: StorageKey)
        requires
            routes_inside(*ctx),
            is_canonical_text(id@),
        ensures
            k@ == routed(*ctx, "teams/"@ + id@ + "/TEAM.md"@),
            is_canonical_text(k@),
    {
        proof {
            law_directory_keys_are_canonical(*ctx, id@);
        }
        let suffix = concat3("teams/", id, "/TEAM.md");
        StorageKey(prefixed(ctx, suffix.as_str()))
    }

    /// Prefix of all teams.
    pub fn teams_prefix(ctx: &Context) -> (k: StorageKey)
        requires
            routes_inside(*ctx),
        ensures
            k@ == routed(*ctx, "teams"@),
            is_canonical_text(k@),
    {
        proof {
            law_fixed_keys_are_canonical(*ctx);
        }
        StorageKey(prefixed(ctx, "teams"))
    }

    /// Prefix of all lessons in one status directory.
    pub fn lesson_status_prefix(ctx: &Context, status: &str) -> (k: StorageKey)
        requires
            routes_inside(*ctx),
            is_canonical_text(status@),
        ensures
            k@ == routed(*ctx, "lessons/"@ + status@),
            is_canonical_text(k@),
    {
        proof {
            law_directory_keys_are_canonical(*ctx, status@);
        }
        let suffix = concat2("lessons/", status);
        StorageKey(prefixed(ctx, suffix.as_str()))
    }

    /// Whether a text is canonical: `from_raw` takes it, and it may be the status or session of a key,
    /// or the id of a skill, persona or team.
    pub fn is_canonical(s: &str) -> (b: bool)
        ensures
            b == is_canonical_text(s@),
    {
        proof {
            reveal_strlit("");
            assert(s@.len() == 0 ==> s@ =~= ""@);
        }
        !same_text(s, "") && !starts_with(s, "/") && !ends_with(s, "/") && is_tidy_text(s)
    }

    /// Whether a text may be the id of a lesson, memory or signal.
    pub fn is_stem(s: &str) -> (b: bool)
        ensures
            b == is_stem_text(s@),
    {
        !starts_with(s, "/") && !ends_with(s, ".") && is_tidy_text(s)
    }

    /// Whether there are keys for a context.
    pub fn routes(ctx: &Context) -> (b: bool)
        ensures
            b == routes_inside(*ctx),
    {
        same_text(ctx.tenant_id.as_str(), "local") || (StorageKey::is_canonical(
            ctx.tenant_id.as_str(),
        ) && StorageKey::is_canonical(ctx.user_id.as_str()))
    }

    /// A key from a text that a backend produced.
    pub fn from_raw(s: String) -> (k: StorageKey)
        requires
            is_canonical_text(s@),
        ensures
            k@ == s@,
            is_canonical_text(k@),
    {
        StorageKey(s)
    }

    /// The slash-delimited text.
    pub fn as_str(&self) -> (s: &str)
        ensures
            s@ == self@,
            is_canonical_text(s@),
    {
        proof {
            use_type_invariant(self);
        }
        self.0.as_str()
    }

    /// A copy of this key.
    pub fn duplicate(&self) -> (k: StorageKey)
        ensures
            k == *self,
    {
        proof {
            use_type_invariant(self);
        }
        StorageKey(self.0.clone())
    }
}

/// Keys of one tenant and user are told apart by the resource alone.
pub proof fn law_routing_keeps_resources_apart(ctx: Context, a: Seq<char>, b: Seq<char>)
    requires
        routed(ctx, a) == routed(ctx, b),
    ensures
        a == b,
{
    if ctx.tenant_id@ != "local"@ {
        let head = "tenants/"@ + ctx.tenant_id@ + "/users/"@ + ctx.user_id@ + "/"@;
        assert(a =~= (head + a).skip(head.len() as int));
        assert(b =~= (head + b).skip(head.len() as int));
    }
}

/// Everything below a prefix is found by that prefix: a lesson's key begins with the prefix of
/// its status directory.
pub proof fn law_lesson_key_is_below_its_status(ctx: Context, status: Seq<char>, id: Seq<char>)
    ensures
        has_prefix(
            routed(ctx, "lessons/"@ + status + "/"@ + id + ".md"@),
            routed(ctx, "lessons/"@ + status),
        ),
{
    let whole = routed(ctx, "lessons/"@ + status + "/"@ + id + ".md"@);
    let prefix = routed(ctx, "lessons/"@ + status);
    assert(whole.subrange(0, prefix.len() as int) =~= prefix);
}

/// Two characters that must not follow each other in a key.
spec fn clash(a: char, b: char) -> bool {
    (a == '.' && b == '.') || (a == '/' && b == '/')
}

/// What it takes to be tidy, character by character.
spec fn is_clear(s: Seq<char>) -> bool {
    &&& forall|i: int| 0 <= i < s.len() ==> #[trigger] s[i] != '\\'
    &&& forall|i: int, j: int|
        0 <= i && j == i + 1 && j < s.len() ==> !clash(#[trigger] s[i], #[trigger] s[j])
}

proof fn lemma_clear(s: Seq<char>)
    ensures
        is_tidy(s) <==> is_clear(s),
        has_prefix(s, "/"@) <==> s.len() > 0 && s[0] == '/',
        has_suffix(s, "/"@) <==> s.len() > 0 && s.last() == '/',
        has_suffix(s, "."@) <==> s.len() > 0 && s.last() == '.',
{
    reveal_strlit("..");
    reveal_strlit("//");
    reveal_strlit("\\");
    reveal_strlit("/");
    reveal_strlit(".");
    if is_tidy(s) {
        assert forall|i: int| 0 <= i < s.len() implies #[trigger] s[i] != '\\' by {
            if s[i] == '\\' {
                assert(s.subrange(i, i + 1) =~= "\\"@);
                assert(occurs_at(s, "\\"@, i));
            }
        }
        assert forall|i: int, j: int| 0 <= i && j == i + 1 && j < s.len() implies !clash(
            #[trigger] s[i],
            #[trigger] s[j],
        ) by {
            if s[i] == '.' && s[j] == '.' {
                assert(s.subrange(i, i + 2) =~= ".."@);
                assert(occurs_at(s, ".."@, i));
            }
            if s[i] == '/' && s[j] == '/' {
                assert(s.subrange(i, i + 2) =~= "//"@);
                assert(occurs_at(s, "//"@, i));
            }
        }
    }
    if is_clear(s) {
        if occurs_in(s, ".."@) {
            let i = choose|i: int| occurs_at(s, ".."@, i);
            assert(s.subrange(i, i + 2)[0] == s[i] && s.subrange(i, i + 2)[1] == s[i + 1]);
            assert(clash(s[i], s[i + 1]));
        }
        if occurs_in(s, "//"@) {
            let i = choose|i: int| occurs_at(s, "//"@, i);
            assert(s.subrange(i, i + 2)[0] == s[i] && s.subrange(i, i + 2)[1] == s[i + 1]);
            assert(clash(s[i], s[i + 1]));
        }
        if occurs_in(s, "\\"@) {
            let i = choose|i: int| occurs_at(s, "\\"@, i);
            assert(s.subrange(i, i + 1)[0] == s[i]);
        }
    }
    if s.len() > 0 {
        assert(s.subrange(0, 1)[0] == s[0]);
        assert(s.subrange(s.len() - 1, s.len() as int)[0] == s.last());
        assert(s[0] == '/' ==> s.subrange(0, 1) =~= "/"@);
        assert(s.last() == '/' ==> s.subrange(s.len() - 1, s.len() as int) =~= "/"@);
        assert(s.last() == '.' ==> s.subrange(s.len() - 1, s.len() as int) =~= "."@);
    }
}

proof fn lemma_clear_join(a: Seq<char>, b: Seq<char>)
    ensures
        is_clear(a + b) <==> is_clear(a) && is_clear(b) && (a.len() == 0 || b.len() == 0 || !clash(
            a.last(),
            b[0],
        )),
{
    let s = a + b;
    if is_clear(s) {
        assert forall|i: int| 0 <= i < a.len() implies #[trigger] a[i] != '\\' by {
            assert(s[i] == a[i]);
        }
        assert forall|i: int| 0 <= i < b.len() implies #[trigger] b[i] != '\\' by {
            assert(s[a.len() + i] == b[i]);
        }
        assert forall|i: int, j: int| 0 <= i && j == i + 1 && j < a.len() implies !clash(
            #[trigger] a[i],
            #[trigger] a[j],
        ) by {
            assert(s[i] == a[i] && s[j] == a[j]);
        }
        assert forall|i: int, j: int| 0 <= i && j == i + 1 && j < b.len() implies !clash(
            #[trigger] b[i],
            #[trigger] b[j],
        ) by {
            assert(s[a.len() + i] == b[i] && s[a.len() + j] == b[j]);
        }
        if a.len() > 0 && b.len() > 0 {
            assert(s[a.len() - 1] == a.last() && s[a.len() as int] == b[0]);
        }
    }
    if is_clear(a) && is_clear(b) && (a.len() == 0 || b.len() == 0 || !clash(a.last(), b[0])) {
        assert forall|i: int, j: int| 0 <= i && j == i + 1 && j < s.len() implies !clash(
            #[trigger] s[i],
            #[trigger] s[j],
        ) by {
            if j < a.len() {
                assert(s[i] == a[i] && s[j] == a[j]);
            } else if i >= a.len() {
                assert(s[i] == b[i - a.len()] && s[j] == b[j - a.len()]);
            }
        }
    }
}

/// A name between two slashes.
proof fn lemma_clear_between(a: Seq<char>, name: Seq<char>, b: Seq<char>)
    requires
        a.len() > 0 && a.last() == '/',
        b.len() > 0 && b[0] == '/',
    ensures
        is_clear(a + name + b) <==> is_clear(a) && is_clear(b) && is_canonical_text(name),
{
    lemma_clear(name);
    lemma_clear_join(a, name);
    lemma_clear_join(a + name, b);
    if name.len() == 0 {
        assert(a + name =~= a);
    }
}

/// A name between a slash and an extension.
proof fn lemma_clear_stem(a: Seq<char>, name: Seq<char>, extension: Seq<char>)
    requires
        a.len() > 0 && a.last() == '/',
        extension.len() > 0 && extension[0] == '.',
    ensures
        is_clear(a + name + extension) <==> is_clear(a) && is_clear(extension) && is_stem_text(name),
{
    lemma_clear(name);
    lemma_clear_join(a, name);
    lemma_clear_join(a + name, extension);
    if name.len() == 0 {
        assert(a + name =~= a);
    }
}

/// A key is canonical if and only if its two parts are.
proof fn lemma_routed(ctx: Context, suffix: Seq<char>)
    ensures
        is_canonical_text(routed(ctx, suffix)) <==> is_canonical_text(suffix) && routes_inside(ctx),
{
    if ctx.tenant_id@ != "local"@ {
        reveal_strlit("tenants/");
        reveal_strlit("/users/");
        reveal_strlit("/");
        let h = "tenants/"@ + ctx.tenant_id@ + "/users/"@;
        let head = h + ctx.user_id@ + "/"@;
        assert(is_clear("tenants/"@) && is_clear("/users/"@) && is_clear("/"@));
        lemma_clear_between("tenants/"@, ctx.tenant_id@, "/users/"@);
        lemma_clear_between(h, ctx.user_id@, "/"@);
        lemma_clear_join(head, suffix);
        lemma_clear(suffix);
        let s = routed(ctx, suffix);
        assert(s == head + suffix);
        lemma_clear(s);
        assert(s[0] == 't');
        if suffix.len() == 0 {
            assert(s.last() == '/');
        } else {
            assert(s.last() == suffix.last());
        }
    }
}

/// The keys without a name in them are canonical if and only if the context is fit for keys.
pub proof fn law_fixed_keys_are_canonical(ctx: Context)
    ensures
        is_canonical_text(routed(ctx, "daemon.pid"@)) <==> routes_inside(ctx),
        is_canonical_text(routed(ctx, "daemon.log"@)) <==> routes_inside(ctx),
        is_canonical_text(routed(ctx, "config.yaml"@)) <==> routes_inside(ctx),
        is_canonical_text(routed(ctx, "memories"@)) <==> routes_inside(ctx),
        is_canonical_text(routed(ctx, "skills"@)) <==> routes_inside(ctx),
        is_canonical_text(routed(ctx, "personas"@)) <==> routes_inside(ctx),
        is_canonical_text(routed(ctx, "teams"@)) <==> routes_inside(ctx),
{
    reveal_strlit("daemon.pid");
    reveal_strlit("daemon.log");
    reveal_strlit("config.yaml");
    reveal_strlit("memories");
    reveal_strlit("skills");
    reveal_strlit("personas");
    reveal_strlit("teams");
    lemma_clear("daemon.pid"@);
    lemma_clear("daemon.log"@);
    lemma_clear("config.yaml"@);
    lemma_clear("memories"@);
    lemma_clear("skills"@);
    lemma_clear("personas"@);
    lemma_clear("teams"@);
    lemma_routed(ctx, "daemon.pid"@);
    lemma_routed(ctx, "daemon.log"@);
    lemma_routed(ctx, "config.yaml"@);
    lemma_routed(ctx, "memories"@);
    lemma_routed(ctx, "skills"@);
    lemma_routed(ctx, "personas"@);
    lemma_routed(ctx, "teams"@);
}

proof fn lemma_directory_key(ctx: Context, dir: Seq<char>, name: Seq<char>, rest: Seq<char>)
    requires
        dir.len() > 0 && dir[0] != '/' && dir.last() == '/' && is_clear(dir),
        rest.len() > 0 && rest[0] == '/' && rest.last() != '/' && is_clear(rest),
    ensures
        is_canonical_text(routed(ctx, dir + name + rest)) <==> routes_inside(ctx)
            && is_canonical_text(name),
{
    let s = dir + name + rest;
    lemma_clear_between(dir, name, rest);
    lemma_clear(s);
    assert(s[0] == dir[0] && s.last() == rest.last());
    lemma_routed(ctx, s);
}

/// The keys of skills, personas and teams, and the prefixes of lessons, are canonical if and only if
/// the name in them is, and the context is fit for keys.
pub proof fn law_directory_keys_are_canonical(ctx: Context, name: Seq<char>)
    ensures
        is_canonical_text(routed(ctx, "skills/"@ + name + "/SKILL.md"@)) <==> routes_inside(ctx)
            && is_canonical_text(name),
        is_canonical_text(routed(ctx, "skills/"@ + name + "/lesson-history.yaml"@))
            <==> routes_inside(ctx) && is_canonical_text(name),
        is_canonical_text(routed(ctx, "personas/"@ + name + "/PERSONA.md"@)) <==> routes_inside(ctx)
            && is_canonical_text(name),
        is_canonical_text(routed(ctx, "teams/"@ + name + "/TEAM.md"@)) <==> routes_inside(ctx)
            && is_canonical_text(name),
        is_canonical_text(routed(ctx, "lessons/"@ + name)) <==> routes_inside(ctx)
            && is_canonical_text(name),
{
    reveal_strlit("skills/");
    reveal_strlit("personas/");
    reveal_strlit("teams/");
    reveal_strlit("lessons/");
    reveal_strlit("/SKILL.md");
    reveal_strlit("/lesson-history.yaml");
    reveal_strlit("/PERSONA.md");
    reveal_strlit("/TEAM.md");
    lemma_directory_key(ctx, "skills/"@, name, "/SKILL.md"@);
    lemma_directory_key(ctx, "skills/"@, name, "/lesson-history.yaml"@);
    lemma_directory_key(ctx, "personas/"@, name, "/PERSONA.md"@);
    lemma_directory_key(ctx, "teams/"@, name, "/TEAM.md"@);
    let s = "lessons/"@ + name;
    lemma_clear_join("lessons/"@, name);
    lemma_clear(name);
    lemma_clear(s);
    if name.len() == 0 {
        assert(s.last() == '/');
    } else {
        assert(s.last() == name.last());
    }
    lemma_routed(ctx, s);
}

proof fn lemma_file_key(ctx: Context, dir: Seq<char>, name: Seq<char>, extension: Seq<char>)
    requires
        dir.len() > 0 && dir[0] != '/' && dir.last() == '/',
        extension.len() > 0 && extension[0] == '.' && extension.last() != '/' && is_clear(extension),
    ensures
        is_canonical_text(routed(ctx, dir + name + extension)) <==> routes_inside(ctx) && is_clear(
            dir,
        ) && is_stem_text(name),
{
    let s = dir + name + extension;
    lemma_clear_stem(dir, name, extension);
    lemma_clear(s);
    assert(s[0] == dir[0] && s.last() == extension.last());
    lemma_routed(ctx, s);
}

/// The keys of lessons and signals are canonical if and only if both names in them are fit, and so is
/// the context.
pub proof fn law_file_keys_are_canonical(ctx: Context, group: Seq<char>, id: Seq<char>)
    ensures
        is_canonical_text(routed(ctx, "lessons/"@ + group + "/"@ + id + ".md"@)) <==> routes_inside(
            ctx,
        ) && is_canonical_text(group) && is_stem_text(id),
        is_canonical_text(routed(ctx, "signals/"@ + group + "/"@ + id + ".yaml"@))
            <==> routes_inside(ctx) && is_canonical_text(group) && is_stem_text(id),
{
    reveal_strlit("lessons/");
    reveal_strlit("signals/");
    reveal_strlit("/");
    reveal_strlit(".md");
    reveal_strlit(".yaml");
    lemma_clear_between("lessons/"@, group, "/"@);
    lemma_clear_between("signals/"@, group, "/"@);
    lemma_file_key(ctx, "lessons/"@ + group + "/"@, id, ".md"@);
    lemma_file_key(ctx, "signals/"@ + group + "/"@, id, ".yaml"@);
}

/// The key of a memory is canonical if and only if its id is fit to name a file, and the context is
/// fit for keys.
pub proof fn law_memory_keys_are_canonical(ctx: Context, id: Seq<char>)
    ensures
        is_canonical_text(routed(ctx, "memories/"@ + id + ".md"@)) <==> routes_inside(ctx)
            && is_stem_text(id),
{
    reveal_strlit("memories/");
    reveal_strlit(".md");
    lemma_file_key(ctx, "memories/"@, id, ".md"@);
}

/// A text without backslashes, and with none of its dots and slashes beside each other, is canonical
/// where no slash stands at an end. It may name a file where it does not end in a dot.
pub proof fn lemma_plain_key(s: Seq<char>)
    requires
        s.len() > 0 && s[0] != '/' && s.last() != '/',
        forall|i: int| 0 <= i < s.len() ==> #[trigger] s[i] != '\\',
        forall|i: int, j: int|
            0 <= i && j == i + 1 && j < s.len() ==> !((#[trigger] s[i] == '.' || s[i] == '/')
                && #[trigger] s[j] == s[i]),
    ensures
        is_canonical_text(s),
        s.last() != '.' ==> is_stem_text(s),
{
    lemma_clear(s);
}

/// What stands before the name in a routed key.
pub proof fn lemma_routed_head(ctx: Context, suffix: Seq<char>) -> (head: Seq<char>)
    ensures
        routed(ctx, suffix) == head + suffix,
        ctx.tenant_id@ == "local"@ ==> head.len() == 0,
        ctx.tenant_id@ != "local"@ ==> head == "tenants/"@ + ctx.tenant_id@ + "/users/"@
            + ctx.user_id@ + "/"@,
{
    if ctx.tenant_id@ == "local"@ {
        assert(Seq::<char>::empty() + suffix =~= suffix);
        Seq::empty()
    } else {
        "tenants/"@ + ctx.tenant_id@ + "/users/"@ + ctx.user_id@ + "/"@
    }
}

/// A key of the local tenant is the name itself; every other key stands below its tenant and its
/// user, and ends in the name.
pub proof fn law_a_key_stands_below_its_tenant(ctx: Context, name: Seq<char>)
    ensures
        ctx.tenant_id@ == "local"@ ==> routed(ctx, name) == name,
        ctx.tenant_id@ != "local"@ ==> {
            &&& has_prefix(
                routed(ctx, name),
                "tenants/"@ + ctx.tenant_id@ + "/users/"@ + ctx.user_id@ + "/"@,
            )
            &&& has_suffix(routed(ctx, name), name)
            &&& routed(ctx, name).len() == 8 + ctx.tenant_id@.len() + 7 + ctx.user_id@.len() + 1
                + name.len()
        },
{
    let head = lemma_routed_head(ctx, name);
    reveal_strlit("tenants/");
    reveal_strlit("/users/");
    reveal_strlit("/");
    law_a_part_occurs_in_the_whole(Seq::empty(), head, name, name);
    law_a_part_occurs_in_the_whole(head, name, Seq::empty(), name);
}

/// A canonical text neither begins nor ends with a slash, and holds no backslash, no two dots and
/// no two slashes in a row. A stem may end in a slash but not in a dot.
pub proof fn law_canonical_texts_have_no_detours(s: Seq<char>)
    ensures
        ({
            let clear = (forall|i: int| 0 <= i < s.len() ==> #[trigger] s[i] != '\\') && forall|
                i: int,
                j: int,
            |
                0 <= i && j == i + 1 && j < s.len() ==> !(#[trigger] s[i] == '.' && #[trigger] s[j]
                    == '.') && !(s[i] == '/' && s[j] == '/');
            &&& is_canonical_text(s) <==> clear && s.len() > 0 && s[0] != '/' && s[s.len() - 1]
                != '/'
            &&& is_stem_text(s) <==> clear && (s.len() > 0 ==> s[0] != '/' && s[s.len() - 1] != '.')
        }),
{
    lemma_clear(s);
    if is_clear(s) {
        assert forall|i: int, j: int| 0 <= i && j == i + 1 && j < s.len() implies !(
        #[trigger] s[i] == '.' && #[trigger] s[j] == '.') && !(s[i] == '/' && s[j] == '/') by {
            assert(!clash(s[i], s[j]));
        }
    }
}

} // verus!
