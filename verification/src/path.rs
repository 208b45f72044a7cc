//! `/`-separated path texts: last component, parent, join, stem and extension.

use vstd::prelude::*;

use crate::text::{concat2, concat3, from_chars, same_text, to_chars};

verus! {

/// The path without trailing separators and trailing `.` components. The root stays.
pub open spec fn path_trimmed(s: Seq<char>) -> Seq<char>
    decreases s.len(),
{
    if s.len() > 1 && s.last() == '/' {
        path_trimmed(s.drop_last())
    } else if s.len() > 1 && s.last() == '.' && s[s.len() - 2] == '/' {
        path_trimmed(s.drop_last())
    } else {
        s
    }
}

/// The index behind the last separator of `s`, 0 where there is none.
pub open spec fn after_last_slash(s: Seq<char>) -> int
    decreases s.len(),
{
    if s.len() == 0 {
        0
    } else if s.last() == '/' {
        s.len() as int
    } else {
        after_last_slash(s.drop_last())
    }
}

/// Whether the trimmed path `t` has no component of its own.
pub open spec fn is_bare(t: Seq<char>) -> bool {
    t.len() == 0 || t == seq!['/']
}

/// The last component, unless it is `.` or `..` or there is none.
pub open spec fn base_of(s: Seq<char>) -> Option<Seq<char>> {
    let t = path_trimmed(s);
    let name = t.skip(after_last_slash(t));
    if is_bare(t) || name == seq!['.'] || name == seq!['.', '.'] {
        None
    } else {
        Some(name)
    }
}

/// What comes before the last component.
pub open spec fn parent_of(s: Seq<char>) -> Option<Seq<char>> {
    let t = path_trimmed(s);
    if is_bare(t) {
        None
    } else {
        Some(path_trimmed(t.take(after_last_slash(t))))
    }
}

/// `name` below `dir`.
pub open spec fn joined(dir: Seq<char>, name: Seq<char>) -> Seq<char> {
    if dir.len() == 0 || (name.len() > 0 && name[0] == '/') {
        name
    } else if dir.last() == '/' {
        dir + name
    } else {
        dir + "/"@ + name
    }
}

/// The index of the last dot of `s`, -1 where there is none.
pub open spec fn last_dot(s: Seq<char>) -> int
    decreases s.len(),
{
    if s.len() == 0 {
        -1
    } else if s.last() == '.' {
        s.len() - 1
    } else {
        last_dot(s.drop_last())
    }
}

/// A file name without its extension. A leading dot begins no extension.
pub open spec fn stem_of(name: Seq<char>) -> Seq<char> {
    if last_dot(name) > 0 {
        name.take(last_dot(name))
    } else {
        name
    }
}

/// What follows the last dot of a file name, where a stem comes before it.
pub open spec fn extension_of(name: Seq<char>) -> Option<Seq<char>> {
    if last_dot(name) > 0 {
        Some(name.skip(last_dot(name) + 1))
    } else {
        None
    }
}

/// The length of the trimmed prefix of `chars[..to]`.
fn trimmed_len(chars: &Vec<char>, to: usize) -> (n: usize)
    requires
        to <= chars.len(),
    ensures
        n <= to,
        chars@.take(n as int) == path_trimmed(chars@.take(to as int)),
{
    let mut n: usize = to;
    while n > 1 && (chars[n - 1] == '/' || (chars[n - 1] == '.' && chars[n - 2] == '/'))
        invariant
            n <= to <= chars.len(),
            path_trimmed(chars@.take(n as int)) == path_trimmed(chars@.take(to as int)),
        decreases n,
    {
        proof {
            assert(chars@.take(n as int).drop_last() =~= chars@.take(n - 1));
        }
        n -= 1;
    }
    n
}

/// The index behind the last separator of `chars[..to]`.
fn last_slash_end(chars: &Vec<char>, to: usize) -> (n: usize)
    requires
        to <= chars.len(),
    ensures
        n <= to,
        n == after_last_slash(chars@.take(to as int)),
{
    let mut n: usize = to;
    while n > 0 && chars[n - 1] != '/'
        invariant
            n <= to <= chars.len(),
            after_last_slash(chars@.take(n as int)) == after_last_slash(chars@.take(to as int)),
        decreases n,
    {
        proof {
            assert(chars@.take(n as int).drop_last() =~= chars@.take(n - 1));
        }
        n -= 1;
    }
    n
}

fn bare(chars: &Vec<char>, n: usize) -> (b: bool)
    requires
        n <= chars.len(),
    ensures
        b == is_bare(chars@.take(n as int)),
{
    let b = n == 0 || (n == 1 && chars[0] == '/');
    proof {
        if n == 1 && chars[0] == '/' {
            assert(chars@.take(n as int) =~= seq!['/']);
        }
        if is_bare(chars@.take(n as int)) && n > 0 {
            assert(chars@.take(n as int)[0] == '/');
        }
    }
    b
}

/// The last component of the path, if it names a file.
pub fn file_name(path: &str) -> (name: Option<String>)
    ensures
        match base_of(path@) {
            Some(n) => name is Some && name->0@ == n,
            None => name is None,
        },
{
    let chars = to_chars(path);
    proof {
        assert(chars@.take(chars@.len() as int) =~= chars@);
    }
    let n: usize = trimmed_len(&chars, chars.len());
    if bare(&chars, n) {
        return None;
    }
    let at: usize = last_slash_end(&chars, n);
    let name = from_chars(&chars, at, n);
    proof {
        reveal_strlit(".");
        reveal_strlit("..");
        assert("."@ =~= seq!['.']);
        assert(".."@ =~= seq!['.', '.']);
        assert(chars@.subrange(at as int, n as int) =~= chars@.take(n as int).skip(at as int));
    }
    if same_text(name.as_str(), ".") || same_text(name.as_str(), "..") {
        return None;
    }
    Some(name)
}

/// The path without its last component.
pub fn parent(path: &str) -> (dir: Option<String>)
    ensures
        match parent_of(path@) {
            Some(d) => dir is Some && dir->0@ == d,
            None => dir is None,
        },
{
    let chars = to_chars(path);
    proof {
        assert(chars@.take(chars@.len() as int) =~= chars@);
    }
    let n: usize = trimmed_len(&chars, chars.len());
    if bare(&chars, n) {
        return None;
    }
    let at: usize = last_slash_end(&chars, n);
    let m: usize = trimmed_len(&chars, at);
    proof {
        assert(chars@.take(n as int).take(at as int) =~= chars@.take(at as int));
        assert(chars@.take(m as int) =~= chars@.subrange(0, m as int));
    }
    Some(from_chars(&chars, 0, m))
}

/// `name` below `dir`; an absolute `name` stands alone.
pub fn join(dir: &str, name: &str) -> (path: String)
    ensures
        path@ == joined(dir@, name@),
{
    let d = to_chars(dir);
    let n = to_chars(name);
    if d.len() == 0 || (n.len() > 0 && n[0] == '/') {
        name.to_owned()
    } else if d[d.len() - 1] == '/' {
        concat2(dir, name)
    } else {
        concat3(dir, "/", name)
    }
}

/// The index behind the last dot of `chars`, 0 where there is none.
fn dot_end(chars: &Vec<char>) -> (n: usize)
    ensures
        n <= chars.len(),
        n == last_dot(chars@) + 1,
{
    let mut n: usize = chars.len();
    proof {
        assert(chars@.take(n as int) =~= chars@);
    }
    while n > 0 && chars[n - 1] != '.'
        invariant
            n <= chars.len(),
            last_dot(chars@.take(n as int)) == last_dot(chars@),
        decreases n,
    {
        proof {
            assert(chars@.take(n as int).drop_last() =~= chars@.take(n - 1));
        }
        n -= 1;
    }
    n
}

/// A file name without its extension.
pub fn stem(name: &str) -> (s: String)
    ensures
        s@ == stem_of(name@),
{
    let chars = to_chars(name);
    let n: usize = dot_end(&chars);
    if n > 1 {
        proof {
            assert(chars@.subrange(0, n - 1) =~= chars@.take(n - 1));
        }
        from_chars(&chars, 0, n - 1)
    } else {
        name.to_owned()
    }
}

/// The extension of a file name.
pub fn extension(name: &str) -> (e: Option<String>)
    ensures
        match extension_of(name@) {
            Some(x) => e is Some && e->0@ == x,
            None => e is None,
        },
{
    let chars = to_chars(name);
    let n: usize = dot_end(&chars);
    if n > 1 {
        proof {
            assert(chars@.subrange(n as int, chars@.len() as int) =~= chars@.skip(n as int));
        }
        Some(from_chars(&chars, n, chars.len()))
    } else {
        None
    }
}

// ---- Laws --------------------------------------------------------------------

/// What stands behind the last separator.
pub proof fn lemma_last_slash(s: Seq<char>, at: int)
    requires
        0 <= at <= s.len(),
        at > 0 ==> s[at - 1] == '/',
        forall|i: int| at <= i < s.len() ==> (#[trigger] s[i]) != '/',
    ensures
        after_last_slash(s) == at,
    decreases s.len(),
{
    if at < s.len() {
        assert(s[s.len() - 1] != '/');
        let rest = s.drop_last();
        assert forall|i: int| at <= i < rest.len() implies (#[trigger] rest[i]) != '/' by {
            assert(rest[i] == s[i]);
        }
        lemma_last_slash(rest, at);
    }
}

/// Where the last dot stands.
pub proof fn lemma_last_dot(s: Seq<char>, at: int)
    requires
        -1 <= at < s.len(),
        at >= 0 ==> s[at] == '.',
        forall|i: int| at < i < s.len() ==> (#[trigger] s[i]) != '.',
    ensures
        last_dot(s) == at,
    decreases s.len(),
{
    if at < s.len() - 1 {
        assert(s[s.len() - 1] != '.');
        let rest = s.drop_last();
        assert forall|i: int| at < i < rest.len() implies (#[trigger] rest[i]) != '.' by {
            assert(rest[i] == s[i]);
        }
        lemma_last_dot(rest, at);
    }
}

/// Whether a text is the name of a file or directory.
pub open spec fn is_name(name: Seq<char>) -> bool {
    &&& name.len() > 0
    &&& forall|i: int| 0 <= i < name.len() ==> (#[trigger] name[i]) != '/'
    &&& name != seq!['.']
    &&& name != seq!['.', '.']
}

proof fn lemma_name_is_trimmed(dir: Seq<char>, name: Seq<char>)
    requires
        dir.len() > 0 ==> dir.last() == '/',
        is_name(name),
    ensures
        path_trimmed(dir + name) == dir + name,
        after_last_slash(dir + name) == dir.len(),
        !is_bare(dir + name),
{
    let whole = dir + name;
    assert forall|i: int| dir.len() <= i < whole.len() implies (#[trigger] whole[i]) != '/' by {
        assert(whole[i] == name[i - dir.len()]);
    }
    if dir.len() > 0 {
        assert(whole[dir.len() - 1] == dir.last());
    }
    lemma_last_slash(whole, dir.len() as int);
    assert(whole[whole.len() - 1] != '/');
    if name.len() == 1 && name[0] == '.' {
        assert(name =~= seq!['.']);
    }
    if name.len() > 1 {
        assert(whole[whole.len() - 2] != '/');
    }
    assert(!is_bare(whole)) by {
        if whole == seq!['/'] {
            assert(whole.last() == '/');
        }
    }
}

/// The last component of a path is its name, and what comes before it its directory; slashes and
/// single dots at the end do not count.
pub proof fn law_a_path_ends_in_its_name(dir: Seq<char>, name: Seq<char>)
    requires
        dir.len() > 0 ==> dir.last() == '/',
        is_name(name),
    ensures
        base_of(dir + name) == Some(name),
        parent_of(dir + name) == Some(path_trimmed(dir)),
        base_of(dir + name + seq!['/']) == Some(name),
        base_of(dir + name + seq!['/', '.']) == Some(name),
        path_trimmed(dir + name + seq!['/']) == dir + name,
{
    let whole = dir + name;
    lemma_name_is_trimmed(dir, name);
    assert(whole.skip(dir.len() as int) =~= name);
    assert(whole.take(dir.len() as int) =~= dir);
    let slashed = whole + seq!['/'];
    assert(slashed.drop_last() =~= whole);
    assert(slashed.last() == '/');
    let dotted = whole + seq!['/', '.'];
    assert(dotted.drop_last() =~= slashed);
    assert(dotted[dotted.len() - 2] == '/' && dotted.last() == '.');
}

/// A path without a component of its own has no name, and neither has one that ends in `..`.
pub proof fn law_some_paths_have_no_name(dir: Seq<char>)
    requires
        dir.len() > 0 ==> dir.last() == '/',
    ensures
        base_of(Seq::<char>::empty()) is None,
        base_of(seq!['/']) is None,
        base_of(dir + seq!['.', '.']) is None,
        parent_of(Seq::<char>::empty()) is None,
        parent_of(seq!['/']) is None,
{
    let up = seq!['.', '.'];
    let whole = dir + up;
    assert forall|i: int| dir.len() <= i < whole.len() implies (#[trigger] whole[i]) != '/' by {
        assert(whole[i] == up[i - dir.len()]);
    }
    if dir.len() > 0 {
        assert(whole[dir.len() - 1] == dir.last());
    }
    lemma_last_slash(whole, dir.len() as int);
    assert(whole.last() == '.' && whole[whole.len() - 2] == '.');
    assert(path_trimmed(whole) == whole);
    assert(whole.skip(dir.len() as int) =~= up);
    reveal_with_fuel(path_trimmed, 2);
}

/// A name joined to a directory is the last component of the joined path, and the directory its
/// parent.
pub proof fn law_joined_paths_come_apart(dir: &str, name: &str, path: String)
    requires
        call_ensures(join, (dir, name), path),
        is_name(name@),
        dir@.len() > 0,
        dir@.last() != '/',
        dir@.len() > 1 ==> !(dir@.last() == '.' && dir@[dir@.len() - 2] == '/'),
    ensures
        path@.len() == dir@.len() + 1 + name@.len(),
        base_of(path@) == Some(name@),
        parent_of(path@) == Some(dir@),
{
    reveal_strlit("/");
    assert(name@[0] != '/');
    let front = dir@ + "/"@;
    assert(front.last() == '/');
    assert(front.drop_last() =~= dir@);
    assert(path@ =~= front + name@);
    law_a_path_ends_in_its_name(front, name@);
    assert(path_trimmed(dir@) == dir@);
    assert(path_trimmed(front) == path_trimmed(front.drop_last()));
}

/// A name that begins with a slash replaces the directory, and an empty directory adds nothing; a
/// directory that ends in a slash needs no other.
pub proof fn law_joins_that_add_no_slash(dir: &str, name: &str, path: String)
    requires
        call_ensures(join, (dir, name), path),
    ensures
        name@.len() > 0 && name@[0] == '/' ==> path@ == name@,
        dir@.len() == 0 ==> path@ == name@,
        name@.len() > 0 && name@[0] != '/' && dir@.len() > 0 && dir@.last() == '/' ==> path@ == dir@
            + name@,
{
}

/// A file name is its stem, a dot and its extension; without a dot behind its first character it is
/// all stem.
pub proof fn law_a_name_is_stem_and_extension(stem: Seq<char>, extension: Seq<char>)
    requires
        forall|i: int| 0 <= i < extension.len() ==> (#[trigger] extension[i]) != '.',
    ensures
        stem.len() > 0 ==> {
            &&& stem_of(stem + seq!['.'] + extension) == stem
            &&& extension_of(stem + seq!['.'] + extension) == Some(extension)
        },
        stem_of(extension) == extension,
        extension_of(extension) is None,
        stem_of(seq!['.'] + extension) == seq!['.'] + extension,
        extension_of(seq!['.'] + extension) is None,
{
    let name = stem + seq!['.'] + extension;
    assert forall|i: int| stem.len() < i < name.len() implies (#[trigger] name[i]) != '.' by {
        assert(name[i] == extension[i - stem.len() - 1]);
    }
    lemma_last_dot(name, stem.len() as int);
    assert(name.take(stem.len() as int) =~= stem);
    assert(name.skip(stem.len() as int + 1) =~= extension);
    lemma_last_dot(extension, -1);
    let hidden = seq!['.'] + extension;
    assert forall|i: int| 0 < i < hidden.len() implies (#[trigger] hidden[i]) != '.' by {
        assert(hidden[i] == extension[i - 1]);
    }
    lemma_last_dot(hidden, 0);
}

} // verus!
