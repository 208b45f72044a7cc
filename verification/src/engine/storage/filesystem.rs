//! Path rules of the file-system backend. Reading and writing happen outside.

use vstd::prelude::*;

use super::key::{StorageKey, is_canonical_text, law_canonical_texts_have_no_detours};
use crate::path::{
    base_of, extension, extension_of, file_name, is_name, join, joined,
    law_a_name_is_stem_and_extension, law_a_path_ends_in_its_name,
};
use crate::text::{concat2, from_chars, same_text, to_chars};

verus! {

/// Keys are files below one root directory.
#[derive(Debug, Clone, PartialEq, Eq)]
pub struct LocalFsStorage {
    root: String,
}

impl View for LocalFsStorage {
    type V = Seq<char>;

    closed spec fn view(&self) -> Seq<char> {
        self.root@
    }
}

/// The extension of the file that `put` writes before it renames it.
pub open spec fn temp_extension_of(path: Seq<char>) -> Seq<char> {
    match base_of(path) {
        Some(name) => match extension_of(name) {
            Some(e) => if e.len() == 0 {
                "tmp"@
            } else {
                e + ".tmp"@
            },
            None => "tmp"@,
        },
        None => "tmp"@,
    }
}

/// The components of a relative path, `.`, `..` and empty ones left out, each behind a slash.
pub open spec fn slashed_components(s: Seq<char>, from: int, at: int) -> Seq<char>
    decreases s.len() - at,
{
    if at >= s.len() {
        slashed_component(s.subrange(from, s.len() as int))
    } else if s[at] == '/' {
        slashed_component(s.subrange(from, at)) + slashed_components(s, at + 1, at + 1)
    } else {
        slashed_components(s, from, at + 1)
    }
}

/// One component behind a slash, or nothing where it names none.
pub open spec fn slashed_component(c: Seq<char>) -> Seq<char> {
    if c.len() == 0 || c == "."@ || c == ".."@ {
        seq![]
    } else {
        "/"@ + c
    }
}

/// The key text of a path relative to the root: its normal components joined by slashes.
pub open spec fn key_text(path: Seq<char>) -> Seq<char> {
    let s = slashed_components(path, 0, 0);
    if s.len() == 0 {
        s
    } else {
        s.skip(1)
    }
}

impl LocalFsStorage {
    pub fn new(root: String) -> (s: LocalFsStorage)
        ensures
            s@ == root@,
    {
        LocalFsStorage { root }
    }

    /// The root directory.
    pub fn root(&self) -> (r: &str)
        ensures
            r@ == self@,
    {
        self.root.as_str()
    }

    /// The file that holds a key.
    pub fn resolve(&self, key: &StorageKey) -> (p: String)
        ensures
            p@ == joined(self@, key@),
    {
        join(self.root.as_str(), key.as_str())
    }
}

/// The extension for the temporary file beside `path`.
pub fn temp_extension(path: &str) -> (e: String)
    ensures
        e@ == temp_extension_of(path@),
{
    match file_name(path) {
        Some(name) => match extension(name.as_str()) {
            Some(existing) => {
                let chars = to_chars(existing.as_str());
                if chars.len() == 0 {
                    "tmp".to_owned()
                } else {
                    concat2(existing.as_str(), ".tmp")
                }
            },
            None => "tmp".to_owned(),
        },
        None => "tmp".to_owned(),
    }
}

/// The key text of a relative path. Always slash-delimited.
pub fn path_to_key_string(path: &str) -> (k: String)
    ensures
        k@ == key_text(path@),
{
    let chars = to_chars(path);
    let n: usize = chars.len();
    let mut out = String::new();
    let mut from: usize = 0;
    let mut at: usize = 0;
    proof {
        assert(seq![] + slashed_components(path@, 0, 0) =~= slashed_components(path@, 0, 0));
    }
    while at < n
        invariant
            chars@ == path@,
            n == chars.len(),
            from <= at <= n,
            out@ + slashed_components(path@, from as int, at as int) == slashed_components(
                path@,
                0,
                0,
            ),
        decreases n - at,
    {
        if chars[at] == '/' {
            let c = from_chars(&chars, from, at);
            let ghost before = out@;
            push_component(&mut out, c.as_str());
            proof {
                assert(before + (slashed_component(path@.subrange(from as int, at as int))
                    + slashed_components(path@, at + 1, at + 1)) =~= out@ + slashed_components(
                    path@,
                    at + 1,
                    at + 1,
                ));
            }
            from = at + 1;
        }
        at += 1;
    }
    let c = from_chars(&chars, from, n);
    push_component(&mut out, c.as_str());
    let all = to_chars(out.as_str());
    if all.len() == 0 {
        out
    } else {
        proof {
            assert(all@.subrange(1, all@.len() as int) =~= all@.skip(1));
        }
        from_chars(&all, 1, all.len())
    }
}

/// Appends one component behind a slash.
fn push_component(out: &mut String, c: &str)
    ensures
        final(out)@ == old(out)@ + slashed_component(c@),
{
    let ghost before = out@;
    let chars = to_chars(c);
    if chars.len() == 0 || same_text(c, ".") || same_text(c, "..") {
        proof {
            assert(before + seq![] =~= before);
        }
    } else {
        out.append("/");
        out.append(c);
        proof {
            assert(out@ =~= before + ("/"@ + c@));
        }
    }
}

// ---- Laws --------------------------------------------------------------------

/// The temporary file of a write is named like the file itself, with `tmp` behind its extension, or
/// in place of one where it has none.
pub proof fn law_temporary_files_keep_the_extension(
    path: &str,
    e: String,
    dir: Seq<char>,
    stem: Seq<char>,
    extension: Seq<char>,
)
    requires
        call_ensures(temp_extension, (path,), e),
        dir.len() > 0 ==> dir.last() == '/',
        stem.len() > 0,
        forall|i: int| 0 <= i < extension.len() ==> (#[trigger] extension[i]) != '.',
        is_name(stem + seq!['.'] + extension),
        path@ == dir + (stem + seq!['.'] + extension),
    ensures
        extension.len() > 0 ==> e@ == extension + ".tmp"@,
        extension.len() == 0 ==> e@ == "tmp"@,
{
    law_a_name_is_stem_and_extension(stem, extension);
    law_a_path_ends_in_its_name(dir, stem + seq!['.'] + extension);
}

/// A file without an extension gets `tmp` as one.
pub proof fn law_plain_files_get_a_temporary_extension(
    path: &str,
    e: String,
    dir: Seq<char>,
    name: Seq<char>,
)
    requires
        call_ensures(temp_extension, (path,), e),
        dir.len() > 0 ==> dir.last() == '/',
        is_name(name),
        forall|i: int| 0 <= i < name.len() ==> (#[trigger] name[i]) != '.',
        path@ == dir + name,
    ensures
        e@ == "tmp"@,
{
    law_a_name_is_stem_and_extension(name, name);
    law_a_path_ends_in_its_name(dir, name);
}

proof fn lemma_components_shift(a: Seq<char>, b: Seq<char>, from: int, at: int)
    requires
        0 <= from <= at <= b.len(),
    ensures
        slashed_components(a + b, a.len() + from, a.len() + at) == slashed_components(b, from, at),
    decreases b.len() - at,
{
    let s = a + b;
    let n = a.len() as int;
    if at >= b.len() {
        assert(s.subrange(n + from, s.len() as int) =~= b.subrange(from, b.len() as int));
    } else {
        assert(s[n + at] == b[at]);
        if b[at] == '/' {
            assert(s.subrange(n + from, n + at) =~= b.subrange(from, at));
            lemma_components_shift(a, b, at + 1, at + 1);
        } else {
            lemma_components_shift(a, b, from, at + 1);
        }
    }
}

proof fn lemma_first_component(name: Seq<char>, rest: Seq<char>, at: int)
    requires
        0 <= at <= name.len(),
        forall|i: int| 0 <= i < name.len() ==> (#[trigger] name[i]) != '/',
    ensures
        slashed_components(name + seq!['/'] + rest, 0, at) == slashed_component(name)
            + slashed_components(rest, 0, 0),
        slashed_components(name, 0, at) == slashed_component(name),
    decreases name.len() - at,
{
    let s = name + seq!['/'] + rest;
    let head = name + seq!['/'];
    let n = name.len() as int;
    if at < n {
        assert(s[at] == name[at]);
        lemma_first_component(name, rest, at + 1);
    } else {
        assert(s[n] == '/');
        assert(s.subrange(0, n) =~= name);
        lemma_components_shift(head, rest, 0, 0);
        assert(name.subrange(0, n) =~= name);
    }
}

/// A path below the root becomes a key component by component: empty ones and dots are left out,
/// all others are joined by single slashes.
pub proof fn law_keys_are_made_of_names(name: Seq<char>, rest: Seq<char>)
    requires
        forall|i: int| 0 <= i < name.len() ==> (#[trigger] name[i]) != '/',
    ensures
        is_name(name) ==> {
            &&& key_text(name) == name
            &&& key_text(rest).len() > 0 ==> key_text(name + seq!['/'] + rest) == name + seq!['/']
                + key_text(rest)
            &&& slashed_components(rest, 0, 0).len() == 0 ==> key_text(name + seq!['/'] + rest)
                == name
        },
        !is_name(name) ==> key_text(name).len() == 0 && key_text(name + seq!['/'] + rest)
            == key_text(rest),
{
    reveal_strlit(".");
    reveal_strlit("..");
    reveal_strlit("/");
    lemma_first_component(name, rest, 0);
    assert("."@ =~= seq!['.']);
    assert(".."@ =~= seq!['.', '.']);
    let tail = slashed_components(rest, 0, 0);
    lemma_components_begin_with_a_slash(rest, 0, 0);
    let whole = slashed_components(name + seq!['/'] + rest, 0, 0);
    if is_name(name) {
        assert(slashed_component(name).skip(1) =~= name);
        assert(whole == "/"@ + name + tail);
        if tail.len() > 0 {
            assert(whole.skip(1) =~= name + seq!['/'] + tail.skip(1));
        } else {
            assert(whole.skip(1) =~= name);
        }
    } else {
        assert(slashed_component(name).len() == 0);
        assert(whole =~= tail);
    }
}

proof fn lemma_components_begin_with_a_slash(s: Seq<char>, from: int, at: int)
    ensures
        slashed_components(s, from, at).len() > 0 ==> slashed_components(s, from, at)[0] == '/',
    decreases s.len() - at,
{
    reveal_strlit("/");
    if at < s.len() {
        if s[at] == '/' {
            lemma_components_begin_with_a_slash(s, at + 1, at + 1);
        } else {
            lemma_components_begin_with_a_slash(s, from, at + 1);
        }
    }
}

/// A key stands below the root.
pub proof fn law_keys_are_resolved_below_the_root(
    store: &LocalFsStorage,
    key: &StorageKey,
    path: String,
)
    requires
        call_ensures(LocalFsStorage::resolve, (store, key), path),
        is_canonical_text(key@),
        store@.len() > 0,
    ensures
        store@.last() == '/' ==> path@ == store@ + key@,
        store@.last() != '/' ==> path@ == store@ + seq!['/'] + key@,
{
    reveal_strlit("/");
    law_canonical_texts_have_no_detours(key@);
    assert("/"@ =~= seq!['/']);
}

} // verus!
