//! Where the advisory lock of a file is taken: on a sidecar beside it, whose inode stays the same
//! when the file itself is replaced by a rename.

use vstd::prelude::*;

use super::error::StorageError;
use crate::path::{
    base_of, file_name, is_name, join, joined, law_a_path_ends_in_its_name, parent, parent_of,
    path_trimmed,
};
use crate::text::{concat2, concat3};

verus! {

/// The sidecar of `target`, where it has one: `.<name>.lock` in the same directory.
pub open spec fn sidecar_of(target: Seq<char>) -> Option<Seq<char>> {
    match (parent_of(target), base_of(target)) {
        (Some(dir), Some(name)) => Some(joined(dir, "."@ + name + ".lock"@)),
        _ => None,
    }
}

/// The sidecar lock path of `target`. Fails where the target has no parent or no file name.
pub fn sidecar_lock_path(target: &str) -> (r: Result<String, StorageError>)
    ensures
        match sidecar_of(target@) {
            Some(p) => r is Ok && r->Ok_0@ == p,
            None => {
                &&& r is Err
                &&& r->Err_0 is Backend
                &&& r->Err_0->Backend_0@ == (if parent_of(target@) is None {
                    "target has no parent: "@ + target@
                } else {
                    "target has no filename: "@ + target@
                })
            },
        },
{
    match parent(target) {
        None => Err(StorageError::backend(concat2("target has no parent: ", target))),
        Some(dir) => match file_name(target) {
            None => Err(StorageError::backend(concat2("target has no filename: ", target))),
            Some(name) => {
                let hidden = concat3(".", name.as_str(), ".lock");
                Ok(join(dir.as_str(), hidden.as_str()))
            },
        },
    }
}

/// The lock of a file stands beside it, hidden and named after it.
pub proof fn law_a_lock_stands_beside_its_file(
    target: &str,
    r: Result<String, StorageError>,
    dir: Seq<char>,
    name: Seq<char>,
)
    requires
        call_ensures(sidecar_lock_path, (target,), r),
        dir.len() > 0,
        dir.last() != '/',
        dir.len() > 1 ==> !(dir.last() == '.' && dir[dir.len() - 2] == '/'),
        is_name(name),
        target@ == dir + seq!['/'] + name,
    ensures
        r is Ok,
        r->Ok_0@ == dir + seq!['/', '.'] + name + ".lock"@,
{
    let front = dir + seq!['/'];
    assert(front.drop_last() =~= dir);
    law_a_path_ends_in_its_name(front, name);
    assert(path_trimmed(dir) == dir);
    assert(path_trimmed(front) == path_trimmed(front.drop_last()));
    reveal_strlit("/");
    reveal_strlit(".");
    reveal_strlit(".lock");
    let hidden = "."@ + name + ".lock"@;
    assert(hidden[0] == '.');
    assert(joined(dir, hidden) =~= dir + seq!['/', '.'] + name + ".lock"@);
}

} // verus!
