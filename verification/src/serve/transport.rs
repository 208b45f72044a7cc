//! Lines of a connection, and the path that a socket is bound to.

use vstd::prelude::*;

use crate::text::{
    concat3, is_blank, is_space, law_a_part_occurs_in_the_whole, occurs_in, trims_to_nothing,
};

verus! {

/// Whether a line holds a request; blank lines are passed over.
pub fn is_request(line: &str) -> (b: bool)
    ensures
        b == !is_blank(line@),
{
    !trims_to_nothing(line)
}

/// What lies at a path.
#[derive(Debug, Clone, Copy, PartialEq, Eq, Structural)]
pub enum PathContent {
    Nothing,
    Socket,
    Other,
}

/// What to do before a socket is bound to a path.
#[derive(Debug, Clone, Copy, PartialEq, Eq, Structural)]
pub enum BindPlan {
    Bind,
    /// Remove what a server that crashed has left, then bind.
    RemoveAndBind,
}

/// Plans how to bind a socket to a path. Nothing but a socket is ever removed.
pub fn plan_bind(path: &str, found: PathContent) -> (r: Result<BindPlan, String>)
    ensures
        match found {
            PathContent::Nothing => r == Ok::<BindPlan, String>(BindPlan::Bind),
            PathContent::Socket => r == Ok::<BindPlan, String>(BindPlan::RemoveAndBind),
            PathContent::Other => r is Err && r->Err_0@ == "--socket path "@ + path@
                + " exists and is not a socket; refusing to remove"@,
        },
{
    match found {
        PathContent::Nothing => Ok(BindPlan::Bind),
        PathContent::Socket => Ok(BindPlan::RemoveAndBind),
        PathContent::Other => Err(
            concat3(
                "--socket path ",
                path,
                " exists and is not a socket; refusing to remove",
            ),
        ),
    }
}

// ---- Laws --------------------------------------------------------------------

/// Nothing but a socket is removed to make room for one, and a path with nothing there is bound as
/// it is; anything else is refused by its path.
pub proof fn law_only_sockets_make_room(path: &str, found: PathContent, r: Result<BindPlan, String>)
    requires
        call_ensures(plan_bind, (path, found), r),
    ensures
        r == Ok::<BindPlan, String>(BindPlan::RemoveAndBind) <==> found == PathContent::Socket,
        r == Ok::<BindPlan, String>(BindPlan::Bind) <==> found == PathContent::Nothing,
        r is Err <==> found == PathContent::Other,
        r matches Err(m) ==> occurs_in(m@, path@),
{
    if found == PathContent::Other {
        law_a_part_occurs_in_the_whole(
            "--socket path "@,
            path@,
            " exists and is not a socket; refusing to remove"@,
            path@,
        );
    }
}

/// A line is a request unless it is all white space.
pub proof fn law_blank_lines_are_no_requests(line: &str, b: bool)
    requires
        call_ensures(is_request, (line,), b),
    ensures
        b <==> exists|i: int| 0 <= i < line@.len() && !is_space(#[trigger] line@[i]),
{
}

} // verus!
