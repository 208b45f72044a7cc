//! Errors of a vector index.

use vstd::prelude::*;

use crate::text::{concat2, decimal, push_u64};

verus! {

#[derive(Debug, Clone, PartialEq, Eq)]
#[non_exhaustive]
pub enum VectorIndexError {
    /// A remote index or the disk failed.
    Transport(String),
    /// The vector holds a value that is not a finite number.
    InvalidVector(String),
    /// The vector has the wrong length for the index.
    DimensionMismatch { provided: usize, expected: usize },
    /// The index cannot do this.
    Unsupported(String),
    /// Anything else.
    Internal(String),
}

impl VectorIndexError {
    pub open spec fn text(self) -> Seq<char> {
        match self {
            VectorIndexError::Transport(e) => "vector index transport: "@ + e@,
            VectorIndexError::InvalidVector(e) => "invalid vector: "@ + e@,
            VectorIndexError::DimensionMismatch { provided, expected } =>
                "dimension mismatch: provided="@ + decimal(provided as nat) + " expected="@
                    + decimal(expected as nat),
            VectorIndexError::Unsupported(e) => "unsupported operation: "@ + e@,
            VectorIndexError::Internal(e) => "vector index internal: "@ + e@,
        }
    }

    /// Wraps the message of a transport failure.
    pub fn transport(err: String) -> (e: VectorIndexError)
        ensures
            e == VectorIndexError::Transport(err),
    {
        VectorIndexError::Transport(err)
    }

    /// The message shown for this error.
    pub fn message(&self) -> (m: String)
        ensures
            m@ == self.text(),
    {
        match self {
            VectorIndexError::Transport(e) => concat2("vector index transport: ", e.as_str()),
            VectorIndexError::InvalidVector(e) => concat2("invalid vector: ", e.as_str()),
            VectorIndexError::DimensionMismatch { provided, expected } => {
                let mut m = "dimension mismatch: provided=".to_owned();
                push_u64(&mut m, *provided as u64);
                m.append(" expected=");
                push_u64(&mut m, *expected as u64);
                m
            },
            VectorIndexError::Unsupported(e) => concat2("unsupported operation: ", e.as_str()),
            VectorIndexError::Internal(e) => concat2("vector index internal: ", e.as_str()),
        }
    }
}

// ---- Laws --------------------------------------------------------------------

/// The message of an error tells what failed and ends in the cause.
pub proof fn law_index_errors_tell_their_cause(e: &VectorIndexError, m: String)
    requires
        call_ensures(VectorIndexError::message, (e,), m),
    ensures
        e matches VectorIndexError::Transport(c) ==> m@ == "vector index transport: "@ + c@,
        e matches VectorIndexError::InvalidVector(c) ==> m@ == "invalid vector: "@ + c@,
        e matches VectorIndexError::DimensionMismatch { provided, expected } ==> m@
            == "dimension mismatch: provided="@ + decimal(provided as nat) + " expected="@ + decimal(
            expected as nat,
        ),
        e matches VectorIndexError::Unsupported(c) ==> m@ == "unsupported operation: "@ + c@,
        e matches VectorIndexError::Internal(c) ==> m@ == "vector index internal: "@ + c@,
{
}

} // verus!
