//! Attributes of a stored key.

use vstd::prelude::*;

use crate::engine::clock::Moment;

verus! {

/// A backend that cannot tell a time leaves it out;
/// an absent birth time is no sign of tampering.
#[derive(Debug, Clone, Copy, PartialEq, Eq)]
pub struct StorageMetadata {
    pub birthtime: Option<Moment>,
    pub mtime: Option<Moment>,
    pub size_bytes: u64,
}

} // verus!
