//! Compare-and-set updates.

use vstd::prelude::*;

use super::key::StorageKey;
use crate::engine::error::EngineError;

verus! {

/// What follows a write of an update.
pub enum UpdateStep {
    /// The write went through.
    Done,
    /// Read again and try once more.
    Retry,
    /// Every attempt lost its race.
    GiveUp(EngineError),
}

/// Bookkeeping of an update: read with version, change, write if the version still holds, and
/// again while the budget lasts.
pub struct UpdateLoop {
    key: StorageKey,
    budget: u32,
    attempts: u32,
}

impl UpdateLoop {
    pub closed spec fn key(self) -> Seq<char> {
        self.key@
    }

    /// How many writes there may be.
    pub closed spec fn budget(self) -> u32 {
        self.budget
    }

    /// How many writes have lost.
    pub closed spec fn lost(self) -> u32 {
        self.attempts
    }

    pub fn new(key: StorageKey, budget: u32) -> (u: UpdateLoop)
        ensures
            u.key() == key@,
            u.budget() == budget,
            u.lost() == 0,
    {
        UpdateLoop { key, budget, attempts: 0 }
    }

    /// The key that is updated.
    pub fn storage_key(&self) -> (k: &StorageKey)
        ensures
            k@ == self.key(),
    {
        &self.key
    }

    /// Takes the outcome of a write.
    pub fn wrote(&mut self, written: bool) -> (step: UpdateStep)
        requires
            old(self).lost() < old(self).budget(),
        ensures
            final(self).key() == old(self).key(),
            final(self).budget() == old(self).budget(),
            final(self).lost() == (if written {
                old(self).lost() as int
            } else {
                old(self).lost() + 1
            }),
            step is Done <==> written,
            step is Retry <==> !written && old(self).lost() + 1 < old(self).budget(),
            step matches UpdateStep::GiveUp(e) ==> e matches EngineError::CasContended {
                key,
                retries,
            } && key@ == old(self).key() && retries == old(self).budget(),
    {
        if written {
            return UpdateStep::Done;
        }
        self.attempts = self.attempts + 1;
        if self.attempts < self.budget {
            UpdateStep::Retry
        } else {
            UpdateStep::GiveUp(
                EngineError::CasContended {
                    key: self.key.as_str().to_owned(),
                    retries: self.budget,
                },
            )
        }
    }
}

} // verus!
