//! Tunables of the orchestrator. Durations are in nanoseconds.

use vstd::prelude::*;

use crate::text::{lemma_text_less_irreflexive, text_before, text_less};

verus! {

#[derive(Debug, Clone, PartialEq, Eq)]
pub struct OrchestratorConfig {
    /// How many recent turns are kept.
    pub recent_turn_capacity: usize,
    /// Least time between two signals for the same item of a session.
    pub per_lesson_cooldown: u64,
    /// How long after an assistant turn an interrupt counts as its correction.
    pub correction_window: u64,
    pub host_version_policy: HostVersionPolicy,
}

/// 60 seconds.
pub const DEFAULT_COOLDOWN: u64 = 60_000_000_000;

/// 30 seconds, half of the cooldown, so that an interrupt followed by frustration is not
/// suppressed.
pub const DEFAULT_CORRECTION_WINDOW: u64 = 30_000_000_000;

impl Default for OrchestratorConfig {
    fn default() -> (c: OrchestratorConfig)
        ensures
            c.recent_turn_capacity == 6,
            c.per_lesson_cooldown == DEFAULT_COOLDOWN,
            c.correction_window == DEFAULT_CORRECTION_WINDOW,
            c.host_version_policy.tested_range is None,
            c.host_version_policy.action == HostVersionAction::Warn,
    {
        OrchestratorConfig {
            recent_turn_capacity: 6,
            per_lesson_cooldown: DEFAULT_COOLDOWN,
            correction_window: DEFAULT_CORRECTION_WINDOW,
            host_version_policy: HostVersionPolicy::off(),
        }
    }
}

/// What to do about a turn from an untested host version.
#[derive(Debug, Clone, Copy, PartialEq, Eq, Structural)]
#[non_exhaustive]
pub enum HostVersionAction {
    /// Process it all the same.
    Warn,
    /// Skip the whole turn.
    Abstain,
}

/// An inclusive range of versions.
#[derive(Debug, Clone, PartialEq, Eq)]
pub struct VersionRange {
    pub first: String,
    pub last: String,
}

/// The tripwire for host versions; off without a range. Versions are compared as texts.
#[derive(Debug, Clone, PartialEq, Eq)]
pub struct HostVersionPolicy {
    pub tested_range: Option<VersionRange>,
    pub action: HostVersionAction,
}

impl HostVersionPolicy {
    /// Whether `version` is outside the tested range.
    pub open spec fn excludes(self, version: Seq<char>) -> bool {
        match self.tested_range {
            None => false,
            Some(range) => text_less(version, range.first@) || text_less(range.last@, version),
        }
    }

    /// No check at all.
    pub fn off() -> (p: HostVersionPolicy)
        ensures
            p.tested_range is None,
            p.action == HostVersionAction::Warn,
    {
        HostVersionPolicy { tested_range: None, action: HostVersionAction::Warn }
    }

    pub fn is_out_of_range(&self, version: &str) -> (b: bool)
        ensures
            b == self.excludes(version@),
    {
        match &self.tested_range {
            None => false,
            Some(range) => text_before(version, range.first.as_str()) || text_before(
                range.last.as_str(),
                version,
            ),
        }
    }
}

// ---- Laws --------------------------------------------------------------------

/// Unless told otherwise, six turns are kept, an item has at most one signal a minute, an interrupt
/// corrects what was said in the last half minute, and no version is out of range.
pub proof fn law_defaults(c: OrchestratorConfig, version: Seq<char>)
    requires
        call_ensures(OrchestratorConfig::default, (), c),
    ensures
        c.recent_turn_capacity == 6,
        c.per_lesson_cooldown == 60_000_000_000,
        c.correction_window == 30_000_000_000,
        !c.host_version_policy.excludes(version),
{
}

/// A version is out of range where it comes before the first or after the last tested one; without
/// a range none is.
pub proof fn law_versions_out_of_range(policy: &HostVersionPolicy, version: &str, b: bool)
    requires
        call_ensures(HostVersionPolicy::is_out_of_range, (policy, version), b),
    ensures
        policy.tested_range is None ==> !b,
        policy.tested_range matches Some(range) ==> (b <==> text_less(version@, range.first@)
            || text_less(range.last@, version@)),
        policy.tested_range matches Some(range) ==> (version@ == range.first@ && !text_less(
            range.last@,
            range.first@,
        ) ==> !b),
{
    lemma_text_less_irreflexive(version@);
}

} // verus!
