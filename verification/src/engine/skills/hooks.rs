//! Hooks as data: the engine stores them, the host executes them.

use vstd::prelude::*;

verus! {

/// Name of a lifecycle event. Open-ended: the engine does not validate it.
#[derive(Debug, Clone, PartialEq, Eq, Hash, PartialOrd, Ord)]
pub struct HookEvent(pub String);

impl HookEvent {
    pub fn new(s: String) -> (e: HookEvent)
        ensures
            e.0 == s,
    {
        HookEvent(s)
    }

    pub fn as_str(&self) -> (s: &str)
        ensures
            s@ == self.0@,
    {
        self.0.as_str()
    }
}

/// The handlers to run when the matcher of an event fires.
#[derive(Debug, Clone, PartialEq, Eq)]
pub struct HookMatcherGroup {
    /// Absent: matches everything. The host defines what a pattern means.
    pub matcher: Option<String>,
    pub hooks: Vec<HookHandler>,
}

impl HookMatcherGroup {
    pub fn new() -> (g: HookMatcherGroup)
        ensures
            g.matcher is None,
            g.hooks@ == Seq::<HookHandler>::empty(),
    {
        HookMatcherGroup { matcher: None, hooks: Vec::new() }
    }
}

impl Default for HookMatcherGroup {
    fn default() -> (g: HookMatcherGroup)
        ensures
            g.matcher is None,
            g.hooks@ == Seq::<HookHandler>::empty(),
    {
        HookMatcherGroup::new()
    }
}

/// One of the known handler types. `timeout` is in seconds, absent for the host's default; `once`
/// fires at most once per session.
#[derive(Debug, Clone, PartialEq, Eq)]
pub enum HookHandler {
    /// Run a shell command: a path or inline code.
    Command { script: String, timeout: Option<u32>, once: bool },
    /// Post the hook context to an endpoint.
    Http { url: String, timeout: Option<u32>, once: bool },
    /// Call a tool of an MCP server.
    McpTool { server: String, tool: String, timeout: Option<u32>, once: bool },
    /// Run a prompt template.
    Prompt { prompt: String, timeout: Option<u32>, once: bool },
    /// Hand off to a subagent.
    Agent { agent: String, timeout: Option<u32>, once: bool },
}

} // verus!
