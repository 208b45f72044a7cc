//! Who a request is made for.

use vstd::prelude::*;

verus! {

/// Tenant, user and session of a request.
#[derive(Debug, Clone, PartialEq, Eq)]
pub struct Context {
    pub tenant_id: String,
    pub user_id: String,
    pub session_id: String,
}

impl Context {
    /// The context of a single local user.
    pub fn single_user_local() -> (ctx: Context)
        ensures
            ctx.tenant_id@ == "local"@,
            ctx.user_id@ == "local"@,
            ctx.session_id@ == "local"@,
    {
        Context {
            tenant_id: "local".to_owned(),
            user_id: "local".to_owned(),
            session_id: "local".to_owned(),
        }
    }

    /// Starts from the local context.
    pub fn builder() -> (b: ContextBuilder)
        ensures
            b.ctx.tenant_id@ == "local"@,
            b.ctx.user_id@ == "local"@,
            b.ctx.session_id@ == "local"@,
    {
        ContextBuilder { ctx: Context::single_user_local() }
    }
}

/// Builds a context field by field.
#[derive(Debug, Clone)]
pub struct ContextBuilder {
    pub ctx: Context,
}

impl ContextBuilder {
    pub fn tenant_id(self, id: &str) -> (b: ContextBuilder)
        ensures
            b.ctx.tenant_id@ == id@,
            b.ctx.user_id == self.ctx.user_id,
            b.ctx.session_id == self.ctx.session_id,
    {
        ContextBuilder {
            ctx: Context {
                tenant_id: id.to_owned(),
                user_id: self.ctx.user_id,
                session_id: self.ctx.session_id,
            },
        }
    }

    pub fn user_id(self, id: &str) -> (b: ContextBuilder)
        ensures
            b.ctx.tenant_id == self.ctx.tenant_id,
            b.ctx.user_id@ == id@,
            b.ctx.session_id == self.ctx.session_id,
    {
        ContextBuilder {
            ctx: Context {
                tenant_id: self.ctx.tenant_id,
                user_id: id.to_owned(),
                session_id: self.ctx.session_id,
            },
        }
    }

    pub fn session_id(self, id: &str) -> (b: ContextBuilder)
        ensures
            b.ctx.tenant_id == self.ctx.tenant_id,
            b.ctx.user_id == self.ctx.user_id,
            b.ctx.session_id@ == id@,
    {
        ContextBuilder {
            ctx: Context {
                tenant_id: self.ctx.tenant_id,
                user_id: self.ctx.user_id,
                session_id: id.to_owned(),
            },
        }
    }

    pub fn build(self) -> (ctx: Context)
        ensures
            ctx == self.ctx,
    {
        self.ctx
    }
}

} // verus!
