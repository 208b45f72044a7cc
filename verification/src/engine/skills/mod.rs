//! Skills: scoped capability packages. The engine stores skill records (frontmatter, body and
//! hook metadata); hosts activate skills and execute hooks.

pub mod hooks;
pub mod model;
pub mod skill_ref;
pub mod store;

pub use hooks::{HookEvent, HookHandler, HookMatcherGroup};
pub use model::{
    ActivationMode, ContextMode, EffortLevel, EventHooks, Skill, SkillFrontmatter, SkillStatus,
    SkillType,
};
pub use skill_ref::SkillRef;
