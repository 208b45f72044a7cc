//! Teams: groupings of personas, skills and users.

pub mod model;
pub mod store;

pub use model::{Team, TeamFrontmatter, TeamMember, TeamRef, TeamStatus};
