//! The sentiment pipeline: what the user's words say about the items in play.

pub mod attribution;
pub mod classifier;
pub mod orchestrator;
pub mod pretrigger;
pub mod signals;
pub mod solicitor;
pub mod types;
