//! The per-session state machine: from events and classifier answers to signals.
//!
//! The host calls the classifier between `Orchestrator::process_event` and
//! `Orchestrator::take_answer`.

pub mod config;
pub mod derive;
pub mod session;
pub mod sessions;
pub mod state;

pub use config::{HostVersionAction, HostVersionPolicy, OrchestratorConfig};
pub use sessions::{EventStep, Orchestrator};
pub use state::{SessionPhase, SessionState};
