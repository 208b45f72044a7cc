//! Events that a host hands to the engine.

use vstd::prelude::*;

use crate::engine::clock::Moment;
use crate::text::opt_text;

verus! {

/// What happened in a host session.
#[derive(Debug, Clone, PartialEq, Eq)]
#[non_exhaustive]
pub enum EngineEvent {
    /// The user said something.
    UserTurn {
        session_id: String,
        event_uuid: String,
        parent_event_uuid: Option<String>,
        text: String,
        timestamp: Moment,
        cwd: Option<String>,
        host_version: Option<String>,
        project_tag: Option<String>,
    },
    /// The user cut the assistant short.
    UserInterrupt {
        session_id: String,
        event_uuid: String,
        parent_event_uuid: Option<String>,
        timestamp: Moment,
    },
    SessionStarted { session_id: String, path: String, started_at: Moment },
    SessionEnded { session_id: String },
}

/// The model of an event.
#[verifier::ext_equal]
pub enum EngineEventModel {
    UserTurn {
        session_id: Seq<char>,
        event_uuid: Seq<char>,
        parent_event_uuid: Option<Seq<char>>,
        text: Seq<char>,
        timestamp: Moment,
        cwd: Option<Seq<char>>,
        host_version: Option<Seq<char>>,
        project_tag: Option<Seq<char>>,
    },
    UserInterrupt {
        session_id: Seq<char>,
        event_uuid: Seq<char>,
        parent_event_uuid: Option<Seq<char>>,
        timestamp: Moment,
    },
    SessionStarted { session_id: Seq<char>, path: Seq<char>, started_at: Moment },
    SessionEnded { session_id: Seq<char> },
}

impl View for EngineEvent {
    type V = EngineEventModel;

    open spec fn view(&self) -> EngineEventModel {
        match *self {
            EngineEvent::UserTurn {
                session_id,
                event_uuid,
                parent_event_uuid,
                text,
                timestamp,
                cwd,
                host_version,
                project_tag,
            } => EngineEventModel::UserTurn {
                session_id: session_id@,
                event_uuid: event_uuid@,
                parent_event_uuid: opt_text(parent_event_uuid),
                text: text@,
                timestamp,
                cwd: opt_text(cwd),
                host_version: opt_text(host_version),
                project_tag: opt_text(project_tag),
            },
            EngineEvent::UserInterrupt { session_id, event_uuid, parent_event_uuid, timestamp } =>
                EngineEventModel::UserInterrupt {
                session_id: session_id@,
                event_uuid: event_uuid@,
                parent_event_uuid: opt_text(parent_event_uuid),
                timestamp,
            },
            EngineEvent::SessionStarted { session_id, path, started_at } =>
                EngineEventModel::SessionStarted {
                session_id: session_id@,
                path: path@,
                started_at,
            },
            EngineEvent::SessionEnded { session_id } => EngineEventModel::SessionEnded {
                session_id: session_id@,
            },
        }
    }
}

/// Failure of an event source.
#[derive(Debug, Clone, PartialEq, Eq)]
#[non_exhaustive]
pub enum EventSourceError {
    /// The source goes on.
    Transient(String),
    /// The source has stopped.
    Fatal(String),
}

} // verus!
