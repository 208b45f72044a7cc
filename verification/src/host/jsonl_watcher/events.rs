//! What the watcher emits.

use vstd::prelude::*;

use crate::engine::clock::Moment;
use crate::text::opt_text;

verus! {

/// An event of a watched directory.
#[derive(Debug, Clone, PartialEq, Eq)]
pub enum WatcherEvent {
    /// The user typed something.
    UserTurn {
        session_id: String,
        event_uuid: String,
        /// The turn before.
        parent_uuid: Option<String>,
        /// Working directory, as the record gives it.
        cwd: String,
        git_branch: Option<String>,
        /// When the record says it happened.
        timestamp: Moment,
        text: String,
        /// Version of the host program.
        cc_version: String,
    },
    /// The user cut the assistant short.
    UserInterrupt {
        session_id: String,
        event_uuid: String,
        parent_uuid: Option<String>,
        timestamp: Moment,
        /// What was cut short, where known.
        interrupted_assistant_text: Option<String>,
    },
    /// A transcript appeared.
    SessionStarted { session_id: String, path: String, started_at: Moment },
    /// A transcript is gone.
    SessionEnded { session_id: String },
    /// Lines that could not be read, reported once for several of them.
    ParseError { session_id: String, offset: u64, raw_line: String, error: String },
}

/// So many unreadable lines in a row are reported as one event.
pub const PARSE_ERROR_REPORT_EVERY: u32 = 5;

/// The model of an event.
#[verifier::ext_equal]
pub enum EventModel {
    UserTurn {
        session_id: Seq<char>,
        event_uuid: Seq<char>,
        parent_uuid: Option<Seq<char>>,
        cwd: Seq<char>,
        git_branch: Option<Seq<char>>,
        timestamp: Moment,
        text: Seq<char>,
        cc_version: Seq<char>,
    },
    UserInterrupt {
        session_id: Seq<char>,
        event_uuid: Seq<char>,
        parent_uuid: Option<Seq<char>>,
        timestamp: Moment,
        interrupted: Option<Seq<char>>,
    },
    SessionStarted { session_id: Seq<char>, path: Seq<char>, started_at: Moment },
    SessionEnded { session_id: Seq<char> },
    ParseError { session_id: Seq<char>, offset: u64, raw_line: Seq<char>, error: Seq<char> },
}

impl View for WatcherEvent {
    type V = EventModel;

    open spec fn view(&self) -> EventModel {
        match *self {
            WatcherEvent::UserTurn {
                session_id,
                event_uuid,
                parent_uuid,
                cwd,
                git_branch,
                timestamp,
                text,
                cc_version,
            } => EventModel::UserTurn {
                session_id: session_id@,
                event_uuid: event_uuid@,
                parent_uuid: opt_text(parent_uuid),
                cwd: cwd@,
                git_branch: opt_text(git_branch),
                timestamp,
                text: text@,
                cc_version: cc_version@,
            },
            WatcherEvent::UserInterrupt {
                session_id,
                event_uuid,
                parent_uuid,
                timestamp,
                interrupted_assistant_text,
            } => EventModel::UserInterrupt {
                session_id: session_id@,
                event_uuid: event_uuid@,
                parent_uuid: opt_text(parent_uuid),
                timestamp,
                interrupted: opt_text(interrupted_assistant_text),
            },
            WatcherEvent::SessionStarted { session_id, path, started_at } =>
                EventModel::SessionStarted { session_id: session_id@, path: path@, started_at },
            WatcherEvent::SessionEnded { session_id } => EventModel::SessionEnded {
                session_id: session_id@,
            },
            WatcherEvent::ParseError { session_id, offset, raw_line, error } =>
                EventModel::ParseError {
                session_id: session_id@,
                offset,
                raw_line: raw_line@,
                error: error@,
            },
        }
    }
}

} // verus!
