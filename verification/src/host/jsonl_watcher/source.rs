//! The watcher as a source of engine events.

use vstd::prelude::*;

use super::events::{EventModel, WatcherEvent};
use crate::engine::events::{EngineEvent, EngineEventModel, EventSourceError};
use crate::path::{base_of, file_name};
use crate::text::{
    concat3, decimal, has_suffix, law_a_part_occurs_in_the_whole, occurs_in, opt_text, push_u64,
};

verus! {

/// A watched directory.
#[derive(Debug, Clone, PartialEq, Eq)]
pub struct JsonlWatcherSource {
    dir: String,
}

impl JsonlWatcherSource {
    pub closed spec fn dir_text(self) -> Seq<char> {
        self.dir@
    }

    pub fn new(dir: String) -> (s: JsonlWatcherSource)
        ensures
            s.dir_text() == dir@,
    {
        JsonlWatcherSource { dir }
    }

    /// The directory.
    pub fn dir(&self) -> (d: &str)
        ensures
            d@ == self.dir_text(),
    {
        self.dir.as_str()
    }

    /// Name for logs.
    pub fn name(&self) -> (n: &'static str)
        ensures
            n@ == "jsonl_watcher"@,
    {
        "jsonl_watcher"
    }
}

/// The tag of a project: the branch, or the last part of the working directory.
pub open spec fn tag_of(branch: Option<Seq<char>>, cwd: Seq<char>) -> Option<Seq<char>> {
    match branch {
        Some(b) => if b.len() > 0 {
            Some(b)
        } else {
            base_of(cwd)
        },
        None => base_of(cwd),
    }
}

/// Derives the tag of a project.
pub fn derive_project_tag(git_branch: &Option<String>, cwd: &str) -> (tag: Option<String>)
    ensures
        opt_text(tag) == tag_of(opt_text(*git_branch), cwd@),
{
    if let Some(branch) = git_branch {
        if !branch.as_str().is_empty() {
            return Some(branch.clone());
        }
    }
    file_name(cwd)
}

/// The engine's event for one of the watcher's, or the message of a passing failure.
pub open spec fn translated(e: EventModel) -> Result<EngineEventModel, Seq<char>> {
    match e {
        EventModel::UserTurn {
            session_id,
            event_uuid,
            parent_uuid,
            cwd,
            git_branch,
            timestamp,
            text,
            cc_version,
        } => Ok(
            EngineEventModel::UserTurn {
                session_id,
                event_uuid,
                parent_event_uuid: parent_uuid,
                text,
                timestamp,
                cwd: Some(cwd),
                host_version: Some(cc_version),
                project_tag: tag_of(git_branch, cwd),
            },
        ),
        EventModel::UserInterrupt { session_id, event_uuid, parent_uuid, timestamp, .. } => Ok(
            EngineEventModel::UserInterrupt {
                session_id,
                event_uuid,
                parent_event_uuid: parent_uuid,
                timestamp,
            },
        ),
        EventModel::SessionStarted { session_id, path, started_at } => Ok(
            EngineEventModel::SessionStarted { session_id, path, started_at },
        ),
        EventModel::SessionEnded { session_id } => Ok(
            EngineEventModel::SessionEnded { session_id },
        ),
        EventModel::ParseError { session_id, offset, error, .. } => Err(
            "session="@ + session_id + " offset="@ + decimal(offset as nat) + ": "@ + error,
        ),
    }
}

/// Turns an event of the watcher into one of the engine. Unreadable lines are a passing failure.
pub fn translate(w: WatcherEvent) -> (r: Result<EngineEvent, EventSourceError>)
    ensures
        match translated(w@) {
            Ok(e) => r is Ok && r->Ok_0@ == e,
            Err(m) => r is Err && (r->Err_0 matches EventSourceError::Transient(t) && t@ == m),
        },
{
    match w {
        WatcherEvent::UserTurn {
            session_id,
            event_uuid,
            parent_uuid,
            cwd,
            git_branch,
            timestamp,
            text,
            cc_version,
        } => {
            let project_tag = derive_project_tag(&git_branch, cwd.as_str());
            Ok(
                EngineEvent::UserTurn {
                    session_id,
                    event_uuid,
                    parent_event_uuid: parent_uuid,
                    text,
                    timestamp,
                    cwd: Some(cwd),
                    host_version: Some(cc_version),
                    project_tag,
                },
            )
        },
        WatcherEvent::UserInterrupt { session_id, event_uuid, parent_uuid, timestamp, .. } => Ok(
            EngineEvent::UserInterrupt {
                session_id,
                event_uuid,
                parent_event_uuid: parent_uuid,
                timestamp,
            },
        ),
        WatcherEvent::SessionStarted { session_id, path, started_at } => Ok(
            EngineEvent::SessionStarted { session_id, path, started_at },
        ),
        WatcherEvent::SessionEnded { session_id } => Ok(EngineEvent::SessionEnded { session_id }),
        WatcherEvent::ParseError { session_id, offset, error, .. } => {
            let mut m = concat3("session=", session_id.as_str(), " offset=");
            push_u64(&mut m, offset);
            m.append(": ");
            m.append(error.as_str());
            Err(EventSourceError::Transient(m))
        },
    }
}

// ---- Laws --------------------------------------------------------------------

/// A turn is handed on with everything that is known of it; its project is the branch, or where
/// there is none the name of the working directory.
pub proof fn law_turns_are_handed_on(w: WatcherEvent, r: Result<EngineEvent, EventSourceError>)
    requires
        call_ensures(translate, (w,), r),
        w is UserTurn,
    ensures
        r matches Ok(
            EngineEvent::UserTurn {
                session_id,
                event_uuid,
                parent_event_uuid,
                text,
                timestamp,
                cwd,
                host_version,
                project_tag,
            },
        ) && {
            &&& session_id@ == w->UserTurn_session_id@
            &&& event_uuid@ == w->UserTurn_event_uuid@
            &&& opt_text(parent_event_uuid) == opt_text(w->UserTurn_parent_uuid)
            &&& text@ == w->text@
            &&& timestamp == w->UserTurn_timestamp
            &&& opt_text(cwd) == Some(w->cwd@)
            &&& opt_text(host_version) == Some(w->cc_version@)
            &&& w->git_branch is Some && w->git_branch->0@.len() > 0 ==> opt_text(project_tag)
                == Some(w->git_branch->0@)
            &&& w->git_branch is None || w->git_branch->0@.len() == 0 ==> opt_text(project_tag)
                == base_of(w->cwd@)
        },
{
    assert(r is Ok);
    assert(r->Ok_0@ is UserTurn);
}

/// Interrupts, starts and ends of sessions are handed on as they are; unreadable lines are a
/// transient fault.
pub proof fn law_other_events_are_handed_on(
    w: WatcherEvent,
    r: Result<EngineEvent, EventSourceError>,
)
    requires
        call_ensures(translate, (w,), r),
    ensures
        w is UserInterrupt ==> (r matches Ok(
            EngineEvent::UserInterrupt { session_id, event_uuid, parent_event_uuid, timestamp },
        ) && {
            &&& session_id@ == w->UserInterrupt_session_id@
            &&& event_uuid@ == w->UserInterrupt_event_uuid@
            &&& opt_text(parent_event_uuid) == opt_text(w->UserInterrupt_parent_uuid)
            &&& timestamp == w->UserInterrupt_timestamp
        }),
        w is SessionStarted ==> (r matches Ok(
            EngineEvent::SessionStarted { session_id, path, started_at },
        ) && {
            &&& session_id@ == w->SessionStarted_session_id@
            &&& path@ == w->path@
            &&& started_at == w->started_at
        }),
        w is SessionEnded ==> (r matches Ok(EngineEvent::SessionEnded { session_id }) && session_id@
            == w->SessionEnded_session_id@),
        w is ParseError <==> r is Err,
        r matches Err(e) ==> {
            &&& e matches EventSourceError::Transient(m)
            &&& has_suffix(m@, w->error@)
            &&& occurs_in(m@, w->ParseError_session_id@)
        },
{
    if let Err(e) = r {
        let session = w->ParseError_session_id@;
        let a = "session="@;
        let b = " offset="@ + decimal(w->offset as nat) + ": "@;
        let m = translated(w@)->Err_0;
        assert(m =~= a + session + (b + w->error@));
        law_a_part_occurs_in_the_whole(a, session, b + w->error@, m);
        assert(m =~= (a + session + b) + w->error@);
        law_a_part_occurs_in_the_whole(a + session + b, w->error@, Seq::empty(), m);
    } else {
        match w {
            WatcherEvent::UserInterrupt { .. } => assert(r->Ok_0@ is UserInterrupt),
            WatcherEvent::SessionStarted { .. } => assert(r->Ok_0@ is SessionStarted),
            WatcherEvent::SessionEnded { .. } => assert(r->Ok_0@ is SessionEnded),
            _ => {},
        }
    }
}

} // verus!
