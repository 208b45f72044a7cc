//! What the watcher does when a file changes. The host watches the directory, looks at the files
//! and reads them; what to read, and what comes of it, is decided here.

use vstd::prelude::*;

use super::cursor::{
    CursorAction, CursorModel, FileCursor, FileStat, ReadAppendedResult, classified, session_of,
};
use super::events::{EventModel, PARSE_ERROR_REPORT_EVERY, WatcherEvent};
use super::parser::{OutcomeModel, ParseOutcome, line_outcome, parse_line};
use crate::engine::clock::Moment;
use crate::path::{
    base_of, extension, extension_of, file_name, is_name, law_a_name_is_stem_and_extension,
    law_a_path_ends_in_its_name, lemma_last_dot,
};
use crate::text::{from_chars, has_prefix, same_text, texts, to_chars};

verus! {

/// Most bytes taken in one read.
pub const MAX_APPEND_READ: u64 = 1_048_576;

/// Most reads for one change.
pub const MAX_ITER: u32 = 64;

/// Most characters of an unreadable line in a report.
pub const MAX_RAW_LINE: usize = 200;

/// What happened to a path.
#[derive(Debug, Clone, Copy, PartialEq, Eq, Structural)]
pub enum PathChangeKind {
    Create,
    Modify,
    Remove,
    Other,
}

/// Whether a path is that of a transcript.
pub open spec fn is_transcript_path(path: Seq<char>) -> bool {
    match base_of(path) {
        Some(name) => extension_of(name) == Some("jsonl"@),
        None => false,
    }
}

/// Whether a path is that of a transcript.
pub fn is_transcript(path: &str) -> (b: bool)
    ensures
        b == is_transcript_path(path@),
{
    match file_name(path) {
        Some(name) => match extension(name.as_str()) {
            Some(e) => same_text(e.as_str(), "jsonl"),
            None => false,
        },
        None => false,
    }
}

/// What a change asks for.
#[derive(Debug, Clone, PartialEq, Eq)]
pub enum ChangePlan {
    /// Nothing.
    Ignore,
    /// Forget the cursor and emit the event.
    End(WatcherEvent),
    /// Read on with the cursor there is.
    Advance,
    /// Emit that the session started, make a cursor and read on with it. A file that was born
    /// under watch is read from its beginning; of any other only what comes now counts.
    Open { from_start: bool },
}

/// Decides what a change asks for; `known` says whether there is a cursor for the path.
pub fn plan_change(path: &str, kind: PathChangeKind, known: bool) -> (plan: ChangePlan)
    ensures
        match plan {
            ChangePlan::Ignore => kind == PathChangeKind::Remove && !known,
            ChangePlan::End(e) => kind == PathChangeKind::Remove && known && e@
                == (EventModel::SessionEnded { session_id: session_of(path@) }),
            ChangePlan::Advance => kind != PathChangeKind::Remove && known,
            ChangePlan::Open { from_start } => kind != PathChangeKind::Remove && !known
                && from_start == (kind == PathChangeKind::Create),
        },
{
    match kind {
        PathChangeKind::Remove => {
            if known {
                ChangePlan::End(
                    WatcherEvent::SessionEnded {
                        session_id: FileCursor::session_id_from_path(path),
                    },
                )
            } else {
                ChangePlan::Ignore
            }
        },
        PathChangeKind::Create => {
            if known {
                ChangePlan::Advance
            } else {
                ChangePlan::Open { from_start: true }
            }
        },
        _ => {
            if known {
                ChangePlan::Advance
            } else {
                ChangePlan::Open { from_start: false }
            }
        },
    }
}

/// What to do next for a file.
#[derive(Debug, Clone, PartialEq, Eq)]
pub enum ReadStep {
    /// There is nothing to read.
    Done,
    /// The file is gone; emit the event.
    Ended(WatcherEvent),
    /// Read so many bytes from there.
    Read { from: u64, count: u64 },
}

/// The smaller of a size and what one read takes.
pub open spec fn capped(n: u64) -> u64 {
    if n < MAX_APPEND_READ {
        n
    } else {
        MAX_APPEND_READ
    }
}

fn cap(n: u64) -> (c: u64)
    ensures
        c == capped(n),
{
    if n < MAX_APPEND_READ {
        n
    } else {
        MAX_APPEND_READ
    }
}

/// Takes in a look at the file and says what to read.
pub fn next_read(cursor: &mut FileCursor, stat: Option<FileStat>) -> (step: ReadStep)
    ensures
        final(cursor)@ == classified(old(cursor)@, stat).0,
        match step {
            ReadStep::Done => classified(old(cursor)@, stat).1 == CursorAction::NoChange,
            ReadStep::Ended(e) => stat is None && e@ == (EventModel::SessionEnded {
                session_id: old(cursor)@.session_id,
            }),
            ReadStep::Read { from, count } => {
                &&& from == final(cursor)@.offset
                &&& match classified(old(cursor)@, stat).1 {
                    CursorAction::Append { read_bytes } => count == capped(read_bytes),
                    CursorAction::ReplayFromStart { total_bytes } => count == capped(total_bytes),
                    _ => false,
                }
            },
        },
{
    match cursor.classify(stat) {
        CursorAction::NoChange => ReadStep::Done,
        CursorAction::Removed => ReadStep::Ended(
            WatcherEvent::SessionEnded { session_id: cursor.session_id.clone() },
        ),
        CursorAction::Append { read_bytes } => ReadStep::Read {
            from: cursor.offset,
            count: cap(read_bytes),
        },
        CursorAction::ReplayFromStart { total_bytes } => ReadStep::Read {
            from: 0,
            count: cap(total_bytes),
        },
    }
}

/// The beginning of an unreadable line.
pub open spec fn shortened(line: Seq<char>) -> Seq<char> {
    if line.len() > MAX_RAW_LINE {
        line.take(MAX_RAW_LINE as int)
    } else {
        line
    }
}

/// What the outcome of a line makes of a cursor, and the event that comes of it. Unreadable lines
/// are counted and reported once for several of them.
pub open spec fn processed(
    c: CursorModel,
    line: Seq<char>,
    outcome: OutcomeModel,
) -> (CursorModel, Option<EventModel>) {
    match outcome {
        OutcomeModel::Event(e) => (CursorModel { parse_error_count: 0, ..c }, Some(e)),
        OutcomeModel::Skip(_) => (CursorModel { parse_error_count: 0, ..c }, None),
        OutcomeModel::Error(m) => if c.parse_error_count + 1 >= PARSE_ERROR_REPORT_EVERY {
            (
                CursorModel { parse_error_count: 0, ..c },
                Some(
                    EventModel::ParseError {
                        session_id: c.session_id,
                        offset: c.offset,
                        raw_line: shortened(line),
                        error: m,
                    },
                ),
            )
        } else {
            (CursorModel { parse_error_count: (c.parse_error_count + 1) as u32, ..c }, None)
        },
    }
}

fn shorten(line: &str) -> (s: String)
    ensures
        s@ == shortened(line@),
{
    let chars = to_chars(line);
    if chars.len() > MAX_RAW_LINE {
        proof {
            assert(chars@.subrange(0, MAX_RAW_LINE as int) =~= chars@.take(MAX_RAW_LINE as int));
        }
        from_chars(&chars, 0, MAX_RAW_LINE)
    } else {
        line.to_owned()
    }
}

/// Takes in the outcome of a line.
pub fn process_outcome(cursor: &mut FileCursor, line: &str, outcome: ParseOutcome) -> (event:
    Option<WatcherEvent>)
    ensures
        final(cursor)@ == processed(old(cursor)@, line@, outcome@).0,
        match processed(old(cursor)@, line@, outcome@).1 {
            Some(e) => event is Some && event->0@ == e,
            None => event is None,
        },
{
    match outcome {
        ParseOutcome::Event(e) => {
            cursor.parse_error_count = 0;
            Some(e)
        },
        ParseOutcome::Skip(_) => {
            cursor.parse_error_count = 0;
            None
        },
        ParseOutcome::Error(m) => {
            cursor.parse_error_count = cursor.parse_error_count.saturating_add(1);
            if cursor.parse_error_count >= PARSE_ERROR_REPORT_EVERY {
                cursor.parse_error_count = 0;
                Some(
                    WatcherEvent::ParseError {
                        session_id: cursor.session_id.clone(),
                        offset: cursor.offset,
                        raw_line: shorten(line),
                        error: m,
                    },
                )
            } else {
                None
            }
        },
    }
}

/// Reads one line.
pub fn process_line(cursor: &mut FileCursor, line: &str) -> (event: Option<WatcherEvent>)
    ensures
        ({
            let (c, e) = processed(
                old(cursor)@,
                line@,
                line_outcome(line@, old(cursor)@.session_id),
            );
            &&& final(cursor)@ == c
            &&& match e {
                Some(m) => event is Some && event->0@ == m,
                None => event is None,
            }
        }),
{
    let outcome = parse_line(line, cursor.session_id.as_str());
    process_outcome(cursor, line, outcome)
}

/// What a list of lines makes of a cursor, and the events that come of it.
pub open spec fn processed_all(c: CursorModel, lines: Seq<Seq<char>>) -> (
    CursorModel,
    Seq<EventModel>,
)
    decreases lines.len(),
{
    if lines.len() == 0 {
        (c, seq![])
    } else {
        let (d, events) = processed_all(c, lines.drop_last());
        let (e, event) = processed(d, lines.last(), line_outcome(lines.last(), d.session_id));
        (
            e,
            match event {
                Some(m) => events.push(m),
                None => events,
            },
        )
    }
}

/// The models of a list of events.
pub open spec fn event_models(v: Seq<WatcherEvent>) -> Seq<EventModel> {
    v.map_values(|e: WatcherEvent| e@)
}

/// What follows a read.
#[derive(Debug, Clone, Copy, PartialEq, Eq, Structural)]
pub enum AfterRead {
    /// Nothing is left to read.
    CaughtUp,
    /// The read was as long as reads get: there may be more.
    ReadOn,
    /// There may be more, but that was the last read for this change; worth a warning.
    GiveUp,
}

/// What a read led to.
#[derive(Debug, PartialEq, Eq)]
pub struct ReadOutcome {
    pub events: Vec<WatcherEvent>,
    pub next: AfterRead,
}

/// What follows a read of `count` bytes that `reads` others went before.
pub open spec fn after_read(count: u64, reads: u32) -> AfterRead {
    if count < MAX_APPEND_READ {
        AfterRead::CaughtUp
    } else if reads + 1 < MAX_ITER {
        AfterRead::ReadOn
    } else {
        AfterRead::GiveUp
    }
}

/// Takes in what was read from `from` on, where `count` bytes were asked for; `reads` counts the reads
/// that went before for the same change.
pub fn take_read(
    cursor: &mut FileCursor,
    from: u64,
    count: u64,
    result: &ReadAppendedResult,
    reads: u32,
) -> (outcome: ReadOutcome)
    requires
        result.fragment_len <= result.actual_read,
        from + result.actual_read <= u64::MAX,
    ensures
        ({
            let (c, events) = processed_all(old(cursor)@, texts(result.lines@));
            &&& event_models(outcome.events@) == events
            &&& final(cursor)@ == (CursorModel {
                offset: (from + result.actual_read - result.fragment_len) as u64,
                ..c
            })
            &&& outcome.next == after_read(count, reads)
        }),
{
    let ghost before = cursor@;
    let ghost lines = texts(result.lines@);
    let mut events: Vec<WatcherEvent> = Vec::new();
    let mut i: usize = 0;
    proof {
        assert(event_models(events@) =~= processed_all(before, lines.take(0)).1);
    }
    while i < result.lines.len()
        invariant
            i <= result.lines.len(),
            lines == texts(result.lines@),
            cursor@ == processed_all(before, lines.take(i as int)).0,
            event_models(events@) == processed_all(before, lines.take(i as int)).1,
        decreases result.lines.len() - i,
    {
        let ghost seen = event_models(events@);
        proof {
            assert(lines.take(i + 1).drop_last() =~= lines.take(i as int));
            assert(lines.take(i + 1).last() == result.lines@[i as int]@);
        }
        if let Some(event) = process_line(cursor, result.lines[i].as_str()) {
            let ghost m = event@;
            events.push(event);
            proof {
                assert(event_models(events@) =~= seen.push(m));
            }
        }
        i += 1;
    }
    proof {
        assert(lines.take(lines.len() as int) =~= lines);
    }
    cursor.offset = from + result.advance();
    let next = if count < MAX_APPEND_READ {
        AfterRead::CaughtUp
    } else if reads < MAX_ITER - 1 {
        AfterRead::ReadOn
    } else {
        AfterRead::GiveUp
    };
    ReadOutcome { events, next }
}

/// Announces a transcript that was not known.
pub fn session_started(path: &str, started_at: Moment) -> (e: WatcherEvent)
    ensures
        e@ == (EventModel::SessionStarted {
            session_id: session_of(path@),
            path: path@,
            started_at,
        }),
{
    WatcherEvent::SessionStarted {
        session_id: FileCursor::session_id_from_path(path),
        path: path.to_owned(),
        started_at,
    }
}

// ---- Laws --------------------------------------------------------------------

/// Unreadable lines are reported once for every five in a row, and a readable one starts the count
/// again.
pub proof fn law_parse_errors_are_batched(c: CursorModel, line: Seq<char>, outcome: OutcomeModel)
    requires
        c.parse_error_count < PARSE_ERROR_REPORT_EVERY,
    ensures
        ({
            let (d, event) = processed(c, line, outcome);
            &&& d.parse_error_count < PARSE_ERROR_REPORT_EVERY
            &&& outcome is Error ==> (event is Some <==> c.parse_error_count
                == PARSE_ERROR_REPORT_EVERY - 1)
            &&& outcome is Error && event is None ==> d.parse_error_count == c.parse_error_count + 1
            &&& outcome is Error && event is Some ==> event->0 is ParseError && d.parse_error_count
                == 0
            &&& !(outcome is Error) ==> d.parse_error_count == 0
        }),
{
}

/// Lines change nothing of a cursor but the count of unreadable ones, and give at most one event
/// each.
pub proof fn law_lines_only_count_errors(c: CursorModel, lines: Seq<Seq<char>>)
    ensures
        ({
            let (d, events) = processed_all(c, lines);
            &&& d == (CursorModel { parse_error_count: d.parse_error_count, ..c })
            &&& events.len() <= lines.len()
        }),
    decreases lines.len(),
{
    if lines.len() > 0 {
        law_lines_only_count_errors(c, lines.drop_last());
    }
}

/// A change leads to no more reads than are allowed, and reading stops before only where the file is
/// caught up with.
pub proof fn law_reads_per_change_are_bounded(count: u64, reads: u32)
    ensures
        after_read(count, reads) is ReadOn ==> reads + 1 < MAX_ITER,
        after_read(count, reads) is GiveUp ==> reads + 1 >= MAX_ITER && count >= MAX_APPEND_READ,
        after_read(count, reads) is CaughtUp <==> count < MAX_APPEND_READ,
{
}

/// A read that is not as long as reads get leaves nothing unread: the cursor is at the end of the
/// file or at the beginning of an unfinished line.
pub proof fn law_short_reads_catch_up(c: CursorModel, s: FileStat)
    ensures
        ({
            let (d, action) = classified(c, Some(s));
            match action {
                CursorAction::Append { read_bytes } => capped(read_bytes) < MAX_APPEND_READ
                    ==> d.offset + capped(read_bytes) == s.size,
                CursorAction::ReplayFromStart { total_bytes } => capped(total_bytes)
                    < MAX_APPEND_READ ==> d.offset + capped(total_bytes) == s.size,
                CursorAction::NoChange => d.offset == s.size,
                CursorAction::Removed => false,
            }
        }),
{
}

/// A read takes what is there, but never more than a mebibyte; after 64 full reads for one change it
/// stops.
pub proof fn law_reads_are_capped(n: u64, reads: u32)
    ensures
        capped(n) <= 1_048_576,
        n <= 1_048_576 ==> capped(n) == n,
        n > 1_048_576 ==> capped(n) == 1_048_576,
        n < 1_048_576 ==> after_read(n, reads) is CaughtUp,
        n >= 1_048_576 && reads < 63 ==> after_read(n, reads) is ReadOn,
        n >= 1_048_576 && reads >= 63 ==> after_read(n, reads) is GiveUp,
{
}

/// A readable line is reported as what it is and clears the count of unreadable ones. Every fifth
/// unreadable line in a row is reported, with its error, where it was read and its first 200
/// characters; the others are only counted.
pub proof fn law_lines_are_reported(c: CursorModel, line: Seq<char>, outcome: OutcomeModel)
    ensures
        ({
            let (d, event) = processed(c, line, outcome);
            &&& outcome matches OutcomeModel::Event(e) ==> event == Some(e) && d.parse_error_count
                == 0
            &&& outcome is Skip ==> event is None && d.parse_error_count == 0
            &&& outcome is Error && c.parse_error_count < 4 ==> event is None && d.parse_error_count
                == c.parse_error_count + 1
            &&& outcome is Error && c.parse_error_count >= 4 ==> {
                &&& event matches Some(
                    EventModel::ParseError { session_id, offset, raw_line, error },
                )
                &&& session_id == c.session_id
                &&& offset == c.offset
                &&& error == outcome->Error_0
                &&& has_prefix(line, raw_line)
                &&& line.len() <= 200 ==> raw_line == line
                &&& line.len() > 200 ==> raw_line.len() == 200
                &&& d.parse_error_count == 0
            }
            &&& d.session_id == c.session_id
            &&& d.offset == c.offset
            &&& d.path == c.path
            &&& d.inode == c.inode
        }),
{
    assert(line.subrange(0, line.len() as int) =~= line);
    if line.len() > 200 {
        assert(line.subrange(0, 200) =~= line.take(200));
    }
}

/// Lines are worked off one after the other: first some, then the others from where those left off.
pub proof fn law_lines_are_worked_off_in_order(
    c: CursorModel,
    first: Seq<Seq<char>>,
    then: Seq<Seq<char>>,
)
    ensures
        ({
            let (d, some) = processed_all(c, first);
            let (e, others) = processed_all(d, then);
            processed_all(c, first + then) == (e, some + others)
        }),
        first.len() == 1 ==> {
            let (d, event) = processed(c, first[0], line_outcome(first[0], c.session_id));
            processed_all(c, first) == (
                d,
                match event {
                    Some(m) => seq![m],
                    None => seq![],
                },
            )
        },
    decreases then.len(),
{
    let (d, some) = processed_all(c, first);
    if then.len() > 0 {
        let all = first + then;
        assert(all.drop_last() =~= first + then.drop_last());
        assert(all.last() == then.last());
        law_lines_are_worked_off_in_order(c, first, then.drop_last());
        let (e, others) = processed_all(d, then);
        assert(processed_all(c, all).1 =~= some + others);
    } else {
        assert(first + then =~= first);
        assert(some + processed_all(d, then).1 =~= some);
    }
    if first.len() == 1 {
        assert(first.drop_last().len() == 0);
        assert(first.last() == first[0]);
        let before = processed_all(c, first.drop_last());
        assert(before == (c, Seq::<EventModel>::empty()));
        let (e, event) = processed(c, first[0], line_outcome(first[0], c.session_id));
        if let Some(m) = event {
            assert(before.1.push(m) =~= seq![m]);
        }
    }
}

/// What is named with the extension `jsonl` is a transcript, whatever directory it stands in; what
/// is named with another or none is not.
pub proof fn law_transcripts_are_told_by_extension(
    path: &str,
    b: bool,
    dir: Seq<char>,
    stem: Seq<char>,
    extension: Seq<char>,
)
    requires
        call_ensures(is_transcript, (path,), b),
        dir.len() > 0 ==> dir.last() == '/',
        stem.len() > 0,
        is_name(stem + seq!['.'] + extension),
        forall|i: int| 0 <= i < extension.len() ==> (#[trigger] extension[i]) != '.',
        path@ == dir + (stem + seq!['.'] + extension),
    ensures
        b <==> extension == "jsonl"@,
{
    law_a_name_is_stem_and_extension(stem, extension);
    law_a_path_ends_in_its_name(dir, stem + seq!['.'] + extension);
}

/// A file without an extension is no transcript.
pub proof fn law_files_without_extension_are_no_transcripts(
    path: &str,
    b: bool,
    dir: Seq<char>,
    name: Seq<char>,
)
    requires
        call_ensures(is_transcript, (path,), b),
        dir.len() > 0 ==> dir.last() == '/',
        is_name(name),
        forall|i: int| 0 < i < name.len() ==> (#[trigger] name[i]) != '.',
        path@ == dir + name,
    ensures
        !b,
{
    law_a_path_ends_in_its_name(dir, name);
    if name[0] == '.' {
        lemma_last_dot(name, 0);
    } else {
        lemma_last_dot(name, -1);
    }
}

/// What becomes of a changed path: a known transcript that is gone ends its session, one that is
/// there is read on; an unknown one is opened, from its beginning if it was just created; what is
/// unknown and gone is nothing.
pub proof fn law_changes_are_planned(path: &str, kind: PathChangeKind, known: bool, plan: ChangePlan)
    requires
        call_ensures(plan_change, (path, kind, known), plan),
    ensures
        kind == PathChangeKind::Remove && known ==> plan is End && plan->End_0@
            == (EventModel::SessionEnded { session_id: session_of(path@) }),
        kind == PathChangeKind::Remove && !known ==> plan is Ignore,
        kind != PathChangeKind::Remove && known ==> plan is Advance,
        kind == PathChangeKind::Create && !known ==> plan == (ChangePlan::Open { from_start: true }),
        (kind == PathChangeKind::Modify || kind == PathChangeKind::Other) && !known ==> plan == (
        ChangePlan::Open { from_start: false }),
{
}

} // verus!
