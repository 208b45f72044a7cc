//! From one line of a transcript to an event.
//!
//! A line is a user turn if it is of type `user`, neither meta nor from a sidechain, holds no tool
//! result and some text. Text that begins with the mark of an interrupt is an interrupt; a slash
//! command is left out.

use vstd::prelude::*;

use super::events::{EventModel, WatcherEvent};
use crate::engine::clock::{Moment, moment_of, parse_rfc3339, rfc3339_instant};
use crate::json::{
    JsonNode, NodeModel, bool_field, decode, json_of, node_field, string_field,
};
use crate::text::{
    clone_opt, concat2, contains_text, has_prefix, has_suffix, is_blank, is_space,
    law_a_part_occurs_in_the_whole, lemma_trimmed_start, occurs_in, opt_text, same_text,
    starts_with, texts, trim_start, trimmed_start, trims_to_nothing,
};

verus! {

/// What became of a line.
#[derive(Debug, Clone, PartialEq, Eq)]
#[non_exhaustive]
pub enum ParseOutcome {
    Event(WatcherEvent),
    /// Readable, but of no interest.
    Skip(SkipReason),
    /// Not readable, or without a field it must have.
    Error(String),
}

/// Why a line is of no interest.
#[derive(Debug, Clone, Copy, PartialEq, Eq, Structural)]
#[non_exhaustive]
pub enum SkipReason {
    /// Not of type `user`.
    NotUserType,
    /// Put in by the host program.
    IsMeta,
    /// From a subagent.
    IsSidechain,
    /// A tool result, not typed.
    ToolResultContent,
    /// A slash command.
    SlashCommandSentinel,
    NoText,
}

/// The model of an outcome.
#[verifier::ext_equal]
pub enum OutcomeModel {
    Event(EventModel),
    Skip(SkipReason),
    Error(Seq<char>),
}

impl View for ParseOutcome {
    type V = OutcomeModel;

    open spec fn view(&self) -> OutcomeModel {
        match *self {
            ParseOutcome::Event(e) => OutcomeModel::Event(e@),
            ParseOutcome::Skip(r) => OutcomeModel::Skip(r),
            ParseOutcome::Error(m) => OutcomeModel::Error(m@),
        }
    }
}

/// One block of a message.
#[derive(Debug, Clone, PartialEq, Eq)]
pub struct ContentBlock {
    pub kind: Option<String>,
    pub text: Option<String>,
}

/// The content of a message.
#[derive(Debug, Clone, PartialEq, Eq)]
pub enum Content {
    /// None, or nothing that holds text.
    Absent,
    Text(String),
    Blocks(Vec<ContentBlock>),
}

/// What a line says that matters here.
#[derive(Debug, Clone, PartialEq, Eq)]
pub struct LineRecord {
    pub kind: Option<String>,
    pub is_meta: Option<bool>,
    pub is_sidechain: Option<bool>,
    pub content: Content,
    pub uuid: Option<String>,
    pub parent_uuid: Option<String>,
    pub cwd: Option<String>,
    pub git_branch: Option<String>,
    pub timestamp: Option<String>,
    pub version: Option<String>,
}

/// The model of a block: its type and its text.
pub type BlockModel = (Option<Seq<char>>, Option<Seq<char>>);

/// The model of a content.
#[verifier::ext_equal]
pub enum ContentModel {
    Absent,
    Text(Seq<char>),
    Blocks(Seq<BlockModel>),
}

/// The models of a list of blocks.
pub open spec fn block_models(blocks: Seq<ContentBlock>) -> Seq<BlockModel> {
    blocks.map_values(|b: ContentBlock| (opt_text(b.kind), opt_text(b.text)))
}

impl View for Content {
    type V = ContentModel;

    open spec fn view(&self) -> ContentModel {
        match *self {
            Content::Absent => ContentModel::Absent,
            Content::Text(s) => ContentModel::Text(s@),
            Content::Blocks(blocks) => ContentModel::Blocks(block_models(blocks@)),
        }
    }
}

/// The model of a line.
#[verifier::ext_equal]
pub struct RecordModel {
    pub kind: Option<Seq<char>>,
    pub is_meta: Option<bool>,
    pub is_sidechain: Option<bool>,
    pub content: ContentModel,
    pub uuid: Option<Seq<char>>,
    pub parent_uuid: Option<Seq<char>>,
    pub cwd: Option<Seq<char>>,
    pub git_branch: Option<Seq<char>>,
    pub timestamp: Option<Seq<char>>,
    pub version: Option<Seq<char>>,
}

impl View for LineRecord {
    type V = RecordModel;

    open spec fn view(&self) -> RecordModel {
        RecordModel {
            kind: opt_text(self.kind),
            is_meta: self.is_meta,
            is_sidechain: self.is_sidechain,
            content: self.content@,
            uuid: opt_text(self.uuid),
            parent_uuid: opt_text(self.parent_uuid),
            cwd: opt_text(self.cwd),
            git_branch: opt_text(self.git_branch),
            timestamp: opt_text(self.timestamp),
            version: opt_text(self.version),
        }
    }
}

/// Whether a block is a tool result.
pub open spec fn has_tool_result(content: ContentModel) -> bool {
    content matches ContentModel::Blocks(blocks) && exists|i: int|
        0 <= i < blocks.len() && (#[trigger] blocks[i]).0 == Some("tool_result"@)
}

/// The texts of the text blocks, on lines of their own; absent where there is no such block.
pub open spec fn joined_blocks(blocks: Seq<BlockModel>) -> Option<Seq<char>>
    decreases blocks.len(),
{
    if blocks.len() == 0 {
        None
    } else {
        let before = joined_blocks(blocks.drop_last());
        match blocks.last() {
            (Some(kind), Some(text)) => if kind == "text"@ {
                match before {
                    Some(b) => if b.len() > 0 {
                        Some(b.push('\n') + text)
                    } else {
                        Some(text)
                    },
                    None => Some(text),
                }
            } else {
                before
            },
            _ => before,
        }
    }
}

/// The text of a content.
pub open spec fn text_of(content: ContentModel) -> Option<Seq<char>> {
    match content {
        ContentModel::Absent => None,
        ContentModel::Text(s) => Some(s),
        ContentModel::Blocks(blocks) => joined_blocks(blocks),
    }
}

/// Whether a text is a slash command.
pub open spec fn is_slash_command(text: Seq<char>) -> bool {
    has_prefix(trimmed_start(text), "<command-name>"@) && occurs_in(
        trimmed_start(text),
        "</command-name>"@,
    )
}

/// The turn in a line. `read` is the moment that its timestamp stands for.
pub open spec fn turn_event(
    r: RecordModel,
    session_id: Seq<char>,
    text: Seq<char>,
    read: Option<Moment>,
) -> Result<EventModel, Seq<char>> {
    if r.uuid is None {
        Err("uuid"@)
    } else if r.cwd is None {
        Err("cwd"@)
    } else if r.timestamp is None {
        Err("timestamp"@)
    } else if read is None {
        Err("parsing timestamp: "@ + r.timestamp->0)
    } else {
        Ok(
            EventModel::UserTurn {
                session_id,
                event_uuid: r.uuid->0,
                parent_uuid: r.parent_uuid,
                cwd: r.cwd->0,
                git_branch: r.git_branch,
                timestamp: read->0,
                text,
                cc_version: match r.version {
                    Some(v) => v,
                    None => "unknown"@,
                },
            },
        )
    }
}

/// The interrupt in a line.
pub open spec fn interrupt_event(
    r: RecordModel,
    session_id: Seq<char>,
    read: Option<Moment>,
) -> Result<EventModel, Seq<char>> {
    if r.uuid is None {
        Err("uuid"@)
    } else if r.timestamp is None {
        Err("timestamp"@)
    } else if read is None {
        Err("parsing timestamp: "@ + r.timestamp->0)
    } else {
        Ok(
            EventModel::UserInterrupt {
                session_id,
                event_uuid: r.uuid->0,
                parent_uuid: r.parent_uuid,
                timestamp: read->0,
                interrupted: None,
            },
        )
    }
}

/// What becomes of a line.
pub open spec fn outcome_of(
    r: RecordModel,
    session_id: Seq<char>,
    read: Option<Moment>,
) -> OutcomeModel {
    if r.kind != Some("user"@) {
        OutcomeModel::Skip(SkipReason::NotUserType)
    } else if r.is_meta == Some(true) {
        OutcomeModel::Skip(SkipReason::IsMeta)
    } else if r.is_sidechain == Some(true) {
        OutcomeModel::Skip(SkipReason::IsSidechain)
    } else if has_tool_result(r.content) {
        OutcomeModel::Skip(SkipReason::ToolResultContent)
    } else {
        match text_of(r.content) {
            None => OutcomeModel::Skip(SkipReason::NoText),
            Some(text) => if is_blank(text) {
                OutcomeModel::Skip(SkipReason::NoText)
            } else if has_prefix(text, "[Request interrupted"@) {
                match interrupt_event(r, session_id, read) {
                    Ok(e) => OutcomeModel::Event(e),
                    Err(m) => OutcomeModel::Error("interrupt event: "@ + m),
                }
            } else if is_slash_command(text) {
                OutcomeModel::Skip(SkipReason::SlashCommandSentinel)
            } else {
                match turn_event(r, session_id, text, read) {
                    Ok(e) => OutcomeModel::Event(e),
                    Err(m) => OutcomeModel::Error("user turn event: "@ + m),
                }
            },
        }
    }
}

fn is_text(o: &Option<String>, expected: &str) -> (b: bool)
    ensures
        b == (opt_text(*o) == Some(expected@)),
{
    match o {
        Some(s) => same_text(s.as_str(), expected),
        None => false,
    }
}

fn is_tool_result_content(content: &Content) -> (b: bool)
    ensures
        b == has_tool_result(content@),
{
    match content {
        Content::Blocks(blocks) => {
            let ghost models = block_models(blocks@);
            let mut i: usize = 0;
            while i < blocks.len()
                invariant
                    i <= blocks.len(),
                    models == block_models(blocks@),
                    content@ == ContentModel::Blocks(models),
                    forall|j: int|
                        0 <= j < i ==> (#[trigger] models[j]).0 != Some("tool_result"@),
                decreases blocks.len() - i,
            {
                if is_text(&blocks[i].kind, "tool_result") {
                    proof {
                        assert(models[i as int].0 == Some("tool_result"@));
                    }
                    return true;
                }
                i += 1;
            }
            false
        },
        _ => false,
    }
}

fn extract_text(content: &Content) -> (r: Option<String>)
    ensures
        match text_of(content@) {
            Some(t) => r is Some && r->0@ == t,
            None => r is None,
        },
{
    match content {
        Content::Absent => None,
        Content::Text(s) => Some(s.clone()),
        Content::Blocks(blocks) => {
            let ghost models = block_models(blocks@);
            let mut out: Option<String> = None;
            let mut i: usize = 0;
            while i < blocks.len()
                invariant
                    i <= blocks.len(),
                    models == block_models(blocks@),
                    opt_text(out) == joined_blocks(models.take(i as int)),
                decreases blocks.len() - i,
            {
                proof {
                    assert(models.take(i + 1).drop_last() =~= models.take(i as int));
                    assert(models.take(i + 1).last() == models[i as int]);
                }
                if is_text(&blocks[i].kind, "text") {
                    if let Some(text) = &blocks[i].text {
                        let mut joined = match out {
                            Some(b) => {
                                let mut b = b;
                                if !b.as_str().is_empty() {
                                    b.push('\n');
                                }
                                b
                            },
                            None => String::new(),
                        };
                        joined.append(text.as_str());
                        out = Some(joined);
                        proof {
                            assert(opt_text(out) =~= joined_blocks(models.take(i + 1)));
                        }
                    }
                }
                i += 1;
            }
            proof {
                assert(models.take(models.len() as int) =~= models);
            }
            out
        },
    }
}

fn is_slash_command_sentinel(text: &str) -> (b: bool)
    ensures
        b == is_slash_command(text@),
{
    let trimmed = trim_start(text);
    starts_with(trimmed.as_str(), "<command-name>") && contains_text(
        trimmed.as_str(),
        "</command-name>",
    )
}

fn build_user_turn(
    record: &LineRecord,
    session_id: &str,
    text: String,
    read: Option<Moment>,
) -> (r: Result<WatcherEvent, String>)
    ensures
        match r {
            Ok(e) => turn_event(record@, session_id@, text@, read) == Ok::<EventModel, Seq<char>>(
                e@,
            ),
            Err(m) => turn_event(record@, session_id@, text@, read) == Err::<
                EventModel,
                Seq<char>,
            >(m@),
        },
{
    let event_uuid = match &record.uuid {
        Some(u) => u.clone(),
        None => return Err("uuid".to_owned()),
    };
    let cwd = match &record.cwd {
        Some(c) => c.clone(),
        None => return Err("cwd".to_owned()),
    };
    let raw = match &record.timestamp {
        Some(t) => t,
        None => return Err("timestamp".to_owned()),
    };
    let timestamp = match read {
        Some(t) => t,
        None => return Err(concat2("parsing timestamp: ", raw.as_str())),
    };
    let cc_version = match &record.version {
        Some(v) => v.clone(),
        None => "unknown".to_owned(),
    };
    Ok(
        WatcherEvent::UserTurn {
            session_id: session_id.to_owned(),
            event_uuid,
            parent_uuid: clone_opt(&record.parent_uuid),
            cwd,
            git_branch: clone_opt(&record.git_branch),
            timestamp,
            text,
            cc_version,
        },
    )
}

fn build_interrupt_event(record: &LineRecord, session_id: &str, read: Option<Moment>) -> (r: Result<
    WatcherEvent,
    String,
>)
    ensures
        match r {
            Ok(e) => interrupt_event(record@, session_id@, read) == Ok::<EventModel, Seq<char>>(
                e@,
            ),
            Err(m) => interrupt_event(record@, session_id@, read) == Err::<EventModel, Seq<char>>(
                m@,
            ),
        },
{
    let event_uuid = match &record.uuid {
        Some(u) => u.clone(),
        None => return Err("uuid".to_owned()),
    };
    let raw = match &record.timestamp {
        Some(t) => t,
        None => return Err("timestamp".to_owned()),
    };
    let timestamp = match read {
        Some(t) => t,
        None => return Err(concat2("parsing timestamp: ", raw.as_str())),
    };
    Ok(
        WatcherEvent::UserInterrupt {
            session_id: session_id.to_owned(),
            event_uuid,
            parent_uuid: clone_opt(&record.parent_uuid),
            timestamp,
            interrupted_assistant_text: None,
        },
    )
}

/// What becomes of a line whose timestamp stands for `read`.
pub fn parse_record(record: &LineRecord, session_id: &str, read: Option<Moment>) -> (outcome:
    ParseOutcome)
    ensures
        outcome@ == outcome_of(record@, session_id@, read),
{
    if !is_text(&record.kind, "user") {
        return ParseOutcome::Skip(SkipReason::NotUserType);
    }
    if let Some(true) = record.is_meta {
        return ParseOutcome::Skip(SkipReason::IsMeta);
    }
    if let Some(true) = record.is_sidechain {
        return ParseOutcome::Skip(SkipReason::IsSidechain);
    }
    if is_tool_result_content(&record.content) {
        return ParseOutcome::Skip(SkipReason::ToolResultContent);
    }
    let text = match extract_text(&record.content) {
        Some(t) => t,
        None => return ParseOutcome::Skip(SkipReason::NoText),
    };
    if trims_to_nothing(text.as_str()) {
        return ParseOutcome::Skip(SkipReason::NoText);
    }
    if starts_with(text.as_str(), "[Request interrupted") {
        return match build_interrupt_event(record, session_id, read) {
            Ok(e) => ParseOutcome::Event(e),
            Err(m) => ParseOutcome::Error(concat2("interrupt event: ", m.as_str())),
        };
    }
    if is_slash_command_sentinel(text.as_str()) {
        return ParseOutcome::Skip(SkipReason::SlashCommandSentinel);
    }
    match build_user_turn(record, session_id, text, read) {
        Ok(e) => ParseOutcome::Event(e),
        Err(m) => ParseOutcome::Error(concat2("user turn event: ", m.as_str())),
    }
}

/// The block that a JSON text stands for.
pub open spec fn block_of(text: Seq<char>) -> BlockModel {
    match json_of(text) {
        Ok(node) => (string_field(node, "type"@), string_field(node, "text"@)),
        Err(_) => (None, None),
    }
}

/// The content that a JSON value stands for.
pub open spec fn content_of(node: Option<NodeModel>) -> ContentModel {
    match node {
        Some(NodeModel::Text(s)) => ContentModel::Text(s),
        Some(NodeModel::Array(items)) => ContentModel::Blocks(
            items.map_values(|t: Seq<char>| block_of(t)),
        ),
        _ => ContentModel::Absent,
    }
}

/// What a line says.
pub open spec fn record_of(node: NodeModel) -> RecordModel {
    RecordModel {
        kind: string_field(node, "type"@),
        is_meta: bool_field(node, "isMeta"@),
        is_sidechain: bool_field(node, "isSidechain"@),
        content: content_of(
            match node_field(node, "message"@) {
                Some(message) => node_field(message, "content"@),
                None => None,
            },
        ),
        uuid: string_field(node, "uuid"@),
        parent_uuid: string_field(node, "parentUuid"@),
        cwd: string_field(node, "cwd"@),
        git_branch: string_field(node, "gitBranch"@),
        timestamp: string_field(node, "timestamp"@),
        version: string_field(node, "version"@),
    }
}

/// The moment that the timestamp of a line stands for.
pub open spec fn moment_in(r: RecordModel) -> Option<Moment> {
    match r.timestamp {
        Some(raw) => moment_of(rfc3339_instant(raw)),
        None => None,
    }
}

fn read_content(node: Option<JsonNode>) -> (content: Content)
    ensures
        content@ == content_of(
            match node {
                Some(n) => Some(n@),
                None => None,
            },
        ),
{
    match node {
        Some(JsonNode::Text(s)) => Content::Text(s),
        Some(JsonNode::Array(items)) => {
            let ghost models = texts(items@);
            let ghost all = models.map_values(|t: Seq<char>| block_of(t));
            let mut blocks: Vec<ContentBlock> = Vec::new();
            let mut i: usize = 0;
            while i < items.len()
                invariant
                    i <= items.len(),
                    models == texts(items@),
                    all == models.map_values(|t: Seq<char>| block_of(t)),
                    block_models(blocks@) == all.take(i as int),
                decreases items.len() - i,
            {
                let block = match decode(items[i].as_str()) {
                    Ok(n) => ContentBlock {
                        kind: n.string_field("type"),
                        text: n.string_field("text"),
                    },
                    Err(_) => ContentBlock { kind: None, text: None },
                };
                blocks.push(block);
                proof {
                    assert(all[i as int] == block_of(items@[i as int]@));
                    assert(block_models(blocks@) =~= all.take(i as int).push(all[i as int]));
                    assert(all.take(i + 1) =~= all.take(i as int).push(all[i as int]));
                }
                i += 1;
            }
            proof {
                assert(all.take(all.len() as int) =~= all);
            }
            Content::Blocks(blocks)
        },
        _ => Content::Absent,
    }
}

/// Picks out what a line says.
pub fn read_record(node: &JsonNode) -> (record: LineRecord)
    ensures
        record@ == record_of(node@),
{
    let content = match node.node_field("message") {
        Some(message) => read_content(message.node_field("content")),
        None => Content::Absent,
    };
    LineRecord {
        kind: node.string_field("type"),
        is_meta: node.bool_field("isMeta"),
        is_sidechain: node.bool_field("isSidechain"),
        content,
        uuid: node.string_field("uuid"),
        parent_uuid: node.string_field("parentUuid"),
        cwd: node.string_field("cwd"),
        git_branch: node.string_field("gitBranch"),
        timestamp: node.string_field("timestamp"),
        version: node.string_field("version"),
    }
}

/// What becomes of a line of the transcript of a session.
pub open spec fn line_outcome(line: Seq<char>, session_id: Seq<char>) -> OutcomeModel {
    match json_of(line) {
        Ok(node) => outcome_of(record_of(node), session_id, moment_in(record_of(node))),
        Err(e) => OutcomeModel::Error("json parse: "@ + e),
    }
}

/// Reads one line of the transcript of a session.
pub fn parse_line(line: &str, session_id: &str) -> (outcome: ParseOutcome)
    ensures
        outcome@ == line_outcome(line@, session_id@),
{
    let node = match decode(line) {
        Ok(node) => node,
        Err(e) => return ParseOutcome::Error(concat2("json parse: ", e.as_str())),
    };
    let record = read_record(&node);
    let read = match &record.timestamp {
        Some(raw) => parse_rfc3339(raw.as_str()),
        None => None,
    };
    parse_record(&record, session_id, read)
}

// ---- Laws --------------------------------------------------------------------

/// Only what the user typed becomes an event: type `user`, not meta, not from a sidechain, not a
/// tool result, with text.
pub proof fn law_events_are_typed_by_the_user(
    r: RecordModel,
    session_id: Seq<char>,
    read: Option<Moment>,
)
    requires
        outcome_of(r, session_id, read) is Event,
    ensures
        r.kind == Some("user"@),
        r.is_meta != Some(true),
        r.is_sidechain != Some(true),
        !has_tool_result(r.content),
        text_of(r.content) is Some,
        !is_blank(text_of(r.content)->0),
{
}

/// The session of an event is the one whose transcript is read, whatever the line says.
pub proof fn law_events_belong_to_their_session(
    r: RecordModel,
    session_id: Seq<char>,
    read: Option<Moment>,
)
    ensures
        match outcome_of(r, session_id, read) {
            OutcomeModel::Event(EventModel::UserTurn { session_id: s, .. }) => s == session_id,
            OutcomeModel::Event(EventModel::UserInterrupt { session_id: s, .. }) => s
                == session_id,
            OutcomeModel::Event(_) => false,
            _ => true,
        },
{
}

/// An interrupt is never reported as a turn.
pub proof fn law_interrupts_are_not_turns(
    r: RecordModel,
    session_id: Seq<char>,
    read: Option<Moment>,
    text: Seq<char>,
)
    requires
        text_of(r.content) == Some(text),
        has_prefix(text, "[Request interrupted"@),
    ensures
        outcome_of(r, session_id, read) matches OutcomeModel::Event(e) ==> e is UserInterrupt,
{
}

/// The texts of the blocks that are of type `text` and hold one.
pub open spec fn text_parts(blocks: Seq<BlockModel>) -> Seq<Seq<char>> {
    blocks.filter(|b: BlockModel| b.0 == Some("text"@) && b.1 is Some).map_values(
        |b: BlockModel| b.1->0,
    )
}

/// Where the part number `i` starts, if each part but the last is followed by one more character.
pub open spec fn part_start(parts: Seq<Seq<char>>, i: int) -> int
    decreases i,
{
    if i <= 0 {
        0
    } else {
        part_start(parts, i - 1) + parts[i - 1].len() + 1
    }
}

/// Whether a text holds the parts one after the other, each but the first on a new line.
pub open spec fn lays_out(parts: Seq<Seq<char>>, text: Seq<char>) -> bool {
    &&& text.len() == part_start(parts, parts.len() as int) - 1
    &&& forall|i: int|
        #![trigger parts[i]]
        0 <= i < parts.len() ==> {
            &&& 0 <= part_start(parts, i)
            &&& part_start(parts, i) + parts[i].len() <= text.len()
            &&& text.subrange(part_start(parts, i), part_start(parts, i) + parts[i].len())
                == parts[i]
            &&& i > 0 ==> text[part_start(parts, i) - 1] == '\n'
        }
}

/// Whether a text is what the parts say together: their lines, without the empty parts before the
/// first that is not.
pub open spec fn reads(parts: Seq<Seq<char>>, text: Seq<char>) -> bool {
    &&& parts.len() > 0
    &&& exists|k: int| #[trigger] reads_from(parts, text, k)
}

/// Whether a text is what the parts from number `k` on say, those before being empty.
pub open spec fn reads_from(parts: Seq<Seq<char>>, text: Seq<char>, k: int) -> bool {
    &&& 0 <= k <= parts.len()
    &&& forall|i: int| 0 <= i < k ==> (#[trigger] parts[i]).len() == 0
    &&& k < parts.len() ==> parts[k].len() > 0 && lays_out(parts.skip(k), text)
    &&& k == parts.len() ==> text.len() == 0
}

/// Whether a content says a text.
pub open spec fn says(content: ContentModel, text: Seq<char>) -> bool {
    match content {
        ContentModel::Absent => false,
        ContentModel::Text(s) => s == text,
        ContentModel::Blocks(blocks) => reads(text_parts(blocks), text),
    }
}

/// Whether a line was typed by the user, as far as its type and marks tell.
pub open spec fn is_typed(r: RecordModel) -> bool {
    r.kind == Some("user"@) && r.is_meta != Some(true) && r.is_sidechain != Some(true)
}

/// Whether a content has a block of type `tool_result`.
pub open spec fn holds_tool_result(content: ContentModel) -> bool {
    &&& content is Blocks
    &&& exists|i: int|
        0 <= i < content->Blocks_0.len() && (#[trigger] content->Blocks_0[i]).0 == Some(
            "tool_result"@,
        )
}

spec fn join_parts(parts: Seq<Seq<char>>) -> Option<Seq<char>>
    decreases parts.len(),
{
    if parts.len() == 0 {
        None
    } else {
        match join_parts(parts.drop_last()) {
            Some(b) => if b.len() > 0 {
                Some(b.push('\n') + parts.last())
            } else {
                Some(parts.last())
            },
            None => Some(parts.last()),
        }
    }
}

proof fn lemma_join_parts(blocks: Seq<BlockModel>)
    ensures
        joined_blocks(blocks) == join_parts(text_parts(blocks)),
    decreases blocks.len(),
{
    let p = |b: BlockModel| b.0 == Some("text"@) && b.1 is Some;
    reveal(Seq::filter);
    if blocks.len() > 0 {
        let rest = blocks.drop_last();
        lemma_join_parts(rest);
        if p(blocks.last()) {
            let parts = text_parts(blocks);
            assert(parts =~= text_parts(rest).push(blocks.last().1->0));
            assert(parts.drop_last() =~= text_parts(rest));
        } else {
            assert(text_parts(blocks) =~= text_parts(rest));
        }
    } else {
        assert(text_parts(blocks).len() == 0);
    }
}

proof fn lemma_part_start(parts: Seq<Seq<char>>, i: int)
    requires
        0 <= i < parts.len(),
    ensures
        part_start(parts.drop_last(), i) == part_start(parts, i),
        0 <= part_start(parts, i),
        i > 0 ==> part_start(parts, i) >= parts[0].len() + 1,
    decreases i,
{
    if i > 0 {
        lemma_part_start(parts, i - 1);
        assert(parts.drop_last()[i - 1] == parts[i - 1]);
    }
}

proof fn lemma_lays_out_but_last(parts: Seq<Seq<char>>, text: Seq<char>)
    requires
        parts.len() > 1,
        lays_out(parts, text),
    ensures
        ({
            let head = text.take(part_start(parts, parts.len() - 1) - 1);
            &&& part_start(parts, parts.len() - 1) >= parts[0].len() + 1
            &&& lays_out(parts.drop_last(), head)
            &&& head.len() >= parts[0].len()
            &&& text == head.push('\n') + parts.last()
        }),
{
    let n = parts.len() - 1;
    let rest = parts.drop_last();
    let at = part_start(parts, n);
    lemma_part_start(parts, n);
    assert(parts[n] == parts.last());
    let head = text.take(at - 1);
    assert(text.subrange(at, at + parts[n].len()) == parts[n]);
    assert(text[at - 1] == '\n');
    assert(text =~= head.push('\n') + parts.last()) by {
        assert forall|i: int| at <= i < text.len() implies text[i] == parts.last()[i - at] by {
            assert(text.subrange(at, at + parts[n].len())[i - at] == text[i]);
        }
    }
    assert forall|i: int| #![trigger rest[i]] 0 <= i < rest.len() implies {
        &&& 0 <= part_start(rest, i)
        &&& part_start(rest, i) + rest[i].len() <= head.len()
        &&& head.subrange(part_start(rest, i), part_start(rest, i) + rest[i].len()) == rest[i]
        &&& i > 0 ==> head[part_start(rest, i) - 1] == '\n'
    } by {
        assert(rest[i] == parts[i]);
        lemma_part_start(parts, i);
        lemma_part_start_grows(parts, i, n);
        assert(head.subrange(part_start(rest, i), part_start(rest, i) + rest[i].len())
            =~= text.subrange(part_start(rest, i), part_start(rest, i) + rest[i].len()));
    }
    lemma_part_start(parts, n - 1);
    assert(rest[n - 1] == parts[n - 1]);
    assert(part_start(rest, n) == part_start(rest, n - 1) + rest[n - 1].len() + 1);
}

proof fn lemma_part_start_grows(parts: Seq<Seq<char>>, i: int, j: int)
    requires
        0 <= i < j,
    ensures
        part_start(parts, i) + parts[i].len() + 1 <= part_start(parts, j),
    decreases j,
{
    if i < j - 1 {
        lemma_part_start_grows(parts, i, j - 1);
    }
}

proof fn lemma_laid_out(parts: Seq<Seq<char>>, text: Seq<char>)
    requires
        parts.len() > 0,
        parts[0].len() > 0,
        lays_out(parts, text),
    ensures
        join_parts(parts) == Some(text),
        text.len() > 0,
    decreases parts.len(),
{
    let rest = parts.drop_last();
    if parts.len() > 1 {
        lemma_lays_out_but_last(parts, text);
        assert(rest[0] == parts[0]);
        lemma_laid_out(rest, text.take(part_start(parts, parts.len() - 1) - 1));
    } else {
        assert(part_start(parts, 1) == part_start(parts, 0) + parts[0].len() + 1);
        assert(text.subrange(0, parts[0].len() as int) == parts[0]);
        assert(text =~= parts[0]);
        assert(join_parts(rest) is None);
    }
}

proof fn lemma_empty_parts(parts: Seq<Seq<char>>)
    requires
        forall|i: int| 0 <= i < parts.len() ==> (#[trigger] parts[i]).len() == 0,
    ensures
        join_parts(parts) is Some ==> join_parts(parts)->0.len() == 0,
        join_parts(parts) is None <==> parts.len() == 0,
    decreases parts.len(),
{
    if parts.len() > 0 {
        let rest = parts.drop_last();
        assert forall|i: int| 0 <= i < rest.len() implies (#[trigger] rest[i]).len() == 0 by {
            assert(rest[i] == parts[i]);
        }
        lemma_empty_parts(rest);
        assert(parts.last() == parts[parts.len() - 1]);
    }
}

/// Empty parts at the beginning do not count.
proof fn lemma_skip_empty_parts(parts: Seq<Seq<char>>, k: int)
    requires
        0 <= k < parts.len(),
        forall|i: int| 0 <= i < k ==> (#[trigger] parts[i]).len() == 0,
    ensures
        join_parts(parts) == join_parts(parts.skip(k)),
    decreases parts.len(),
{
    let rest = parts.drop_last();
    let tail = parts.skip(k);
    assert(tail.last() == parts.last());
    assert forall|i: int| 0 <= i < k implies (#[trigger] rest[i]).len() == 0 by {
        assert(rest[i] == parts[i]);
    }
    if k < rest.len() {
        lemma_skip_empty_parts(rest, k);
        assert(tail.drop_last() =~= rest.skip(k));
    } else {
        lemma_empty_parts(rest);
        assert(tail.drop_last().len() == 0);
    }
}

proof fn lemma_reads(parts: Seq<Seq<char>>, text: Seq<char>)
    requires
        reads(parts, text),
    ensures
        join_parts(parts) == Some(text),
{
    let k = choose|k: int| #[trigger] reads_from(parts, text, k);
    if k < parts.len() {
        lemma_skip_empty_parts(parts, k);
        assert(parts.skip(k)[0] == parts[k]);
        lemma_laid_out(parts.skip(k), text);
    } else {
        lemma_empty_parts(parts);
        assert(join_parts(parts)->0 =~= text);
    }
}

proof fn lemma_says(content: ContentModel, text: Seq<char>)
    requires
        says(content, text),
    ensures
        text_of(content) == Some(text),
{
    if let ContentModel::Blocks(blocks) = content {
        lemma_join_parts(blocks);
        lemma_reads(text_parts(blocks), text);
    }
}

/// Every line says at most one text, and one if it has a block of text.
proof fn lemma_something_is_said(parts: Seq<Seq<char>>)
    requires
        parts.len() > 0,
    ensures
        join_parts(parts) is Some,
        reads(parts, join_parts(parts)->0),
    decreases parts.len(),
{
    let text = join_parts(parts)->0;
    let k = lemma_first_said(parts, 0);
    if k < parts.len() {
        let tail = parts.skip(k);
        lemma_skip_empty_parts(parts, k);
        assert(tail[0] == parts[k]);
        lemma_tail_is_laid_out(tail);
    } else {
        lemma_empty_parts(parts);
    }
    assert(reads_from(parts, text, k));
}

proof fn lemma_first_said(parts: Seq<Seq<char>>, from: int) -> (k: int)
    requires
        0 <= from <= parts.len(),
        forall|i: int| 0 <= i < from ==> (#[trigger] parts[i]).len() == 0,
    ensures
        from <= k <= parts.len(),
        forall|i: int| 0 <= i < k ==> (#[trigger] parts[i]).len() == 0,
        k < parts.len() ==> parts[k].len() > 0,
    decreases parts.len() - from,
{
    if from < parts.len() && parts[from].len() == 0 {
        lemma_first_said(parts, from + 1)
    } else {
        from
    }
}

#[verifier::spinoff_prover]
proof fn lemma_tail_is_laid_out(parts: Seq<Seq<char>>)
    requires
        parts.len() > 0,
        parts[0].len() > 0,
    ensures
        join_parts(parts) is Some,
        join_parts(parts)->0.len() > 0,
        lays_out(parts, join_parts(parts)->0),
    decreases parts.len(),
{
    let text = join_parts(parts)->0;
    let rest = parts.drop_last();
    let n = parts.len() - 1;
    assert(parts.last() == parts[n]);
    if n > 0 {
        assert(rest[0] == parts[0]);
        lemma_tail_is_laid_out(rest);
        let head = join_parts(rest)->0;
        assert(text == head.push('\n') + parts.last());
        lemma_part_start(parts, n - 1);
        assert(rest[n - 1] == parts[n - 1]);
        assert(part_start(rest, n) == part_start(parts, n));
        assert(head.len() == part_start(parts, n) - 1);
        assert(part_start(parts, n + 1) == part_start(parts, n) + parts[n].len() + 1);
        assert forall|i: int| #![trigger parts[i]] 0 <= i < parts.len() implies {
            &&& 0 <= part_start(parts, i)
            &&& part_start(parts, i) + parts[i].len() <= text.len()
            &&& text.subrange(part_start(parts, i), part_start(parts, i) + parts[i].len())
                == parts[i]
            &&& i > 0 ==> text[part_start(parts, i) - 1] == '\n'
        } by {
            lemma_part_start(parts, i);
            let at = part_start(parts, i);
            if i < n {
                assert(rest[i] == parts[i]);
                assert(head.subrange(at, at + rest[i].len()) == rest[i]);
                assert(text.subrange(at, at + parts[i].len()) =~= head.subrange(
                    at,
                    at + rest[i].len(),
                ));
                if i > 0 {
                    assert(text[at - 1] == head[at - 1]);
                }
            } else {
                assert(text.subrange(at, at + parts[n].len()) =~= parts[n]);
            }
        }
    } else {
        assert(join_parts(rest) is None);
        assert(part_start(parts, 1) == part_start(parts, 0) + parts[0].len() + 1);
        assert(text.subrange(0, parts[0].len() as int) =~= parts[0]);
    }
}

/// A text that is said holds every part, so it is blank only where every part is.
proof fn lemma_said_is_blank(parts: Seq<Seq<char>>, text: Seq<char>)
    requires
        reads(parts, text),
    ensures
        is_blank(text) <==> forall|i: int| 0 <= i < parts.len() ==> is_blank(#[trigger] parts[i]),
{
    let k = choose|k: int| #[trigger] reads_from(parts, text, k);
    if k < parts.len() {
        let tail = parts.skip(k);
        assert forall|i: int| 0 <= i < parts.len() && is_blank(text) implies is_blank(
            #[trigger] parts[i],
        ) by {
            if i >= k {
                assert(tail[i - k] == parts[i]);
                let at = part_start(tail, i - k);
                assert forall|c: int| 0 <= c < parts[i].len() implies is_space(
                    #[trigger] parts[i][c],
                ) by {
                    assert(text.subrange(at, at + tail[i - k].len())[c] == text[at + c]);
                    assert(is_space(text[at + c]));
                }
            }
        }
        if forall|i: int| 0 <= i < parts.len() ==> is_blank(#[trigger] parts[i]) {
            assert forall|i: int| 0 <= i < tail.len() implies is_blank(#[trigger] tail[i]) by {
                assert(tail[i] == parts[i + k]);
            }
            assert(tail[0] == parts[k]);
            lemma_blank_parts(tail, text);
        }
    } else {
        assert forall|i: int| 0 <= i < parts.len() implies is_blank(#[trigger] parts[i]) by {}
    }
}

proof fn lemma_blank_parts(parts: Seq<Seq<char>>, text: Seq<char>)
    requires
        parts.len() > 0,
        lays_out(parts, text),
        forall|i: int| 0 <= i < parts.len() ==> is_blank(#[trigger] parts[i]),
    ensures
        is_blank(text),
    decreases parts.len(),
{
    if parts.len() > 1 {
        lemma_lays_out_but_last(parts, text);
        let rest = parts.drop_last();
        let head = text.take(part_start(parts, parts.len() - 1) - 1);
        assert forall|i: int| 0 <= i < rest.len() implies is_blank(#[trigger] rest[i]) by {
            assert(rest[i] == parts[i]);
        }
        lemma_blank_parts(rest, head);
        assert(is_blank(parts[parts.len() - 1]));
        assert forall|i: int| 0 <= i < text.len() implies is_space(#[trigger] text[i]) by {
            if i < head.len() {
                assert(is_space(head[i]));
            } else if i > head.len() {
                assert(is_space(parts.last()[i - head.len() - 1]));
            }
        }
    } else {
        assert(part_start(parts, 1) == part_start(parts, 0) + parts[0].len() + 1);
        assert(text.subrange(0, parts[0].len() as int) == parts[0]);
        assert(text =~= parts[0]);
    }
}

proof fn lemma_has_part(blocks: Seq<BlockModel>, i: int)
    requires
        0 <= i < blocks.len(),
        blocks[i].0 == Some("text"@),
        blocks[i].1 is Some,
    ensures
        exists|k: int|
            0 <= k < text_parts(blocks).len() && #[trigger] text_parts(blocks)[k]
                == blocks[i].1->0,
    decreases blocks.len(),
{
    let p = |b: BlockModel| b.0 == Some("text"@) && b.1 is Some;
    reveal(Seq::filter);
    let rest = blocks.drop_last();
    let parts = text_parts(blocks);
    if i < rest.len() {
        assert(rest[i] == blocks[i]);
        lemma_has_part(rest, i);
        let k = choose|k: int|
            0 <= k < text_parts(rest).len() && #[trigger] text_parts(rest)[k] == rest[i].1->0;
        assert(parts[k] == text_parts(rest)[k]);
    } else {
        assert(p(blocks.last()));
        assert(parts[parts.len() - 1] == blocks[i].1->0);
    }
}

/// Text that the user typed becomes a turn, with everything that its line tells. Blocks of other
/// types than `tool_result` do not keep it from being one.
pub proof fn law_typed_text_becomes_a_turn(
    record: &LineRecord,
    session_id: &str,
    read: Option<Moment>,
    outcome: ParseOutcome,
    text: Seq<char>,
)
    requires
        call_ensures(parse_record, (record, session_id, read), outcome),
        is_typed(record@),
        !holds_tool_result(record@.content),
        says(record@.content, text),
        !is_blank(text),
        !has_prefix(text, "[Request interrupted"@),
        !(has_prefix(trimmed_start(text), "<command-name>"@) && occurs_in(
            trimmed_start(text),
            "</command-name>"@,
        )),
        record.uuid is Some,
        record.cwd is Some,
        record.timestamp is Some,
        read is Some,
    ensures
        outcome matches ParseOutcome::Event(
            WatcherEvent::UserTurn {
                session_id: s,
                event_uuid,
                parent_uuid,
                cwd,
                git_branch,
                timestamp,
                text: t,
                cc_version,
            },
        ) && {
            &&& s@ == session_id@
            &&& event_uuid@ == record.uuid->0@
            &&& opt_text(parent_uuid) == opt_text(record.parent_uuid)
            &&& cwd@ == record.cwd->0@
            &&& opt_text(git_branch) == opt_text(record.git_branch)
            &&& timestamp == read->0
            &&& t@ == text
            &&& record.version matches Some(v) ==> cc_version@ == v@
            &&& record.version is None ==> cc_version@ == "unknown"@
        },
{
    lemma_says(record@.content, text);
    assert(outcome@ is Event);
}

/// A block of text that is not blank is enough: such a line is no tool result and is not without
/// text, unless one of its blocks is a tool result.
pub proof fn law_a_block_of_text_is_heard(
    record: &LineRecord,
    session_id: &str,
    read: Option<Moment>,
    outcome: ParseOutcome,
    blocks: Seq<BlockModel>,
    i: int,
)
    requires
        call_ensures(parse_record, (record, session_id, read), outcome),
        is_typed(record@),
        record@.content == ContentModel::Blocks(blocks),
        forall|k: int| 0 <= k < blocks.len() ==> (#[trigger] blocks[k]).0 != Some("tool_result"@),
        0 <= i < blocks.len(),
        blocks[i].0 == Some("text"@),
        blocks[i].1 is Some,
        !is_blank(blocks[i].1->0),
    ensures
        exists|text: Seq<char>| #[trigger] says(record@.content, text) && !is_blank(text),
        outcome@ is Skip ==> outcome@ == OutcomeModel::Skip(SkipReason::SlashCommandSentinel),
{
    let parts = text_parts(blocks);
    lemma_has_part(blocks, i);
    let k = choose|k: int| 0 <= k < parts.len() && #[trigger] parts[k] == blocks[i].1->0;
    lemma_something_is_said(parts);
    let text = join_parts(parts)->0;
    lemma_said_is_blank(parts, text);
    assert(!is_blank(parts[k]));
    lemma_join_parts(blocks);
    assert(says(record@.content, text));
}

/// Only a block of type `tool_result` makes a line a tool result.
pub proof fn law_only_tool_results_are_skipped_as_such(
    record: &LineRecord,
    session_id: &str,
    read: Option<Moment>,
    outcome: ParseOutcome,
)
    requires
        call_ensures(parse_record, (record, session_id, read), outcome),
    ensures
        outcome@ == OutcomeModel::Skip(SkipReason::ToolResultContent) <==> is_typed(record@)
            && holds_tool_result(record@.content),
{
}

/// What is not of type `user`, what is meta and what is from a sidechain is skipped as such, in
/// this order.
pub proof fn law_untyped_lines_are_skipped(
    record: &LineRecord,
    session_id: &str,
    read: Option<Moment>,
    outcome: ParseOutcome,
)
    requires
        call_ensures(parse_record, (record, session_id, read), outcome),
    ensures
        ({
            let user = record@.kind == Some("user"@);
            let meta = record.is_meta == Some(true);
            let side = record.is_sidechain == Some(true);
            &&& outcome@ == OutcomeModel::Skip(SkipReason::NotUserType) <==> !user
            &&& outcome@ == OutcomeModel::Skip(SkipReason::IsMeta) <==> user && meta
            &&& outcome@ == OutcomeModel::Skip(SkipReason::IsSidechain) <==> user && !meta && side
        }),
{
}

/// A typed line is without text where it has no content, a blank one, or only blank blocks of text.
pub proof fn law_lines_without_text_are_skipped(
    record: &LineRecord,
    session_id: &str,
    read: Option<Moment>,
    outcome: ParseOutcome,
)
    requires
        call_ensures(parse_record, (record, session_id, read), outcome),
        is_typed(record@),
        !holds_tool_result(record@.content),
    ensures
        outcome@ == OutcomeModel::Skip(SkipReason::NoText) <==> match record@.content {
            ContentModel::Absent => true,
            ContentModel::Text(s) => is_blank(s),
            ContentModel::Blocks(blocks) => forall|i: int|
                0 <= i < text_parts(blocks).len() ==> is_blank(#[trigger] text_parts(blocks)[i]),
        },
{
    if let ContentModel::Blocks(blocks) = record@.content {
        let parts = text_parts(blocks);
        lemma_join_parts(blocks);
        if parts.len() > 0 {
            lemma_something_is_said(parts);
            lemma_said_is_blank(parts, join_parts(parts)->0);
        }
    }
}

/// Text that begins with the mark of an interrupt is one, whatever follows; it needs no working
/// directory.
pub proof fn law_interrupts_are_reported(
    record: &LineRecord,
    session_id: &str,
    read: Option<Moment>,
    outcome: ParseOutcome,
    text: Seq<char>,
)
    requires
        call_ensures(parse_record, (record, session_id, read), outcome),
        is_typed(record@),
        !holds_tool_result(record@.content),
        says(record@.content, text),
        has_prefix(text, "[Request interrupted"@),
        record.uuid is Some,
        record.timestamp is Some,
        read is Some,
    ensures
        outcome matches ParseOutcome::Event(
            WatcherEvent::UserInterrupt {
                session_id: s,
                event_uuid,
                parent_uuid,
                timestamp,
                interrupted_assistant_text,
            },
        ) && {
            &&& s@ == session_id@
            &&& event_uuid@ == record.uuid->0@
            &&& opt_text(parent_uuid) == opt_text(record.parent_uuid)
            &&& timestamp == read->0
            &&& interrupted_assistant_text is None
        },
{
    lemma_says(record@.content, text);
    reveal_strlit("[Request interrupted");
    assert(text.subrange(0, "[Request interrupted"@.len() as int)[0] == '[');
    assert(text[0] == '[');
    assert(!is_space(text[0]));
    assert(outcome@ is Event);
}

/// A slash command is skipped: its opening mark stands first, apart from white space, and its
/// closing mark somewhere.
pub proof fn law_slash_commands_are_skipped(
    record: &LineRecord,
    session_id: &str,
    read: Option<Moment>,
    outcome: ParseOutcome,
    blanks: Seq<char>,
    command: Seq<char>,
    rest: Seq<char>,
)
    requires
        call_ensures(parse_record, (record, session_id, read), outcome),
        is_typed(record@),
        !holds_tool_result(record@.content),
        is_blank(blanks),
        says(
            record@.content,
            blanks + "<command-name>"@ + command + "</command-name>"@ + rest,
        ),
    ensures
        outcome@ == OutcomeModel::Skip(SkipReason::SlashCommandSentinel),
{
    reveal_strlit("<command-name>");
    reveal_strlit("[Request interrupted");
    let open = "<command-name>"@;
    let close = "</command-name>"@;
    let mark = "[Request interrupted"@;
    let text = blanks + open + command + close + rest;
    let tail = open + command + close + rest;
    let n = blanks.len() as int;
    lemma_says(record@.content, text);
    assert(text.skip(n) =~= tail);
    assert(text[n] == '<');
    assert forall|i: int| 0 <= i < n implies is_space(#[trigger] text[i]) by {
        assert(text[i] == blanks[i]);
    }
    lemma_trimmed_start(text, n);
    law_a_part_occurs_in_the_whole(Seq::empty(), open, command + close + rest, tail);
    assert(open + (command + close + rest) =~= tail);
    law_a_part_occurs_in_the_whole(open + command, close, rest, tail);
    assert(!is_blank(text)) by {
        assert(!is_space(text[n]));
    }
    assert(!has_prefix(text, mark)) by {
        if has_prefix(text, mark) {
            assert(text.subrange(0, mark.len() as int)[0] == '[');
            if n > 0 {
                assert(is_space(text[0]));
            }
        }
    }
}

/// A typed line that lacks its uuid, its time or, for a turn, its working directory is an error.
pub proof fn law_incomplete_lines_are_errors(
    record: &LineRecord,
    session_id: &str,
    read: Option<Moment>,
    outcome: ParseOutcome,
    text: Seq<char>,
)
    requires
        call_ensures(parse_record, (record, session_id, read), outcome),
        is_typed(record@),
        !holds_tool_result(record@.content),
        says(record@.content, text),
        !is_blank(text),
        !(has_prefix(trimmed_start(text), "<command-name>"@) && occurs_in(
            trimmed_start(text),
            "</command-name>"@,
        )),
    ensures
        outcome@ is Error <==> record.uuid is None || record.timestamp is None || read is None || (
        record.cwd is None && !has_prefix(text, "[Request interrupted"@)),
{
    lemma_says(record@.content, text);
}

/// A line is decoded, its record read, and the record judged; a line that is no JSON is an error.
pub proof fn law_a_line_is_judged_by_its_record(
    line: &str,
    session_id: &str,
    outcome: ParseOutcome,
    node: JsonNode,
    record: LineRecord,
    read: Option<Moment>,
    judged: ParseOutcome,
)
    requires
        call_ensures(parse_line, (line, session_id), outcome),
    ensures
        json_of(line@) is Err ==> outcome@ is Error,
        json_of(line@) == Ok::<NodeModel, Seq<char>>(node@) && call_ensures(
            read_record,
            (&node,),
            record,
        ) && (record.timestamp matches Some(raw) ==> read == moment_of(rfc3339_instant(raw@))) && (
        record.timestamp is None ==> read is None) && call_ensures(
            parse_record,
            (&record, session_id, read),
            judged,
        ) ==> outcome@ == judged@,
{
}

/// A record holds the fields of its line under their names, where they are of their type; its
/// content is that of its message.
pub proof fn law_a_record_holds_its_line(node: &JsonNode, record: LineRecord)
    requires
        call_ensures(read_record, (node,), record),
    ensures
        opt_text(record.kind) == string_field(node@, "type"@),
        record.is_meta == bool_field(node@, "isMeta"@),
        record.is_sidechain == bool_field(node@, "isSidechain"@),
        opt_text(record.uuid) == string_field(node@, "uuid"@),
        opt_text(record.parent_uuid) == string_field(node@, "parentUuid"@),
        opt_text(record.cwd) == string_field(node@, "cwd"@),
        opt_text(record.git_branch) == string_field(node@, "gitBranch"@),
        opt_text(record.timestamp) == string_field(node@, "timestamp"@),
        opt_text(record.version) == string_field(node@, "version"@),
        node_field(node@, "message"@) matches Some(m) ==> {
            &&& node_field(m, "content"@) matches Some(NodeModel::Text(s)) ==> record@.content
                == ContentModel::Text(s)
            &&& node_field(m, "content"@) matches Some(NodeModel::Array(items)) ==> {
                &&& record@.content is Blocks
                &&& record@.content->Blocks_0.len() == items.len()
                &&& forall|i: int|
                    #![trigger items[i]]
                    0 <= i < items.len() ==> (json_of(items[i]) matches Ok(b) ==> {
                        &&& record@.content->Blocks_0[i].0 == string_field(b, "type"@)
                        &&& record@.content->Blocks_0[i].1 == string_field(b, "text"@)
                    })
            }
        },
        node_field(node@, "message"@) is None ==> record@.content is Absent,
{
    assert(record@ == record_of(node@));
}

/// An error names the first field that is missing, in the order uuid, working directory, time, and
/// tells whether a turn or an interrupt lacks it.
pub proof fn law_errors_name_what_is_missing(
    record: &LineRecord,
    session_id: &str,
    read: Option<Moment>,
    outcome: ParseOutcome,
    text: Seq<char>,
    m: Seq<char>,
)
    requires
        call_ensures(parse_record, (record, session_id, read), outcome),
        is_typed(record@),
        !holds_tool_result(record@.content),
        says(record@.content, text),
        !is_blank(text),
        outcome@ == OutcomeModel::Error(m),
    ensures
        has_prefix(text, "[Request interrupted"@) ==> has_prefix(m, "interrupt event: "@),
        !has_prefix(text, "[Request interrupted"@) ==> has_prefix(m, "user turn event: "@),
        record.uuid is None ==> has_suffix(m, "uuid"@),
        record.uuid is Some && record.cwd is None && !has_prefix(text, "[Request interrupted"@)
            ==> has_suffix(m, "cwd"@),
        record.uuid is Some && (record.cwd is Some || has_prefix(text, "[Request interrupted"@))
            && record.timestamp is None ==> has_suffix(m, "timestamp"@),
        record.uuid is Some && (record.cwd is Some || has_prefix(text, "[Request interrupted"@))
            && record.timestamp is Some ==> has_suffix(m, record.timestamp->0@),
{
    lemma_says(record@.content, text);
    let head = if has_prefix(text, "[Request interrupted"@) {
        "interrupt event: "@
    } else {
        "user turn event: "@
    };
    let cause = if has_prefix(text, "[Request interrupted"@) {
        interrupt_event(record@, session_id@, read)->Err_0
    } else {
        turn_event(record@, session_id@, text, read)->Err_0
    };
    assert(m == head + cause);
    law_a_part_occurs_in_the_whole(Seq::empty(), head, cause, m);
    law_a_part_occurs_in_the_whole(head, cause, Seq::empty(), m);
    if let Some(t) = record.timestamp {
        let why = "parsing timestamp: "@;
        let whole = head + (why + t@);
        assert(whole =~= (head + why) + t@);
        law_a_part_occurs_in_the_whole(head + why, t@, Seq::empty(), whole);
    }
}

} // verus!
