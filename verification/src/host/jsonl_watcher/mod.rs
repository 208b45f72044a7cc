//! Watches session transcripts, one JSON record per line, and turns what is appended into events.

pub mod cursor;
pub mod events;
pub mod parser;
pub mod runner;
pub mod source;

pub use cursor::{CursorAction, FileCursor, FileStat, ReadAppendedResult};
pub use events::{PARSE_ERROR_REPORT_EVERY, WatcherEvent};
pub use parser::{ParseOutcome, SkipReason, parse_line};
pub use source::JsonlWatcherSource;
