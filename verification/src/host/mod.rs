//! Host adapters. They use the engine; the engine does not know them.

pub mod jsonl_watcher;
