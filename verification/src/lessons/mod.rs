//! Lessons on disk.

pub mod loader;

pub use loader::{LessonFullContent, LoadedLesson};
