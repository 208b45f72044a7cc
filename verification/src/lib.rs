//! The engine of a learning loop: lessons, memories, skills and teams as files with frontmatter,
//! what the user's words say about them, and the transcripts and requests that drive it.

pub mod engine;
pub mod host;
pub mod json;
pub mod lessons;
pub mod path;
pub mod pid;
pub mod serve;
pub mod text;
