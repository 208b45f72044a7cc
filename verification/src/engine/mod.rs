//! The engine: storage, lesson format, skills, teams, vectors and the sentiment pipeline.

pub mod clock;
pub mod context;
pub mod error;
pub mod events;
pub mod immunity;
pub mod memory;
pub mod sentiment;
pub mod single;
pub mod skills;
pub mod storage;
pub mod teams;
pub mod vector;
pub mod yaml;
