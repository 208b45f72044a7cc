//! Vector index: errors, hits and the bookkeeping of the HNSW index.

pub mod error;
pub mod hit;
pub mod hnsw;

pub use error::VectorIndexError;
pub use hit::SearchHit;
pub use hnsw::{HnswMeta, HnswVectorIndex, Neighbour};
