//! The on-disk lesson format: frontmatter envelope, scalar rendering, schema and writer.

pub mod envelope;
pub mod frontmatter;
pub mod scalar;
pub mod schema;
pub mod writer;
