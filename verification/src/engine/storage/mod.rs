//! Key-addressed byte storage: keys, versions, errors and the in-memory backend, and the path
//! rules of the file-system backend.

pub mod error;
pub mod filesystem;
pub mod key;
pub mod lock;
pub mod memory;
pub mod metadata;
pub mod update;
pub mod version;

pub use error::StorageError;
pub use filesystem::LocalFsStorage;
pub use key::StorageKey;
pub use memory::MemoryStorage;
pub use metadata::StorageMetadata;
pub use version::Version;
