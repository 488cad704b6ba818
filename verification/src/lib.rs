//! A local-machine file-index and substring-search library.
//!
//! The library enumerates files and directories, persists a compact record
//! for each in an embedded SQLite index, and answers name-substring queries
//! with optional filters. The NTFS fast path parses raw Master File Table
//! records; the portable path walks a directory tree. Both feed batched
//! writes into the store.

pub mod bytes;
pub mod indexer;
pub mod laws;
pub mod mft;
pub mod sector;
pub mod search;
pub mod store;
pub mod strings;
pub mod types;

pub use search::search_files;
pub use store::Database;
pub use store::StoreError;
pub use types::FileRecord;
pub use types::IndexingProgress;
pub use types::IndexingStatus;
pub use types::SearchFilters;
pub use types::SearchResult;
pub use types::SearchResults;
