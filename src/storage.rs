//! The stores: file metadata and content keyed by stable identifiers, and
//! dense vectors keyed by the same identifiers.
pub mod database;
pub mod vector_store;

pub use database::{Database, IndexStats};
pub use vector_store::VectorStore;
