//! Discovery of candidate files and extraction of their metadata.
pub mod metadata;
pub mod walker;
