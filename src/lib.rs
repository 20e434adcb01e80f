//! Core of an offline hybrid file-search engine: file classification,
//! privacy filtering, content handling, a metadata/content store with
//! stable identifiers, a dense-vector store, and rank fusion of keyword
//! and semantic results.
pub mod chars;
pub mod config;
pub mod embedding;
pub mod error;
pub mod extractors;
pub mod foreign;
pub mod indexer;
pub mod pipeline;
pub mod search;
pub mod storage;
pub mod types;
pub mod web;

pub use error::{Error, Result};
