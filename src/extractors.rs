//! Turning file contents into indexable text.
pub mod text;

pub use text::ExtractedContent;
