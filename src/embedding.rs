//! The text side of the embedding adapter: tokenization to fixed-length
//! model inputs, and the text handed to the encoder.
pub mod tokenizer;

pub use tokenizer::{TokenizedInput, Tokenizer};
