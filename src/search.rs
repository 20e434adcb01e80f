//! Ranking: fusion of keyword and semantic rankings, selection of the best
//! entries, and hybrid results.
pub mod hybrid;
pub mod rank;
pub mod rrf;
