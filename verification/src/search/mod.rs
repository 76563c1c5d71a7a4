//! Combining two kinds of search.
pub mod hybrid;
pub mod laws;
