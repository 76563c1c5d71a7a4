//! Extracting, cleaning and cutting up the text that is indexed.
pub mod chunk_laws;
pub mod chunker;
pub mod documents;
pub mod html;
pub mod laws;
pub mod outcome_laws;
pub mod pdf;
pub mod store;
pub mod store_laws;
pub mod table;
pub mod vectors;
