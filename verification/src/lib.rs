//! The logic of a command line for a reference library: identifiers, collections,
//! bibliographies, full-text indexing and the text shown to people.
#[allow(unused_imports)]
use vstd::prelude::*;

pub mod api;
pub mod collections;
pub mod commands;
pub mod config;
pub mod failure;
pub mod index;
pub mod json;
pub mod lines;
pub mod lines_laws;
pub mod output;
pub mod output_laws;
pub mod percent;
pub mod search;
pub mod text;
pub mod text_laws;

verus! {

} // verus!
