//! The records and rules of the services the library talks to.
pub mod bibtex;
pub mod client;
pub mod connector;
pub mod fetch;
pub mod identifier_laws;
pub mod laws;
pub mod medline;
pub mod models;
pub mod openlibrary;
pub mod record_laws;
pub mod request_laws;
pub mod resolve;
pub mod webapi;
