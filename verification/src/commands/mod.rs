//! The commands: what each decides and answers, apart from the requests it makes.
pub mod add_cmd;
pub mod add_laws;
pub mod attach_cmd;
pub mod bibtex_fields;
pub mod bibtex_shape;
pub mod collection_laws;
pub mod collections_cmd;
pub mod delete_cmd;
pub mod delete_laws;
pub mod edit_cmd;
pub mod edit_laws;
pub mod export_cmd;
pub mod export_laws;
pub mod find_cmd;
pub mod fulltext_cmd;
pub mod fulltext_laws;
pub mod index_cmd;
pub mod listing_laws;
pub mod merge_laws;
pub mod note_text;
pub mod plan_laws;
pub mod search_cmd;
pub mod tags_cmd;
