//! Verified core of an Alfred workflow that searches the Flutter API docs.
pub mod cli;
pub mod cli_laws;
pub mod items;
pub mod models;
pub mod query_url;
pub mod text;
