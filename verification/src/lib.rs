//! A small line-oriented text search: given a query and a body of text,
//! select the lines of the text that contain the query.

pub mod config;
pub mod encoding;
pub mod find;
pub mod fold;
pub mod lines;
pub mod search;
pub mod selection;
pub mod text;

pub use config::Config;
pub use search::{search, search_case_insensitive, select_lines};
