//! Line-oriented text search.
//!
//! A text is split into lines, the lines that hold a query are kept in
//! order, and for each kept line the byte span of the first occurrence of
//! the query is located so that it can be shown in colour. Texts are
//! modelled by their UTF-8 bytes: offsets are byte offsets throughout.

pub mod boundary;
pub mod config;
pub mod layout;
pub mod lines;
pub mod listing;
pub mod lower;
pub mod matcher;
pub mod render;
pub mod span;
pub mod substring;

pub use config::Config;
pub use listing::run;
pub use matcher::{search, search_case_insensitive};
pub use span::{grab_match, Match};
