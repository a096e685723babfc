//! The decision core of an MCP server that publishes an archive of X68000 disk
//! images: path rules, content classification, selection of files for a bundle,
//! picture rendering, metadata queries, HTTP endpoint layout and authentication.
//!
//! Every rule is an executable function with a contract over `Seq<char>`,
//! `Seq<u8>` and plain integers. Opening images, serving HTTP and writing files
//! belong to the program around this library.

pub mod archive_path;
pub mod auth;
pub mod bundle;
pub mod defaults;
pub mod extract;
pub mod globs;
pub mod http;
pub mod listing;
pub mod query;
pub mod read;
pub mod search;
pub mod select;
pub mod single;
pub mod summary;
pub mod text;
pub mod version;
pub mod view;
pub mod walk;
