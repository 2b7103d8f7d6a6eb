//! A small static-file web server library: request-line and header parsing,
//! a bounded file cache with oldest-first eviction, page generation for
//! directory listings, and response serialisation.

pub mod text;
pub mod core_cache;
pub mod file_table;
pub mod config;
pub mod cache;
pub mod server_cache;
pub mod http;
pub mod response;
pub mod uri;
pub mod dir_listing;
pub mod content_manager;
pub mod content_parser;
pub mod server;
