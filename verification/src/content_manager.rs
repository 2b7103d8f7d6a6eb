//! Deciding what a request for a path serves, and building pages.

pub mod content_parser;
pub mod song_site;
