//! A file cache cleaned by a background task.

pub mod server_cache;
