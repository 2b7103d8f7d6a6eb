//! The cache the server consults before reading a file.

pub mod server_cache;
