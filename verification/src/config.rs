//! Server settings.

use vstd::prelude::*;
use vstd::hash_map::StringHashMap;

verus! {

/// The settings the server starts with.
pub struct Config {
    pub address: String,
    pub port: String,
    pub auth: StringHashMap<String>,
    pub file_dir: String,
    pub tls: Option<TlsConfig>,
    pub max_cache_files: usize,
    pub largest_cacheable_file_size: usize,
    pub active_threads: usize,
}

/// Where the certificate and the key for TLS are found.
#[derive(Clone)]
pub struct TlsConfig {
    pub cert_path: String,
    pub key_path: String,
}

impl Config {
    /// The built-in settings: listen on all interfaces at port 7151 with five
    /// worker threads, serve the current directory, no credentials, no TLS,
    /// and a cache that stores nothing (both limits zero).
    pub fn default_config() -> (c: Config)
        ensures
            c.address@ == "0.0.0.0"@,
            c.port@ == "7151"@,
            c.active_threads == 5,
            c.auth@ == Map::<Seq<char>, String>::empty(),
            c.file_dir@ == "."@,
            c.tls is None,
            c.max_cache_files == 0,
            c.largest_cacheable_file_size == 0,
    {
        Config {
            address: "0.0.0.0".to_owned(),
            port: "7151".to_owned(),
            active_threads: 5,
            auth: StringHashMap::new(),
            file_dir: ".".to_owned(),
            tls: None,
            max_cache_files: 0,
            largest_cacheable_file_size: 0,
        }
    }
}

} // verus!
