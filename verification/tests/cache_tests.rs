use refera::cache::server_cache as bounded;
use refera::config::Config;
use refera::server_cache as unbounded;
use refera::core_cache::server_cache::{
    cache_init, can_store, file_lookup, insert_file, remove_oldest, FileCacheTuple,
};

fn config_with(max_files: usize, max_size: usize) -> Config {
    let mut c = Config::default_config();
    c.max_cache_files = max_files;
    c.largest_cacheable_file_size = max_size;
    c
}

fn file(bytes: &[u8], stamp: u64) -> FileCacheTuple {
    FileCacheTuple(bytes.to_vec(), stamp, 0)
}

#[test]
fn fresh_cache_holds_nothing() {
    let cache = cache_init(config_with(2, 100));
    assert!(file_lookup(&cache, "/a").is_none());
    assert!(file_lookup(&cache, "").is_none());
}

#[test]
fn lookup_after_insert_gives_the_file_back() {
    let mut cache = cache_init(config_with(2, 100));
    insert_file(&mut cache, "/a", &file(b"hello", 10), 50);
    let got = file_lookup(&cache, "/a").expect("stored");
    assert_eq!(got.0, b"hello".to_vec());
    assert_eq!(got.1, 10);
    assert_eq!(got.2, 0);
    assert!(file_lookup(&cache, "/b").is_none());
}

#[test]
fn oversized_file_is_not_stored() {
    let mut cache = cache_init(config_with(2, 5));
    insert_file(&mut cache, "/big", &file(b"hello", 10), 50);
    assert!(file_lookup(&cache, "/big").is_none());
    insert_file(&mut cache, "/small", &file(b"hell", 10), 50);
    assert!(file_lookup(&cache, "/small").is_some());
}

#[test]
fn default_limits_store_nothing() {
    let mut cache = cache_init(Config::default_config());
    insert_file(&mut cache, "/a", &file(b"x", 1), 5);
    assert!(file_lookup(&cache, "/a").is_none());
}

#[test]
fn full_cache_evicts_the_oldest() {
    let mut cache = cache_init(config_with(2, 100));
    insert_file(&mut cache, "/new", &file(b"n", 30), 100);
    insert_file(&mut cache, "/old", &file(b"o", 10), 100);
    insert_file(&mut cache, "/third", &file(b"t", 40), 100);
    assert!(file_lookup(&cache, "/old").is_none());
    assert!(file_lookup(&cache, "/new").is_some());
    assert!(file_lookup(&cache, "/third").is_some());
}

#[test]
fn eviction_spares_files_not_older_than_now() {
    let mut cache = cache_init(config_with(2, 100));
    insert_file(&mut cache, "/a", &file(b"a", 10), 100);
    insert_file(&mut cache, "/later", &file(b"l", 200), 100);
    insert_file(&mut cache, "/c", &file(b"c", 20), 100);
    assert!(file_lookup(&cache, "/a").is_none());
    assert_eq!(file_lookup(&cache, "/later").unwrap().0, b"l".to_vec());
}

#[test]
fn ties_evict_the_first_stored() {
    let mut cache = cache_init(config_with(2, 100));
    insert_file(&mut cache, "/x", &file(b"x", 10), 100);
    insert_file(&mut cache, "/y", &file(b"y", 10), 100);
    insert_file(&mut cache, "/z", &file(b"z", 10), 100);
    assert!(file_lookup(&cache, "/x").is_none());
    assert!(file_lookup(&cache, "/y").is_some());
}

#[test]
fn storing_an_existing_name_replaces_it() {
    let mut cache = cache_init(config_with(5, 100));
    insert_file(&mut cache, "/a", &file(b"one", 10), 100);
    insert_file(&mut cache, "/a", &file(b"two", 20), 100);
    let got = file_lookup(&cache, "/a").unwrap();
    assert_eq!(got.0, b"two".to_vec());
    assert_eq!(got.1, 20);
}

#[test]
fn remove_oldest_falls_back_to_a_space() {
    let mut cache = cache_init(config_with(5, 100));
    insert_file(&mut cache, " ", &file(b"s", 500), 100);
    insert_file(&mut cache, "/b", &file(b"b", 600), 100);
    remove_oldest(&mut cache, 100);
    assert!(file_lookup(&cache, " ").is_none());
    assert!(file_lookup(&cache, "/b").is_some());
}

#[test]
fn clone_keeps_every_field() {
    let f = FileCacheTuple(vec![1, 2, 3], 7, 3);
    let g = f.clone();
    assert_eq!(g.0, vec![1, 2, 3]);
    assert_eq!(g.1, 7);
    assert_eq!(g.2, 3);
}

#[test]
fn cleaned_cache_drops_oldest_over_bound() {
    let mut cache = bounded::cache_init(config_with(1, 100));
    bounded::insert_file(&mut cache, "/a", &file(b"a", 5));
    bounded::insert_file(&mut cache, "/b", &file(b"b", 3));
    bounded::check_and_clean(&mut cache, 100);
    assert!(bounded::file_lookup(&cache, "/b").is_none());
    assert!(bounded::file_lookup(&cache, "/a").is_some());
    bounded::check_and_clean(&mut cache, 100);
    assert!(bounded::file_lookup(&cache, "/a").is_some());
}

#[test]
fn cleaned_cache_respects_size_limit() {
    let mut cache = bounded::cache_init(config_with(1, 2));
    bounded::insert_file(&mut cache, "/a", &file(b"abc", 5));
    assert!(bounded::file_lookup(&cache, "/a").is_none());
}

#[test]
fn unbounded_cache_keeps_three() {
    let mut cache = unbounded::cache_init();
    for (i, name) in ["/1", "/2", "/3", "/4"].iter().enumerate() {
        unbounded::insert_file(&mut cache, name, &file(b"d", 10 + i as u64));
    }
    unbounded::check_and_clean(&mut cache, 100);
    assert!(unbounded::file_lookup(&cache, "/1").is_none());
    for name in ["/2", "/3", "/4"] {
        assert!(unbounded::file_lookup(&cache, name).is_some());
    }
    unbounded::check_and_clean(&mut cache, 100);
    assert!(unbounded::file_lookup(&cache, "/2").is_some());
}

#[test]
fn can_store_counts_what_can_be_evicted() {
    let mut cache = cache_init(config_with(1, 100));
    assert!(can_store(&cache, 10, 50));
    insert_file(&mut cache, "/future", &file(b"f", 90), 50);
    // the only file is not older than 40, so nothing can make room at 40
    assert!(!can_store(&cache, 10, 40));
    // but at 95 it is older and can be evicted
    assert!(can_store(&cache, 10, 95));
    // a file too large to be stored never needs room
    assert!(can_store(&cache, 100, 40));
}

#[test]
fn can_store_counts_the_space_named_file() {
    let mut cache = cache_init(config_with(1, 100));
    insert_file(&mut cache, " ", &file(b"s", 90), 50);
    assert!(can_store(&cache, 10, 40));
    insert_file(&mut cache, "/x", &file(b"x", 95), 40);
    assert!(file_lookup(&cache, " ").is_none());
    assert!(file_lookup(&cache, "/x").is_some());
}

#[test]
fn zero_file_bound_with_empty_cache_cannot_store() {
    let cache = cache_init(config_with(0, 100));
    assert!(!can_store(&cache, 10, 40));
}

#[test]
fn repeated_cleaning_reaches_the_bound_oldest_first() {
    let mut cache = bounded::cache_init(config_with(2, 100));
    for (name, stamp) in [("/c", 30u64), ("/a", 10), ("/d", 40), ("/b", 20), ("/e", 50)] {
        bounded::insert_file(&mut cache, name, &file(b"x", stamp));
    }
    for _ in 0..3 {
        bounded::check_and_clean(&mut cache, 100);
    }
    for gone in ["/a", "/b", "/c"] {
        assert!(bounded::file_lookup(&cache, gone).is_none());
    }
    for kept in ["/d", "/e"] {
        assert!(bounded::file_lookup(&cache, kept).is_some());
    }
    bounded::check_and_clean(&mut cache, 100);
    assert!(bounded::file_lookup(&cache, "/d").is_some());
}
