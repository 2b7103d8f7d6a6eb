//! An unbounded file cache, trimmed from outside by repeated calls of
//! `check_and_clean`, which evict the oldest file while more than three
//! files are stored.

use vstd::prelude::*;
use crate::file_table::{
    as_map, lemma_put, lemma_remove, lemma_victim, names_distinct, put, victim, FileTable,
    FileView, Listing,
};
pub use crate::core_cache::server_cache::FileCacheTuple;

verus! {

/// More stored files than this make `check_and_clean` evict one.
pub const CLEAN_THRESHOLD: usize = 3;

/// The stored files.
pub struct FileCache {
    table: FileTable,
}

impl FileCache {
    /// The stored entries, in the order the cache holds them.
    pub closed spec fn entries(&self) -> Listing {
        self.table@
    }

    /// The stored files by name.
    pub open spec fn files(&self) -> Map<Seq<char>, FileView> {
        as_map(self.entries())
    }

    /// Names are distinct.
    pub closed spec fn wf(&self) -> bool {
        names_distinct(self.table@)
    }

    /// What well-formedness gives callers: each name is held once.
    pub proof fn lemma_wf(&self)
        requires
            self.wf(),
        ensures
            names_distinct(self.entries()),
    {
    }
}

/// An empty cache.
pub fn cache_init() -> (cache: FileCache)
    ensures
        cache.wf(),
        cache.entries() == Seq::<(Seq<char>, FileView)>::empty(),
{
    FileCache { table: FileTable::new() }
}

/// A copy of the file stored under `name`, or `None`.
pub fn file_lookup(cache: &FileCache, name: &str) -> (file: Option<FileCacheTuple>)
    requires
        cache.wf(),
    ensures
        match file {
            Some(f) => cache.files().contains_key(name@) && f@ == cache.files()[name@],
            None => !cache.files().contains_key(name@),
        },
{
    let key = name.to_owned();
    cache.table.lookup(&key)
}

/// Stores a copy of `file` under `name`.
pub fn insert_file(cache: &mut FileCache, name: &str, file: &FileCacheTuple)
    requires
        old(cache).wf(),
    ensures
        final(cache).wf(),
        final(cache).entries() == put(old(cache).entries(), name@, file@),
{
    proof {
        lemma_put(cache.table@, name@, file@);
    }
    cache.table.put(name.to_owned(), file.clone());
}

/// Evicts the first of the oldest files stored before `now`; when none was
/// stored before `now`, evicts the file named by a single space.
pub fn remove_oldest(cache: &mut FileCache, now: u64)
    requires
        old(cache).wf(),
        victim(old(cache).entries(), now) >= 0,
    ensures
        final(cache).wf(),
        final(cache).entries() == old(cache).entries().remove(victim(old(cache).entries(), now)),
{
    proof {
        lemma_victim(cache.table@, now);
    }
    match cache.table.victim_index(now) {
        Some(i) => {
            proof {
                lemma_remove(cache.table@, i as int);
            }
            cache.table.remove_at(i);
        },
        None => {},
    }
}

/// One cleaning step: when more than three files are stored, evicts the
/// oldest one (see `remove_oldest`).
pub fn check_and_clean(cache: &mut FileCache, now: u64)
    requires
        old(cache).wf(),
        old(cache).entries().len() > CLEAN_THRESHOLD ==> victim(old(cache).entries(), now) >= 0,
    ensures
        final(cache).wf(),
        final(cache).entries() == if old(cache).entries().len() > CLEAN_THRESHOLD {
            old(cache).entries().remove(victim(old(cache).entries(), now))
        } else {
            old(cache).entries()
        },
{
    if cache.table.len() > CLEAN_THRESHOLD {
        remove_oldest(cache, now);
    }
}

/// A read gives back what a write stored: after `insert_file`, looking the
/// name up yields the stored file.
pub proof fn law_lookup_after_insert(before: FileCache, after: FileCache, name: Seq<char>, file: FileView)
    requires
        before.wf(),
        after.entries() == put(before.entries(), name, file),
    ensures
        after.files().contains_key(name),
        after.files()[name] == file,
{
    lemma_put(before.entries(), name, file);
}

} // verus!
