//! A file cache with a size limit on stored files, trimmed from outside by
//! repeated calls of `check_and_clean`, which evict the oldest file while
//! more files are stored than the configured bound.

use vstd::prelude::*;
use crate::config::Config;
use crate::file_table::{
    as_map, index_of, lemma_index_of, lemma_put, lemma_remove, lemma_victim, names_distinct, put,
    victim, FileTable, FileView, Listing,
};
pub use crate::core_cache::server_cache::FileCacheTuple;

verus! {

/// The stored files and the two limits the cache was made with.
pub struct FileCache {
    table: FileTable,
    max_cache_files: usize,
    max_file_size: usize,
}

impl FileCache {
    /// The stored entries, in the order the cache holds them.
    pub closed spec fn entries(&self) -> Listing {
        self.table@
    }

    /// The stored files by name.
    pub open spec fn files(&self) -> Map<Seq<char>, FileView> {
        as_map(self.entries())
    }

    /// More stored files than this make `check_and_clean` evict one.
    pub closed spec fn max_cache_files(&self) -> nat {
        self.max_cache_files as nat
    }

    /// Files of this many bytes or more are not stored.
    pub closed spec fn max_file_size(&self) -> nat {
        self.max_file_size as nat
    }

    /// Names are distinct.
    pub closed spec fn wf(&self) -> bool {
        names_distinct(self.table@)
    }

    /// What well-formedness gives callers: each name is held once.
    pub proof fn lemma_wf(&self)
        requires
            self.wf(),
        ensures
            names_distinct(self.entries()),
    {
    }
}

/// A cache built from `config`'s limits, holding nothing.
pub fn cache_init(config: Config) -> (cache: FileCache)
    ensures
        cache.wf(),
        cache.entries() == Seq::<(Seq<char>, FileView)>::empty(),
        cache.max_cache_files() == config.max_cache_files,
        cache.max_file_size() == config.largest_cacheable_file_size,
{
    FileCache {
        table: FileTable::new(),
        max_cache_files: config.max_cache_files,
        max_file_size: config.largest_cacheable_file_size,
    }
}

/// A copy of the file stored under `name`, or `None`.
pub fn file_lookup(cache: &FileCache, name: &str) -> (file: Option<FileCacheTuple>)
    requires
        cache.wf(),
    ensures
        match file {
            Some(f) => cache.files().contains_key(name@) && f@ == cache.files()[name@],
            None => !cache.files().contains_key(name@),
        },
{
    let key = name.to_owned();
    cache.table.lookup(&key)
}

/// Stores a copy of `file` under `name` when it is smaller than the size limit.
pub fn insert_file(cache: &mut FileCache, name: &str, file: &FileCacheTuple)
    requires
        old(cache).wf(),
    ensures
        final(cache).wf(),
        final(cache).max_cache_files() == old(cache).max_cache_files(),
        final(cache).max_file_size() == old(cache).max_file_size(),
        final(cache).entries() == if file.0@.len() < old(cache).max_file_size() {
            put(old(cache).entries(), name@, file@)
        } else {
            old(cache).entries()
        },
{
    if file.0.len() < cache.max_file_size {
        proof {
            lemma_put(cache.table@, name@, file@);
        }
        cache.table.put(name.to_owned(), file.clone());
    }
}

/// Evicts the first of the oldest files stored before `now`; when none was
/// stored before `now`, evicts the file named by a single space.
pub fn remove_oldest(cache: &mut FileCache, now: u64)
    requires
        old(cache).wf(),
        victim(old(cache).entries(), now) >= 0,
    ensures
        final(cache).wf(),
        final(cache).entries() == old(cache).entries().remove(victim(old(cache).entries(), now)),
        final(cache).max_cache_files() == old(cache).max_cache_files(),
        final(cache).max_file_size() == old(cache).max_file_size(),
{
    proof {
        lemma_victim(cache.table@, now);
    }
    match cache.table.victim_index(now) {
        Some(i) => {
            proof {
                lemma_remove(cache.table@, i as int);
            }
            cache.table.remove_at(i);
        },
        None => {},
    }
}

/// One cleaning step: when more files are stored than the bound, evicts the
/// oldest one (see `remove_oldest`).
pub fn check_and_clean(cache: &mut FileCache, now: u64)
    requires
        old(cache).wf(),
        old(cache).entries().len() > old(cache).max_cache_files() ==> victim(
            old(cache).entries(),
            now,
        ) >= 0,
    ensures
        final(cache).wf(),
        final(cache).max_cache_files() == old(cache).max_cache_files(),
        final(cache).max_file_size() == old(cache).max_file_size(),
        final(cache).entries() == if old(cache).entries().len() > old(cache).max_cache_files() {
            old(cache).entries().remove(victim(old(cache).entries(), now))
        } else {
            old(cache).entries()
        },
{
    if cache.table.len() > cache.max_cache_files {
        remove_oldest(cache, now);
    }
}

/// A read gives back what a write stored: after `insert_file` stored a file
/// under the size limit, looking its name up yields that file.
pub proof fn law_lookup_after_insert(before: FileCache, after: FileCache, name: Seq<char>, file: FileView)
    requires
        before.wf(),
        file.0.len() < before.max_file_size(),
        after.entries() == put(before.entries(), name, file),
    ensures
        after.files().contains_key(name),
        after.files()[name] == file,
{
    lemma_put(before.entries(), name, file);
}

/// A cleaning step never leaves fewer files than the bound when it started
/// above it, and never more than were there: it removes exactly one file
/// when over the bound and none otherwise.
pub proof fn law_clean_removes_one_when_over(before: FileCache, after: FileCache, now: u64)
    requires
        before.wf(),
        before.entries().len() > before.max_cache_files() ==> victim(before.entries(), now) >= 0,
        after.entries() == if before.entries().len() > before.max_cache_files() {
            before.entries().remove(victim(before.entries(), now))
        } else {
            before.entries()
        },
    ensures
        before.entries().len() > before.max_cache_files() ==> after.entries().len()
            == before.entries().len() - 1 && after.entries().len() >= before.max_cache_files(),
        before.entries().len() <= before.max_cache_files() ==> after.files() == before.files(),
{
    if before.entries().len() > before.max_cache_files() {
        lemma_victim(before.entries(), now);
    }
}

/// The entries after `k` cleaning steps at time `now` with bound `max`:
/// while more than `max` entries are stored, each step evicts as
/// `remove_oldest` does (stopping when a step finds nothing to evict).
pub open spec fn cleaned(s: Listing, max: nat, k: nat, now: u64) -> Listing
    decreases k,
{
    if k == 0 || s.len() <= max || victim(s, now) < 0 {
        s
    } else {
        cleaned(s.remove(victim(s, now)), max, (k - 1) as nat, now)
    }
}

/// One cleaning step followed by `k` more is `k + 1` steps: the entries
/// after `check_and_clean` are `cleaned(.., 1, ..)`, and repeated calls
/// compose.
pub proof fn law_clean_steps_compose(s: Listing, max: nat, k: nat, now: u64)
    requires
        s.len() > max ==> victim(s, now) >= 0,
    ensures
        cleaned(s, max, 1, now) == if s.len() > max {
            s.remove(victim(s, now))
        } else {
            s
        },
        cleaned(cleaned(s, max, 1, now), max, k, now) == cleaned(s, max, k + 1, now),
{
    assert(cleaned(s.remove(victim(s, now)), max, 0, now) == s.remove(victim(s, now)));
}

/// Repeated cleaning reaches the bound, removing the oldest files: when
/// every stored file was stored before `now`, `len - max` cleaning steps
/// leave exactly `max` files (or all of them, if there were no more), keep
/// the files that stay as they were, and every removed file is no newer
/// than every file left.
pub proof fn law_cleaning_reaches_bound(s: Listing, max: nat, k: nat, now: u64)
    requires
        names_distinct(s),
        forall|j: int| 0 <= j < s.len() ==> (#[trigger] s[j]).1.1 < now,
        k + max >= s.len(),
    ensures
        cleaned(s, max, k, now).len() == if s.len() > max {
            max
        } else {
            s.len()
        },
        names_distinct(cleaned(s, max, k, now)),
        as_map(cleaned(s, max, k, now)).submap_of(as_map(s)),
        forall|gone: Seq<char>, kept: Seq<char>|
            #[trigger] as_map(s).contains_key(gone) && !as_map(cleaned(s, max, k, now)).contains_key(
                gone,
            )
                && #[trigger] as_map(cleaned(s, max, k, now)).contains_key(kept) ==> as_map(
                s,
            )[gone].1 <= as_map(s)[kept].1,
    decreases k,
{
    let c = cleaned(s, max, k, now);
    if k == 0 || s.len() <= max {
        assert(c == s);
    } else {
        lemma_victim(s, now);
        assert(s[0].1.1 < now);
        let v = victim(s, now);
        assert(0 <= v < s.len());
        let r = s.remove(v);
        lemma_remove(s, v);
        assert forall|j: int| 0 <= j < r.len() implies (#[trigger] r[j]).1.1 < now by {
            if j < v {
                assert(r[j] == s[j]);
            } else {
                assert(r[j] == s[j + 1]);
            }
        }
        law_cleaning_reaches_bound(r, max, (k - 1) as nat, now);
        assert(c == cleaned(r, max, (k - 1) as nat, now));
        assert forall|key: Seq<char>| #[trigger] as_map(c).contains_key(key) implies as_map(
            s,
        ).contains_key(key) && as_map(c)[key] == as_map(s)[key] by {
            assert(as_map(r).contains_key(key));
        }
        assert forall|gone: Seq<char>, kept: Seq<char>|
            #[trigger] as_map(s).contains_key(gone) && !as_map(c).contains_key(gone)
                && #[trigger] as_map(c).contains_key(kept) implies as_map(s)[gone].1 <= as_map(
            s,
        )[kept].1 by {
            assert(as_map(r).contains_key(kept));
            if gone == s[v].0 {
                lemma_index_of(s, gone);
                lemma_index_of(s, kept);
                let kk = index_of(s, kept);
                assert(as_map(s)[kept] == s[kk].1);
                assert(as_map(s)[gone] == s[v].1);
                assert(s[v].1.1 <= s[kk].1.1);
            } else {
                assert(as_map(r).contains_key(gone));
            }
        }
    }
}

} // verus!
