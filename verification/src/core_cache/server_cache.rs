//! The file cache the request handler uses: files under a size limit are
//! kept, and the oldest ones are evicted to keep the number of stored
//! files under the configured bound.

use vstd::prelude::*;
use crate::config::Config;
use crate::file_table::{
    as_map, evict, evictable, fallback_name, has_name, lemma_evict_oldest_first, lemma_evict_spares,
    lemma_evict_len, lemma_evict_submap, lemma_evictable_iff, lemma_map_len, lemma_put, removable, lemma_remove, lemma_victim, names_distinct, put, victim,
    FileTable, FileView, Listing,
};

verus! {

/// A cached file: its bytes, the time it was stored (nanoseconds since the
/// Unix epoch) and its recorded size.
pub struct FileCacheTuple(pub Vec<u8>, pub u64, pub usize);

impl View for FileCacheTuple {
    type V = FileView;

    open spec fn view(&self) -> FileView {
        (self.0@, self.1, self.2)
    }
}

impl Clone for FileCacheTuple {
    fn clone(&self) -> (r: Self)
        ensures
            r@ == self@,
    {
        let data = self.0.clone();
        assert(data@ =~= self.0@);
        FileCacheTuple(data, self.1, self.2)
    }
}


/// How many evictions an insertion makes before storing: enough to bring
/// the stored-file count below `max`.
pub open spec fn evictions_needed(current: nat, max: nat) -> nat {
    if current >= max {
        (current - max + 1) as nat
    } else {
        0
    }
}

/// The server's file cache: the stored files, a count of stored files, and
/// the two limits it was made with.
pub struct FileCache {
    table: FileTable,
    current_cache_size: usize,
    max_cache_files: usize,
    max_file_size: usize,
}

impl FileCache {
    /// The stored entries, in the order the cache holds them.
    pub closed spec fn entries(&self) -> Listing {
        self.table@
    }

    /// The stored files by name.
    pub open spec fn files(&self) -> Map<Seq<char>, FileView> {
        as_map(self.entries())
    }

    /// The count of stored files that the cache keeps. Storing a file under a
    /// name already present adds one to it too, so it can exceed the number
    /// of entries.
    pub closed spec fn current_cache_size(&self) -> nat {
        self.current_cache_size as nat
    }

    /// The bound on the stored-file count.
    pub closed spec fn max_cache_files(&self) -> nat {
        self.max_cache_files as nat
    }

    /// Files of this many bytes or more are not stored.
    pub closed spec fn max_file_size(&self) -> nat {
        self.max_file_size as nat
    }

    /// Names are distinct and the count is never below the number of entries.
    pub closed spec fn wf(&self) -> bool {
        &&& names_distinct(self.table@)
        &&& self.current_cache_size >= self.table@.len()
    }

    /// What well-formedness gives callers: each name is held once, and the stored-file count is never below the number of entries.
    pub proof fn lemma_wf(&self)
        requires
            self.wf(),
        ensures
            names_distinct(self.entries()),
        self.current_cache_size() >= self.entries().len(),
    {
    }
}

/// What `insert_file` makes of `before` when it stores `file` under `name` at time `now`.
pub open spec fn insert_file_post(
    before: FileCache,
    after: FileCache,
    name: Seq<char>,
    file: FileView,
    now: u64,
) -> bool {
    let n = evictions_needed(before.current_cache_size(), before.max_cache_files());
    &&& after.wf()
    &&& after.max_cache_files() == before.max_cache_files()
    &&& after.max_file_size() == before.max_file_size()
    &&& if file.0.len() < before.max_file_size() {
        &&& after.entries() == put(evict(before.entries(), n, now), name, file)
        &&& after.current_cache_size() == before.current_cache_size() - n + 1
    } else {
        &&& after.entries() == before.entries()
        &&& after.current_cache_size() == before.current_cache_size()
    }
}

/// A cache built from `config`'s limits, holding nothing.
pub fn cache_init(config: Config) -> (cache: FileCache)
    ensures
        cache.wf(),
        cache.entries() == Seq::<(Seq<char>, FileView)>::empty(),
        cache.current_cache_size() == 0,
        cache.max_cache_files() == config.max_cache_files,
        cache.max_file_size() == config.largest_cacheable_file_size,
{
    FileCache {
        table: FileTable::new(),
        current_cache_size: 0,
        max_cache_files: config.max_cache_files,
        max_file_size: config.largest_cacheable_file_size,
    }
}

/// A copy of the file stored under `name`, or `None`.
pub fn file_lookup(cache: &FileCache, name: &str) -> (file: Option<FileCacheTuple>)
    requires
        cache.wf(),
    ensures
        match file {
            Some(f) => cache.files().contains_key(name@) && f@ == cache.files()[name@],
            None => !cache.files().contains_key(name@),
        },
{
    let key = name.to_owned();
    cache.table.lookup(&key)
}

/// Stores a copy of `file` under `name` when it is smaller than the size
/// limit. Before storing, evicts the oldest file stored before `now` (see
/// `remove_oldest`) until the stored-file count is below its bound; the
/// count then grows by one.
pub fn insert_file(cache: &mut FileCache, name: &str, file: &FileCacheTuple, now: u64)
    requires
        old(cache).wf(),
        file.0@.len() < old(cache).max_file_size() ==> evictions_needed(
            old(cache).current_cache_size(),
            old(cache).max_cache_files(),
        ) <= removable(old(cache).entries(), now),
    ensures
        insert_file_post(*old(cache), *final(cache), name@, file@, now),
{
    if file.0.len() < cache.max_file_size {
        proof {
            lemma_evictable_iff(
                cache.table@,
                evictions_needed(cache.current_cache_size as nat, cache.max_cache_files as nat),
                now,
            );
        }
        let ghost start = cache.table@;
        let ghost n = evictions_needed(
            cache.current_cache_size as nat,
            cache.max_cache_files as nat,
        );
        while cache.current_cache_size >= cache.max_cache_files
            invariant
                cache.wf(),
                cache.max_cache_files == old(cache).max_cache_files,
                cache.max_file_size == old(cache).max_file_size,
                n == evictions_needed(
                    old(cache).current_cache_size as nat,
                    old(cache).max_cache_files as nat,
                ),
                start == old(cache).table@,
                old(cache).current_cache_size - cache.current_cache_size <= n,
                evictable(
                    cache.table@,
                    evictions_needed(
                        cache.current_cache_size as nat,
                        cache.max_cache_files as nat,
                    ),
                    now,
                ),
                evict(start, n, now) == evict(
                    cache.table@,
                    evictions_needed(
                        cache.current_cache_size as nat,
                        cache.max_cache_files as nat,
                    ),
                    now,
                ),
                evictions_needed(cache.current_cache_size as nat, cache.max_cache_files as nat)
                    == n - (old(cache).current_cache_size - cache.current_cache_size),
            decreases cache.current_cache_size,
        {
            remove_oldest(cache, now);
        }
        cache.table.put(name.to_owned(), file.clone());
        proof {
            lemma_put(
                evict(start, n, now),
                name@,
                file@,
            );
        }
        cache.current_cache_size = cache.current_cache_size + 1;
    }
}

/// Whether `insert_file` can store a file of `size` bytes at time `now`
/// without running out of files to evict: always when the file is too large
/// to be stored; otherwise when the evictions it needs are at most
/// `removable`.
pub fn can_store(cache: &FileCache, size: usize, now: u64) -> (b: bool)
    requires
        cache.wf(),
    ensures
        b == (size < cache.max_file_size() ==> evictions_needed(
            cache.current_cache_size(),
            cache.max_cache_files(),
        ) <= removable(cache.entries(), now)),
{
    if size >= cache.max_file_size {
        return true;
    }
    let rem = cache.table.removable_count(now);
    if cache.current_cache_size >= cache.max_cache_files {
        cache.current_cache_size - cache.max_cache_files < rem
    } else {
        true
    }
}

/// Evicts the first of the oldest files stored before `now`; when none was
/// stored before `now`, evicts the file named by `fallback_name` (a single
/// space). The stored-file count drops by one.
pub fn remove_oldest(cache: &mut FileCache, now: u64)
    requires
        old(cache).wf(),
        victim(old(cache).entries(), now) >= 0,
    ensures
        final(cache).wf(),
        final(cache).entries() == old(cache).entries().remove(victim(old(cache).entries(), now)),
        final(cache).current_cache_size() == old(cache).current_cache_size() - 1,
        final(cache).max_cache_files() == old(cache).max_cache_files(),
        final(cache).max_file_size() == old(cache).max_file_size(),
{
    proof {
        lemma_victim(cache.table@, now);
    }
    match cache.table.victim_index(now) {
        Some(i) => {
            proof {
                lemma_remove(cache.table@, i as int);
            }
            cache.table.remove_at(i);
            cache.current_cache_size = cache.current_cache_size - 1;
        },
        None => {},
    }
}


/// A read gives back what a write stored: once `insert_file` has stored a
/// file (it was under the size limit), looking its name up yields that file.
pub proof fn law_lookup_after_insert(
    before: FileCache,
    after: FileCache,
    name: Seq<char>,
    file: FileView,
    now: u64,
)
    requires
        before.wf(),
        file.0.len() < before.max_file_size(),
        insert_file_post(before, after, name, file, now),
    ensures
        after.files().contains_key(name),
        after.files()[name] == file,
{
    let n = evictions_needed(before.current_cache_size(), before.max_cache_files());
    lemma_evict_submap(before.entries(), n, now);
    lemma_put(evict(before.entries(), n, now), name, file);
}

/// A file at or over the size limit leaves the cache as it was.
pub proof fn law_oversized_not_stored(
    before: FileCache,
    after: FileCache,
    name: Seq<char>,
    file: FileView,
    now: u64,
)
    requires
        before.wf(),
        file.0.len() >= before.max_file_size(),
        insert_file_post(before, after, name, file, now),
    ensures
        after.files() == before.files(),
        after.current_cache_size() == before.current_cache_size(),
{
}

/// After a store, the number of stored files is at most the stored-file
/// count, and the count is at most its bound.
pub proof fn law_store_respects_bound(
    before: FileCache,
    after: FileCache,
    name: Seq<char>,
    file: FileView,
    now: u64,
)
    requires
        before.wf(),
        file.0.len() < before.max_file_size(),
        insert_file_post(before, after, name, file, now),
    ensures
        after.files().len() <= after.current_cache_size() <= after.max_cache_files(),
{
    lemma_map_len(after.entries());
}

/// An insertion at time `now` keeps every other file stored at or after
/// `now` (other than one named by `fallback_name`) as it was.
pub proof fn law_newer_files_survive(
    before: FileCache,
    after: FileCache,
    name: Seq<char>,
    file: FileView,
    now: u64,
    other: Seq<char>,
)
    requires
        before.wf(),
        insert_file_post(before, after, name, file, now),
        other != name,
        other != fallback_name(),
        before.files().contains_key(other),
        before.files()[other].1 >= now,
    ensures
        after.files().contains_key(other),
        after.files()[other] == before.files()[other],
{
    if file.0.len() < before.max_file_size() {
        let n = evictions_needed(before.current_cache_size(), before.max_cache_files());
        lemma_evict_submap(before.entries(), n, now);
        lemma_evict_spares(before.entries(), n, now, other);
        lemma_put(evict(before.entries(), n, now), name, file);
    }
}

/// Eviction goes oldest first: a file that an insertion evicted, stored
/// before `now`, is no newer than any file that was there before and is
/// still there (other than the one just stored).
pub proof fn law_evicts_oldest_first(
    before: FileCache,
    after: FileCache,
    name: Seq<char>,
    file: FileView,
    now: u64,
    gone: Seq<char>,
    kept: Seq<char>,
)
    requires
        before.wf(),
        insert_file_post(before, after, name, file, now),
        before.files().contains_key(gone),
        before.files()[gone].1 < now,
        !after.files().contains_key(gone),
        after.files().contains_key(kept),
        kept != name,
    ensures
        before.files()[gone].1 <= before.files()[kept].1,
{
    let n = evictions_needed(before.current_cache_size(), before.max_cache_files());
    lemma_evict_submap(before.entries(), n, now);
    lemma_put(evict(before.entries(), n, now), name, file);
    lemma_evict_oldest_first(before.entries(), n, now, gone, kept);
}

/// Storing a file evicts no more than needed: the stored-file count grows by
/// one while it is below the bound, and otherwise ends exactly at the bound.
pub proof fn law_store_count_reaches_bound(
    before: FileCache,
    after: FileCache,
    name: Seq<char>,
    file: FileView,
    now: u64,
)
    requires
        before.wf(),
        file.0.len() < before.max_file_size(),
        insert_file_post(before, after, name, file, now),
    ensures
        after.current_cache_size() == if before.current_cache_size() >= before.max_cache_files() {
            before.max_cache_files()
        } else {
            before.current_cache_size() + 1
        },
{
}

/// When each stored file has been counted once and a new name is stored,
/// the number of files afterwards is the number before plus one, or the
/// bound when that would exceed it: exactly the files needed are evicted.
pub proof fn law_store_evicts_only_what_is_needed(
    before: FileCache,
    after: FileCache,
    name: Seq<char>,
    file: FileView,
    now: u64,
)
    requires
        before.wf(),
        before.current_cache_size() == before.files().len(),
        !before.files().contains_key(name),
        file.0.len() < before.max_file_size(),
        evictions_needed(before.current_cache_size(), before.max_cache_files()) <= removable(
            before.entries(),
            now,
        ),
        insert_file_post(before, after, name, file, now),
    ensures
        after.files().len() == if before.files().len() >= before.max_cache_files() {
            before.max_cache_files()
        } else {
            before.files().len() + 1
        },
{
    let s = before.entries();
    let n = evictions_needed(before.current_cache_size(), before.max_cache_files());
    lemma_map_len(s);
    lemma_evictable_iff(s, n, now);
    lemma_evict_len(s, n, now);
    lemma_evict_submap(s, n, now);
    let e = evict(s, n, now);
    assert(!has_name(e, name)) by {
        if has_name(e, name) {
            assert(as_map(e).contains_key(name));
        }
    }
    assert(put(e, name, file) == e.push((name, file)));
    lemma_put(e, name, file);
    lemma_map_len(after.entries());
}

} // verus!
