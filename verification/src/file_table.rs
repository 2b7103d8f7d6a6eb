//! An ordered table of named files with distinct names: the storage behind
//! every file cache of the server. Lookups go by name; eviction picks the
//! oldest entry stored before a given time.

use vstd::prelude::*;
use crate::core_cache::server_cache::FileCacheTuple;

verus! {

/// A file as plain values: its bytes, the time it was stored, its recorded size.
pub type FileView = (Seq<u8>, u64, usize);

/// The entries of a table, in the order the table holds them.
pub type Listing = Seq<(Seq<char>, FileView)>;

/// No name occurs twice.
pub open spec fn names_distinct(s: Listing) -> bool {
    forall|i: int, j: int|
        0 <= i < s.len() && 0 <= j < s.len() && i != j ==> s[i].0 != s[j].0
}

/// Some entry carries the name `k`.
pub open spec fn has_name(s: Listing, k: Seq<char>) -> bool {
    exists|i: int| 0 <= i < s.len() && (#[trigger] s[i]).0 == k
}

/// The position of the entry named `k`, or -1.
pub open spec fn index_of(s: Listing, k: Seq<char>) -> int {
    if has_name(s, k) {
        choose|i: int| 0 <= i < s.len() && (#[trigger] s[i]).0 == k
    } else {
        -1
    }
}

/// The table as a map from names to files.
pub open spec fn as_map(s: Listing) -> Map<Seq<char>, FileView> {
    Map::new(|k: Seq<char>| has_name(s, k), |k: Seq<char>| s[index_of(s, k)].1)
}

/// The table after storing `v` under `k`: an entry of that name is replaced
/// where it stands, otherwise the new entry goes last.
pub open spec fn put(s: Listing, k: Seq<char>, v: FileView) -> Listing {
    if has_name(s, k) {
        s.update(index_of(s, k), (k, v))
    } else {
        s.push((k, v))
    }
}

/// Scanning the first `n` entries from the front with `now` as the initial
/// bound, the stamp and position of the first entry that is strictly older
/// than everything seen before it; `(now, -1)` when none is older than `now`.
pub open spec fn scan_oldest(s: Listing, n: nat, now: u64) -> (u64, int)
    decreases n,
{
    if n == 0 {
        (now, -1)
    } else {
        let prev = scan_oldest(s, (n - 1) as nat, now);
        if s[n - 1].1.1 < prev.0 {
            (s[n - 1].1.1, n - 1)
        } else {
            prev
        }
    }
}

/// The name an eviction falls back to when nothing is older than `now`.
pub open spec fn fallback_name() -> Seq<char> {
    seq![' ']
}

/// The entry an eviction at time `now` removes: the first of the oldest
/// entries stored before `now`, else the entry named by `fallback_name`;
/// -1 when there is neither.
pub open spec fn victim(s: Listing, now: u64) -> int {
    let found = scan_oldest(s, s.len(), now).1;
    if found >= 0 {
        found
    } else {
        index_of(s, fallback_name())
    }
}

/// `n` evictions in a row at time `now` each find an entry to remove.
pub open spec fn evictable(s: Listing, n: nat, now: u64) -> bool
    decreases n,
{
    n == 0 || (victim(s, now) >= 0 && evictable(s.remove(victim(s, now)), (n - 1) as nat, now))
}

/// The table after `n` evictions at time `now` (stopping early if one finds nothing).
pub open spec fn evict(s: Listing, n: nat, now: u64) -> Listing
    decreases n,
{
    if n == 0 || victim(s, now) < 0 {
        s
    } else {
        evict(s.remove(victim(s, now)), (n - 1) as nat, now)
    }
}

pub proof fn lemma_index_of(s: Listing, k: Seq<char>)
    requires
        names_distinct(s),
    ensures
        has_name(s, k) ==> 0 <= index_of(s, k) < s.len() && s[index_of(s, k)].0 == k,
        forall|i: int| 0 <= i < s.len() && (#[trigger] s[i]).0 == k ==> index_of(s, k) == i,
        !has_name(s, k) ==> index_of(s, k) == -1,
{
}

pub proof fn lemma_scan_oldest(s: Listing, n: nat, now: u64)
    requires
        n <= s.len(),
    ensures
        ({
            let r = scan_oldest(s, n, now);
            &&& r.0 <= now
            &&& -1 <= r.1 < n
            &&& r.1 == -1 <==> r.0 == now
            &&& r.1 >= 0 ==> s[r.1].1.1 == r.0 && r.0 < now
            &&& forall|j: int| 0 <= j < n ==> r.0 <= (#[trigger] s[j]).1.1
            &&& forall|j: int| 0 <= j < r.1 ==> r.0 < (#[trigger] s[j]).1.1
            &&& r.1 == -1 ==> forall|j: int| 0 <= j < n ==> now <= (#[trigger] s[j]).1.1
        }),
    decreases n,
{
    if n > 0 {
        lemma_scan_oldest(s, (n - 1) as nat, now);
    }
}

/// What `victim` picks: a position in the table; an entry stored before
/// `now` that no entry is older than, when there is one; the fallback
/// name otherwise.
pub proof fn lemma_victim(s: Listing, now: u64)
    requires
        names_distinct(s),
    ensures
        victim(s, now) >= 0 ==> victim(s, now) < s.len(),
        (exists|j: int| 0 <= j < s.len() && (#[trigger] s[j]).1.1 < now) ==> {
            let v = victim(s, now);
            &&& 0 <= v < s.len()
            &&& s[v].1.1 < now
            &&& forall|j: int| 0 <= j < s.len() ==> s[v].1.1 <= (#[trigger] s[j]).1.1
        },
        (forall|j: int| 0 <= j < s.len() ==> now <= (#[trigger] s[j]).1.1) ==> victim(s, now)
            == index_of(s, fallback_name()),
        victim(s, now) < 0 <==> (forall|j: int| 0 <= j < s.len() ==> now <= (#[trigger] s[j]).1.1)
            && !has_name(s, fallback_name()),
{
    lemma_scan_oldest(s, s.len(), now);
    lemma_index_of(s, fallback_name());
}

pub proof fn lemma_remove(s: Listing, i: int)
    requires
        names_distinct(s),
        0 <= i < s.len(),
    ensures
        names_distinct(s.remove(i)),
        as_map(s.remove(i)) == as_map(s).remove(s[i].0),
{
    let r = s.remove(i);
    assert forall|a: int, b: int| 0 <= a < r.len() && 0 <= b < r.len() && a != b implies r[a].0
        != r[b].0 by {
        let a2 = if a < i { a } else { a + 1 };
        let b2 = if b < i { b } else { b + 1 };
        assert(r[a] == s[a2]);
        assert(r[b] == s[b2]);
    }
    assert forall|k: Seq<char>| has_name(r, k) <==> has_name(s, k) && k != s[i].0 by {
        if has_name(r, k) {
            let a = choose|a: int| 0 <= a < r.len() && (#[trigger] r[a]).0 == k;
            let a2 = if a < i { a } else { a + 1 };
            assert(r[a] == s[a2]);
        }
        if has_name(s, k) && k != s[i].0 {
            let a = choose|a: int| 0 <= a < s.len() && (#[trigger] s[a]).0 == k;
            let a2 = if a < i { a } else { a - 1 };
            assert(r[a2] == s[a]);
        }
    }
    assert forall|k: Seq<char>| #[trigger] has_name(r, k) implies r[index_of(r, k)].1 == s[index_of(
        s,
        k,
    )].1 by {
        lemma_index_of(r, k);
        lemma_index_of(s, k);
        let a = index_of(r, k);
        let a2 = if a < i { a } else { a + 1 };
        assert(r[a] == s[a2]);
    }
    assert(as_map(r) =~= as_map(s).remove(s[i].0));
}

pub proof fn lemma_put(s: Listing, k: Seq<char>, v: FileView)
    requires
        names_distinct(s),
    ensures
        names_distinct(put(s, k, v)),
        as_map(put(s, k, v)) == as_map(s).insert(k, v),
{
    let p = put(s, k, v);
    lemma_index_of(s, k);
    if has_name(s, k) {
        let x = index_of(s, k);
        assert forall|a: int, b: int| 0 <= a < p.len() && 0 <= b < p.len() && a != b implies p[a].0
            != p[b].0 by {
            if a != x && b != x {
                assert(p[a] == s[a] && p[b] == s[b]);
            }
        }
        assert forall|q: Seq<char>| has_name(p, q) <==> has_name(s, q) || q == k by {
            if has_name(s, q) {
                let a = choose|a: int| 0 <= a < s.len() && (#[trigger] s[a]).0 == q;
                assert(p[a].0 == q);
            }
            if q == k {
                assert(p[x].0 == q);
            }
        }
    } else {
        assert forall|a: int, b: int| 0 <= a < p.len() && 0 <= b < p.len() && a != b implies p[a].0
            != p[b].0 by {
            if a < s.len() && b < s.len() {
                assert(p[a] == s[a] && p[b] == s[b]);
            } else if a < s.len() {
                assert(p[a] == s[a]);
            } else if b < s.len() {
                assert(p[b] == s[b]);
            }
        }
        assert forall|q: Seq<char>| has_name(p, q) <==> has_name(s, q) || q == k by {
            if has_name(s, q) {
                let a = choose|a: int| 0 <= a < s.len() && (#[trigger] s[a]).0 == q;
                assert(p[a].0 == q);
            }
            if q == k {
                assert(p[s.len() as int].0 == q);
            }
            if has_name(p, q) && q != k {
                let a = choose|a: int| 0 <= a < p.len() && (#[trigger] p[a]).0 == q;
                assert(s[a].0 == q);
            }
        }
    }
    assert forall|q: Seq<char>| #[trigger] has_name(p, q) implies p[index_of(p, q)].1 == (if q
        == k {
        v
    } else {
        s[index_of(s, q)].1
    }) by {
        lemma_index_of(p, q);
        lemma_index_of(s, q);
        if q != k {
            let a = index_of(s, q);
            assert(p[a] == s[a]);
        } else if has_name(s, k) {
            assert(p[index_of(s, k)].0 == k);
        } else {
            assert(p[s.len() as int].0 == k);
        }
    }
    assert(as_map(p) =~= as_map(s).insert(k, v));
}

/// Evicting keeps names distinct and only ever drops entries: what is left
/// is a part of what was there, with the same files.
pub proof fn lemma_evict_submap(s: Listing, n: nat, now: u64)
    requires
        names_distinct(s),
    ensures
        names_distinct(evict(s, n, now)),
        as_map(evict(s, n, now)).submap_of(as_map(s)),
    decreases n,
{
    if n > 0 && victim(s, now) >= 0 {
        lemma_victim(s, now);
        let v = victim(s, now);
        lemma_remove(s, v);
        lemma_evict_submap(s.remove(v), (n - 1) as nat, now);
        let e = as_map(evict(s.remove(v), (n - 1) as nat, now));
        assert forall|k: Seq<char>| #[trigger] e.contains_key(k) implies as_map(s).contains_key(k)
            && e[k] == as_map(s)[k] by {
            assert(as_map(s.remove(v)).contains_key(k));
        }
    }
}

/// An entry stored at or after `now`, under another name than the fallback,
/// survives any number of evictions at time `now`.
pub proof fn lemma_evict_spares(s: Listing, n: nat, now: u64, k: Seq<char>)
    requires
        names_distinct(s),
        as_map(s).contains_key(k),
        as_map(s)[k].1 >= now,
        k != fallback_name(),
    ensures
        as_map(evict(s, n, now)).contains_key(k),
        as_map(evict(s, n, now))[k] == as_map(s)[k],
    decreases n,
{
    if n > 0 && victim(s, now) >= 0 {
        lemma_victim(s, now);
        lemma_index_of(s, k);
        let v = victim(s, now);
        if exists|j: int| 0 <= j < s.len() && (#[trigger] s[j]).1.1 < now {
            assert(s[v].1.1 < now);
        } else {
            lemma_index_of(s, fallback_name());
        }
        assert(s[v].0 != k);
        lemma_remove(s, v);
        lemma_evict_spares(s.remove(v), (n - 1) as nat, now, k);
    }
}

/// Evictions go oldest first: an entry that was evicted and had been stored
/// before `now` is no newer than any entry that is left.
pub proof fn lemma_evict_oldest_first(s: Listing, n: nat, now: u64, gone: Seq<char>, kept: Seq<char>)
    requires
        names_distinct(s),
        as_map(s).contains_key(gone),
        !as_map(evict(s, n, now)).contains_key(gone),
        as_map(s)[gone].1 < now,
        as_map(evict(s, n, now)).contains_key(kept),
    ensures
        as_map(s)[gone].1 <= as_map(s)[kept].1,
    decreases n,
{
    lemma_evict_submap(s, n, now);
    if n > 0 && victim(s, now) >= 0 {
        lemma_victim(s, now);
        lemma_index_of(s, gone);
        lemma_index_of(s, kept);
        let v = victim(s, now);
        let r = s.remove(v);
        lemma_remove(s, v);
        lemma_evict_submap(r, (n - 1) as nat, now);
        let g = index_of(s, gone);
        let kk = index_of(s, kept);
        assert(as_map(s).contains_key(kept));
        assert(0 <= g < s.len() && 0 <= kk < s.len());
        assert(as_map(s)[gone] == s[g].1);
        assert(s[g].1.1 < now);
        assert(exists|j: int| 0 <= j < s.len() && (#[trigger] s[j]).1.1 < now);
        assert(as_map(s)[kept] == s[kk].1);
        assert(s[v].1.1 <= s[kk].1.1);
        if s[v].0 != gone {
            assert(as_map(r).contains_key(gone));
            assert(as_map(r).contains_key(kept));
            lemma_evict_oldest_first(r, (n - 1) as nat, now, gone, kept);
        }
    }
}

/// With distinct names, the map of a table has exactly as many names as the
/// table has entries.
pub proof fn lemma_map_len(s: Listing)
    requires
        names_distinct(s),
    ensures
        as_map(s).dom().finite(),
        as_map(s).dom().len() == s.len(),
    decreases s.len(),
{
    if s.len() == 0 {
        assert(as_map(s).dom() =~= Set::<Seq<char>>::empty());
    } else {
        let d = s.drop_last();
        let last = s.last();
        assert(names_distinct(d));
        lemma_map_len(d);
        assert(!has_name(d, last.0)) by {
            if has_name(d, last.0) {
                let a = choose|a: int| 0 <= a < d.len() && (#[trigger] d[a]).0 == last.0;
                assert(s[a] == d[a]);
            }
        }
        assert(put(d, last.0, last.1) =~= s);
        lemma_put(d, last.0, last.1);
        assert(!as_map(d).dom().contains(last.0));
        assert(as_map(s).dom() =~= as_map(d).dom().insert(last.0));
    }
}

/// How many entries were stored before `now`.
pub open spec fn older_count(s: Listing, now: u64) -> nat
    decreases s.len(),
{
    if s.len() == 0 {
        0
    } else {
        older_count(s.drop_last(), now) + if s.last().1.1 < now {
            1nat
        } else {
            0nat
        }
    }
}

/// How many evictions at time `now` can be made in a row: one per entry
/// stored before `now`, and one more for an entry named by `fallback_name`
/// stored at or after `now`.
pub open spec fn removable(s: Listing, now: u64) -> nat {
    older_count(s, now) + if has_name(s, fallback_name()) && s[index_of(
        s,
        fallback_name(),
    )].1.1 >= now {
        1nat
    } else {
        0nat
    }
}

proof fn lemma_older_count_zero(s: Listing, now: u64)
    ensures
        older_count(s, now) == 0 <==> forall|j: int| 0 <= j < s.len() ==> now <= (#[trigger] s[j]).1.1,
    decreases s.len(),
{
    if s.len() > 0 {
        let d = s.drop_last();
        lemma_older_count_zero(d, now);
        assert forall|j: int| 0 <= j < d.len() implies d[j] == s[j] by {}
        if older_count(s, now) == 0 {
            assert forall|j: int| 0 <= j < s.len() implies now <= (#[trigger] s[j]).1.1 by {
                if j < d.len() {
                    assert(d[j] == s[j]);
                }
            }
        }
    }
}

proof fn lemma_older_count_le(s: Listing, now: u64)
    ensures
        older_count(s, now) <= s.len(),
    decreases s.len(),
{
    if s.len() > 0 {
        lemma_older_count_le(s.drop_last(), now);
    }
}

proof fn lemma_older_count_remove(s: Listing, i: int, now: u64)
    requires
        0 <= i < s.len(),
    ensures
        older_count(s, now) == older_count(s.remove(i), now) + if s[i].1.1 < now {
            1nat
        } else {
            0nat
        },
    decreases s.len(),
{
    if i == s.len() - 1 {
        assert(s.remove(i) =~= s.drop_last());
    } else {
        lemma_older_count_remove(s.drop_last(), i, now);
        assert(s.remove(i).drop_last() =~= s.drop_last().remove(i));
        assert(s.remove(i).last() == s.last());
    }
}

/// One eviction is possible exactly when `removable` is at least one, and
/// it lowers `removable` by one.
pub proof fn lemma_removable_step(s: Listing, now: u64)
    requires
        names_distinct(s),
    ensures
        victim(s, now) >= 0 <==> removable(s, now) >= 1,
        victim(s, now) >= 0 ==> removable(s.remove(victim(s, now)), now) + 1 == removable(s, now),
{
    lemma_victim(s, now);
    lemma_older_count_zero(s, now);
    lemma_index_of(s, fallback_name());
    let v = victim(s, now);
    if v >= 0 {
        let r = s.remove(v);
        lemma_remove(s, v);
        lemma_older_count_remove(s, v, now);
        lemma_index_of(r, fallback_name());
        let f = fallback_name();
        if has_name(s, f) && s[v].0 != f {
            let x = index_of(s, f);
            let x2 = if x < v { x } else { x - 1 };
            assert(r[x2] == s[x]);
            assert(has_name(r, f));
            assert(index_of(r, f) == x2);
        }
        if has_name(r, f) {
            let y = index_of(r, f);
            let y2 = if y < v { y } else { y + 1 };
            assert(r[y] == s[y2]);
        }
    }
}

/// `n` evictions in a row at time `now` succeed exactly when `n` is at most
/// `removable`.
pub proof fn lemma_evictable_iff(s: Listing, n: nat, now: u64)
    requires
        names_distinct(s),
    ensures
        evictable(s, n, now) <==> n <= removable(s, now),
    decreases n,
{
    lemma_removable_step(s, now);
    if n > 0 && victim(s, now) >= 0 {
        lemma_victim(s, now);
        lemma_remove(s, victim(s, now));
        lemma_evictable_iff(s.remove(victim(s, now)), (n - 1) as nat, now);
    }
}

/// Evictions that all find an entry remove exactly that many entries.
pub proof fn lemma_evict_len(s: Listing, n: nat, now: u64)
    requires
        names_distinct(s),
        evictable(s, n, now),
    ensures
        evict(s, n, now).len() + n == s.len(),
    decreases n,
{
    if n > 0 {
        lemma_victim(s, now);
        lemma_remove(s, victim(s, now));
        lemma_evict_len(s.remove(victim(s, now)), (n - 1) as nat, now);
    }
}

/// An ordered table of named files.
pub struct FileTable {
    entries: Vec<(String, FileCacheTuple)>,
}

impl View for FileTable {
    type V = Listing;

    closed spec fn view(&self) -> Listing {
        self.entries@.map_values(|e: (String, FileCacheTuple)| (e.0@, e.1@))
    }
}

impl FileTable {
    /// An empty table.
    pub fn new() -> (t: Self)
        ensures
            t@ == Seq::<(Seq<char>, FileView)>::empty(),
    {
        let t = FileTable { entries: Vec::new() };
        assert(t@ =~= Seq::<(Seq<char>, FileView)>::empty());
        t
    }

    /// The number of entries.
    pub fn len(&self) -> (n: usize)
        ensures
            n == self@.len(),
    {
        self.entries.len()
    }

    /// The position of the entry named `name`, if there is one.
    pub fn find(&self, name: &String) -> (r: Option<usize>)
        requires
            names_distinct(self@),
        ensures
            match r {
                Some(i) => i == index_of(self@, name@) && i < self@.len(),
                None => !has_name(self@, name@),
            },
    {
        let n = self.entries.len();
        let mut i: usize = 0;
        while i < n
            invariant
                n == self.entries@.len(),
                n == self@.len(),
                i <= n,
                names_distinct(self@),
                forall|j: int| 0 <= j < i ==> (#[trigger] self@[j]).0 != name@,
            decreases n - i,
        {
            assert(self@[i as int] == (self.entries@[i as int].0@, self.entries@[i as int].1@));
            if self.entries[i].0 == *name {
                proof {
                    lemma_index_of(self@, name@);
                }
                return Some(i);
            }
            i = i + 1;
        }
        None
    }

    /// A copy of the file stored under `name`, if any.
    pub fn lookup(&self, name: &String) -> (r: Option<FileCacheTuple>)
        requires
            names_distinct(self@),
        ensures
            match r {
                Some(f) => as_map(self@).contains_key(name@) && f@ == as_map(self@)[name@],
                None => !as_map(self@).contains_key(name@),
            },
    {
        match self.find(name) {
            Some(i) => {
                assert(self@[i as int].1 == self.entries@[i as int].1@);
                Some(self.entries[i].1.clone())
            },
            None => None,
        }
    }

    /// Stores `file` under `name`, replacing an entry of that name where it stands.
    pub fn put(&mut self, name: String, file: FileCacheTuple)
        requires
            names_distinct(old(self)@),
        ensures
            final(self)@ == put(old(self)@, name@, file@),
    {
        let ghost k = name@;
        let ghost v = file@;
        match self.find(&name) {
            Some(i) => {
                self.entries.set(i, (name, file));
                assert(self@ =~= put(old(self)@, k, v));
            },
            None => {
                self.entries.push((name, file));
                assert(self@ =~= put(old(self)@, k, v));
            },
        }
    }

    /// The position an eviction at time `now` would remove, if any: the first
    /// entry stored before `now` that no entry is older than, else the entry
    /// named by `fallback_name`.
    pub fn victim_index(&self, now: u64) -> (r: Option<usize>)
        requires
            names_distinct(self@),
        ensures
            match r {
                Some(i) => i == victim(self@, now) && i < self@.len(),
                None => victim(self@, now) < 0,
            },
    {
        let n = self.entries.len();
        let mut oldest: u64 = now;
        let mut best: Option<usize> = None;
        let mut i: usize = 0;
        while i < n
            invariant
                n == self.entries@.len(),
                n == self@.len(),
                i <= n,
                (oldest, match best {
                    Some(b) => b as int,
                    None => -1,
                }) == scan_oldest(self@, i as nat, now),
            decreases n - i,
        {
            assert(self@[i as int].1.1 == self.entries@[i as int].1.1);
            let stamp = self.entries[i].1.1;
            if stamp < oldest {
                oldest = stamp;
                best = Some(i);
            }
            i = i + 1;
        }
        proof {
            lemma_scan_oldest(self@, n as nat, now);
            lemma_victim(self@, now);
        }
        match best {
            Some(b) => Some(b),
            None => {
                let fallback = " ".to_owned();
                proof {
                    reveal_strlit(" ");
                    assert(fallback@ =~= fallback_name());
                }
                self.find(&fallback)
            },
        }
    }

    /// How many evictions at time `now` can be made in a row (see `removable`).
    pub fn removable_count(&self, now: u64) -> (c: usize)
        requires
            names_distinct(self@),
        ensures
            c == removable(self@, now),
    {
        let n = self.entries.len();
        let mut count: usize = 0;
        let mut i: usize = 0;
        while i < n
            invariant
                n == self.entries@.len(),
                n == self@.len(),
                i <= n,
                count == older_count(self@.take(i as int), now),
                count <= i,
            decreases n - i,
        {
            assert(self@.take(i + 1).drop_last() =~= self@.take(i as int));
            assert(self@[i as int].1.1 == self.entries@[i as int].1.1);
            if self.entries[i].1.1 < now {
                count = count + 1;
            }
            i = i + 1;
        }
        assert(self@.take(n as int) =~= self@);
        let fallback = " ".to_owned();
        proof {
            reveal_strlit(" ");
            assert(fallback@ =~= fallback_name());
        }
        match self.find(&fallback) {
            Some(j) => {
                assert(self@[j as int].1.1 == self.entries@[j as int].1.1);
                proof {
                    lemma_older_count_remove(self@, j as int, now);
                    lemma_older_count_le(self@.remove(j as int), now);
                }
                if self.entries[j].1.1 >= now {
                    count + 1
                } else {
                    count
                }
            },
            None => count,
        }
    }

    /// Removes the entry at position `i`.
    pub fn remove_at(&mut self, i: usize)
        requires
            i < old(self)@.len(),
        ensures
            final(self)@ == old(self)@.remove(i as int),
    {
        self.entries.remove(i);
        assert(self@ =~= old(self)@.remove(i as int));
    }
}

} // verus!
