//! Rows of the HTML table that lists a directory: each file's name (as a
//! link), the day it was last modified, its type and its size.

use vstd::prelude::*;
use crate::text::{chars_of, decimal, decimal_string, push_char};

verus! {

/// What the listing shows of a directory entry, as plain values: its name,
/// its modification time (whole seconds since the Unix epoch, negative
/// before it, and the nanoseconds past that second) and its size in bytes.
pub struct DirEntryInfo {
    pub file_name: String,
    pub modified_secs: i64,
    pub modified_nanos: u32,
    pub size: u64,
}

/// A directory entry as plain values.
pub type EntryView = (Seq<char>, i64, u32, u64);

impl View for DirEntryInfo {
    type V = EntryView;

    open spec fn view(&self) -> EntryView {
        (self.file_name@, self.modified_secs, self.modified_nanos, self.size)
    }
}

/// What `chrono` gives for the UTC day of a timestamp, formatted with
/// `%d/%m/%Y`; `None` when the timestamp is outside the range `chrono`
/// represents.
pub uninterp spec fn chrono_day_month_year(secs: i64, nanos: u32) -> Option<Seq<char>>;

/// The UTC day of a timestamp as `day/month/year` (`chrono`'s
/// `DateTime::from_timestamp`, then `format("%d/%m/%Y")`).
#[verifier::external_body]
pub(crate) fn format_day_month_year(secs: i64, nanos: u32) -> (r: Option<String>)
    ensures
        r is Some <==> chrono_day_month_year(secs, nanos) is Some,
        r is Some ==> chrono_day_month_year(secs, nanos) == Some(r->0@),
{
    match chrono::DateTime::from_timestamp(secs, nanos) {
        Some(dt) => Some(dt.format("%d/%m/%Y").to_string()),
        None => None,
    }
}

/// The position of the last `c` in `s`, or -1.
pub open spec fn last_of(s: Seq<char>, c: char) -> int
    decreases s.len(),
{
    if s.len() == 0 {
        -1
    } else if s.last() == c {
        s.len() - 1
    } else {
        last_of(s.drop_last(), c)
    }
}

/// The extension of a file name, as `Path::extension` finds it: what follows
/// the last `.`; none when there is no `.`, when the only `.` begins the
/// name, or for `..`.
pub open spec fn extension(name: Seq<char>) -> Option<Seq<char>> {
    let k = last_of(name, '.');
    if name == seq!['.', '.'] || k <= 0 {
        None
    } else {
        Some(name.skip(k + 1))
    }
}

/// The type shown for a file: its extension, or `unknown_type`.
pub open spec fn file_type_of(name: Seq<char>) -> Seq<char> {
    match extension(name) {
        Some(e) => e,
        None => "unknown_type"@,
    }
}

proof fn lemma_last_of_unique(s: Seq<char>, c: char, k: int)
    requires
        -1 <= k < s.len(),
        k >= 0 ==> s[k] == c,
        forall|j: int| k < j < s.len() ==> s[j] != c,
    ensures
        last_of(s, c) == k,
    decreases s.len(),
{
    if s.len() > 0 && k < s.len() - 1 {
        lemma_last_of_unique(s.drop_last(), c, k);
    }
}

/// The type shown for the file named `name`.
pub fn file_type(name: &str) -> (t: String)
    ensures
        t@ == file_type_of(name@),
{
    let cs = chars_of(name);
    let n = cs.len();
    let mut k: usize = n;
    while k > 0 && cs[k - 1] != '.'
        invariant
            cs@ == name@,
            n == cs@.len(),
            k <= n,
            forall|j: int| k <= j < n ==> cs@[j] != '.',
        decreases k,
    {
        k = k - 1;
    }
    let ghost last = k - 1;
    proof {
        lemma_last_of_unique(cs@, '.', last);
    }
    let is_dotdot = n == 2 && cs[0] == '.' && cs[1] == '.';
    proof {
        if n == 2 {
            if cs@ =~= seq!['.', '.'] {
                assert(is_dotdot);
            }
        }
        if is_dotdot {
            assert(cs@ =~= seq!['.', '.']);
        }
    }
    if is_dotdot || k <= 1 {
        "unknown_type".to_owned()
    } else {
        let mut t = String::new();
        let mut i: usize = k;
        while i < n
            invariant
                cs@ == name@,
                n == cs@.len(),
                k <= i <= n,
                t@ == cs@.subrange(k as int, i as int),
            decreases n - i,
        {
            push_char(&mut t, cs[i]);
            assert(cs@.subrange(k as int, i + 1) =~= cs@.subrange(k as int, i as int).push(
                cs@[i as int],
            ));
            i = i + 1;
        }
        assert(cs@.subrange(k as int, n as int) =~= cs@.skip(k as int));
        t
    }
}

/// One row of the listing: the name linked to `prefix` followed by the name,
/// the day, the type and the size, each in a cell.
pub open spec fn table_row(
    prefix: Seq<char>,
    name: Seq<char>,
    day: Seq<char>,
    file_type: Seq<char>,
    size: Seq<char>,
) -> Seq<char> {
    "<tr>\n<td><a href=\""@ + prefix + name + "\">"@ + name + "</a> </td>\n<td>"@ + day
        + "</td>\n<td>"@ + file_type + "</td>\n<td>"@ + size + "</td>\n</tr>\n"@
}

/// The rows for `entries` in order, links made with `prefix`; `None` when
/// the day of some entry cannot be formatted.
pub open spec fn table_rows(entries: Seq<EntryView>, prefix: Seq<char>) -> Option<Seq<char>>
    decreases entries.len(),
{
    if entries.len() == 0 {
        Some(Seq::empty())
    } else {
        let e = entries.last();
        match table_rows(entries.drop_last(), prefix) {
            None => None,
            Some(rows) => match chrono_day_month_year(e.1, e.2) {
                None => None,
                Some(day) => Some(
                    rows + table_row(prefix, e.0, day, file_type_of(e.0), decimal(e.3 as nat)),
                ),
            },
        }
    }
}

/// The views of a list of entries.
pub open spec fn entry_views(entries: Seq<DirEntryInfo>) -> Seq<EntryView> {
    entries.map_values(|e: DirEntryInfo| e@)
}

/// The listing rows for `entries`, links made with `prefix`; `None` when the
/// day of some entry cannot be formatted.
pub fn listing_rows(entries: &Vec<DirEntryInfo>, prefix: &str) -> (r: Option<String>)
    ensures
        match r {
            Some(s) => table_rows(entry_views(entries@), prefix@) == Some(s@),
            None => table_rows(entry_views(entries@), prefix@) is None,
        },
{
    let ghost views = entry_views(entries@);
    let mut rows = String::new();
    let n = entries.len();
    let mut i: usize = 0;
    assert(views.take(0) =~= Seq::<EntryView>::empty());
    while i < n
        invariant
            n == entries@.len(),
            views == entry_views(entries@),
            i <= n,
            table_rows(views.take(i as int), prefix@) == Some(rows@),
        decreases n - i,
    {
        let e = &entries[i];
        assert(views.take(i + 1).drop_last() =~= views.take(i as int));
        assert(views.take(i + 1).last() == e@);
        match format_day_month_year(e.modified_secs, e.modified_nanos) {
            None => {
                proof {
                    lemma_rows_none_extends(views, (i + 1) as nat, prefix@);
                }
                return None;
            },
            Some(day) => {
                let t = file_type(e.file_name.as_str());
                let size = decimal_string(e.size);
                let row = make_row(prefix, e.file_name.as_str(), day.as_str(), t.as_str(), size.as_str());
                rows.append(row.as_str());
            },
        }
        i = i + 1;
    }
    assert(views.take(n as int) =~= views);
    Some(rows)
}

/// One row of the listing (see `table_row`).
fn make_row(prefix: &str, name: &str, day: &str, file_type: &str, size: &str) -> (r: String)
    ensures
        r@ == table_row(prefix@, name@, day@, file_type@, size@),
{
    let mut r = "<tr>\n<td><a href=\"".to_owned();
    r.append(prefix);
    r.append(name);
    r.append("\">");
    r.append(name);
    r.append("</a> </td>\n<td>");
    r.append(day);
    r.append("</td>\n<td>");
    r.append(file_type);
    r.append("</td>\n<td>");
    r.append(size);
    r.append("</td>\n</tr>\n");
    r
}

/// Once the rows of a prefix of the entries cannot be made, neither can
/// those of any longer prefix.
proof fn lemma_rows_none_extends(views: Seq<EntryView>, m: nat, prefix: Seq<char>)
    requires
        m <= views.len(),
        exists|k: nat| k <= m && table_rows(views.take(k as int), prefix) is None,
    ensures
        table_rows(views, prefix) is None,
    decreases views.len() - m,
{
    let k = choose|k: nat| k <= m && table_rows(views.take(k as int), prefix) is None;
    lemma_rows_none_from(views, k, prefix);
}

proof fn lemma_rows_none_from(views: Seq<EntryView>, k: nat, prefix: Seq<char>)
    requires
        k <= views.len(),
        table_rows(views.take(k as int), prefix) is None,
    ensures
        table_rows(views, prefix) is None,
    decreases views.len() - k,
{
    if k < views.len() {
        assert(views.take((k + 1) as int).drop_last() =~= views.take(k as int));
        lemma_rows_none_from(views, k + 1, prefix);
    } else {
        assert(views.take(k as int) =~= views);
    }
}

/// The type shown for a file is the whole text after its last `.`, however
/// long: for a non-empty stem and an extension without `.` (other than the
/// name `..`), the type of `stem.ext` is `ext`.
pub proof fn law_file_type_is_whole_extension(stem: Seq<char>, ext: Seq<char>)
    requires
        stem.len() > 0,
        !ext.contains('.'),
        stem + seq!['.'] + ext != seq!['.', '.'],
    ensures
        file_type_of(stem + seq!['.'] + ext) == ext,
{
    let name = stem + seq!['.'] + ext;
    let k = stem.len() as int;
    assert(name[k] == '.');
    assert forall|j: int| k < j < name.len() implies name[j] != '.' by {
        assert(name[j] == ext[j - k - 1]);
        if ext[j - k - 1] == '.' {
            assert(ext.contains('.'));
        }
    }
    lemma_last_of_unique(name, '.', k);
    assert(name.skip(k + 1) =~= ext);
}

/// A name without `.` has type `unknown_type`.
pub proof fn law_file_type_without_dot(name: Seq<char>)
    requires
        !name.contains('.'),
    ensures
        file_type_of(name) == "unknown_type"@,
{
    assert forall|j: int| -1 < j < name.len() implies name[j] != '.' by {
        if name[j] == '.' {
            assert(name.contains('.'));
        }
    }
    lemma_last_of_unique(name, '.', -1);
}

} // verus!
