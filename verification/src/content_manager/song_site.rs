//! The songs page: a template whose placeholder is replaced by a table of
//! the song files, each linked under `songs/`.

use vstd::prelude::*;
use vstd::utf8::{decode_utf8, encode_utf8, valid_utf8};
use crate::dir_listing::{entry_views, listing_rows, table_rows, DirEntryInfo};
use crate::text::{replace, replace_all, utf8_to_string};

verus! {

/// The placeholder in the template that the table replaces.
pub open spec fn placeholder() -> Seq<char> {
    "{replace_me!}"@
}

/// The table rows for the song files, each linked under `songs/`; `None`
/// when the day of some file cannot be formatted.
pub fn generate_tds(files: &Vec<DirEntryInfo>) -> (r: Option<String>)
    ensures
        r is Some <==> table_rows(entry_views(files@), "songs/"@) is Some,
        r is Some ==> table_rows(entry_views(files@), "songs/"@) == Some(r->0@),
{
    listing_rows(files, "songs/")
}

/// The songs page: the template `contents` (which must be UTF-8) with every
/// placeholder replaced by the table of `files`; `None` when the day of some
/// file cannot be formatted.
pub fn songs_page(contents: Vec<u8>, files: &Vec<DirEntryInfo>) -> (r: Option<Vec<u8>>)
    requires
        valid_utf8(contents@),
    ensures
        r is Some <==> table_rows(entry_views(files@), "songs/"@) is Some,
        r is Some ==> r->0@ == encode_utf8(
            replace_all(
                decode_utf8(contents@),
                placeholder(),
                table_rows(entry_views(files@), "songs/"@)->0,
            ),
        ),
{
    let tds = match generate_tds(files) {
        Some(t) => t,
        None => return None,
    };
    let text = match utf8_to_string(contents) {
        Some(t) => t,
        None => {
            assert(false);
            return None;
        },
    };
    proof {
        reveal_strlit("{replace_me!}");
    }
    let content_to_serve = replace(text.as_str(), "{replace_me!}", tds.as_str());
    Some(content_to_serve.as_str().as_bytes_vec())
}

} // verus!
