//! What a request for a path serves, in the song site's layout: the root
//! serves the default page with the table of songs filled in; any other
//! path serves the song file under `./static/songs` that it names.

use vstd::prelude::*;
use vstd::utf8::encode_utf8;
use crate::core_cache::server_cache::FileCacheTuple;
use crate::content_manager::content_parser::is_default_page;
use crate::dir_listing::{entry_views, listing_rows, table_rows, DirEntryInfo};
use crate::response::refera_error::ReferaError;
use crate::text::{replace, replace_all};
use crate::uri::{url_decode, url_decoding};

verus! {

/// The table rows for the files of a directory; `None` when the day of some
/// file cannot be formatted.
pub fn generate_tds(files: &Vec<DirEntryInfo>) -> (r: Option<String>)
    ensures
        r is Some <==> table_rows(entry_views(files@), ""@) is Some,
        r is Some ==> table_rows(entry_views(files@), ""@) == Some(r->0@),
{
    listing_rows(files, "")
}

/// The default page's text: the template read (or `Page not found!`) with
/// every `{replace_me!}` replaced by `rows`.
pub open spec fn default_page_text(template: Option<Seq<char>>, rows: Seq<char>) -> Seq<char> {
    let text = match template {
        Some(t) => t,
        None => "Page not found!"@,
    };
    replace_all(text, "{replace_me!}"@, rows)
}

/// The default page's bytes, from the template read (`None` when it could
/// not be read) and the files of the songs directory; `None` when the day of
/// some file cannot be formatted.
pub fn default_page(template: Option<String>, files: &Vec<DirEntryInfo>) -> (r: Option<Vec<u8>>)
    ensures
        r is Some <==> table_rows(entry_views(files@), ""@) is Some,
        r is Some ==> r->0@ == encode_utf8(
            default_page_text(
                match template {
                    Some(t) => Some(t@),
                    None => None,
                },
                table_rows(entry_views(files@), ""@)->0,
            ),
        ),
{
    let contents = match template {
        Some(t) => t,
        None => "Page not found!".to_owned(),
    };
    let tds = match generate_tds(files) {
        Some(t) => t,
        None => return None,
    };
    proof {
        reveal_strlit("{replace_me!}");
    }
    let content_to_serve = replace(contents.as_str(), "{replace_me!}", tds.as_str());
    Some(content_to_serve.as_str().as_bytes_vec())
}

/// The path of the song file a request path names: `./static/songs` and the
/// percent-decoded path; `None` when decoding does not give UTF-8.
pub fn song_path(path: &str) -> (r: Option<String>)
    ensures
        r is Some <==> url_decoding(path@) is Some,
        r is Some ==> r->0@ == "./static/songs"@ + url_decoding(path@)->0,
{
    match url_decode(path) {
        Some(decoded) => {
            let mut p = "./static/songs".to_owned();
            p.append(decoded.as_str());
            Some(p)
        },
        None => None,
    }
}

/// What was read for a request, by the kind of path it had.
pub enum Fetched {
    /// For the site root: the template (`None` when it could not be read)
    /// and the files of the songs directory.
    DefaultPage(Option<String>, Vec<DirEntryInfo>),
    /// The bytes of the song file, or why they could not be read.
    Song(Result<Vec<u8>, ReferaError>),
}

/// The file served for `name`, stamped with `now` and a recorded size of 0,
/// from what was read for it (of the kind the path asks for): the default
/// page, or the song's bytes (nothing when they could not be read). `None`
/// when the day of some listed file cannot be formatted.
pub fn get_file(name: &str, fetched: Fetched, now: u64) -> (f: Option<FileCacheTuple>)
    requires
        is_default_page(name@) <==> fetched is DefaultPage,
    ensures
        match fetched {
            Fetched::DefaultPage(template, files) => {
                &&& f is Some <==> table_rows(entry_views(files@), ""@) is Some
                &&& f is Some ==> f->0@ == (
                    encode_utf8(
                        default_page_text(
                            match template {
                                Some(t) => Some(t@),
                                None => None,
                            },
                            table_rows(entry_views(files@), ""@)->0,
                        ),
                    ),
                    now,
                    0usize,
                )
            },
            Fetched::Song(Ok(data)) => f is Some && f->0@ == (data@, now, 0usize),
            Fetched::Song(Err(_)) => f is Some && f->0@ == (Seq::<u8>::empty(), now, 0usize),
        },
{
    let ve = match fetched {
        Fetched::DefaultPage(template, files) => match default_page(template, &files) {
            Some(page) => page,
            None => return None,
        },
        Fetched::Song(Ok(data)) => data,
        Fetched::Song(Err(_)) => Vec::new(),
    };
    Some(FileCacheTuple(ve, now, 0))
}

/// The not-found page's bytes, from its text.
pub fn error_page(contents: String) -> (v: Vec<u8>)
    ensures
        v@ == encode_utf8(contents@),
{
    contents.as_str().as_bytes_vec()
}

/// Accepts uploaded content; nothing is stored, and the answer is `ok`.
pub fn post_content(content: Vec<u8>, name: &str) -> (r: &'static str)
    ensures
        r@ == "ok"@,
{
    "ok"
}

} // verus!
