//! What a request for a path serves: the index page for the site root,
//! otherwise the file under `./static` that the decoded path names, or the
//! `index.html` of the directory it names.

use vstd::prelude::*;
use vstd::utf8::encode_utf8;
use crate::core_cache::server_cache::FileCacheTuple;
use crate::response::refera_error::ReferaError;
use crate::text::{chars_of, replace, replace_all};
use crate::uri::{url_decode, url_decoding};

verus! {

/// Paths that ask for the site's index page: empty, a single space, or `/`.
pub open spec fn is_default_page(name: Seq<char>) -> bool {
    name == Seq::<char>::empty() || name == seq![' '] || name == seq!['/']
}

/// Whether `name` asks for the site's index page.
pub fn is_default_page_name(name: &str) -> (b: bool)
    ensures
        b == is_default_page(name@),
{
    let cs = chars_of(name);
    let b = cs.len() == 0 || (cs.len() == 1 && (cs[0] == ' ' || cs[0] == '/'));
    proof {
        if cs.len() == 1 {
            if cs[0] == ' ' {
                assert(cs@ =~= seq![' ']);
            }
            if cs[0] == '/' {
                assert(cs@ =~= seq!['/']);
            }
        }
        if cs.len() == 0 {
            assert(cs@ =~= Seq::<char>::empty());
        }
    }
    b
}

/// Where the files for a path are looked for.
pub struct StaticPaths {
    /// Whether this directory can be listed decides between the two paths below.
    pub probe_dir: String,
    /// The file read when the path does not name a directory.
    pub file: String,
    /// The file read when the path names a directory.
    pub dir_index: String,
}

/// What a request for a path serves.
pub enum FileSource {
    /// The site's index page.
    DefaultPage,
    /// A file under `./static`.
    Static(StaticPaths),
}

/// The directory probed for a path: `./static`, then the path with every
/// `%20` turned into a space.
pub open spec fn probe_dir_for(name: Seq<char>) -> Seq<char> {
    "./static"@ + replace_all(name, "%20"@, " "@)
}

/// What a request for `name` serves: the index page for the site root;
/// otherwise the paths under `./static` for the percent-decoded `name`, or
/// `None` when decoding does not give UTF-8.
pub fn file_source(name: &str) -> (r: Option<FileSource>)
    ensures
        is_default_page(name@) ==> r matches Some(FileSource::DefaultPage),
        !is_default_page(name@) ==> match url_decoding(name@) {
            None => r is None,
            Some(d) => r matches Some(FileSource::Static(p)) && p.probe_dir@ == probe_dir_for(name@)
                && p.file@ == "./static"@ + d && p.dir_index@ == "./static"@ + d
                + "/index.html"@,
        },
{
    if is_default_page_name(name) {
        return Some(FileSource::DefaultPage);
    }
    proof {
        reveal_strlit("%20");
    }
    let proper_path = replace(name, "%20", " ");
    let decoded = match url_decode(name) {
        Some(d) => d,
        None => return None,
    };
    let mut probe_dir = "./static".to_owned();
    probe_dir.append(proper_path.as_str());
    let mut file = "./static".to_owned();
    file.append(decoded.as_str());
    let mut dir_index = "./static".to_owned();
    dir_index.append(decoded.as_str());
    dir_index.append("/index.html");
    Some(FileSource::Static(StaticPaths { probe_dir, file, dir_index }))
}

/// The file to read for `paths`: the directory's `index.html` when the
/// probed directory could be listed, the file itself otherwise.
pub fn parse_file_target(paths: &StaticPaths, probe_is_dir: bool) -> (r: String)
    ensures
        r@ == if probe_is_dir {
            paths.dir_index@
        } else {
            paths.file@
        },
{
    if probe_is_dir {
        paths.dir_index.clone()
    } else {
        paths.file.clone()
    }
}

/// The text of the index page: what was read, or `Page not found!`.
pub open spec fn default_page_text(contents: Option<Seq<char>>) -> Seq<char> {
    match contents {
        Some(s) => s,
        None => "Page not found!"@,
    }
}

/// The index page's bytes: the text read (`None` when it could not be
/// read), or `Page not found!`.
pub fn default_page(contents: Option<String>) -> (v: Vec<u8>)
    ensures
        v@ == encode_utf8(
            default_page_text(
                match contents {
                    Some(s) => Some(s@),
                    None => None,
                },
            ),
        ),
{
    match contents {
        Some(s) => s.as_str().as_bytes_vec(),
        None => "Page not found!".as_bytes_vec(),
    }
}

/// The not-found page's bytes: the text read (`None` when it could not be
/// read), or `Not found!`.
pub fn error_page(contents: Option<String>) -> (v: Vec<u8>)
    ensures
        v@ == encode_utf8(
            match contents {
                Some(s) => s@,
                None => "Not found!"@,
            },
        ),
{
    match contents {
        Some(s) => s.as_str().as_bytes_vec(),
        None => "Not found!".as_bytes_vec(),
    }
}

/// What was read for a request, by the kind of source it had.
pub enum Fetched {
    /// The index page's text, or `None` when it could not be read.
    DefaultPage(Option<String>),
    /// The bytes of the static file, or why they could not be read.
    Static(Result<Vec<u8>, ReferaError>),
}

/// The bytes served for what was read: the index page as `default_page`
/// makes it; a static file's bytes, or nothing when it could not be read.
pub open spec fn served_bytes(fetched: Fetched) -> Seq<u8> {
    match fetched {
        Fetched::DefaultPage(contents) => encode_utf8(
            default_page_text(
                match contents {
                    Some(s) => Some(s@),
                    None => None,
                },
            ),
        ),
        Fetched::Static(Ok(data)) => data@,
        Fetched::Static(Err(_)) => Seq::empty(),
    }
}

/// The file served for `name`, stamped with `now` and a recorded size of 0,
/// from what was read for it (which must be of the kind `file_source` asks
/// for).
pub fn get_file(name: &str, fetched: Fetched, now: u64) -> (f: FileCacheTuple)
    requires
        is_default_page(name@) <==> fetched is DefaultPage,
    ensures
        f@ == (served_bytes(fetched), now, 0usize),
{
    let ghost g = fetched;
    let data = match fetched {
        Fetched::DefaultPage(contents) => default_page(contents),
        Fetched::Static(Ok(data)) => data,
        Fetched::Static(Err(_)) => Vec::new(),
    };
    proof {
        if g matches Fetched::Static(Err(_)) {
            assert(data@ =~= Seq::<u8>::empty());
        }
    }
    FileCacheTuple(data, now, 0)
}

/// The site root serves what was read of the index page, byte for byte
/// (its UTF-8 encoding), and the fixed text only when nothing could be read;
/// a static file is served as read, and as nothing when it could not be.
pub proof fn law_served_bytes(page: String, data: Vec<u8>, err: ReferaError)
    ensures
        served_bytes(Fetched::DefaultPage(Some(page))) == encode_utf8(page@),
        served_bytes(Fetched::DefaultPage(None)) == encode_utf8("Page not found!"@),
        served_bytes(Fetched::Static(Ok(data))) == data@,
        served_bytes(Fetched::Static(Err(err))) == Seq::<u8>::empty(),
{
}

} // verus!
