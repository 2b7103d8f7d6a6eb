//! The decisions the request handler takes: reading the request line,
//! refusing what is not HTTP, answering `GET` from the cache or from a file
//! read for it, and what the access log records.

use vstd::prelude::*;
use vstd::hash_map::StringHashMap;
use crate::core_cache::server_cache::{
    evictions_needed, file_lookup, insert_file, insert_file_post, law_lookup_after_insert,
    FileCache, FileCacheTuple,
};
use crate::file_table::{
    evict, lemma_evict_submap, lemma_put, removable, FileView,
};
use crate::http::http_status::{status_line_of, StatusCode};
use crate::response::ReferaResponse;
use crate::text::{
    chars_of, contains, contains_sub, decimal, decimal_string, split_fields, split_on, string_of,
};
use crate::uri::{strip_query, without_query};

verus! {

/// The `n`-th space-separated field of a request line, or `default`.
pub open spec fn line_field(line: Seq<char>, n: int, default: Seq<char>) -> Seq<char> {
    let fields = split_fields(line, ' ');
    if n < fields.len() {
        fields[n]
    } else {
        default
    }
}

/// The method of a request line (`Unknown method` when absent).
pub open spec fn method_of(line: Seq<char>) -> Seq<char> {
    line_field(line, 0, "Unknown method"@)
}

/// The target of a request line (empty when absent).
pub open spec fn target_of(line: Seq<char>) -> Seq<char> {
    line_field(line, 1, Seq::empty())
}

/// The protocol version of a request line (`Non-HTTP request` when absent).
pub open spec fn version_of(line: Seq<char>) -> Seq<char> {
    line_field(line, 2, "Non-HTTP request"@)
}

/// Splits a request line into its method, target and version.
pub fn parse_request_line(line: &str) -> (r: (String, String, String))
    ensures
        r.0@ == method_of(line@),
        r.1@ == target_of(line@),
        r.2@ == version_of(line@),
{
    let cs = chars_of(line);
    let parts = split_on(&cs, ' ');
    let ghost views = parts@.map_values(|p: Vec<char>| p@);
    assert(views.len() == parts@.len());
    let method = if parts.len() > 0 {
        assert(views[0] == parts@[0]@);
        string_of(&parts[0])
    } else {
        "Unknown method".to_owned()
    };
    let url = if parts.len() > 1 {
        assert(views[1] == parts@[1]@);
        string_of(&parts[1])
    } else {
        String::new()
    };
    let version = if parts.len() > 2 {
        assert(views[2] == parts@[2]@);
        string_of(&parts[2])
    } else {
        "Non-HTTP request".to_owned()
    };
    (method, url, version)
}

/// Protocol versions the server answers: any version field that contains
/// `HTTP/1.1`, `HTTP/1.0` or `HTTP/2.0`.
pub open spec fn supported_version(version: Seq<char>) -> bool {
    contains_sub(version, "HTTP/1.1"@) || contains_sub(version, "HTTP/1.0"@) || contains_sub(
        version,
        "HTTP/2.0"@,
    )
}

/// What the handler does with a request.
pub enum RequestAction {
    /// Answer 400: the version is not one the server answers.
    BadRequest,
    /// Answer 204: the method is not a `GET`.
    NoContent,
    /// Answer the `GET` for this target.
    Get(String),
}

/// What the handler does with a request whose request line is `line`: a
/// version it does not answer gets 400; otherwise a method containing `GET`
/// is answered for its target, and anything else gets 204.
pub fn classify_request(line: &str) -> (a: RequestAction)
    ensures
        !supported_version(version_of(line@)) ==> a is BadRequest,
        supported_version(version_of(line@)) && contains_sub(method_of(line@), "GET"@) ==> (a
            matches RequestAction::Get(url) && url@ == target_of(line@)),
        supported_version(version_of(line@)) && !contains_sub(method_of(line@), "GET"@)
            ==> a is NoContent,
{
    let (method, url, version) = parse_request_line(line);
    if !contains(version.as_str(), "HTTP/1.1") && !contains(version.as_str(), "HTTP/1.0")
        && !contains(version.as_str(), "HTTP/2.0") {
        return RequestAction::BadRequest;
    }
    if contains(method.as_str(), "GET") {
        RequestAction::Get(url)
    } else {
        RequestAction::NoContent
    }
}

/// The value of header field `name`, or `default`.
pub open spec fn field_or(
    headers: Map<Seq<char>, String>,
    name: Seq<char>,
    default: Seq<char>,
) -> Seq<char> {
    if headers.contains_key(name) {
        headers[name]@
    } else {
        default
    }
}

/// What the access log records of a request besides its request line: the
/// client's address (`X-Forwarded-For`, unless it is absent or a single
/// space, then the peer's address), the user agent (`Unknown user agent`
/// when absent) and the referer (a single space when absent).
pub fn request_log_fields(headers: &StringHashMap<String>, peer: &str) -> (r: (
    String,
    String,
    String,
))
    ensures
        r.0@ == if field_or(headers@, "X-Forwarded-For"@, " "@) == " "@ {
            peer@
        } else {
            headers@["X-Forwarded-For"@]@
        },
        r.1@ == field_or(headers@, "User-Agent"@, "Unknown user agent"@),
        r.2@ == field_or(headers@, "Referer"@, " "@),
{
    let user_agent = match headers.get("User-Agent") {
        Some(v) => v.clone(),
        None => "Unknown user agent".to_owned(),
    };
    let referer = match headers.get("Referer") {
        Some(v) => v.clone(),
        None => " ".to_owned(),
    };
    let forwarded = match headers.get("X-Forwarded-For") {
        Some(v) => v.clone(),
        None => " ".to_owned(),
    };
    let space = " ".to_owned();
    let ip = if forwarded == space {
        peer.to_owned()
    } else {
        forwarded
    };
    (ip, user_agent, referer)
}

/// A response with the given status, no header fields and an empty body.
pub fn empty_response(code: StatusCode) -> (r: ReferaResponse)
    ensures
        r.status@ == status_line_of(code),
        r.headers@ == Map::<Seq<char>, String>::empty(),
        r.body@ == Seq::<u8>::empty(),
{
    ReferaResponse::new(code.status_line(), None, Vec::new())
}

/// The header fields of a successful answer: the server's name under
/// `Server` and `originating-server`, and `size` in decimal under `Content-Length`.
pub open spec fn ok_headers_hold(headers: Map<Seq<char>, String>, size: nat) -> bool {
    &&& headers.dom() == set!["Server"@, "originating-server"@, "Content-Length"@]
    &&& headers["Server"@]@ == "refera-RustWebServer"@
    &&& headers["originating-server"@]@ == "refera-RustWebServer"@
    &&& headers["Content-Length"@]@ == decimal(size)
}

/// A 200 answer with `body`, announcing `size` under `Content-Length`.
pub fn ok_response(body: Vec<u8>, size: usize) -> (r: ReferaResponse)
    ensures
        r.status@ == status_line_of(StatusCode::Success),
        ok_headers_hold(r.headers@, size as nat),
        r.body@ == body@,
{
    proof {
        reveal_strlit("Server");
        reveal_strlit("originating-server");
        reveal_strlit("Content-Length");
        assert("Server"@.len() != "originating-server"@.len());
        assert("Server"@.len() != "Content-Length"@.len());
        assert("originating-server"@.len() != "Content-Length"@.len());
    }
    let mut headers: StringHashMap<String> = StringHashMap::new();
    headers.insert("Server".to_owned(), "refera-RustWebServer".to_owned());
    headers.insert("originating-server".to_owned(), "refera-RustWebServer".to_owned());
    headers.insert("Content-Length".to_owned(), decimal_string(size as u64));
    assert(headers@.dom() =~= set!["Server"@, "originating-server"@, "Content-Length"@]);
    ReferaResponse::new(StatusCode::Success.status_line(), Some(headers), body)
}

/// A 404 answer with the not-found page.
pub fn not_found_reply(page: Vec<u8>) -> (r: ReferaResponse)
    ensures
        r.status@ == status_line_of(StatusCode::NotFound),
        r.headers@ == Map::<Seq<char>, String>::empty(),
        r.body@ == page@,
{
    ReferaResponse::new(StatusCode::NotFound.status_line(), None, page)
}

/// How a `GET` is answered.
pub enum ReplyPlan {
    /// From the cache, with this answer.
    Cached(ReferaResponse),
    /// By reading the file for this path (the target without its query).
    Load(String),
}

/// How a `GET` of `url` is answered: when the cache holds the target without
/// its query, with a 200 carrying the cached bytes and announcing the
/// cached size; otherwise by reading the file for that path.
pub fn get_reply(cache: &FileCache, url: &str) -> (r: ReplyPlan)
    requires
        cache.wf(),
    ensures
        cache.files().contains_key(without_query(url@)) ==> (r matches ReplyPlan::Cached(resp)
            && resp.status@ == status_line_of(StatusCode::Success) && ok_headers_hold(
            resp.headers@,
            cache.files()[without_query(url@)].2 as nat,
        ) && resp.body@ == cache.files()[without_query(url@)].0),
        !cache.files().contains_key(without_query(url@)) ==> (r matches ReplyPlan::Load(path)
            && path@ == without_query(url@)),
{
    let no_query_params = strip_query(url);
    match file_lookup(cache, no_query_params.as_str()) {
        Some(cf) => ReplyPlan::Cached(ok_response(cf.0, cf.2)),
        None => ReplyPlan::Load(no_query_params),
    }
}

/// Answers a `GET` for `name` with the file read for it: a non-empty file
/// is stored in the cache (see `insert_file`) and answered with a 200
/// announcing its length; an empty one is not stored, and `None` asks for
/// the not-found answer.
pub fn finish_reply(cache: &mut FileCache, name: &str, file: FileCacheTuple, now: u64) -> (r:
    Option<ReferaResponse>)
    requires
        old(cache).wf(),
        file.0@.len() > 0 && file.0@.len() < old(cache).max_file_size() ==> evictions_needed(
            old(cache).current_cache_size(),
            old(cache).max_cache_files(),
        ) <= removable(old(cache).entries(), now),
    ensures
        file.0@.len() > 0 ==> insert_file_post(*old(cache), *final(cache), name@, file@, now)
            && (r matches Some(resp) && resp.status@ == status_line_of(StatusCode::Success)
            && ok_headers_hold(resp.headers@, file.0@.len()) && resp.body@ == file.0@),
        file.0@.len() == 0 ==> *final(cache) == *old(cache) && r is None,
{
    if file.0.len() > 0 {
        insert_file(cache, name, &file, now);
        let size = file.0.len();
        Some(ok_response(file.0, size))
    } else {
        None
    }
}

/// A file served from disk is served from the cache on the next `GET` of
/// the same path (whatever its query): when `finish_reply` stored a
/// non-empty file under the size limit, the cache then holds those bytes
/// for the path, so `get_reply` answers from the cache with them.
pub proof fn law_second_get_from_cache(
    before: FileCache,
    after: FileCache,
    url: Seq<char>,
    file: FileView,
    now: u64,
)
    requires
        before.wf(),
        file.0.len() > 0,
        file.0.len() < before.max_file_size(),
        insert_file_post(before, after, without_query(url), file, now),
    ensures
        after.wf(),
        after.files().contains_key(without_query(url)),
        after.files()[without_query(url)].0 == file.0,
{
    law_lookup_after_insert(before, after, without_query(url), file, now);
}

/// Every stored body is non-empty.
pub open spec fn bodies_non_empty(cache: FileCache) -> bool {
    forall|k: Seq<char>| #[trigger] cache.files().contains_key(k) ==> cache.files()[k].0.len() > 0
}

/// Only non-empty bodies are ever cached: a cache whose stored bodies are
/// all non-empty keeps that through a `finish_reply` (which stores the file
/// read only when it is non-empty, and otherwise leaves the cache as it was).
pub proof fn law_only_non_empty_bodies_cached(
    before: FileCache,
    after: FileCache,
    name: Seq<char>,
    file: FileView,
    now: u64,
)
    requires
        before.wf(),
        bodies_non_empty(before),
        file.0.len() > 0 ==> insert_file_post(before, after, name, file, now),
        file.0.len() == 0 ==> after == before,
    ensures
        bodies_non_empty(after),
{
    if file.0.len() > 0 {
        before.lemma_wf();
        if file.0.len() < before.max_file_size() {
            let n = evictions_needed(before.current_cache_size(), before.max_cache_files());
            lemma_evict_submap(before.entries(), n, now);
            lemma_put(evict(before.entries(), n, now), name, file);
            assert forall|k: Seq<char>| #[trigger] after.files().contains_key(k) implies after.files()[
                k
            ].0.len() > 0 by {
                if k != name {
                    assert(before.files().contains_key(k));
                }
            }
        } else {
            assert(after.files() == before.files());
        }
    } else {
        assert(after.files() == before.files());
    }
}

} // verus!
