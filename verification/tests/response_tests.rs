use refera::config::Config;
use refera::core_cache::server_cache::{cache_init, file_lookup, FileCacheTuple};
use refera::http::http_status::StatusCode;
use refera::response::ReferaResponse;
use refera::server::{empty_response, finish_reply, get_reply, not_found_reply, ok_response, ReplyPlan};

#[test]
fn wire_form_has_head_then_body() {
    let r = ReferaResponse::new("HTTP/1.1 200 OK".to_string(), None, b"hi".to_vec());
    assert_eq!(r.as_u8(), b"HTTP/1.1 200 OK\r\nContent-Length: 2\r\n\r\nhi".to_vec());
    assert_eq!(r.as_str(), "HTTP/1.1 200 OK\r\nContent-Length: 2\r\n\r\nhi");
    assert_eq!(r.headers.len(), 0);
}

#[test]
fn wire_form_counts_bytes_not_chars() {
    let r = ReferaResponse::new("S".to_string(), None, "é".as_bytes().to_vec());
    assert_eq!(r.as_str(), "S\r\nContent-Length: 2\r\n\r\né");
    assert_eq!(r.as_u8(), r.as_str().into_bytes());
}

#[test]
fn wire_form_of_binary_body() {
    let r = ReferaResponse::new("S".to_string(), None, vec![0xff, 0x00]);
    let mut expected = b"S\r\nContent-Length: 2\r\n\r\n".to_vec();
    expected.extend_from_slice(&[0xff, 0x00]);
    assert_eq!(r.as_u8(), expected);
}

#[test]
fn status_lines() {
    assert_eq!(StatusCode::Success.status_line(), "HTTP/1.1 200 OK");
    assert_eq!(StatusCode::NoContent.status_line(), "HTTP/1.1 204 No Content");
    assert_eq!(StatusCode::BadRequest.status_line(), "HTTP/1.1 400 Bad Request");
    assert_eq!(StatusCode::NotFound.status_line(), "HTTP/1.1 404 Not Found");
    let r = empty_response(StatusCode::BadRequest);
    assert_eq!(r.as_u8(), b"HTTP/1.1 400 Bad Request\r\nContent-Length: 0\r\n\r\n".to_vec());
}

#[test]
fn ok_and_not_found_answers() {
    let r = ok_response(b"abc".to_vec(), 3);
    assert_eq!(r.status, "HTTP/1.1 200 OK");
    assert_eq!(r.headers.get("Content-Length").unwrap(), "3");
    assert_eq!(r.headers.get("Server").unwrap(), "refera-RustWebServer");
    assert_eq!(r.headers.get("originating-server").unwrap(), "refera-RustWebServer");
    let r = not_found_reply(b"nf".to_vec());
    assert_eq!(r.status, "HTTP/1.1 404 Not Found");
    assert_eq!(r.body, b"nf".to_vec());
}

#[test]
fn second_get_is_served_from_cache() {
    let mut c = Config::default_config();
    c.max_cache_files = 4;
    c.largest_cacheable_file_size = 1000;
    let mut cache = cache_init(c);
    let path = match get_reply(&cache, "/song.mp3?t=1") {
        ReplyPlan::Load(p) => p,
        ReplyPlan::Cached(_) => panic!("empty cache"),
    };
    assert_eq!(path, "/song.mp3");
    let resp = finish_reply(&mut cache, &path, FileCacheTuple(b"data".to_vec(), 5, 0), 10).unwrap();
    assert_eq!(resp.body, b"data".to_vec());
    assert_eq!(resp.headers.get("Content-Length").unwrap(), "4");
    match get_reply(&cache, "/song.mp3") {
        ReplyPlan::Cached(r) => {
            assert_eq!(r.body, b"data".to_vec());
            assert_eq!(r.headers.get("Content-Length").unwrap(), "0");
        }
        ReplyPlan::Load(_) => panic!("should be cached"),
    }
}

#[test]
fn empty_file_asks_for_not_found_and_is_not_stored() {
    let mut c = Config::default_config();
    c.max_cache_files = 4;
    c.largest_cacheable_file_size = 1000;
    let mut cache = cache_init(c);
    assert!(finish_reply(&mut cache, "/none", FileCacheTuple(Vec::new(), 5, 0), 10).is_none());
    assert!(file_lookup(&cache, "/none").is_none());
}

#[test]
fn only_non_empty_bodies_are_cached() {
    let mut c = Config::default_config();
    c.max_cache_files = 4;
    c.largest_cacheable_file_size = 1000;
    let mut cache = cache_init(c);
    assert!(finish_reply(&mut cache, "/empty", FileCacheTuple(Vec::new(), 1, 0), 10).is_none());
    assert!(finish_reply(&mut cache, "/full", FileCacheTuple(vec![1], 1, 0), 10).is_some());
    assert!(file_lookup(&cache, "/empty").is_none());
    assert!(!file_lookup(&cache, "/full").unwrap().0.is_empty());
}
