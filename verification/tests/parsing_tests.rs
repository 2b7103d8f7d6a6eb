use refera::http::util::{determine_headers, parse_header_line};
use refera::server::{classify_request, parse_request_line, RequestAction};
use refera::text::{contains, decimal_string, replace};
use refera::uri::strip_query;

#[test]
fn header_line_splits_at_first_colon_and_drops_the_others() {
    let (n, v) = parse_header_line(&"Host: localhost:8080".to_string());
    assert_eq!(n, "Host");
    assert_eq!(v, " localhost8080");
    let (n, v) = parse_header_line(&"NoColon".to_string());
    assert_eq!(n, "NoColon");
    assert_eq!(v, "");
    let (n, v) = parse_header_line(&"".to_string());
    assert_eq!(n, "");
    assert_eq!(v, "");
}

#[test]
fn determine_headers_builds_map_and_request_line() {
    let lines = vec![
        "GET /index.html HTTP/1.1".to_string(),
        "User-Agent: curl".to_string(),
        "Accept: */*".to_string(),
        "Accept: text/html".to_string(),
    ];
    let (map, line) = determine_headers(&lines);
    assert_eq!(line, "GET /index.html HTTP/1.1");
    assert_eq!(map.len(), 2);
    assert_eq!(map.get("User-Agent").unwrap(), " curl");
    assert_eq!(map.get("Accept").unwrap(), " text/html");
}

#[test]
fn determine_headers_of_nothing() {
    let (map, line) = determine_headers(&Vec::new());
    assert_eq!(line, "");
    assert_eq!(map.len(), 0);
    let (map, line) = determine_headers(&vec!["POST / HTTP/1.0".to_string()]);
    assert_eq!(line, "POST / HTTP/1.0");
    assert_eq!(map.len(), 0);
}

#[test]
fn request_line_fields_and_defaults() {
    let (m, u, v) = parse_request_line("GET /a?b=c HTTP/1.1");
    assert_eq!((m.as_str(), u.as_str(), v.as_str()), ("GET", "/a?b=c", "HTTP/1.1"));
    let (m, u, v) = parse_request_line("GET");
    assert_eq!((m.as_str(), u.as_str(), v.as_str()), ("GET", "", "Non-HTTP request"));
    let (m, u, v) = parse_request_line("");
    assert_eq!((m.as_str(), u.as_str(), v.as_str()), ("", "", "Non-HTTP request"));
    let (m, u, v) = parse_request_line("GET  / HTTP/1.1");
    assert_eq!((m.as_str(), u.as_str(), v.as_str()), ("GET", "", "/"));
}

#[test]
fn classify_requests() {
    assert!(matches!(classify_request("GET /x HTTP/1.1"), RequestAction::Get(u) if u == "/x"));
    assert!(matches!(classify_request("GET /x HTTP/2.0"), RequestAction::Get(_)));
    assert!(matches!(classify_request("POST /x HTTP/1.0"), RequestAction::NoContent));
    assert!(matches!(classify_request("GET /x SPDY/3"), RequestAction::BadRequest));
    assert!(matches!(classify_request(""), RequestAction::BadRequest));
}

#[test]
fn strip_query_keeps_the_path() {
    assert_eq!(strip_query("/a/b?x=1?y"), "/a/b");
    assert_eq!(strip_query("/plain"), "/plain");
    assert_eq!(strip_query("?q"), "");
}

#[test]
fn decimal_and_search_and_replace() {
    assert_eq!(decimal_string(0), "0");
    assert_eq!(decimal_string(7151), "7151");
    assert_eq!(decimal_string(u64::MAX), u64::MAX.to_string());
    assert!(contains("HTTP/1.1", "HTTP/1.1"));
    assert!(contains("xxHTTP/1.0yy", "HTTP/1.0"));
    assert!(!contains("HTTP/1", "HTTP/1.1"));
    assert!(contains("abc", ""));
    assert_eq!(replace("a%20b%20c", "%20", " "), "a b c");
    assert_eq!(replace("aaa", "aa", "b"), "ba");
    assert_eq!(replace("{x}{x}", "{x}", "é"), "éé");
    assert_eq!(replace("none", "zz", "q"), "none");
}
