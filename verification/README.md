# refera

A small static-file web server. The library (`src/`) holds its logic, verified
with Verus:

- `http::util` — splitting a request head into its request line and header fields;
- `server` — what the handler does with a request line, how a `GET` is answered
  from the cache or from a file read for it, and the access-log fields;
- `core_cache::server_cache` — the bounded file cache, evicting the oldest
  files first (`cache::server_cache` and `server_cache` are simpler caches
  trimmed by a cleaning step);
- `content_manager`, `content_parser`, `dir_listing` — which file a path
  serves, the index and not-found pages, and the HTML table of a directory;
- `response` — responses and their wire form;
- `file_table`, `text`, `uri` — the table behind the caches and text helpers.

`app/` is the program: sockets, threads, the file system and the clock.
