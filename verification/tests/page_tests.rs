use refera::config::Config;
use refera::content_manager::content_parser::{
    default_page, error_page, file_source, get_file, is_default_page_name, parse_file_target,
    FileSource, Fetched,
};
use refera::content_manager::song_site::{generate_tds as song_tds, songs_page};
use refera::content_parser as old_parser;
use refera::dir_listing::{file_type, DirEntryInfo};
use refera::response::refera_error::ReferaError;

fn entry(name: &str, secs: i64, size: u64) -> DirEntryInfo {
    DirEntryInfo { file_name: name.to_string(), modified_secs: secs, modified_nanos: 0, size }
}

#[test]
fn default_config_values() {
    let c = Config::default_config();
    assert_eq!(c.address, "0.0.0.0");
    assert_eq!(c.port, "7151");
    assert_eq!(c.active_threads, 5);
    assert_eq!(c.file_dir, ".");
    assert!(c.tls.is_none());
    assert_eq!(c.max_cache_files, 0);
    assert_eq!(c.largest_cacheable_file_size, 0);
    assert_eq!(c.auth.len(), 0);
}

#[test]
fn root_paths_ask_for_the_index() {
    for p in ["", " ", "/"] {
        assert!(is_default_page_name(p));
        assert!(matches!(file_source(p), Some(FileSource::DefaultPage)));
    }
    assert!(!is_default_page_name("//"));
}

#[test]
fn static_paths_are_decoded() {
    match file_source("/my%20song%2Emp3") {
        Some(FileSource::Static(p)) => {
            assert_eq!(p.probe_dir, "./static/my song%2Emp3");
            assert_eq!(p.file, "./static/my song.mp3");
            assert_eq!(p.dir_index, "./static/my song.mp3/index.html");
            assert_eq!(parse_file_target(&p, true), "./static/my song.mp3/index.html");
            assert_eq!(parse_file_target(&p, false), "./static/my song.mp3");
        }
        _ => panic!("expected a static source"),
    }
    assert!(file_source("/bad%FF").is_none());
}

#[test]
fn pages_fall_back_to_fixed_text() {
    assert_eq!(default_page(None), b"Page not found!".to_vec());
    assert_eq!(default_page(Some("<h1>hi</h1>".to_string())), b"<h1>hi</h1>".to_vec());
    assert_eq!(error_page(None), b"Not found!".to_vec());
    assert_eq!(error_page(Some("gone".to_string())), b"gone".to_vec());
}

#[test]
fn get_file_stamps_and_empties_on_error() {
    let f = get_file("/", Fetched::DefaultPage(None), 42);
    assert_eq!(f.0, b"Page not found!".to_vec());
    assert_eq!(f.1, 42);
    assert_eq!(f.2, 0);
    let f = get_file("/x", Fetched::Static(Ok(vec![9, 8])), 7);
    assert_eq!(f.0, vec![9, 8]);
    let f = get_file("/x", Fetched::Static(Err(ReferaError::Io("missing".to_string(), "entity not found".to_string()))), 7);
    assert!(f.0.is_empty());
}

#[test]
fn error_messages() {
    let e = ReferaError::Io(
        "No such file or directory (os error 2)".to_string(),
        "entity not found".to_string(),
    );
    assert_eq!(e.message(), "IO error: No such file or directory (os error 2)");
    assert_eq!(e.description(), "entity not found");
}

#[test]
fn file_types_follow_extensions() {
    assert_eq!(file_type("song.mp3"), "mp3");
    assert_eq!(file_type("archive.tar.gz"), "gz");
    assert_eq!(file_type("README"), "unknown_type");
    assert_eq!(file_type(".hidden"), "unknown_type");
    assert_eq!(file_type("trailing."), "");
    assert_eq!(file_type(".."), "unknown_type");
}

#[test]
fn song_rows_link_under_songs() {
    let rows = song_tds(&vec![entry("a.mp3", 0, 1234)]).unwrap();
    assert_eq!(
        rows,
        "<tr>\n<td><a href=\"songs/a.mp3\">a.mp3</a> </td>\n<td>01/01/1970</td>\n<td>mp3</td>\n<td>1234</td>\n</tr>\n"
    );
    assert_eq!(song_tds(&Vec::new()).unwrap(), "");
}

#[test]
fn listing_dates_are_utc_days() {
    let rows = old_parser::generate_tds(&vec![entry("x", 86_399, 0), entry("y.txt", 1_700_000_000, 5)]).unwrap();
    assert_eq!(
        rows,
        "<tr>\n<td><a href=\"x\">x</a> </td>\n<td>01/01/1970</td>\n<td>unknown_type</td>\n<td>0</td>\n</tr>\n\
         <tr>\n<td><a href=\"y.txt\">y.txt</a> </td>\n<td>14/11/2023</td>\n<td>txt</td>\n<td>5</td>\n</tr>\n"
    );
}

#[test]
fn unrepresentable_day_gives_none() {
    assert!(old_parser::generate_tds(&vec![entry("x", i64::MAX, 0)]).is_none());
    assert!(songs_page(b"{replace_me!}".to_vec(), &vec![entry("x", i64::MIN, 0)]).is_none());
}

#[test]
fn songs_page_fills_every_placeholder() {
    let page = songs_page(b"<t>{replace_me!}</t>{replace_me!}".to_vec(), &vec![entry("s.ogg", 0, 1)]).unwrap();
    let row = "<tr>\n<td><a href=\"songs/s.ogg\">s.ogg</a> </td>\n<td>01/01/1970</td>\n<td>ogg</td>\n<td>1</td>\n</tr>\n";
    assert_eq!(String::from_utf8(page).unwrap(), format!("<t>{row}</t>{row}"));
}

#[test]
fn old_parser_pages() {
    let page = old_parser::default_page(Some("[{replace_me!}]".to_string()), &Vec::new()).unwrap();
    assert_eq!(page, b"[]".to_vec());
    let page = old_parser::default_page(None, &vec![entry("a", 0, 0)]).unwrap();
    assert_eq!(page, b"Page not found!".to_vec());
    assert_eq!(old_parser::song_path("/a%20b.mp3").unwrap(), "./static/songs/a b.mp3");
    assert!(old_parser::song_path("%C3%28").is_none());
    assert_eq!(old_parser::error_page("nf".to_string()), b"nf".to_vec());
    assert_eq!(old_parser::post_content(vec![1], "x"), "ok");
    let f = old_parser::get_file("", old_parser::Fetched::DefaultPage(Some("t".to_string()), Vec::new()), 3).unwrap();
    assert_eq!(f.0, b"t".to_vec());
    assert_eq!(f.1, 3);
    let f = old_parser::get_file("/s", old_parser::Fetched::Song(Err(ReferaError::Io("e".to_string(), "d".to_string()))), 3).unwrap();
    assert!(f.0.is_empty());
}

#[test]
fn percent_escapes_need_two_hex_digits() {
    match file_source("/a%2x%41%") {
        Some(FileSource::Static(p)) => assert_eq!(p.file, "./static/a%2xA%"),
        _ => panic!("expected a static source"),
    }
    match file_source("/%%41%4a%6A") {
        Some(FileSource::Static(p)) => assert_eq!(p.file, "./static/%AJj"),
        _ => panic!("expected a static source"),
    }
}
