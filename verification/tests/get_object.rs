use fxv_storage_server::etag::Md5Stream;
use fxv_storage_server::fs_path::FsPath;
use fxv_storage_server::handlers::get_object::{
    fmt_http_date, get_object, is_describable, is_servable, parse_http_date, respond_not_modified,
    respond_object, GetPlan,
};
use fxv_storage_server::metadata_cache::{metadata_of_contents, HeaderEntry};
use fxv_storage_server::range::ByteRange;
use fxv_storage_server::response::{Body, Response};
use fxv_storage_server::store::{compute_entry, FileEntry, FileStore};
use fxv_storage_server::time::UnixTime;
use http::header::{HeaderMap, HeaderName, HeaderValue};

const MODIFIED: UnixTime = UnixTime { secs: 784111777, nanos: 250_000_000 };

fn file(name: &str, contents: &[u8]) -> FileEntry {
    let mut stream = Md5Stream::new();
    stream.update(contents);
    compute_entry(
        FsPath::from_text("/srv").join(&FsPath::from_text(name)),
        contents.len() as u64,
        MODIFIED,
        metadata_of_contents(MODIFIED, stream),
    )
}

fn serving(name: &str, contents: &[u8]) -> FileStore {
    FileStore::build(
        &FsPath::from_text("/srv"),
        vec![(name.to_owned(), Ok(file(name, contents)))],
    )
}

fn request(pairs: &[(&str, &str)]) -> HeaderMap {
    let mut headers = HeaderMap::new();
    for (name, value) in pairs {
        headers.append(
            HeaderName::from_bytes(name.as_bytes()).unwrap(),
            HeaderValue::from_str(value).unwrap(),
        );
    }
    headers
}

/// Answers a request, with every file that is indexed present on disk.
fn answer(store: &FileStore, key: &str, pairs: &[(&str, &str)]) -> Response {
    match get_object(store, key, &request(pairs)) {
        GetPlan::Refuse(response) => response,
        GetPlan::NotModified(entry) => respond_not_modified(&entry),
        GetPlan::Serve { entry, range } => respond_object(&entry, range, true),
    }
}

fn header<'a>(response: &'a Response, name: &str) -> &'a str {
    response.headers.get(name).expect(name).to_str().unwrap()
}

/// The bytes that a response carries, if its file holds `contents`.
fn body_of(response: &Response, contents: &[u8]) -> Vec<u8> {
    match &response.body {
        Body::Empty => Vec::new(),
        Body::Bytes(bytes) => bytes.clone(),
        Body::File { .. } => contents.to_vec(),
        Body::FileRange { start, len, .. } => {
            contents[*start as usize..(*start + *len) as usize].to_vec()
        }
    }
}

#[test]
fn test_get_existing_file_200() {
    let store = serving("hello.txt", b"hello world");
    let resp = answer(&store, "hello.txt", &[]);
    assert_eq!(resp.status, 200);
    assert_eq!(body_of(&resp, b"hello world"), b"hello world");
    assert!(matches!(&resp.body, Body::File { path } if *path == FsPath::from_text("/srv/hello.txt")));
}

#[test]
fn test_get_missing_file_404() {
    let store = serving("hello.txt", b"hello world");
    let resp = answer(&store, "missing.txt", &[]);
    assert_eq!(resp.status, 404);
    assert_eq!(
        String::from_utf8(body_of(&resp, b"")).unwrap(),
        "<?xml version=\"1.0\" encoding=\"UTF-8\"?><Error><Code>NoSuchKey</Code><Message>The specified key does not exist.</Message></Error>"
    );
    assert_eq!(header(&resp, "content-type"), "application/xml");
}

#[test]
fn test_get_returns_etag_and_last_modified() {
    let store = serving("data.bin", b"some data");
    let resp = answer(&store, "data.bin", &[]);
    assert_eq!(resp.status, 200);
    assert!(header(&resp, "etag").starts_with('"'), "ETag must be quoted");
    assert!(resp.headers.contains_key("last-modified"), "Last-Modified must be present");
    assert_eq!(header(&resp, "last-modified"), "Sun, 06 Nov 1994 08:49:37 GMT");
}

#[test]
fn test_range_request_206() {
    let store = serving("range.bin", b"0123456789");
    let resp = answer(&store, "range.bin", &[("Range", "bytes=2-5")]);
    assert_eq!(resp.status, 206);
    assert_eq!(header(&resp, "content-range"), "bytes 2-5/10");
    assert_eq!(header(&resp, "content-length"), "4");
    assert_eq!(body_of(&resp, b"0123456789"), b"2345");
}

#[test]
fn test_if_none_match_304() {
    let store = serving("cached.txt", b"cached");
    // First request to get the ETag
    let resp1 = answer(&store, "cached.txt", &[]);
    assert_eq!(resp1.status, 200);
    let etag = header(&resp1, "etag").to_owned();
    // Second request with the ETag
    let resp2 = answer(&store, "cached.txt", &[("If-None-Match", &etag)]);
    assert_eq!(resp2.status, 304);
    assert_eq!(header(&resp2, "etag"), etag);
    assert!(matches!(resp2.body, Body::Empty));
}

#[test]
fn test_if_match_412_on_mismatch() {
    let store = serving("file.bin", b"content");
    let resp = answer(
        &store,
        "file.bin",
        &[("If-Match", "\"wrongetag000000000000000000000000000000000000000000000000000000000000\"")],
    );
    assert_eq!(resp.status, 412);
}

#[test]
fn test_nested_path() {
    let store = serving("a/b/file.txt", b"nested");
    let resp = answer(&store, "a/b/file.txt", &[]);
    assert_eq!(resp.status, 200);
    assert_eq!(body_of(&resp, b"nested"), b"nested");
}

#[test]
fn test_range_not_satisfiable_416() {
    let store = serving("small.bin", b"hi");
    let resp = answer(&store, "small.bin", &[("Range", "bytes=100-200")]);
    assert_eq!(resp.status, 416);
    assert_eq!(header(&resp, "content-range"), "bytes */2");
    assert_eq!(header(&resp, "content-type"), "application/xml");
}

#[test]
fn the_last_modified_date_can_be_sent_back() {
    let store = serving("cached.txt", b"cached");
    let date = header(&answer(&store, "cached.txt", &[]), "last-modified").to_owned();
    assert_eq!(answer(&store, "cached.txt", &[("If-Modified-Since", &date)]).status, 304);
    let earlier = "Sun, 06 Nov 1994 08:49:36 GMT";
    assert_eq!(answer(&store, "cached.txt", &[("If-Modified-Since", earlier)]).status, 200);
    // The object was modified a quarter of a second after the date it shows.
    assert_eq!(answer(&store, "cached.txt", &[("If-Unmodified-Since", &date)]).status, 412);
    let later = "Sun, 06 Nov 1994 08:49:38 GMT";
    assert_eq!(answer(&store, "cached.txt", &[("If-Unmodified-Since", later)]).status, 200);
    // What is no date counts as absent.
    assert_eq!(answer(&store, "cached.txt", &[("If-Modified-Since", "yesterday")]).status, 200);
}

#[test]
fn dates_are_read_and_written() {
    let t = UnixTime { secs: 784111777, nanos: 0 };
    assert_eq!(fmt_http_date(t), "Sun, 06 Nov 1994 08:49:37 GMT");
    assert_eq!(parse_http_date("Sun, 06 Nov 1994 08:49:37 GMT"), Some(t));
    assert_eq!(parse_http_date("Sunday, 06-Nov-94 08:49:37 GMT"), Some(t));
    assert_eq!(parse_http_date("Sun Nov  6 08:49:37 1994"), Some(t));
    assert_eq!(parse_http_date("soon"), None);
    assert_eq!(fmt_http_date(UnixTime::epoch()), "Thu, 01 Jan 1970 00:00:00 GMT");
}

#[test]
fn all_headers_of_a_whole_object() {
    let store = serving("range.bin", b"0123456789");
    let resp = answer(&store, "range.bin", &[]);
    let sent: Vec<(&str, &str)> =
        resp.headers.iter().map(|(k, v)| (k.as_str(), v.to_str().unwrap())).collect();
    assert_eq!(
        sent,
        vec![
            ("content-type", "application/octet-stream"),
            ("content-length", "10"),
            ("etag", "\"781e5e245d69b566979b86e28d23f2c7\""),
            ("last-modified", "Sun, 06 Nov 1994 08:49:37 GMT"),
            ("accept-ranges", "bytes"),
        ]
    );
}

#[test]
fn stored_headers_do_not_describe_what_is_sent() {
    let mut entry = file("page", b"<p>");
    let tag = entry.etag.clone();
    entry.custom_headers = ["ETag", "content-length", "Content-Range", "last-modified", "Accept-Ranges"]
        .iter()
        .map(|name| HeaderEntry { key: name.to_string(), value: "77".to_owned() })
        .collect();
    entry.custom_headers.push(HeaderEntry { key: "x-own".to_owned(), value: "1".to_owned() });
    let whole = respond_object(&entry, None, true);
    assert_eq!(header(&whole, "etag"), tag);
    assert_eq!(header(&whole, "content-length"), "3");
    assert_eq!(header(&whole, "last-modified"), fmt_http_date(entry.modified));
    assert_eq!(header(&whole, "accept-ranges"), "bytes");
    assert!(whole.headers.get("content-range").is_none());
    assert_eq!(header(&whole, "x-own"), "1");
    assert_eq!(whole.headers.len(), 6);
    let part = respond_object(&entry, Some(ByteRange { start: 1, end: 1 }), true);
    assert_eq!(header(&part, "etag"), tag);
    assert_eq!(header(&part, "content-length"), "1");
    assert_eq!(header(&part, "content-range"), "bytes 1-1/3");
    assert_eq!(part.headers.len(), 7);
}

#[test]
fn stored_headers_are_sent_with_the_object() {
    let mut entry = file("page", b"<p>");
    entry.custom_headers = vec![
        HeaderEntry { key: "Content-Type".to_owned(), value: "text/html".to_owned() },
        HeaderEntry { key: "x-amz-meta-a".to_owned(), value: "1".to_owned() },
        HeaderEntry { key: "not a name".to_owned(), value: "1".to_owned() },
    ];
    assert!(is_servable(&entry));
    let whole = respond_object(&entry, None, true);
    assert_eq!(header(&whole, "content-type"), "text/html");
    assert_eq!(header(&whole, "x-amz-meta-a"), "1");
    assert_eq!(whole.headers.len(), 6);
    let part = respond_object(&entry, Some(ByteRange { start: 1, end: 1 }), true);
    assert_eq!(part.status, 206);
    assert_eq!(header(&part, "content-type"), "text/html");
    assert_eq!(header(&part, "content-range"), "bytes 1-1/3");
    // A response without a body does not repeat them.
    assert_eq!(respond_not_modified(&entry).headers.len(), 2);
}

#[test]
fn a_file_that_cannot_be_opened_is_an_internal_error() {
    let entry = file("lost", b"gone");
    assert_eq!(respond_object(&entry, None, false).status, 500);
}

#[test]
fn entries_that_cannot_be_sent() {
    let mut entry = file("old", b"x");
    entry.modified = UnixTime { secs: -1, nanos: 0 };
    assert!(!is_describable(&entry));
    entry.modified = UnixTime { secs: 253402300800, nanos: 0 };
    assert!(!is_describable(&entry));
    entry.modified = UnixTime { secs: 253402300799, nanos: 0 };
    assert!(is_describable(&entry));
    assert_eq!(fmt_http_date(entry.modified), "Fri, 31 Dec 9999 23:59:59 GMT");
    entry.etag = "\n".to_owned();
    assert!(!is_describable(&entry));
    assert!(!is_servable(&entry));
}
