use fxv_storage_server::errors::{ErrorKind, IoKind};
use fxv_storage_server::etag::Md5Stream;
use fxv_storage_server::fs_path::FsPath;
use fxv_storage_server::metadata_cache::{
    apply_custom_headers, cache_path, extract_user_metadata_headers, get_or_compute_metadata,
    load_metadata_cache, metadata_of_contents, schema_version, system_time_to_secs,
    upsert_custom_header, validate_header_entry, ChecksumSet, HeaderEntry, MetadataStep,
    ObjectMetadataCache, METADATA_CACHE_DIR,
};
use fxv_storage_server::time::UnixTime;
use http::header::{HeaderMap, HeaderName, HeaderValue};

fn at(secs: i64) -> UnixTime {
    UnixTime { secs, nanos: 0 }
}

fn entry(key: &str, value: &str) -> HeaderEntry {
    HeaderEntry { key: key.to_owned(), value: value.to_owned() }
}

fn sample() -> ObjectMetadataCache {
    ObjectMetadataCache::from_current_state(
        at(123),
        "\"abc\"".to_owned(),
        ChecksumSet {
            md5: "deadbeef".to_owned(),
            crc32: Some("c0ffee".to_owned()),
            crc64nvme: None,
        },
        vec![entry("x-amz-meta-owner", "alice")],
    )
}

#[test]
fn test_metadata_cache_round_trip() {
    let metadata = sample();
    let loaded = load_metadata_cache(Some(metadata.clone()), 123).expect("load");
    assert_eq!(loaded, metadata);
}

#[test]
fn test_upsert_custom_header_replaces_case_insensitively() {
    let mut headers = vec![HeaderEntry {
        key: "Content-Type".to_owned(),
        value: "text/plain".to_owned(),
    }];

    upsert_custom_header(&mut headers, "content-type", "application/json").expect("upsert");
    assert_eq!(headers.len(), 1);
    assert_eq!(headers[0].value, "application/json");
}

#[test]
fn metadata_of_another_second_is_not_used() {
    assert!(load_metadata_cache(Some(sample()), 124).is_none());
    assert!(load_metadata_cache(None, 123).is_none());
    let within = UnixTime { secs: 123, nanos: 500_000_000 };
    assert!(matches!(get_or_compute_metadata(Some(sample()), within), MetadataStep::Ready(m) if m == sample()));
    assert!(matches!(get_or_compute_metadata(Some(sample()), at(122)), MetadataStep::HashContents));
    assert!(matches!(get_or_compute_metadata(None, at(123)), MetadataStep::HashContents));
}

#[test]
fn metadata_of_current_state() {
    let metadata = sample();
    assert_eq!(metadata.schema_version, 1);
    assert_eq!(schema_version(), 1);
    assert_eq!(metadata.last_modified_unix_secs, 123);
    assert_eq!(metadata.etag, "\"abc\"");
    assert_eq!(metadata.checksums.crc32, Some("c0ffee".to_owned()));
}

#[test]
fn metadata_from_contents() {
    let mut contents = Md5Stream::new();
    contents.update(b"hello world");
    let metadata = metadata_of_contents(at(7), contents);
    assert_eq!(metadata.etag, "\"5eb63bbbe01eeed093cb22bb8f5acdc3\"");
    assert_eq!(
        metadata.checksums,
        ChecksumSet::of_md5("5eb63bbbe01eeed093cb22bb8f5acdc3".to_owned())
    );
    assert_eq!(metadata.last_modified_unix_secs, 7);
    assert!(metadata.custom_headers.is_empty());
}

#[test]
fn times_before_the_epoch_count_as_zero() {
    assert_eq!(system_time_to_secs(at(-1)), 0);
    assert_eq!(system_time_to_secs(UnixTime { secs: 5, nanos: 999_999_999 }), 5);
}

#[test]
fn cache_files_mirror_the_serve_directory() {
    let dir = FsPath::from_text("/srv/files");
    assert_eq!(METADATA_CACHE_DIR, ".fxv-metadata-cache");
    assert_eq!(
        cache_path(&dir, &FsPath::from_text("nested/file.txt")),
        FsPath::from_text("/srv/files/.fxv-metadata-cache/nested/file.txt.json")
    );
    assert_eq!(
        cache_path(&dir, &FsPath::from_text("dir/name/./")),
        FsPath::from_text("/srv/files/.fxv-metadata-cache/dir/name.json")
    );
}

#[test]
fn user_metadata_is_extracted() {
    let mut headers = HeaderMap::new();
    headers.append(
        HeaderName::from_static("content-type"),
        HeaderValue::from_static("text/plain"),
    );
    headers.append(
        HeaderName::from_bytes(b"X-Amz-Meta-Owner").unwrap(),
        HeaderValue::from_static("alice"),
    );
    headers.append(
        HeaderName::from_static("x-amz-meta-odd"),
        HeaderValue::from_bytes(b"caf\xc3\xa9").unwrap(),
    );
    headers.append(
        HeaderName::from_static("x-amz-meta-color"),
        HeaderValue::from_static("blue"),
    );
    headers.append(
        HeaderName::from_static("x-amz-meta-owner"),
        HeaderValue::from_static("bob"),
    );
    assert_eq!(
        extract_user_metadata_headers(&headers),
        vec![
            entry("x-amz-meta-owner", "alice"),
            entry("x-amz-meta-owner", "bob"),
            entry("x-amz-meta-color", "blue"),
        ]
    );
}

fn input_fault(e: fxv_storage_server::errors::Error) -> String {
    match e.kind {
        ErrorKind::Io(IoKind::InvalidInput, message) => message,
        other => panic!("unexpected error {:?}", other),
    }
}

#[test]
fn malformed_headers_are_refused() {
    assert_eq!(
        validate_header_entry("X-Owner", "alice").unwrap(),
        entry("X-Owner", "alice")
    );
    assert_eq!(
        input_fault(validate_header_entry("no blanks", "v").unwrap_err()),
        "invalid header name 'no blanks': invalid HTTP header name"
    );
    assert_eq!(
        input_fault(validate_header_entry("", "v").unwrap_err()),
        "invalid header name '': invalid HTTP header name"
    );
    assert_eq!(
        input_fault(validate_header_entry("name", "two\nlines").unwrap_err()),
        "invalid header value for 'name': failed to parse header value"
    );
    let mut list = vec![entry("a", "1")];
    assert!(upsert_custom_header(&mut list, "b", "\u{7f}").is_err());
    assert_eq!(list, vec![entry("a", "1")]);
}

#[test]
fn set_headers_are_found_and_others_stay() {
    let mut list = vec![entry("a", "1"), entry("B", "2"), entry("c", "3")];
    upsert_custom_header(&mut list, "b", "two").unwrap();
    upsert_custom_header(&mut list, "d", "4").unwrap();
    assert_eq!(
        list,
        vec![entry("a", "1"), entry("b", "two"), entry("c", "3"), entry("d", "4")]
    );
}

#[test]
fn applied_headers_replace_and_skip() {
    let mut headers = HeaderMap::new();
    headers.insert(
        HeaderName::from_static("content-type"),
        HeaderValue::from_static("application/octet-stream"),
    );
    headers.insert(HeaderName::from_static("etag"), HeaderValue::from_static("\"t\""));
    apply_custom_headers(
        &mut headers,
        &[
            entry("Content-Type", "text/plain"),
            entry("bad name", "x"),
            entry("x-bad-value", "\r"),
            entry("x-one", "1"),
            entry("x-one", "2"),
        ],
    );
    let sent: Vec<(String, String)> = headers
        .iter()
        .map(|(k, v)| (k.as_str().to_owned(), v.to_str().unwrap().to_owned()))
        .collect();
    assert_eq!(
        sent,
        vec![
            ("content-type".to_owned(), "text/plain".to_owned()),
            ("etag".to_owned(), "\"t\"".to_owned()),
            ("x-one".to_owned(), "2".to_owned()),
        ]
    );
}
