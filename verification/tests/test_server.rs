use fxv_storage_server::errors::{Error, ErrorKind, IoKind};
use fxv_storage_server::etag::Md5Stream;
use fxv_storage_server::fs_path::FsPath;
use fxv_storage_server::handlers::get_object::{get_object, respond_object, GetPlan};
use fxv_storage_server::metadata_cache::metadata_of_contents;
use fxv_storage_server::s3_xml_compat::{s3_error, to_xml_bytes, S3ErrorKind};
use fxv_storage_server::store::{compute_entry, FileStore};
use fxv_storage_server::test_server::{
    add_custom_header, base_url, default_port_range, startup_failure, PortSearch, StartupEvent,
    TestServerError, STARTUP_TIMEOUT_SECS,
};
use fxv_storage_server::time::UnixTime;

fn serving(name: &str) -> FileStore {
    let modified = UnixTime { secs: 5, nanos: 0 };
    let path = FsPath::from_text("/srv").join(&FsPath::from_text(name));
    let entry = compute_entry(path, 0, modified, metadata_of_contents(modified, Md5Stream::new()));
    FileStore::build(&FsPath::from_text("/srv"), vec![(name.to_owned(), Ok(entry))])
}

fn io_error(kind: IoKind, text: &str) -> Error {
    Error::new(ErrorKind::Io(kind, text.to_owned()))
}

#[test]
fn added_headers_are_sent() {
    let mut store = serving("a/b.txt");
    add_custom_header(&mut store, "/a/b.txt", "X-Colour", "red").unwrap();
    let change = add_custom_header(&mut store, "a//b.txt", "x-colour", "blue").unwrap();
    assert_eq!(change.rel_path, FsPath::from_text("a//b.txt"));
    assert_eq!(change.metadata.custom_headers.len(), 1);
    assert_eq!(change.metadata.last_modified_unix_secs, 5);
    match get_object(&store, "a/b.txt", &http::HeaderMap::new()) {
        GetPlan::Serve { entry, range } => {
            let response = respond_object(&entry, range, true);
            assert_eq!(response.headers.get("x-colour").unwrap().to_str().unwrap(), "blue");
            assert_eq!(response.headers.len(), 6);
        }
        other => panic!("unexpected answer {:?}", other),
    }
}

#[test]
fn faults_of_added_headers() {
    let mut store = serving("a.txt");
    let mut fault = |path: &str, key: &str, value: &str| {
        add_custom_header(&mut store, path, key, value).unwrap_err().message()
    };
    assert_eq!(
        fault("../a.txt", "k", "v"),
        "server operation failed: The specified object key is invalid."
    );
    assert_eq!(
        fault("b/c.txt", "k", "v"),
        "server operation failed: object 'b/c.txt' not found"
    );
    assert_eq!(
        fault("a.txt", "k k", "v"),
        "server operation failed: invalid header name 'k k': invalid HTTP header name"
    );
    assert_eq!(
        fault("a.txt", "k", "\u{0}"),
        "server operation failed: invalid header value for 'k': failed to parse header value"
    );
    assert!(store.get("a.txt").unwrap().custom_headers.is_empty());
}

#[test]
fn ports_are_tried_in_turn() {
    let (start, end) = default_port_range(44100);
    assert_eq!((start, end), (44100, 44200));
    let mut search = PortSearch::new(44100, 44102);
    assert_eq!(search.candidate().unwrap(), 44100);
    assert!(search.refused(IoKind::AddrInUse));
    assert_eq!(search.candidate().unwrap(), 44101);
    assert!(!search.refused(IoKind::Other));
    assert_eq!(search.candidate().unwrap(), 44101);
    assert!(search.refused(IoKind::AddrInUse));
    let error = search.candidate().unwrap_err();
    assert!(matches!(&error.kind, ErrorKind::Io(IoKind::AddrNotAvailable, _)));
    assert_eq!(
        error.message(),
        "failed to bind fxv-storage-server on any port in range [44100..44102)"
    );
    assert!(PortSearch::new(5, 5).candidate().is_err());
}

#[test]
fn urls_of_servers() {
    assert_eq!(base_url(8080), "http://127.0.0.1:8080");
}

#[test]
fn test_startup_error_propagates_to_sync_caller() {
    let failed = StartupEvent::Failed(io_error(IoKind::NotFound, "no such directory"));
    let result = startup_failure(failed, false);
    assert!(matches!(result, Some(TestServerError::Startup(_))));
}

#[test]
fn every_startup_report_has_its_outcome() {
    let text = |event, panicked| startup_failure(event, panicked).map(|e| e.message());
    assert_eq!(text(StartupEvent::Started, false), None);
    assert_eq!(
        text(StartupEvent::Failed(io_error(IoKind::Other, "boom")), false),
        Some("server startup failed: boom".to_owned())
    );
    assert_eq!(
        text(StartupEvent::Failed(io_error(IoKind::Other, "boom")), true),
        Some("server background thread panicked".to_owned())
    );
    assert_eq!(STARTUP_TIMEOUT_SECS, 5);
    assert_eq!(
        text(StartupEvent::TimedOut, true),
        Some("timed out waiting 5s for server startup".to_owned())
    );
    assert_eq!(
        text(StartupEvent::Disconnected, false),
        Some("server startup channel closed unexpectedly".to_owned())
    );
    assert_eq!(
        text(StartupEvent::Disconnected, true),
        Some("server background thread panicked".to_owned())
    );
}

#[test]
fn every_s3_error_has_its_status_code_and_message() {
    let all = [
        (S3ErrorKind::NoSuchKey, 404, "NoSuchKey", "The specified key does not exist."),
        (
            S3ErrorKind::NoSuchUpload,
            404,
            "NoSuchUpload",
            "The specified upload does not exist. The upload ID may be invalid, or the upload may have been aborted or completed.",
        ),
        (
            S3ErrorKind::PreconditionFailed,
            412,
            "PreconditionFailed",
            "At least one of the pre-conditions you specified did not hold.",
        ),
        (S3ErrorKind::InvalidRange, 416, "InvalidRange", "The requested range is not satisfiable."),
        (S3ErrorKind::InvalidArgument("why"), 400, "InvalidArgument", "why"),
        (
            S3ErrorKind::InvalidPart,
            400,
            "InvalidPart",
            "One or more of the specified parts could not be found. The part may not have been uploaded, or the specified entity tag may not match the part's entity tag.",
        ),
        (
            S3ErrorKind::MalformedXml,
            400,
            "MalformedXML",
            "The XML you provided was not well-formed or did not validate against our schema.",
        ),
        (
            S3ErrorKind::Internal,
            500,
            "InternalError",
            "We encountered an internal error. Please try again.",
        ),
    ];
    for (kind, status, code, message) in all {
        assert_eq!(kind.status_code(), status);
        assert_eq!(kind.code(), code);
        assert_eq!(kind.message(), message);
        let response = s3_error(kind);
        assert_eq!(response.status, status);
        let xml = format!("<Error><Code>{}</Code><Message>{}</Message></Error>", code, message);
        match response.body {
            fxv_storage_server::response::Body::Bytes(bytes) => assert_eq!(bytes, to_xml_bytes(&xml)),
            other => panic!("unexpected body {:?}", other),
        }
    }
}

#[test]
fn errors_describe_themselves() {
    let text = |kind| Error::new(kind).message();
    assert_eq!(text(ErrorKind::PathTraversal), "path traversal attempt detected");
    assert_eq!(text(ErrorKind::InvalidRange("x".to_owned())), "invalid range: x");
    assert_eq!(text(ErrorKind::UploadNotFound("u".to_owned())), "upload not found: u");
    assert_eq!(
        text(ErrorKind::PartNotFound("u".to_owned(), 7)),
        "part 7 not found for upload u"
    );
    assert_eq!(text(ErrorKind::StripPrefix("prefix not found".to_owned())), "prefix not found");
    assert_eq!(text(ErrorKind::Io(IoKind::NotFound, "gone".to_owned())), "gone");
}
