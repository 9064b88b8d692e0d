use fxv_storage_server::errors::{Error, ErrorKind, IoKind};
use fxv_storage_server::etag::Md5Stream;
use fxv_storage_server::fs_path::FsPath;
use fxv_storage_server::handlers::delete_object::{delete_object, delete_removed, DeleteStart};
use fxv_storage_server::handlers::get_object::{get_object, respond_object, GetPlan};
use fxv_storage_server::handlers::put_object::{
    is_same_object, plan_put, put_dispatch, put_metadata, put_object, put_renamed, put_written, to_object_key,
    write_body_to_temp, BodyDigest, PutJob, PutParams, PutRoute, PutStart, WrittenBody, Written,
};
use fxv_storage_server::metadata_cache::metadata_of_contents;
use fxv_storage_server::response::{Body, Response};
use fxv_storage_server::store::{compute_entry, FileStore};
use fxv_storage_server::time::UnixTime;
use http::header::{HeaderMap, HeaderName, HeaderValue};
use std::collections::HashMap;

const NOW: UnixTime = UnixTime { secs: 1_000_000, nanos: 0 };

/// A server whose files are kept in memory.
struct Server {
    store: FileStore,
    files: HashMap<Vec<u8>, Vec<u8>>,
}

fn request(pairs: &[(&str, &str)]) -> HeaderMap {
    let mut headers = HeaderMap::new();
    for (name, value) in pairs {
        headers.append(
            HeaderName::from_bytes(name.as_bytes()).unwrap(),
            HeaderValue::from_str(value).unwrap(),
        );
    }
    headers
}

fn received(body: &[u8]) -> WrittenBody {
    let mut digest = BodyDigest::new();
    for chunk in body.chunks(5) {
        digest.update(chunk);
    }
    write_body_to_temp(Ok(digest), Ok(())).unwrap().finish(NOW)
}

fn header<'a>(response: &'a Response, name: &str) -> &'a str {
    response.headers.get(name).expect(name).to_str().unwrap()
}

impl Server {
    fn new(existing: &[(&str, &[u8])]) -> Server {
        let root = FsPath::from_text("/srv");
        let mut files = HashMap::new();
        let mut scanned = Vec::new();
        for (name, contents) in existing {
            let path = root.join(&FsPath::from_text(name));
            files.insert(path.bytes.clone(), contents.to_vec());
            let mut stream = Md5Stream::new();
            stream.update(contents);
            let metadata = metadata_of_contents(NOW, stream);
            let entry = compute_entry(path, contents.len() as u64, NOW, metadata);
            scanned.push((name.to_string(), Ok(entry)));
        }
        Server { store: FileStore::build(&root, scanned), files }
    }

    fn put(&mut self, key: &str, pairs: &[(&str, &str)], body: &[u8]) -> Response {
        let job = match put_object(&self.store, key, &request(pairs)) {
            PutStart::Refuse(response) => return response,
            PutStart::Write(job) => job,
        };
        self.files.insert(job.tmp_path.bytes.clone(), body.to_vec());
        let written = received(body);
        match put_written(&self.store, &job, true) {
            Written::Discard(response) => {
                self.files.remove(&job.tmp_path.bytes);
                response
            }
            Written::Rename => {
                let data = self.files.remove(&job.tmp_path.bytes).unwrap();
                self.files.insert(job.abs_path.bytes.clone(), data);
                put_renamed(&mut self.store, job, written, true)
            }
        }
    }

    fn get(&self, key: &str) -> (Response, Vec<u8>) {
        match get_object(&self.store, key, &request(&[])) {
            GetPlan::Serve { entry, range } => {
                let data = self.files.get(&entry.abs_path.bytes).expect("file").clone();
                let response = respond_object(&entry, range, true);
                assert!(matches!(response.body, Body::File { .. }));
                (response, data)
            }
            other => panic!("unexpected answer {:?}", other),
        }
    }
}

/// Basic upload: PUT a file that didn't exist, then GET it back.
#[test]
fn test_put_new_file_200_and_readable() {
    let mut server = Server::new(&[]);
    let resp = server.put("newfile.txt", &[], b"hello from put");
    assert_eq!(resp.status, 200);
    let etag = header(&resp, "etag").to_owned();
    assert!(
        etag.starts_with('"') && etag.ends_with('"'),
        "ETag should be double-quoted"
    );
    assert_eq!(etag, "\"6446cdc0d71c3efcf6a4018ea60e1b51\"");

    // Verify the file is readable via GET
    let (get_resp, body) = server.get("newfile.txt");
    assert_eq!(get_resp.status, 200);
    assert_eq!(body, b"hello from put");
    assert_eq!(header(&get_resp, "etag"), etag);
    assert_eq!(header(&get_resp, "content-length"), "14");
}

/// Overwrite: PUT to an existing key replaces the content.
#[test]
fn test_put_overwrite_file() {
    let mut server = Server::new(&[("file.txt", b"original")]);
    let resp = server.put("file.txt", &[], b"overwritten");
    assert_eq!(resp.status, 200);
    assert_eq!(server.get("file.txt").1, b"overwritten");
    assert_eq!(server.files.len(), 1);
}

/// If-None-Match: * should return 412 if the file already exists.
#[test]
fn test_put_if_none_match_star_412_when_exists() {
    let mut server = Server::new(&[("existing.txt", b"data")]);
    let resp = server.put("existing.txt", &[("If-None-Match", "*")], b"new data");
    assert_eq!(resp.status, 412);
    assert_eq!(server.get("existing.txt").1, b"data");
}

/// If-None-Match: * should succeed when the file does NOT exist.
#[test]
fn test_put_if_none_match_star_200_when_new() {
    let mut server = Server::new(&[]);
    let resp = server.put("brand-new.txt", &[("If-None-Match", "*")], b"first write");
    assert_eq!(resp.status, 200);
}

/// If-Match with matching ETag should succeed.
#[test]
fn test_put_if_match_correct_etag_200() {
    let mut server = Server::new(&[]);

    // Upload the file first and capture its ETag
    let put1 = server.put("cond.txt", &[], b"version1");
    assert_eq!(put1.status, 200);
    let etag = header(&put1, "etag").to_owned();

    // Second PUT with If-Match matching the ETag
    let put2 = server.put("cond.txt", &[("If-Match", &etag)], b"version2");
    assert_eq!(put2.status, 200);
}

/// If-Match with wrong ETag should return 412.
#[test]
fn test_put_if_match_wrong_etag_412() {
    let mut server = Server::new(&[("file.txt", b"original")]);
    let resp = server.put(
        "file.txt",
        &[("If-Match", "\"00000000000000000000000000000000\"")],
        b"new content",
    );
    assert_eq!(resp.status, 412);
}

/// If-Match on a non-existent file should return 412.
#[test]
fn test_put_if_match_nonexistent_412() {
    let mut server = Server::new(&[]);
    let resp = server.put("does-not-exist.txt", &[("If-Match", "\"abcd\"")], b"content");
    assert_eq!(resp.status, 412);
}

/// If-Match: * should succeed regardless of the existing ETag.
#[test]
fn test_put_if_match_star_200() {
    let mut server = Server::new(&[("file.txt", b"original")]);
    let resp = server.put("file.txt", &[("If-Match", "*")], b"updated");
    assert_eq!(resp.status, 200);
}

/// Nested key: PUT to a/b/c.txt goes to the nested directory.
#[test]
fn test_put_nested_key_creates_dirs() {
    let mut server = Server::new(&[]);
    let resp = server.put("a/b/c.txt", &[], b"nested content");
    assert_eq!(resp.status, 200);
    assert_eq!(server.get("a/b/c.txt").1, b"nested content");
    assert!(server.files.contains_key(b"/srv/a/b/c.txt".as_slice()));
}

/// User-controlled x-amz-meta-* headers should be persisted and replayed on GET.
#[test]
fn test_put_persists_user_metadata_headers() {
    let mut server = Server::new(&[]);
    let put_resp = server.put(
        "meta.txt",
        &[("x-amz-meta-owner", "alice"), ("x-amz-meta-color", "blue")],
        b"metadata",
    );
    assert_eq!(put_resp.status, 200);

    let (get_resp, _) = server.get("meta.txt");
    assert_eq!(get_resp.status, 200);
    assert_eq!(header(&get_resp, "x-amz-meta-owner"), "alice");
    assert_eq!(header(&get_resp, "x-amz-meta-color"), "blue");
}

#[test]
fn put_of_an_invalid_key_is_refused() {
    let mut server = Server::new(&[]);
    let resp = server.put("../secret", &[], b"x");
    assert_eq!(resp.status, 400);
    match resp.body {
        Body::Bytes(xml) => assert_eq!(
            String::from_utf8(xml).unwrap(),
            "<?xml version=\"1.0\" encoding=\"UTF-8\"?><Error><Code>InvalidArgument</Code><Message>The specified object key is invalid.</Message></Error>"
        ),
        other => panic!("unexpected body {:?}", other),
    }
    assert!(server.files.is_empty());
}

fn started(store: &FileStore, key: &str, pairs: &[(&str, &str)]) -> PutJob {
    match plan_put(store, key, &request(pairs), "00ff") {
        PutStart::Write(job) => job,
        other => panic!("unexpected start {:?}", other),
    }
}

#[test]
fn a_put_job_knows_its_files() {
    let server = Server::new(&[]);
    let job = started(&server.store, "/a/b.txt", &[("x-amz-meta-k", "v"), ("if-match", "\u{ff}")]);
    assert_eq!(job.object_key, "a/b.txt");
    assert_eq!(job.rel_path, FsPath::from_text("a/b.txt"));
    assert_eq!(job.abs_path, FsPath::from_text("/srv/a/b.txt"));
    assert_eq!(job.tmp_path, FsPath::from_text("/srv/a/b.00ff.fxv_tmp"));
    assert_eq!(job.custom_headers.len(), 1);
    // A value that is not visible ASCII counts as absent.
    assert_eq!(job.if_match, None);
    let metadata = put_metadata(&job, &received(b"hello world"));
    assert_eq!(metadata.etag, "\"5eb63bbbe01eeed093cb22bb8f5acdc3\"");
    assert_eq!(metadata.checksums.md5, "5eb63bbbe01eeed093cb22bb8f5acdc3");
    assert_eq!(metadata.last_modified_unix_secs, 1_000_000);
}

#[test]
fn slashes_in_front_of_a_key_make_no_difference() {
    let mut server = Server::new(&[("old.txt", b"old")]);
    let resp = server.put("/k.txt", &[], b"hello");
    assert_eq!(resp.status, 200);
    let tag = header(&resp, "etag").to_owned();
    assert_eq!(server.store.get("k.txt").unwrap().etag, tag);
    assert!(server.store.get("/k.txt").is_none());
    assert_eq!(server.get("k.txt").1, b"hello");
    assert_eq!(server.get("/k.txt").1, b"hello");
    assert_eq!(server.get("//k.txt").1, b"hello");

    // Conditions see the object under each of its names.
    assert_eq!(server.put("/old.txt", &[("if-none-match", "*")], b"new").status, 412);
    assert_eq!(server.put("k.txt", &[("if-none-match", "*")], b"new").status, 412);
    assert_eq!(server.put("/k.txt", &[("if-match", &tag)], b"new").status, 200);
    assert_eq!(server.get("k.txt").1, b"new");

    // One object takes the place of the other.
    assert_eq!(server.put("k.txt", &[], b"newer").status, 200);
    assert_eq!(server.get("/k.txt").1, b"newer");

    match delete_object(&server.store, "/k.txt") {
        DeleteStart::Remove { abs_path, .. } => {
            assert_eq!(abs_path, FsPath::from_text("/srv/k.txt"));
            assert_eq!(delete_removed(&mut server.store, "/k.txt", Ok(())).status, 204);
        }
        other => panic!("unexpected start {:?}", other),
    }
    assert!(server.store.get("k.txt").is_none());
}

#[test]
fn only_slashes_in_front_are_taken_off_a_key() {
    for key in ["a/b.txt", "/a/b.txt", "///a/b.txt"] {
        assert_eq!(to_object_key(key), "a/b.txt");
    }
    for key in ["a//b.txt", "a/./b.txt", "a/b.txt/", "a b/\u{e9}.txt", ""] {
        assert_eq!(to_object_key(key), key);
        assert!(is_same_object(key, &format!("/{}", key)));
    }
    assert_eq!(to_object_key("//"), "");
    assert!(!is_same_object("a/b", "a//b"));
}

#[test]
fn keys_that_differ_further_on_are_other_objects() {
    let mut server = Server::new(&[("a/b", b"first")]);
    let tag = server.store.get("a/b").unwrap().etag.clone();
    for key in ["a//b", "a/./b", "a/b/"] {
        assert!(matches!(
            get_object(&server.store, key, &request(&[])),
            GetPlan::Refuse(response) if response.status == 404
        ));
    }
    // It is created under its own key, which the condition sees.
    let created = server.put("a//b", &[("if-none-match", "*")], b"second");
    assert_eq!(created.status, 200);
    assert_eq!(server.store.get("a//b").unwrap().etag, header(&created, "etag"));
    assert_eq!(server.store.get("a/b").unwrap().etag, tag);
    assert_eq!(server.put("a//b", &[("if-none-match", "*")], b"third").status, 412);
    assert_eq!(server.put("/a//b", &[("if-none-match", "*")], b"third").status, 412);

    assert_eq!(delete_removed(&mut server.store, "a//b", Ok(())).status, 204);
    assert!(server.store.get("a//b").is_none());
    assert!(server.store.get("a/b").is_some());
}

#[test]
fn random_names_of_temporary_files_differ() {
    let server = Server::new(&[]);
    let mut names = Vec::new();
    for _ in 0..2 {
        match put_object(&server.store, "k", &request(&[])) {
            PutStart::Write(job) => names.push(String::from_utf8(job.tmp_path.bytes).unwrap()),
            other => panic!("unexpected start {:?}", other),
        }
    }
    for name in &names {
        let token = name.strip_prefix("/srv/k.").unwrap().strip_suffix(".fxv_tmp").unwrap();
        assert_eq!(token.len(), 32);
        assert!(token.chars().all(|c| c.is_ascii_digit() || ('a'..='f').contains(&c)));
    }
    assert_ne!(names[0], names[1]);
}

#[test]
fn conditions_are_checked_again_after_the_body() {
    let mut server = Server::new(&[]);
    let job = started(&server.store, "new.txt", &[("If-None-Match", "*")]);
    // Another client is faster.
    server.put("new.txt", &[], b"first");
    match put_written(&server.store, &job, true) {
        Written::Discard(response) => assert_eq!(response.status, 412),
        Written::Rename => panic!("the object exists"),
    }
    assert_eq!(server.get("new.txt").1, b"first");
}

#[test]
fn partial_files_are_never_served() {
    let mut server = Server::new(&[("file.txt", b"original")]);
    let job = started(&server.store, "file.txt", &[]);
    // Half of the body has arrived.
    server.files.insert(job.tmp_path.bytes.clone(), b"repl".to_vec());
    assert_eq!(server.get("file.txt").1, b"original");
    server.files.insert(job.tmp_path.bytes.clone(), b"replacement".to_vec());
    assert_eq!(server.get("file.txt").1, b"original");
    let data = server.files.remove(&job.tmp_path.bytes).unwrap();
    server.files.insert(job.abs_path.bytes.clone(), data);
    put_renamed(&mut server.store, job, received(b"replacement"), true);
    assert_eq!(server.get("file.txt").1, b"replacement");
}

#[test]
fn no_update_is_lost() {
    let mut server = Server::new(&[("file.txt", b"original")]);
    let tag = server.store.get("file.txt").unwrap().etag.clone();
    let job = started(&server.store, "file.txt", &[("If-Match", &tag)]);
    // Another client replaces the same version first.
    assert_eq!(server.put("file.txt", &[("If-Match", &tag)], b"theirs").status, 200);
    match put_written(&server.store, &job, true) {
        Written::Discard(response) => assert_eq!(response.status, 412),
        Written::Rename => panic!("the object has changed"),
    }
    assert_eq!(server.get("file.txt").1, b"theirs");
    // Other objects are not affected.
    assert_eq!(server.put("other.txt", &[], b"other").status, 200);
    assert_eq!(server.get("file.txt").1, b"theirs");
}

#[test]
fn failures_leave_the_object_alone() {
    let mut server = Server::new(&[("file.txt", b"original")]);
    let job = started(&server.store, "file.txt", &[]);
    match put_written(&server.store, &job, false) {
        Written::Discard(response) => assert_eq!(response.status, 500),
        Written::Rename => panic!("nothing was written"),
    }
    let before = server.store.get("file.txt").unwrap().etag.clone();
    let response = put_renamed(&mut server.store, job, received(b"other"), false);
    assert_eq!(response.status, 500);
    assert_eq!(server.store.get("file.txt").unwrap().etag, before);
}

#[test]
fn the_error_of_the_writer_comes_first() {
    let fail = |text: &str| Error::new(ErrorKind::Io(IoKind::Other, text.to_owned()));
    let text = |r: Result<BodyDigest, Error>| match r {
        Ok(_) => "ok".to_owned(),
        Err(e) => e.message(),
    };
    assert_eq!(text(write_body_to_temp(Err(fail("disk")), Err(fail("net")))), "disk");
    assert_eq!(text(write_body_to_temp(Err(fail("disk")), Ok(()))), "disk");
    assert_eq!(text(write_body_to_temp(Ok(BodyDigest::new()), Err(fail("net")))), "net");
    assert_eq!(text(write_body_to_temp(Ok(BodyDigest::new()), Ok(()))), "ok");
}

#[test]
fn put_requests_are_routed() {
    let route = |part_number, upload_id: Option<&str>| {
        put_dispatch(&PutParams { part_number, upload_id: upload_id.map(str::to_owned) })
    };
    assert_eq!(route(None, None), PutRoute::PutObject);
    assert_eq!(route(Some(1), None), PutRoute::UploadPart);
    assert_eq!(route(None, Some("id")), PutRoute::UploadPart);
    assert_eq!(route(Some(0), Some("id")), PutRoute::UploadPart);
}
