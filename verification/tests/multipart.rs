use fxv_storage_server::errors::IoKind;
use fxv_storage_server::etag;
use fxv_storage_server::fs_path::FsPath;
use fxv_storage_server::handlers::delete_object::{delete_dispatch, delete_object, delete_removed, DeleteParams, DeleteRoute, DeleteStart};
use fxv_storage_server::handlers::get_object::{get_object, respond_object, GetPlan};
use fxv_storage_server::handlers::multipart::{
    abort_multipart_upload, assembly_written, close_upload, complete_metadata,
    complete_multipart_upload, complete_renamed, complete_result, create_multipart_upload,
    order_parts, plan_complete, post_dispatch, register_upload, respond_completed, respond_created,
    size_of_parts, Assembly, CompleteStart, PostParams, PostRoute,
};
use fxv_storage_server::handlers::put_object::{
    part_written, plan_part, upload_part, BodyDigest, PartStart, PutParams, Written, WrittenBody,
};
use fxv_storage_server::metadata_cache::{get_or_compute_metadata, MetadataStep};
use fxv_storage_server::multipart_state::{PartEntry, UploadTable, MULTIPART_UPLOAD_DIR};
use fxv_storage_server::response::{Body, Response};
use fxv_storage_server::s3_xml_compat::{CompleteMultipartUpload, CompletePart};
use fxv_storage_server::store::{compute_entry, FileStore};
use fxv_storage_server::test_server::rel_path_to_key;
use fxv_storage_server::time::UnixTime;
use http::header::{HeaderMap, HeaderName, HeaderValue};
use std::collections::HashMap;

const NOW: UnixTime = UnixTime { secs: 1_000_000, nanos: 0 };

/// A server whose files are kept in memory.
struct Server {
    store: FileStore,
    uploads: UploadTable,
    files: HashMap<Vec<u8>, Vec<u8>>,
}

fn request(pairs: &[(&str, &str)]) -> HeaderMap {
    let mut headers = HeaderMap::new();
    for (name, value) in pairs {
        headers.append(
            HeaderName::from_bytes(name.as_bytes()).unwrap(),
            HeaderValue::from_str(value).unwrap(),
        );
    }
    headers
}

fn header<'a>(response: &'a Response, name: &str) -> &'a str {
    response.headers.get(name).expect(name).to_str().unwrap()
}

fn received(body: &[u8]) -> WrittenBody {
    let mut digest = BodyDigest::new();
    digest.update(body);
    digest.finish(NOW)
}

fn completing(parts: &[(u32, &str)]) -> CompleteMultipartUpload {
    CompleteMultipartUpload {
        parts: parts
            .iter()
            .map(|(n, tag)| CompletePart { part_number: *n, etag: tag.to_string() })
            .collect(),
    }
}

impl Server {
    fn new() -> Server {
        Server {
            store: FileStore::build(&FsPath::from_text("/srv"), Vec::new()),
            uploads: UploadTable::new(),
            files: HashMap::new(),
        }
    }

    fn create(&mut self, key: &str, pairs: &[(&str, &str)]) -> String {
        let result = create_multipart_upload(&mut self.uploads, key, &request(pairs));
        assert_eq!(result.key, key);
        let element = format!(
            "<InitiateMultipartUploadResult><Key>{}</Key><UploadId>{}</UploadId></InitiateMultipartUploadResult>",
            result.key, result.upload_id
        );
        assert_eq!(respond_created(Some(&element)).status, 200);
        result.upload_id
    }

    fn part(&mut self, key: &str, id: Option<&str>, number: Option<u32>, body: &[u8]) -> Response {
        let params = PutParams { part_number: number, upload_id: id.map(str::to_owned) };
        let root = self.store.serve_dir().clone();
        match upload_part(&self.uploads, &root, key, params) {
            PartStart::Refuse(response) => response,
            PartStart::Write(job) => {
                self.files.insert(job.tmp_path.bytes.clone(), body.to_vec());
                let outcome = part_written(&mut self.uploads, job, Some(received(body)));
                if let Some(path) = outcome.stale {
                    self.files.remove(&path.bytes);
                }
                outcome.response
            }
        }
    }

    fn complete(&mut self, key: &str, id: &str, request: Option<CompleteMultipartUpload>) -> Response {
        let root = self.store.serve_dir().clone();
        let mut job = match complete_multipart_upload(&self.uploads, &root, key, id, request) {
            CompleteStart::Refuse(response) => return response,
            CompleteStart::Assemble(job) => job,
        };
        let parts = std::mem::take(&mut job.parts);
        assert!(size_of_parts(&parts).is_some());
        let mut data = Vec::new();
        let mut assembly = Assembly::new(parts);
        while let Some(path) = assembly.next_path() {
            let part = self.files.get(&path.bytes).expect("part file").clone();
            assembly.add_part(&part);
            data.extend_from_slice(&part);
        }
        let object = assembly.finish(NOW);
        assert!(matches!(assembly_written(true), Written::Rename));
        self.files.insert(job.abs_path.bytes.clone(), data);
        let metadata = complete_metadata(&job, &object);
        assert_eq!(metadata.etag, object.etag);
        assert!(complete_renamed(&mut self.store, &job, &object, true).is_none());
        for path in close_upload(&mut self.uploads, id) {
            assert!(self.files.remove(&path.bytes).is_some());
        }
        let result = complete_result(key, &object);
        let element = format!(
            "<CompleteMultipartUploadResult><Key>{}</Key><ETag>{}</ETag></CompleteMultipartUploadResult>",
            result.key, result.etag
        );
        respond_completed(Some(&element), &object.etag)
    }

    fn get(&self, key: &str) -> (Response, Vec<u8>) {
        match get_object(&self.store, key, &request(&[])) {
            GetPlan::Serve { entry, range } => {
                let data = self.files.get(&entry.abs_path.bytes).expect("file").clone();
                (respond_object(&entry, range, true), data)
            }
            GetPlan::Refuse(response) => (response, Vec::new()),
            other => panic!("unexpected answer {:?}", other),
        }
    }

    fn delete(&mut self, key: &str) -> Response {
        match delete_object(&self.store, key) {
            DeleteStart::Refuse(response) => response,
            DeleteStart::Remove { abs_path, .. } => {
                let removed = match self.files.remove(&abs_path.bytes) {
                    Some(_) => Ok(()),
                    None => Err(IoKind::NotFound),
                };
                delete_removed(&mut self.store, key, removed)
            }
        }
    }
}

/// Full multipart flow: create, upload 2 parts, complete, verify content.
#[test]
fn test_multipart_full_flow() {
    let mut server = Server::new();

    // 1. CreateMultipartUpload
    let upload_id = server.create("multipart.bin", &[]);
    assert!(!upload_id.is_empty());

    // 2. UploadPart 1
    let part1 = server.part("multipart.bin", Some(&upload_id), Some(1), b"hello ");
    assert_eq!(part1.status, 200);
    let etag1 = header(&part1, "etag").to_owned();

    // 3. UploadPart 2
    let part2 = server.part("multipart.bin", Some(&upload_id), Some(2), b"world");
    assert_eq!(part2.status, 200);
    let etag2 = header(&part2, "etag").to_owned();
    let dir = format!("/srv/{}/part-{}-", MULTIPART_UPLOAD_DIR, upload_id);
    assert!(
        server.files.keys().any(|p| p.starts_with(dir.as_bytes())),
        "multipart temp dir should contain uploaded part files"
    );

    // 4. CompleteMultipartUpload
    let complete = server.complete(
        "multipart.bin",
        &upload_id,
        Some(completing(&[(1, &etag1), (2, &etag2)])),
    );
    assert_eq!(complete.status, 200);
    let final_etag = header(&complete, "etag").to_owned();
    assert!(final_etag.starts_with('"') && final_etag.ends_with('"'));
    assert!(final_etag.contains("-2"));
    assert_eq!(final_etag, "\"e09e4fd6265b36115fe3db32df945d84-2\"");

    // 5. GET the assembled file and verify content
    let (get_resp, body) = server.get("multipart.bin");
    assert_eq!(get_resp.status, 200);
    assert_eq!(body, b"hello world");

    // 6. What is cached restores the entry.
    let entry = server.store.get("multipart.bin").expect("multipart entry").clone();
    assert_eq!(entry.checksums.md5, "5eb63bbbe01eeed093cb22bb8f5acdc3");
    let metadata = fxv_storage_server::metadata_cache::ObjectMetadataCache::from_current_state(
        entry.modified,
        entry.etag.clone(),
        entry.checksums.clone(),
        entry.custom_headers.clone(),
    );
    let rebuilt = compute_entry(entry.abs_path.clone(), entry.size, entry.modified, metadata);
    assert_eq!(rebuilt.etag, final_etag);
}

/// Completing with a wrong ETag for a part should return 400.
#[test]
fn test_multipart_complete_wrong_etag_400() {
    let mut server = Server::new();
    let upload_id = server.create("file.bin", &[]);
    server.part("file.bin", Some(&upload_id), Some(1), b"data");
    let resp = server.complete(
        "file.bin",
        &upload_id,
        Some(completing(&[(1, "\"00000000000000000000000000000000\"")])),
    );
    assert_eq!(resp.status, 400);
}

/// Completing with a non-existent uploadId should return 404.
#[test]
fn test_multipart_complete_unknown_upload_404() {
    let mut server = Server::new();
    let resp = server.complete("file.bin", "nonexistent-id", Some(completing(&[(1, "\"abc\"")])));
    assert_eq!(resp.status, 404);
}

/// UploadPart with invalid part number should return 400.
#[test]
fn test_multipart_upload_part_invalid_number() {
    let mut server = Server::new();
    let upload_id = server.create("file.bin", &[]);
    // Part number 0 is invalid
    let resp = server.part("file.bin", Some(&upload_id), Some(0), b"data");
    assert_eq!(resp.status, 400);
}

/// Multipart completion should use the S3 multipart ETag formula rather than
/// the single-part PutObject ETag.
#[test]
fn test_multipart_etag_uses_s3_formula() {
    let content = b"identical content for both methods";
    let mut server = Server::new();
    let put_etag = etag::etag_from_digest_bytes(&received(content).digest);

    // Multipart upload in one part
    let upload_id = server.create("multipart.bin", &[]);
    let part = server.part("multipart.bin", Some(&upload_id), Some(1), content);
    let part_etag = header(&part, "etag").to_owned();
    let complete =
        server.complete("multipart.bin", &upload_id, Some(completing(&[(1, &part_etag)])));
    assert_eq!(complete.status, 200);
    let multipart_etag = header(&complete, "etag").to_owned();

    let mut stream = etag::Md5Stream::new();
    stream.update(content);
    let expected_multipart_etag = etag::multipart_etag_from_part_digests(&[stream.finish()]);
    assert_eq!(put_etag, "\"46ffc8e471c862dc0fe66dd4c2051935\"");
    assert_eq!(part_etag, put_etag);
    assert_eq!(
        multipart_etag, expected_multipart_etag,
        "Multipart ETag should use the S3 multipart formula"
    );
    assert_eq!(multipart_etag, "\"7e9bc3fd36f42a298ecaf0aa386c1a52-1\"");
    assert_ne!(put_etag, multipart_etag);
}

/// Metadata supplied at multipart initiation should be replayed on the completed object.
#[test]
fn test_multipart_persists_user_metadata_headers() {
    let mut server = Server::new();
    let upload_id = server.create("meta.bin", &[("x-amz-meta-owner", "alice")]);
    let part = server.part("meta.bin", Some(&upload_id), Some(1), b"data");
    let part_etag = header(&part, "etag").to_owned();
    let complete = server.complete("meta.bin", &upload_id, Some(completing(&[(1, &part_etag)])));
    assert_eq!(complete.status, 200);
    let (get_resp, _) = server.get("meta.bin");
    assert_eq!(get_resp.status, 200);
    assert_eq!(header(&get_resp, "x-amz-meta-owner"), "alice");
}

/// Abort a multipart upload: should return 204 and clean up part temp files.
#[test]
fn test_abort_multipart_upload_204() {
    let mut server = Server::new();
    let upload_id = server.create("abortable.bin", &[]);
    server.part("abortable.bin", Some(&upload_id), Some(1), b"some data");

    // Abort
    let outcome = abort_multipart_upload(&mut server.uploads, "abortable.bin", &upload_id);
    assert_eq!(outcome.response.status, 204);
    assert_eq!(outcome.stale.len(), 1);
    for path in outcome.stale {
        assert!(server.files.remove(&path.bytes).is_some());
    }
    assert!(server.files.is_empty());

    // Attempting to complete should now return 404
    let resp = server.complete("abortable.bin", &upload_id, Some(completing(&[(1, "\"abc\"")])));
    assert_eq!(resp.status, 404);
}

/// Aborting a non-existent upload ID returns 404.
#[test]
fn test_abort_nonexistent_upload_404() {
    let mut uploads = UploadTable::new();
    let outcome = abort_multipart_upload(&mut uploads, "file.bin", "no-such-id");
    assert_eq!(outcome.response.status, 404);
    assert!(outcome.stale.is_empty());
}

/// Plain DeleteObject routing must not accidentally abort an in-progress upload.
#[test]
fn test_delete_without_upload_id_does_not_abort_upload() {
    let mut server = Server::new();
    let upload_id = server.create("file.bin", &[]);
    let part = server.part("file.bin", Some(&upload_id), Some(1), b"data");
    let part_etag = header(&part, "etag").to_owned();

    assert!(matches!(
        delete_dispatch(DeleteParams { upload_id: None }),
        DeleteRoute::DeleteObject
    ));
    assert_eq!(server.delete("file.bin").status, 204);

    let complete = server.complete("file.bin", &upload_id, Some(completing(&[(1, &part_etag)])));
    assert_eq!(complete.status, 200);
}

/// After abort, the object is NOT created (no partial file on disk).
#[test]
fn test_abort_does_not_create_file() {
    let mut server = Server::new();
    let upload_id = server.create("ghost.bin", &[]);
    server.part("ghost.bin", Some(&upload_id), Some(1), b"phantom data");
    abort_multipart_upload(&mut server.uploads, "ghost.bin", &upload_id);

    // The file should not be accessible
    assert_eq!(server.get("ghost.bin").0.status, 404);
}

fn xml(response: &Response) -> String {
    match &response.body {
        Body::Bytes(bytes) => String::from_utf8(bytes.clone()).unwrap(),
        other => panic!("unexpected body {:?}", other),
    }
}

#[test]
fn faults_of_part_uploads() {
    let mut server = Server::new();
    let id = server.create("file.bin", &[]);
    let number = "Part number must be between 1 and 10000.";
    assert!(xml(&server.part("file.bin", Some(&id), None, b"")).contains(number));
    assert!(xml(&server.part("file.bin", Some(&id), Some(10001), b"")).contains(number));
    assert!(xml(&server.part("file.bin", None, Some(0), b"")).contains(number));
    let no_id = server.part("file.bin", None, Some(1), b"");
    assert_eq!(no_id.status, 400);
    assert!(xml(&no_id).contains("A valid uploadId must be provided."));
    let unknown = server.part("file.bin", Some("x"), Some(1), b"");
    assert_eq!(unknown.status, 404);
    assert!(xml(&unknown).contains("<Code>NoSuchUpload</Code>"));
    let foreign = server.part("other.bin", Some(&id), Some(1), b"");
    assert_eq!(foreign.status, 400);
    assert!(xml(&foreign).contains("The upload ID is not associated with this key."));
    assert_eq!(server.part("file.bin", Some(&id), Some(10000), b"x").status, 200);
}

#[test]
fn faults_of_completion() {
    let mut server = Server::new();
    let id = server.create("file.bin", &[]);
    let malformed = server.complete("file.bin", &id, None);
    assert_eq!(malformed.status, 400);
    assert!(xml(&malformed).contains("<Code>MalformedXML</Code>"));
    // That the request could not be read comes before everything else.
    assert_eq!(server.complete("file.bin", "unknown", None).status, 400);
    let foreign = server.complete("other.bin", &id, Some(completing(&[])));
    assert!(xml(&foreign).contains("The upload ID is not associated with this key."));
    let missing = server.complete("file.bin", &id, Some(completing(&[(1, "\"x\"")])));
    assert_eq!(missing.status, 400);
    assert!(xml(&missing).contains("<Code>InvalidPart</Code>"));
    let outside = server.create("../up", &[]);
    let invalid = server.complete("../up", &outside, Some(completing(&[])));
    assert!(xml(&invalid).contains("The specified object key is invalid."));
}

#[test]
fn parts_are_joined_in_the_order_of_their_numbers() {
    let mut server = Server::new();
    let id = server.create("file.bin", &[]);
    let mut tags = HashMap::new();
    for (n, data) in [(7u32, "c"), (1, "a"), (3, "b")] {
        let resp = server.part("file.bin", Some(&id), Some(n), data.as_bytes());
        tags.insert(n, header(&resp, "etag").to_owned());
    }
    let upload = server.uploads.get(&id).unwrap();
    let forward = completing(&[(1, &tags[&1]), (3, &tags[&3]), (7, &tags[&7])]);
    let backward = completing(&[(7, &tags[&7]), (3, &tags[&3]), (1, &tags[&1])]);
    let numbers = |r: &CompleteMultipartUpload| -> Vec<u32> {
        order_parts(upload, r).unwrap().iter().map(|p| p.0).collect()
    };
    assert_eq!(numbers(&forward), vec![1, 3, 7]);
    assert_eq!(numbers(&backward), vec![1, 3, 7]);
    assert_eq!(server.complete("file.bin", &id, Some(backward)).status, 200);
    assert_eq!(server.get("file.bin").1, b"abc");
    // The upload is over.
    assert_eq!(server.part("file.bin", Some(&id), Some(1), b"x").status, 404);
}

#[test]
fn a_part_can_be_named_twice() {
    let mut server = Server::new();
    let id = server.create("twice", &[]);
    let tag = header(&server.part("twice", Some(&id), Some(1), b"ab"), "etag").to_owned();
    assert_eq!(server.complete("twice", &id, Some(completing(&[(1, &tag), (1, &tag)]))).status, 200);
    assert_eq!(server.get("twice").1, b"abab");
    assert_eq!(server.store.get("twice").unwrap().size, 4);
}

#[test]
fn parts_that_fail_to_be_written() {
    let mut server = Server::new();
    let id = server.create("file.bin", &[]);
    let params = PutParams { part_number: Some(2), upload_id: Some(id.clone()) };
    let root = FsPath::from_text("/srv");
    let job = match plan_part(&server.uploads, &root, "file.bin", params, "00ff") {
        PartStart::Write(job) => job,
        other => panic!("unexpected start {:?}", other),
    };
    let path = job.tmp_path.clone();
    assert_eq!(
        path,
        FsPath::from_text(&format!("/srv/.fxv-multipart-uploads/part-{}-2-00ff.fxv_tmp", id))
    );
    let outcome = part_written(&mut server.uploads, job, None);
    assert_eq!(outcome.response.status, 500);
    assert_eq!(outcome.stale, Some(path));
    assert!(server.uploads.get(&id).unwrap().parts.is_empty());
}

#[test]
fn a_part_that_is_uploaded_again_replaces_the_first() {
    let mut server = Server::new();
    let id = server.create("file.bin", &[]);
    let other = server.part("file.bin", Some(&id), Some(2), b" world");
    let first = server.part("file.bin", Some(&id), Some(1), b"good bye");
    let first_path = server.uploads.get(&id).unwrap().parts[&1].abs_path.clone();
    let again = server.part("file.bin", Some(&id), Some(1), b"hello");
    assert_ne!(header(&first, "etag"), header(&again, "etag"));
    assert_eq!(header(&again, "etag"), "\"5d41402abc4b2a76b9719d911017c592\"");

    let upload = server.uploads.get(&id).unwrap();
    assert_eq!(upload.parts.len(), 2);
    let part = &upload.parts[&1];
    assert_eq!(part.size, 5);
    assert_eq!(part.etag, header(&again, "etag"));
    assert_ne!(part.abs_path, first_path);
    assert_eq!(server.files[&part.abs_path.bytes], b"hello");
    assert_eq!(server.files[&upload.parts[&2].abs_path.bytes], b" world");
    // The data of the first upload is gone.
    assert!(!server.files.contains_key(&first_path.bytes));
    assert_eq!(server.files.len(), 2);

    // Its tag is that of no part anymore.
    let old = completing(&[(1, header(&first, "etag")), (2, header(&other, "etag"))]);
    assert_eq!(server.complete("file.bin", &id, Some(old)).status, 400);
    let new = completing(&[(1, header(&again, "etag")), (2, header(&other, "etag"))]);
    assert_eq!(server.complete("file.bin", &id, Some(new)).status, 200);
    assert_eq!(server.get("file.bin").1, b"hello world");
    let entry = server.store.get("file.bin").unwrap();
    assert_eq!(entry.size, 11);
    assert_eq!(entry.checksums.md5, "5eb63bbbe01eeed093cb22bb8f5acdc3");
    // Only the object is left.
    assert_eq!(server.files.len(), 1);
}

#[test]
fn a_part_that_fails_to_be_uploaded_again_stays() {
    let mut server = Server::new();
    let id = server.create("file.bin", &[]);
    let first = server.part("file.bin", Some(&id), Some(1), b"hello");
    let root = FsPath::from_text("/srv");
    let params = PutParams { part_number: Some(1), upload_id: Some(id.clone()) };
    let job = match upload_part(&server.uploads, &root, "file.bin", params) {
        PartStart::Write(job) => job,
        other => panic!("unexpected start {:?}", other),
    };
    server.files.insert(job.tmp_path.bytes.clone(), b"he".to_vec());
    let outcome = part_written(&mut server.uploads, job, None);
    assert_eq!(outcome.response.status, 500);
    server.files.remove(&outcome.stale.unwrap().bytes);
    let tag = header(&first, "etag");
    assert_eq!(server.complete("file.bin", &id, Some(completing(&[(1, tag)]))).status, 200);
    assert_eq!(server.get("file.bin").1, b"hello");
}

#[test]
fn slashes_in_front_of_the_key_of_an_upload_make_no_difference() {
    let mut server = Server::new();
    let id = server.create("dir/file.bin", &[]);
    let tag = header(&server.part("/dir/file.bin", Some(&id), Some(1), b"ab"), "etag").to_owned();
    assert_eq!(server.part("dir/other.bin", Some(&id), Some(1), b"ab").status, 400);
    assert_eq!(server.complete("//dir/file.bin", &id, Some(completing(&[(1, &tag)]))).status, 200);
    assert_eq!(server.get("dir/file.bin").1, b"ab");
    assert_eq!(server.get("/dir/file.bin").1, b"ab");

    let slashed = server.create("/abortable.bin", &[]);
    assert_eq!(server.uploads.get(&slashed).unwrap().key, "/abortable.bin");
    let outcome = abort_multipart_upload(&mut server.uploads, "abortable.bin", &slashed);
    assert_eq!(outcome.response.status, 204);
}

#[test]
fn an_upload_belongs_to_no_other_key() {
    let mut server = Server::new();
    let id = server.create("a/b", &[]);
    let tag = header(&server.part("a/b", Some(&id), Some(1), b"x"), "etag").to_owned();
    let wanted = || Some(completing(&[(1, tag.as_str())]));
    for key in ["a//b", "a/./b", "a/b/"] {
        assert_eq!(server.part(key, Some(&id), Some(1), b"x").status, 400);
        assert_eq!(server.complete(key, &id, wanted()).status, 400);
        let outcome = abort_multipart_upload(&mut server.uploads, key, &id);
        assert_eq!(outcome.response.status, 400);
    }
    assert_eq!(server.complete("a/b", &id, wanted()).status, 200);

    let doubled = server.create("a//b", &[]);
    assert_eq!(server.uploads.get(&doubled).unwrap().key, "a//b");
    let tag = header(&server.part("a//b", Some(&doubled), Some(1), b"y"), "etag").to_owned();
    let complete = server.complete("a//b", &doubled, Some(completing(&[(1, &tag)])));
    assert_eq!(complete.status, 200);
    assert_eq!(server.get("a//b").1, b"y");
    assert_eq!(server.get("a/b").1, b"x");
}

#[test]
fn the_tag_of_parts_survives_a_restart() {
    let mut server = Server::new();
    let id = server.create("/big.bin", &[("x-amz-meta-owner", "alice")]);
    let tag = header(&server.part("/big.bin", Some(&id), Some(1), b"hello"), "etag").to_owned();
    let root = FsPath::from_text("/srv");
    let request = Some(completing(&[(1, &tag)]));
    let job = match complete_multipart_upload(&server.uploads, &root, "/big.bin", &id, request) {
        CompleteStart::Assemble(job) => job,
        other => panic!("unexpected start {:?}", other),
    };
    let mut assembly = Assembly::new(job.parts.clone());
    assembly.add_part(b"hello");
    let object = assembly.finish(NOW);
    assert!(object.etag.ends_with("-1\""));
    let saved = complete_metadata(&job, &object);

    // The server is started again and comes to the file on its walk.
    let metadata = match get_or_compute_metadata(Some(saved), NOW) {
        MetadataStep::Ready(metadata) => metadata,
        MetadataStep::HashContents => panic!("the saved metadata is valid"),
    };
    let rel = FsPath::from_text("big.bin");
    let entry = compute_entry(root.join(&rel), object.size, NOW, metadata);
    let store = FileStore::build(&root, vec![(rel_path_to_key(&rel), Ok(entry))]);
    let found = store.get("big.bin").unwrap();
    assert_eq!(found.etag, object.etag);
    assert_eq!(found.size, 5);
    assert_eq!(found.checksums.md5, "5d41402abc4b2a76b9719d911017c592");
    assert_eq!(found.custom_headers.len(), 1);
}

#[test]
fn a_part_of_the_same_number_is_replaced() {
    let mut uploads = UploadTable::new();
    register_upload(&mut uploads, "id", "k", &request(&[]));
    let part = |path: &str| PartEntry {
        abs_path: FsPath::from_text(path),
        size: 1,
        etag: path.to_owned(),
        md5_bytes: [0u8; 16],
    };
    assert_eq!(uploads.set_part("id", 5, part("/one")), None);
    assert_eq!(uploads.set_part("id", 5, part("/two")), Some(FsPath::from_text("/one")));
    assert_eq!(uploads.set_part("other", 5, part("/three")), None);
    assert_eq!(uploads.get("id").unwrap().parts.len(), 1);
    assert_eq!(uploads.get("id").unwrap().parts[&5].etag, "/two");
    assert!(uploads.get("other").is_none());
}

#[test]
fn uploads_of_other_keys_are_not_aborted() {
    let mut server = Server::new();
    let id = server.create("mine.bin", &[]);
    let outcome = abort_multipart_upload(&mut server.uploads, "yours.bin", &id);
    assert_eq!(outcome.response.status, 400);
    assert!(server.uploads.get(&id).is_some());
    assert!(close_upload(&mut server.uploads, "unknown").is_empty());
    assert!(server.uploads.get(&id).is_some());
}

#[test]
fn upload_identifiers_are_random() {
    let mut server = Server::new();
    let a = server.create("k", &[]);
    let b = server.create("k", &[]);
    assert_ne!(a, b);
    for id in [&a, &b] {
        assert_eq!(id.len(), 36);
        for (i, c) in id.chars().enumerate() {
            if [8, 13, 18, 23].contains(&i) {
                assert_eq!(c, '-');
            } else {
                assert!(c.is_ascii_digit() || ('a'..='f').contains(&c));
            }
        }
    }
}

#[test]
fn completion_that_fails_keeps_the_upload() {
    let mut server = Server::new();
    let id = server.create("k", &[]);
    let tag = header(&server.part("k", Some(&id), Some(1), b"abc"), "etag").to_owned();
    let root = FsPath::from_text("/srv");
    let wanted = Some(completing(&[(1, &tag)]));
    let job = match plan_complete(&server.uploads, &root, "k", &id, wanted, "00") {
        CompleteStart::Assemble(job) => job,
        other => panic!("unexpected start {:?}", other),
    };
    assert_eq!(job.tmp_path, FsPath::from_text("/srv/k.00.fxv_tmp"));
    match assembly_written(false) {
        Written::Discard(response) => assert_eq!(response.status, 500),
        Written::Rename => panic!("nothing was written"),
    }
    let mut assembly = Assembly::new(job.parts.clone());
    assembly.add_part(b"abc");
    let object = assembly.finish(NOW);
    assert_eq!(object.size, 3);
    assert_eq!(object.md5_hex, "900150983cd24fb0d6963f7d28e17f72");
    let failed = complete_renamed(&mut server.store, &job, &object, false).expect("response");
    assert_eq!(failed.status, 500);
    assert!(server.store.get("k").is_none());
    assert!(server.uploads.get(&id).is_some());
}

#[test]
fn sizes_of_parts_are_added() {
    let part = |size| PartEntry {
        abs_path: FsPath::from_text("/p"),
        size,
        etag: String::new(),
        md5_bytes: [0u8; 16],
    };
    assert_eq!(size_of_parts(&vec![]), Some(0));
    assert_eq!(size_of_parts(&vec![(1, part(2)), (2, part(3))]), Some(5));
    assert_eq!(size_of_parts(&vec![(1, part(u64::MAX)), (2, part(1))]), None);
}

#[test]
fn post_requests_are_routed() {
    let route = |uploads: Option<&str>, id: Option<&str>| {
        post_dispatch(PostParams {
            uploads: uploads.map(str::to_owned),
            upload_id: id.map(str::to_owned),
        })
    };
    assert!(matches!(route(Some(""), None), PostRoute::Create));
    assert!(matches!(route(Some(""), Some("x")), PostRoute::Create));
    assert!(matches!(route(None, Some("x")), PostRoute::Complete(id) if id == "x"));
    match route(None, None) {
        PostRoute::Refuse(response) => {
            assert_eq!(response.status, 400);
            assert!(xml(&response)
                .contains("A valid uploads or uploadId query parameter must be provided."));
        }
        other => panic!("unexpected route {:?}", other),
    }
}

#[test]
fn xml_results() {
    let created = respond_created(Some("<A/>"));
    assert_eq!(xml(&created), "<?xml version=\"1.0\" encoding=\"UTF-8\"?><A/>");
    assert_eq!(header(&created, "content-type"), "application/xml");
    assert_eq!(respond_created(None).status, 500);
    let completed = respond_completed(Some("<B/>"), "\"t\"");
    assert_eq!(xml(&completed), "<?xml version=\"1.0\" encoding=\"UTF-8\"?><B/>");
    assert_eq!(header(&completed, "etag"), "\"t\"");
    assert_eq!(respond_completed(None, "\"t\"").status, 500);
}
