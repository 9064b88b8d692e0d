use fxv_storage_server::config::Config;
use fxv_storage_server::errors::{Error, ErrorKind, IoKind, Result};
use fxv_storage_server::etag::Md5Stream;
use fxv_storage_server::fs_path::FsPath;
use fxv_storage_server::handlers::delete_object::{
    delete_dispatch, delete_object, delete_removed, DeleteParams, DeleteRoute, DeleteStart,
};
use fxv_storage_server::handlers::get_object::{get_object, GetPlan};
use fxv_storage_server::metadata_cache::{self, cache_path, metadata_of_contents};
use fxv_storage_server::multipart_state;
use fxv_storage_server::store::{compute_entry, walk_dir, FileEntry, FileKind, FileStore, WalkAction};
use fxv_storage_server::time::UnixTime;

/// A file or a directory below the serve directory.
enum Node {
    File(&'static str, &'static [u8]),
    Dir(&'static str, Vec<Node>),
    Socket(&'static str),
}

fn scan(dir: &FsPath, rel: &FsPath, nodes: &[Node], out: &mut Vec<(String, Result<FileEntry>)>) {
    for node in nodes {
        let (name, kind) = match node {
            Node::File(name, _) => (*name, FileKind::File),
            Node::Dir(name, _) => (*name, FileKind::Dir),
            Node::Socket(name) => (*name, FileKind::Other),
        };
        match (walk_dir(dir, rel, &FsPath::from_text(name), kind), node) {
            (WalkAction::Skip, _) => {}
            (WalkAction::Descend { path, rel }, Node::Dir(_, inner)) => {
                scan(&path, &rel, inner, out)
            }
            (WalkAction::Index { path, key, .. }, Node::File(_, data)) => {
                let mut contents = Md5Stream::new();
                contents.update(data);
                let modified = UnixTime::epoch();
                let metadata = metadata_of_contents(modified, contents);
                out.push((key, Ok(compute_entry(path, data.len() as u64, modified, metadata))));
            }
            _ => panic!("unexpected action"),
        }
    }
}

fn build(nodes: &[Node]) -> FileStore {
    let root = FsPath::from_text("/srv");
    let mut scanned = Vec::new();
    scan(&root, &FsPath::from_text(""), nodes, &mut scanned);
    FileStore::build(&root, scanned)
}

#[test]
fn test_store_builds_and_indexes_files() {
    let store = build(&[
        Node::File("root.txt", b"root file"),
        Node::Dir("sub", vec![Node::File("nested.txt", b"nested file")]),
    ]);
    assert!(store.get("root.txt").is_some());
    assert!(store.get("sub/nested.txt").is_some());
    assert!(store.get("nonexistent.txt").is_none());
    assert_eq!(
        store.get("sub/nested.txt").unwrap().abs_path,
        FsPath::from_text("/srv/sub/nested.txt")
    );
    assert_eq!(*store.serve_dir(), FsPath::from_text("/srv"));
}

#[test]
fn test_store_skips_metadata_cache_dir() {
    let store = build(&[
        Node::Dir(".fxv-metadata-cache", vec![Node::File("some_cache_file", b"internal")]),
        Node::File("real.txt", b"real content"),
    ]);
    assert!(store.get("real.txt").is_some());
    // Cache dir contents must not appear
    assert!(
        store
            .get(&format!("{}/some_cache_file", metadata_cache::METADATA_CACHE_DIR))
            .is_none()
    );
}

#[test]
fn test_store_skips_multipart_upload_dir() {
    let store = build(&[
        Node::Dir(".fxv-multipart-uploads", vec![Node::File("part-abc-1.fxv_tmp", b"internal")]),
        Node::File("real.txt", b"real content"),
    ]);
    assert!(store.get("real.txt").is_some());
    assert!(
        store
            .get(&format!("{}/part-abc-1.fxv_tmp", multipart_state::MULTIPART_UPLOAD_DIR))
            .is_none()
    );
}

#[test]
fn test_store_upsert_and_remove() {
    let mut store = build(&[Node::File("a.txt", b"a")]);
    assert!(store.get("a.txt").is_some());
    store.remove("a.txt");
    assert!(store.get("a.txt").is_none());
}

#[test]
fn walks_find_exactly_the_public_files() {
    let inner = || vec![Node::File("f", b"1"), Node::Socket("s")];
    let store = build(&[
        Node::Dir("a", vec![Node::Dir("b", inner()), Node::Dir(".fxv-metadata-cache", inner())]),
        Node::Dir(".fxv-multipart-uploads", vec![Node::Dir("b", inner())]),
        // Only directories of these names belong to the server.
        Node::File(".fxv-metadata-cache", b"2"),
    ]);
    for key in ["a/b/f", ".fxv-metadata-cache"] {
        let path = FsPath::from_text(&format!("/srv/{}", key));
        assert_eq!(store.get(key).unwrap().abs_path, path);
    }
    for key in ["a", "a/b", "a/b/s", "a/.fxv-metadata-cache/f", ".fxv-multipart-uploads/b/f", "f"] {
        assert!(store.get(key).is_none());
    }
}

#[test]
fn walks_skip_what_is_neither_file_nor_directory() {
    let store = build(&[
        Node::Socket("sock"),
        Node::Dir(
            "sub",
            vec![
                Node::Dir(".fxv-metadata-cache", vec![Node::File("x", b"")]),
                Node::File(".fxv-multipart-uploads", b"a file of that name"),
            ],
        ),
    ]);
    assert!(store.get("sock").is_none());
    assert!(store.get("sub/.fxv-metadata-cache/x").is_none());
    assert!(store.get("sub/.fxv-multipart-uploads").is_some());
}

#[test]
fn the_last_of_several_files_of_a_key_counts() {
    let entry = |data: &[u8]| {
        let mut contents = Md5Stream::new();
        contents.update(data);
        let modified = UnixTime::epoch();
        compute_entry(
            FsPath::from_text("/srv/k"),
            data.len() as u64,
            modified,
            metadata_of_contents(modified, contents),
        )
    };
    let failure = || Err(Error::new(ErrorKind::Io(IoKind::Other, "unreadable".to_owned())));
    let store = FileStore::build(
        &FsPath::from_text("/srv"),
        vec![
            ("k".to_owned(), Ok(entry(b"first"))),
            ("k".to_owned(), Ok(entry(b"the second"))),
            ("k".to_owned(), failure()),
            ("broken".to_owned(), failure()),
        ],
    );
    assert_eq!(store.get("k").unwrap().size, 10);
    assert!(store.get("broken").is_none());
}

#[test]
fn test_delete_existing_object_204_and_removes_file() {
    let mut store = build(&[Node::File("gone.txt", b"to be deleted")]);
    match delete_object(&store, "gone.txt") {
        DeleteStart::Remove { abs_path, .. } => {
            assert_eq!(abs_path, FsPath::from_text("/srv/gone.txt"))
        }
        other => panic!("unexpected start {:?}", other),
    }
    assert_eq!(delete_removed(&mut store, "gone.txt", Ok(())).status, 204);
    match get_object(&store, "gone.txt", &http::HeaderMap::new()) {
        GetPlan::Refuse(response) => assert_eq!(response.status, 404),
        other => panic!("unexpected answer {:?}", other),
    }
}

#[test]
fn test_delete_missing_object_is_still_204() {
    let mut store = build(&[]);
    assert!(matches!(delete_object(&store, "missing.txt"), DeleteStart::Remove { .. }));
    let resp = delete_removed(&mut store, "missing.txt", Err(IoKind::NotFound));
    assert_eq!(resp.status, 204);
}

#[test]
fn test_delete_removes_cached_metadata_entry() {
    let store = build(&[Node::Dir("nested", vec![Node::File("file.txt", b"cache me")])]);
    match delete_object(&store, "nested/file.txt") {
        DeleteStart::Remove { rel_path, .. } => assert_eq!(
            cache_path(store.serve_dir(), &rel_path),
            FsPath::from_text("/srv/.fxv-metadata-cache/nested/file.txt.json")
        ),
        other => panic!("unexpected start {:?}", other),
    }
}

#[test]
fn failed_deletions_change_nothing() {
    let mut store = build(&[Node::File("kept.txt", b"x")]);
    let resp = delete_removed(&mut store, "kept.txt", Err(IoKind::Other));
    assert_eq!(resp.status, 500);
    assert!(store.get("kept.txt").is_some());
    match delete_object(&store, "a/../b") {
        DeleteStart::Refuse(response) => assert_eq!(response.status, 400),
        other => panic!("unexpected start {:?}", other),
    }
}

#[test]
fn delete_requests_are_routed() {
    assert!(matches!(
        delete_dispatch(DeleteParams { upload_id: Some("x".to_owned()) }),
        DeleteRoute::AbortUpload(id) if id == "x"
    ));
    assert!(matches!(
        delete_dispatch(DeleteParams { upload_id: None }),
        DeleteRoute::DeleteObject
    ));
}

#[test]
fn configurations_can_be_copied() {
    let config = Config { serve_dir: FsPath::from_text("/srv"), port: 3000 };
    let copy = config.clone();
    assert_eq!(copy.serve_dir, config.serve_dir);
    assert_eq!(copy.port, 3000);
}
