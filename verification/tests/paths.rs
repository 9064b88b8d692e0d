use fxv_storage_server::fs_path::FsPath;
use fxv_storage_server::handlers::put_object::{sanitize_key, temp_path};
use fxv_storage_server::test_server::rel_path_to_key;

fn path(s: &str) -> FsPath {
    FsPath::from_text(s)
}

#[test]
fn test_sanitize_key_valid() {
    // Verify normal relative object keys are accepted.
    assert!(sanitize_key("a/b/c.txt").is_some());
    assert!(sanitize_key("file.txt").is_some());
    assert!(sanitize_key("deep/nested/path/file.bin").is_some());
}

#[test]
fn test_sanitize_key_traversal_rejected() {
    // Verify traversal attempts are rejected.
    assert!(sanitize_key("../secret").is_none());
    assert!(sanitize_key("a/../../etc/passwd").is_none());

    // Verify a leading slash is normalized away before validation.
    assert!(sanitize_key("/absolute").is_some());
}

#[test]
fn test_sanitize_key_empty_rejected() {
    // Verify empty keys are rejected after trimming leading slashes.
    assert!(sanitize_key("").is_none());
    assert!(sanitize_key("/").is_none());
}

#[test]
fn sanitised_keys_keep_their_bytes() {
    assert_eq!(sanitize_key("///a/b"), Some(path("a/b")));
    assert_eq!(sanitize_key("a//b/./c"), Some(path("a//b/./c")));
    assert_eq!(sanitize_key("a/.."), None);
    assert_eq!(sanitize_key("./a"), None);
    assert_eq!(sanitize_key("/./a"), None);
    assert_eq!(sanitize_key("..a/b.."), Some(path("..a/b..")));
    assert_eq!(sanitize_key("\u{e9}/\u{4e2d}"), Some(path("\u{e9}/\u{4e2d}")));
}

#[test]
fn joining_paths() {
    assert_eq!(path("/srv").join(&path("a/b")), path("/srv/a/b"));
    assert_eq!(path("/srv/").join(&path("a")), path("/srv/a"));
    assert_eq!(path("").join(&path("a")), path("a"));
    assert_eq!(path("/srv").join(&path("/etc")), path("/etc"));
}

#[test]
fn temporary_files_lie_beside_their_object() {
    assert_eq!(
        temp_path(&path("/srv/a/b.txt"), "0123"),
        path("/srv/a/b.0123.fxv_tmp")
    );
    assert_eq!(temp_path(&path("/srv/.hidden"), "0123"), path("/srv/.hidden.0123.fxv_tmp"));
    assert_eq!(temp_path(&path("/srv/plain"), "0123"), path("/srv/plain.0123.fxv_tmp"));
    assert_eq!(temp_path(&path("/srv/dir.d/x"), "0123"), path("/srv/dir.d/x.0123.fxv_tmp"));
    assert_eq!(temp_path(&path("/srv/a.tar.gz//"), "0123"), path("/srv/a.tar.0123.fxv_tmp"));
}

#[test]
fn suffixes_go_to_the_file_name() {
    assert_eq!(path("a/b").with_suffix(".json"), path("a/b.json"));
    assert_eq!(path("a/b/./").with_suffix(".json"), path("a/b.json"));
}

#[test]
fn keys_of_paths() {
    assert_eq!(rel_path_to_key(&path("a/b.txt")), "a/b.txt");
    assert_eq!(rel_path_to_key(&path("a//b/./c/")), "a/b/c");
    assert_eq!(rel_path_to_key(&path("./a")), "./a");
    assert_eq!(rel_path_to_key(&path("/a")), "//a");
    assert_eq!(rel_path_to_key(&path("")), "");
    assert_eq!(rel_path_to_key(&path("\u{e9}/\u{4e2d}")), "\u{e9}/\u{4e2d}");
    let not_utf8 = FsPath { bytes: vec![b'a', 0xff, b'/', b'b'] };
    assert_eq!(rel_path_to_key(&not_utf8), "a\u{fffd}/b");
}

#[test]
fn splitting_paths() {
    let parts = path("/a//b").split();
    let expected: Vec<Vec<u8>> = vec![vec![], b"a".to_vec(), vec![], b"b".to_vec()];
    assert_eq!(parts, expected);
    assert_eq!(path("").split().len(), 1);
}
