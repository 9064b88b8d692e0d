use fxv_storage_server::etag::{
    compute_file_etag, compute_file_md5_hex, etag_from_digest_bytes, etag_from_md5_hex, hex_encode,
    md5_hex_from_digest_bytes, multipart_etag_from_part_digests, Md5DigestBytes, Md5Stream,
};

/// The running checksum of a file that is read in pieces of `size` bytes.
fn contents(data: &[u8], size: usize) -> Md5Stream {
    let mut stream = Md5Stream::new();
    for chunk in data.chunks(size) {
        stream.update(chunk);
    }
    stream
}

#[test]
fn test_compute_etag_deterministic() {
    let etag1 = compute_file_etag(contents(b"hello world", 64));
    let etag2 = compute_file_etag(contents(b"hello world", 64));
    assert_eq!(etag1, etag2);
    assert_eq!(etag1, "\"5eb63bbbe01eeed093cb22bb8f5acdc3\"");
}

#[test]
fn test_compute_etag_differs_for_different_content() {
    let etag_a = compute_file_etag(contents(b"content A", 64));
    let etag_b = compute_file_etag(contents(b"content B", 64));
    assert_ne!(etag_a, etag_b);
}

#[test]
fn test_multipart_etag_from_part_digests_matches_s3_shape() {
    let part1 = [0u8; 16];
    let part2 = [1u8; 16];
    let etag = multipart_etag_from_part_digests(&[part1, part2]);
    assert!(etag.starts_with('"'));
    assert!(etag.ends_with('"'));
    assert!(etag.contains("-2"));
}

#[test]
fn test_compute_file_md5_hex() {
    let md5_hex = compute_file_md5_hex(contents(b"hello world", 64));
    assert_eq!(md5_hex, "5eb63bbbe01eeed093cb22bb8f5acdc3");
}

#[test]
fn the_checksum_does_not_depend_on_the_pieces() {
    for size in 1..12 {
        assert_eq!(
            compute_file_md5_hex(contents(b"hello world", size)),
            "5eb63bbbe01eeed093cb22bb8f5acdc3"
        );
    }
    assert_eq!(
        compute_file_md5_hex(Md5Stream::new()),
        "d41d8cd98f00b204e9800998ecf8427e"
    );
}

#[test]
fn checksums_are_rendered_in_lower_case() {
    let mut digest: Md5DigestBytes = [0u8; 16];
    digest[0] = 0xAB;
    digest[15] = 0x0F;
    assert_eq!(md5_hex_from_digest_bytes(&digest), "ab00000000000000000000000000000f");
    assert_eq!(etag_from_digest_bytes(&digest), "\"ab00000000000000000000000000000f\"");
    assert_eq!(etag_from_md5_hex("xyz"), "\"xyz\"");
    assert_eq!(hex_encode(&[0x00, 0x9a, 0xff]), "009aff");
}

#[test]
fn multipart_tags_follow_the_formula() {
    assert_eq!(
        multipart_etag_from_part_digests(&[[0u8; 16], [1u8; 16]]),
        "\"85b46fc8ef95905564f879f9121a3025-2\""
    );
    // The parts "hello " and "world".
    let first: Md5DigestBytes = contents(b"hello ", 6).finish();
    let second: Md5DigestBytes = contents(b"world", 5).finish();
    assert_eq!(
        multipart_etag_from_part_digests(&[first, second]),
        "\"e09e4fd6265b36115fe3db32df945d84-2\""
    );
    assert_eq!(
        multipart_etag_from_part_digests(&[]),
        "\"d41d8cd98f00b204e9800998ecf8427e-0\""
    );
}
