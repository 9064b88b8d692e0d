use fxv_storage_server::errors::ErrorKind;
use fxv_storage_server::range::{parse_range, ByteRange};

#[test]
fn test_no_range_header() {
    assert_eq!(parse_range(None, 1000).unwrap(), None);
}

#[test]
fn test_full_explicit_range() {
    let r = parse_range(Some("bytes=0-499"), 1000).unwrap().unwrap();
    assert_eq!(r.start, 0);
    assert_eq!(r.end, 499);
    assert_eq!(r.len(), 500);
}

#[test]
fn test_range_clamps_to_file_size() {
    let r = parse_range(Some("bytes=0-9999"), 100).unwrap().unwrap();
    assert_eq!(r.end, 99);
}

#[test]
fn test_open_ended_range() {
    let r = parse_range(Some("bytes=500-"), 1000).unwrap().unwrap();
    assert_eq!(r.start, 500);
    assert_eq!(r.end, 999);
}

#[test]
fn test_suffix_range() {
    let r = parse_range(Some("bytes=-200"), 1000).unwrap().unwrap();
    assert_eq!(r.start, 800);
    assert_eq!(r.end, 999);
}

#[test]
fn test_suffix_range_larger_than_file() {
    let r = parse_range(Some("bytes=-9999"), 100).unwrap().unwrap();
    assert_eq!(r.start, 0);
    assert_eq!(r.end, 99);
}

#[test]
fn test_invalid_multi_range() {
    assert!(parse_range(Some("bytes=0-100,200-300"), 1000).is_err());
}

#[test]
fn test_invalid_start_gt_end() {
    assert!(parse_range(Some("bytes=500-100"), 1000).is_err());
}

#[test]
fn test_range_not_satisfiable_start_ge_size() {
    assert!(parse_range(Some("bytes=1000-1099"), 1000).is_err());
}

#[test]
fn test_content_range_header() {
    let r = ByteRange { start: 0, end: 499 };
    assert_eq!(r.content_range_header(1000), "bytes 0-499/1000");
}

fn fault(header: &str, size: u64) -> String {
    match parse_range(Some(header), size) {
        Err(e) => match e.kind {
            ErrorKind::InvalidRange(message) => message,
            other => panic!("unexpected error {:?}", other),
        },
        Ok(r) => panic!("unexpected range {:?}", r),
    }
}

#[test]
fn every_range_fault_has_its_message() {
    assert_eq!(fault("items=0-1", 10), "must start with 'bytes=': items=0-1");
    assert_eq!(
        fault("bytes=0-1,3-4", 10),
        "multi-range requests are not supported"
    );
    assert_eq!(fault("bytes=5", 10), "missing '-': 5");
    assert_eq!(fault("bytes=-", 10), "bad start: ");
    assert_eq!(fault("bytes=5-2", 10), "start 5 > end 2");
    assert_eq!(fault("bytes=x-", 10), "bad start: x");
    assert_eq!(fault("bytes=x-2", 10), "bad start: x");
    assert_eq!(fault("bytes=2-x", 10), "bad end: x");
    assert_eq!(fault("bytes=-x", 10), "bad suffix: x");
    assert_eq!(fault("bytes=10-", 10), "range not satisfiable: start=10 size=10");
}

#[test]
fn an_empty_file_has_no_range() {
    assert!(parse_range(Some("bytes=0-"), 0).is_err());
    assert!(parse_range(Some("bytes=-5"), 0).is_err());
    assert!(parse_range(Some("bytes=0-0"), 0).is_err());
}

#[test]
fn ranges_of_no_bytes_are_refused() {
    assert!(parse_range(Some("bytes=-0"), 10).is_err());
    assert!(parse_range(Some("bytes=10-12"), 10).is_err());
    let last = parse_range(Some("bytes=9-12"), 10).unwrap().unwrap();
    assert_eq!(last, ByteRange { start: 9, end: 9 });
}

#[test]
fn ranges_may_be_surrounded_by_blanks() {
    let r = parse_range(Some("  bytes=1-1 "), 10).unwrap().unwrap();
    assert_eq!(r, ByteRange { start: 1, end: 1 });
    assert_eq!(r.len(), 1);
    assert!(!r.is_empty());
}

#[test]
fn numbers_beyond_64_bits_are_refused() {
    assert_eq!(fault("bytes=18446744073709551616-", 10), "bad start: 18446744073709551616");
}
