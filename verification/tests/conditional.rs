use fxv_storage_server::conditional::{
    etag_matches, evaluate, is_modified_since, ConditionalResult,
};
use fxv_storage_server::time::UnixTime;

fn ts(secs: i64) -> UnixTime {
    UnixTime { secs, nanos: 0 }
}

const ETAG: &str = "\"abc123\"";
const OTHER_ETAG: &str = "\"xyz789\"";

#[test]
fn test_no_conditionals_proceeds() {
    // Verify an unconditional request proceeds normally.
    assert_eq!(
        evaluate(ETAG, ts(1000), None, None, None, None),
        ConditionalResult::Proceed
    );
}

#[test]
fn test_if_match_match_proceeds() {
    // Verify a matching If-Match header allows the request.
    assert_eq!(
        evaluate(ETAG, ts(1000), Some(ETAG), None, None, None),
        ConditionalResult::Proceed
    );
}

#[test]
fn test_if_match_mismatch_precondition_failed() {
    // Verify a mismatched If-Match header rejects the request.
    assert_eq!(
        evaluate(ETAG, ts(1000), Some(OTHER_ETAG), None, None, None),
        ConditionalResult::PreconditionFailed
    );
}

#[test]
fn test_if_match_wildcard_proceeds() {
    // Verify the wildcard If-Match form accepts an existing object.
    assert_eq!(
        evaluate(ETAG, ts(1000), Some("*"), None, None, None),
        ConditionalResult::Proceed
    );
}

#[test]
fn test_if_none_match_match_not_modified() {
    // Verify a matching If-None-Match header produces 304 semantics.
    assert_eq!(
        evaluate(ETAG, ts(1000), None, Some(ETAG), None, None),
        ConditionalResult::NotModified
    );
}

#[test]
fn test_if_none_match_mismatch_proceeds() {
    // Verify a non-matching If-None-Match header still allows the request.
    assert_eq!(
        evaluate(ETAG, ts(1000), None, Some(OTHER_ETAG), None, None),
        ConditionalResult::Proceed
    );
}

#[test]
fn test_if_none_match_wildcard_not_modified() {
    // Verify wildcard If-None-Match blocks access to an existing object.
    assert_eq!(
        evaluate(ETAG, ts(1000), None, Some("*"), None, None),
        ConditionalResult::NotModified
    );
}

#[test]
fn test_if_modified_since_not_modified() {
    // Verify an unchanged timestamp yields NotModified.
    assert_eq!(
        evaluate(ETAG, ts(1000), None, None, Some(ts(1000)), None),
        ConditionalResult::NotModified
    );
}

#[test]
fn test_if_modified_since_modified() {
    // Verify a newer object still proceeds past If-Modified-Since.
    assert_eq!(
        evaluate(ETAG, ts(2000), None, None, Some(ts(1000)), None),
        ConditionalResult::Proceed
    );
}

#[test]
fn test_if_unmodified_since_passes() {
    // Verify If-Unmodified-Since passes when the object is old enough.
    assert_eq!(
        evaluate(ETAG, ts(1000), None, None, None, Some(ts(2000))),
        ConditionalResult::Proceed
    );
}

#[test]
fn test_if_unmodified_since_fails() {
    // Verify If-Unmodified-Since fails when the object changed too recently.
    assert_eq!(
        evaluate(ETAG, ts(2000), None, None, None, Some(ts(1000))),
        ConditionalResult::PreconditionFailed
    );
}

#[test]
fn test_if_match_overrides_if_unmodified_since() {
    // Verify If-Match wins over a failing If-Unmodified-Since header.
    assert_eq!(
        evaluate(ETAG, ts(2000), Some(ETAG), None, None, Some(ts(1000))),
        ConditionalResult::Proceed
    );
}

#[test]
fn test_if_none_match_overrides_if_modified_since() {
    // Verify If-None-Match wins over a conflicting If-Modified-Since header.
    assert_eq!(
        evaluate(ETAG, ts(2000), None, Some(ETAG), Some(ts(1000)), None),
        ConditionalResult::NotModified
    );
}

#[test]
fn failed_precondition_comes_before_not_modified() {
    assert_eq!(
        evaluate(ETAG, ts(1000), Some(OTHER_ETAG), Some(ETAG), None, None),
        ConditionalResult::PreconditionFailed
    );
}

#[test]
fn tags_are_compared_without_surrounding_blanks() {
    assert!(etag_matches(ETAG, "  \"abc123\"\t"));
    assert!(etag_matches(ETAG, " * "));
    assert!(!etag_matches(ETAG, "abc123"));
    assert!(!etag_matches(ETAG, "\"abc123\", \"xyz789\""));
}

#[test]
fn modified_since_compares_whole_seconds() {
    let late = UnixTime { secs: 1000, nanos: 999_999_999 };
    assert!(!is_modified_since(late, ts(1000)));
    assert!(is_modified_since(ts(1001), late));
    // Times before the epoch count as the epoch.
    assert!(!is_modified_since(ts(-5), ts(-10)));
}

#[test]
fn unmodified_since_compares_fractions_of_a_second() {
    let late = UnixTime { secs: 1000, nanos: 1 };
    assert_eq!(
        evaluate(ETAG, late, None, None, None, Some(ts(1000))),
        ConditionalResult::PreconditionFailed
    );
    assert_eq!(
        evaluate(ETAG, ts(1000), None, None, None, Some(late)),
        ConditionalResult::Proceed
    );
}

#[test]
fn status_codes_of_conditional_results() {
    assert_eq!(ConditionalResult::Proceed.status_code(), None);
    assert_eq!(ConditionalResult::NotModified.status_code(), Some(304));
    assert_eq!(ConditionalResult::PreconditionFailed.status_code(), Some(412));
}
