//! Conditional requests (RFC 7232) for GET.
//!
//! The four conditional headers of a request are evaluated together: the
//! request proceeds, or it is answered with 304 Not Modified or with
//! 412 Precondition Failed. They are heeded in this order:
//! 1. If-Match               -> 412 on mismatch
//! 2. If-Unmodified-Since    -> 412 on modified (only if If-Match absent)
//! 3. If-None-Match          -> 304 on match
//! 4. If-Modified-Since      -> 304 on unmodified (only if If-None-Match absent)

use crate::text;
use crate::text::str_eq;
use crate::text::trim;
use crate::time::UnixTime;
use vstd::prelude::*;

verus! {

/// Result of evaluating conditional headers.
#[derive(Debug, Clone, Copy, PartialEq, Eq, Structural)]
pub enum ConditionalResult {
    /// Proceed with the normal response.
    Proceed,
    /// Return 304 Not Modified (no body).
    NotModified,
    /// Return 412 Precondition Failed.
    PreconditionFailed,
}

impl ConditionalResult {
    /// Return the HTTP status associated with this conditional result, if any.
    pub fn status_code(&self) -> (r: Option<u16>)
        ensures
            r == match *self {
                ConditionalResult::Proceed => None::<u16>,
                ConditionalResult::NotModified => Some(304u16),
                ConditionalResult::PreconditionFailed => Some(412u16),
            },
    {
        match self {
            ConditionalResult::Proceed => None,
            ConditionalResult::NotModified => Some(304),
            ConditionalResult::PreconditionFailed => Some(412),
        }
    }
}

/// Whether a resource with the tag `etag` satisfies the value of an `If-Match`
/// or `If-None-Match` header: the value is `*` or the tag itself.
pub open spec fn tag_matches(etag: Seq<char>, value: Seq<char>) -> bool {
    text::trimmed(value) == "*"@ || text::trimmed(value) == etag
}

/// Whether the preconditions of `If-Match`, or in its absence those of
/// `If-Unmodified-Since`, hold.
pub open spec fn preconditions_hold(
    etag: Seq<char>,
    modified: UnixTime,
    if_match: Option<Seq<char>>,
    if_unmodified_since: Option<UnixTime>,
) -> bool {
    match (if_match, if_unmodified_since) {
        (Some(value), _) => tag_matches(etag, value),
        (None, Some(since)) => !modified.later_than(since),
        (None, None) => true,
    }
}

/// Whether the client has the resource already, by `If-None-Match` or in its
/// absence by `If-Modified-Since`, which compares whole seconds.
pub open spec fn client_is_current(
    etag: Seq<char>,
    modified: UnixTime,
    if_none_match: Option<Seq<char>>,
    if_modified_since: Option<UnixTime>,
) -> bool {
    match (if_none_match, if_modified_since) {
        (Some(value), _) => tag_matches(etag, value),
        (None, Some(since)) => modified.whole_secs() <= since.whole_secs(),
        (None, None) => false,
    }
}

/// What the four conditional headers ask for.
pub open spec fn evaluation(
    etag: Seq<char>,
    modified: UnixTime,
    if_match: Option<Seq<char>>,
    if_none_match: Option<Seq<char>>,
    if_modified_since: Option<UnixTime>,
    if_unmodified_since: Option<UnixTime>,
) -> ConditionalResult {
    if !preconditions_hold(etag, modified, if_match, if_unmodified_since) {
        ConditionalResult::PreconditionFailed
    } else if client_is_current(etag, modified, if_none_match, if_modified_since) {
        ConditionalResult::NotModified
    } else {
        ConditionalResult::Proceed
    }
}

/// Evaluate all four conditional headers for a GET request.
///
/// - `etag`:     the current ETag of the resource (double-quoted, e.g. `"\"abc123\""`).
/// - `modified`: the last-modified time of the resource.
/// - `if_match`: value of the `If-Match` header, if present.
/// - `if_none_match`: value of the `If-None-Match` header, if present.
/// - `if_modified_since`: value of the `If-Modified-Since` header, if present.
/// - `if_unmodified_since`: value of the `If-Unmodified-Since` header, if present.
pub fn evaluate(
    etag: &str,
    modified: UnixTime,
    if_match: Option<&str>,
    if_none_match: Option<&str>,
    if_modified_since: Option<UnixTime>,
    if_unmodified_since: Option<UnixTime>,
) -> (r: ConditionalResult)
    ensures
        r == evaluation(
            etag@,
            modified,
            text::opt_view(if_match),
            text::opt_view(if_none_match),
            if_modified_since,
            if_unmodified_since,
        ),
{
    // If-Match, which makes If-Unmodified-Since irrelevant.
    if let Some(im) = if_match {
        if !etag_matches(etag, im) {
            return ConditionalResult::PreconditionFailed;
        }
    } else if let Some(ius) = if_unmodified_since {
        if modified.is_after(&ius) {
            return ConditionalResult::PreconditionFailed;
        }
    }
    // If-None-Match, which makes If-Modified-Since irrelevant.
    if let Some(inm) = if_none_match {
        if etag_matches(etag, inm) {
            return ConditionalResult::NotModified;
        }
    } else if let Some(ims) = if_modified_since {
        if !is_modified_since(modified, ims) {
            return ConditionalResult::NotModified;
        }
    }
    ConditionalResult::Proceed
}

/// Returns `true` if `etag` satisfies the `If-Match` / `If-None-Match` value.
/// Supports the wildcard `*` and a single quoted ETag value.
/// Does NOT support the comma-separated list form (rare in practice, not needed for S3 subset).
pub fn etag_matches(etag: &str, header_value: &str) -> (r: bool)
    ensures
        r == tag_matches(etag@, header_value@),
{
    let v: &str = trim(header_value);
    if str_eq(v, "*") {
        return true;
    }
    str_eq(etag, v)
}

/// Returns `true` if `modified` is strictly after `since` (i.e. the resource was modified).
/// Uses second-level granularity (HTTP date headers have 1-second resolution).
pub fn is_modified_since(modified: UnixTime, since: UnixTime) -> (r: bool)
    ensures
        r == (modified.whole_secs() > since.whole_secs()),
{
    let modified_secs: i64 = if modified.secs < 0 { 0 } else { modified.secs };
    let since_secs: i64 = if since.secs < 0 { 0 } else { since.secs };
    modified_secs > since_secs
}

// ---------------------------------------------------------------------------
// Laws
// ---------------------------------------------------------------------------

/// A request without conditional headers proceeds.
pub proof fn law_unconditional_request_proceeds(etag: Seq<char>, modified: UnixTime)
    ensures
        evaluation(etag, modified, None, None, None, None) is Proceed,
{
}

/// Next to `If-Match`, `If-Unmodified-Since` has no effect.
pub proof fn law_if_match_overrides_if_unmodified_since(
    etag: Seq<char>,
    modified: UnixTime,
    value: Seq<char>,
    if_none_match: Option<Seq<char>>,
    if_modified_since: Option<UnixTime>,
    if_unmodified_since: Option<UnixTime>,
)
    ensures
        evaluation(
            etag,
            modified,
            Some(value),
            if_none_match,
            if_modified_since,
            if_unmodified_since,
        ) == evaluation(etag, modified, Some(value), if_none_match, if_modified_since, None),
{
}

/// Next to `If-None-Match`, `If-Modified-Since` has no effect.
pub proof fn law_if_none_match_overrides_if_modified_since(
    etag: Seq<char>,
    modified: UnixTime,
    if_match: Option<Seq<char>>,
    value: Seq<char>,
    if_modified_since: Option<UnixTime>,
    if_unmodified_since: Option<UnixTime>,
)
    ensures
        evaluation(
            etag,
            modified,
            if_match,
            Some(value),
            if_modified_since,
            if_unmodified_since,
        ) == evaluation(etag, modified, if_match, Some(value), None, if_unmodified_since),
{
}

/// A failed precondition comes before everything else.
pub proof fn law_failed_precondition_comes_first(
    etag: Seq<char>,
    modified: UnixTime,
    value: Seq<char>,
    if_none_match: Option<Seq<char>>,
    if_modified_since: Option<UnixTime>,
    if_unmodified_since: Option<UnixTime>,
)
    requires
        !tag_matches(etag, value),
    ensures
        evaluation(
            etag,
            modified,
            Some(value),
            if_none_match,
            if_modified_since,
            if_unmodified_since,
        ) is PreconditionFailed,
{
}

/// The wildcard matches every tag.
pub proof fn law_wildcard_matches(etag: Seq<char>)
    ensures
        tag_matches(etag, "*"@),
{
    reveal_strlit("*");
    text::lemma_trimmed_identity("*"@);
}

/// A tag in double quotes, sent back as it was received, matches itself.
pub proof fn law_echoed_tag_matches(inner: Seq<char>)
    ensures
        tag_matches(crate::etag::quoted(inner), crate::etag::quoted(inner)),
{
    let q = crate::etag::quoted(inner);
    assert(q[0] == '"' && q.last() == '"');
    text::lemma_trimmed_identity(q);
}

/// A tag in double quotes matches that very tag and no other.
pub proof fn law_quoted_tag_matches_only_itself(etag: Seq<char>, inner: Seq<char>)
    ensures
        tag_matches(etag, seq!['"'] + inner + seq!['"']) <==> etag == seq!['"'] + inner + seq!['"'],
{
    let q = seq!['"'] + inner + seq!['"'];
    assert(q[0] == '"' && q.last() == '"');
    text::lemma_trimmed_identity(q);
    reveal_strlit("*");
}

/// A value without white space around it matches a tag exactly if it is the
/// wildcard or the tag itself. White space around it makes no difference.
pub proof fn law_value_matches_wildcard_or_tag(
    etag: Seq<char>,
    before: Seq<char>,
    value: Seq<char>,
    after: Seq<char>,
)
    requires
        value.len() > 0 ==> !text::is_whitespace(value[0]) && !text::is_whitespace(value.last()),
        forall|i: int| 0 <= i < before.len() ==> text::is_whitespace(#[trigger] before[i]),
        forall|i: int| 0 <= i < after.len() ==> text::is_whitespace(#[trigger] after[i]),
    ensures
        tag_matches(etag, before + value + after) <==> value == seq!['*'] || value == etag,
{
    text::law_trimming_ignores_surrounding_space(before, value, after);
    reveal_strlit("*");
    assert("*"@ =~= seq!['*']);
}

/// The headers of a request are heeded in two pairs: where the first pair does
/// not refuse it, the second pair decides alone.
pub proof fn law_conditions_are_heeded_in_pairs(
    etag: Seq<char>,
    modified: UnixTime,
    if_match: Option<Seq<char>>,
    if_none_match: Option<Seq<char>>,
    if_modified_since: Option<UnixTime>,
    if_unmodified_since: Option<UnixTime>,
)
    ensures
        evaluation(
            etag,
            modified,
            if_match,
            if_none_match,
            if_modified_since,
            if_unmodified_since,
        ) == if evaluation(etag, modified, if_match, None, None, if_unmodified_since) is Proceed {
            evaluation(etag, modified, None, if_none_match, if_modified_since, None)
        } else {
            ConditionalResult::PreconditionFailed
        },
{
}

/// With `If-Match` alone a request proceeds exactly if the tag matches, and is
/// refused otherwise. With `If-None-Match` alone the client has the resource
/// already exactly if the tag matches, and the request proceeds otherwise.
pub proof fn law_conditions_on_the_tag(etag: Seq<char>, modified: UnixTime, value: Seq<char>)
    ensures
        evaluation(etag, modified, Some(value), None, None, None) == if tag_matches(etag, value) {
            ConditionalResult::Proceed
        } else {
            ConditionalResult::PreconditionFailed
        },
        evaluation(etag, modified, None, Some(value), None, None) == if tag_matches(etag, value) {
            ConditionalResult::NotModified
        } else {
            ConditionalResult::Proceed
        },
{
}

/// With `If-Unmodified-Since` alone a request is refused exactly if the resource
/// was modified later. With `If-Modified-Since` alone the client has the
/// resource already exactly if it was modified in that second or before.
pub proof fn law_conditions_on_the_date(etag: Seq<char>, modified: UnixTime, since: UnixTime)
    ensures
        evaluation(etag, modified, None, None, None, Some(since)) == if modified.secs > since.secs
            || (modified.secs == since.secs && modified.nanos > since.nanos) {
            ConditionalResult::PreconditionFailed
        } else {
            ConditionalResult::Proceed
        },
        evaluation(etag, modified, None, None, Some(since), None) == if modified.secs <= since.secs
            || modified.secs <= 0 {
            ConditionalResult::NotModified
        } else {
            ConditionalResult::Proceed
        },
{
}

} // verus!
