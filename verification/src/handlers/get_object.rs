//! GetObject.

use crate::conditional;
use crate::conditional::evaluate;
use crate::conditional::ConditionalResult;
use crate::handlers::put_object;
use crate::handlers::put_object::to_object_key;
use crate::headers;
use crate::headers::header_text_under;
use crate::headers::is_header_value;
use crate::metadata_cache;
use crate::metadata_cache::apply_custom_headers;
use crate::metadata_cache::HeaderEntry;
use crate::range;
use crate::range::parse_range;
use crate::range::ByteRange;
use crate::range::RangeVerdict;
use crate::response;
use crate::response::Body;
use crate::response::BodyView;
use crate::response::Response;
use crate::response::ResponseView;
use crate::s3_xml_compat;
use crate::s3_xml_compat::s3_error;
use crate::s3_xml_compat::S3ErrorKind;
use crate::store;
use crate::store::EntryView;
use crate::store::FileEntry;
use crate::store::FileStore;
use crate::text;
use crate::text::decimal_string;
use crate::text::eq_ignore_ascii_case;
use crate::time;
use crate::time::read_http_date;
use crate::time::write_http_date;
use crate::time::UnixTime;
use vstd::prelude::*;
use vstd::string::*;
use vstd::utf8::*;

verus! {

// ---------------------------------------------------------------------------
// Dates
// ---------------------------------------------------------------------------

/// The time that an HTTP date names.
pub open spec fn date_value(s: Seq<char>) -> Option<UnixTime> {
    match time::http_date_value(s) {
        Some(secs) => Some(UnixTime { secs, nanos: 0 }),
        None => None,
    }
}

/// Parse an HTTP-date string (RFC 7231 / RFC 1123).
pub fn parse_http_date(s: &str) -> (r: Option<UnixTime>)
    ensures
        r == date_value(s@),
{
    match read_http_date(s) {
        Some(secs) => Some(UnixTime { secs, nanos: 0 }),
        None => None,
    }
}

/// Format a time as an HTTP-date string.
pub fn fmt_http_date(t: UnixTime) -> (r: String)
    requires
        t.has_http_date(),
    ensures
        r@ == time::http_date_text(t.secs),
        date_value(r@) == Some(UnixTime { secs: t.secs, nanos: 0 }),
        headers::valid_header_value(r@),
{
    write_http_date(t.secs)
}

// ---------------------------------------------------------------------------
// Requests
// ---------------------------------------------------------------------------

/// The headers of a GetObject request that the server heeds.
#[derive(Debug)]
pub struct GetRequest {
    pub if_match: Option<String>,
    pub if_none_match: Option<String>,
    pub if_modified_since: Option<UnixTime>,
    pub if_unmodified_since: Option<UnixTime>,
    pub range: Option<String>,
}

/// What a [`GetRequest`] says.
pub struct GetRequestView {
    pub if_match: Option<Seq<char>>,
    pub if_none_match: Option<Seq<char>>,
    pub if_modified_since: Option<UnixTime>,
    pub if_unmodified_since: Option<UnixTime>,
    pub range: Option<Seq<char>>,
}

impl View for GetRequest {
    type V = GetRequestView;

    open spec fn view(&self) -> GetRequestView {
        GetRequestView {
            if_match: metadata_cache::opt_text(self.if_match),
            if_none_match: metadata_cache::opt_text(self.if_none_match),
            if_modified_since: self.if_modified_since,
            if_unmodified_since: self.if_unmodified_since,
            range: metadata_cache::opt_text(self.range),
        }
    }
}

/// The time under `name` in a request. What is no date counts as absent.
pub open spec fn date_under(request: Seq<(Seq<char>, Seq<u8>)>, name: Seq<char>) -> Option<
    UnixTime,
> {
    match headers::text_under(request, name) {
        Some(s) => date_value(s),
        None => None,
    }
}

/// What the headers of a request ask for.
pub open spec fn requested(request: Seq<(Seq<char>, Seq<u8>)>) -> GetRequestView {
    GetRequestView {
        if_match: headers::text_under(request, "if-match"@),
        if_none_match: headers::text_under(request, "if-none-match"@),
        if_modified_since: date_under(request, "if-modified-since"@),
        if_unmodified_since: date_under(request, "if-unmodified-since"@),
        range: headers::text_under(request, "range"@),
    }
}

fn header_date_under(headers: &http::HeaderMap<http::HeaderValue>, name: &str) -> (r: Option<
    UnixTime,
>)
    requires
        headers::valid_header_name(name@),
    ensures
        r == date_under(headers::header_entries(*headers), text::lower(name@)),
{
    match header_text_under(headers, name) {
        Some(s) => parse_http_date(s.as_str()),
        None => None,
    }
}

/// Reads what the headers of a request ask for.
pub fn read_request(headers: &http::HeaderMap<http::HeaderValue>) -> (r: GetRequest)
    ensures
        r@ == requested(headers::header_entries(*headers)),
{
    proof {
        headers::lemma_names_of_headers_read();
    }
    GetRequest {
        if_match: header_text_under(headers, "if-match"),
        if_none_match: header_text_under(headers, "if-none-match"),
        if_modified_since: header_date_under(headers, "if-modified-since"),
        if_unmodified_since: header_date_under(headers, "if-unmodified-since"),
        range: header_text_under(headers, "range"),
    }
}

// ---------------------------------------------------------------------------
// Planning
// ---------------------------------------------------------------------------

/// How a GetObject request is answered.
#[derive(Debug)]
pub enum GetPlan {
    /// With this response.
    Refuse(Response),
    /// The client has the object already.
    NotModified(FileEntry),
    /// With the object, or with a range of it.
    Serve { entry: FileEntry, range: Option<ByteRange> },
}

/// What a [`GetPlan`] says.
pub enum GetPlanView {
    Refuse(ResponseView),
    NotModified(EntryView),
    Serve { entry: EntryView, range: Option<ByteRange> },
}

impl View for GetPlan {
    type V = GetPlanView;

    open spec fn view(&self) -> GetPlanView {
        match self {
            GetPlan::Refuse(resp) => GetPlanView::Refuse(resp@),
            GetPlan::NotModified(entry) => GetPlanView::NotModified(entry@),
            GetPlan::Serve { entry, range } => GetPlanView::Serve { entry: entry@, range: *range },
        }
    }
}

/// The response to a range that an object of `size` bytes does not have. It
/// tells the size.
pub open spec fn range_not_satisfiable(size: u64) -> ResponseView {
    let resp = s3_xml_compat::error_response(S3ErrorKind::InvalidRange);
    ResponseView {
        headers: resp.headers.push(
            response::header("content-range"@, "bytes */"@ + text::decimal(size as nat)),
        ),
        ..resp
    }
}

/// How a request for an object is answered.
pub open spec fn planned_for_entry(entry: EntryView, request: GetRequestView) -> GetPlanView {
    match conditional::evaluation(
        entry.etag,
        entry.modified,
        request.if_match,
        request.if_none_match,
        request.if_modified_since,
        request.if_unmodified_since,
    ) {
        ConditionalResult::PreconditionFailed => GetPlanView::Refuse(
            s3_xml_compat::error_response(S3ErrorKind::PreconditionFailed),
        ),
        ConditionalResult::NotModified => GetPlanView::NotModified(entry),
        ConditionalResult::Proceed => match range::range_verdict(request.range, entry.size) {
            RangeVerdict::Whole => GetPlanView::Serve { entry, range: None },
            RangeVerdict::Bytes(b) => GetPlanView::Serve { entry, range: Some(b) },
            RangeVerdict::Invalid(_) => GetPlanView::Refuse(range_not_satisfiable(entry.size)),
        },
    }
}

/// How a GetObject request for `key` is answered.
pub open spec fn planned_get(
    objects: Map<Seq<char>, EntryView>,
    key: Seq<char>,
    request: GetRequestView,
) -> GetPlanView {
    match store::lookup(objects, put_object::object_key(key)) {
        None => GetPlanView::Refuse(s3_xml_compat::error_response(S3ErrorKind::NoSuchKey)),
        Some(entry) => planned_for_entry(entry, request),
    }
}

fn as_text(s: &Option<String>) -> (r: Option<&str>)
    ensures
        text::opt_view(r) == metadata_cache::opt_text(*s),
{
    match s {
        Some(t) => Some(t.as_str()),
        None => None,
    }
}

fn respond_range_not_satisfiable(size: u64) -> (r: Response)
    ensures
        r@ == range_not_satisfiable(size),
{
    let mut value: String = "bytes */".to_owned();
    value.append(decimal_string(size).as_str());
    let mut resp: Response = s3_error(S3ErrorKind::InvalidRange);
    proof {
        response::lemma_names_of_headers_sent();
        text::lemma_decimal_digits(size as nat);
        reveal_strlit("bytes */");
        assert forall|i: int| 0 <= i < value@.len() implies headers::is_value_char(
            #[trigger] value@[i],
        ) by {
            if i >= 8 {
                assert(value@[i] == text::decimal(size as nat)[i - 8]);
                assert(text::is_digit(text::decimal(size as nat)[i - 8]));
            }
        }
    }
    resp.add_header("content-range", value.as_str());
    resp
}

/// Plans the answer to a GetObject request for `key`.
pub fn plan_get(store: &FileStore, key: &str, request: &GetRequest) -> (r: GetPlan)
    ensures
        r@ == planned_get(store@, key@, request@),
{
    let entry: FileEntry = match store.get(to_object_key(key).as_str()) {
        Some(e) => e.clone(),
        None => return GetPlan::Refuse(s3_error(S3ErrorKind::NoSuchKey)),
    };
    match evaluate(
        entry.etag.as_str(),
        entry.modified,
        as_text(&request.if_match),
        as_text(&request.if_none_match),
        request.if_modified_since,
        request.if_unmodified_since,
    ) {
        ConditionalResult::NotModified => return GetPlan::NotModified(entry),
        ConditionalResult::PreconditionFailed => return GetPlan::Refuse(
            s3_error(S3ErrorKind::PreconditionFailed),
        ),
        ConditionalResult::Proceed => {},
    }
    match parse_range(as_text(&request.range), entry.size) {
        Ok(range) => GetPlan::Serve { entry, range },
        Err(_) => GetPlan::Refuse(respond_range_not_satisfiable(entry.size)),
    }
}

/// GET /{*key} - S3 GetObject
///
/// Plans the answer from the headers of the request.
pub fn get_object(
    store: &FileStore,
    key: &str,
    headers: &http::HeaderMap<http::HeaderValue>,
) -> (r: GetPlan)
    ensures
        r@ == planned_get(store@, key@, requested(headers::header_entries(*headers))),
{
    let request: GetRequest = read_request(headers);
    plan_get(store, key, &request)
}

// ---------------------------------------------------------------------------
// Responses
// ---------------------------------------------------------------------------

/// Whether tag and modification time of an object can be sent.
pub open spec fn describable(entry: EntryView) -> bool {
    headers::valid_header_value(entry.etag) && entry.modified.has_http_date()
}

/// Whether an object can be sent: its tag and its modification time can, and
/// its own headers find room beside the six others.
pub open spec fn servable(entry: EntryView) -> bool {
    describable(entry) && entry.custom_headers.len() + 6 <= headers::HEADER_MAP_LIMIT
}

/// Whether tag and modification time of an object can be sent.
pub fn is_describable(entry: &FileEntry) -> (r: bool)
    ensures
        r == describable(entry@),
{
    is_header_value(entry.etag.as_str()) && 0 <= entry.modified.secs && entry.modified.secs
        < 253402300800
}

/// Whether an object can be sent.
pub fn is_servable(entry: &FileEntry) -> (r: bool)
    ensures
        r == servable(entry@),
{
    is_describable(entry) && entry.custom_headers.len() <= headers::HEADER_MAP_LIMIT - 6
}

/// The response for a client that has the object already.
pub open spec fn not_modified(entry: EntryView) -> ResponseView {
    ResponseView {
        status: 304,
        headers: seq![
            response::header("etag"@, entry.etag),
            response::header("last-modified"@, time::http_date_text(entry.modified.secs)),
        ],
        body: BodyView::Empty,
    }
}

/// The response for a client that has the object already.
pub fn respond_not_modified(entry: &FileEntry) -> (r: Response)
    requires
        describable(entry@),
    ensures
        r@ == not_modified(entry@),
{
    proof {
        response::lemma_names_of_headers_sent();
    }
    let mut resp: Response = Response::new(304);
    resp.add_header("etag", entry.etag.as_str());
    resp.add_header("last-modified", fmt_http_date(entry.modified).as_str());
    assert(resp@.headers =~= not_modified(entry@).headers);
    resp
}

/// The headers that the server itself sends with an object, or with a range of
/// it.
pub open spec fn object_headers(entry: EntryView, range: Option<ByteRange>) -> Seq<
    (Seq<char>, Seq<u8>),
> {
    let date = time::http_date_text(entry.modified.secs);
    match range {
        None => seq![
            response::header("content-type"@, "application/octet-stream"@),
            response::header("content-length"@, text::decimal(entry.size as nat)),
            response::header("etag"@, entry.etag),
            response::header("last-modified"@, date),
            response::header("accept-ranges"@, "bytes"@),
        ],
        Some(b) => seq![
            response::header("content-type"@, "application/octet-stream"@),
            response::header("content-length"@, text::decimal((b.end - b.start + 1) as nat)),
            response::header("content-range"@, b.content_range(entry.size)),
            response::header("etag"@, entry.etag),
            response::header("last-modified"@, date),
            response::header("accept-ranges"@, "bytes"@),
        ],
    }
}

/// Whether `name`, in lower case, is that of a header by which the server
/// describes what it sends.
pub open spec fn is_reserved(name: Seq<char>) -> bool {
    ||| name == "content-length"@
    ||| name == "content-range"@
    ||| name == "etag"@
    ||| name == "last-modified"@
    ||| name == "accept-ranges"@
}

/// The headers of an object that are sent with it: those by which the server
/// itself describes what it sends are left out.
pub open spec fn replayed(list: Seq<(Seq<char>, Seq<char>)>) -> Seq<(Seq<char>, Seq<char>)>
    decreases list.len(),
{
    if list.len() == 0 {
        list
    } else if is_reserved(text::lower(list.last().0)) {
        replayed(list.drop_last())
    } else {
        replayed(list.drop_last()).push(list.last())
    }
}

fn is_reserved_name(name: &str) -> (r: bool)
    ensures
        r == is_reserved(text::lower(name@)),
{
    proof {
        response::lemma_names_of_headers_sent();
    }
    eq_ignore_ascii_case(name, "content-length") || eq_ignore_ascii_case(name, "content-range")
        || eq_ignore_ascii_case(name, "etag") || eq_ignore_ascii_case(name, "last-modified")
        || eq_ignore_ascii_case(name, "accept-ranges")
}

/// The headers of an object that are sent with it.
fn replayed_headers(custom_headers: &[HeaderEntry]) -> (r: Vec<HeaderEntry>)
    ensures
        metadata_cache::header_list(r@) == replayed(metadata_cache::header_list(custom_headers@)),
        r@.len() <= custom_headers@.len(),
{
    let ghost list = metadata_cache::header_list(custom_headers@);
    let n: usize = custom_headers.len();
    let mut kept: Vec<HeaderEntry> = Vec::new();
    let mut i: usize = 0;
    assert(list.take(0) == Seq::<(Seq<char>, Seq<char>)>::empty());
    assert(metadata_cache::header_list(kept@) == list.take(0));
    while i < n
        invariant
            i <= n,
            n == custom_headers@.len(),
            list == metadata_cache::header_list(custom_headers@),
            metadata_cache::header_list(kept@) == replayed(list.take(i as int)),
            kept@.len() <= i,
        decreases n - i,
    {
        let header: &HeaderEntry = &custom_headers[i];
        assert(list.take(i + 1).drop_last() == list.take(i as int));
        assert(list.take(i + 1).last() == header@);
        if !is_reserved_name(header.key.as_str()) {
            let ghost before = metadata_cache::header_list(kept@);
            kept.push(HeaderEntry { key: header.key.clone(), value: header.value.clone() });
            assert(metadata_cache::header_list(kept@) =~= before.push(header@));
        }
        i = i + 1;
    }
    assert(list.take(n as int) == list);
    kept
}

/// The response with an object, or with a range of it. The object's own headers
/// come last. They can replace the type of the contents, but nothing by which
/// the server describes what it sends.
pub open spec fn served(entry: EntryView, range: Option<ByteRange>) -> ResponseView {
    ResponseView {
        status: if range is Some {
            206
        } else {
            200
        },
        headers: metadata_cache::applied(
            object_headers(entry, range),
            replayed(entry.custom_headers),
        ),
        body: match range {
            None => BodyView::File { path: entry.abs_path },
            Some(b) => BodyView::FileRange {
                path: entry.abs_path,
                start: b.start,
                len: (b.end - b.start + 1) as u64,
            },
        },
    }
}

proof fn lemma_sizes_are_header_values(n: u64, range: ByteRange)
    ensures
        headers::valid_header_value(text::decimal(n as nat)),
        headers::valid_header_value(range.content_range(n)),
{
    let a = text::decimal(range.start as nat);
    let b = text::decimal(range.end as nat);
    let c = text::decimal(n as nat);
    text::lemma_decimal_digits(range.start as nat);
    text::lemma_decimal_digits(range.end as nat);
    text::lemma_decimal_digits(n as nat);
    reveal_strlit("bytes ");
    reveal_strlit("-");
    reveal_strlit("/");
    assert forall|i: int| 0 <= i < c.len() implies headers::is_value_char(#[trigger] c[i]) by {
        assert(text::is_digit(c[i]));
    }
    let v = range.content_range(n);
    assert forall|i: int| 0 <= i < v.len() implies headers::is_value_char(#[trigger] v[i]) by {
        let x = a.len() as int;
        let y = b.len() as int;
        if 6 <= i < 6 + x {
            assert(v[i] == a[i - 6]);
            assert(text::is_digit(a[i - 6]));
        } else if 7 + x <= i < 7 + x + y {
            assert(v[i] == b[i - 7 - x]);
            assert(text::is_digit(b[i - 7 - x]));
        } else if 8 + x + y <= i {
            assert(v[i] == c[i - 8 - x - y]);
            assert(text::is_digit(c[i - 8 - x - y]));
        }
    }
}

/// The response with an object, or with a range of it, once its file has been
/// opened and the beginning of the range has been found, or has failed to be.
pub fn respond_object(entry: &FileEntry, range: Option<ByteRange>, opened: bool) -> (r: Response)
    requires
        opened ==> servable(entry@),
        range matches Some(b) ==> b.start <= b.end && b.end - b.start < u64::MAX,
    ensures
        r@ == if opened {
            served(entry@, range)
        } else {
            s3_xml_compat::error_response(S3ErrorKind::Internal)
        },
{
    if !opened {
        return s3_error(S3ErrorKind::Internal);
    }
    let date: String = fmt_http_date(entry.modified);
    proof {
        response::lemma_names_of_headers_sent();
        response::lemma_values_of_headers_sent();
    }
    let mut resp: Response = match range {
        None => {
            proof {
                lemma_sizes_are_header_values(entry.size, ByteRange { start: 0, end: 0 });
            }
            let mut resp: Response = Response::new(200);
            resp.add_header("content-type", "application/octet-stream");
            resp.add_header("content-length", decimal_string(entry.size).as_str());
            resp.body = Body::File { path: entry.abs_path.clone() };
            resp
        },
        Some(b) => {
            let len: u64 = b.len();
            proof {
                lemma_sizes_are_header_values(entry.size, b);
                lemma_sizes_are_header_values(len, b);
            }
            let mut resp: Response = Response::new(206);
            resp.add_header("content-type", "application/octet-stream");
            resp.add_header("content-length", decimal_string(len).as_str());
            resp.add_header("content-range", b.content_range_header(entry.size).as_str());
            resp.body = Body::FileRange { path: entry.abs_path.clone(), start: b.start, len };
            resp
        },
    };
    resp.add_header("etag", entry.etag.as_str());
    resp.add_header("last-modified", date.as_str());
    resp.add_header("accept-ranges", "bytes");
    assert(resp@.headers =~= object_headers(entry@, range));
    let own: Vec<HeaderEntry> = replayed_headers(entry.custom_headers.as_slice());
    apply_custom_headers(&mut resp.headers, own.as_slice());
    resp
}

// ---------------------------------------------------------------------------
// Laws
// ---------------------------------------------------------------------------

/// A request without any of the headers that the server heeds.
pub open spec fn plain_request() -> GetRequestView {
    GetRequestView {
        if_match: None,
        if_none_match: None,
        if_modified_since: None,
        if_unmodified_since: None,
        range: None,
    }
}

/// Without conditional headers and without a range the whole object is served.
pub proof fn law_plain_request_gets_the_object(entry: EntryView)
    ensures
        planned_for_entry(entry, plain_request()) == (GetPlanView::Serve { entry, range: None }),
{
}

/// A client that sends the tag of the object back in `If-None-Match` is told
/// that it has the object already, whatever dates and ranges it sends along.
pub proof fn law_echoed_tag_is_not_modified(
    entry: EntryView,
    inner: Seq<char>,
    request: GetRequestView,
)
    requires
        entry.etag == crate::etag::quoted(inner),
        request.if_match is None,
        request.if_unmodified_since is None,
        request.if_none_match == Some(entry.etag),
    ensures
        planned_for_entry(entry, request) == GetPlanView::NotModified(entry),
{
    conditional::law_echoed_tag_matches(inner);
}

/// A client that sends the tag of the object back in `If-Match` gets what it
/// would get without that header, if it sends no `If-Unmodified-Since`.
pub proof fn law_echoed_tag_meets_if_match(
    entry: EntryView,
    inner: Seq<char>,
    request: GetRequestView,
)
    requires
        entry.etag == crate::etag::quoted(inner),
        request.if_match == Some(entry.etag),
        request.if_unmodified_since is None,
    ensures
        planned_for_entry(entry, request) == planned_for_entry(
            entry,
            GetRequestView { if_match: None, ..request },
        ),
{
    conditional::law_echoed_tag_matches(inner);
}

/// A client that sends the `Last-Modified` date of the object back in
/// `If-Modified-Since` is told that it has the object already.
pub proof fn law_echoed_date_is_not_modified(
    entry: EntryView,
    date: Seq<char>,
    request: GetRequestView,
)
    requires
        entry.modified.has_http_date(),
        date_value(date) == Some(UnixTime { secs: entry.modified.secs, nanos: 0 }),
        request.if_match is None,
        request.if_none_match is None,
        request.if_unmodified_since is None,
        request.if_modified_since == date_value(date),
    ensures
        planned_for_entry(entry, request) == GetPlanView::NotModified(entry),
{
}

/// A range that is served lies within the object and holds at least one byte.
pub proof fn law_served_range_lies_within_the_object(entry: EntryView, request: GetRequestView)
    ensures
        planned_for_entry(entry, request) matches GetPlanView::Serve { entry: e, range: Some(b) }
            ==> e == entry && b.within(entry.size),
{
    if let GetPlanView::Serve { entry: e, range: Some(b) } = planned_for_entry(entry, request) {
        range::law_granted_range_lies_within_the_file(request.range, entry.size);
    }
}

proof fn lemma_last_replayed(list: Seq<(Seq<char>, Seq<char>)>, name: Seq<char>)
    ensures
        metadata_cache::last_sendable(replayed(list), name) == if is_reserved(name) {
            None
        } else {
            metadata_cache::last_sendable(list, name)
        },
    decreases list.len(),
{
    if list.len() > 0 {
        let front = replayed(list.drop_last());
        lemma_last_replayed(list.drop_last(), name);
        if !is_reserved(text::lower(list.last().0)) {
            assert(front.push(list.last()).drop_last() == front);
        }
    }
}

/// The names of the headers by which the server describes what it sends begin
/// with one of four letters.
pub proof fn lemma_reserved_names()
    ensures
        forall|name: Seq<char>| #[trigger]
            is_reserved(name) ==> name[0] == 'a' || name[0] == 'c' || name[0] == 'e' || name[0]
                == 'l',
{
    reveal_strlit("content-length");
    reveal_strlit("content-range");
    reveal_strlit("etag");
    reveal_strlit("last-modified");
    reveal_strlit("accept-ranges");
}

/// The last of an object's own headers under a name is sent with the object.
/// Under the other names, and under those by which the server describes what it
/// sends, there is what the server itself sends.
pub proof fn law_own_headers_are_sent(
    entry: EntryView,
    range: Option<ByteRange>,
    name: Seq<char>,
)
    ensures
        headers::first_value(served(entry, range).headers, name) == if is_reserved(name) {
            headers::first_value(object_headers(entry, range), name)
        } else {
            match metadata_cache::last_sendable(entry.custom_headers, name) {
                Some(v) => Some(encode_utf8(v)),
                None => headers::first_value(object_headers(entry, range), name),
            }
        },
{
    metadata_cache::lemma_applied(
        object_headers(entry, range),
        replayed(entry.custom_headers),
        name,
    );
    lemma_last_replayed(entry.custom_headers, name);
}

/// With every object the server sends its tag and its modification time, the
/// length of what follows, and that it serves ranges; with a part of an object,
/// and only then, also which part that is. It sends the type of an object that
/// has none of its own.
pub proof fn law_object_is_described(entry: EntryView, range: Option<ByteRange>)
    ensures
        ({
            let sent = served(entry, range).headers;
            let length = match range {
                None => entry.size as nat,
                Some(b) => (b.end - b.start + 1) as nat,
            };
            let date = time::http_date_text(entry.modified.secs);
            &&& metadata_cache::last_sendable(entry.custom_headers, "content-type"@) is None
                ==> headers::first_value(sent, "content-type"@) == Some(
                encode_utf8("application/octet-stream"@),
            )
            &&& headers::first_value(sent, "content-length"@) == Some(
                encode_utf8(text::decimal(length)),
            )
            &&& headers::first_value(sent, "content-range"@) == match range {
                None => None,
                Some(b) => Some(encode_utf8(b.content_range(entry.size))),
            }
            &&& headers::first_value(sent, "etag"@) == Some(encode_utf8(entry.etag))
            &&& headers::first_value(sent, "last-modified"@) == Some(encode_utf8(date))
            &&& headers::first_value(sent, "accept-ranges"@) == Some(encode_utf8("bytes"@))
        }),
{
    law_own_headers_are_sent(entry, range, "content-type"@);
    law_own_headers_are_sent(entry, range, "content-length"@);
    law_own_headers_are_sent(entry, range, "content-range"@);
    law_own_headers_are_sent(entry, range, "etag"@);
    law_own_headers_are_sent(entry, range, "last-modified"@);
    law_own_headers_are_sent(entry, range, "accept-ranges"@);
    response::lemma_names_of_headers_sent();
    let sent = object_headers(entry, range);
    let k: int = if range is Some {
        1
    } else {
        0
    };
    headers::lemma_first_value_at(sent, "content-type"@, 0);
    headers::lemma_first_value_at(sent, "content-length"@, 1);
    if range is Some {
        headers::lemma_first_value_at(sent, "content-range"@, 2);
    } else {
        headers::lemma_first_value_absent(sent, "content-range"@);
    }
    headers::lemma_first_value_at(sent, "etag"@, 2 + k);
    headers::lemma_first_value_at(sent, "last-modified"@, 3 + k);
    headers::lemma_first_value_at(sent, "accept-ranges"@, 4 + k);
}

/// A whole object is sent with the status 200 and the whole of its file. A range
/// of an object is sent with the status 206 and exactly the bytes of the range:
/// from its first on, as many as `Content-Length` says, up to its last.
pub proof fn law_body_is_what_was_asked_for(entry: EntryView, range: ByteRange, contents: Seq<u8>)
    requires
        range.start <= range.end,
        range.end < entry.size,
        contents.len() == entry.size,
    ensures
        served(entry, None).status == 200,
        served(entry, None).body == (BodyView::File { path: entry.abs_path }),
        served(entry, Some(range)).status == 206,
        served(entry, Some(range)).body matches BodyView::FileRange { path, start, len } && {
            &&& path == entry.abs_path
            &&& start == range.start
            &&& len == range.end - range.start + 1
            &&& contents.subrange(start as int, start + len) == contents.subrange(
                range.start as int,
                range.end + 1,
            )
            &&& headers::first_value(served(entry, Some(range)).headers, "content-length"@) == Some(
                encode_utf8(text::decimal(len as nat)),
            )
        },
{
    law_object_is_described(entry, Some(range));
}

/// The sender of a range never reads beyond the range that the client asked for:
/// the bytes that are sent for two ranges that follow one another are those that
/// are sent for the range of both.
pub proof fn law_ranges_add_up(entry: EntryView, first: ByteRange, second: ByteRange)
    requires
        first.start <= first.end,
        first.end < second.start,
        second.start == first.end + 1,
        second.start <= second.end,
        second.end < entry.size,
    ensures
        served(entry, Some(first)).body matches BodyView::FileRange { path: p, start: a, len: m } && (
        served(entry, Some(second)).body matches BodyView::FileRange { path: q, start: b, len: n }
            && served(
            entry,
            Some(ByteRange { start: first.start, end: second.end }),
        ).body matches BodyView::FileRange { path, start, len } && p == path && q == path && a
            == start && b == a + m && len == m + n),
{
}

/// An object that is not indexed is not found. One that is indexed is answered
/// for itself, whatever else is.
pub proof fn law_get_finds_the_object(
    objects: Map<Seq<char>, EntryView>,
    key: Seq<char>,
    request: GetRequestView,
)
    ensures
        !objects.contains_key(put_object::object_key(key)) ==> planned_get(objects, key, request)
            == GetPlanView::Refuse(s3_xml_compat::error_response(S3ErrorKind::NoSuchKey)),
        objects.contains_key(put_object::object_key(key)) ==> planned_get(objects, key, request)
            == planned_for_entry(objects[put_object::object_key(key)], request),
{
}

/// The conditions of a request come first: where they fail it is refused with
/// 412, and where they say that the client has the object already, it is told
/// so. Only then comes the range: without one the whole object is sent, with one
/// that can be satisfied these bytes are, and one that cannot is refused with 416.
pub proof fn law_conditions_come_before_the_range(entry: EntryView, request: GetRequestView)
    ensures
        ({
            let result = conditional::evaluation(
                entry.etag,
                entry.modified,
                request.if_match,
                request.if_none_match,
                request.if_modified_since,
                request.if_unmodified_since,
            );
            let plan = planned_for_entry(entry, request);
            let verdict = range::range_verdict(request.range, entry.size);
            &&& result is PreconditionFailed <==> plan == GetPlanView::Refuse(
                s3_xml_compat::error_response(S3ErrorKind::PreconditionFailed),
            )
            &&& result is NotModified <==> plan == GetPlanView::NotModified(entry)
            &&& result is Proceed && verdict is Whole <==> plan == (GetPlanView::Serve {
                entry,
                range: None,
            })
            &&& forall|b: ByteRange|
                #![trigger b.start]
                result is Proceed && verdict == RangeVerdict::Bytes(b) <==> plan == (
                GetPlanView::Serve { entry, range: Some(b) })
            &&& result is Proceed && verdict is Invalid ==> plan == GetPlanView::Refuse(
                range_not_satisfiable(entry.size),
            )
        }),
{
    let a = s3_xml_compat::error_response(S3ErrorKind::PreconditionFailed);
    let b = range_not_satisfiable(entry.size);
    s3_xml_compat::law_status_of_an_error(S3ErrorKind::PreconditionFailed);
    s3_xml_compat::law_status_of_an_error(S3ErrorKind::InvalidRange);
    assert(a.status != b.status);
}

/// A client that has another version of the object, by its tag, gets the object:
/// with `If-None-Match` and a quoted tag that is not that of the object it is
/// served as without the header, and with `If-Match` and such a tag it is
/// refused.
pub proof fn law_other_tag_is_not_the_object(
    entry: EntryView,
    inner: Seq<char>,
    range: Option<Seq<char>>,
    request: GetRequestView,
)
    requires
        entry.etag != seq!['"'] + inner + seq!['"'],
    ensures
        planned_for_entry(
            entry,
            GetRequestView {
                if_none_match: Some(seq!['"'] + inner + seq!['"']),
                range,
                ..plain_request()
            },
        ) == planned_for_entry(entry, GetRequestView { range, ..plain_request() }),
        planned_for_entry(
            entry,
            GetRequestView {
                if_none_match: Some(seq!['"'] + inner + seq!['"']),
                ..plain_request()
            },
        ) == (GetPlanView::Serve { entry, range: None }),
        planned_for_entry(
            entry,
            GetRequestView { if_match: Some(seq!['"'] + inner + seq!['"']), ..request },
        ) == GetPlanView::Refuse(s3_xml_compat::error_response(S3ErrorKind::PreconditionFailed)),
{
    conditional::law_quoted_tag_matches_only_itself(entry.etag, inner);
}

/// A request is read by its first header of each name: the two conditions on the
/// tag, the two conditions on the date, and the range. A value that is no text,
/// or no date where one is expected, counts as absent.
pub proof fn law_request_is_read_by_its_headers(request: Seq<(Seq<char>, Seq<u8>)>)
    ensures
        requested(request).if_match == headers::text_under(request, "if-match"@),
        requested(request).if_none_match == headers::text_under(request, "if-none-match"@),
        requested(request).range == headers::text_under(request, "range"@),
        ({
            let text = headers::text_under(request, "if-modified-since"@);
            let date = requested(request).if_modified_since;
            &&& text is None ==> date is None
            &&& text is Some ==> date is Some == time::http_date_value(text->0) is Some
            &&& date matches Some(t) ==> time::http_date_value(text->0) == Some(t.secs) && t.nanos
                == 0
        }),
        ({
            let text = headers::text_under(request, "if-unmodified-since"@);
            let date = requested(request).if_unmodified_since;
            &&& text is None ==> date is None
            &&& text is Some ==> date is Some == time::http_date_value(text->0) is Some
            &&& date matches Some(t) ==> time::http_date_value(text->0) == Some(t.secs) && t.nanos
                == 0
        }),
{
}

/// A request without any headers asks for the whole object, unconditionally.
pub proof fn law_request_without_headers_is_plain()
    ensures
        requested(Seq::empty()) == plain_request(),
        plain_request().if_match is None && plain_request().if_none_match is None,
        plain_request().if_modified_since is None && plain_request().if_unmodified_since is None,
        plain_request().range is None,
{
    let none = Seq::<(Seq<char>, Seq<u8>)>::empty();
    headers::law_text_under_a_name(none, "if-match"@, 0);
    headers::law_text_under_a_name(none, "if-none-match"@, 0);
    headers::law_text_under_a_name(none, "if-modified-since"@, 0);
    headers::law_text_under_a_name(none, "if-unmodified-since"@, 0);
    headers::law_text_under_a_name(none, "range"@, 0);
}

/// A client that has the object already is sent its tag and its modification
/// time with the status 304, and nothing else.
pub proof fn law_not_modified_sends_no_body(entry: EntryView)
    ensures
        not_modified(entry).status == 304,
        not_modified(entry).body is Empty,
        not_modified(entry).headers == seq![
            ("etag"@, encode_utf8(entry.etag)),
            ("last-modified"@, encode_utf8(time::http_date_text(entry.modified.secs))),
        ],
{
}

/// A range that cannot be satisfied is refused with the status 416 and the size
/// of the object.
pub proof fn law_unsatisfiable_range_tells_the_size(size: u64)
    ensures
        range_not_satisfiable(size).status == 416,
        headers::first_value(range_not_satisfiable(size).headers, "content-range"@) == Some(
            encode_utf8("bytes */"@ + text::decimal(size as nat)),
        ),
        range_not_satisfiable(size).body == s3_xml_compat::error_response(
            S3ErrorKind::InvalidRange,
        ).body,
{
    response::lemma_names_of_headers_sent();
    s3_xml_compat::law_error_document(S3ErrorKind::InvalidRange);
    headers::lemma_first_value_at(range_not_satisfiable(size).headers, "content-range"@, 1);
}

/// The server describes what it sends by five headers, which no object can
/// replace.
pub proof fn law_reserved_headers(name: Seq<char>)
    ensures
        is_reserved(name) <==> name == "content-length"@ || name == "content-range"@ || name
            == "etag"@ || name == "last-modified"@ || name == "accept-ranges"@,
{
}

/// An object can be described if its tag is a header value and it was modified
/// between 1970 and 9999, and can be sent if its own headers find room besides.
pub proof fn law_objects_that_can_be_sent(entry: EntryView)
    ensures
        describable(entry) <==> (forall|i: int|
            0 <= i < entry.etag.len() ==> #[trigger] entry.etag[i] == '\t' || (32
                <= entry.etag[i] as u32 && entry.etag[i] as u32 != 127)) && 0
            <= entry.modified.secs <= 253402300799,
        servable(entry) <==> describable(entry) && entry.custom_headers.len() <= 6548,
{
    if headers::valid_header_value(entry.etag) {
        assert forall|i: int| 0 <= i < entry.etag.len() implies #[trigger] entry.etag[i]
            == '\t' || (32 <= entry.etag[i] as u32 && entry.etag[i] as u32 != 127) by {
            assert(headers::is_value_char(entry.etag[i]));
        }
    }
}

/// A plan says what its fields hold, and so does a request.
pub proof fn law_plans_say_what_they_hold(
    request: GetRequest,
    response: Response,
    entry: FileEntry,
    range: Option<ByteRange>,
)
    ensures
        GetPlan::Refuse(response)@ == GetPlanView::Refuse(response@),
        GetPlan::NotModified(entry)@ == GetPlanView::NotModified(entry@),
        (GetPlan::Serve { entry, range })@ == (GetPlanView::Serve { entry: entry@, range }),
        request@.if_match == metadata_cache::opt_text(request.if_match),
        request@.if_none_match == metadata_cache::opt_text(request.if_none_match),
        request@.if_modified_since == request.if_modified_since,
        request@.if_unmodified_since == request.if_unmodified_since,
        request@.range == metadata_cache::opt_text(request.range),
{
}

/// An object without headers of its own is sent with these headers and no others:
/// its type, the length of what follows, which part of it that is if it is not the
/// whole, its tag, its modification time, and that the server serves ranges.
pub proof fn law_headers_of_a_plain_object(entry: EntryView, range: ByteRange)
    requires
        entry.custom_headers.len() == 0,
        range.start <= range.end,
    ensures
        served(entry, None).headers == seq![
            ("content-type"@, encode_utf8("application/octet-stream"@)),
            ("content-length"@, encode_utf8(text::decimal(entry.size as nat))),
            ("etag"@, encode_utf8(entry.etag)),
            ("last-modified"@, encode_utf8(time::http_date_text(entry.modified.secs))),
            ("accept-ranges"@, encode_utf8("bytes"@)),
        ],
        served(entry, Some(range)).headers == seq![
            ("content-type"@, encode_utf8("application/octet-stream"@)),
            (
                "content-length"@,
                encode_utf8(text::decimal((range.end - range.start + 1) as nat)),
            ),
            ("content-range"@, encode_utf8(range.content_range(entry.size))),
            ("etag"@, encode_utf8(entry.etag)),
            ("last-modified"@, encode_utf8(time::http_date_text(entry.modified.secs))),
            ("accept-ranges"@, encode_utf8("bytes"@)),
        ],
{
}

/// The headers of an object that are sent with it are its own, in their order, but
/// for those by which the server describes what it sends.
pub proof fn law_headers_that_are_replayed(
    a: Seq<(Seq<char>, Seq<char>)>,
    b: Seq<(Seq<char>, Seq<char>)>,
)
    ensures
        replayed(a + b) == replayed(a) + replayed(b),
        a.len() == 1 ==> replayed(a) == if is_reserved(text::lower(a[0].0)) {
            Seq::empty()
        } else {
            a
        },
    decreases b.len(),
{
    if b.len() == 0 {
        assert(a + b == a);
        assert(replayed(a) + replayed(b) == replayed(a));
    } else {
        law_headers_that_are_replayed(a, b.drop_last());
        assert((a + b).drop_last() == a + b.drop_last());
        assert(replayed(a + b) =~= replayed(a) + replayed(b));
    }
    if a.len() == 1 {
        let none = Seq::<(Seq<char>, Seq<char>)>::empty();
        assert(a.drop_last() =~= none);
        assert(replayed(none) == none);
        assert(none.push(a.last()) =~= a);
    }
}

/// An HTTP date names a whole second.
pub proof fn law_dates_name_whole_seconds(s: Seq<char>)
    ensures
        date_value(s) is Some <==> time::http_date_value(s) is Some,
        date_value(s) matches Some(t) ==> time::http_date_value(s) == Some(t.secs) && t.nanos == 0,
{
}

} // verus!
