//! HTTP responses.

use crate::fs_path::FsPath;
use crate::headers;
use crate::headers::insert_header;
use crate::headers::new_header_map;
use crate::text;
use vstd::prelude::*;
use vstd::string::*;
use vstd::utf8::*;

verus! {

/// What a response carries behind its headers.
#[derive(Debug)]
pub enum Body {
    /// Nothing.
    Empty,
    /// These bytes.
    Bytes(Vec<u8>),
    /// The contents of a file.
    File { path: FsPath },
    /// `len` bytes of a file, from the byte `start` on.
    FileRange { path: FsPath, start: u64, len: u64 },
}

/// What a [`Body`] says.
pub enum BodyView {
    Empty,
    Bytes(Seq<u8>),
    File { path: Seq<u8> },
    FileRange { path: Seq<u8>, start: u64, len: u64 },
}

impl View for Body {
    type V = BodyView;

    open spec fn view(&self) -> BodyView {
        match self {
            Body::Empty => BodyView::Empty,
            Body::Bytes(bytes) => BodyView::Bytes(bytes@),
            Body::File { path } => BodyView::File { path: path@ },
            Body::FileRange { path, start, len } => BodyView::FileRange {
                path: path@,
                start: *start,
                len: *len,
            },
        }
    }
}

/// An HTTP response.
#[derive(Debug)]
pub struct Response {
    pub status: u16,
    pub headers: http::HeaderMap<http::HeaderValue>,
    pub body: Body,
}

/// What a [`Response`] says.
pub struct ResponseView {
    pub status: u16,
    pub headers: Seq<(Seq<char>, Seq<u8>)>,
    pub body: BodyView,
}

impl View for Response {
    type V = ResponseView;

    open spec fn view(&self) -> ResponseView {
        ResponseView {
            status: self.status,
            headers: headers::header_entries(self.headers),
            body: self.body@,
        }
    }
}

/// A header as it stands in a response.
pub open spec fn header(name: Seq<char>, value: Seq<char>) -> (Seq<char>, Seq<u8>) {
    (name, encode_utf8(value))
}

/// Whether `name` is a header name in lower case.
pub open spec fn is_lower_name(name: Seq<char>) -> bool {
    headers::valid_header_name(name) && text::lower(name) == name
}

impl Response {
    /// A response with neither headers nor a body.
    pub fn new(status: u16) -> (r: Response)
        ensures
            r@ == (ResponseView { status, headers: Seq::empty(), body: BodyView::Empty }),
    {
        Response { status, headers: new_header_map(), body: Body::Empty }
    }

    /// Adds a header whose name is not there yet.
    pub fn add_header(&mut self, name: &str, value: &str)
        requires
            is_lower_name(name@),
            headers::valid_header_value(value@),
            old(self)@.headers.len() < headers::HEADER_MAP_LIMIT,
            forall|i: int|
                0 <= i < old(self)@.headers.len() ==> (#[trigger] old(self)@.headers[i]).0 != name@,
        ensures
            final(self)@ == (ResponseView {
                headers: old(self)@.headers.push(header(name@, value@)),
                ..old(self)@
            }),
    {
        proof {
            headers::lemma_inserted_absent(
                headers::header_entries(self.headers),
                name@,
                encode_utf8(value@),
            );
        }
        insert_header(&mut self.headers, name, value);
    }
}

/// The response that tells that an operation succeeded and returns nothing.
pub open spec fn no_content() -> ResponseView {
    ResponseView { status: 204, headers: Seq::empty(), body: BodyView::Empty }
}

/// The names of the headers that the server sends are header names in lower
/// case, and no two of them are the same.
pub proof fn lemma_names_of_headers_sent()
    ensures
        is_lower_name("content-type"@),
        is_lower_name("content-length"@),
        is_lower_name("content-range"@),
        is_lower_name("etag"@),
        is_lower_name("last-modified"@),
        is_lower_name("accept-ranges"@),
        "content-type"@.len() == 12,
        "content-length"@.len() == 14,
        "content-range"@.len() == 13 && "content-range"@[0] == 'c',
        "etag"@.len() == 4,
        "last-modified"@.len() == 13 && "last-modified"@[0] == 'l',
        "accept-ranges"@.len() == 13 && "accept-ranges"@[0] == 'a',
{
    reveal_strlit("content-type");
    reveal_strlit("content-length");
    reveal_strlit("content-range");
    reveal_strlit("etag");
    reveal_strlit("last-modified");
    reveal_strlit("accept-ranges");
    assert(text::lower("content-type"@) =~= "content-type"@);
    assert(text::lower("content-length"@) =~= "content-length"@);
    assert(text::lower("content-range"@) =~= "content-range"@);
    assert(text::lower("etag"@) =~= "etag"@);
    assert(text::lower("last-modified"@) =~= "last-modified"@);
    assert(text::lower("accept-ranges"@) =~= "accept-ranges"@);
}

/// The values of fixed text that the server sends are header values.
pub proof fn lemma_values_of_headers_sent()
    ensures
        headers::valid_header_value("application/xml"@),
        headers::valid_header_value("application/octet-stream"@),
        headers::valid_header_value("bytes"@),
{
    reveal_strlit("application/xml");
    reveal_strlit("application/octet-stream");
    reveal_strlit("bytes");
}

// ---------------------------------------------------------------------------
// Laws
// ---------------------------------------------------------------------------


/// A response says what its fields hold.
pub proof fn law_response_says_what_it_holds(
    response: Response,
    bytes: Vec<u8>,
    path: FsPath,
    start: u64,
    len: u64,
)
    ensures
        response@.status == response.status,
        response@.headers == headers::header_entries(response.headers),
        response@.body == response.body@,
        Body::Empty@ is Empty,
        Body::Bytes(bytes)@ == BodyView::Bytes(bytes@),
        (Body::File { path })@ == (BodyView::File { path: path.bytes@ }),
        (Body::FileRange { path, start, len })@ == (BodyView::FileRange {
            path: path.bytes@,
            start,
            len,
        }),
{
}

/// A header is sent under its name with the encoding of its value.
pub proof fn law_header_is_encoded(name: Seq<char>, value: Seq<char>)
    ensures
        header(name, value).0 == name,
        header(name, value).1 == encode_utf8(value),
{
}

/// The response that returns nothing has neither headers nor a body.
pub proof fn law_no_content_is_empty()
    ensures
        no_content().status == 204,
        no_content().headers.len() == 0,
        no_content().body is Empty,
{
}

} // verus!
