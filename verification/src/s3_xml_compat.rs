//! S3-compatible XML types for multipart upload API.
//!
//! Only the fields needed for our implementation are included.
//!
//! S3 XML error response format:
//! <https://docs.aws.amazon.com/AmazonS3/latest/API/ErrorResponses.html>

use crate::headers;
use crate::response;
use crate::response::Body;
use crate::response::BodyView;
use crate::response::Response;
use crate::response::ResponseView;
use crate::text;
use vstd::prelude::*;
use vstd::string::*;
use vstd::utf8::*;

verus! {

// == S3 error responses

/// Predefined S3 error variants used by the HTTP handlers.
#[derive(Debug)]
pub enum S3ErrorKind<'a> {
    /// The requested object key does not exist.
    NoSuchKey,
    /// The requested multipart upload does not exist.
    NoSuchUpload,
    /// The request preconditions did not hold.
    PreconditionFailed,
    /// The requested byte range is not satisfiable.
    InvalidRange,
    /// The request arguments were invalid.
    InvalidArgument(&'a str),
    /// One or more referenced multipart parts were invalid.
    InvalidPart,
    /// The supplied XML body was malformed.
    MalformedXml,
    /// An unexpected internal error occurred.
    Internal,
}

impl<'a> S3ErrorKind<'a> {
    /// The status of the response to this error.
    pub open spec fn status(self) -> u16 {
        match self {
            S3ErrorKind::NoSuchKey => 404,
            S3ErrorKind::NoSuchUpload => 404,
            S3ErrorKind::PreconditionFailed => 412,
            S3ErrorKind::InvalidRange => 416,
            S3ErrorKind::InvalidArgument(_) => 400,
            S3ErrorKind::InvalidPart => 400,
            S3ErrorKind::MalformedXml => 400,
            S3ErrorKind::Internal => 500,
        }
    }

    /// The code by which clients tell errors apart.
    pub open spec fn code_text(self) -> Seq<char> {
        match self {
            S3ErrorKind::NoSuchKey => "NoSuchKey"@,
            S3ErrorKind::NoSuchUpload => "NoSuchUpload"@,
            S3ErrorKind::PreconditionFailed => "PreconditionFailed"@,
            S3ErrorKind::InvalidRange => "InvalidRange"@,
            S3ErrorKind::InvalidArgument(_) => "InvalidArgument"@,
            S3ErrorKind::InvalidPart => "InvalidPart"@,
            S3ErrorKind::MalformedXml => "MalformedXML"@,
            S3ErrorKind::Internal => "InternalError"@,
        }
    }

    /// The explanation for human readers.
    pub open spec fn message_text(self) -> Seq<char> {
        match self {
            S3ErrorKind::NoSuchKey => "The specified key does not exist."@,
            S3ErrorKind::NoSuchUpload => "The specified upload does not exist. The upload ID may be invalid, or the upload may have been aborted or completed."@,
            S3ErrorKind::PreconditionFailed => "At least one of the pre-conditions you specified did not hold."@,
            S3ErrorKind::InvalidRange => "The requested range is not satisfiable."@,
            S3ErrorKind::InvalidArgument(message) => message@,
            S3ErrorKind::InvalidPart => "One or more of the specified parts could not be found. The part may not have been uploaded, or the specified entity tag may not match the part's entity tag."@,
            S3ErrorKind::MalformedXml => "The XML you provided was not well-formed or did not validate against our schema."@,
            S3ErrorKind::Internal => "We encountered an internal error. Please try again."@,
        }
    }

    /// The status of the response to this error.
    pub fn status_code(&self) -> (r: u16)
        ensures
            r == self.status(),
    {
        match self {
            S3ErrorKind::NoSuchKey | S3ErrorKind::NoSuchUpload => 404,
            S3ErrorKind::PreconditionFailed => 412,
            S3ErrorKind::InvalidRange => 416,
            S3ErrorKind::InvalidArgument(_)
            | S3ErrorKind::InvalidPart
            | S3ErrorKind::MalformedXml => 400,
            S3ErrorKind::Internal => 500,
        }
    }

    /// The code by which clients tell errors apart.
    pub fn code(&self) -> (r: &'static str)
        ensures
            r@ == self.code_text(),
    {
        match self {
            S3ErrorKind::NoSuchKey => "NoSuchKey",
            S3ErrorKind::NoSuchUpload => "NoSuchUpload",
            S3ErrorKind::PreconditionFailed => "PreconditionFailed",
            S3ErrorKind::InvalidRange => "InvalidRange",
            S3ErrorKind::InvalidArgument(_) => "InvalidArgument",
            S3ErrorKind::InvalidPart => "InvalidPart",
            S3ErrorKind::MalformedXml => "MalformedXML",
            S3ErrorKind::Internal => "InternalError",
        }
    }

    /// The explanation for human readers.
    pub fn message(&self) -> (r: &str)
        ensures
            r@ == self.message_text(),
    {
        match self {
            S3ErrorKind::NoSuchKey => "The specified key does not exist.",
            S3ErrorKind::NoSuchUpload => "The specified upload does not exist. The upload ID may be invalid, or the upload may have been aborted or completed.",
            S3ErrorKind::PreconditionFailed => "At least one of the pre-conditions you specified did not hold.",
            S3ErrorKind::InvalidRange => "The requested range is not satisfiable.",
            S3ErrorKind::InvalidArgument(message) => message,
            S3ErrorKind::InvalidPart => "One or more of the specified parts could not be found. The part may not have been uploaded, or the specified entity tag may not match the part's entity tag.",
            S3ErrorKind::MalformedXml => "The XML you provided was not well-formed or did not validate against our schema.",
            S3ErrorKind::Internal => "We encountered an internal error. Please try again.",
        }
    }
}

/// The line with which an XML document begins.
pub const XML_DECLARATION: &'static str = "<?xml version=\"1.0\" encoding=\"UTF-8\"?>";

/// The XML document that describes an error.
pub open spec fn error_xml<'a>(kind: S3ErrorKind<'a>) -> Seq<char> {
    XML_DECLARATION@ + "<Error><Code>"@ + kind.code_text() + "</Code><Message>"@
        + kind.message_text() + "</Message></Error>"@
}

/// The response with this status and this XML document.
pub open spec fn xml_response(status: u16, xml: Seq<u8>) -> ResponseView {
    ResponseView {
        status,
        headers: seq![response::header("content-type"@, "application/xml"@)],
        body: BodyView::Bytes(xml),
    }
}

/// The response to an error.
pub open spec fn error_response<'a>(kind: S3ErrorKind<'a>) -> ResponseView {
    xml_response(kind.status(), encode_utf8(error_xml(kind)))
}

/// The response with this status and this XML document.
pub fn respond_xml(status: u16, xml: Vec<u8>) -> (r: Response)
    ensures
        r@ == xml_response(status, xml@),
{
    proof {
        response::lemma_names_of_headers_sent();
        response::lemma_values_of_headers_sent();
    }
    let mut resp: Response = Response::new(status);
    resp.add_header("content-type", "application/xml");
    assert(resp@.headers =~= seq![response::header("content-type"@, "application/xml"@)]);
    resp.body = Body::Bytes(xml);
    resp
}

/// Build an S3-compatible XML error `Response`.
///
/// ```xml
/// <?xml version="1.0" encoding="UTF-8"?>
/// <Error><Code>NoSuchKey</Code><Message>...</Message></Error>
/// ```
pub fn s3_error(kind: S3ErrorKind<'_>) -> (r: Response)
    ensures
        r@ == error_response(kind),
{
    let mut xml: String = XML_DECLARATION.to_owned();
    xml.append("<Error><Code>");
    xml.append(kind.code());
    xml.append("</Code><Message>");
    xml.append(kind.message());
    xml.append("</Message></Error>");
    respond_xml(kind.status_code(), xml.as_str().as_bytes_vec())
}

// == CreateMultipartUpload response

/// Response body for the CreateMultipartUpload operation.
///
/// <https://docs.aws.amazon.com/AmazonS3/latest/API/API_CreateMultipartUpload.html>
#[derive(Debug)]
pub struct InitiateMultipartUploadResult {
    pub key: String,
    pub upload_id: String,
}

// == CompleteMultipartUpload request

/// Request body for the CompleteMultipartUpload operation.
///
/// <https://docs.aws.amazon.com/AmazonS3/latest/API/API_CompleteMultipartUpload.html>
#[derive(Debug)]
pub struct CompleteMultipartUpload {
    pub parts: Vec<CompletePart>,
}

/// A single part entry within a [`CompleteMultipartUpload`] request body.
///
/// <https://docs.aws.amazon.com/AmazonS3/latest/API/API_CompletedPart.html>
#[derive(Debug)]
pub struct CompletePart {
    pub part_number: u32,
    pub etag: String,
}

impl View for CompletePart {
    type V = (u32, Seq<char>);

    open spec fn view(&self) -> (u32, Seq<char>) {
        (self.part_number, self.etag@)
    }
}

// == CompleteMultipartUpload response

/// Response body for the CompleteMultipartUpload operation.
///
/// <https://docs.aws.amazon.com/AmazonS3/latest/API/API_CompleteMultipartUpload.html>
#[derive(Debug)]
pub struct CompleteMultipartUploadResult {
    pub key: String,
    pub etag: String,
}

// == XML documents

/// The XML document with the root element `element`.
pub open spec fn xml_document(element: Seq<char>) -> Seq<u8> {
    encode_utf8(XML_DECLARATION@) + encode_utf8(element)
}

/// The XML document with the root element `element`: an `<?xml ...?>`
/// declaration and the element.
pub fn to_xml_bytes(element: &str) -> (r: Vec<u8>)
    ensures
        r@ == xml_document(element@),
{
    let mut out: Vec<u8> = XML_DECLARATION.as_bytes_vec();
    out.extend_from_slice(element.as_bytes());
    assert(out@ =~= xml_document(element@));
    out
}

// ---------------------------------------------------------------------------
// Laws
// ---------------------------------------------------------------------------


/// The status of an error says whose fault it is: that of the client, which
/// asked for what is not there, set conditions that do not hold, or sent
/// something wrong, or that of the server.
pub proof fn law_status_of_an_error(kind: S3ErrorKind)
    ensures
        error_response(kind).status == 404 <==> kind is NoSuchKey || kind is NoSuchUpload,
        error_response(kind).status == 412 <==> kind is PreconditionFailed,
        error_response(kind).status == 416 <==> kind is InvalidRange,
        error_response(kind).status == 400 <==> kind is InvalidArgument || kind is InvalidPart
            || kind is MalformedXml,
        error_response(kind).status == 500 <==> kind is Internal,
{
}

/// An error is answered with an XML document that holds its code and its
/// message, and with the type of such a document.
pub proof fn law_error_document(kind: S3ErrorKind)
    ensures
        error_response(kind).headers == seq![
            ("content-type"@, encode_utf8("application/xml"@)),
        ],
        error_response(kind).body == BodyView::Bytes(
            encode_utf8(
                "<?xml version=\"1.0\" encoding=\"UTF-8\"?>"@ + "<Error><Code>"@ + kind.code_text()
                    + "</Code><Message>"@ + kind.message_text() + "</Message></Error>"@,
            ),
        ),
        kind matches S3ErrorKind::InvalidArgument(message) ==> kind.message_text() == message@,
{
}

/// The code of an error is its S3 name.
pub proof fn law_code_of_an_error(kind: S3ErrorKind)
    ensures
        kind.code_text() == match kind {
            S3ErrorKind::NoSuchKey => "NoSuchKey"@,
            S3ErrorKind::NoSuchUpload => "NoSuchUpload"@,
            S3ErrorKind::PreconditionFailed => "PreconditionFailed"@,
            S3ErrorKind::InvalidRange => "InvalidRange"@,
            S3ErrorKind::InvalidArgument(_) => "InvalidArgument"@,
            S3ErrorKind::InvalidPart => "InvalidPart"@,
            S3ErrorKind::MalformedXml => "MalformedXML"@,
            S3ErrorKind::Internal => "InternalError"@,
        },
{
}

/// A document is the declaration and then the element, which is sent whole with
/// the status that was asked for.
pub proof fn law_document_holds_the_element(status: u16, element: Seq<char>)
    ensures
        xml_document(element) == encode_utf8(
            "<?xml version=\"1.0\" encoding=\"UTF-8\"?>"@ + element,
        ),
        xml_response(status, xml_document(element)).status == status,
        xml_response(status, xml_document(element)).body == BodyView::Bytes(xml_document(element)),
{
    text::lemma_encode_concat("<?xml version=\"1.0\" encoding=\"UTF-8\"?>"@, element);
}

} // verus!
