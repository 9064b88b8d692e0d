//! PutObject and UploadPart.

use crate::consistency;
use crate::errors::Result;
use crate::etag;
use crate::etag::etag_from_digest_bytes;
use crate::etag::md5_hex_from_digest_bytes;
use crate::etag::Md5DigestBytes;
use crate::etag::Md5Stream;
use crate::fs_path;
use crate::fs_path::FsPath;
use crate::fs_path::DOT;
use crate::fs_path::SLASH;
use crate::headers;
use crate::headers::header_text_under;
use crate::ids;
use crate::ids::random_simple_id;
use crate::metadata_cache;
use crate::metadata_cache::clone_headers;
use crate::metadata_cache::extract_user_metadata_headers;
use crate::metadata_cache::ChecksumSet;
use crate::metadata_cache::HeaderEntry;
use crate::metadata_cache::ObjectMetadataCache;
use crate::multipart_state;
use crate::multipart_state::PartEntry;
use crate::multipart_state::PartView;
use crate::multipart_state::UploadTable;
use crate::multipart_state::UploadView;
use crate::multipart_state::MULTIPART_UPLOAD_DIR;
use crate::response;
use crate::response::BodyView;
use crate::response::Response;
use crate::response::ResponseView;
use crate::s3_xml_compat;
use crate::s3_xml_compat::s3_error;
use crate::s3_xml_compat::S3ErrorKind;
use crate::store;
use crate::store::EntryView;
use crate::store::FileEntry;
use crate::store::FileStore;
use crate::text;
use crate::text::bytes_eq;
use crate::text::chars_of;
use crate::text::decimal_string;
use crate::text::str_eq;
use crate::time::UnixTime;
use vstd::prelude::*;
use vstd::string::*;
use vstd::utf8::*;

verus! {

// ---------------------------------------------------------------------------
// Keys and paths
// ---------------------------------------------------------------------------

/// A path without the slashes in front of it.
pub open spec fn without_leading_slashes(p: Seq<u8>) -> Seq<u8>
    decreases p.len(),
{
    if p.len() > 0 && p[0] == SLASH {
        without_leading_slashes(p.drop_first())
    } else {
        p
    }
}

/// The name of the parent directory.
pub open spec fn parent_name() -> Seq<u8> {
    seq![DOT, DOT]
}

/// The relative path that a key stands for. There is none if the key is empty
/// but for slashes, if it begins with a single dot, or if one of its segments
/// is the name of the parent directory.
pub open spec fn safe_path(key: Seq<u8>) -> Option<Seq<u8>> {
    let p = without_leading_slashes(key);
    if p.len() == 0 || fs_path::segments(p)[0] == seq![DOT] || fs_path::segments(p).contains(
        parent_name(),
    ) {
        None
    } else {
        Some(p)
    }
}

/// The key under which the object that `key` names is known: the key without
/// the slashes in front of it. Nothing else is taken off a key.
pub open spec fn object_key(key: Seq<char>) -> Seq<char>
    decreases key.len(),
{
    if key.len() > 0 && key[0] == '/' {
        object_key(key.drop_first())
    } else {
        key
    }
}

/// The key under which the object that `key` names is known.
pub fn to_object_key(key: &str) -> (r: String)
    ensures
        r@ == object_key(key@),
{
    let chars: Vec<char> = chars_of(key);
    let n: usize = chars.len();
    let mut i: usize = 0;
    assert(chars@.skip(0) == chars@);
    while i < n && chars[i] == '/'
        invariant
            i <= n,
            n == chars@.len(),
            object_key(chars@.skip(i as int)) == object_key(chars@),
        decreases n - i,
    {
        assert(chars@.skip(i as int).drop_first() == chars@.skip(i + 1));
        i = i + 1;
    }
    assert(object_key(chars@) == chars@.skip(i as int));
    assert(chars@.skip(i as int) == key@.subrange(i as int, n as int));
    key.substring_char(i, n).to_owned()
}

/// Whether two keys name the same object.
pub fn is_same_object(a: &str, b: &str) -> (r: bool)
    ensures
        r == (object_key(a@) == object_key(b@)),
{
    str_eq(to_object_key(a).as_str(), to_object_key(b).as_str())
}

/// Validate a key string and return a path that is safe to join with the serve directory.
/// Returns `None` if the key contains path traversal components.
pub fn sanitize_key(key: &str) -> (r: Option<FsPath>)
    ensures
        match r {
            Some(p) => safe_path(encode_utf8(key@)) == Some(p@),
            None => safe_path(encode_utf8(key@)) is None,
        },
{
    let path = FsPath { bytes: to_object_key(key).as_str().as_bytes_vec() };
    let ghost p = path@;
    proof {
        lemma_object_key_encoded(key@);
    }
    if path.bytes.len() == 0 {
        return None;
    }
    let parts: Vec<Vec<u8>> = path.split();
    let ghost segs = fs_path::segments(p);
    proof {
        fs_path::lemma_segments_slash_free(p);
    }
    if parts[0].len() == 1 && parts[0][0] == DOT {
        assert(parts@[0]@ == seq![DOT]);
        return None;
    }
    assert(segs[0] != seq![DOT]) by {
        assert(parts@[0]@ == segs[0]);
        assert(seq![DOT].len() == 1 && seq![DOT][0] == DOT);
    }
    let m: usize = parts.len();
    let mut j: usize = 0;
    while j < m
        invariant
            j <= m,
            m == parts@.len(),
            m == segs.len(),
            segs == fs_path::segments(p),
            p == without_leading_slashes(encode_utf8(key@)),
            forall|x: int| 0 <= x < m ==> (#[trigger] parts@[x])@ == segs[x],
            forall|x: int| 0 <= x < j ==> #[trigger] segs[x] != parent_name(),
        decreases m - j,
    {
        let part: &Vec<u8> = &parts[j];
        if part.len() == 2 && part[0] == DOT && part[1] == DOT {
            assert(part@ == parent_name());
            assert(segs[j as int] == parent_name());
            return None;
        }
        assert(segs[j as int] != parent_name()) by {
            assert(parts@[j as int]@ == segs[j as int]);
            assert(parent_name().len() == 2 && parent_name()[0] == DOT && parent_name()[1] == DOT);
        }
        j = j + 1;
    }
    Some(path)
}

/// The path of the temporary file for the object at `target`.
pub open spec fn temp_file(target: Seq<u8>, token: Seq<char>) -> Seq<u8> {
    fs_path::with_extension(target, encode_utf8(token + ".fxv_tmp"@))
}

/// The path of the temporary file for the object at `target`: in the same
/// directory, so that it can take the place of the object at once.
pub fn temp_path(target: &FsPath, token: &str) -> (r: FsPath)
    ensures
        r@ == temp_file(target@, token@),
{
    let mut extension: String = token.to_owned();
    extension.append(".fxv_tmp");
    target.with_extension(extension.as_str())
}

// ---------------------------------------------------------------------------
// Requests
// ---------------------------------------------------------------------------

/// The query parameters of a PUT request.
#[derive(Debug)]
pub struct PutParams {
    pub part_number: Option<u32>,
    pub upload_id: Option<String>,
}

/// The operations behind PUT.
#[derive(Debug, Clone, Copy, PartialEq, Eq, Structural)]
pub enum PutRoute {
    PutObject,
    UploadPart,
}

/// PUT /{*key} - dispatches to PutObject or UploadPart based on query params.
pub fn put_dispatch(params: &PutParams) -> (r: PutRoute)
    ensures
        r is UploadPart <==> params.part_number is Some || params.upload_id is Some,
{
    if params.part_number.is_some() || params.upload_id.is_some() {
        PutRoute::UploadPart
    } else {
        PutRoute::PutObject
    }
}

// ---------------------------------------------------------------------------
// Request bodies
// ---------------------------------------------------------------------------

/// The size and the checksum of a request body, computed while it is written
/// to disk.
///
/// Its view is the part of the body that has arrived so far.
pub struct BodyDigest {
    stream: Md5Stream,
    total: u64,
}

/// A request body that has been written to disk.
#[derive(Debug, Clone, Copy)]
pub struct WrittenBody {
    /// The number of bytes.
    pub size: u64,
    /// The MD5 checksum.
    pub digest: Md5DigestBytes,
    /// The modification time of the file.
    pub modified: UnixTime,
}

impl WrittenBody {
    /// The entity tag of the body.
    pub open spec fn tag(self) -> Seq<char> {
        etag::quoted(etag::hex(self.digest@))
    }

    /// Whether this describes a body that consists of `data`.
    pub open spec fn describes(self, data: Seq<u8>) -> bool {
        self.size == data.len() && self.digest@ == etag::md5_of(data)
    }
}

impl View for BodyDigest {
    type V = Seq<u8>;

    closed spec fn view(&self) -> Seq<u8> {
        self.stream@
    }
}

impl BodyDigest {
    /// Whether size and checksum are those of the view.
    pub closed spec fn wf(&self) -> bool {
        self.stream.wf() && self.total == self.stream@.len()
    }

    /// An empty body.
    pub fn new() -> (r: BodyDigest)
        ensures
            r.wf(),
            r@ == Seq::<u8>::empty(),
    {
        BodyDigest { stream: Md5Stream::new(), total: 0 }
    }

    /// The number of bytes that have arrived so far.
    pub fn size(&self) -> (r: u64)
        requires
            self.wf(),
        ensures
            r == self@.len(),
    {
        self.total
    }

    /// Takes in the next piece of the body.
    pub fn update(&mut self, chunk: &[u8])
        requires
            old(self).wf(),
            old(self)@.len() + chunk@.len() <= u64::MAX,
        ensures
            final(self).wf(),
            final(self)@ == old(self)@ + chunk@,
    {
        self.stream.update(chunk);
        self.total = self.total + chunk.len() as u64;
    }

    /// The description of the body, in a file modified at `modified`.
    pub fn finish(self, modified: UnixTime) -> (r: WrittenBody)
        requires
            self.wf(),
        ensures
            r.describes(self@),
            r.modified == modified,
            r.tag() == etag::etag_of(self@),
    {
        WrittenBody { size: self.total, digest: self.stream.finish(), modified }
    }
}

/// The outcome of writing a body to disk, from the outcomes of writing and of
/// receiving it. An error of the writer comes first, because it is the reason
/// for receiving to stop.
pub fn write_body_to_temp(writer: Result<BodyDigest>, received: Result<()>) -> (r: Result<
    BodyDigest,
>)
    ensures
        match (writer, received) {
            (Err(e), _) => r == Err::<BodyDigest, _>(e),
            (Ok(_), Err(e)) => r == Err::<BodyDigest, _>(e),
            (Ok(body), Ok(_)) => r == Ok::<_, crate::errors::Error>(body),
        },
{
    match writer {
        Err(e) => Err(e),
        Ok(body) => match received {
            Err(e) => Err(e),
            Ok(_) => Ok(body),
        },
    }
}

// ---------------------------------------------------------------------------
// PutObject
// ---------------------------------------------------------------------------

/// Whether the conditional headers of a PutObject request forbid to write the
/// object: `If-None-Match: *` forbids to replace one, and `If-Match` demands
/// one, with the given tag unless that is `*`.
pub open spec fn put_refused(
    existing: Option<EntryView>,
    if_match: Option<Seq<char>>,
    if_none_match: Option<Seq<char>>,
) -> bool {
    match existing {
        Some(entry) => {
            ||| if_none_match == Some("*"@)
            ||| if_match matches Some(tag) && tag != entry.etag && tag != "*"@
        },
        None => if_match is Some,
    }
}

fn refuses_put(
    store: &FileStore,
    key: &str,
    if_match: &Option<String>,
    if_none_match: &Option<String>,
) -> (r: bool)
    ensures
        r == put_refused(
            store::lookup(store@, key@),
            metadata_cache::opt_text(*if_match),
            metadata_cache::opt_text(*if_none_match),
        ),
{
    match store.get(key) {
        Some(entry) => {
            if let Some(tag) = if_none_match {
                if str_eq(tag.as_str(), "*") {
                    return true;
                }
            }
            match if_match {
                Some(tag) => !str_eq(tag.as_str(), entry.etag.as_str()) && !str_eq(
                    tag.as_str(),
                    "*",
                ),
                None => false,
            }
        },
        None => if_match.is_some(),
    }
}

/// An object that is about to be written.
#[derive(Debug)]
pub struct PutJob {
    /// The key under which the object is known.
    pub object_key: String,
    /// The path of the object below the serve directory.
    pub rel_path: FsPath,
    /// The path of the object.
    pub abs_path: FsPath,
    /// The path of the file that the body goes to first.
    pub tmp_path: FsPath,
    pub custom_headers: Vec<HeaderEntry>,
    pub if_match: Option<String>,
    pub if_none_match: Option<String>,
}

/// What a [`PutJob`] says.
pub struct PutJobView {
    pub object_key: Seq<char>,
    pub rel_path: Seq<u8>,
    pub abs_path: Seq<u8>,
    pub tmp_path: Seq<u8>,
    pub custom_headers: Seq<(Seq<char>, Seq<char>)>,
    pub if_match: Option<Seq<char>>,
    pub if_none_match: Option<Seq<char>>,
}

impl View for PutJob {
    type V = PutJobView;

    open spec fn view(&self) -> PutJobView {
        PutJobView {
            object_key: self.object_key@,
            rel_path: self.rel_path@,
            abs_path: self.abs_path@,
            tmp_path: self.tmp_path@,
            custom_headers: metadata_cache::header_list(self.custom_headers@),
            if_match: metadata_cache::opt_text(self.if_match),
            if_none_match: metadata_cache::opt_text(self.if_none_match),
        }
    }
}

/// How a PutObject request begins.
#[derive(Debug)]
pub enum PutStart {
    /// It is answered at once.
    Refuse(Response),
    /// Its body is written to the temporary file.
    Write(PutJob),
}

/// What a [`PutStart`] says.
pub enum PutStartView {
    Refuse(ResponseView),
    Write(PutJobView),
}

impl View for PutStart {
    type V = PutStartView;

    open spec fn view(&self) -> PutStartView {
        match self {
            PutStart::Refuse(resp) => PutStartView::Refuse(resp@),
            PutStart::Write(job) => PutStartView::Write(job@),
        }
    }
}

/// The answer to a key that stands for no path.
pub open spec fn invalid_key() -> ResponseView {
    s3_xml_compat::error_response(
        S3ErrorKind::InvalidArgument("The specified object key is invalid."),
    )
}

/// How a PutObject request for `key` with the given headers begins. The
/// temporary file gets its name from `token`.
pub open spec fn planned_put(
    objects: Map<Seq<char>, EntryView>,
    root: Seq<u8>,
    key: Seq<char>,
    request: Seq<(Seq<char>, Seq<u8>)>,
    token: Seq<char>,
) -> PutStartView {
    let if_match = headers::text_under(request, "if-match"@);
    let if_none_match = headers::text_under(request, "if-none-match"@);
    match safe_path(encode_utf8(key)) {
        None => PutStartView::Refuse(invalid_key()),
        Some(rel) => if put_refused(
            store::lookup(objects, object_key(key)),
            if_match,
            if_none_match,
        ) {
            PutStartView::Refuse(s3_xml_compat::error_response(S3ErrorKind::PreconditionFailed))
        } else {
            let target = fs_path::joined(root, rel);
            PutStartView::Write(
                PutJobView {
                    object_key: object_key(key),
                    rel_path: rel,
                    abs_path: target,
                    tmp_path: temp_file(target, token),
                    custom_headers: metadata_cache::user_metadata(request),
                    if_match,
                    if_none_match,
                },
            )
        },
    }
}

/// Plans a PutObject request whose temporary file gets its name from `token`.
pub fn plan_put(
    store: &FileStore,
    key: &str,
    headers: &http::HeaderMap<http::HeaderValue>,
    token: &str,
) -> (r: PutStart)
    ensures
        r@ == planned_put(
            store@,
            store.root(),
            key@,
            headers::header_entries(*headers),
            token@,
        ),
{
    let rel_path: FsPath = match sanitize_key(key) {
        Some(p) => p,
        None => return PutStart::Refuse(
            s3_error(S3ErrorKind::InvalidArgument("The specified object key is invalid.")),
        ),
    };
    proof {
        headers::lemma_names_of_headers_read();
    }
    let if_match: Option<String> = header_text_under(headers, "if-match");
    let if_none_match: Option<String> = header_text_under(headers, "if-none-match");
    let object_key: String = to_object_key(key);
    if refuses_put(store, object_key.as_str(), &if_match, &if_none_match) {
        return PutStart::Refuse(s3_error(S3ErrorKind::PreconditionFailed));
    }
    let abs_path: FsPath = store.serve_dir().join(&rel_path);
    let tmp_path: FsPath = temp_path(&abs_path, token);
    PutStart::Write(
        PutJob {
            object_key,
            rel_path,
            abs_path,
            tmp_path,
            custom_headers: extract_user_metadata_headers(headers),
            if_match,
            if_none_match,
        },
    )
}

/// PutObject - write a single file atomically.
///
/// Begins the request, with a temporary file of a random name.
pub fn put_object(
    store: &FileStore,
    key: &str,
    headers: &http::HeaderMap<http::HeaderValue>,
) -> (r: PutStart)
    ensures
        exists|token: Seq<char>|
            ids::is_simple_id(token) && r@ == #[trigger] planned_put(
                store@,
                store.root(),
                key@,
                headers::header_entries(*headers),
                token,
            ),
{
    let token: String = random_simple_id();
    plan_put(store, key, headers, token.as_str())
}

/// What becomes of a temporary file.
#[derive(Debug)]
pub enum Written {
    /// It is removed, and the request is answered.
    Discard(Response),
    /// It takes the place of the object.
    Rename,
}

/// The answer to a PutObject request whose body has been written, or has
/// failed to be written, if the object is not to be replaced. The conditional
/// headers are checked again, because the object may have changed meanwhile.
pub open spec fn put_objection(
    objects: Map<Seq<char>, EntryView>,
    job: PutJobView,
    written: bool,
) -> Option<ResponseView> {
    if !written {
        Some(s3_xml_compat::error_response(S3ErrorKind::Internal))
    } else if put_refused(
        store::lookup(objects, job.object_key),
        job.if_match,
        job.if_none_match,
    ) {
        Some(s3_xml_compat::error_response(S3ErrorKind::PreconditionFailed))
    } else {
        None
    }
}

/// Decides about the temporary file once the body has been written, or has
/// failed to be written.
pub fn put_written(store: &FileStore, job: &PutJob, written: bool) -> (r: Written)
    ensures
        match r {
            Written::Discard(resp) => put_objection(store@, job@, written) == Some(resp@),
            Written::Rename => put_objection(store@, job@, written) is None,
        },
{
    if !written {
        return Written::Discard(s3_error(S3ErrorKind::Internal));
    }
    if refuses_put(store, job.object_key.as_str(), &job.if_match, &job.if_none_match) {
        return Written::Discard(s3_error(S3ErrorKind::PreconditionFailed));
    }
    Written::Rename
}

/// The entry for an object that has been written.
pub open spec fn put_entry(job: PutJobView, body: WrittenBody) -> EntryView {
    EntryView {
        abs_path: job.abs_path,
        size: body.size,
        modified: body.modified,
        etag: body.tag(),
        checksums: metadata_cache::md5_only(etag::hex(body.digest@)),
        custom_headers: job.custom_headers,
    }
}

/// The metadata to cache for an object that has been written.
pub fn put_metadata(job: &PutJob, body: &WrittenBody) -> (r: ObjectMetadataCache)
    ensures
        r@ == store::entry_metadata(put_entry(job@, *body)),
{
    ObjectMetadataCache::from_current_state(
        body.modified,
        etag_from_digest_bytes(&body.digest),
        ChecksumSet::of_md5(md5_hex_from_digest_bytes(&body.digest)),
        clone_headers(&job.custom_headers),
    )
}

/// The response to a request that has stored something under the tag `tag`.
pub open spec fn stored_response(tag: Seq<char>) -> ResponseView {
    ResponseView {
        status: 200,
        headers: seq![response::header("etag"@, tag)],
        body: BodyView::Empty,
    }
}

fn respond_stored(digest: &Md5DigestBytes) -> (r: Response)
    ensures
        r@ == stored_response(etag::quoted(etag::hex(digest@))),
{
    let tag: String = etag_from_digest_bytes(digest);
    proof {
        response::lemma_names_of_headers_sent();
        etag::lemma_tags_are_header_values(digest@, Seq::empty());
    }
    let mut resp: Response = Response::new(200);
    resp.add_header("etag", tag.as_str());
    assert(resp@.headers =~= seq![response::header("etag"@, tag@)]);
    resp
}

/// Ends a PutObject request once the temporary file has taken the place of the
/// object, or has failed to do so. The index is as [`put_written`] found it when
/// it agreed to the renaming: the caller lets nobody change it in between.
pub fn put_renamed(store: &mut FileStore, job: PutJob, body: WrittenBody, renamed: bool) -> (r:
    Response)
    requires
        put_objection(old(store)@, job@, true) is None,
    ensures
        final(store).root() == old(store).root(),
        final(store)@ == if renamed {
            old(store)@.insert(job@.object_key, put_entry(job@, body))
        } else {
            old(store)@
        },
        renamed ==> final(store)@ == consistency::after_put(old(store)@, job@, body),
        r@ == if renamed {
            stored_response(body.tag())
        } else {
            s3_xml_compat::error_response(S3ErrorKind::Internal)
        },
{
    if !renamed {
        return s3_error(S3ErrorKind::Internal);
    }
    let entry = FileEntry {
        abs_path: job.abs_path,
        size: body.size,
        modified: body.modified,
        etag: etag_from_digest_bytes(&body.digest),
        checksums: ChecksumSet::of_md5(md5_hex_from_digest_bytes(&body.digest)),
        custom_headers: job.custom_headers,
    };
    store.upsert(job.object_key, entry);
    respond_stored(&body.digest)
}

// ---------------------------------------------------------------------------
// UploadPart
// ---------------------------------------------------------------------------

/// The name of a file for the part `number` of the upload `id`. Every time that
/// the part is uploaded it gets a file of its own, told apart by `token`.
pub open spec fn part_file_name(id: Seq<char>, number: u32, token: Seq<char>) -> Seq<char> {
    "part-"@ + id + "-"@ + text::decimal(number as nat) + "-"@ + token + ".fxv_tmp"@
}

/// The path of a file for the part `number` of the upload `id`.
pub open spec fn part_file(
    root: Seq<u8>,
    id: Seq<char>,
    number: u32,
    token: Seq<char>,
) -> Seq<u8> {
    fs_path::joined(
        fs_path::joined(root, encode_utf8(MULTIPART_UPLOAD_DIR@)),
        encode_utf8(part_file_name(id, number, token)),
    )
}

fn part_path(serve_dir: &FsPath, id: &str, number: u32, token: &str) -> (r: FsPath)
    ensures
        r@ == part_file(serve_dir@, id@, number, token@),
{
    let mut name: String = "part-".to_owned();
    name.append(id);
    name.append("-");
    name.append(decimal_string(number as u64).as_str());
    name.append("-");
    name.append(token);
    name.append(".fxv_tmp");
    let dir: FsPath = serve_dir.join(&FsPath::from_text(MULTIPART_UPLOAD_DIR));
    dir.join(&FsPath::from_text(name.as_str()))
}

/// A part that is about to be written.
#[derive(Debug)]
pub struct PartJob {
    pub upload_id: String,
    pub number: u32,
    /// The path of the file that the part goes to.
    pub tmp_path: FsPath,
}

/// What a [`PartJob`] says.
pub struct PartJobView {
    pub upload_id: Seq<char>,
    pub number: u32,
    pub tmp_path: Seq<u8>,
}

impl View for PartJob {
    type V = PartJobView;

    open spec fn view(&self) -> PartJobView {
        PartJobView {
            upload_id: self.upload_id@,
            number: self.number,
            tmp_path: self.tmp_path@,
        }
    }
}

/// How an UploadPart request begins.
#[derive(Debug)]
pub enum PartStart {
    /// It is answered at once.
    Refuse(Response),
    /// Its body is written to the file for the part.
    Write(PartJob),
}

/// What a [`PartStart`] says.
pub enum PartStartView {
    Refuse(ResponseView),
    Write(PartJobView),
}

impl View for PartStart {
    type V = PartStartView;

    open spec fn view(&self) -> PartStartView {
        match self {
            PartStart::Refuse(resp) => PartStartView::Refuse(resp@),
            PartStart::Write(job) => PartStartView::Write(job@),
        }
    }
}

/// The answer to a request that names an upload of another key.
pub open spec fn foreign_upload() -> ResponseView {
    s3_xml_compat::error_response(
        S3ErrorKind::InvalidArgument("The upload ID is not associated with this key."),
    )
}

/// How an UploadPart request begins: the part number is checked first, then
/// that there is an upload identifier, that the upload exists, and that it is
/// one of `key`. The file for the part gets its name from `token`.
pub open spec fn planned_part(
    uploads: Map<Seq<char>, UploadView>,
    root: Seq<u8>,
    key: Seq<char>,
    part_number: Option<u32>,
    upload_id: Option<Seq<char>>,
    token: Seq<char>,
) -> PartStartView {
    match (part_number, upload_id) {
        (Some(number), Some(id)) if 1 <= number <= 10000 => if !uploads.contains_key(id) {
            PartStartView::Refuse(s3_xml_compat::error_response(S3ErrorKind::NoSuchUpload))
        } else if object_key(uploads[id].key) != object_key(key) {
            PartStartView::Refuse(foreign_upload())
        } else {
            PartStartView::Write(
                PartJobView {
                    upload_id: id,
                    number,
                    tmp_path: part_file(root, id, number, token),
                },
            )
        },
        (Some(number), None) if 1 <= number <= 10000 => PartStartView::Refuse(
            s3_xml_compat::error_response(
                S3ErrorKind::InvalidArgument("A valid uploadId must be provided."),
            ),
        ),
        _ => PartStartView::Refuse(
            s3_xml_compat::error_response(
                S3ErrorKind::InvalidArgument("Part number must be between 1 and 10000."),
            ),
        ),
    }
}

/// Plans an UploadPart request whose file gets its name from `token`.
pub fn plan_part(
    uploads: &UploadTable,
    serve_dir: &FsPath,
    key: &str,
    params: PutParams,
    token: &str,
) -> (r: PartStart)
    requires
        uploads.wf(),
    ensures
        r@ == planned_part(
            uploads@,
            serve_dir@,
            key@,
            params.part_number,
            metadata_cache::opt_text(params.upload_id),
            token@,
        ),
{
    let number: u32 = match params.part_number {
        Some(n) if 1 <= n && n <= 10000 => n,
        _ => return PartStart::Refuse(
            s3_error(S3ErrorKind::InvalidArgument("Part number must be between 1 and 10000.")),
        ),
    };
    let upload_id: String = match params.upload_id {
        Some(id) => id,
        None => return PartStart::Refuse(
            s3_error(S3ErrorKind::InvalidArgument("A valid uploadId must be provided.")),
        ),
    };
    match uploads.get(upload_id.as_str()) {
        Some(entry) => if !is_same_object(entry.key.as_str(), key) {
            return PartStart::Refuse(
                s3_error(
                    S3ErrorKind::InvalidArgument("The upload ID is not associated with this key."),
                ),
            );
        },
        None => return PartStart::Refuse(s3_error(S3ErrorKind::NoSuchUpload)),
    }
    let tmp_path: FsPath = part_path(serve_dir, upload_id.as_str(), number, token);
    PartStart::Write(PartJob { upload_id, number, tmp_path })
}

/// UploadPart - store a single part for a multipart upload.
///
/// Begins the request, with a file of a random name.
pub fn upload_part(
    uploads: &UploadTable,
    serve_dir: &FsPath,
    key: &str,
    params: PutParams,
) -> (r: PartStart)
    requires
        uploads.wf(),
    ensures
        exists|token: Seq<char>|
            ids::is_simple_id(token) && r@ == #[trigger] planned_part(
                uploads@,
                serve_dir@,
                key@,
                params.part_number,
                metadata_cache::opt_text(params.upload_id),
                token,
            ),
        r@ matches PartStartView::Write(job) ==> is_file_for_part(
            job.tmp_path,
            serve_dir@,
            job.upload_id,
            job.number,
        ),
{
    let token: String = random_simple_id();
    plan_part(uploads, serve_dir, key, params, token.as_str())
}

/// The end of an UploadPart request.
#[derive(Debug)]
pub struct PartOutcome {
    pub response: Response,
    /// A file to remove.
    pub stale: Option<FsPath>,
}

/// The state of a part that has been written.
pub open spec fn part_entry(job: PartJobView, body: WrittenBody) -> PartView {
    PartView {
        abs_path: job.tmp_path,
        size: body.size,
        etag: body.tag(),
        md5_bytes: body.digest,
    }
}

/// The uploads after an UploadPart request has ended: a part that has been
/// written is recorded.
pub open spec fn uploads_after_part(
    uploads: Map<Seq<char>, UploadView>,
    job: PartJobView,
    body: Option<WrittenBody>,
) -> Map<Seq<char>, UploadView> {
    match body {
        Some(b) => multipart_state::with_part(
            uploads,
            job.upload_id,
            job.number,
            part_entry(job, b),
        ),
        None => uploads,
    }
}

/// The path of the part that is recorded under the number of `job`.
pub open spec fn recorded_file(
    uploads: Map<Seq<char>, UploadView>,
    job: PartJobView,
) -> Option<Seq<u8>> {
    if multipart_state::has_part(uploads, job.upload_id, job.number) {
        Some(uploads[job.upload_id].parts[job.number].abs_path)
    } else {
        None
    }
}

/// The file to remove at the end of an UploadPart request: that of the part
/// that has been replaced, or that of a part that could not be written. A file
/// that holds the recorded part is never removed.
pub open spec fn stale_file(
    uploads: Map<Seq<char>, UploadView>,
    job: PartJobView,
    written: bool,
) -> Option<Seq<u8>> {
    if recorded_file(uploads, job) == Some(job.tmp_path) {
        None
    } else if written {
        recorded_file(uploads, job)
    } else {
        Some(job.tmp_path)
    }
}

/// An optional path by its bytes.
pub open spec fn opt_path(path: Option<FsPath>) -> Option<Seq<u8>> {
    match path {
        Some(p) => Some(p@),
        None => None,
    }
}

/// Ends an UploadPart request once the part has been written, or has failed to
/// be written. A part that was written is recorded in its upload, if that still
/// exists, in place of the part that had its number before.
pub fn part_written(uploads: &mut UploadTable, job: PartJob, body: Option<WrittenBody>) -> (r:
    PartOutcome)
    requires
        old(uploads).wf(),
    ensures
        final(uploads).wf(),
        final(uploads)@ == uploads_after_part(old(uploads)@, job@, body),
        opt_path(r.stale) == stale_file(old(uploads)@, job@, body is Some),
        r.response@ == match body {
            Some(b) => stored_response(b.tag()),
            None => s3_xml_compat::error_response(S3ErrorKind::Internal),
        },
{
    match body {
        Some(b) => {
            let path: FsPath = job.tmp_path.clone();
            let part = PartEntry {
                abs_path: job.tmp_path,
                size: b.size,
                etag: etag_from_digest_bytes(&b.digest),
                md5_bytes: b.digest,
            };
            let replaced: Option<FsPath> = uploads.set_part(
                job.upload_id.as_str(),
                job.number,
                part,
            );
            let stale: Option<FsPath> = match replaced {
                Some(p) => if bytes_eq(p.bytes.as_slice(), path.bytes.as_slice()) {
                    None
                } else {
                    Some(p)
                },
                None => None,
            };
            PartOutcome { response: respond_stored(&b.digest), stale }
        },
        None => {
            let kept: bool = match uploads.part_path(job.upload_id.as_str(), job.number) {
                Some(p) => bytes_eq(p.bytes.as_slice(), job.tmp_path.bytes.as_slice()),
                None => false,
            };
            let stale: Option<FsPath> = if kept { None } else { Some(job.tmp_path) };
            PartOutcome { response: s3_error(S3ErrorKind::Internal), stale }
        },
    }
}

// ---------------------------------------------------------------------------
// Laws
// ---------------------------------------------------------------------------

proof fn lemma_without_leading_slashes(p: Seq<u8>)
    ensures
        ({
            let q = without_leading_slashes(p);
            &&& q.len() == 0 || q[0] != SLASH
            &&& fs_path::names(q) == fs_path::names(p)
        }),
    decreases p.len(),
{
    if p.len() > 0 && p[0] == SLASH {
        let tail = p.drop_first();
        let none = Seq::<u8>::empty();
        lemma_without_leading_slashes(tail);
        assert(none.push(SLASH) + tail == p);
        fs_path::lemma_names_behind_slash(tail);
    }
}

/// The path for a key consists of names only, none of which leads to the parent
/// directory. Below the serve directory it therefore stays there.
pub proof fn law_object_lies_below_the_serve_dir(root: Seq<u8>, key: Seq<u8>)
    ensures
        safe_path(key) matches Some(p) ==> {
            &&& p.len() > 0 && p[0] != SLASH
            &&& fs_path::components(p) == fs_path::names(p)
            &&& fs_path::names(p).len() > 0
            &&& forall|i: int|
                0 <= i < fs_path::names(p).len() ==> #[trigger] fs_path::names(p)[i]
                    != parent_name()
            &&& fs_path::names(fs_path::joined(root, p)) == fs_path::names(root)
                + fs_path::names(p)
            &&& fs_path::has_file_name(fs_path::joined(root, p))
            &&& fs_path::has_file_name(metadata_cache::cached_object(root, p))
        },
{
    if let Some(p) = safe_path(key) {
        lemma_without_leading_slashes(key);
        fs_path::lemma_first_segment(p);
        fs_path::lemma_names_are_segments(p);
        fs_path::lemma_first_name(p);
        fs_path::lemma_names_of_joined(root, p);
        let cache = fs_path::joined(root, encode_utf8(metadata_cache::METADATA_CACHE_DIR@));
        fs_path::lemma_names_of_joined(cache, p);
        let names = fs_path::names(p);
        assert(names.last() == names[names.len() - 1]);
        assert((fs_path::names(root) + names).last() == names.last());
        assert((fs_path::names(cache) + names).last() == names.last());
    }
}

/// Slashes in front of a key make no difference to its path nor to the object
/// that it names.
pub proof fn law_leading_slashes_do_not_matter(key: Seq<char>)
    ensures
        safe_path(encode_utf8("/"@ + key)) == safe_path(encode_utf8(key)),
        object_key("/"@ + key) == object_key(key),
{
    reveal_strlit("/");
    assert("/"@ =~= seq!['/']);
    text::lemma_encode_concat("/"@, key);
    text::lemma_encode_char('/');
    let p = encode_utf8("/"@ + key);
    assert(p[0] == SLASH);
    assert(p.drop_first() =~= encode_utf8(key));
    assert(("/"@ + key).drop_first() =~= key);
}

/// The path of a key is that of the key under which its object is known.
pub proof fn lemma_object_key_encoded(key: Seq<char>)
    ensures
        without_leading_slashes(encode_utf8(key)) == encode_utf8(object_key(key)),
    decreases key.len(),
{
    if key.len() > 0 {
        let first = key[0];
        let rest = key.drop_first();
        assert(key =~= seq![first] + rest);
        text::lemma_encode_concat(seq![first], rest);
        text::lemma_encode_char(first);
        let p = encode_utf8(key);
        if first == '/' {
            lemma_object_key_encoded(rest);
            assert(p.drop_first() =~= encode_utf8(rest));
        } else {
            fs_path::lemma_encoding_slash_free(first);
            char_is_scalar(first);
            assert(encode_utf8(seq![first]).len() > 0);
            assert(p[0] == encode_utf8(seq![first])[0]);
        }
    }
}

/// The key under which an object is known is known under itself, and spells the
/// path of the key that was given. Where all of its parts are names, it is the
/// key of that path.
pub proof fn law_object_key_is_a_normal_form(key: Seq<char>)
    ensures
        object_key(object_key(key)) == object_key(key),
        safe_path(encode_utf8(object_key(key))) == safe_path(encode_utf8(key)),
        safe_path(encode_utf8(key)) matches Some(p) ==> p == encode_utf8(object_key(key)) && (
        fs_path::is_plain_key(object_key(key)) ==> fs_path::path_key(p) == object_key(key)),
    decreases key.len(),
{
    let normal = object_key(key);
    lemma_object_key_encoded(key);
    lemma_object_key_encoded(normal);
    if key.len() > 0 && key[0] == '/' {
        law_object_key_is_a_normal_form(key.drop_first());
    }
    if fs_path::is_plain_key(normal) {
        fs_path::law_plain_key_is_the_key_of_its_path(normal);
    }
}

/// Keys of one object stand for one file. Of keys whose parts are all names, the
/// reverse is true as well: those that stand for one file name one object.
pub proof fn law_one_object_for_one_file(root: Seq<u8>, a: Seq<char>, b: Seq<char>)
    requires
        safe_path(encode_utf8(a)) is Some,
        safe_path(encode_utf8(b)) is Some,
    ensures
        ({
            let file_a = fs_path::names(fs_path::joined(root, safe_path(encode_utf8(a))->0));
            let file_b = fs_path::names(fs_path::joined(root, safe_path(encode_utf8(b))->0));
            &&& object_key(a) == object_key(b) ==> file_a == file_b
            &&& fs_path::is_plain_key(object_key(a)) && fs_path::is_plain_key(object_key(b))
                && file_a == file_b ==> object_key(a) == object_key(b)
        }),
{
    let p = safe_path(encode_utf8(a))->0;
    let q = safe_path(encode_utf8(b))->0;
    law_object_key_is_a_normal_form(a);
    law_object_key_is_a_normal_form(b);
    law_object_lies_below_the_serve_dir(root, encode_utf8(a));
    law_object_lies_below_the_serve_dir(root, encode_utf8(b));
    let base = fs_path::names(root);
    let x = base + fs_path::names(p);
    let y = base + fs_path::names(q);
    if x == y {
        assert(x.skip(base.len() as int) == fs_path::names(p));
        assert(y.skip(base.len() as int) == fs_path::names(q));
        assert(fs_path::path_key(p) == fs_path::path_key(q));
    }
}

/// A key that leads to a parent directory has no path.
pub proof fn law_key_with_parent_name_is_refused(key: Seq<u8>)
    requires
        fs_path::names(key).contains(parent_name()),
    ensures
        safe_path(key) is None,
{
    lemma_without_leading_slashes(key);
    let p = without_leading_slashes(key);
    let i = choose|i: int| 0 <= i < fs_path::names(p).len() && fs_path::names(p)[i] == parent_name();
    fs_path::lemma_names_are_segments(p);
    assert(fs_path::segments(p).contains(fs_path::names(p)[i]));
}

/// A key whose parts are all names, and not that of the parent directory, is
/// its own path.
pub proof fn law_plain_key_is_its_path(key: Seq<char>)
    requires
        fs_path::is_plain_key(key),
        !fs_path::text_segments(key).contains(seq!['.', '.']),
    ensures
        safe_path(encode_utf8(key)) == Some(encode_utf8(key)),
        object_key(key) == key,
{
    let p = encode_utf8(key);
    fs_path::lemma_plain_key_segments(key);
    fs_path::law_plain_key_is_the_key_of_its_path(key);
    fs_path::lemma_segments_of_text(key);
    fs_path::lemma_names_are_segments(p);
    let segs = fs_path::segments(p);
    if segs.contains(parent_name()) {
        let i = choose|i: int| 0 <= i < segs.len() && segs[i] == parent_name();
        let t = fs_path::text_segments(key)[i];
        assert(segs[i] == encode_utf8(t));
        text::lemma_encode_concat(seq!['.'], seq!['.']);
        text::lemma_encode_char('.');
        assert(seq!['.'] + seq!['.'] == seq!['.', '.']);
        assert(encode_utf8(seq!['.', '.']) == parent_name());
        text::lemma_encode_injective(t, seq!['.', '.']);
    }
    fs_path::lemma_first_segment(p);
    assert(fs_path::is_name(fs_path::names(p)[0]));
    lemma_object_key_encoded(key);
    text::lemma_encode_injective(object_key(key), key);
}

/// The temporary file for an object lies in the directory of the object, under
/// another name that ends with `.fxv_tmp`.
pub proof fn law_temp_file_is_beside_the_object(target: Seq<u8>, token: Seq<char>)
    requires
        fs_path::has_file_name(target),
        ids::is_simple_id(token),
    ensures
        ({
            let temp = fs_path::names(temp_file(target, token));
            let object = fs_path::names(target);
            &&& temp.len() == object.len()
            &&& temp.drop_last() == object.drop_last()
            &&& temp.last() != object.last()
            &&& encode_utf8(".fxv_tmp"@).is_suffix_of(temp.last())
        }),
{
    let suffix = encode_utf8(".fxv_tmp"@);
    let extension = encode_utf8(token + ".fxv_tmp"@);
    reveal_strlit(".fxv_tmp");
    is_ascii_chars_encode_utf8(".fxv_tmp"@);
    is_ascii_chars_encode_utf8(token);
    text::lemma_encode_concat(token, ".fxv_tmp"@);
    assert(extension == encode_utf8(token) + suffix);
    assert(extension[32] == suffix[0]);
    assert(suffix[0] == DOT);
    assert(fs_path::slash_free(extension)) by {
        assert forall|i: int| 0 <= i < extension.len() implies #[trigger] extension[i] != SLASH by {
            if i < 32 {
                assert(etag::is_hex_digit(token[i]));
                assert(extension[i] == encode_utf8(token)[i]);
            } else {
                assert(extension[i] == suffix[i - 32]);
            }
        }
    }
    fs_path::lemma_names_with_extension(target, extension);
    let name = fs_path::names(target).last();
    fs_path::lemma_dotted_extension_changes_name(name, extension);
    let new_name = name.take(fs_path::stem_len(name)).push(DOT) + extension;
    assert(fs_path::names(temp_file(target, token)).last() == new_name);
    assert(new_name.subrange(new_name.len() - suffix.len(), new_name.len() as int) == suffix);
    assert(fs_path::names(target).drop_last().push(new_name).drop_last() == fs_path::names(
        target,
    ).drop_last());
}

/// No two uploads of parts share a file name.
pub proof fn law_parts_have_their_own_files(
    id: Seq<char>,
    number: u32,
    token: Seq<char>,
    other_id: Seq<char>,
    other_number: u32,
    other_token: Seq<char>,
)
    requires
        ids::is_simple_id(token),
        ids::is_simple_id(other_token),
        part_file_name(id, number, token) == part_file_name(other_id, other_number, other_token),
    ensures
        id == other_id,
        number == other_number,
        token == other_token,
{
    reveal_strlit("part-");
    reveal_strlit("-");
    reveal_strlit(".fxv_tmp");
    let a = part_file_name(id, number, token);
    let b = part_file_name(other_id, other_number, other_token);
    let d = text::decimal(number as nat);
    let e = text::decimal(other_number as nat);
    text::lemma_decimal_digits(number as nat);
    text::lemma_decimal_digits(other_number as nat);
    let n = a.len() as int;
    assert(a.subrange(n - 40, n - 8) =~= token);
    assert(b.subrange(n - 40, n - 8) =~= other_token);
    let x = n - 41 - d.len() as int;
    let y = n - 41 - e.len() as int;
    assert(a[x - 1] == '-');
    assert(b[y - 1] == '-');
    if d.len() < e.len() {
        assert(b[x - 1] == e[x - 1 - y]);
        assert(text::is_digit(e[x - 1 - y]));
        assert(false);
    }
    if e.len() < d.len() {
        assert(a[y - 1] == d[y - 1 - x]);
        assert(text::is_digit(d[y - 1 - x]));
        assert(false);
    }
    assert(a.subrange(x, n - 41) =~= d);
    assert(b.subrange(y, n - 41) =~= e);
    text::lemma_decimal_injective(number as nat, other_number as nat);
    assert(a.subrange(5, x - 1) =~= id);
    assert(b.subrange(5, y - 1) =~= other_id);
}

proof fn lemma_part_name_text(id: Seq<char>, number: u32, token: Seq<char>)
    requires
        ids::is_simple_id(token),
    ensures
        part_file_name(id, number, token)[0] == 'p',
        encode_utf8(part_file_name(id, number, token)).len() > 0,
        encode_utf8(part_file_name(id, number, token))[0] != SLASH,
{
    reveal_strlit("part-");
    let name = part_file_name(id, number, token);
    assert(name =~= seq!['p'] + name.drop_first());
    text::lemma_encode_concat(seq!['p'], name.drop_first());
    text::lemma_encode_char('p');
}

proof fn lemma_part_paths_differ(
    root: Seq<u8>,
    id: Seq<char>,
    number: u32,
    token: Seq<char>,
    other_id: Seq<char>,
    other_number: u32,
    other_token: Seq<char>,
)
    requires
        ids::is_simple_id(token),
        ids::is_simple_id(other_token),
        part_file(root, id, number, token) == part_file(
            root,
            other_id,
            other_number,
            other_token,
        ),
    ensures
        id == other_id,
        number == other_number,
        token == other_token,
{
    lemma_part_name_text(id, number, token);
    lemma_part_name_text(other_id, other_number, other_token);
    let dir = fs_path::joined(root, encode_utf8(MULTIPART_UPLOAD_DIR@));
    let base = if dir.len() == 0 || dir.last() == SLASH {
        dir
    } else {
        dir.push(SLASH)
    };
    let a = encode_utf8(part_file_name(id, number, token));
    let b = encode_utf8(part_file_name(other_id, other_number, other_token));
    assert(part_file(root, id, number, token) == base + a);
    assert(part_file(root, other_id, other_number, other_token) == base + b);
    assert((base + a).skip(base.len() as int) =~= a);
    assert((base + b).skip(base.len() as int) =~= b);
    text::lemma_encode_injective(
        part_file_name(id, number, token),
        part_file_name(other_id, other_number, other_token),
    );
    law_parts_have_their_own_files(id, number, token, other_id, other_number, other_token);
}

/// Whether the part `number` of the upload `id` can be at `path`.
pub open spec fn is_file_for_part(
    path: Seq<u8>,
    root: Seq<u8>,
    id: Seq<char>,
    number: u32,
) -> bool {
    exists|token: Seq<char>|
        ids::is_simple_id(token) && path == #[trigger] part_file(root, id, number, token)
}

/// Whether every part of every upload is in a file for that part.
pub open spec fn parts_in_place(uploads: Map<Seq<char>, UploadView>, root: Seq<u8>) -> bool {
    forall|id: Seq<char>, number: u32| #[trigger]
        multipart_state::has_part(uploads, id, number) ==> is_file_for_part(
            uploads[id].parts[number].abs_path,
            root,
            id,
            number,
        )
}

/// Parts stay in their files: an upload that begins has no parts, one that ends
/// takes its parts along, and a part that is recorded is in the file that its
/// request was planned with.
pub proof fn law_parts_stay_in_place(
    uploads: Map<Seq<char>, UploadView>,
    root: Seq<u8>,
    id: Seq<char>,
    new_upload: UploadView,
    job: PartJobView,
    body: Option<WrittenBody>,
)
    requires
        parts_in_place(uploads, root),
        new_upload.parts == Map::<u32, PartView>::empty(),
        is_file_for_part(job.tmp_path, root, job.upload_id, job.number),
    ensures
        parts_in_place(uploads.insert(id, new_upload), root),
        parts_in_place(uploads.remove(id), root),
        parts_in_place(uploads_after_part(uploads, job, body), root),
{
    let begun = uploads.insert(id, new_upload);
    let ended = uploads.remove(id);
    let after = uploads_after_part(uploads, job, body);
    assert forall|i: Seq<char>, n: u32| #[trigger]
        multipart_state::has_part(begun, i, n) implies is_file_for_part(
        begun[i].parts[n].abs_path,
        root,
        i,
        n,
    ) by {
        assert(multipart_state::has_part(uploads, i, n));
    }
    assert forall|i: Seq<char>, n: u32| #[trigger]
        multipart_state::has_part(ended, i, n) implies is_file_for_part(
        ended[i].parts[n].abs_path,
        root,
        i,
        n,
    ) by {
        assert(multipart_state::has_part(uploads, i, n));
    }
    assert forall|i: Seq<char>, n: u32| #[trigger]
        multipart_state::has_part(after, i, n) implies is_file_for_part(
        after[i].parts[n].abs_path,
        root,
        i,
        n,
    ) by {
        if i != job.upload_id || n != job.number || body is None {
            assert(multipart_state::has_part(uploads, i, n));
        }
    }
}

/// A file that is removed at the end of an UploadPart request holds no part of
/// any upload: after a part has been uploaded again, the file of the recorded
/// part stays, as do the files of all others.
pub proof fn law_stale_file_holds_no_part(
    uploads: Map<Seq<char>, UploadView>,
    root: Seq<u8>,
    job: PartJobView,
    body: Option<WrittenBody>,
    id: Seq<char>,
)
    requires
        parts_in_place(uploads, root),
        is_file_for_part(job.tmp_path, root, job.upload_id, job.number),
        uploads_after_part(uploads, job, body).contains_key(id),
    ensures
        stale_file(uploads, job, body is Some) matches Some(p)
            ==> !multipart_state::is_part_path(p, uploads_after_part(uploads, job, body)[id].parts),
{
    let after = uploads_after_part(uploads, job, body);
    if let Some(p) = stale_file(uploads, job, body is Some) {
        if multipart_state::is_part_path(p, after[id].parts) {
            let n = choose|n: u32|
                #[trigger] after[id].parts.contains_key(n) && after[id].parts[n].abs_path == p;
            let own = choose|token: Seq<char>|
                ids::is_simple_id(token) && job.tmp_path == #[trigger] part_file(
                    root,
                    job.upload_id,
                    job.number,
                    token,
                );
            if body is Some {
                assert(multipart_state::has_part(uploads, job.upload_id, job.number));
                let old = choose|token: Seq<char>|
                    ids::is_simple_id(token) && p == #[trigger] part_file(
                        root,
                        job.upload_id,
                        job.number,
                        token,
                    );
                if id != job.upload_id || n != job.number {
                    assert(multipart_state::has_part(uploads, id, n));
                    let other = choose|token: Seq<char>|
                        ids::is_simple_id(token) && p == #[trigger] part_file(root, id, n, token);
                    lemma_part_paths_differ(root, job.upload_id, job.number, old, id, n, other);
                }
            } else {
                assert(multipart_state::has_part(uploads, id, n));
                let other = choose|token: Seq<char>|
                    ids::is_simple_id(token) && p == #[trigger] part_file(root, id, n, token);
                lemma_part_paths_differ(root, job.upload_id, job.number, own, id, n, other);
            }
        }
    }
}

/// The file for a part of an upload lies in the directory for uploads, which is
/// not the one for cached metadata.
pub proof fn law_part_file_lies_in_the_upload_dir(
    root: Seq<u8>,
    id: Seq<char>,
    number: u32,
    token: Seq<char>,
)
    requires
        ids::is_hyphenated_id(id),
        ids::is_simple_id(token),
    ensures
        fs_path::names(part_file(root, id, number, token)) == fs_path::names(root).push(
            encode_utf8(MULTIPART_UPLOAD_DIR@),
        ).push(encode_utf8(part_file_name(id, number, token))),
        encode_utf8(MULTIPART_UPLOAD_DIR@) != encode_utf8(metadata_cache::METADATA_CACHE_DIR@),
{
    metadata_cache::lemma_cache_dir_is_name();
    let dir = encode_utf8(MULTIPART_UPLOAD_DIR@);
    let text_name = part_file_name(id, number, token);
    let name = encode_utf8(text_name);
    let d = text::decimal(number as nat);
    text::lemma_decimal_digits(number as nat);
    reveal_strlit(".fxv-multipart-uploads");
    reveal_strlit("part-");
    reveal_strlit("-");
    reveal_strlit(".fxv_tmp");
    is_ascii_chars_encode_utf8(MULTIPART_UPLOAD_DIR@);
    assert forall|i: int| 0 <= i < text_name.len() implies '\0' <= #[trigger] text_name[i]
        <= '\u{7f}' && text_name[i] != '/' by {
        let k = 42 + d.len() as int;
        if 5 <= i < 41 {
            assert(text_name[i] == id[i - 5]);
        } else if 42 <= i < k {
            assert(text_name[i] == d[i - 42]);
            assert(text::is_digit(d[i - 42]));
        } else if k < i <= k + 32 {
            assert(text_name[i] == token[i - k - 1]);
            assert(etag::is_hex_digit(token[i - k - 1]));
        } else if i > k + 32 {
            assert(text_name[i] == ".fxv_tmp"@[i - k - 33]);
        }
    }
    is_ascii_chars_encode_utf8(text_name);
    assert(fs_path::slash_free(name)) by {
        assert forall|i: int| 0 <= i < name.len() implies #[trigger] name[i] != SLASH by {
            assert(text_name[i] as u8 == name[i]);
        }
    }
    assert(fs_path::slash_free(dir));
    assert(name.len() > 1);
    fs_path::lemma_names_of_name(dir);
    fs_path::lemma_names_of_name(name);
    fs_path::lemma_names_of_joined(root, dir);
    fs_path::lemma_names_of_joined(fs_path::joined(root, dir), name);
    assert(fs_path::names(part_file(root, id, number, token)) =~= fs_path::names(root).push(
        dir,
    ).push(name));
}

/// The names in the paths of parts differ, as the paths themselves do.
pub proof fn lemma_part_names_differ(
    root: Seq<u8>,
    id: Seq<char>,
    number: u32,
    token: Seq<char>,
    other_id: Seq<char>,
    other_number: u32,
    other_token: Seq<char>,
)
    requires
        ids::is_hyphenated_id(id),
        ids::is_hyphenated_id(other_id),
        ids::is_simple_id(token),
        ids::is_simple_id(other_token),
        fs_path::names(part_file(root, id, number, token)) == fs_path::names(
            part_file(root, other_id, other_number, other_token),
        ),
    ensures
        id == other_id,
        number == other_number,
        token == other_token,
{
    law_part_file_lies_in_the_upload_dir(root, id, number, token);
    law_part_file_lies_in_the_upload_dir(root, other_id, other_number, other_token);
    let a = fs_path::names(part_file(root, id, number, token));
    let b = fs_path::names(part_file(root, other_id, other_number, other_token));
    assert(a.last() == encode_utf8(part_file_name(id, number, token)));
    assert(b.last() == encode_utf8(part_file_name(other_id, other_number, other_token)));
    text::lemma_encode_injective(
        part_file_name(id, number, token),
        part_file_name(other_id, other_number, other_token),
    );
    law_parts_have_their_own_files(id, number, token, other_id, other_number, other_token);
}

/// The names in the paths of one part differ, whatever the identifier of its
/// upload is.
pub proof fn lemma_names_of_one_part_differ(
    root: Seq<u8>,
    id: Seq<char>,
    number: u32,
    token: Seq<char>,
    other_token: Seq<char>,
)
    requires
        ids::is_simple_id(token),
        ids::is_simple_id(other_token),
        fs_path::names(part_file(root, id, number, token)) == fs_path::names(
            part_file(root, id, number, other_token),
        ),
    ensures
        token == other_token,
{
    let front = "part-"@ + id + "-"@ + text::decimal(number as nat) + "-"@;
    let dir = fs_path::joined(root, encode_utf8(MULTIPART_UPLOAD_DIR@));
    let base = fs_path::joined(dir, encode_utf8(front));
    lemma_part_path_split(dir, id, number, token);
    lemma_part_path_split(dir, id, number, other_token);
    let a = encode_utf8(token + ".fxv_tmp"@);
    let b = encode_utf8(other_token + ".fxv_tmp"@);
    fs_path::lemma_names_tell_endings_apart(base, a, b);
    text::lemma_encode_injective(token + ".fxv_tmp"@, other_token + ".fxv_tmp"@);
    assert((token + ".fxv_tmp"@).take(32) == token);
    assert((other_token + ".fxv_tmp"@).take(32) == other_token);
}

proof fn lemma_part_path_split(dir: Seq<u8>, id: Seq<char>, number: u32, token: Seq<char>)
    requires
        ids::is_simple_id(token),
    ensures
        ({
            let front = "part-"@ + id + "-"@ + text::decimal(number as nat) + "-"@;
            let end = encode_utf8(token + ".fxv_tmp"@);
            &&& fs_path::joined(dir, encode_utf8(part_file_name(id, number, token)))
                == fs_path::joined(dir, encode_utf8(front)) + end
            &&& fs_path::slash_free(end) && end.len() > 1
        }),
{
    let front = "part-"@ + id + "-"@ + text::decimal(number as nat) + "-"@;
    let back = token + ".fxv_tmp"@;
    let name = part_file_name(id, number, token);
    assert(name =~= front + back);
    text::lemma_encode_concat(front, back);
    lemma_part_name_text(id, number, token);
    reveal_strlit("part-");
    reveal_strlit(".fxv_tmp");
    assert(front =~= seq!['p'] + front.drop_first());
    text::lemma_encode_concat(seq!['p'], front.drop_first());
    text::lemma_encode_char('p');
    assert(encode_utf8(front)[0] == encode_utf8(seq!['p'])[0]);
    assert forall|i: int| 0 <= i < back.len() implies '\0' <= #[trigger] back[i] <= '\u{7f}'
        && back[i] != '/' by {
        if i < 32 {
            assert(etag::is_hex_digit(token[i]));
        }
    }
    is_ascii_chars_encode_utf8(back);
    assert forall|i: int| 0 <= i < encode_utf8(back).len() implies #[trigger] encode_utf8(back)[i]
        != SLASH by {
        assert(back[i] as u8 == encode_utf8(back)[i]);
    }
    assert(fs_path::joined(dir, encode_utf8(name)) =~= fs_path::joined(dir, encode_utf8(front))
        + encode_utf8(back));
}

/// A request without conditional headers is never refused on their account.
pub proof fn law_unconditional_put_is_not_refused(existing: Option<EntryView>)
    ensures
        !put_refused(existing, None, None),
{
}

/// With `If-None-Match: *` an object is written exactly if there is none yet.
pub proof fn law_create_only_put(existing: Option<EntryView>)
    ensures
        put_refused(existing, None, Some("*"@)) <==> existing is Some,
{
}

/// With `If-Match` an object is written exactly if there is one with the given
/// tag, or any one if that is `*`.
pub proof fn law_replace_only_put(existing: Option<EntryView>, tag: Seq<char>)
    ensures
        !put_refused(existing, Some(tag), None) <==> (existing matches Some(entry) && (entry.etag
            == tag || tag == "*"@)),
{
}

/// The key of an object is the given key without the slashes in front of it;
/// nothing else is taken off it.
pub proof fn law_object_key_drops_only_slashes_in_front(key: Seq<char>)
    ensures
        exists|n: int|
            {
                &&& 0 <= n <= key.len()
                &&& object_key(key) == #[trigger] key.skip(n)
                &&& forall|i: int| 0 <= i < n ==> #[trigger] key[i] == '/'
            },
        object_key(key).len() > 0 ==> object_key(key)[0] != '/',
    decreases key.len(),
{
    if key.len() > 0 && key[0] == '/' {
        let tail = key.drop_first();
        law_object_key_drops_only_slashes_in_front(tail);
        let m = choose|m: int|
            {
                &&& 0 <= m <= tail.len()
                &&& object_key(tail) == #[trigger] tail.skip(m)
                &&& forall|i: int| 0 <= i < m ==> #[trigger] tail[i] == '/'
            };
        assert(tail.skip(m) == key.skip(m + 1));
        assert forall|i: int| 0 <= i < m + 1 implies #[trigger] key[i] == '/' by {
            if i > 0 {
                assert(tail[i - 1] == key[i]);
            }
        }
    } else {
        assert(key.skip(0) == key);
    }
}

/// The path of a key is the key itself, without the slashes in front of it. It
/// has none exactly if nothing is left then, if its first part is a single dot,
/// or if one of its parts is the name of the parent directory.
pub proof fn law_path_of_a_key(key: Seq<char>)
    ensures
        ({
            let normal = object_key(key);
            let parts = fs_path::text_segments(normal);
            safe_path(encode_utf8(key)) == if normal.len() == 0 || parts[0] == seq!['.']
                || parts.contains(seq!['.', '.']) {
                None
            } else {
                Some(encode_utf8(normal))
            }
        }),
{
    let normal = object_key(key);
    let parts = fs_path::text_segments(normal);
    let p = encode_utf8(normal);
    lemma_object_key_encoded(key);
    fs_path::lemma_segments_of_text(normal);
    fs_path::lemma_segments_slash_free(p);
    let segs = fs_path::segments(p);
    assert(segs.len() == parts.len());
    assert(segs[0] == encode_utf8(parts[0]));
    text::lemma_encode_char('.');
    text::lemma_encode_concat(seq!['.'], seq!['.']);
    assert(seq!['.'] + seq!['.'] == seq!['.', '.']);
    assert(encode_utf8(seq!['.', '.']) == parent_name());
    assert(encode_utf8(Seq::<char>::empty()) == Seq::<u8>::empty());
    if p.len() == 0 {
        assert(p == encode_utf8(Seq::<char>::empty()));
        text::lemma_encode_injective(normal, Seq::empty());
    }
    if normal.len() == 0 {
        assert(normal == Seq::<char>::empty());
    }
    if segs[0] == seq![DOT] {
        text::lemma_encode_injective(parts[0], seq!['.']);
    }
    if segs.contains(parent_name()) {
        let i = choose|i: int| 0 <= i < segs.len() && segs[i] == parent_name();
        assert(segs[i] == encode_utf8(parts[i]));
        text::lemma_encode_injective(parts[i], seq!['.', '.']);
    }
    if parts.contains(seq!['.', '.']) {
        let i = choose|i: int| 0 <= i < parts.len() && parts[i] == seq!['.', '.'];
        assert(segs[i] == encode_utf8(parts[i]));
    }
}

/// A request to store an object is refused exactly if it wants to create an
/// object that exists, if it wants to replace one that does not, or if it wants
/// to replace one that has another tag.
pub proof fn law_put_conditions(
    existing: Option<EntryView>,
    if_match: Option<Seq<char>>,
    if_none_match: Option<Seq<char>>,
)
    ensures
        put_refused(existing, if_match, if_none_match) <==> {
            ||| existing is Some && if_none_match == Some("*"@)
            ||| existing is None && if_match is Some
            ||| existing is Some && if_match is Some && if_match->0 != "*"@ && if_match->0
                != existing->0.etag
        },
{
}

/// A request to store an object is carried out exactly if its key has a path and
/// its conditions hold of the object that is there, and is answered with 400 or
/// 412 otherwise.
pub proof fn law_put_is_carried_out_or_refused(
    objects: Map<Seq<char>, EntryView>,
    root: Seq<u8>,
    key: Seq<char>,
    request: Seq<(Seq<char>, Seq<u8>)>,
    token: Seq<char>,
)
    ensures
        ({
            let plan = planned_put(objects, root, key, request, token);
            let existing = if objects.contains_key(object_key(key)) {
                Some(objects[object_key(key)])
            } else {
                None
            };
            let refused = put_refused(
                existing,
                headers::text_under(request, "if-match"@),
                headers::text_under(request, "if-none-match"@),
            );
            &&& plan is Write <==> safe_path(encode_utf8(key)) is Some && !refused
            &&& plan matches PutStartView::Refuse(response) ==> response
                == s3_xml_compat::error_response(
                if safe_path(encode_utf8(key)) is None {
                    S3ErrorKind::InvalidArgument("The specified object key is invalid.")
                } else {
                    S3ErrorKind::PreconditionFailed
                },
            )
        }),
{
}

/// An object is stored in the file of its key: the path of the key, whole, below
/// the serve directory. It is written to a temporary file beside that first, and
/// carries the metadata and the conditions of the request.
pub proof fn law_put_writes_to_the_file_of_its_key(
    objects: Map<Seq<char>, EntryView>,
    root: Seq<u8>,
    key: Seq<char>,
    request: Seq<(Seq<char>, Seq<u8>)>,
    token: Seq<char>,
)
    ensures
        planned_put(objects, root, key, request, token) matches PutStartView::Write(job) ==> {
            &&& job.object_key == object_key(key)
            &&& job.rel_path == encode_utf8(object_key(key))
            &&& Some(job.rel_path) == safe_path(encode_utf8(key))
            &&& job.abs_path == fs_path::joined(root, job.rel_path)
            &&& fs_path::names(job.abs_path) == fs_path::names(root) + fs_path::names(
                encode_utf8(object_key(key)),
            )
            &&& job.tmp_path == temp_file(job.abs_path, token)
            &&& job.custom_headers == metadata_cache::user_metadata(request)
            &&& job.if_match == headers::text_under(request, "if-match"@)
            &&& job.if_none_match == headers::text_under(request, "if-none-match"@)
        },
{
    law_path_of_a_key(key);
    law_object_lies_below_the_serve_dir(root, encode_utf8(key));
}

/// Two requests whose keys name different objects, and consist of names, write to
/// different files. Two that name the same object write to the same one.
pub proof fn law_puts_of_different_objects_write_to_different_files(
    objects: Map<Seq<char>, EntryView>,
    others: Map<Seq<char>, EntryView>,
    root: Seq<u8>,
    a: Seq<char>,
    b: Seq<char>,
    request_a: Seq<(Seq<char>, Seq<u8>)>,
    request_b: Seq<(Seq<char>, Seq<u8>)>,
    token_a: Seq<char>,
    token_b: Seq<char>,
)
    ensures
        planned_put(objects, root, a, request_a, token_a) matches PutStartView::Write(x) ==> (
        planned_put(others, root, b, request_b, token_b) matches PutStartView::Write(y) ==> {
            &&& object_key(a) == object_key(b) ==> x.abs_path == y.abs_path
            &&& fs_path::is_plain_key(object_key(a)) && fs_path::is_plain_key(object_key(b))
                && object_key(a) != object_key(b) ==> fs_path::names(x.abs_path) != fs_path::names(
                y.abs_path,
            )
        }),
{
    law_put_writes_to_the_file_of_its_key(objects, root, a, request_a, token_a);
    law_put_writes_to_the_file_of_its_key(others, root, b, request_b, token_b);
    if safe_path(encode_utf8(a)) is Some && safe_path(encode_utf8(b)) is Some {
        law_one_object_for_one_file(root, a, b);
    }
}

/// The temporary file of an object has the name of the object without its
/// extension, a dot, the token and the extension for temporary files.
pub proof fn law_name_of_the_temp_file(target: Seq<u8>, token: Seq<char>)
    requires
        fs_path::names(target).len() > 0,
        ids::is_simple_id(token),
    ensures
        ({
            let name = fs_path::names(target).last();
            let stem = name.take(fs_path::stem_len(name));
            fs_path::names(temp_file(target, token)) == fs_path::names(target).drop_last().push(
                stem + seq![DOT] + encode_utf8(token + ".fxv_tmp"@),
            )
        }),
{
    let extension = encode_utf8(token + ".fxv_tmp"@);
    let back = token + ".fxv_tmp"@;
    reveal_strlit(".fxv_tmp");
    assert forall|i: int| 0 <= i < back.len() implies '\0' <= #[trigger] back[i] <= '\u{7f}'
        && back[i] != '/' by {
        if i < 32 {
            assert(etag::is_hex_digit(token[i]));
        }
    }
    is_ascii_chars_encode_utf8(back);
    assert forall|i: int| 0 <= i < extension.len() implies #[trigger] extension[i] != SLASH by {
        assert(back[i] as u8 == extension[i]);
    }
    fs_path::lemma_names_with_extension(target, extension);
    let name = fs_path::names(target).last();
    let stem = name.take(fs_path::stem_len(name));
    assert(stem.push(DOT) + extension =~= stem + seq![DOT] + extension);
}

/// A body that has been received is known by its length and by the checksum of
/// its data, and its tag is that checksum in hexadecimal, in quotes.
pub proof fn law_received_body(body: WrittenBody, data: Seq<u8>)
    ensures
        body.describes(data) <==> body.size == data.len() && body.digest@ == etag::md5_of(data),
        body.tag() == seq!['"'] + etag::hex(body.digest@) + seq!['"'],
        body.describes(data) ==> body.tag() == etag::etag_of(data),
{
    etag::law_tag_of_contents(data);
}

/// Before an object takes its place its conditions are looked at once more: there
/// is no objection exactly if the body was written and they still hold.
pub proof fn law_objections_to_a_put(
    objects: Map<Seq<char>, EntryView>,
    job: PutJobView,
    written: bool,
)
    ensures
        ({
            let existing = if objects.contains_key(job.object_key) {
                Some(objects[job.object_key])
            } else {
                None
            };
            let refused = put_refused(existing, job.if_match, job.if_none_match);
            &&& put_objection(objects, job, written) is None <==> written && !refused
            &&& !written ==> put_objection(objects, job, written) == Some(
                s3_xml_compat::error_response(S3ErrorKind::Internal),
            )
            &&& written && refused ==> put_objection(objects, job, written) == Some(
                s3_xml_compat::error_response(S3ErrorKind::PreconditionFailed),
            )
        }),
{
}

/// An object that was stored is known by the file of the job, by what was
/// received, and by the metadata of the request.
pub proof fn law_entry_of_a_put(job: PutJobView, body: WrittenBody, data: Seq<u8>)
    requires
        body.describes(data),
    ensures
        put_entry(job, body).abs_path == job.abs_path,
        put_entry(job, body).size == data.len(),
        put_entry(job, body).modified == body.modified,
        put_entry(job, body).etag == etag::etag_of(data),
        put_entry(job, body).checksums.md5 == etag::hex(etag::md5_of(data)),
        put_entry(job, body).checksums.crc32 is None,
        put_entry(job, body).checksums.crc64nvme is None,
        put_entry(job, body).custom_headers == job.custom_headers,
{
    law_received_body(body, data);
}

/// What was stored is answered with the status 200 and the tag, and with nothing
/// else.
pub proof fn law_stored_response_carries_the_tag(tag: Seq<char>)
    ensures
        stored_response(tag).status == 200,
        stored_response(tag).headers == seq![("etag"@, encode_utf8(tag))],
        stored_response(tag).body is Empty,
{
}

/// A request to upload a part is answered with a part to write exactly if its
/// number is from 1 to 10000 and its upload exists and is one of its key. The
/// part that is written has that number and belongs to that upload.
pub proof fn law_part_is_uploaded_under_its_number(
    uploads: Map<Seq<char>, UploadView>,
    root: Seq<u8>,
    key: Seq<char>,
    part_number: Option<u32>,
    upload_id: Option<Seq<char>>,
    token: Seq<char>,
)
    ensures
        ({
            let plan = planned_part(uploads, root, key, part_number, upload_id, token);
            &&& plan is Write <==> {
                &&& part_number is Some && 1 <= part_number->0 <= 10000
                &&& upload_id is Some && uploads.contains_key(upload_id->0)
                &&& object_key(uploads[upload_id->0].key) == object_key(key)
            }
            &&& plan matches PartStartView::Write(job) ==> {
                &&& part_number == Some(job.number)
                &&& upload_id == Some(job.upload_id)
                &&& job.tmp_path == part_file(root, job.upload_id, job.number, token)
            }
        }),
{
}

/// A request to upload a part is refused for its number first, then for want of
/// an upload, then because the upload is not known, and last because it is one of
/// another key.
pub proof fn law_part_is_refused(
    uploads: Map<Seq<char>, UploadView>,
    root: Seq<u8>,
    key: Seq<char>,
    part_number: Option<u32>,
    upload_id: Option<Seq<char>>,
    token: Seq<char>,
)
    ensures
        planned_part(uploads, root, key, part_number, upload_id, token)
            matches PartStartView::Refuse(response) ==> response == s3_xml_compat::error_response(
            if part_number is None || part_number->0 < 1 || part_number->0 > 10000 {
                S3ErrorKind::InvalidArgument("Part number must be between 1 and 10000.")
            } else if upload_id is None {
                S3ErrorKind::InvalidArgument("A valid uploadId must be provided.")
            } else if !uploads.contains_key(upload_id->0) {
                S3ErrorKind::NoSuchUpload
            } else {
                S3ErrorKind::InvalidArgument("The upload ID is not associated with this key.")
            },
        ),
{
}

/// After a part has been written its upload has it under its number, with the
/// size, the checksum, the tag and the file of what was received. Every other
/// part of every upload is as it was, and so is every other upload.
pub proof fn law_written_part_is_recorded(
    uploads: Map<Seq<char>, UploadView>,
    root: Seq<u8>,
    key: Seq<char>,
    number: u32,
    id: Seq<char>,
    token: Seq<char>,
    job: PartJobView,
    body: WrittenBody,
    data: Seq<u8>,
)
    requires
        planned_part(uploads, root, key, Some(number), Some(id), token) == PartStartView::Write(
            job,
        ),
        body.describes(data),
    ensures
        ({
            let after = uploads_after_part(uploads, job, Some(body));
            &&& after.dom() == uploads.dom()
            &&& after[id].key == uploads[id].key
            &&& after[id].custom_headers == uploads[id].custom_headers
            &&& after[id].parts.dom() == uploads[id].parts.dom().insert(number)
            &&& after[id].parts[number].size == data.len()
            &&& after[id].parts[number].md5_bytes@ == etag::md5_of(data)
            &&& after[id].parts[number].etag == etag::etag_of(data)
            &&& after[id].parts[number].abs_path == part_file(root, id, number, token)
            &&& forall|n: u32|
                n != number ==> #[trigger] after[id].parts[n] == uploads[id].parts[n]
            &&& forall|other: Seq<char>|
                other != id ==> #[trigger] after[other] == uploads[other]
        }),
{
    law_received_body(body, data);
    let after = uploads_after_part(uploads, job, Some(body));
    assert(after.dom() =~= uploads.dom());
    assert(after[id].parts.dom() =~= uploads[id].parts.dom().insert(number));
}

/// A part that could not be written changes no upload.
pub proof fn law_failed_part_changes_nothing(
    uploads: Map<Seq<char>, UploadView>,
    job: PartJobView,
)
    ensures
        uploads_after_part(uploads, job, None) == uploads,
{
}

/// The file of a part that has been replaced is removed, and so is the file of a
/// part that could not be written.
pub proof fn law_files_that_are_left_over_are_removed(
    uploads: Map<Seq<char>, UploadView>,
    job: PartJobView,
)
    ensures
        ({
            let had = uploads.contains_key(job.upload_id)
                && uploads[job.upload_id].parts.contains_key(job.number);
            let old_path = uploads[job.upload_id].parts[job.number].abs_path;
            &&& had && old_path != job.tmp_path ==> stale_file(uploads, job, true) == Some(old_path)
            &&& !had ==> stale_file(uploads, job, true) is None
            &&& !(had && old_path == job.tmp_path) ==> stale_file(uploads, job, false) == Some(
                job.tmp_path,
            )
            &&& had && old_path == job.tmp_path ==> stale_file(uploads, job, true) is None
                && stale_file(uploads, job, false) is None
        }),
{
}

/// The responses to a key without a path and to an upload of another key are
/// those for a wrong argument.
pub proof fn law_wrong_arguments()
    ensures
        invalid_key() == s3_xml_compat::error_response(
            S3ErrorKind::InvalidArgument("The specified object key is invalid."),
        ),
        foreign_upload() == s3_xml_compat::error_response(
            S3ErrorKind::InvalidArgument("The upload ID is not associated with this key."),
        ),
{
}

/// Jobs say what their fields hold.
pub proof fn law_jobs_say_what_they_hold(
    job: PutJob,
    part: PartJob,
    response: Response,
    path: FsPath,
)
    ensures
        job@.object_key == job.object_key@,
        job@.rel_path == job.rel_path.bytes@,
        job@.abs_path == job.abs_path.bytes@,
        job@.tmp_path == job.tmp_path.bytes@,
        job@.custom_headers == metadata_cache::header_list(job.custom_headers@),
        job@.if_match == metadata_cache::opt_text(job.if_match),
        job@.if_none_match == metadata_cache::opt_text(job.if_none_match),
        PutStart::Write(job)@ == PutStartView::Write(job@),
        PutStart::Refuse(response)@ == PutStartView::Refuse(response@),
        part@.upload_id == part.upload_id@,
        part@.number == part.number,
        part@.tmp_path == part.tmp_path.bytes@,
        PartStart::Write(part)@ == PartStartView::Write(part@),
        PartStart::Refuse(response)@ == PartStartView::Refuse(response@),
        opt_path(Some(path)) == Some(path.bytes@),
        opt_path(None) is None,
{
}

/// A file for a part is one that its number, its upload and some token name, and
/// the parts of all uploads are in place exactly if each is in such a file.
pub proof fn law_files_for_parts(
    uploads: Map<Seq<char>, UploadView>,
    root: Seq<u8>,
    id: Seq<char>,
    number: u32,
    token: Seq<char>,
)
    requires
        ids::is_simple_id(token),
    ensures
        is_file_for_part(part_file(root, id, number, token), root, id, number),
        (forall|i: Seq<char>, n: u32|
            #![trigger uploads[i].parts[n]]
            uploads.contains_key(i) && uploads[i].parts.contains_key(n) ==> is_file_for_part(
                uploads[i].parts[n].abs_path,
                root,
                i,
                n,
            )) ==> parts_in_place(uploads, root),
{
}

} // verus!
