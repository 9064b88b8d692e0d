//! CreateMultipartUpload, CompleteMultipartUpload and AbortMultipartUpload.

use crate::etag;
use crate::etag::md5_hex_from_digest_bytes;
use crate::etag::multipart_etag_from_part_digests;
use crate::etag::Md5DigestBytes;
use crate::etag::Md5Stream;
use crate::fs_path;
use crate::fs_path::FsPath;
use crate::handlers::put_object;
use crate::handlers::put_object::sanitize_key;
use crate::handlers::put_object::temp_path;
use crate::handlers::put_object::is_same_object;
use crate::handlers::put_object::to_object_key;
use crate::handlers::put_object::Written;
use crate::headers;
use crate::ids;
use crate::ids::random_hyphenated_id;
use crate::ids::random_simple_id;
use crate::metadata_cache;
use crate::metadata_cache::clone_headers;
use crate::metadata_cache::extract_user_metadata_headers;
use crate::metadata_cache::ChecksumSet;
use crate::metadata_cache::HeaderEntry;
use crate::metadata_cache::ObjectMetadataCache;
use crate::multipart_state;
use crate::multipart_state::part_paths;
use crate::multipart_state::PartEntry;
use crate::multipart_state::PartView;
use crate::multipart_state::UploadEntry;
use crate::multipart_state::UploadTable;
use crate::multipart_state::UploadView;
use crate::response;
use crate::response::Response;
use crate::response::ResponseView;
use crate::s3_xml_compat;
use crate::s3_xml_compat::respond_xml;
use crate::s3_xml_compat::s3_error;
use crate::s3_xml_compat::to_xml_bytes;
use crate::s3_xml_compat::CompleteMultipartUpload;
use crate::s3_xml_compat::CompleteMultipartUploadResult;
use crate::s3_xml_compat::CompletePart;
use crate::s3_xml_compat::InitiateMultipartUploadResult;
use crate::s3_xml_compat::S3ErrorKind;
use crate::store;
use crate::store::EntryView;
use crate::store::FileEntry;
use crate::store::FileStore;
use crate::text::str_eq;
use crate::time::UnixTime;
use std::collections::HashMap;
use vstd::prelude::*;
use vstd::string::*;
use vstd::utf8::*;

verus! {

broadcast use vstd::std_specs::hash::group_hash_axioms;

/// The query parameters of a POST request.
#[derive(Debug)]
pub struct PostParams {
    /// Present for CreateMultipartUpload: `POST /key?uploads`
    pub uploads: Option<String>,
    /// Present for CompleteMultipartUpload: `POST /key?uploadId=<id>`
    pub upload_id: Option<String>,
}

/// The operations behind POST.
#[derive(Debug)]
pub enum PostRoute {
    Create,
    /// Complete the upload with this identifier.
    Complete(String),
    /// The parameters ask for neither.
    Refuse(Response),
}

/// POST /{*key} - dispatches to CreateMultipartUpload or CompleteMultipartUpload.
pub fn post_dispatch(params: PostParams) -> (r: PostRoute)
    ensures
        match r {
            PostRoute::Create => params.uploads is Some,
            PostRoute::Complete(id) => params.uploads is None && params.upload_id == Some(id),
            PostRoute::Refuse(resp) => {
                &&& params.uploads is None
                &&& params.upload_id is None
                &&& resp@ == s3_xml_compat::error_response(
                    S3ErrorKind::InvalidArgument(
                        "A valid uploads or uploadId query parameter must be provided.",
                    ),
                )
            },
        },
{
    if params.uploads.is_some() {
        PostRoute::Create
    } else if let Some(upload_id) = params.upload_id {
        PostRoute::Complete(upload_id)
    } else {
        PostRoute::Refuse(
            s3_error(
                S3ErrorKind::InvalidArgument(
                    "A valid uploads or uploadId query parameter must be provided.",
                ),
            ),
        )
    }
}

// ---------------------------------------------------------------------------
// CreateMultipartUpload
// ---------------------------------------------------------------------------

/// An upload for `key` that has no parts yet.
pub open spec fn new_upload(key: Seq<char>, request: Seq<(Seq<char>, Seq<u8>)>) -> UploadView {
    UploadView {
        key,
        custom_headers: metadata_cache::user_metadata(request),
        parts: Map::empty(),
    }
}

/// Registers an upload for `key` under the identifier `id`.
pub fn register_upload(
    uploads: &mut UploadTable,
    id: &str,
    key: &str,
    headers: &http::HeaderMap<http::HeaderValue>,
) -> (r: InitiateMultipartUploadResult)
    requires
        old(uploads).wf(),
    ensures
        final(uploads).wf(),
        final(uploads)@ == old(uploads)@.insert(
            id@,
            new_upload(key@, headers::header_entries(*headers)),
        ),
        r.key@ == key@,
        r.upload_id@ == id@,
{
    let parts: HashMap<u32, PartEntry> = HashMap::new();
    let entry = UploadEntry {
        key: key.to_owned(),
        custom_headers: extract_user_metadata_headers(headers),
        parts,
    };
    assert(entry@.parts =~= Map::empty());
    uploads.insert(id.to_owned(), entry);
    InitiateMultipartUploadResult { key: key.to_owned(), upload_id: id.to_owned() }
}

/// CreateMultipartUpload: allocate an upload ID and return it.
pub fn create_multipart_upload(
    uploads: &mut UploadTable,
    key: &str,
    headers: &http::HeaderMap<http::HeaderValue>,
) -> (r: InitiateMultipartUploadResult)
    requires
        old(uploads).wf(),
    ensures
        final(uploads).wf(),
        ids::is_hyphenated_id(r.upload_id@),
        final(uploads)@ == old(uploads)@.insert(
            r.upload_id@,
            new_upload(key@, headers::header_entries(*headers)),
        ),
        r.key@ == key@,
{
    let id: String = random_hyphenated_id();
    register_upload(uploads, id.as_str(), key, headers)
}

/// The response that carries the result of CreateMultipartUpload. `element` is
/// its XML form, unless it has none.
pub fn respond_created(element: Option<&str>) -> (r: Response)
    ensures
        r@ == match element {
            Some(e) => s3_xml_compat::xml_response(200, s3_xml_compat::xml_document(e@)),
            None => s3_xml_compat::error_response(S3ErrorKind::Internal),
        },
{
    match element {
        Some(e) => respond_xml(200, to_xml_bytes(e)),
        None => s3_error(S3ErrorKind::Internal),
    }
}

// ---------------------------------------------------------------------------
// CompleteMultipartUpload: the parts
// ---------------------------------------------------------------------------

/// The numbers and tags of the parts that a request asks for.
pub open spec fn wanted_parts(request: CompleteMultipartUpload) -> Seq<(u32, Seq<char>)> {
    request.parts@.map_values(|p: CompletePart| p@)
}

/// Whether the upload has every wanted part, with the wanted tag.
pub open spec fn has_parts(parts: Map<u32, PartView>, wanted: Seq<(u32, Seq<char>)>) -> bool {
    forall|i: int|
        0 <= i < wanted.len() ==> parts.contains_key((#[trigger] wanted[i]).0)
            && parts[wanted[i].0].etag == wanted[i].1
}

/// The wanted parts.
pub open spec fn chosen(parts: Map<u32, PartView>, wanted: Seq<(u32, Seq<char>)>) -> Seq<
    (u32, PartView),
> {
    wanted.map_values(|w: (u32, Seq<char>)| (w.0, parts[w.0]))
}

/// Parts in the order of their numbers, and then `part` in its place: behind
/// those whose number is not greater.
pub open spec fn placed(ordered: Seq<(u32, PartView)>, part: (u32, PartView)) -> Seq<
    (u32, PartView),
>
    decreases ordered.len(),
{
    if ordered.len() == 0 || ordered.last().0 <= part.0 {
        ordered.push(part)
    } else {
        placed(ordered.drop_last(), part).push(ordered.last())
    }
}

/// Parts in the order of their numbers.
pub open spec fn by_number(parts: Seq<(u32, PartView)>) -> Seq<(u32, PartView)>
    decreases parts.len(),
{
    if parts.len() == 0 {
        Seq::empty()
    } else {
        placed(by_number(parts.drop_last()), parts.last())
    }
}

/// What a list of numbered parts says.
pub open spec fn part_list(parts: Seq<(u32, PartEntry)>) -> Seq<(u32, PartView)> {
    parts.map_values(|p: (u32, PartEntry)| (p.0, p.1@))
}

proof fn lemma_placed_at(ordered: Seq<(u32, PartView)>, part: (u32, PartView), k: int)
    requires
        0 <= k <= ordered.len(),
        forall|i: int| k <= i < ordered.len() ==> (#[trigger] ordered[i]).0 > part.0,
        k == 0 || ordered[k - 1].0 <= part.0,
    ensures
        placed(ordered, part) == ordered.insert(k, part),
    decreases ordered.len(),
{
    if ordered.len() > k {
        assert(ordered[ordered.len() - 1].0 > part.0);
        assert forall|i: int| k <= i < ordered.drop_last().len() implies (
        #[trigger] ordered.drop_last()[i]).0 > part.0 by {
            assert(ordered.drop_last()[i] == ordered[i]);
        }
        lemma_placed_at(ordered.drop_last(), part, k);
    }
    assert(placed(ordered, part) =~= ordered.insert(k, part));
}

/// Puts a part in its place.
fn place_part(ordered: &mut Vec<(u32, PartEntry)>, number: u32, part: PartEntry)
    ensures
        part_list(final(ordered)@) == placed(part_list(old(ordered)@), (number, part@)),
{
    let ghost before = part_list(ordered@);
    let ghost item = (number, part@);
    let mut k: usize = ordered.len();
    while k > 0 && ordered[k - 1].0 > number
        invariant
            k <= ordered@.len(),
            before == part_list(ordered@),
            forall|i: int| k <= i < before.len() ==> (#[trigger] before[i]).0 > number,
        decreases k,
    {
        assert(before[k - 1].0 == ordered@[k - 1].0);
        k = k - 1;
    }
    proof {
        if k > 0 {
            assert(before[k - 1].0 == ordered@[k - 1].0);
        }
        lemma_placed_at(before, item, k as int);
    }
    ordered.insert(k, (number, part));
    assert(part_list(ordered@) =~= before.insert(k as int, item));
}

/// The wanted parts of an upload in the order of their numbers, unless one is
/// missing or has another tag.
pub fn order_parts(upload: &UploadEntry, request: &CompleteMultipartUpload) -> (r: Option<
    Vec<(u32, PartEntry)>,
>)
    ensures
        match r {
            Some(parts) => {
                &&& has_parts(upload@.parts, wanted_parts(*request))
                &&& part_list(parts@) == by_number(chosen(upload@.parts, wanted_parts(*request)))
            },
            None => !has_parts(upload@.parts, wanted_parts(*request)),
        },
{
    let ghost wanted = wanted_parts(*request);
    let ghost parts = upload@.parts;
    let ghost all = chosen(parts, wanted);
    let mut ordered: Vec<(u32, PartEntry)> = Vec::new();
    let n: usize = request.parts.len();
    let mut i: usize = 0;
    assert(all.take(0) == Seq::<(u32, PartView)>::empty());
    assert(part_list(ordered@) =~= Seq::<(u32, PartView)>::empty());
    while i < n
        invariant
            i <= n,
            n == request.parts@.len(),
            wanted == wanted_parts(*request),
            parts == upload@.parts,
            all == chosen(parts, wanted),
            forall|k: int|
                0 <= k < i ==> parts.contains_key((#[trigger] wanted[k]).0)
                    && parts[wanted[k].0].etag == wanted[k].1,
            part_list(ordered@) == by_number(all.take(i as int)),
        decreases n - i,
    {
        assert(all.take(i + 1).drop_last() == all.take(i as int));
        let want: &CompletePart = &request.parts[i];
        assert(wanted[i as int] == want@);
        match upload.parts.get(&want.part_number) {
            Some(part) => {
                assert(parts.contains_key(want.part_number));
                assert(parts[want.part_number] == part@);
                if !str_eq(part.etag.as_str(), want.etag.as_str()) {
                    return None;
                }
                place_part(&mut ordered, want.part_number, part.clone());
                assert(all.take(i + 1).last() == (want.part_number, part@));
            },
            None => {
                assert(!parts.contains_key(wanted[i as int].0));
                return None;
            },
        }
        i = i + 1;
    }
    assert(all.take(n as int) == all);
    Some(ordered)
}

// ---------------------------------------------------------------------------
// CompleteMultipartUpload: the request
// ---------------------------------------------------------------------------

/// An object that is about to be put together from parts.
#[derive(Debug)]
pub struct CompleteJob {
    /// The key under which the object is known.
    pub object_key: String,
    pub upload_id: String,
    /// The path of the object below the serve directory.
    pub rel_path: FsPath,
    /// The path of the object.
    pub abs_path: FsPath,
    /// The path of the file that the parts go to first.
    pub tmp_path: FsPath,
    pub custom_headers: Vec<HeaderEntry>,
    /// The parts in the order in which they make up the object.
    pub parts: Vec<(u32, PartEntry)>,
}

/// What a [`CompleteJob`] says.
pub struct CompleteJobView {
    pub object_key: Seq<char>,
    pub upload_id: Seq<char>,
    pub rel_path: Seq<u8>,
    pub abs_path: Seq<u8>,
    pub tmp_path: Seq<u8>,
    pub custom_headers: Seq<(Seq<char>, Seq<char>)>,
    pub parts: Seq<(u32, PartView)>,
}

impl View for CompleteJob {
    type V = CompleteJobView;

    open spec fn view(&self) -> CompleteJobView {
        CompleteJobView {
            object_key: self.object_key@,
            upload_id: self.upload_id@,
            rel_path: self.rel_path@,
            abs_path: self.abs_path@,
            tmp_path: self.tmp_path@,
            custom_headers: metadata_cache::header_list(self.custom_headers@),
            parts: part_list(self.parts@),
        }
    }
}

/// How a CompleteMultipartUpload request begins.
#[derive(Debug)]
pub enum CompleteStart {
    /// It is answered at once.
    Refuse(Response),
    /// The parts are put together in the temporary file.
    Assemble(CompleteJob),
}

/// What a [`CompleteStart`] says.
pub enum CompleteStartView {
    Refuse(ResponseView),
    Assemble(CompleteJobView),
}

impl View for CompleteStart {
    type V = CompleteStartView;

    open spec fn view(&self) -> CompleteStartView {
        match self {
            CompleteStart::Refuse(resp) => CompleteStartView::Refuse(resp@),
            CompleteStart::Assemble(job) => CompleteStartView::Assemble(job@),
        }
    }
}

/// The numbers and tags that a request asks for, if it could be read.
pub open spec fn wanted_of(request: Option<CompleteMultipartUpload>) -> Option<
    Seq<(u32, Seq<char>)>,
> {
    match request {
        Some(r) => Some(wanted_parts(r)),
        None => None,
    }
}

/// How a CompleteMultipartUpload request begins: that it could be read is
/// checked first, then that the upload exists, that it is one of `key`, that it
/// has the wanted parts, and that the key stands for a path. The temporary file
/// gets its name from `token`.
pub open spec fn planned_complete(
    uploads: Map<Seq<char>, UploadView>,
    root: Seq<u8>,
    key: Seq<char>,
    id: Seq<char>,
    wanted: Option<Seq<(u32, Seq<char>)>>,
    token: Seq<char>,
) -> CompleteStartView {
    match wanted {
        None => CompleteStartView::Refuse(
            s3_xml_compat::error_response(S3ErrorKind::MalformedXml),
        ),
        Some(w) => if !uploads.contains_key(id) {
            CompleteStartView::Refuse(s3_xml_compat::error_response(S3ErrorKind::NoSuchUpload))
        } else if put_object::object_key(uploads[id].key) != put_object::object_key(key) {
            CompleteStartView::Refuse(put_object::foreign_upload())
        } else if !has_parts(uploads[id].parts, w) {
            CompleteStartView::Refuse(s3_xml_compat::error_response(S3ErrorKind::InvalidPart))
        } else {
            match put_object::safe_path(encode_utf8(key)) {
                None => CompleteStartView::Refuse(put_object::invalid_key()),
                Some(rel) => {
                    let target = fs_path::joined(root, rel);
                    CompleteStartView::Assemble(
                        CompleteJobView {
                            object_key: put_object::object_key(key),
                            upload_id: id,
                            rel_path: rel,
                            abs_path: target,
                            tmp_path: put_object::temp_file(target, token),
                            custom_headers: uploads[id].custom_headers,
                            parts: by_number(chosen(uploads[id].parts, w)),
                        },
                    )
                },
            }
        },
    }
}

/// Plans a CompleteMultipartUpload request whose temporary file gets its name
/// from `token`. There is no `request` if it could not be read.
pub fn plan_complete(
    uploads: &UploadTable,
    serve_dir: &FsPath,
    key: &str,
    upload_id: &str,
    request: Option<CompleteMultipartUpload>,
    token: &str,
) -> (r: CompleteStart)
    requires
        uploads.wf(),
    ensures
        r@ == planned_complete(
            uploads@,
            serve_dir@,
            key@,
            upload_id@,
            wanted_of(request),
            token@,
        ),
{
    let request: CompleteMultipartUpload = match request {
        Some(r) => r,
        None => return CompleteStart::Refuse(s3_error(S3ErrorKind::MalformedXml)),
    };
    let upload: &UploadEntry = match uploads.get(upload_id) {
        Some(u) => u,
        None => return CompleteStart::Refuse(s3_error(S3ErrorKind::NoSuchUpload)),
    };
    if !is_same_object(upload.key.as_str(), key) {
        return CompleteStart::Refuse(
            s3_error(
                S3ErrorKind::InvalidArgument("The upload ID is not associated with this key."),
            ),
        );
    }
    let parts: Vec<(u32, PartEntry)> = match order_parts(upload, &request) {
        Some(p) => p,
        None => return CompleteStart::Refuse(s3_error(S3ErrorKind::InvalidPart)),
    };
    let rel_path: FsPath = match sanitize_key(key) {
        Some(p) => p,
        None => return CompleteStart::Refuse(
            s3_error(S3ErrorKind::InvalidArgument("The specified object key is invalid.")),
        ),
    };
    let abs_path: FsPath = serve_dir.join(&rel_path);
    let tmp_path: FsPath = temp_path(&abs_path, token);
    CompleteStart::Assemble(
        CompleteJob {
            object_key: to_object_key(key),
            upload_id: upload_id.to_owned(),
            rel_path,
            abs_path,
            tmp_path,
            custom_headers: clone_headers(&upload.custom_headers),
            parts,
        },
    )
}

/// CompleteMultipartUpload: assemble parts atomically, update store.
///
/// Begins the request, with a temporary file of a random name. There is no
/// `request` if it could not be read.
pub fn complete_multipart_upload(
    uploads: &UploadTable,
    serve_dir: &FsPath,
    key: &str,
    upload_id: &str,
    request: Option<CompleteMultipartUpload>,
) -> (r: CompleteStart)
    requires
        uploads.wf(),
    ensures
        exists|token: Seq<char>|
            ids::is_simple_id(token) && r@ == #[trigger] planned_complete(
                uploads@,
                serve_dir@,
                key@,
                upload_id@,
                wanted_of(request),
                token,
            ),
{
    let token: String = random_simple_id();
    plan_complete(uploads, serve_dir, key, upload_id, request, token.as_str())
}

// ---------------------------------------------------------------------------
// CompleteMultipartUpload: the object
// ---------------------------------------------------------------------------

/// The number of bytes in the parts.
pub open spec fn total_size(parts: Seq<(u32, PartView)>) -> nat
    decreases parts.len(),
{
    if parts.len() == 0 {
        0
    } else {
        total_size(parts.drop_last()) + parts.last().1.size as nat
    }
}

/// The checksums of the parts.
pub open spec fn digests_of(parts: Seq<(u32, PartView)>) -> Seq<Md5DigestBytes> {
    parts.map_values(|p: (u32, PartView)| p.1.md5_bytes)
}

proof fn lemma_total_size_monotone(parts: Seq<(u32, PartView)>, k: int)
    requires
        0 <= k <= parts.len(),
    ensures
        total_size(parts.take(k)) <= total_size(parts),
    decreases parts.len(),
{
    if k < parts.len() {
        lemma_total_size_monotone(parts.drop_last(), k);
        assert(parts.drop_last().take(k) == parts.take(k));
    } else {
        assert(parts.take(k) == parts);
    }
}

/// The number of bytes in the parts, unless that is too large a number.
pub fn size_of_parts(parts: &Vec<(u32, PartEntry)>) -> (r: Option<u64>)
    ensures
        match r {
            Some(n) => n == total_size(part_list(parts@)),
            None => total_size(part_list(parts@)) > u64::MAX,
        },
{
    let ghost list = part_list(parts@);
    let mut total: u64 = 0;
    let n: usize = parts.len();
    let mut i: usize = 0;
    assert(list.take(0) == Seq::<(u32, PartView)>::empty());
    while i < n
        invariant
            i <= n,
            n == parts@.len(),
            list == part_list(parts@),
            total == total_size(list.take(i as int)),
        decreases n - i,
    {
        assert(list.take(i + 1).drop_last() == list.take(i as int));
        assert(list.take(i + 1).last() == list[i as int]);
        match total.checked_add(parts[i].1.size) {
            Some(t) => total = t,
            None => {
                proof {
                    lemma_total_size_monotone(list, i + 1);
                }
                return None;
            },
        }
        i = i + 1;
    }
    assert(list.take(n as int) == list);
    Some(total)
}

/// An object that is being put together from parts, one after the other.
pub struct Assembly {
    parts: Vec<(u32, PartEntry)>,
    next: usize,
    total: u64,
    stream: Md5Stream,
    digests: Vec<Md5DigestBytes>,
}

/// What an [`Assembly`] says.
pub struct AssemblyView {
    /// The parts.
    pub parts: Seq<(u32, PartView)>,
    /// How many of them have been taken in.
    pub done: nat,
    /// The data in those.
    pub data: Seq<u8>,
}

impl View for Assembly {
    type V = AssemblyView;

    closed spec fn view(&self) -> AssemblyView {
        AssemblyView {
            parts: part_list(self.parts@),
            done: self.next as nat,
            data: self.stream@,
        }
    }
}

/// An object that has been put together from parts.
#[derive(Debug)]
pub struct Assembled {
    pub size: u64,
    pub etag: String,
    pub md5_hex: String,
    pub modified: UnixTime,
}

impl Assembly {
    /// Whether size and checksums are those of the parts that were taken in.
    pub closed spec fn wf(&self) -> bool {
        &&& self.next <= self.parts@.len()
        &&& self.stream.wf()
        &&& total_size(part_list(self.parts@)) <= u64::MAX
        &&& self.total == total_size(part_list(self.parts@).take(self.next as int))
        &&& self.digests@ == digests_of(part_list(self.parts@).take(self.next as int))
    }

    /// An object that is to be made of `parts`.
    pub fn new(parts: Vec<(u32, PartEntry)>) -> (r: Assembly)
        requires
            total_size(part_list(parts@)) <= u64::MAX,
        ensures
            r.wf(),
            r@ == (AssemblyView { parts: part_list(parts@), done: 0, data: Seq::empty() }),
    {
        let r = Assembly {
            parts,
            next: 0,
            total: 0,
            stream: Md5Stream::new(),
            digests: Vec::new(),
        };
        assert(part_list(r.parts@).take(0) =~= Seq::<(u32, PartView)>::empty());
        assert(digests_of(Seq::<(u32, PartView)>::empty()) =~= Seq::<Md5DigestBytes>::empty());
        r
    }

    /// The path of the part that comes next, unless all have been taken in.
    pub fn next_path(&self) -> (r: Option<&FsPath>)
        requires
            self.wf(),
        ensures
            match r {
                Some(p) => self@.done < self@.parts.len() && p@ == self@.parts[self@.done as int].1.abs_path,
                None => self@.done == self@.parts.len(),
            },
    {
        if self.next < self.parts.len() {
            Some(&self.parts[self.next].1.abs_path)
        } else {
            None
        }
    }

    /// Takes in the next part, which consists of `data`.
    pub fn add_part(&mut self, data: &[u8])
        requires
            old(self).wf(),
            old(self)@.done < old(self)@.parts.len(),
        ensures
            final(self).wf(),
            final(self)@ == (AssemblyView {
                done: old(self)@.done + 1,
                data: old(self)@.data + data@,
                ..old(self)@
            }),
    {
        let ghost list = part_list(self.parts@);
        let ghost k = self.next as int;
        proof {
            assert(list.take(k + 1).drop_last() == list.take(k));
            assert(list.take(k + 1).last() == list[k]);
            lemma_total_size_monotone(list, k + 1);
        }
        assert(k < self.parts.len());
        let part: &PartEntry = &self.parts[self.next].1;
        let digest: Md5DigestBytes = part.md5_bytes;
        self.total = self.total + part.size;
        self.stream.update(data);
        self.digests.push(digest);
        self.next = self.next + 1;
        assert(self.digests@ =~= digests_of(list.take(k + 1)));
    }

    /// The object, once all parts have been taken in, in a file modified at
    /// `modified`.
    pub fn finish(self, modified: UnixTime) -> (r: Assembled)
        requires
            self.wf(),
            self@.done == self@.parts.len(),
        ensures
            r.size == total_size(self@.parts),
            r.etag@ == etag::multipart_etag_of(digests_of(self@.parts)),
            r.md5_hex@ == etag::hex(etag::md5_of(self@.data)),
            r.modified == modified,
            headers::valid_header_value(r.etag@),
    {
        assert(self@.parts.take(self.next as int) == self@.parts);
        let etag: String = multipart_etag_from_part_digests(self.digests.as_slice());
        let digest: Md5DigestBytes = self.stream.finish();
        proof {
            etag::lemma_tags_are_header_values(digest@, digests_of(self@.parts));
        }
        Assembled { size: self.total, etag, md5_hex: md5_hex_from_digest_bytes(&digest), modified }
    }
}

/// Decides about the temporary file once the parts have been put together in
/// it, or have failed to be.
pub fn assembly_written(written: bool) -> (r: Written)
    ensures
        match r {
            Written::Discard(resp) => !written && resp@ == s3_xml_compat::error_response(
                S3ErrorKind::Internal,
            ),
            Written::Rename => written,
        },
{
    if written {
        Written::Rename
    } else {
        Written::Discard(s3_error(S3ErrorKind::Internal))
    }
}

/// The entry for an object that has been put together from parts.
pub open spec fn complete_entry(job: CompleteJobView, object: Assembled) -> EntryView {
    EntryView {
        abs_path: job.abs_path,
        size: object.size,
        modified: object.modified,
        etag: object.etag@,
        checksums: metadata_cache::md5_only(object.md5_hex@),
        custom_headers: job.custom_headers,
    }
}

/// The metadata to cache for an object that has been put together from parts.
pub fn complete_metadata(job: &CompleteJob, object: &Assembled) -> (r: ObjectMetadataCache)
    ensures
        r@ == store::entry_metadata(complete_entry(job@, *object)),
{
    ObjectMetadataCache::from_current_state(
        object.modified,
        object.etag.clone(),
        ChecksumSet::of_md5(object.md5_hex.clone()),
        clone_headers(&job.custom_headers),
    )
}

/// Indexes the object once the temporary file has taken its place. If it has
/// failed to do so, the request ends with the response.
pub fn complete_renamed(
    store: &mut FileStore,
    job: &CompleteJob,
    object: &Assembled,
    renamed: bool,
) -> (r: Option<Response>)
    ensures
        final(store).root() == old(store).root(),
        final(store)@ == if renamed {
            old(store)@.insert(job@.object_key, complete_entry(job@, *object))
        } else {
            old(store)@
        },
        match r {
            Some(resp) => !renamed && resp@ == s3_xml_compat::error_response(
                S3ErrorKind::Internal,
            ),
            None => renamed,
        },
{
    if !renamed {
        return Some(s3_error(S3ErrorKind::Internal));
    }
    let entry = FileEntry {
        abs_path: job.abs_path.clone(),
        size: object.size,
        modified: object.modified,
        etag: object.etag.clone(),
        checksums: ChecksumSet::of_md5(object.md5_hex.clone()),
        custom_headers: clone_headers(&job.custom_headers),
    };
    store.upsert(job.object_key.clone(), entry);
    None
}

/// The result of a CompleteMultipartUpload request for `key`.
pub fn complete_result(key: &str, object: &Assembled) -> (r: CompleteMultipartUploadResult)
    ensures
        r.key@ == key@,
        r.etag@ == object.etag@,
{
    CompleteMultipartUploadResult { key: key.to_owned(), etag: object.etag.clone() }
}

/// Ends an upload. Hands out the paths of its parts, whose files are to be
/// removed.
pub fn close_upload(uploads: &mut UploadTable, id: &str) -> (r: Vec<FsPath>)
    requires
        old(uploads).wf(),
    ensures
        final(uploads).wf(),
        final(uploads)@ == old(uploads)@.remove(id@),
        if old(uploads)@.contains_key(id@) {
            multipart_state::are_part_paths(r@, old(uploads)@[id@].parts)
        } else {
            r@.len() == 0
        },
{
    match uploads.remove(id) {
        Some(upload) => part_paths(&upload),
        None => Vec::new(),
    }
}

/// The response to a CompleteMultipartUpload request that has stored an object
/// under the tag `tag`.
pub open spec fn completed_response(element: Seq<char>, tag: Seq<char>) -> ResponseView {
    let resp = s3_xml_compat::xml_response(200, s3_xml_compat::xml_document(element));
    ResponseView { headers: resp.headers.push(response::header("etag"@, tag)), ..resp }
}

/// The response that carries the result of CompleteMultipartUpload. `element`
/// is its XML form, unless it has none.
pub fn respond_completed(element: Option<&str>, tag: &str) -> (r: Response)
    requires
        headers::valid_header_value(tag@),
    ensures
        r@ == match element {
            Some(e) => completed_response(e@, tag@),
            None => s3_xml_compat::error_response(S3ErrorKind::Internal),
        },
{
    match element {
        Some(e) => {
            proof {
                response::lemma_names_of_headers_sent();
            }
            let mut resp: Response = respond_xml(200, to_xml_bytes(e));
            resp.add_header("etag", tag);
            resp
        },
        None => s3_error(S3ErrorKind::Internal),
    }
}

// ---------------------------------------------------------------------------
// AbortMultipartUpload
// ---------------------------------------------------------------------------

/// The end of an AbortMultipartUpload request.
#[derive(Debug)]
pub struct AbortOutcome {
    pub response: Response,
    /// Files to remove.
    pub stale: Vec<FsPath>,
}

/// AbortMultipartUpload: clean up all temp files and remove upload state.
///
/// An upload of another key is left alone.
pub fn abort_multipart_upload(uploads: &mut UploadTable, key: &str, id: &str) -> (r: AbortOutcome)
    requires
        old(uploads).wf(),
    ensures
        final(uploads).wf(),
        if !old(uploads)@.contains_key(id@) {
            &&& final(uploads)@ == old(uploads)@
            &&& r.response@ == s3_xml_compat::error_response(S3ErrorKind::NoSuchUpload)
            &&& r.stale@.len() == 0
        } else if put_object::object_key(old(uploads)@[id@].key) != put_object::object_key(key@) {
            &&& final(uploads)@ == old(uploads)@
            &&& r.response@ == put_object::foreign_upload()
            &&& r.stale@.len() == 0
        } else {
            &&& final(uploads)@ == old(uploads)@.remove(id@)
            &&& r.response@ == response::no_content()
            &&& multipart_state::are_part_paths(r.stale@, old(uploads)@[id@].parts)
        },
{
    let owned: bool = match uploads.get(id) {
        Some(upload) => is_same_object(upload.key.as_str(), key),
        None => return AbortOutcome {
            response: s3_error(S3ErrorKind::NoSuchUpload),
            stale: Vec::new(),
        },
    };
    if owned {
        let stale: Vec<FsPath> = close_upload(uploads, id);
        AbortOutcome { response: Response::new(204), stale }
    } else {
        AbortOutcome {
            response: s3_error(
                S3ErrorKind::InvalidArgument("The upload ID is not associated with this key."),
            ),
            stale: Vec::new(),
        }
    }
}

// ---------------------------------------------------------------------------
// Laws
// ---------------------------------------------------------------------------

/// Whether parts are in the order of their numbers.
pub open spec fn ascending(parts: Seq<(u32, PartView)>) -> bool {
    forall|i: int, j: int|
        0 <= i < j < parts.len() ==> (#[trigger] parts[i]).0 <= (#[trigger] parts[j]).0
}

proof fn lemma_placed(ordered: Seq<(u32, PartView)>, part: (u32, PartView))
    requires
        ascending(ordered),
    ensures
        ascending(placed(ordered, part)),
        placed(ordered, part).len() == ordered.len() + 1,
        placed(ordered, part).to_multiset() == ordered.to_multiset().insert(part),
        forall|i: int|
            0 <= i < placed(ordered, part).len() ==> (#[trigger] placed(ordered, part)[i]).0
                <= part.0 || (ordered.len() > 0 && placed(ordered, part)[i].0
                <= ordered.last().0),
    decreases ordered.len(),
{
    broadcast use vstd::seq_lib::group_to_multiset_ensures;

    if ordered.len() == 0 || ordered.last().0 <= part.0 {
        assert forall|i: int| 0 <= i < ordered.len() implies (#[trigger] ordered[i]).0
            <= ordered.last().0 by {
            assert(ordered.last() == ordered[ordered.len() - 1]);
        }
    } else {
        let front = ordered.drop_last();
        let last = ordered.last();
        assert(last == ordered[ordered.len() - 1]);
        assert forall|i: int, j: int| 0 <= i < j < front.len() implies (#[trigger] front[i]).0 <= (
        #[trigger] front[j]).0 by {
            assert(front[i] == ordered[i] && front[j] == ordered[j]);
        }
        lemma_placed(front, part);
        let rest = placed(front, part);
        assert(rest.push(last).to_multiset() == rest.to_multiset().insert(last));
        assert(front.push(last) == ordered);
        assert(ordered.to_multiset() == front.to_multiset().insert(last));
        assert(rest.push(last).to_multiset() =~= ordered.to_multiset().insert(part));
        if front.len() > 0 {
            assert(front.last() == ordered[ordered.len() - 2]);
        }
    }
}

/// Putting parts in order neither loses nor doubles one.
pub proof fn law_parts_are_put_in_order(parts: Seq<(u32, PartView)>)
    ensures
        ascending(by_number(parts)),
        by_number(parts).len() == parts.len(),
        by_number(parts).to_multiset() == parts.to_multiset(),
    decreases parts.len(),
{
    broadcast use vstd::seq_lib::group_to_multiset_ensures;

    if parts.len() > 0 {
        law_parts_are_put_in_order(parts.drop_last());
        lemma_placed(by_number(parts.drop_last()), parts.last());
        assert(parts.drop_last().push(parts.last()) == parts);
    } else {
        assert(by_number(parts) =~= parts);
    }
}

proof fn lemma_one_order(a: Seq<(u32, PartView)>, b: Seq<(u32, PartView)>)
    requires
        ascending(a),
        ascending(b),
        a.to_multiset() == b.to_multiset(),
        forall|x: (u32, PartView), y: (u32, PartView)|
            #![trigger a.to_multiset().contains(x), a.to_multiset().contains(y)]
            a.to_multiset().contains(x) && a.to_multiset().contains(y) && x.0 == y.0 ==> x == y,
    ensures
        a == b,
    decreases a.len(),
{
    broadcast use vstd::seq_lib::group_to_multiset_ensures;
    broadcast use vstd::multiset::group_multiset_axioms;

    assert(a.len() == a.to_multiset().len());
    assert(b.len() == b.to_multiset().len());
    if a.len() > 0 {
        let x = a.last();
        let y = b.last();
        assert(a.contains(x)) by {
            assert(a[a.len() - 1] == x);
        }
        assert(b.contains(y)) by {
            assert(b[b.len() - 1] == y);
        }
        assert(a.to_multiset().contains(x));
        assert(b.to_multiset().contains(y));
        assert(b.contains(x) && a.contains(y));
        let i = choose|i: int| 0 <= i < a.len() && a[i] == y;
        let j = choose|j: int| 0 <= j < b.len() && b[j] == x;
        assert(y.0 <= x.0) by {
            assert(a[i].0 <= a[a.len() - 1].0);
        }
        assert(x.0 <= y.0) by {
            assert(b[j].0 <= b[b.len() - 1].0);
        }
        assert(x == y);
        let c = a.drop_last();
        let d = b.drop_last();
        assert(c.push(x) == a);
        assert(d.push(x) == b);
        assert(a.to_multiset() == c.to_multiset().insert(x));
        assert(b.to_multiset() == d.to_multiset().insert(x));
        assert(c.to_multiset() =~= a.to_multiset().remove(x));
        assert(d.to_multiset() =~= b.to_multiset().remove(x));
        assert forall|p: int, q: int| 0 <= p < q < c.len() implies (#[trigger] c[p]).0 <= (
        #[trigger] c[q]).0 by {
            assert(c[p] == a[p] && c[q] == a[q]);
        }
        assert forall|p: int, q: int| 0 <= p < q < d.len() implies (#[trigger] d[p]).0 <= (
        #[trigger] d[q]).0 by {
            assert(d[p] == b[p] && d[q] == b[q]);
        }
        assert forall|p: (u32, PartView), q: (u32, PartView)|
            #![trigger c.to_multiset().contains(p), c.to_multiset().contains(q)]
            c.to_multiset().contains(p) && c.to_multiset().contains(q) && p.0 == q.0 implies p
            == q by {
            assert(a.to_multiset().contains(p) && a.to_multiset().contains(q));
        }
        lemma_one_order(c, d);
    } else {
        assert(a =~= b);
    }
}

proof fn lemma_chosen_in_any_order(
    parts: Map<u32, PartView>,
    wanted: Seq<(u32, Seq<char>)>,
    other: Seq<(u32, Seq<char>)>,
)
    requires
        wanted.to_multiset() == other.to_multiset(),
    ensures
        chosen(parts, wanted).to_multiset() == chosen(parts, other).to_multiset(),
    decreases wanted.len(),
{
    broadcast use vstd::seq_lib::group_to_multiset_ensures;
    broadcast use vstd::multiset::group_multiset_axioms;

    assert(wanted.len() == wanted.to_multiset().len());
    assert(other.len() == other.to_multiset().len());
    let a = chosen(parts, wanted);
    let b = chosen(parts, other);
    if wanted.len() > 0 {
        let front = wanted.drop_last();
        let w = wanted.last();
        assert(wanted[wanted.len() - 1] == w);
        assert(wanted.to_multiset().contains(w));
        assert(other.contains(w));
        let j = choose|j: int| 0 <= j < other.len() && other[j] == w;
        let rest = other.remove(j);
        assert(front.push(w) == wanted);
        assert(front.to_multiset() =~= wanted.to_multiset().remove(w));
        assert(rest.to_multiset() == other.to_multiset().remove(w));
        lemma_chosen_in_any_order(parts, front, rest);
        let item = (w.0, parts[w.0]);
        assert(a == chosen(parts, front).push(item));
        assert(b.remove(j) == chosen(parts, rest));
        assert(b[j] == item);
        assert(b.contains(item));
        assert(b.remove(j).to_multiset() == b.to_multiset().remove(item));
        assert(a.to_multiset() =~= b.to_multiset());
    } else {
        assert(wanted =~= other);
    }
}

proof fn lemma_has_parts_in_any_order(
    parts: Map<u32, PartView>,
    wanted: Seq<(u32, Seq<char>)>,
    other: Seq<(u32, Seq<char>)>,
)
    requires
        wanted.to_multiset() == other.to_multiset(),
        has_parts(parts, wanted),
    ensures
        has_parts(parts, other),
{
    broadcast use vstd::seq_lib::group_to_multiset_ensures;

    assert forall|i: int| 0 <= i < other.len() implies parts.contains_key((#[trigger] other[i]).0)
        && parts[other[i].0].etag == other[i].1 by {
        assert(other.contains(other[i]));
        assert(other.to_multiset().count(other[i]) > 0);
        assert(wanted.contains(other[i]));
        let j = choose|j: int| 0 <= j < wanted.len() && wanted[j] == other[i];
        assert(parts.contains_key(wanted[j].0));
    }
}

/// The order in which a request names the parts makes no difference.
pub proof fn law_order_of_the_request_does_not_matter(
    parts: Map<u32, PartView>,
    wanted: Seq<(u32, Seq<char>)>,
    other: Seq<(u32, Seq<char>)>,
)
    requires
        wanted.to_multiset() == other.to_multiset(),
    ensures
        has_parts(parts, wanted) == has_parts(parts, other),
        by_number(chosen(parts, wanted)) == by_number(chosen(parts, other)),
{
    broadcast use vstd::seq_lib::group_to_multiset_ensures;

    if has_parts(parts, wanted) {
        lemma_has_parts_in_any_order(parts, wanted, other);
    }
    if has_parts(parts, other) {
        lemma_has_parts_in_any_order(parts, other, wanted);
    }

    let a = chosen(parts, wanted);
    let b = chosen(parts, other);
    lemma_chosen_in_any_order(parts, wanted, other);
    law_parts_are_put_in_order(a);
    law_parts_are_put_in_order(b);
    let m = by_number(a).to_multiset();
    assert forall|x: (u32, PartView), y: (u32, PartView)|
        #![trigger m.contains(x), m.contains(y)]
        m.contains(x) && m.contains(y) && x.0 == y.0 implies x == y by {
        assert(a.contains(x) && a.contains(y));
    }
    lemma_one_order(by_number(a), by_number(b));
}

/// An upload that was completed or aborted does not exist anymore: neither can
/// parts be added to it, nor can it be completed.
pub proof fn law_closed_upload_is_gone(
    uploads: Map<Seq<char>, UploadView>,
    root: Seq<u8>,
    key: Seq<char>,
    id: Seq<char>,
    number: u32,
    wanted: Seq<(u32, Seq<char>)>,
    token: Seq<char>,
)
    requires
        1 <= number <= 10000,
    ensures
        put_object::planned_part(uploads.remove(id), root, key, Some(number), Some(id), token)
            == put_object::PartStartView::Refuse(
            s3_xml_compat::error_response(S3ErrorKind::NoSuchUpload),
        ),
        planned_complete(uploads.remove(id), root, key, id, Some(wanted), token)
            == CompleteStartView::Refuse(s3_xml_compat::error_response(S3ErrorKind::NoSuchUpload)),
{
}

/// A new upload takes parts of its key, and whatever parts it has been given,
/// its object gets the metadata that the upload was created with.
pub proof fn law_new_upload_takes_parts(
    uploads: Map<Seq<char>, UploadView>,
    root: Seq<u8>,
    key: Seq<char>,
    id: Seq<char>,
    number: u32,
    request: Seq<(Seq<char>, Seq<u8>)>,
    parts: Map<u32, PartView>,
    wanted: Seq<(u32, Seq<char>)>,
    token: Seq<char>,
)
    requires
        1 <= number <= 10000,
    ensures
        put_object::planned_part(
            uploads.insert(id, new_upload(key, request)),
            root,
            key,
            Some(number),
            Some(id),
            token,
        ) is Write,
        planned_complete(
            uploads.insert(id, UploadView { parts, ..new_upload(key, request) }),
            root,
            key,
            id,
            Some(wanted),
            token,
        ) is Assemble <==> has_parts(parts, wanted) && put_object::safe_path(
            encode_utf8(key),
        ) is Some,
        planned_complete(
            uploads.insert(id, UploadView { parts, ..new_upload(key, request) }),
            root,
            key,
            id,
            Some(wanted),
            token,
        ) matches CompleteStartView::Assemble(job) ==> job.custom_headers
            == metadata_cache::user_metadata(request),
{
}

/// A part that was recorded is found under its number and its tag, and parts
/// that were recorded under other numbers still are.
pub proof fn law_recorded_part_is_found(
    uploads: Map<Seq<char>, UploadView>,
    id: Seq<char>,
    number: u32,
    part: PartView,
    wanted: Seq<(u32, Seq<char>)>,
)
    requires
        uploads.contains_key(id),
        forall|i: int|
            0 <= i < wanted.len() && (#[trigger] wanted[i]).0 != number
                ==> uploads[id].parts.contains_key(wanted[i].0)
                && uploads[id].parts[wanted[i].0].etag == wanted[i].1,
        forall|i: int|
            0 <= i < wanted.len() && (#[trigger] wanted[i]).0 == number ==> wanted[i].1
                == part.etag,
    ensures
        has_parts(multipart_state::with_part(uploads, id, number, part)[id].parts, wanted),
        multipart_state::with_part(uploads, id, number, part)[id].parts[number] == part,
        forall|other: Seq<char>|
            other != id ==> #[trigger] multipart_state::with_part(uploads, id, number, part)[other]
                == uploads[other],
{
}

/// Parts are in order exactly if no part has a greater number than one behind it.
pub proof fn law_order_of_parts(parts: Seq<(u32, PartView)>)
    ensures
        ascending(parts) <==> forall|i: int, j: int|
            0 <= i < j < parts.len() ==> (#[trigger] parts[i]).0 <= (#[trigger] parts[j]).0,
{
}

proof fn lemma_numbers_in_any_order(a: Seq<(u32, PartView)>, b: Seq<(u32, PartView)>)
    requires
        a.to_multiset() == b.to_multiset(),
    ensures
        a.map_values(|p: (u32, PartView)| p.0).to_multiset() == b.map_values(
            |p: (u32, PartView)| p.0,
        ).to_multiset(),
    decreases a.len(),
{
    broadcast use vstd::seq_lib::group_to_multiset_ensures;
    broadcast use vstd::multiset::group_multiset_axioms;

    let f = |p: (u32, PartView)| p.0;
    assert(a.len() == a.to_multiset().len());
    assert(b.len() == b.to_multiset().len());
    if a.len() > 0 {
        let front = a.drop_last();
        let x = a.last();
        assert(a[a.len() - 1] == x);
        assert(a.to_multiset().contains(x));
        assert(b.contains(x));
        let j = choose|j: int| 0 <= j < b.len() && b[j] == x;
        let rest = b.remove(j);
        assert(front.push(x) == a);
        assert(front.to_multiset() =~= a.to_multiset().remove(x));
        assert(rest.to_multiset() == b.to_multiset().remove(x));
        lemma_numbers_in_any_order(front, rest);
        let m = a.map_values(f);
        let n = b.map_values(f);
        assert(m == front.map_values(f).push(x.0));
        assert(n.remove(j) == rest.map_values(f));
        assert(n[j] == x.0);
        assert(n.contains(x.0));
        assert(n.remove(j).to_multiset() == n.to_multiset().remove(x.0));
        assert(m.to_multiset() =~= n.to_multiset());
    } else {
        assert(a =~= b);
    }
}

/// The parts that a request names are put in the order of their numbers: each is
/// the one that the upload has under that very number, the request names that
/// number, and the numbers are those that the request names, each as often.
pub proof fn law_ordered_parts_are_the_recorded_ones(
    parts: Map<u32, PartView>,
    wanted: Seq<(u32, Seq<char>)>,
)
    ensures
        ({
            let ordered = by_number(chosen(parts, wanted));
            &&& ordered.len() == wanted.len()
            &&& forall|i: int|
                0 <= i < ordered.len() ==> (#[trigger] ordered[i]).1 == parts[ordered[i].0]
            &&& forall|i: int|
                0 <= i < ordered.len() ==> exists|k: int|
                    0 <= k < wanted.len() && (#[trigger] wanted[k]).0 == (#[trigger] ordered[i]).0
            &&& forall|i: int, j: int|
                0 <= i < j < ordered.len() ==> (#[trigger] ordered[i]).0 <= (
                #[trigger] ordered[j]).0
            &&& ordered.map_values(|p: (u32, PartView)| p.0).to_multiset() == wanted.map_values(
                |w: (u32, Seq<char>)| w.0,
            ).to_multiset()
        }),
{
    broadcast use vstd::seq_lib::group_to_multiset_ensures;

    let all = chosen(parts, wanted);
    let ordered = by_number(all);
    law_parts_are_put_in_order(all);
    lemma_numbers_in_any_order(ordered, all);
    assert(all.map_values(|p: (u32, PartView)| p.0) =~= wanted.map_values(
        |w: (u32, Seq<char>)| w.0,
    ));
    assert forall|i: int| 0 <= i < ordered.len() implies (#[trigger] ordered[i]).1
        == parts[ordered[i].0] && exists|k: int|
        0 <= k < wanted.len() && (#[trigger] wanted[k]).0 == ordered[i].0 by {
        assert(ordered.contains(ordered[i]));
        assert(ordered.to_multiset().count(ordered[i]) > 0);
        assert(all.contains(ordered[i]));
        let k = choose|k: int| 0 <= k < all.len() && all[k] == ordered[i];
        assert(wanted[k].0 == ordered[i].0);
    }
}

proof fn lemma_ordered_parts_stay(parts: Seq<(u32, PartView)>)
    requires
        ascending(parts),
    ensures
        by_number(parts) == parts,
    decreases parts.len(),
{
    if parts.len() > 0 {
        let front = parts.drop_last();
        assert forall|i: int, j: int| 0 <= i < j < front.len() implies (#[trigger] front[i]).0 <= (
        #[trigger] front[j]).0 by {
            assert(front[i] == parts[i] && front[j] == parts[j]);
        }
        lemma_ordered_parts_stay(front);
        if front.len() > 0 {
            assert(front.last() == parts[front.len() - 1]);
            assert(parts[front.len() - 1].0 <= parts[parts.len() - 1].0);
        }
        assert(front.push(parts.last()) == parts);
    }
}

/// A request that names the parts in the order of their numbers gets them in that
/// order: the parts 1 to `n`, say, one behind the other.
pub proof fn law_parts_named_in_order_stay_in_order(
    parts: Map<u32, PartView>,
    wanted: Seq<(u32, Seq<char>)>,
)
    requires
        forall|i: int, j: int|
            0 <= i < j < wanted.len() ==> (#[trigger] wanted[i]).0 <= (#[trigger] wanted[j]).0,
    ensures
        by_number(chosen(parts, wanted)).len() == wanted.len(),
        forall|i: int|
            0 <= i < wanted.len() ==> #[trigger] by_number(chosen(parts, wanted))[i] == (
                wanted[i].0,
                parts[wanted[i].0],
            ),
{
    let all = chosen(parts, wanted);
    assert forall|i: int, j: int| 0 <= i < j < all.len() implies (#[trigger] all[i]).0 <= (
    #[trigger] all[j]).0 by {
        assert(wanted[i].0 <= wanted[j].0);
    }
    lemma_ordered_parts_stay(all);
}

/// An upload has the parts of a request exactly if it has one of each number, and
/// with the tag that the request gives.
pub proof fn law_parts_of_a_request(parts: Map<u32, PartView>, wanted: Seq<(u32, Seq<char>)>)
    ensures
        has_parts(parts, wanted) <==> forall|i: int|
            #![trigger wanted[i]]
            0 <= i < wanted.len() ==> parts.contains_key(wanted[i].0) && parts[wanted[i].0].etag
                == wanted[i].1,
{
}

/// An upload is completed exactly if the request could be read, the upload exists
/// and is one of the key, it has all parts that are named, and the key has a
/// path. The object then is that of the key, in the file of the key, from the
/// parts of the upload, and with the metadata of the upload.
pub proof fn law_upload_is_completed_under_its_key(
    uploads: Map<Seq<char>, UploadView>,
    root: Seq<u8>,
    key: Seq<char>,
    id: Seq<char>,
    wanted: Option<Seq<(u32, Seq<char>)>>,
    token: Seq<char>,
)
    ensures
        ({
            let plan = planned_complete(uploads, root, key, id, wanted, token);
            &&& plan is Assemble <==> {
                &&& wanted is Some
                &&& uploads.contains_key(id)
                &&& put_object::object_key(uploads[id].key) == put_object::object_key(key)
                &&& has_parts(uploads[id].parts, wanted->0)
                &&& put_object::safe_path(encode_utf8(key)) is Some
            }
            &&& plan matches CompleteStartView::Assemble(job) ==> {
                &&& job.object_key == put_object::object_key(key)
                &&& job.upload_id == id
                &&& job.rel_path == encode_utf8(put_object::object_key(key))
                &&& job.abs_path == fs_path::joined(root, job.rel_path)
                &&& job.tmp_path == put_object::temp_file(job.abs_path, token)
                &&& job.custom_headers == uploads[id].custom_headers
                &&& job.parts == by_number(chosen(uploads[id].parts, wanted->0))
            }
        }),
{
    put_object::law_path_of_a_key(key);
}

/// A request to complete an upload is refused because it could not be read first,
/// then because the upload is not known, then because it is one of another key,
/// then for a part that it does not have, and last for the key.
pub proof fn law_completion_is_refused(
    uploads: Map<Seq<char>, UploadView>,
    root: Seq<u8>,
    key: Seq<char>,
    id: Seq<char>,
    wanted: Option<Seq<(u32, Seq<char>)>>,
    token: Seq<char>,
)
    ensures
        planned_complete(uploads, root, key, id, wanted, token)
            matches CompleteStartView::Refuse(response) ==> response
            == s3_xml_compat::error_response(
            if wanted is None {
                S3ErrorKind::MalformedXml
            } else if !uploads.contains_key(id) {
                S3ErrorKind::NoSuchUpload
            } else if put_object::object_key(uploads[id].key) != put_object::object_key(key) {
                S3ErrorKind::InvalidArgument("The upload ID is not associated with this key.")
            } else if !has_parts(uploads[id].parts, wanted->0) {
                S3ErrorKind::InvalidPart
            } else {
                S3ErrorKind::InvalidArgument("The specified object key is invalid.")
            },
        ),
{
}

/// The object of an upload is stored where an object that is put under its key
/// would be.
pub proof fn law_completed_object_is_where_a_put_would_be(
    uploads: Map<Seq<char>, UploadView>,
    objects: Map<Seq<char>, EntryView>,
    root: Seq<u8>,
    key: Seq<char>,
    id: Seq<char>,
    wanted: Option<Seq<(u32, Seq<char>)>>,
    request: Seq<(Seq<char>, Seq<u8>)>,
    token: Seq<char>,
)
    ensures
        planned_complete(uploads, root, key, id, wanted, token)
            matches CompleteStartView::Assemble(a) ==> (put_object::planned_put(
            objects,
            root,
            key,
            request,
            token,
        ) matches put_object::PutStartView::Write(b) ==> a.object_key == b.object_key && a.rel_path
            == b.rel_path && a.abs_path == b.abs_path && a.tmp_path == b.tmp_path),
{
}

/// The size of parts is the sum of their sizes.
pub proof fn law_sizes_add_up(a: Seq<(u32, PartView)>, b: Seq<(u32, PartView)>)
    ensures
        total_size(a + b) == total_size(a) + total_size(b),
        a.len() == 0 ==> total_size(a) == 0,
        a.len() == 1 ==> total_size(a) == a[0].1.size,
    decreases b.len(),
{
    if b.len() == 0 {
        assert(a + b == a);
    } else {
        law_sizes_add_up(a, b.drop_last());
        assert((a + b).drop_last() == a + b.drop_last());
    }
    if a.len() == 1 {
        assert(total_size(a.drop_last()) == 0);
    }
}

/// The checksums of parts are those of each, in their order.
pub proof fn law_checksums_of_parts(parts: Seq<(u32, PartView)>)
    ensures
        digests_of(parts).len() == parts.len(),
        forall|i: int|
            0 <= i < parts.len() ==> #[trigger] digests_of(parts)[i] == parts[i].1.md5_bytes,
{
}

/// The object of an upload is known by the file of the job, by what was put
/// together, and by the metadata of the upload.
pub proof fn law_entry_of_an_upload(job: CompleteJobView, object: Assembled)
    ensures
        complete_entry(job, object).abs_path == job.abs_path,
        complete_entry(job, object).size == object.size,
        complete_entry(job, object).modified == object.modified,
        complete_entry(job, object).etag == object.etag@,
        complete_entry(job, object).checksums.md5 == object.md5_hex@,
        complete_entry(job, object).checksums.crc32 is None,
        complete_entry(job, object).checksums.crc64nvme is None,
        complete_entry(job, object).custom_headers == job.custom_headers,
{
}

/// The completion of an upload is answered with the status 200, the tag of the
/// object, and a document that holds the result.
pub proof fn law_completed_response_carries_the_tag(element: Seq<char>, tag: Seq<char>)
    ensures
        completed_response(element, tag).status == 200,
        completed_response(element, tag).headers == seq![
            ("content-type"@, encode_utf8("application/xml"@)),
            ("etag"@, encode_utf8(tag)),
        ],
        completed_response(element, tag).body == response::BodyView::Bytes(
            s3_xml_compat::xml_document(element),
        ),
{
}

/// A new upload is one of its key, with the metadata of the request and without
/// parts.
pub proof fn law_new_upload(key: Seq<char>, request: Seq<(Seq<char>, Seq<u8>)>)
    ensures
        new_upload(key, request).key == key,
        new_upload(key, request).custom_headers == metadata_cache::user_metadata(request),
        new_upload(key, request).parts == Map::<u32, PartView>::empty(),
{
}

/// Requests and jobs say what their fields hold.
pub proof fn law_completions_say_what_they_hold(
    request: CompleteMultipartUpload,
    job: CompleteJob,
    response: Response,
    parts: Seq<(u32, PartEntry)>,
    i: int,
)
    ensures
        wanted_parts(request).len() == request.parts@.len(),
        0 <= i < request.parts@.len() ==> wanted_parts(request)[i] == (
            request.parts@[i].part_number,
            request.parts@[i].etag@,
        ),
        wanted_of(Some(request)) == Some(wanted_parts(request)),
        wanted_of(None) is None,
        part_list(parts).len() == parts.len(),
        0 <= i < parts.len() ==> part_list(parts)[i] == (parts[i].0, parts[i].1@),
        job@.object_key == job.object_key@,
        job@.upload_id == job.upload_id@,
        job@.rel_path == job.rel_path.bytes@,
        job@.abs_path == job.abs_path.bytes@,
        job@.tmp_path == job.tmp_path.bytes@,
        job@.custom_headers == metadata_cache::header_list(job.custom_headers@),
        job@.parts == part_list(job.parts@),
        CompleteStart::Assemble(job)@ == CompleteStartView::Assemble(job@),
        CompleteStart::Refuse(response)@ == CompleteStartView::Refuse(response@),
{
}

} // verus!
