//! Object metadata that outlives the server process.
//!
//! For every object a JSON file below [`METADATA_CACHE_DIR`] remembers its
//! entity tag, its checksums and its custom headers. The file is trusted as
//! long as the modification time of the object is the one it was written for.

use crate::errors::Error;
use crate::errors::ErrorKind;
use crate::errors::IoKind;
use crate::errors::Result;
use crate::etag;
use crate::etag::etag_from_md5_hex;
use crate::etag::compute_file_md5_hex;
use crate::etag::Md5Stream;
use crate::fs_path;
use crate::fs_path::FsPath;
use crate::headers;
use crate::headers::entries_of;
use crate::headers::header_name_from;
use crate::headers::header_text;
use crate::headers::header_value_from;
use crate::headers::insert_header;
use crate::headers::is_header_name;
use crate::headers::is_header_value;
use crate::headers::name_error_text;
use crate::headers::value_error_text;
use crate::text;
use crate::text::eq_ignore_ascii_case;
use crate::text::strip_prefix;
use crate::time::UnixTime;
use vstd::prelude::*;
use vstd::string::*;
use vstd::utf8::*;

verus! {

/// The directory for cached metadata, inside the serve directory.
pub const METADATA_CACHE_DIR: &'static str = ".fxv-metadata-cache";

/// The version of the cached metadata.
pub const METADATA_SCHEMA_VERSION: u32 = 1;

/// A header that is sent along with an object.
#[derive(Debug, PartialEq, Eq)]
pub struct HeaderEntry {
    pub key: String,
    pub value: String,
}

impl View for HeaderEntry {
    type V = (Seq<char>, Seq<char>);

    open spec fn view(&self) -> (Seq<char>, Seq<char>) {
        (self.key@, self.value@)
    }
}

impl Clone for HeaderEntry {
    fn clone(&self) -> (r: HeaderEntry)
        ensures
            r@ == self@,
    {
        HeaderEntry { key: self.key.clone(), value: self.value.clone() }
    }
}

/// The names and values of a list of headers.
pub open spec fn header_list(list: Seq<HeaderEntry>) -> Seq<(Seq<char>, Seq<char>)> {
    list.map_values(|h: HeaderEntry| h@)
}

/// A copy of a list of headers.
pub fn clone_headers(list: &Vec<HeaderEntry>) -> (r: Vec<HeaderEntry>)
    ensures
        header_list(r@) == header_list(list@),
{
    let mut out: Vec<HeaderEntry> = Vec::new();
    let n: usize = list.len();
    let mut i: usize = 0;
    while i < n
        invariant
            i <= n,
            n == list@.len(),
            out@.len() == i,
            forall|k: int| 0 <= k < i ==> (#[trigger] out@[k])@ == list@[k]@,
        decreases n - i,
    {
        out.push(list[i].clone());
        i = i + 1;
    }
    assert(header_list(out@) =~= header_list(list@));
    out
}

/// The checksums of an object, in hexadecimal.
#[derive(Debug, PartialEq, Eq)]
pub struct ChecksumSet {
    pub md5: String,
    pub crc32: Option<String>,
    pub crc64nvme: Option<String>,
}

/// What a [`ChecksumSet`] says.
pub struct ChecksumView {
    pub md5: Seq<char>,
    pub crc32: Option<Seq<char>>,
    pub crc64nvme: Option<Seq<char>>,
}

/// The text of an optional string.
pub open spec fn opt_text(s: Option<String>) -> Option<Seq<char>> {
    match s {
        Some(t) => Some(t@),
        None => None,
    }
}

fn clone_opt_string(s: &Option<String>) -> (r: Option<String>)
    ensures
        opt_text(r) == opt_text(*s),
{
    match s {
        Some(t) => Some(t.clone()),
        None => None,
    }
}

impl View for ChecksumSet {
    type V = ChecksumView;

    open spec fn view(&self) -> ChecksumView {
        ChecksumView {
            md5: self.md5@,
            crc32: opt_text(self.crc32),
            crc64nvme: opt_text(self.crc64nvme),
        }
    }
}

impl Clone for ChecksumSet {
    fn clone(&self) -> (r: ChecksumSet)
        ensures
            r@ == self@,
    {
        ChecksumSet {
            md5: self.md5.clone(),
            crc32: clone_opt_string(&self.crc32),
            crc64nvme: clone_opt_string(&self.crc64nvme),
        }
    }
}

/// The checksums of an object of which only the MD5 checksum is known.
pub open spec fn md5_only(md5: Seq<char>) -> ChecksumView {
    ChecksumView { md5, crc32: None, crc64nvme: None }
}

impl ChecksumSet {
    /// The checksums of an object of which only the MD5 checksum is known.
    pub fn of_md5(md5: String) -> (r: ChecksumSet)
        ensures
            r@ == md5_only(md5@),
    {
        ChecksumSet { md5, crc32: None, crc64nvme: None }
    }
}

/// The metadata of an object as it is cached on disk.
#[derive(Debug, PartialEq, Eq)]
pub struct ObjectMetadataCache {
    pub schema_version: u32,
    pub last_modified_unix_secs: i64,
    pub etag: String,
    pub checksums: ChecksumSet,
    pub custom_headers: Vec<HeaderEntry>,
}

/// What an [`ObjectMetadataCache`] says.
pub struct MetadataView {
    pub schema_version: u32,
    pub last_modified_unix_secs: i64,
    pub etag: Seq<char>,
    pub checksums: ChecksumView,
    pub custom_headers: Seq<(Seq<char>, Seq<char>)>,
}

impl View for ObjectMetadataCache {
    type V = MetadataView;

    open spec fn view(&self) -> MetadataView {
        MetadataView {
            schema_version: self.schema_version,
            last_modified_unix_secs: self.last_modified_unix_secs,
            etag: self.etag@,
            checksums: self.checksums@,
            custom_headers: header_list(self.custom_headers@),
        }
    }
}

impl Clone for ObjectMetadataCache {
    fn clone(&self) -> (r: ObjectMetadataCache)
        ensures
            r@ == self@,
    {
        ObjectMetadataCache {
            schema_version: self.schema_version,
            last_modified_unix_secs: self.last_modified_unix_secs,
            etag: self.etag.clone(),
            checksums: self.checksums.clone(),
            custom_headers: clone_headers(&self.custom_headers),
        }
    }
}

/// The metadata of an object in the given state.
pub open spec fn current_metadata(
    modified: UnixTime,
    etag: Seq<char>,
    checksums: ChecksumView,
    custom_headers: Seq<(Seq<char>, Seq<char>)>,
) -> MetadataView {
    MetadataView {
        schema_version: METADATA_SCHEMA_VERSION,
        last_modified_unix_secs: modified.whole_secs(),
        etag,
        checksums,
        custom_headers,
    }
}

impl ObjectMetadataCache {
    /// The metadata of an object in the given state.
    pub fn from_current_state(
        modified: UnixTime,
        etag: String,
        checksums: ChecksumSet,
        custom_headers: Vec<HeaderEntry>,
    ) -> (r: ObjectMetadataCache)
        ensures
            r@ == current_metadata(modified, etag@, checksums@, header_list(custom_headers@)),
    {
        ObjectMetadataCache {
            schema_version: METADATA_SCHEMA_VERSION,
            last_modified_unix_secs: system_time_to_secs(modified),
            etag,
            checksums,
            custom_headers,
        }
    }
}

/// The version that metadata without one is taken to have.
pub fn schema_version() -> (r: u32)
    ensures
        r == 1,
{
    METADATA_SCHEMA_VERSION
}

/// The whole seconds since the Unix epoch; zero for times before it.
pub fn system_time_to_secs(time: UnixTime) -> (r: i64)
    ensures
        r == time.whole_secs(),
{
    if time.secs < 0 {
        0
    } else {
        time.secs
    }
}

// ---------------------------------------------------------------------------
// Files of the cache
// ---------------------------------------------------------------------------

/// The path of the file that caches the metadata of the object at `rel`.
pub open spec fn cache_file(serve_dir: Seq<u8>, rel: Seq<u8>) -> Seq<u8> {
    fs_path::to_last_name(cached_object(serve_dir, rel)) + encode_utf8(".json"@)
}

/// The path of the object at `rel`, moved below the cache directory.
pub open spec fn cached_object(serve_dir: Seq<u8>, rel: Seq<u8>) -> Seq<u8> {
    fs_path::joined(fs_path::joined(serve_dir, encode_utf8(METADATA_CACHE_DIR@)), rel)
}

/// The path of the file that caches the metadata of the object at `rel_path`:
/// the path of the object, moved below the cache directory and with `.json`
/// added to its name.
pub fn cache_path(serve_dir: &FsPath, rel_path: &FsPath) -> (r: FsPath)
    requires
        fs_path::has_file_name(cached_object(serve_dir@, rel_path@)),
    ensures
        r@ == cache_file(serve_dir@, rel_path@),
{
    serve_dir.join(&FsPath::from_text(METADATA_CACHE_DIR)).join(rel_path).with_suffix(".json")
}

/// The cached metadata, if it is that of a file modified in the second of
/// `modified`.
pub open spec fn known_metadata(cached: Option<ObjectMetadataCache>, modified: UnixTime) -> Option<
    ObjectMetadataCache,
> {
    match cached {
        Some(m) if m.last_modified_unix_secs == modified.whole_secs() => Some(m),
        _ => None,
    }
}

/// The cached metadata, if it is that of a file modified at `file_mtime_secs`.
pub fn load_metadata_cache(cached: Option<ObjectMetadataCache>, file_mtime_secs: i64) -> (r: Option<
    ObjectMetadataCache,
>)
    ensures
        r == match cached {
            Some(m) if m.last_modified_unix_secs == file_mtime_secs => Some(m),
            _ => None,
        },
{
    match cached {
        Some(m) => if m.last_modified_unix_secs == file_mtime_secs {
            Some(m)
        } else {
            None
        },
        None => None,
    }
}

/// How to get at the metadata of an object.
pub enum MetadataStep {
    /// The cached metadata still holds.
    Ready(ObjectMetadataCache),
    /// The contents of the object have to be hashed.
    HashContents,
}

/// The metadata of an object modified at `modified`, as far as the cache knows it.
pub fn get_or_compute_metadata(cached: Option<ObjectMetadataCache>, modified: UnixTime) -> (r:
    MetadataStep)
    ensures
        r == match known_metadata(cached, modified) {
            Some(m) => MetadataStep::Ready(m),
            None => MetadataStep::HashContents,
        },
{
    match load_metadata_cache(cached, system_time_to_secs(modified)) {
        Some(m) => MetadataStep::Ready(m),
        None => MetadataStep::HashContents,
    }
}

/// The metadata of an object with the contents `data`, without custom headers.
pub open spec fn fresh_metadata(modified: UnixTime, data: Seq<u8>) -> MetadataView {
    current_metadata(
        modified,
        etag::etag_of(data),
        md5_only(etag::hex(etag::md5_of(data))),
        Seq::empty(),
    )
}

/// The metadata of an object whose contents have been read.
pub fn metadata_of_contents(modified: UnixTime, contents: Md5Stream) -> (r: ObjectMetadataCache)
    requires
        contents.wf(),
    ensures
        r@ == fresh_metadata(modified, contents@),
{
    let md5_hex: String = compute_file_md5_hex(contents);
    let tag: String = etag_from_md5_hex(md5_hex.as_str());
    let none: Vec<HeaderEntry> = Vec::new();
    assert(header_list(none@) == Seq::<(Seq<char>, Seq<char>)>::empty());
    ObjectMetadataCache::from_current_state(modified, tag, ChecksumSet::of_md5(md5_hex), none)
}

// ---------------------------------------------------------------------------
// Custom headers
// ---------------------------------------------------------------------------

/// The headers of a request that describe the object: those whose name begins
/// with `x-amz-meta-` and whose value is visible ASCII, in their order.
pub open spec fn user_metadata(entries: Seq<(Seq<char>, Seq<u8>)>) -> Seq<(Seq<char>, Seq<char>)>
    decreases entries.len(),
{
    if entries.len() == 0 {
        Seq::empty()
    } else {
        let front = user_metadata(entries.drop_last());
        let (name, value) = entries.last();
        match headers::visible_text(value) {
            Some(t) if text::starts_with(name, "x-amz-meta-"@) => front.push((name, t)),
            _ => front,
        }
    }
}

/// The headers of a request that describe the object.
pub fn extract_user_metadata_headers(headers: &http::HeaderMap<http::HeaderValue>) -> (r: Vec<
    HeaderEntry,
>)
    ensures
        header_list(r@) == user_metadata(headers::header_entries(*headers)),
{
    let all: Vec<(String, Vec<u8>)> = entries_of(headers);
    let ghost entries = headers::header_entries(*headers);
    let mut out: Vec<HeaderEntry> = Vec::new();
    let n: usize = all.len();
    let mut i: usize = 0;
    assert(entries.take(0) == Seq::<(Seq<char>, Seq<u8>)>::empty());
    assert(header_list(out@) == Seq::<(Seq<char>, Seq<char>)>::empty());
    while i < n
        invariant
            i <= n,
            n == all@.len(),
            n == entries.len(),
            forall|k: int|
                0 <= k < n ==> {
                    &&& (#[trigger] all@[k]).0@ == entries[k].0
                    &&& all@[k].1@ == entries[k].1
                },
            header_list(out@) == user_metadata(entries.take(i as int)),
        decreases n - i,
    {
        assert(entries.take(i + 1).drop_last() == entries.take(i as int));
        let item: &(String, Vec<u8>) = &all[i];
        if strip_prefix(item.0.as_str(), "x-amz-meta-").is_some() {
            if let Some(value) = header_text(item.1.as_slice()) {
                let ghost before = out@;
                let entry = HeaderEntry { key: item.0.clone(), value };
                out.push(entry);
                assert(header_list(out@) == header_list(before).push(entry@));
            }
        }
        i = i + 1;
    }
    assert(entries.take(n as int) == entries);
    out
}

/// The reason why `key` and `value` make no header, if they make none.
pub open spec fn header_fault(key: Seq<char>, value: Seq<char>) -> Option<Seq<char>> {
    if !headers::valid_header_name(key) {
        Some("invalid header name '"@ + key + "': "@ + "invalid HTTP header name"@)
    } else if !headers::valid_header_value(value) {
        Some("invalid header value for '"@ + key + "': "@ + "failed to parse header value"@)
    } else {
        None
    }
}

/// Whether `e` reports malformed input with the message `message`.
pub open spec fn reports_input(e: Error, message: Seq<char>) -> bool {
    match e.kind {
        ErrorKind::Io(IoKind::InvalidInput, m) => m@ == message,
        _ => false,
    }
}

fn invalid_header(prefix: &str, key: &str, reason: &str) -> (r: Error)
    ensures
        reports_input(r, prefix@ + key@ + "': "@ + reason@),
{
    let mut message: String = prefix.to_owned();
    message.append(key);
    message.append("': ");
    message.append(reason);
    Error::new(ErrorKind::Io(IoKind::InvalidInput, message))
}

/// A header with this name and this value, if they are well-formed.
pub fn validate_header_entry(key: &str, value: &str) -> (r: Result<HeaderEntry>)
    ensures
        match (r, header_fault(key@, value@)) {
            (Ok(h), None) => h@ == (key@, value@),
            (Err(e), Some(message)) => reports_input(e, message),
            _ => false,
        },
{
    if let Err(e) = header_name_from(key) {
        return Err(invalid_header("invalid header name '", key, name_error_text(&e).as_str()));
    }
    if let Err(e) = header_value_from(value) {
        return Err(
            invalid_header("invalid header value for '", key, value_error_text(&e).as_str()),
        );
    }
    Ok(HeaderEntry { key: key.to_owned(), value: value.to_owned() })
}

/// The number of headers in front of the first one named `key`, in any case.
pub open spec fn header_position(list: Seq<(Seq<char>, Seq<char>)>, key: Seq<char>) -> int
    decreases list.len(),
{
    if list.len() == 0 || text::lower(list[0].0) == text::lower(key) {
        0
    } else {
        1 + header_position(list.drop_first(), key)
    }
}

/// The value of the first header named `key`, in any case.
pub open spec fn header_named(list: Seq<(Seq<char>, Seq<char>)>, key: Seq<char>) -> Option<
    Seq<char>,
> {
    let i = header_position(list, key);
    if i < list.len() {
        Some(list[i].1)
    } else {
        None
    }
}

/// The headers after `key` has been set to `value`: in place of the first
/// header of that name, or else behind all others.
pub open spec fn upserted(
    list: Seq<(Seq<char>, Seq<char>)>,
    key: Seq<char>,
    value: Seq<char>,
) -> Seq<(Seq<char>, Seq<char>)> {
    let i = header_position(list, key);
    if i < list.len() {
        list.update(i, (key, value))
    } else {
        list.push((key, value))
    }
}

/// The first header named `key` is at `i` if none in front of it has that name.
proof fn lemma_header_position(list: Seq<(Seq<char>, Seq<char>)>, key: Seq<char>, i: int)
    requires
        0 <= i <= list.len(),
        forall|k: int| 0 <= k < i ==> text::lower((#[trigger] list[k]).0) != text::lower(key),
        i < list.len() ==> text::lower(list[i].0) == text::lower(key),
    ensures
        header_position(list, key) == i,
    decreases list.len(),
{
    if list.len() > 0 && i > 0 {
        assert(list[0].0 == list[0].0);
        let tail = list.drop_first();
        assert forall|k: int| 0 <= k < i - 1 implies text::lower((#[trigger] tail[k]).0)
            != text::lower(key) by {
            assert(tail[k] == list[k + 1]);
        }
        lemma_header_position(tail, key, i - 1);
    }
}

proof fn lemma_header_position_found(list: Seq<(Seq<char>, Seq<char>)>, key: Seq<char>)
    ensures
        0 <= header_position(list, key) <= list.len(),
        forall|k: int|
            0 <= k < header_position(list, key) ==> text::lower((#[trigger] list[k]).0)
                != text::lower(key),
        header_position(list, key) < list.len() ==> text::lower(
            list[header_position(list, key)].0,
        ) == text::lower(key),
    decreases list.len(),
{
    if list.len() > 0 && text::lower(list[0].0) != text::lower(key) {
        let tail = list.drop_first();
        lemma_header_position_found(tail, key);
        assert forall|k: int| 0 <= k < header_position(list, key) implies text::lower(
            (#[trigger] list[k]).0,
        ) != text::lower(key) by {
            if k > 0 {
                assert(tail[k - 1] == list[k]);
            }
        }
    }
}

/// Sets the header `key` to `value`: in place of the first header of that
/// name, in any case, or else behind all others.
pub fn upsert_custom_header(custom_headers: &mut Vec<HeaderEntry>, key: &str, value: &str) -> (r:
    Result<()>)
    ensures
        match (r, header_fault(key@, value@)) {
            (Ok(_), None) => header_list(final(custom_headers)@) == upserted(
                header_list(old(custom_headers)@),
                key@,
                value@,
            ),
            (Err(e), Some(message)) => reports_input(e, message) && final(custom_headers)@ == old(
                custom_headers,
            )@,
            _ => false,
        },
{
    let entry: HeaderEntry = match validate_header_entry(key, value) {
        Ok(entry) => entry,
        Err(e) => return Err(e),
    };
    let ghost list = header_list(custom_headers@);
    let n: usize = custom_headers.len();
    let mut i: usize = 0;
    while i < n && !eq_ignore_ascii_case(custom_headers[i].key.as_str(), key)
        invariant
            i <= n,
            n == custom_headers@.len(),
            list == header_list(custom_headers@),
            forall|k: int| 0 <= k < i ==> text::lower((#[trigger] list[k]).0) != text::lower(key@),
        decreases n - i,
    {
        assert(list[i as int] == custom_headers@[i as int]@);
        i = i + 1;
    }
    proof {
        if i < n {
            assert(list[i as int] == custom_headers@[i as int]@);
        }
        lemma_header_position(list, key@, i as int);
    }
    let ghost item = entry@;
    if i < n {
        custom_headers.set(i, entry);
        assert(header_list(custom_headers@) == list.update(i as int, item));
    } else {
        custom_headers.push(entry);
        assert(header_list(custom_headers@) == list.push(item));
    }
    Ok(())
}

/// Whether a header can be sent.
pub open spec fn sendable(header: (Seq<char>, Seq<char>)) -> bool {
    headers::valid_header_name(header.0) && headers::valid_header_value(header.1)
}

/// The entries of a response after the headers of an object have been set in
/// their order. Headers that cannot be sent are left out.
pub open spec fn applied(
    entries: Seq<(Seq<char>, Seq<u8>)>,
    list: Seq<(Seq<char>, Seq<char>)>,
) -> Seq<(Seq<char>, Seq<u8>)>
    decreases list.len(),
{
    if list.len() == 0 {
        entries
    } else {
        let front = applied(entries, list.drop_last());
        if sendable(list.last()) {
            headers::inserted(front, text::lower(list.last().0), encode_utf8(list.last().1))
        } else {
            front
        }
    }
}

/// The value of the last header that can be sent under the lower-case `name`.
pub open spec fn last_sendable(list: Seq<(Seq<char>, Seq<char>)>, name: Seq<char>) -> Option<
    Seq<char>,
>
    decreases list.len(),
{
    if list.len() == 0 {
        None
    } else if sendable(list.last()) && text::lower(list.last().0) == name {
        Some(list.last().1)
    } else {
        last_sendable(list.drop_last(), name)
    }
}

/// Setting headers adds at most one entry for each. Under every name there is
/// afterwards the last of the headers, if one could be sent, or else what was
/// there before.
pub proof fn lemma_applied(
    entries: Seq<(Seq<char>, Seq<u8>)>,
    list: Seq<(Seq<char>, Seq<char>)>,
    name: Seq<char>,
)
    ensures
        applied(entries, list).len() <= entries.len() + list.len(),
        headers::first_value(applied(entries, list), name) == match last_sendable(list, name) {
            Some(v) => Some(encode_utf8(v)),
            None => headers::first_value(entries, name),
        },
    decreases list.len(),
{
    if list.len() > 0 {
        lemma_applied(entries, list.drop_last(), name);
        headers::lemma_inserted(
            applied(entries, list.drop_last()),
            text::lower(list.last().0),
            encode_utf8(list.last().1),
            name,
        );
    }
}

/// Sets the headers of an object in a response, in their order, and leaves out
/// those that cannot be sent.
pub fn apply_custom_headers(
    headers: &mut http::HeaderMap<http::HeaderValue>,
    custom_headers: &[HeaderEntry],
)
    requires
        headers::header_entries(*old(headers)).len() + custom_headers@.len()
            <= headers::HEADER_MAP_LIMIT,
    ensures
        headers::header_entries(*final(headers)) == applied(
            headers::header_entries(*old(headers)),
            header_list(custom_headers@),
        ),
{
    let ghost before = headers::header_entries(*headers);
    let ghost list = header_list(custom_headers@);
    let n: usize = custom_headers.len();
    let mut i: usize = 0;
    assert(list.take(0) == Seq::<(Seq<char>, Seq<char>)>::empty());
    while i < n
        invariant
            i <= n,
            n == custom_headers@.len(),
            list == header_list(custom_headers@),
            before.len() + n <= headers::HEADER_MAP_LIMIT,
            headers::header_entries(*headers) == applied(before, list.take(i as int)),
        decreases n - i,
    {
        assert(list.take(i + 1).drop_last() == list.take(i as int));
        let header: &HeaderEntry = &custom_headers[i];
        assert(list[i as int] == header@);
        proof {
            lemma_applied(before, list.take(i as int), Seq::empty());
        }
        if is_header_name(header.key.as_str()) && is_header_value(header.value.as_str()) {
            insert_header(headers, header.key.as_str(), header.value.as_str());
        }
        i = i + 1;
    }
    assert(list.take(n as int) == list);
}

// ---------------------------------------------------------------------------
// Laws
// ---------------------------------------------------------------------------

/// Metadata that was saved for a file is used again exactly as long as the file
/// was modified in the same second.
pub proof fn law_saved_metadata_holds_for_the_same_second(
    modified: UnixTime,
    etag: Seq<char>,
    checksums: ChecksumView,
    custom_headers: Seq<(Seq<char>, Seq<char>)>,
    saved: ObjectMetadataCache,
    now: UnixTime,
)
    requires
        saved@ == current_metadata(modified, etag, checksums, custom_headers),
    ensures
        known_metadata(Some(saved), now) == if modified.whole_secs() == now.whole_secs() {
            Some(saved)
        } else {
            None
        },
{
}

/// A header that was set is found under its name in any case, and nothing
/// changes under the other names.
pub proof fn law_set_header_is_found(
    list: Seq<(Seq<char>, Seq<char>)>,
    key: Seq<char>,
    value: Seq<char>,
    name: Seq<char>,
)
    ensures
        header_named(upserted(list, key, value), name) == if text::lower(name) == text::lower(
            key,
        ) {
            Some(value)
        } else {
            header_named(list, name)
        },
        upserted(list, key, value).len() == list.len() + if header_named(list, key) is Some {
            0int
        } else {
            1int
        },
{
    let new_list = upserted(list, key, value);
    let at = header_position(list, key);
    lemma_header_position_found(list, key);
    lemma_header_position_found(list, name);
    if text::lower(name) == text::lower(key) {
        lemma_header_position(list, name, at);
        lemma_header_position(new_list, name, at);
    } else {
        let i = header_position(list, name);
        if i < list.len() {
            lemma_header_position(new_list, name, i);
        } else {
            assert forall|k: int| 0 <= k < new_list.len() implies text::lower(
                (#[trigger] new_list[k]).0,
            ) != text::lower(name) by {
                if k < list.len() && k != at {
                    assert(new_list[k] == list[k]);
                }
            }
            lemma_header_position(new_list, name, new_list.len() as int);
        }
    }
}

/// Whether no two headers have the same name, in any case.
pub open spec fn distinct_names(list: Seq<(Seq<char>, Seq<char>)>) -> bool {
    forall|i: int, j: int|
        0 <= i < j < list.len() ==> text::lower((#[trigger] list[i]).0) != text::lower(
            (#[trigger] list[j]).0,
        )
}

/// Setting a header never makes two headers of one name.
pub proof fn law_set_header_keeps_names_distinct(
    list: Seq<(Seq<char>, Seq<char>)>,
    key: Seq<char>,
    value: Seq<char>,
)
    requires
        distinct_names(list),
    ensures
        distinct_names(upserted(list, key, value)),
{
    let new_list = upserted(list, key, value);
    let at = header_position(list, key);
    lemma_header_position_found(list, key);
    assert forall|i: int, j: int| 0 <= i < j < new_list.len() implies text::lower(
        (#[trigger] new_list[i]).0,
    ) != text::lower((#[trigger] new_list[j]).0) by {
        if i < list.len() && j < list.len() {
            let a = list[i];
            let b = list[j];
            assert(text::lower(a.0) != text::lower(b.0));
        } else {
            assert(new_list[i] == list[i]);
        }
    }
}

/// A header that was set is the last one that is sent under its name, if no two
/// headers have the same name.
pub proof fn lemma_last_upserted(
    list: Seq<(Seq<char>, Seq<char>)>,
    key: Seq<char>,
    value: Seq<char>,
)
    requires
        header_fault(key, value) is None,
        distinct_names(list),
    ensures
        last_sendable(upserted(list, key, value), text::lower(key)) == Some(value),
{
    let at = header_position(list, key);
    lemma_header_position_found(list, key);
    law_set_header_keeps_names_distinct(list, key, value);
    lemma_last_sendable(upserted(list, key, value), at);
}

proof fn lemma_last_sendable(list: Seq<(Seq<char>, Seq<char>)>, i: int)
    requires
        0 <= i < list.len(),
        sendable(list[i]),
        distinct_names(list),
    ensures
        last_sendable(list, text::lower(list[i].0)) == Some(list[i].1),
    decreases list.len(),
{
    if i < list.len() - 1 {
        let front = list.drop_last();
        assert(front[i] == list[i]);
        assert(list.last() == list[list.len() - 1]);
        assert forall|a: int, b: int| 0 <= a < b < front.len() implies text::lower(
            (#[trigger] front[a]).0,
        ) != text::lower((#[trigger] front[b]).0) by {
            assert(front[a] == list[a] && front[b] == list[b]);
        }
        lemma_last_sendable(front, i);
    }
}

/// A header of a request that describes the object, and that no later header
/// of the request overrides, is sent with the object under its name and with
/// its value.
pub proof fn law_user_metadata_is_replayed(
    request: Seq<(Seq<char>, Seq<u8>)>,
    i: int,
    response: Seq<(Seq<char>, Seq<u8>)>,
)
    requires
        0 <= i < request.len(),
        text::starts_with(request[i].0, "x-amz-meta-"@),
        headers::valid_header_name(request[i].0),
        headers::visible_text(request[i].1) is Some,
        forall|j: int|
            i < j < request.len() ==> text::lower((#[trigger] request[j]).0) != text::lower(
                request[i].0,
            ),
    ensures
        headers::first_value(
            applied(response, user_metadata(request)),
            text::lower(request[i].0),
        ) == Some(request[i].1),
{
    lemma_last_user_metadata(request, i);
    lemma_applied(response, user_metadata(request), text::lower(request[i].0));
    headers::lemma_visible_text_encodes(request[i].1);
}

/// The last of an object's headers under the name of a header of a request that
/// describes it, and that no later header of the request overrides, is that one.
pub proof fn lemma_last_user_metadata(request: Seq<(Seq<char>, Seq<u8>)>, i: int)
    requires
        0 <= i < request.len(),
        text::starts_with(request[i].0, "x-amz-meta-"@),
        headers::valid_header_name(request[i].0),
        headers::visible_text(request[i].1) is Some,
        forall|j: int|
            i < j < request.len() ==> text::lower((#[trigger] request[j]).0) != text::lower(
                request[i].0,
            ),
    ensures
        last_sendable(user_metadata(request), text::lower(request[i].0)) == headers::visible_text(
            request[i].1,
        ),
    decreases request.len(),
{
    let front = request.drop_last();
    let list = user_metadata(request);
    if i == request.len() - 1 {
        headers::lemma_visible_text_is_value(request[i].1);
        assert(list.last() == (request[i].0, headers::visible_text(request[i].1)->0));
    } else {
        assert(front[i] == request[i]);
        assert forall|j: int| i < j < front.len() implies text::lower((#[trigger] front[j]).0)
            != text::lower(front[i].0) by {
            assert(front[j] == request[j]);
        }
        lemma_last_user_metadata(front, i);
        assert(request.last() == request[request.len() - 1]);
        if list != user_metadata(front) {
            assert(list.drop_last() == user_metadata(front));
        }
    }
}

/// The metadata of an object is cached below the cache directory, at the place
/// that the object has below the serve directory.
pub proof fn law_cache_file_mirrors_the_object(serve_dir: Seq<u8>, rel: Seq<u8>)
    requires
        rel.len() > 0 && rel[0] != fs_path::SLASH,
        fs_path::names(rel).len() > 0,
    ensures
        fs_path::names(cache_file(serve_dir, rel)) == fs_path::names(serve_dir).push(
            encode_utf8(METADATA_CACHE_DIR@),
        ) + fs_path::names(rel).drop_last().push(
            fs_path::names(rel).last() + encode_utf8(".json"@),
        ),
{
    let dir = encode_utf8(METADATA_CACHE_DIR@);
    let suffix = encode_utf8(".json"@);
    lemma_cache_dir_is_name();
    reveal_strlit(".json");
    is_ascii_chars_encode_utf8(".json"@);
    assert(fs_path::slash_free(suffix));
    fs_path::lemma_names_of_name(dir);
    fs_path::lemma_names_of_joined(serve_dir, dir);
    fs_path::lemma_names_of_joined(fs_path::joined(serve_dir, dir), rel);
    let p = cached_object(serve_dir, rel);
    let names = fs_path::names(p);
    assert(names.len() > 0);
    fs_path::lemma_names_with_suffix(p, suffix);
    assert(names == fs_path::names(serve_dir).push(dir) + fs_path::names(rel));
    assert(names.drop_last() == fs_path::names(serve_dir).push(dir) + fs_path::names(
        rel,
    ).drop_last());
}

/// The name of the cache directory is a single name.
pub proof fn lemma_cache_dir_is_name()
    ensures
        fs_path::is_name(encode_utf8(METADATA_CACHE_DIR@)),
        fs_path::slash_free(encode_utf8(METADATA_CACHE_DIR@)),
        encode_utf8(METADATA_CACHE_DIR@).len() == 19,
{
    reveal_strlit(".fxv-metadata-cache");
    is_ascii_chars_encode_utf8(METADATA_CACHE_DIR@);
}

/// The metadata in a request is made of that in its pieces, in their order.
pub proof fn law_user_metadata_of_pieces(
    a: Seq<(Seq<char>, Seq<u8>)>,
    b: Seq<(Seq<char>, Seq<u8>)>,
)
    ensures
        user_metadata(a + b) == user_metadata(a) + user_metadata(b),
    decreases b.len(),
{
    if b.len() == 0 {
        assert(a + b == a);
        assert(user_metadata(a) + user_metadata(b) == user_metadata(a));
    } else {
        law_user_metadata_of_pieces(a, b.drop_last());
        assert((a + b).drop_last() == a + b.drop_last());
        assert(user_metadata(a + b) =~= user_metadata(a) + user_metadata(b));
    }
}

/// A header of a request is metadata exactly if its name begins with
/// `x-amz-meta-` and its value is a text. It is kept under that name and with
/// that text.
pub proof fn law_headers_that_are_metadata(name: Seq<char>, value: Seq<u8>)
    ensures
        user_metadata(seq![(name, value)]) == if text::starts_with(
            name,
            seq!['x', '-', 'a', 'm', 'z', '-', 'm', 'e', 't', 'a', '-'],
        ) && headers::visible_text(value) is Some {
            seq![(name, headers::visible_text(value)->0)]
        } else {
            Seq::empty()
        },
{
    reveal_strlit("x-amz-meta-");
    assert("x-amz-meta-"@ =~= seq!['x', '-', 'a', 'm', 'z', '-', 'm', 'e', 't', 'a', '-']);
    let one = seq![(name, value)];
    assert(one.drop_last() =~= Seq::empty());
    assert(user_metadata(one.drop_last()) =~= Seq::empty());
    assert(one.last() == (name, value));
}

/// A list of headers holds the name and the value of each, in their order.
pub proof fn law_header_lists(list: Seq<HeaderEntry>)
    ensures
        header_list(list).len() == list.len(),
        forall|i: int|
            0 <= i < list.len() ==> #[trigger] header_list(list)[i] == (
                list[i].key@,
                list[i].value@,
            ),
{
}

/// A header can be set exactly if its name and its value can be sent.
pub proof fn law_headers_that_can_be_set(key: Seq<char>, value: Seq<char>)
    ensures
        header_fault(key, value) is None <==> headers::valid_header_name(key)
            && headers::valid_header_value(value),
        sendable((key, value)) <==> headers::valid_header_name(key) && headers::valid_header_value(
            value,
        ),
{
}

/// The header that is found under a name is the first one that has it, in any
/// case.
pub proof fn law_header_is_found_under_its_name(
    list: Seq<(Seq<char>, Seq<char>)>,
    key: Seq<char>,
    i: int,
)
    requires
        0 <= i <= list.len(),
        forall|k: int| 0 <= k < i ==> text::lower((#[trigger] list[k]).0) != text::lower(key),
        i < list.len() ==> text::lower(list[i].0) == text::lower(key),
    ensures
        header_named(list, key) == if i < list.len() {
            Some(list[i].1)
        } else {
            None
        },
{
    lemma_header_position(list, key, i);
}

/// Setting a header puts it in the place of the first one that has its name, in
/// any case, or else behind all others, which stay as they are.
pub proof fn law_header_is_set_in_its_place(
    list: Seq<(Seq<char>, Seq<char>)>,
    key: Seq<char>,
    value: Seq<char>,
    i: int,
)
    requires
        0 <= i <= list.len(),
        forall|k: int| 0 <= k < i ==> text::lower((#[trigger] list[k]).0) != text::lower(key),
        i < list.len() ==> text::lower(list[i].0) == text::lower(key),
    ensures
        upserted(list, key, value) == if i < list.len() {
            list.update(i, (key, value))
        } else {
            list.push((key, value))
        },
{
    lemma_header_position(list, key, i);
}

/// The last header that can be sent under a name is one that has the name, can
/// be sent, and has none behind it of which that is true as well.
pub proof fn law_last_header_under_a_name(
    list: Seq<(Seq<char>, Seq<char>)>,
    name: Seq<char>,
    i: int,
)
    requires
        -1 <= i < list.len(),
        i >= 0 ==> sendable(list[i]) && text::lower(list[i].0) == name,
        forall|k: int|
            i < k < list.len() ==> !(sendable(#[trigger] list[k]) && text::lower(list[k].0)
                == name),
    ensures
        last_sendable(list, name) == if i >= 0 {
            Some(list[i].1)
        } else {
            None
        },
    decreases list.len(),
{
    if list.len() > 0 && i < list.len() - 1 {
        let front = list.drop_last();
        assert(list.last() == list[list.len() - 1]);
        assert forall|k: int| i < k < front.len() implies !(sendable(#[trigger] front[k])
            && text::lower(front[k].0) == name) by {
            assert(front[k] == list[k]);
        }
        if i >= 0 {
            assert(front[i] == list[i]);
        }
        law_last_header_under_a_name(front, name, i);
    }
}

/// The headers of an object are set one after the other, in their order. One that
/// cannot be sent changes nothing; one that can becomes the only one of its name,
/// and leaves the headers of all other names as they are.
pub proof fn law_headers_are_set_in_turn(
    entries: Seq<(Seq<char>, Seq<u8>)>,
    list: Seq<(Seq<char>, Seq<char>)>,
    header: (Seq<char>, Seq<char>),
)
    ensures
        applied(entries, Seq::empty()) == entries,
        !sendable(header) ==> applied(entries, list.push(header)) == applied(entries, list),
        sendable(header) ==> ({
            let name = text::lower(header.0);
            let before = applied(entries, list);
            let after = applied(entries, list.push(header));
            &&& after.filter(|e: (Seq<char>, Seq<u8>)| e.0 != name) == before.filter(
                |e: (Seq<char>, Seq<u8>)| e.0 != name,
            )
            &&& after.filter(|e: (Seq<char>, Seq<u8>)| e.0 == name) == seq![
                (name, encode_utf8(header.1)),
            ]
        }),
{
    assert(list.push(header).drop_last() == list);
    headers::law_setting_a_header(
        applied(entries, list),
        text::lower(header.0),
        encode_utf8(header.1),
    );
}

/// Cached metadata is used exactly if it is there and was made for a file
/// modified in the same second.
pub proof fn law_cached_metadata_is_used(
    cached: Option<ObjectMetadataCache>,
    modified: UnixTime,
)
    ensures
        known_metadata(cached, modified) == if cached is Some && cached->0.last_modified_unix_secs
            == modified.whole_secs() {
            cached
        } else {
            None
        },
{
}

/// The metadata of an object holds what is known of it, under the present
/// version of the format.
pub proof fn law_current_metadata(
    modified: UnixTime,
    etag: Seq<char>,
    checksums: ChecksumView,
    custom_headers: Seq<(Seq<char>, Seq<char>)>,
)
    ensures
        ({
            let m = current_metadata(modified, etag, checksums, custom_headers);
            &&& m.schema_version == METADATA_SCHEMA_VERSION
            &&& m.last_modified_unix_secs == modified.whole_secs()
            &&& m.etag == etag
            &&& m.checksums == checksums
            &&& m.custom_headers == custom_headers
        }),
{
}

/// The metadata of a file that is not cached is its tag and its checksum, as its
/// contents give them, and no headers.
pub proof fn law_metadata_of_contents(modified: UnixTime, data: Seq<u8>)
    ensures
        fresh_metadata(modified, data).last_modified_unix_secs == modified.whole_secs(),
        fresh_metadata(modified, data).etag == etag::etag_of(data),
        fresh_metadata(modified, data).checksums.md5 == etag::hex(etag::md5_of(data)),
        fresh_metadata(modified, data).checksums.crc32 is None,
        fresh_metadata(modified, data).checksums.crc64nvme is None,
        fresh_metadata(modified, data).custom_headers.len() == 0,
{
}

/// No two headers have the same name exactly if their names differ in lower case.
pub proof fn law_distinct_names(list: Seq<(Seq<char>, Seq<char>)>)
    ensures
        distinct_names(list) <==> forall|i: int, j: int|
            0 <= i < j < list.len() ==> text::lower((#[trigger] list[i]).0) != text::lower(
                (#[trigger] list[j]).0,
            ),
{
}

/// Metadata says what its fields hold.
pub proof fn law_metadata_says_what_it_holds(
    header: HeaderEntry,
    checksums: ChecksumSet,
    metadata: ObjectMetadataCache,
    text: String,
    md5: Seq<char>,
)
    ensures
        header@ == (header.key@, header.value@),
        opt_text(Some(text)) == Some(text@),
        opt_text(None) is None,
        checksums@.md5 == checksums.md5@,
        checksums@.crc32 == opt_text(checksums.crc32),
        checksums@.crc64nvme == opt_text(checksums.crc64nvme),
        md5_only(md5).md5 == md5 && md5_only(md5).crc32 is None && md5_only(md5).crc64nvme is None,
        metadata@.schema_version == metadata.schema_version,
        metadata@.last_modified_unix_secs == metadata.last_modified_unix_secs,
        metadata@.etag == metadata.etag@,
        metadata@.checksums == metadata.checksums@,
        metadata@.custom_headers == header_list(metadata.custom_headers@),
{
}

/// An error reports malformed input exactly if it is of that kind and has that
/// message.
pub proof fn law_reports_of_malformed_input(e: Error, message: Seq<char>)
    ensures
        reports_input(e, message) <==> (e.kind matches ErrorKind::Io(kind, m) && kind is InvalidInput
            && m@ == message),
{
}

} // verus!
