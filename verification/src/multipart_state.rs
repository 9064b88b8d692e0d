//! In-memory state for multipart uploads.
//!
//! Lives only for the duration of the server process; lost on restart.

use crate::etag::Md5DigestBytes;
use crate::fs_path::FsPath;
use crate::ids;
use crate::metadata_cache;
use crate::metadata_cache::HeaderEntry;
use std::collections::HashMap;
use vstd::hash_map::StringHashMap;
use vstd::prelude::*;
use vstd::string::*;

verus! {

broadcast use vstd::std_specs::hash::group_hash_axioms;

/// Directory name (relative to serve_dir) used for in-progress multipart part files.
pub const MULTIPART_UPLOAD_DIR: &'static str = ".fxv-multipart-uploads";

/// Metadata for a single uploaded part.
#[derive(Debug)]
pub struct PartEntry {
    /// Path to the temp file holding this part's data.
    pub abs_path: FsPath,
    /// Number of bytes in this part.
    pub size: u64,
    /// MD5 ETag of this part's data (double-quoted hex string).
    pub etag: String,
    /// Raw MD5 digest bytes used to build S3 multipart ETags.
    pub md5_bytes: Md5DigestBytes,
}

/// What a [`PartEntry`] says.
pub struct PartView {
    pub abs_path: Seq<u8>,
    pub size: u64,
    pub etag: Seq<char>,
    pub md5_bytes: Md5DigestBytes,
}

impl View for PartEntry {
    type V = PartView;

    open spec fn view(&self) -> PartView {
        PartView {
            abs_path: self.abs_path@,
            size: self.size,
            etag: self.etag@,
            md5_bytes: self.md5_bytes,
        }
    }
}

impl Clone for PartEntry {
    fn clone(&self) -> (r: PartEntry)
        ensures
            r@ == self@,
    {
        PartEntry {
            abs_path: self.abs_path.clone(),
            size: self.size,
            etag: self.etag.clone(),
            md5_bytes: self.md5_bytes,
        }
    }
}

/// State for one in-progress multipart upload.
#[derive(Debug)]
pub struct UploadEntry {
    /// Object key this upload targets.
    pub key: String,
    /// Custom headers to apply to the completed object.
    pub custom_headers: Vec<HeaderEntry>,
    /// Parts uploaded so far, keyed by 1-based part number.
    pub parts: HashMap<u32, PartEntry>,
}

/// What an [`UploadEntry`] says.
pub struct UploadView {
    pub key: Seq<char>,
    pub custom_headers: Seq<(Seq<char>, Seq<char>)>,
    pub parts: Map<u32, PartView>,
}

impl View for UploadEntry {
    type V = UploadView;

    open spec fn view(&self) -> UploadView {
        UploadView {
            key: self.key@,
            custom_headers: metadata_cache::header_list(self.custom_headers@),
            parts: self.parts@.map_values(|p: PartEntry| p@),
        }
    }
}

/// The multipart uploads in progress.
///
/// Its view maps their identifiers to their state. The states stand in a list,
/// where they can be changed and taken out, in no particular order.
pub struct UploadTable {
    /// The place of every upload in the list.
    index: StringHashMap<usize>,
    /// The identifiers of the uploads and their states.
    slots: Vec<(String, UploadEntry)>,
}

impl View for UploadTable {
    type V = Map<Seq<char>, UploadView>;

    closed spec fn view(&self) -> Map<Seq<char>, UploadView> {
        let slots = self.slots@;
        self.index@.map_values(|i: usize| slots[i as int].1@)
    }
}

impl UploadTable {
    /// Whether the index tells the place of every upload in the list.
    pub closed spec fn wf(&self) -> bool {
        &&& forall|id: Seq<char>| #[trigger]
            self.index@.contains_key(id) ==> self.index@[id] < self.slots@.len()
                && self.slots@[self.index@[id] as int].0@ == id
        &&& forall|i: int|
            0 <= i < self.slots@.len() ==> self.index@.contains_key((#[trigger] self.slots@[i]).0@)
                && self.index@[self.slots@[i].0@] == i
    }

    /// A table without uploads.
    pub fn new() -> (r: UploadTable)
        ensures
            r.wf(),
            r@ == Map::<Seq<char>, UploadView>::empty(),
    {
        let r = UploadTable { index: StringHashMap::new(), slots: Vec::new() };
        assert(r@ =~= Map::<Seq<char>, UploadView>::empty());
        r
    }

    /// The state of the upload `id`.
    pub fn get(&self, id: &str) -> (r: Option<&UploadEntry>)
        requires
            self.wf(),
        ensures
            match r {
                Some(e) => self@.contains_key(id@) && e@ == self@[id@],
                None => !self@.contains_key(id@),
            },
    {
        match self.index.get(id) {
            Some(i) => Some(&self.slots[*i].1),
            None => None,
        }
    }

    /// The path of the part `number` of the upload `id`.
    pub fn part_path(&self, id: &str, number: u32) -> (r: Option<&FsPath>)
        requires
            self.wf(),
        ensures
            match r {
                Some(p) => has_part(self@, id@, number) && p@
                    == self@[id@].parts[number].abs_path,
                None => !has_part(self@, id@, number),
            },
    {
        match self.get(id) {
            Some(upload) => match upload.parts.get(&number) {
                Some(part) => {
                    assert(upload@.parts[number] == part@);
                    Some(&part.abs_path)
                },
                None => {
                    assert(!upload@.parts.contains_key(number));
                    None
                },
            },
            None => None,
        }
    }

    /// Removes the upload `id` and hands out its state.
    pub fn remove(&mut self, id: &str) -> (r: Option<UploadEntry>)
        requires
            old(self).wf(),
        ensures
            final(self).wf(),
            final(self)@ == old(self)@.remove(id@),
            match r {
                Some(e) => old(self)@.contains_key(id@) && e@ == old(self)@[id@],
                None => !old(self)@.contains_key(id@),
            },
    {
        let i: usize = match self.index.get(id) {
            Some(i) => *i,
            None => {
                assert(self@.remove(id@) =~= self@);
                return None;
            },
        };
        let ghost before = self@;
        let ghost slots = self.slots@;
        let ghost index = self.index@;
        let last: usize = self.slots.len() - 1;
        self.index.remove(id);
        let (_, entry) = self.slots.swap_remove(i);
        if i < last {
            // The last upload of the list has taken the place.
            self.index.insert(self.slots[i].0.clone(), i);
        }
        assert(slots[last as int].0@ != id@ || i == last);
        assert forall|name: Seq<char>| #[trigger] self.index@.contains_key(name) implies
            self.index@[name] < self.slots@.len() && self.slots@[self.index@[name] as int].0@
            == name by {
            assert(index.contains_key(name));
            assert(name != id@);
        }
        assert forall|k: int| 0 <= k < self.slots@.len() implies self.index@.contains_key(
            (#[trigger] self.slots@[k]).0@,
        ) && self.index@[self.slots@[k].0@] == k by {
            if k == i {
                assert(self.slots@[k] == slots[last as int]);
            } else {
                assert(self.slots@[k] == slots[k]);
                assert(slots[k].0@ != slots[last as int].0@);
            }
        }
        assert(self@ =~= before.remove(id@));
        Some(entry)
    }

    /// Enters an upload, in place of the one that has its identifier.
    pub fn insert(&mut self, id: String, entry: UploadEntry)
        requires
            old(self).wf(),
        ensures
            final(self).wf(),
            final(self)@ == old(self)@.insert(id@, entry@),
    {
        self.remove(id.as_str());
        let ghost before = self@;
        let ghost slots = self.slots@;
        let ghost name = id@;
        let ghost item = entry@;
        let n: usize = self.slots.len();
        self.index.insert(id.clone(), n);
        self.slots.push((id, entry));
        assert forall|k: int| 0 <= k < self.slots@.len() implies self.index@.contains_key(
            (#[trigger] self.slots@[k]).0@,
        ) && self.index@[self.slots@[k].0@] == k by {
            if k < n {
                assert(self.slots@[k] == slots[k]);
                assert(before.contains_key(slots[k].0@));
            }
        }
        assert(self@ =~= before.insert(name, item));
        assert(self@ =~= old(self)@.insert(name, item));
    }

    /// Records the part `number` of the upload `id`, in place of the one that
    /// has its number. Hands out the path of the part that was replaced. An
    /// upload that does not exist anymore is left alone.
    pub fn set_part(&mut self, id: &str, number: u32, part: PartEntry) -> (r: Option<FsPath>)
        requires
            old(self).wf(),
        ensures
            final(self).wf(),
            final(self)@ == with_part(old(self)@, id@, number, part@),
            match r {
                Some(p) => has_part(old(self)@, id@, number) && p@ == old(
                    self,
                )@[id@].parts[number].abs_path,
                None => !has_part(old(self)@, id@, number),
            },
    {
        let ghost before = self@;
        let ghost item = part@;
        match self.remove(id) {
            Some(mut entry) => {
                let ghost parts = entry@.parts;
                let replaced: Option<FsPath> = match entry.parts.insert(number, part) {
                    Some(p) => Some(p.abs_path),
                    None => None,
                };
                assert(entry@.parts =~= parts.insert(number, item));
                self.insert(id.to_owned(), entry);
                assert(self@ =~= with_part(before, id@, number, item));
                replaced
            },
            None => {
                assert(self@ =~= before);
                None
            },
        }
    }
}

/// Whether the upload `id` exists and has a part `number`.
pub open spec fn has_part(
    uploads: Map<Seq<char>, UploadView>,
    id: Seq<char>,
    number: u32,
) -> bool {
    uploads.contains_key(id) && uploads[id].parts.contains_key(number)
}

/// Whether the identifiers of the uploads are such as the server hands out.
pub open spec fn hyphenated_ids(uploads: Map<Seq<char>, UploadView>) -> bool {
    forall|id: Seq<char>| #[trigger] uploads.contains_key(id) ==> ids::is_hyphenated_id(id)
}

/// The uploads after the part `number` of the upload `id` has been recorded.
pub open spec fn with_part(
    uploads: Map<Seq<char>, UploadView>,
    id: Seq<char>,
    number: u32,
    part: PartView,
) -> Map<Seq<char>, UploadView> {
    if uploads.contains_key(id) {
        let upload = uploads[id];
        uploads.insert(id, UploadView { parts: upload.parts.insert(number, part), ..upload })
    } else {
        uploads
    }
}

/// Whether one of the parts is at `path`.
pub open spec fn is_part_path(path: Seq<u8>, parts: Map<u32, PartView>) -> bool {
    exists|n: u32| #[trigger] parts.contains_key(n) && parts[n].abs_path == path
}

/// Whether `paths` are the paths of the parts, in some order.
pub open spec fn are_part_paths(paths: Seq<FsPath>, parts: Map<u32, PartView>) -> bool {
    &&& paths.len() == parts.dom().len()
    &&& forall|i: int| 0 <= i < paths.len() ==> is_part_path((#[trigger] paths[i])@, parts)
    &&& forall|n: u32| #[trigger]
        parts.contains_key(n) ==> exists|i: int|
            0 <= i < paths.len() && (#[trigger] paths[i])@ == parts[n].abs_path
}

/// The paths of all parts of an upload, in no particular order.
pub fn part_paths(upload: &UploadEntry) -> (r: Vec<FsPath>)
    ensures
        are_part_paths(r@, upload@.parts),
{
    let mut paths: Vec<FsPath> = Vec::new();
    let ghost entries = upload.parts@;
    let ghost order = vstd::std_specs::iter::IteratorSpec::remaining(
        &upload.parts.values(),
    ).unref();
    for part in it: upload.parts.values()
        invariant
            it.seq().unref() == order,
            paths@.len() == it.index(),
            forall|k: int| 0 <= k < paths@.len() ==> (#[trigger] paths@[k])@ == order[k].abs_path@,
    {
        paths.push(part.abs_path.clone());
    }
    let ghost parts = upload@.parts;
    assert(parts.dom() =~= entries.dom());
    assert(order.to_set() == entries.values());
    assert(paths@.len() == order.len());
    assert forall|i: int| 0 <= i < paths@.len() implies is_part_path(
        (#[trigger] paths@[i])@,
        parts,
    ) by {
        assert(order.to_set().contains(order[i]));
        let n = choose|n: u32| entries.contains_key(n) && entries[n] == order[i];
        assert(parts.contains_key(n) && parts[n].abs_path == paths@[i]@);
    }
    assert forall|n: u32| #[trigger] parts.contains_key(n) implies exists|i: int|
        0 <= i < paths@.len() && (#[trigger] paths@[i])@ == parts[n].abs_path by {
        assert(entries.values().contains(entries[n]));
        let i = choose|i: int| 0 <= i < order.len() && order[i] == entries[n];
        assert(paths@[i]@ == parts[n].abs_path);
    }
    paths
}

// ---------------------------------------------------------------------------
// Laws
// ---------------------------------------------------------------------------


/// Recording a part puts it under its number in its upload, and changes nothing
/// else. Without the upload it changes nothing at all.
pub proof fn law_recorded_part(
    uploads: Map<Seq<char>, UploadView>,
    id: Seq<char>,
    number: u32,
    part: PartView,
    other: Seq<char>,
    n: u32,
)
    ensures
        ({
            let after = with_part(uploads, id, number, part);
            &&& !uploads.contains_key(id) ==> after == uploads
            &&& after.contains_key(other) == uploads.contains_key(other)
            &&& other != id ==> after[other] == uploads[other]
            &&& uploads.contains_key(id) ==> {
                &&& after[id].key == uploads[id].key
                &&& after[id].custom_headers == uploads[id].custom_headers
                &&& after[id].parts.contains_key(number) && after[id].parts[number] == part
                &&& n != number ==> after[id].parts.contains_key(n)
                    == uploads[id].parts.contains_key(n) && after[id].parts[n]
                    == uploads[id].parts[n]
            }
        }),
{
}

/// An upload has a part exactly if it exists and holds one under the number.
pub proof fn law_parts_of_an_upload(
    uploads: Map<Seq<char>, UploadView>,
    id: Seq<char>,
    number: u32,
)
    ensures
        has_part(uploads, id, number) <==> uploads.contains_key(id)
            && uploads[id].parts.contains_key(number),
{
}

/// The paths that are handed out when an upload ends are those of its parts: each
/// part is at one of them, at each of them is a part, and there are as many of
/// them as there are parts.
pub proof fn law_paths_of_all_parts(paths: Seq<FsPath>, parts: Map<u32, PartView>, n: u32, i: int)
    requires
        are_part_paths(paths, parts),
    ensures
        paths.len() == parts.dom().len(),
        parts.contains_key(n) ==> exists|k: int|
            0 <= k < paths.len() && (#[trigger] paths[k]).bytes@ == parts[n].abs_path,
        0 <= i < paths.len() ==> exists|m: u32| #[trigger]
            parts.contains_key(m) && parts[m].abs_path == paths[i].bytes@,
{
    if parts.contains_key(n) {
        let k = choose|k: int| 0 <= k < paths.len() && (#[trigger] paths[k])@ == parts[n].abs_path;
        assert(paths[k].bytes@ == parts[n].abs_path);
    }
    if 0 <= i < paths.len() {
        assert(is_part_path(paths[i]@, parts));
    }
}

/// Parts and uploads say what their fields hold.
pub proof fn law_uploads_say_what_they_hold(part: PartEntry, upload: UploadEntry, n: u32)
    ensures
        part@.abs_path == part.abs_path.bytes@,
        part@.size == part.size,
        part@.etag == part.etag@,
        part@.md5_bytes == part.md5_bytes,
        upload@.key == upload.key@,
        upload@.custom_headers == metadata_cache::header_list(upload.custom_headers@),
        upload@.parts.contains_key(n) == upload.parts@.contains_key(n),
        upload.parts@.contains_key(n) ==> upload@.parts[n] == upload.parts@[n]@,
{
}

/// The identifiers of the uploads are such as the server hands out exactly if each
/// one is.
pub proof fn law_identifiers(uploads: Map<Seq<char>, UploadView>)
    ensures
        hyphenated_ids(uploads) <==> forall|id: Seq<char>|
            uploads.contains_key(id) ==> #[trigger] ids::is_hyphenated_id(id),
{
    if forall|id: Seq<char>| uploads.contains_key(id) ==> #[trigger] ids::is_hyphenated_id(id) {
        assert forall|id: Seq<char>| #[trigger] uploads.contains_key(id) implies
            ids::is_hyphenated_id(id) by {}
    }
}

} // verus!
