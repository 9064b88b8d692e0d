//! The index of the objects in the serve directory.
//!
//! An object is known under its key, the slash-separated path of its file
//! relative to the serve directory. The index is filled once by walking the
//! directory and kept up to date by the operations of the server.

use crate::errors::Result;
use crate::fs_path;
use crate::fs_path::FsPath;
use crate::metadata_cache;
use crate::metadata_cache::clone_headers;
use crate::metadata_cache::ChecksumSet;
use crate::metadata_cache::ChecksumView;
use crate::metadata_cache::HeaderEntry;
use crate::metadata_cache::MetadataView;
use crate::metadata_cache::ObjectMetadataCache;
use crate::metadata_cache::METADATA_CACHE_DIR;
use crate::multipart_state::MULTIPART_UPLOAD_DIR;
use crate::text::bytes_eq;
use crate::time::UnixTime;
use vstd::hash_map::StringHashMap;
use vstd::prelude::*;
use vstd::string::*;
use vstd::utf8::*;

verus! {

/// Metadata about a file tracked by the store.
#[derive(Debug)]
pub struct FileEntry {
    /// Absolute path on disk.
    pub abs_path: FsPath,
    /// File size in bytes.
    pub size: u64,
    /// Last-modified time.
    pub modified: UnixTime,
    /// Pre-computed ETag (double-quoted string).
    pub etag: String,
    /// Stored checksums for the object.
    pub checksums: ChecksumSet,
    /// Stored custom headers for the object.
    pub custom_headers: Vec<HeaderEntry>,
}

/// What a [`FileEntry`] says.
pub struct EntryView {
    pub abs_path: Seq<u8>,
    pub size: u64,
    pub modified: UnixTime,
    pub etag: Seq<char>,
    pub checksums: ChecksumView,
    pub custom_headers: Seq<(Seq<char>, Seq<char>)>,
}

impl View for FileEntry {
    type V = EntryView;

    open spec fn view(&self) -> EntryView {
        EntryView {
            abs_path: self.abs_path@,
            size: self.size,
            modified: self.modified,
            etag: self.etag@,
            checksums: self.checksums@,
            custom_headers: metadata_cache::header_list(self.custom_headers@),
        }
    }
}

impl Clone for FileEntry {
    fn clone(&self) -> (r: FileEntry)
        ensures
            r@ == self@,
    {
        FileEntry {
            abs_path: self.abs_path.clone(),
            size: self.size,
            modified: self.modified,
            etag: self.etag.clone(),
            checksums: self.checksums.clone(),
            custom_headers: clone_headers(&self.custom_headers),
        }
    }
}

/// In-memory index of files in the serve directory.
/// Keys are slash-separated paths relative to the serve root (e.g. `"a/b/c.txt"`).
///
/// Its view maps the keys to what is known about their files.
pub struct FileStore {
    /// Canonical path of the serve directory.
    serve_dir: FsPath,
    entries: StringHashMap<FileEntry>,
}

impl View for FileStore {
    type V = Map<Seq<char>, EntryView>;

    closed spec fn view(&self) -> Map<Seq<char>, EntryView> {
        self.entries@.map_values(|e: FileEntry| e@)
    }
}

/// The index after the files in `scanned` have been entered in their order.
/// Files that could not be examined are left out.
pub open spec fn indexed(scanned: Seq<(String, Result<FileEntry>)>) -> Map<Seq<char>, EntryView>
    decreases scanned.len(),
{
    if scanned.len() == 0 {
        Map::empty()
    } else {
        let before = indexed(scanned.drop_last());
        match scanned.last().1 {
            Ok(e) => before.insert(scanned.last().0@, e@),
            Err(_) => before,
        }
    }
}

/// The entry under `key`, if there is one.
pub open spec fn lookup(objects: Map<Seq<char>, EntryView>, key: Seq<char>) -> Option<EntryView> {
    if objects.contains_key(key) {
        Some(objects[key])
    } else {
        None
    }
}

/// The metadata to cache for an object.
pub open spec fn entry_metadata(entry: EntryView) -> MetadataView {
    metadata_cache::current_metadata(
        entry.modified,
        entry.etag,
        entry.checksums,
        entry.custom_headers,
    )
}

impl FileStore {
    /// The path of the serve directory.
    pub closed spec fn root(&self) -> Seq<u8> {
        self.serve_dir@
    }

    /// Build a `FileStore` from the files found below `serve_dir`, each with
    /// its key and the outcome of examining it.
    pub fn build(serve_dir: &FsPath, scanned: Vec<(String, Result<FileEntry>)>) -> (r: FileStore)
        ensures
            r.root() == serve_dir@,
            r@ == indexed(scanned@),
    {
        let mut store = FileStore { serve_dir: serve_dir.clone(), entries: StringHashMap::new() };
        assert(store@ =~= Map::empty());
        let n: usize = scanned.len();
        let mut i: usize = 0;
        assert(scanned@.take(0) == Seq::<(String, Result<FileEntry>)>::empty());
        while i < n
            invariant
                i <= n,
                n == scanned@.len(),
                store.root() == serve_dir@,
                store@ == indexed(scanned@.take(i as int)),
            decreases n - i,
        {
            assert(scanned@.take(i + 1).drop_last() == scanned@.take(i as int));
            if let Ok(entry) = &scanned[i].1 {
                store.upsert(scanned[i].0.clone(), entry.clone());
            }
            i = i + 1;
        }
        assert(scanned@.take(n as int) == scanned@);
        store
    }

    /// The serve directory this store is rooted at.
    pub fn serve_dir(&self) -> (r: &FsPath)
        ensures
            r@ == self.root(),
    {
        &self.serve_dir
    }

    /// Look up an entry by its slash-separated key (e.g. `"a/b/c.txt"`).
    pub fn get(&self, key: &str) -> (r: Option<&FileEntry>)
        ensures
            match r {
                Some(e) => self@.contains_key(key@) && e@ == self@[key@],
                None => !self@.contains_key(key@),
            },
    {
        self.entries.get(key)
    }

    /// Insert or replace an entry (used after PutObject / CompleteMultipartUpload).
    pub fn upsert(&mut self, key: String, entry: FileEntry)
        ensures
            final(self)@ == old(self)@.insert(key@, entry@),
            final(self).root() == old(self).root(),
    {
        let ghost before = self@;
        let ghost k = key@;
        let ghost e = entry@;
        self.entries.insert(key, entry);
        assert(self@ =~= before.insert(k, e));
    }

    /// Remove an entry.
    pub fn remove(&mut self, key: &str)
        ensures
            final(self)@ == old(self)@.remove(key@),
            final(self).root() == old(self).root(),
    {
        let ghost before = self@;
        self.entries.remove(key);
        assert(self@ =~= before.remove(key@));
    }
}

/// What is known about the file at `abs_path`, of which `metadata` is the metadata.
pub open spec fn restored(
    abs_path: Seq<u8>,
    size: u64,
    modified: UnixTime,
    metadata: MetadataView,
) -> EntryView {
    EntryView {
        abs_path,
        size,
        modified,
        etag: metadata.etag,
        checksums: metadata.checksums,
        custom_headers: metadata.custom_headers,
    }
}

/// What is known about the file at `abs_path`, of which `metadata` is the metadata.
pub fn compute_entry(
    abs_path: FsPath,
    size: u64,
    modified: UnixTime,
    metadata: ObjectMetadataCache,
) -> (r: FileEntry)
    ensures
        r@ == restored(abs_path@, size, modified, metadata@),
{
    FileEntry {
        abs_path,
        size,
        modified,
        etag: metadata.etag,
        checksums: metadata.checksums,
        custom_headers: metadata.custom_headers,
    }
}

// ---------------------------------------------------------------------------
// Walking the serve directory
// ---------------------------------------------------------------------------

/// What a directory entry is.
#[derive(Debug, Clone, Copy, PartialEq, Eq, Structural)]
pub enum FileKind {
    Dir,
    File,
    Other,
}

/// What to do about a directory entry.
pub enum WalkAction {
    /// It is none of the store's business.
    Skip,
    /// Walk this directory, whose path below the serve directory is `rel`.
    Descend { path: FsPath, rel: FsPath },
    /// Index this file, whose path below the serve directory is `rel`.
    Index { path: FsPath, rel: FsPath, key: String },
}

/// Whether a directory of this name belongs to the server itself.
pub open spec fn is_internal(name: Seq<u8>) -> bool {
    name == encode_utf8(METADATA_CACHE_DIR@) || name == encode_utf8(MULTIPART_UPLOAD_DIR@)
}

/// What to do about a directory entry, as a [`WalkAction`] says it.
pub enum WalkActionView {
    Skip,
    Descend { path: Seq<u8>, rel: Seq<u8> },
    Index { path: Seq<u8>, rel: Seq<u8>, key: Seq<char> },
}

impl View for WalkAction {
    type V = WalkActionView;

    open spec fn view(&self) -> WalkActionView {
        match self {
            WalkAction::Skip => WalkActionView::Skip,
            WalkAction::Descend { path, rel } => WalkActionView::Descend { path: path@, rel: rel@ },
            WalkAction::Index { path, rel, key } => WalkActionView::Index {
                path: path@,
                rel: rel@,
                key: key@,
            },
        }
    }
}

/// What to do about the entry `name` of the directory at `dir`, whose path below
/// the serve directory is `rel`: directories are walked in turn, except those
/// that belong to the server itself, and files are indexed.
pub open spec fn walk_action(
    dir: Seq<u8>,
    rel: Seq<u8>,
    name: Seq<u8>,
    kind: FileKind,
) -> WalkActionView {
    let path = fs_path::joined(dir, name);
    let below = fs_path::joined(rel, name);
    match kind {
        FileKind::Dir => if is_internal(name) {
            WalkActionView::Skip
        } else {
            WalkActionView::Descend { path, rel: below }
        },
        FileKind::File => WalkActionView::Index {
            path,
            rel: below,
            key: fs_path::path_key(below),
        },
        FileKind::Other => WalkActionView::Skip,
    }
}

/// Decides about the entry `name` of the directory at `dir`, whose path below
/// the serve directory is `rel`.
pub fn walk_dir(dir: &FsPath, rel: &FsPath, name: &FsPath, kind: FileKind) -> (r: WalkAction)
    ensures
        r@ == walk_action(dir@, rel@, name@, kind),
{
    match kind {
        FileKind::Dir => {
            let bytes: &[u8] = name.bytes.as_slice();
            if bytes_eq(bytes, METADATA_CACHE_DIR.as_bytes()) || bytes_eq(
                bytes,
                MULTIPART_UPLOAD_DIR.as_bytes(),
            ) {
                WalkAction::Skip
            } else {
                WalkAction::Descend { path: dir.join(name), rel: rel.join(name) }
            }
        },
        FileKind::File => {
            let below: FsPath = rel.join(name);
            let key: String = below.to_key();
            WalkAction::Index { path: dir.join(name), rel: below, key }
        },
        FileKind::Other => WalkAction::Skip,
    }
}

// ---------------------------------------------------------------------------
// Laws
// ---------------------------------------------------------------------------

/// Whether none of the names in a path is that of a directory of the server
/// itself.
pub open spec fn is_public(names: Seq<Seq<u8>>) -> bool {
    forall|i: int| 0 <= i < names.len() ==> !is_internal(#[trigger] names[i])
}

/// A walk that has come to `dir`, which is `rel` below the serve directory
/// `root`, stays outside the directories of the server itself and knows where
/// it is: every directory that it goes on to, and every file that it indexes,
/// lies where its relative path says, and only the name of a file may be that
/// of such a directory.
pub proof fn law_walk_stays_in_public(
    root: Seq<u8>,
    dir: Seq<u8>,
    rel: Seq<u8>,
    name: Seq<u8>,
    is_dir: bool,
)
    requires
        fs_path::names(dir) == fs_path::names(root) + fs_path::names(rel),
        is_public(fs_path::names(rel)),
        fs_path::is_name(name),
        fs_path::slash_free(name),
        is_dir ==> !is_internal(name),
    ensures
        ({
            let path = fs_path::joined(dir, name);
            let below = fs_path::joined(rel, name);
            &&& fs_path::names(path) == fs_path::names(root) + fs_path::names(below)
            &&& fs_path::names(below) == fs_path::names(rel).push(name)
            &&& is_public(fs_path::names(below).drop_last())
            &&& is_dir ==> is_public(fs_path::names(below))
        }),
{
    fs_path::lemma_names_of_name(name);
    fs_path::lemma_names_of_joined(dir, name);
    fs_path::lemma_names_of_joined(rel, name);
    let below = fs_path::joined(rel, name);
    assert(fs_path::names(below) =~= fs_path::names(rel).push(name));
    assert(fs_path::names(below).drop_last() =~= fs_path::names(rel));
    assert(fs_path::names(fs_path::joined(dir, name)) =~= fs_path::names(root) + fs_path::names(
        below,
    ));
}

/// What is found under a name in a directory.
pub enum Node {
    File,
    Dir(Seq<(Seq<u8>, Node)>),
    Other,
}

/// What a directory entry is.
pub open spec fn kind_of(node: Node) -> FileKind {
    match node {
        Node::File => FileKind::File,
        Node::Dir(_) => FileKind::Dir,
        Node::Other => FileKind::Other,
    }
}

/// Whether the entries of a directory, and of those in it, have proper names.
pub open spec fn well_named(entries: Seq<(Seq<u8>, Node)>) -> bool
    decreases entries,
{
    forall|i: int|
        0 <= i < entries.len() ==> {
            &&& fs_path::is_name((#[trigger] entries[i]).0)
            &&& fs_path::slash_free(entries[i].0)
            &&& entries[i].1 matches Node::Dir(inner) ==> well_named(inner)
        }
}

/// Whether there is a regular file that `through` leads to, from one directory
/// into the next.
pub open spec fn is_file_at(entries: Seq<(Seq<u8>, Node)>, through: Seq<Seq<u8>>) -> bool
    decreases through.len(),
{
    through.len() > 0 && exists|i: int|
        0 <= i < entries.len() && (#[trigger] entries[i]).0 == through[0] && if through.len()
            == 1 {
            entries[i].1 is File
        } else {
            entries[i].1 matches Node::Dir(inner) && is_file_at(inner, through.drop_first())
        }
}

/// Whether a regular file that no directory of the server itself leads to is at
/// `through`.
pub open spec fn is_public_file(entries: Seq<(Seq<u8>, Node)>, through: Seq<Seq<u8>>) -> bool {
    is_file_at(entries, through) && is_public(through.drop_last())
}

/// A file that a walk has come to.
pub struct FoundFile {
    pub path: Seq<u8>,
    pub rel: Seq<u8>,
    pub key: Seq<char>,
}

/// The files that a walk comes to in the directory at `dir`, whose path below
/// the serve directory is `rel`, and in those below it.
pub open spec fn files_found(
    dir: Seq<u8>,
    rel: Seq<u8>,
    entries: Seq<(Seq<u8>, Node)>,
) -> Seq<FoundFile>
    decreases entries,
{
    if entries.len() == 0 {
        Seq::empty()
    } else {
        let last = entries[entries.len() - 1];
        files_found(dir, rel, entries.subrange(0, entries.len() - 1)) + files_found_under(
            dir,
            rel,
            last.0,
            last.1,
        )
    }
}

/// The files that a walk comes to under the name of a directory entry.
pub open spec fn files_found_under(
    dir: Seq<u8>,
    rel: Seq<u8>,
    name: Seq<u8>,
    node: Node,
) -> Seq<FoundFile>
    decreases node,
{
    match (walk_action(dir, rel, name, kind_of(node)), node) {
        (WalkActionView::Index { path, rel: below, key }, _) => seq![
            FoundFile { path, rel: below, key },
        ],
        (WalkActionView::Descend { path, rel: below }, Node::Dir(inner)) => files_found(
            path,
            below,
            inner,
        ),
        _ => Seq::empty(),
    }
}

/// Whether `file`, which a walk has come to in the directory at `dir` through
/// the names `at`, is the one that `through` leads to from there.
pub open spec fn is_found_at(
    file: FoundFile,
    dir: Seq<u8>,
    at: Seq<Seq<u8>>,
    through: Seq<Seq<u8>>,
) -> bool {
    &&& fs_path::names(file.path) == fs_path::names(dir) + through
    &&& file.rel == fs_path::walked(at + through)
    &&& file.key == fs_path::path_key(file.rel)
}

proof fn lemma_step_of_walk(dir: Seq<u8>, at: Seq<Seq<u8>>, name: Seq<u8>)
    requires
        fs_path::is_name(name),
        fs_path::slash_free(name),
    ensures
        fs_path::names(fs_path::joined(dir, name)) == fs_path::names(dir).push(name),
        fs_path::joined(fs_path::walked(at), name) == fs_path::walked(at.push(name)),
{
    fs_path::lemma_names_of_name(name);
    fs_path::lemma_names_of_joined(dir, name);
    assert(at.push(name).drop_last() == at);
    assert(fs_path::names(fs_path::joined(dir, name)) =~= fs_path::names(dir).push(name));
}

proof fn lemma_files_found(dir: Seq<u8>, rel: Seq<u8>, entries: Seq<(Seq<u8>, Node)>)
    requires
        entries.len() > 0,
    ensures
        ({
            let n = entries.len() - 1;
            let (name, node) = entries[n];
            let path = fs_path::joined(dir, name);
            let below = fs_path::joined(rel, name);
            files_found(dir, rel, entries) == files_found(dir, rel, entries.subrange(0, n)) + (
            match node {
                Node::File => seq![
                    FoundFile { path, rel: below, key: fs_path::path_key(below) },
                ],
                Node::Dir(inner) => if is_internal(name) {
                    Seq::empty()
                } else {
                    files_found(path, below, inner)
                },
                Node::Other => Seq::empty(),
            })
        }),
{
    reveal_with_fuel(files_found, 3);
    reveal_with_fuel(files_found_under, 3);
}

proof fn lemma_found_file_is_public(
    dir: Seq<u8>,
    at: Seq<Seq<u8>>,
    entries: Seq<(Seq<u8>, Node)>,
    i: int,
) -> (through: Seq<Seq<u8>>)
    requires
        well_named(entries),
        0 <= i < files_found(dir, fs_path::walked(at), entries).len(),
    ensures
        is_public_file(entries, through),
        is_found_at(files_found(dir, fs_path::walked(at), entries)[i], dir, at, through),
    decreases entries,
{
    let n = entries.len() - 1;
    let front = entries.subrange(0, n);
    let rel = fs_path::walked(at);
    let before = files_found(dir, rel, front);
    let (name, node) = entries[n];
    lemma_files_found(dir, rel, entries);
    if i < before.len() {
        assert forall|k: int| 0 <= k < front.len() implies {
            &&& fs_path::is_name((#[trigger] front[k]).0)
            &&& fs_path::slash_free(front[k].0)
            &&& front[k].1 matches Node::Dir(inner) ==> well_named(inner)
        } by {
            assert(front[k] == entries[k]);
        }
        let through = lemma_found_file_is_public(dir, at, front, i);
        let k = choose|k: int|
            0 <= k < front.len() && (#[trigger] front[k]).0 == through[0] && if through.len()
                == 1 {
                front[k].1 is File
            } else {
                front[k].1 matches Node::Dir(inner) && is_file_at(inner, through.drop_first())
            };
        assert(entries[k] == front[k]);
        through
    } else {
        lemma_step_of_walk(dir, at, name);
        match node {
            Node::Dir(inner) => {
                let path = fs_path::joined(dir, name);
                let rest = lemma_found_file_is_public(
                    path,
                    at.push(name),
                    inner,
                    i - before.len(),
                );
                let through = seq![name] + rest;
                assert(through.drop_first() == rest);
                assert(entries[n].0 == through[0]);
                assert(through.drop_last() == seq![name] + rest.drop_last());
                assert forall|k: int| 0 <= k < through.drop_last().len() implies !is_internal(
                    #[trigger] through.drop_last()[k],
                ) by {
                    if k > 0 {
                        assert(through.drop_last()[k] == rest.drop_last()[k - 1]);
                    }
                }
                assert(at + through == at.push(name) + rest);
                assert(fs_path::names(dir) + through == fs_path::names(path) + rest);
                through
            },
            _ => {
                let through = seq![name];
                assert(entries[n].0 == through[0]);
                assert(at + through == at.push(name));
                assert(fs_path::names(dir) + through == fs_path::names(dir).push(name));
                through
            },
        }
    }
}

proof fn lemma_public_file_is_found(
    dir: Seq<u8>,
    at: Seq<Seq<u8>>,
    entries: Seq<(Seq<u8>, Node)>,
    through: Seq<Seq<u8>>,
) -> (i: int)
    requires
        well_named(entries),
        is_public_file(entries, through),
    ensures
        0 <= i < files_found(dir, fs_path::walked(at), entries).len(),
        is_found_at(files_found(dir, fs_path::walked(at), entries)[i], dir, at, through),
    decreases entries,
{
    let n = entries.len() - 1;
    let front = entries.subrange(0, n);
    let rel = fs_path::walked(at);
    let before = files_found(dir, rel, front);
    let (name, node) = entries[n];
    lemma_files_found(dir, rel, entries);
    let k = choose|k: int|
        0 <= k < entries.len() && (#[trigger] entries[k]).0 == through[0] && if through.len()
            == 1 {
            entries[k].1 is File
        } else {
            entries[k].1 matches Node::Dir(inner) && is_file_at(inner, through.drop_first())
        };
    if k < n {
        assert forall|j: int| 0 <= j < front.len() implies {
            &&& fs_path::is_name((#[trigger] front[j]).0)
            &&& fs_path::slash_free(front[j].0)
            &&& front[j].1 matches Node::Dir(inner) ==> well_named(inner)
        } by {
            assert(front[j] == entries[j]);
        }
        assert(front[k] == entries[k]);
        lemma_public_file_is_found(dir, at, front, through)
    } else {
        lemma_step_of_walk(dir, at, name);
        if through.len() == 1 {
            assert(through == seq![name]);
            assert(at + through == at.push(name));
            assert(fs_path::names(dir) + through == fs_path::names(dir).push(name));
            before.len() as int
        } else {
            let rest = through.drop_first();
            let path = fs_path::joined(dir, name);
            assert(through.drop_last()[0] == name);
            assert(!is_internal(name));
            assert forall|j: int| 0 <= j < rest.drop_last().len() implies !is_internal(
                #[trigger] rest.drop_last()[j],
            ) by {
                assert(rest.drop_last()[j] == through.drop_last()[j + 1]);
            }
            let i = lemma_public_file_is_found(path, at.push(name), node->Dir_0, rest);
            assert(through == seq![name] + rest);
            assert(at + through == at.push(name) + rest);
            assert(fs_path::names(dir) + through == fs_path::names(path) + rest);
            before.len() + i
        }
    }
}

/// Whether `file` is a regular file outside the directories of the server itself,
/// and stands where it is.
pub open spec fn is_some_public_file(
    entries: Seq<(Seq<u8>, Node)>,
    root: Seq<u8>,
    file: FoundFile,
) -> bool {
    exists|through: Seq<Seq<u8>>| #[trigger]
        is_public_file(entries, through) && is_found_at(file, root, Seq::empty(), through)
}

/// Whether the file that `through` leads to is among those that were found.
pub open spec fn is_among(found: Seq<FoundFile>, root: Seq<u8>, through: Seq<Seq<u8>>) -> bool {
    exists|i: int|
        0 <= i < found.len() && is_found_at(#[trigger] found[i], root, Seq::empty(), through)
}

/// A walk of the serve directory at `root` comes exactly to the regular files
/// outside the directories of the server itself, to each where it is.
pub proof fn law_walk_finds_exactly_the_public_files(
    root: Seq<u8>,
    entries: Seq<(Seq<u8>, Node)>,
)
    requires
        well_named(entries),
    ensures
        ({
            let found = files_found(root, Seq::empty(), entries);
            &&& forall|i: int|
                0 <= i < found.len() ==> is_some_public_file(entries, root, #[trigger] found[i])
            &&& forall|through: Seq<Seq<u8>>| #[trigger]
                is_public_file(entries, through) ==> is_among(found, root, through)
        }),
{
    let none = Seq::<Seq<u8>>::empty();
    let found = files_found(root, Seq::empty(), entries);
    assert(fs_path::walked(none) == Seq::<u8>::empty());
    assert forall|i: int| 0 <= i < found.len() implies is_some_public_file(
        entries,
        root,
        #[trigger] found[i],
    ) by {
        let through = lemma_found_file_is_public(root, none, entries, i);
        assert(is_public_file(entries, through));
    }
    assert forall|through: Seq<Seq<u8>>| #[trigger]
        is_public_file(entries, through) implies is_among(found, root, through) by {
        let i = lemma_public_file_is_found(root, none, entries, through);
        assert(is_found_at(found[i], root, none, through));
    }
}

proof fn lemma_keys_of_index(scanned: Seq<(String, Result<FileEntry>)>, key: Seq<char>)
    ensures
        indexed(scanned).contains_key(key) <==> exists|i: int|
            0 <= i < scanned.len() && (#[trigger] scanned[i]).0@ == key && scanned[i].1 is Ok,
    decreases scanned.len(),
{
    if scanned.len() > 0 {
        let front = scanned.drop_last();
        let n = front.len() as int;
        lemma_keys_of_index(front, key);
        assert(scanned.last() == scanned[n]);
        if indexed(front).contains_key(key) {
            let i = choose|i: int|
                0 <= i < front.len() && (#[trigger] front[i]).0@ == key && front[i].1 is Ok;
            assert(scanned[i] == front[i]);
        }
        if exists|i: int|
            0 <= i < scanned.len() && (#[trigger] scanned[i]).0@ == key && scanned[i].1 is Ok {
            let i = choose|i: int|
                0 <= i < scanned.len() && (#[trigger] scanned[i]).0@ == key && scanned[i].1 is Ok;
            if i < n {
                assert(front[i] == scanned[i]);
            }
        }
    }
}

/// Whether `key` is that of a regular file outside the directories of the
/// server itself.
pub open spec fn is_key_of_public_file(entries: Seq<(Seq<u8>, Node)>, key: Seq<char>) -> bool {
    exists|through: Seq<Seq<u8>>| #[trigger]
        is_public_file(entries, through) && key == fs_path::path_key(fs_path::walked(through))
}

/// The index that is built from a walk of the serve directory knows no object
/// but the regular files outside the directories of the server itself, and it
/// knows all of them if each could be examined.
pub proof fn law_index_holds_exactly_the_public_files(
    root: Seq<u8>,
    entries: Seq<(Seq<u8>, Node)>,
    scanned: Seq<(String, Result<FileEntry>)>,
    key: Seq<char>,
)
    requires
        well_named(entries),
        scanned.len() == files_found(root, Seq::empty(), entries).len(),
        forall|i: int|
            0 <= i < scanned.len() ==> (#[trigger] scanned[i]).0@ == files_found(
                root,
                Seq::empty(),
                entries,
            )[i].key,
    ensures
        indexed(scanned).contains_key(key) ==> is_key_of_public_file(entries, key),
        is_key_of_public_file(entries, key) && (forall|i: int|
            0 <= i < scanned.len() ==> (#[trigger] scanned[i]).1 is Ok) ==> indexed(
            scanned,
        ).contains_key(key),
{
    let none = Seq::<Seq<u8>>::empty();
    let found = files_found(root, Seq::empty(), entries);
    assert(fs_path::walked(none) == Seq::<u8>::empty());
    lemma_keys_of_index(scanned, key);
    if indexed(scanned).contains_key(key) {
        let i = choose|i: int|
            0 <= i < scanned.len() && (#[trigger] scanned[i]).0@ == key && scanned[i].1 is Ok;
        let through = lemma_found_file_is_public(root, none, entries, i);
        assert(none + through == through);
        assert(is_public_file(entries, through));
    }
    if is_key_of_public_file(entries, key) {
        let through = choose|through: Seq<Seq<u8>>| #[trigger]
            is_public_file(entries, through) && key == fs_path::path_key(fs_path::walked(through));
        let i = lemma_public_file_is_found(root, none, entries, through);
        assert(none + through == through);
        assert(scanned[i].0@ == key);
    }
}

/// What is known of an object is the same after a restart, if its file is
/// unchanged and the metadata that was cached for it is found.
pub proof fn law_cached_metadata_restores_the_entry(entry: EntryView)
    ensures
        restored(entry.abs_path, entry.size, entry.modified, entry_metadata(entry)) == entry,
        entry_metadata(entry).last_modified_unix_secs == entry.modified.whole_secs(),
{
}

/// The index holds every file that could be examined, unless a later one of the
/// same key takes its place.
pub proof fn law_index_holds_every_file(scanned: Seq<(String, Result<FileEntry>)>, i: int)
    requires
        0 <= i < scanned.len(),
        scanned[i].1 is Ok,
        forall|j: int|
            i < j < scanned.len() ==> (#[trigger] scanned[j]).0@ != scanned[i].0@
                || scanned[j].1 is Err,
    ensures
        lookup(indexed(scanned), scanned[i].0@) == Some(scanned[i].1->Ok_0@),
    decreases scanned.len(),
{
    let front = scanned.drop_last();
    assert(scanned.last() == scanned[scanned.len() - 1]);
    if i < front.len() {
        assert(front[i] == scanned[i]);
        assert forall|j: int| i < j < front.len() implies (#[trigger] front[j]).0@ != front[i].0@
            || front[j].1 is Err by {
            assert(front[j] == scanned[j]);
        }
        law_index_holds_every_file(front, i);
    }
}

/// Later files take the place of earlier ones of the same key; files of other
/// keys, and files that could not be examined, change nothing.
pub proof fn law_index_holds_the_last_file(
    scanned: Seq<(String, Result<FileEntry>)>,
    file: (String, Result<FileEntry>),
    key: Seq<char>,
)
    ensures
        lookup(indexed(scanned.push(file)), key) == match file.1 {
            Ok(e) if file.0@ == key => Some(e@),
            _ => lookup(indexed(scanned), key),
        },
{
    assert(scanned.push(file).drop_last() == scanned);
}

/// An object is found exactly if it is indexed under its key.
pub proof fn law_lookup(objects: Map<Seq<char>, EntryView>, key: Seq<char>)
    ensures
        lookup(objects, key) == if objects.contains_key(key) {
            Some(objects[key])
        } else {
            None
        },
{
}

/// A walk that has found no files makes an empty index.
pub proof fn law_empty_walk_makes_an_empty_index()
    ensures
        indexed(Seq::empty()) == Map::<Seq<char>, EntryView>::empty(),
{
}

/// What is known of a file is where it is, its size and its modification time, and
/// what its metadata says. The metadata to cache for an object is what is known of
/// it, but for where it is and its size.
pub proof fn law_entries_and_metadata(
    abs_path: Seq<u8>,
    size: u64,
    modified: UnixTime,
    metadata: MetadataView,
    entry: EntryView,
)
    ensures
        restored(abs_path, size, modified, metadata).abs_path == abs_path,
        restored(abs_path, size, modified, metadata).size == size,
        restored(abs_path, size, modified, metadata).modified == modified,
        restored(abs_path, size, modified, metadata).etag == metadata.etag,
        restored(abs_path, size, modified, metadata).checksums == metadata.checksums,
        restored(abs_path, size, modified, metadata).custom_headers == metadata.custom_headers,
        entry_metadata(entry).last_modified_unix_secs == entry.modified.whole_secs(),
        entry_metadata(entry).etag == entry.etag,
        entry_metadata(entry).checksums == entry.checksums,
        entry_metadata(entry).custom_headers == entry.custom_headers,
{
}

/// Of all directories only those two that hold cached metadata and uploaded parts
/// are passed over. All others are walked, each regular file is indexed under the
/// key of its path, and what is neither is passed over.
pub proof fn law_walk_of_a_directory_entry(dir: Seq<u8>, rel: Seq<u8>, name: Seq<u8>)
    ensures
        ({
            let internal = name == encode_utf8(".fxv-metadata-cache"@) || name == encode_utf8(
                ".fxv-multipart-uploads"@,
            );
            &&& internal ==> walk_action(dir, rel, name, FileKind::Dir) is Skip
            &&& !internal ==> walk_action(dir, rel, name, FileKind::Dir) == (
            WalkActionView::Descend {
                path: fs_path::joined(dir, name),
                rel: fs_path::joined(rel, name),
            })
            &&& walk_action(dir, rel, name, FileKind::File) == (WalkActionView::Index {
                path: fs_path::joined(dir, name),
                rel: fs_path::joined(rel, name),
                key: fs_path::path_key(fs_path::joined(rel, name)),
            })
            &&& walk_action(dir, rel, name, FileKind::Other) is Skip
        }),
{
}

/// Names are public exactly if none of them is that of a directory of the server
/// itself.
pub proof fn law_public_names(names: Seq<Seq<u8>>)
    ensures
        is_public(names) <==> forall|i: int|
            0 <= i < names.len() ==> #[trigger] names[i] != encode_utf8(".fxv-metadata-cache"@)
                && names[i] != encode_utf8(".fxv-multipart-uploads"@),
{
    if is_public(names) {
        assert forall|i: int| 0 <= i < names.len() implies #[trigger] names[i] != encode_utf8(
            ".fxv-metadata-cache"@,
        ) && names[i] != encode_utf8(".fxv-multipart-uploads"@) by {
            assert(!is_internal(names[i]));
        }
    }
}

/// A file is at the names that lead to it: one name leads to a regular file of that
/// name, and more of them lead to the one that the others lead to from a directory
/// of the first.
pub proof fn law_files_in_directories(
    entries: Seq<(Seq<u8>, Node)>,
    i: int,
    through: Seq<Seq<u8>>,
)
    requires
        0 <= i < entries.len(),
    ensures
        !is_file_at(entries, Seq::empty()),
        entries[i].1 is File ==> is_file_at(entries, seq![entries[i].0]),
        entries[i].1 matches Node::Dir(inner) ==> is_file_at(inner, through) ==> is_file_at(
            entries,
            seq![entries[i].0] + through,
        ),
        is_public_file(entries, through) <==> is_file_at(entries, through) && is_public(
            through.drop_last(),
        ),
{
    if let Node::Dir(inner) = entries[i].1 {
        if is_file_at(inner, through) {
            let all = seq![entries[i].0] + through;
            assert(all.drop_first() == through);
            assert(entries[i].0 == all[0]);
        }
    }
    assert(entries[i].0 == seq![entries[i].0][0]);
}

/// Entries and actions say what they hold.
pub proof fn law_entries_say_what_they_hold(
    entry: FileEntry,
    path: FsPath,
    rel: FsPath,
    key: String,
)
    ensures
        entry@.abs_path == entry.abs_path.bytes@,
        entry@.size == entry.size,
        entry@.modified == entry.modified,
        entry@.etag == entry.etag@,
        entry@.checksums == entry.checksums@,
        entry@.custom_headers == metadata_cache::header_list(entry.custom_headers@),
        WalkAction::Skip@ is Skip,
        (WalkAction::Descend { path, rel })@ == (WalkActionView::Descend {
            path: path.bytes@,
            rel: rel.bytes@,
        }),
        (WalkAction::Index { path, rel, key })@ == (WalkActionView::Index {
            path: path.bytes@,
            rel: rel.bytes@,
            key: key@,
        }),
{
}

} // verus!
