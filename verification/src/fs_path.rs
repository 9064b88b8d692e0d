//! Unix paths.
//!
//! A path is its bytes. The slash separates its segments; empty segments and
//! segments that are a single dot name nothing, the others are the names that
//! the path consists of.

use crate::text;
use vstd::prelude::*;
use vstd::string::*;
use vstd::utf8::*;

verus! {

/// A Unix path.
#[derive(Debug, PartialEq, Eq)]
pub struct FsPath {
    pub bytes: Vec<u8>,
}

impl View for FsPath {
    type V = Seq<u8>;

    open spec fn view(&self) -> Seq<u8> {
        self.bytes@
    }
}

impl Clone for FsPath {
    fn clone(&self) -> (r: FsPath)
        ensures
            r@ == self@,
    {
        FsPath { bytes: self.bytes.clone() }
    }
}

/// The byte that separates segments.
pub const SLASH: u8 = 47;

/// The byte of a dot.
pub const DOT: u8 = 46;

/// The parts of a path between its slashes.
pub open spec fn segments(p: Seq<u8>) -> Seq<Seq<u8>>
    decreases p.len(),
{
    if p.len() == 0 {
        seq![Seq::empty()]
    } else {
        let front = segments(p.drop_last());
        if p.last() == SLASH {
            front.push(Seq::empty())
        } else {
            front.drop_last().push(front.last().push(p.last()))
        }
    }
}

/// Whether a segment is a name: neither empty nor a single dot.
pub open spec fn is_name(segment: Seq<u8>) -> bool {
    segment.len() > 0 && segment != seq![DOT]
}

/// The names among `segs`.
pub open spec fn only_names(segs: Seq<Seq<u8>>) -> Seq<Seq<u8>>
    decreases segs.len(),
{
    if segs.len() == 0 {
        Seq::empty()
    } else if is_name(segs.last()) {
        only_names(segs.drop_last()).push(segs.last())
    } else {
        only_names(segs.drop_last())
    }
}

/// The names that a path consists of.
pub open spec fn names(p: Seq<u8>) -> Seq<Seq<u8>> {
    only_names(segments(p))
}

/// The path `rel`, taken relative to `base` unless it begins with a slash.
pub open spec fn joined(base: Seq<u8>, rel: Seq<u8>) -> Seq<u8> {
    if rel.len() > 0 && rel[0] == SLASH {
        rel
    } else if base.len() == 0 || base.last() == SLASH {
        base + rel
    } else {
        base.push(SLASH) + rel
    }
}

/// A path without the slashes and single dots behind its last name.
pub open spec fn to_last_name(p: Seq<u8>) -> Seq<u8>
    decreases p.len(),
{
    if p.len() > 0 && p.last() == SLASH {
        to_last_name(p.drop_last())
    } else if p.len() > 1 && p.last() == DOT && p[p.len() - 2] == SLASH {
        to_last_name(p.drop_last())
    } else {
        p
    }
}

/// The number of bytes behind the last slash.
pub open spec fn last_segment_len(p: Seq<u8>) -> nat
    decreases p.len(),
{
    if p.len() == 0 || p.last() == SLASH {
        0
    } else {
        last_segment_len(p.drop_last()) + 1
    }
}

/// The index of the last dot in a name, or -1.
pub open spec fn last_dot(name: Seq<u8>) -> int
    decreases name.len(),
{
    if name.len() == 0 {
        -1
    } else if name.last() == DOT {
        name.len() - 1
    } else {
        last_dot(name.drop_last())
    }
}

/// The length of a file name without its extension. A dot at the beginning
/// begins no extension.
pub open spec fn stem_len(name: Seq<u8>) -> int {
    if last_dot(name) > 0 {
        last_dot(name)
    } else {
        name.len() as int
    }
}

/// Whether a path ends with a name that is not that of the parent directory.
pub open spec fn has_file_name(p: Seq<u8>) -> bool {
    names(p).len() > 0 && names(p).last() != seq![DOT, DOT]
}

/// The file name that a path ends with.
pub open spec fn file_name(p: Seq<u8>) -> Seq<u8> {
    let q = to_last_name(p);
    q.skip(q.len() - last_segment_len(q))
}

/// The path with the extension of its file name replaced by `extension`.
pub open spec fn with_extension(p: Seq<u8>, extension: Seq<u8>) -> Seq<u8> {
    let q = to_last_name(p);
    q.take(q.len() - last_segment_len(q) + stem_len(file_name(p))).push(DOT) + extension
}

impl FsPath {
    /// The path with the bytes of `s`.
    pub fn from_text(s: &str) -> (r: FsPath)
        ensures
            r@ == s.spec_bytes(),
    {
        FsPath { bytes: s.as_bytes_vec() }
    }

    /// The path `rel`, taken relative to `self` unless it begins with a slash.
    pub fn join(&self, rel: &FsPath) -> (r: FsPath)
        ensures
            r@ == joined(self@, rel@),
    {
        if rel.bytes.len() > 0 && rel.bytes[0] == SLASH {
            return rel.clone();
        }
        let mut bytes: Vec<u8> = self.bytes.clone();
        let n: usize = bytes.len();
        if n > 0 && bytes[n - 1] != SLASH {
            bytes.push(SLASH);
        }
        bytes.extend_from_slice(rel.bytes.as_slice());
        assert(bytes@ =~= joined(self@, rel@));
        FsPath { bytes }
    }

    /// The length of the path without the slashes and single dots behind its
    /// last name.
    fn last_name_end(&self) -> (r: usize)
        ensures
            r <= self@.len(),
            self@.take(r as int) == to_last_name(self@),
    {
        let mut n: usize = self.bytes.len();
        assert(self@.take(n as int) == self@);
        while n > 0 && (self.bytes[n - 1] == SLASH || (n > 1 && self.bytes[n - 1] == DOT
            && self.bytes[n - 2] == SLASH))
            invariant
                n <= self@.len(),
                to_last_name(self@.take(n as int)) == to_last_name(self@),
            decreases n,
        {
            assert(self@.take(n as int).drop_last() == self@.take(n - 1));
            n = n - 1;
        }
        n
    }

    /// The path with `suffix` added to its file name.
    pub fn with_suffix(&self, suffix: &str) -> (r: FsPath)
        ensures
            r@ == to_last_name(self@) + suffix.spec_bytes(),
    {
        let n: usize = self.last_name_end();
        let mut bytes: Vec<u8> = self.bytes.clone();
        bytes.truncate(n);
        bytes.extend_from_slice(suffix.as_bytes());
        assert(bytes@ =~= self@.take(n as int) + suffix.spec_bytes());
        FsPath { bytes }
    }

    /// The path with the extension of its file name replaced by `extension`.
    pub fn with_extension(&self, extension: &str) -> (r: FsPath)
        ensures
            r@ == with_extension(self@, extension.spec_bytes()),
    {
        let n: usize = self.last_name_end();
        let ghost q = to_last_name(self@);
        let mut k: usize = n;
        assert(q.take(n as int) == q);
        while k > 0 && self.bytes[k - 1] != SLASH
            invariant
                k <= n <= self@.len(),
                q == self@.take(n as int),
                last_segment_len(q) == last_segment_len(q.take(k as int)) + (n - k),
            decreases k,
        {
            assert(q.take(k as int).drop_last() == q.take(k - 1));
            k = k - 1;
        }
        assert(last_segment_len(q) == n - k);
        let ghost name = file_name(self@);
        assert(name == q.skip(k as int));
        let mut d: usize = n;
        assert(name.take(n - k) == name);
        while d > k && self.bytes[d - 1] != DOT
            invariant
                k <= d <= n <= self@.len(),
                q == self@.take(n as int),
                name == q.skip(k as int),
                last_dot(name) == last_dot(name.take(d - k)),
            decreases d,
        {
            assert(name.take(d - k).drop_last() == name.take(d - k - 1));
            d = d - 1;
        }
        let cut: usize = if d > k && d - 1 > k { d - 1 } else { n };
        assert(cut == k + stem_len(name));
        let mut bytes: Vec<u8> = self.bytes.clone();
        bytes.truncate(cut);
        bytes.push(DOT);
        bytes.extend_from_slice(extension.as_bytes());
        assert(bytes@ =~= with_extension(self@, extension.spec_bytes()));
        FsPath { bytes }
    }
}

impl FsPath {
    /// The parts of the path between its slashes.
    pub fn split(&self) -> (r: Vec<Vec<u8>>)
        ensures
            r@.len() == segments(self@).len(),
            forall|i: int| 0 <= i < r@.len() ==> (#[trigger] r@[i])@ == segments(self@)[i],
    {
        let mut done: Vec<Vec<u8>> = Vec::new();
        let mut current: Vec<u8> = Vec::new();
        let n: usize = self.bytes.len();
        let mut i: usize = 0;
        assert(segments(self@.take(0)) == seq![Seq::<u8>::empty()]);
        while i < n
            invariant
                i <= n,
                n == self@.len(),
                segments(self@.take(i as int)).len() == done@.len() + 1,
                forall|k: int|
                    0 <= k < done@.len() ==> (#[trigger] done@[k])@ == segments(
                        self@.take(i as int),
                    )[k],
                current@ == segments(self@.take(i as int)).last(),
            decreases n - i,
        {
            assert(self@.take(i + 1).drop_last() == self@.take(i as int));
            let b: u8 = self.bytes[i];
            if b == SLASH {
                done.push(current);
                current = Vec::new();
            } else {
                current.push(b);
            }
            i = i + 1;
        }
        assert(self@.take(n as int) == self@);
        done.push(current);
        done
    }
}

// ---------------------------------------------------------------------------
// Lemmas
// ---------------------------------------------------------------------------

/// Whether `s` holds no slash.
pub open spec fn slash_free(s: Seq<u8>) -> bool {
    forall|i: int| 0 <= i < s.len() ==> #[trigger] s[i] != SLASH
}

/// A path has at least one segment, and its segments hold no slash.
pub proof fn lemma_segments_slash_free(p: Seq<u8>)
    ensures
        segments(p).len() > 0,
        forall|i: int| 0 <= i < segments(p).len() ==> slash_free(#[trigger] segments(p)[i]),
    decreases p.len(),
{
    if p.len() > 0 {
        lemma_segments_slash_free(p.drop_last());
    }
}

/// A slash separates the segments in front of it from those behind it.
pub proof fn lemma_segments_around_slash(a: Seq<u8>, b: Seq<u8>)
    ensures
        segments(a.push(SLASH) + b) == segments(a) + segments(b),
    decreases b.len(),
{
    let p = a.push(SLASH) + b;
    if b.len() == 0 {
        assert(p == a.push(SLASH));
        assert(p.drop_last() == a);
        assert(segments(p) == segments(a) + segments(b));
    } else {
        lemma_segments_around_slash(a, b.drop_last());
        lemma_segments_slash_free(b.drop_last());
        assert(p.drop_last() == a.push(SLASH) + b.drop_last());
        assert(segments(p) == segments(a) + segments(b));
    }
}

/// What follows a slash is a segment of its own, if it holds no slash.
pub proof fn lemma_segments_of_name(dir: Seq<u8>, name: Seq<u8>)
    requires
        dir.len() == 0 || dir.last() == SLASH,
        slash_free(name),
    ensures
        segments(dir + name) == segments(dir).drop_last().push(name),
    decreases name.len(),
{
    let p = dir + name;
    lemma_segments_slash_free(dir);
    if name.len() == 0 {
        assert(p == dir);
        assert(segments(dir).last() == name);
        assert(segments(dir) == segments(dir).drop_last().push(name));
    } else {
        lemma_segments_of_name(dir, name.drop_last());
        assert(p.drop_last() == dir + name.drop_last());
        assert(name.drop_last().push(name.last()) == name);
        assert(p.last() == name.last() && name.last() == name[name.len() - 1]);
        assert(segments(p) == segments(dir).drop_last().push(name));
    }
}

/// The bytes behind the last slash are the last segment.
pub proof fn lemma_last_segment(p: Seq<u8>)
    ensures
        last_segment_len(p) <= p.len(),
        segments(p).last() == p.skip(p.len() - last_segment_len(p)),
        slash_free(p.skip(p.len() - last_segment_len(p))),
        ({
            let dir = p.take(p.len() - last_segment_len(p));
            dir.len() == 0 || dir.last() == SLASH
        }),
    decreases p.len(),
{
    if p.len() > 0 && p.last() != SLASH {
        let q = p.drop_last();
        lemma_last_segment(q);
        let k = p.len() - last_segment_len(p);
        assert(p.skip(k) == q.skip(k).push(p.last()));
        assert(p.take(k) == q.take(k));
    } else {
        assert(p.skip(p.len() as int) == Seq::<u8>::empty());
        assert(p.take(p.len() as int) == p);
    }
}

proof fn lemma_only_names_concat(x: Seq<Seq<u8>>, y: Seq<Seq<u8>>)
    ensures
        only_names(x + y) == only_names(x) + only_names(y),
    decreases y.len(),
{
    if y.len() == 0 {
        assert(x + y == x);
    } else {
        lemma_only_names_concat(x, y.drop_last());
        assert((x + y).drop_last() == x + y.drop_last());
    }
}

proof fn lemma_only_names_are_names(segs: Seq<Seq<u8>>)
    ensures
        forall|i: int|
            0 <= i < only_names(segs).len() ==> is_name(#[trigger] only_names(segs)[i])
                && segs.contains(only_names(segs)[i]),
    decreases segs.len(),
{
    if segs.len() > 0 {
        lemma_only_names_are_names(segs.drop_last());
        assert forall|i: int| 0 <= i < only_names(segs).len() implies is_name(
            #[trigger] only_names(segs)[i],
        ) && segs.contains(only_names(segs)[i]) by {
            let front = only_names(segs.drop_last());
            if i < front.len() {
                assert(front[i] == only_names(segs)[i]);
                let j = choose|j: int|
                    0 <= j < segs.drop_last().len() && segs.drop_last()[j] == front[i];
                assert(segs[j] == front[i]);
            } else {
                assert(segs[segs.len() - 1] == only_names(segs)[i]);
            }
        }
    }
}

/// The names of a path are names, and segments of it.
pub proof fn lemma_names_are_segments(p: Seq<u8>)
    ensures
        forall|i: int|
            0 <= i < names(p).len() ==> is_name(#[trigger] names(p)[i]) && slash_free(names(p)[i])
                && segments(p).contains(names(p)[i]),
{
    lemma_only_names_are_names(segments(p));
    lemma_segments_slash_free(p);
}

/// The names of a joined path are those of its base and then those of the
/// relative path.
pub proof fn lemma_names_of_joined(base: Seq<u8>, rel: Seq<u8>)
    requires
        rel.len() == 0 || rel[0] != SLASH,
    ensures
        names(joined(base, rel)) == names(base) + names(rel),
{
    if base.len() == 0 {
        assert(base + rel == rel);
        assert(only_names(seq![Seq::<u8>::empty()].drop_last()) == Seq::<Seq<u8>>::empty());
        assert(names(base) == Seq::<Seq<u8>>::empty());
        assert(names(base) + names(rel) == names(rel));
    } else if base.last() == SLASH {
        let front = base.drop_last();
        assert(front.push(SLASH) == base);
        lemma_segments_around_slash(front, rel);
        lemma_only_names_concat(segments(front), segments(rel));
        assert(segments(base).drop_last() == segments(front));
        assert(names(base) == names(front));
    } else {
        lemma_segments_around_slash(base, rel);
        lemma_only_names_concat(segments(base), segments(rel));
    }
}

/// A slash in front of a path adds no name.
pub proof fn lemma_names_behind_slash(p: Seq<u8>)
    ensures
        names(Seq::<u8>::empty().push(SLASH) + p) == names(p),
{
    let none = Seq::<u8>::empty();
    lemma_segments_around_slash(none, p);
    lemma_only_names_concat(segments(none), segments(p));
    assert(segments(none).drop_last() == Seq::<Seq<u8>>::empty());
    assert(only_names(segments(none).drop_last()) == Seq::<Seq<u8>>::empty());
    assert(only_names(segments(none)) == Seq::<Seq<u8>>::empty());
    assert(only_names(segments(none)) + names(p) == names(p));
}

/// A path whose first segment is a name has one.
pub proof fn lemma_first_name(p: Seq<u8>)
    requires
        is_name(segments(p)[0]),
    ensures
        names(p).len() > 0,
{
    lemma_segments_slash_free(p);
    let first = segments(p).take(1);
    assert(first + segments(p).skip(1) == segments(p));
    lemma_only_names_concat(first, segments(p).skip(1));
    assert(first.last() == segments(p)[0]);
}

/// Slashes and single dots behind the last name name nothing.
pub proof fn lemma_names_up_to_last(p: Seq<u8>)
    ensures
        names(to_last_name(p)) == names(p),
        names(p).len() > 0 ==> names(p).last() == file_name(p) && segments(
            to_last_name(p),
        ).last() == file_name(p),
    decreases p.len(),
{
    let q = p.drop_last();
    if p.len() > 0 && p.last() == SLASH {
        lemma_names_up_to_last(q);
        assert(segments(p).drop_last() == segments(q));
    } else if p.len() > 1 && p.last() == DOT && p[p.len() - 2] == SLASH {
        lemma_names_up_to_last(q);
        let front = q.drop_last();
        assert(q.last() == SLASH);
        assert(segments(q) == segments(front).push(Seq::empty()));
        assert(segments(q).drop_last() == segments(front));
        assert(names(q) == names(front));
        assert(segments(p).last() == seq![DOT]);
        assert(segments(p).drop_last() == segments(front));
    } else {
        lemma_last_segment(p);
        lemma_segments_slash_free(p);
        if names(p).len() > 0 && !is_name(segments(p).last()) {
            let last = segments(p).last();
            if last.len() == 0 {
                assert(last_segment_len(p) == 0);
                assert(p.len() == 0);
                assert(segments(p).drop_last() == Seq::<Seq<u8>>::empty());
            } else {
                assert(last == seq![DOT]);
                assert(last_segment_len(p) == 1);
                let dir = p.take(p.len() - 1);
                assert(p.last() == last[0]);
                assert(dir.len() == 0);
                assert(p.drop_last() == Seq::<u8>::empty());
                assert(segments(p).drop_last() == Seq::<Seq<u8>>::empty());
            }
            assert(only_names(segments(p).drop_last()).len() == 0);
        }
    }
}

proof fn lemma_last_dot(name: Seq<u8>)
    ensures
        -1 <= last_dot(name) < name.len(),
        last_dot(name) >= 0 ==> name[last_dot(name)] == DOT,
        forall|i: int| last_dot(name) < i < name.len() ==> #[trigger] name[i] != DOT,
    decreases name.len(),
{
    if name.len() > 0 && name.last() != DOT {
        lemma_last_dot(name.drop_last());
        assert forall|i: int| last_dot(name) < i < name.len() implies #[trigger] name[i]
            != DOT by {
            if i < name.len() - 1 {
                assert(name.drop_last()[i] == name[i]);
            }
        }
    }
}

/// Replacing the extension of a file name leaves the directories alone.
pub proof fn lemma_names_with_extension(p: Seq<u8>, extension: Seq<u8>)
    requires
        names(p).len() > 0,
        slash_free(extension),
        extension.len() > 0,
    ensures
        names(with_extension(p, extension)) == names(p).drop_last().push(
            names(p).last().take(stem_len(names(p).last())).push(DOT) + extension,
        ),
        0 <= stem_len(names(p).last()) <= names(p).last().len(),
{
    let q = to_last_name(p);
    let name = file_name(p);
    lemma_names_up_to_last(p);
    lemma_last_segment(q);
    lemma_names_are_segments(p);
    lemma_last_dot(name);
    let k = q.len() - last_segment_len(q);
    let dir = q.take(k);
    let stem = name.take(stem_len(name));
    let new_name = stem.push(DOT) + extension;
    assert(dir + name == q);
    assert(slash_free(new_name));
    assert(with_extension(p, extension) == dir + new_name);
    lemma_segments_of_name(dir, new_name);
    lemma_segments_of_name(dir, name);
    lemma_segments_slash_free(dir);
    let front = segments(dir).drop_last();
    assert(front.push(name).drop_last() == front);
    assert(front.push(new_name).drop_last() == front);
    assert(new_name.len() > 1);
    assert(names(p).drop_last() == only_names(front));
}

/// A name that stands alone is a path that consists of it.
pub proof fn lemma_names_of_name(name: Seq<u8>)
    requires
        is_name(name),
        slash_free(name),
    ensures
        names(name) == seq![name],
        segments(name) == seq![name],
{
    let none = Seq::<u8>::empty();
    lemma_segments_of_name(none, name);
    assert(none + name == name);
    assert(segments(none).drop_last() == Seq::<Seq<u8>>::empty());
    assert(segments(name) == seq![name]);
    assert(segments(name).drop_last() == Seq::<Seq<u8>>::empty());
    assert(only_names(segments(name).drop_last()) == Seq::<Seq<u8>>::empty());
    assert(names(name) == seq![name]);
}

/// Adding to the file name of a path leaves the directories alone.
pub proof fn lemma_names_with_suffix(p: Seq<u8>, suffix: Seq<u8>)
    requires
        names(p).len() > 0,
        slash_free(suffix),
        suffix.len() > 0,
    ensures
        names(to_last_name(p) + suffix) == names(p).drop_last().push(names(p).last() + suffix),
{
    let q = to_last_name(p);
    let name = file_name(p);
    lemma_names_up_to_last(p);
    lemma_last_segment(q);
    lemma_names_are_segments(p);
    let dir = q.take(q.len() - last_segment_len(q));
    let new_name = name + suffix;
    assert(dir + name == q);
    assert(slash_free(new_name));
    assert(q + suffix == dir + new_name);
    lemma_segments_of_name(dir, new_name);
    lemma_segments_of_name(dir, name);
    lemma_segments_slash_free(dir);
    let front = segments(dir).drop_last();
    assert(front.push(name).drop_last() == front);
    assert(front.push(new_name).drop_last() == front);
    assert(is_name(name));
    assert(new_name.len() > 1);
    assert(names(p).drop_last() == only_names(front));
}

/// A name is another one after its extension has been replaced by one that
/// holds a dot.
pub proof fn lemma_dotted_extension_changes_name(name: Seq<u8>, extension: Seq<u8>)
    requires
        extension.contains(DOT),
    ensures
        name.take(stem_len(name)).push(DOT) + extension != name,
{
    lemma_last_dot(name);
    let stem = name.take(stem_len(name));
    let new_name = stem.push(DOT) + extension;
    if new_name == name {
        let j = choose|j: int| 0 <= j < extension.len() && extension[j] == DOT;
        assert(new_name[stem.len() + 1 + j] == DOT);
        assert(false);
    }
}

// ---------------------------------------------------------------------------
// Keys
// ---------------------------------------------------------------------------

/// The components of a path: its names, after a slash if it begins with one,
/// or after a single dot if that is its first segment.
pub open spec fn components(p: Seq<u8>) -> Seq<Seq<u8>> {
    if p.len() > 0 && p[0] == SLASH {
        seq![seq![SLASH]] + names(p)
    } else if segments(p)[0] == seq![DOT] {
        seq![seq![DOT]] + names(p)
    } else {
        names(p)
    }
}

/// What `String::from_utf8_lossy` makes of bytes that are not UTF-8.
pub uninterp spec fn lossy_text(bytes: Seq<u8>) -> Seq<char>;

/// The text for a component: the text that it encodes, or if it is not UTF-8
/// a lossy rendering.
pub open spec fn component_text(bytes: Seq<u8>) -> Seq<char> {
    if valid_utf8(bytes) {
        decode_utf8(bytes)
    } else {
        lossy_text(bytes)
    }
}

/// `String::from_utf8_lossy`: the text that the bytes encode. Bytes that are
/// not UTF-8 get some text that depends on nothing else.
#[verifier::external_body]
fn text_of_component(bytes: &[u8]) -> (r: String)
    ensures
        r@ == if valid_utf8(bytes@) {
            decode_utf8(bytes@)
        } else {
            lossy_text(bytes@)
        },
{
    String::from_utf8_lossy(bytes).into_owned()
}

/// The texts of the components, with slashes between them.
pub open spec fn joined_texts(parts: Seq<Seq<u8>>) -> Seq<char>
    decreases parts.len(),
{
    if parts.len() == 0 {
        Seq::empty()
    } else if parts.len() == 1 {
        component_text(parts[0])
    } else {
        joined_texts(parts.drop_last()).push('/') + component_text(parts.last())
    }
}

/// The key under which the file at a relative path is known.
pub open spec fn path_key(p: Seq<u8>) -> Seq<char> {
    joined_texts(components(p))
}

impl FsPath {
    /// The components of the path.
    fn component_list(&self) -> (r: Vec<Vec<u8>>)
        ensures
            r@.len() == components(self@).len(),
            forall|i: int| 0 <= i < r@.len() ==> (#[trigger] r@[i])@ == components(self@)[i],
    {
        let parts: Vec<Vec<u8>> = self.split();
        proof {
            lemma_segments_slash_free(self@);
        }
        let mut out: Vec<Vec<u8>> = Vec::new();
        if self.bytes.len() > 0 && self.bytes[0] == SLASH {
            let mut root: Vec<u8> = Vec::new();
            root.push(SLASH);
            assert(root@ == seq![SLASH]);
            out.push(root);
        } else if parts[0].len() == 1 && parts[0][0] == DOT {
            assert(parts@[0]@ == seq![DOT]);
            let mut here: Vec<u8> = Vec::new();
            here.push(DOT);
            assert(here@ == seq![DOT]);
            out.push(here);
        }
        let ghost lead: Seq<Seq<u8>> = out@.map_values(|v: Vec<u8>| v@);
        assert(components(self@) == lead + names(self@)) by {
            if self@.len() > 0 && self@[0] == SLASH {
                assert(lead == seq![seq![SLASH]]);
            } else if segments(self@)[0] == seq![DOT] {
                assert(parts@[0]@ == seq![DOT]);
                assert(parts@[0]@.len() == 1 && parts@[0]@[0] == DOT);
                assert(lead == seq![seq![DOT]]);
            } else {
                assert(!(parts@[0]@.len() == 1 && parts@[0]@[0] == DOT)) by {
                    if parts@[0]@.len() == 1 && parts@[0]@[0] == DOT {
                        assert(parts@[0]@ == seq![DOT]);
                    }
                }
                assert(lead + names(self@) == names(self@));
            }
        }
        let n: usize = parts.len();
        let mut i: usize = 0;
        assert(segments(self@).take(0) == Seq::<Seq<u8>>::empty());
        while i < n
            invariant
                i <= n,
                n == parts@.len(),
                n == segments(self@).len(),
                forall|k: int| 0 <= k < n ==> (#[trigger] parts@[k])@ == segments(self@)[k],
                ({
                    let all = lead + only_names(segments(self@).take(i as int));
                    &&& out@.len() == all.len()
                    &&& forall|k: int| 0 <= k < out@.len() ==> (#[trigger] out@[k])@ == all[k]
                }),
            decreases n - i,
        {
            let ghost before = segments(self@).take(i as int);
            let ghost after = segments(self@).take(i + 1);
            assert(after.drop_last() == before);
            assert(after.last() == parts@[i as int]@);
            let part: &Vec<u8> = &parts[i];
            if part.len() > 0 && !(part.len() == 1 && part[0] == DOT) {
                assert(part@ != seq![DOT]) by {
                    assert(seq![DOT].len() == 1 && seq![DOT][0] == DOT);
                }
                let copy: Vec<u8> = part.clone();
                assert(copy@ == part@);
                out.push(copy);
            } else {
                assert(!is_name(part@)) by {
                    if part@.len() > 0 {
                        assert(part@ == seq![DOT]);
                    }
                }
            }
            i = i + 1;
        }
        assert(segments(self@).take(n as int) == segments(self@));
        out
    }

    /// The key under which the file at this relative path is known: the
    /// components of the path, with slashes between them.
    pub fn to_key(&self) -> (r: String)
        ensures
            r@ == path_key(self@),
    {
        let parts: Vec<Vec<u8>> = self.component_list();
        let ghost views = components(self@);
        let mut key: String = String::new();
        let n: usize = parts.len();
        let mut i: usize = 0;
        assert(views.take(0) == Seq::<Seq<u8>>::empty());
        while i < n
            invariant
                i <= n,
                n == parts@.len(),
                n == views.len(),
                forall|k: int| 0 <= k < n ==> (#[trigger] parts@[k])@ == views[k],
                key@ == joined_texts(views.take(i as int)),
            decreases n - i,
        {
            assert(views.take(i + 1).drop_last() == views.take(i as int));
            let part: String = text_of_component(parts[i].as_slice());
            assert(part@ == component_text(views[i as int]));
            if i > 0 {
                key.push('/');
            }
            key.append(part.as_str());
            assert(key@ == joined_texts(views.take(i + 1)));
            i = i + 1;
        }
        assert(views.take(n as int) == views);
        key
    }
}

/// The parts of a text between its slashes.
pub open spec fn text_segments(s: Seq<char>) -> Seq<Seq<char>>
    decreases s.len(),
{
    if s.len() == 0 {
        seq![Seq::empty()]
    } else {
        let front = text_segments(s.drop_last());
        if s.last() == '/' {
            front.push(Seq::empty())
        } else {
            front.drop_last().push(front.last().push(s.last()))
        }
    }
}

/// Whether every part of a key between its slashes is a name.
pub open spec fn is_plain_key(s: Seq<char>) -> bool {
    forall|i: int|
        0 <= i < text_segments(s).len() ==> (#[trigger] text_segments(s)[i]).len() > 0
            && text_segments(s)[i] != seq!['.']
}

proof fn lemma_text_segments_nonempty(s: Seq<char>)
    ensures
        text_segments(s).len() > 0,
    decreases s.len(),
{
    if s.len() > 0 {
        lemma_text_segments_nonempty(s.drop_last());
    }
}

proof fn lemma_segments_extended(a: Seq<u8>, b: Seq<u8>)
    requires
        slash_free(b),
    ensures
        segments(a + b) == segments(a).drop_last().push(segments(a).last() + b),
    decreases b.len(),
{
    lemma_segments_slash_free(a);
    if b.len() == 0 {
        assert(a + b == a);
        assert(segments(a).last() + b == segments(a).last());
        assert(segments(a) == segments(a).drop_last().push(segments(a).last() + b));
    } else {
        lemma_segments_extended(a, b.drop_last());
        assert((a + b).drop_last() == a + b.drop_last());
        assert((segments(a).last() + b.drop_last()).push(b.last()) == segments(a).last() + b);
        assert(b.last() == b[b.len() - 1]);
        assert(segments(a + b) == segments(a).drop_last().push(segments(a).last() + b));
    }
}

/// The encoding of a character that is not a slash holds none.
pub proof fn lemma_encoding_slash_free(c: char)
    requires
        c != '/',
    ensures
        slash_free(encode_utf8(seq![c])),
{
    text::lemma_encode_char(c);
}

/// The segments of an encoded text are the encoded parts of the text.
pub proof fn lemma_segments_of_text(s: Seq<char>)
    ensures
        segments(encode_utf8(s)) == text_segments(s).map_values(|t: Seq<char>| encode_utf8(t)),
    decreases s.len(),
{
    let f = |t: Seq<char>| encode_utf8(t);
    if s.len() == 0 {
        assert(text_segments(s).map_values(f) == seq![Seq::<u8>::empty()]);
    } else {
        let t = s.drop_last();
        let c = s.last();
        lemma_segments_of_text(t);
        lemma_text_segments_nonempty(t);
        assert(s == t + seq![c]);
        text::lemma_encode_concat(t, seq![c]);
        text::lemma_encode_char(c);
        let front = text_segments(t);
        if c == '/' {
            let p = encode_utf8(t).push(SLASH);
            assert(encode_utf8(s) == p);
            assert(p.drop_last() == encode_utf8(t));
            assert(encode_utf8(Seq::<char>::empty()) == Seq::<u8>::empty());
            assert(segments(p) == text_segments(s).map_values(f));
        } else {
            lemma_encoding_slash_free(c);
            lemma_segments_extended(encode_utf8(t), encode_utf8(seq![c]));
            text::lemma_encode_concat(front.last(), seq![c]);
            assert(front.last() + seq![c] == front.last().push(c));
            assert(segments(encode_utf8(s)) == text_segments(s).map_values(f));
        }
    }
}

proof fn lemma_joined_texts_of_text(s: Seq<char>)
    ensures
        joined_texts(text_segments(s).map_values(|t: Seq<char>| encode_utf8(t))) == s,
    decreases s.len(),
{
    let f = |t: Seq<char>| encode_utf8(t);
    let parts = text_segments(s).map_values(f);
    lemma_text_segments_nonempty(s);
    assert forall|t: Seq<char>| component_text(#[trigger] encode_utf8(t)) == t by {
        encode_utf8_valid_utf8(t);
        encode_utf8_decode_utf8(t);
    }
    if s.len() == 0 {
        assert(parts.len() == 1 && parts[0] == encode_utf8(s));
    } else {
        let t = s.drop_last();
        let c = s.last();
        lemma_joined_texts_of_text(t);
        lemma_text_segments_nonempty(t);
        let front = text_segments(t).map_values(f);
        assert(s == t.push(c));
        if c == '/' {
            assert(parts.drop_last() == front);
            assert(parts.last() == encode_utf8(Seq::<char>::empty()));
            assert(component_text(parts.last()) == Seq::<char>::empty());
        } else {
            assert(parts.drop_last() == front.drop_last());
            let last = text_segments(t).last();
            assert(front.last() == encode_utf8(last));
            assert(parts.last() == encode_utf8(last.push(c)));
            assert(component_text(parts.last()) == last.push(c));
            if parts.len() > 1 {
                assert(joined_texts(front.drop_last()).push('/') + last.push(c) == (joined_texts(
                    front.drop_last(),
                ).push('/') + last).push(c));
            }
        }
        assert(joined_texts(parts) == s);
    }
}

proof fn lemma_only_names_of_names(segs: Seq<Seq<u8>>)
    requires
        forall|i: int| 0 <= i < segs.len() ==> is_name(#[trigger] segs[i]),
    ensures
        only_names(segs) == segs,
    decreases segs.len(),
{
    if segs.len() > 0 {
        lemma_only_names_of_names(segs.drop_last());
        assert(segs.last() == segs[segs.len() - 1]);
    }
}

/// The segments of the path that a plain key spells are all names.
pub proof fn lemma_plain_key_segments(key: Seq<char>)
    requires
        is_plain_key(key),
    ensures
        names(encode_utf8(key)) == segments(encode_utf8(key)),
        components(encode_utf8(key)) == segments(encode_utf8(key)),
        encode_utf8(key).len() > 0 && encode_utf8(key)[0] != SLASH,
{
    let p = encode_utf8(key);
    lemma_segments_of_text(key);
    lemma_segments_slash_free(p);
    assert forall|i: int| 0 <= i < segments(p).len() implies is_name(#[trigger] segments(p)[i]) by {
        let t = text_segments(key)[i];
        assert(segments(p)[i] == encode_utf8(t));
        if encode_utf8(t).len() == 0 {
            assert(encode_utf8(t) == encode_utf8(Seq::<char>::empty()));
            text::lemma_encode_injective(t, Seq::empty());
        }
        if encode_utf8(t) == seq![DOT] {
            text::lemma_encode_char('.');
            text::lemma_encode_injective(t, seq!['.']);
        }
    }
    lemma_only_names_of_names(segments(p));
    lemma_first_segment(p);
}

/// The first segment of a path is empty if the path is, or begins with a slash.
pub proof fn lemma_first_segment(p: Seq<u8>)
    ensures
        segments(p).len() > 0,
        segments(p)[0].len() == 0 <==> p.len() == 0 || p[0] == SLASH,
        p.len() > 0 && p[0] == SLASH ==> segments(p).len() > 1,
    decreases p.len(),
{
    if p.len() > 0 {
        let q = p.drop_last();
        lemma_first_segment(q);
        if q.len() > 0 {
            assert(q[0] == p[0]);
        }
    }
}

/// A key whose parts are all names is the key of the path that it spells.
pub proof fn law_plain_key_is_the_key_of_its_path(key: Seq<char>)
    requires
        is_plain_key(key),
    ensures
        path_key(encode_utf8(key)) == key,
{
    lemma_plain_key_segments(key);
    lemma_segments_of_text(key);
    lemma_joined_texts_of_text(key);
}

// ---------------------------------------------------------------------------
// Walks
// ---------------------------------------------------------------------------

/// The path that a walk comes to through `names`, one after the other.
pub open spec fn walked(names: Seq<Seq<u8>>) -> Seq<u8>
    decreases names.len(),
{
    if names.len() == 0 {
        Seq::empty()
    } else {
        joined(walked(names.drop_last()), names.last())
    }
}

/// A walk through names comes to the path that consists of them.
pub proof fn lemma_walked(through: Seq<Seq<u8>>)
    requires
        forall|i: int|
            0 <= i < through.len() ==> is_name(#[trigger] through[i]) && slash_free(through[i]),
    ensures
        names(walked(through)) == through,
        through.len() > 0 ==> walked(through).len() > 0 && walked(through)[0] != SLASH
            && segments(walked(through))[0] == through[0],
        components(walked(through)) == through,
    decreases through.len(),
{
    let none = Seq::<u8>::empty();
    if through.len() == 0 {
        assert(segments(none).drop_last() == Seq::<Seq<u8>>::empty());
        assert(only_names(segments(none).drop_last()) == Seq::<Seq<u8>>::empty());
        assert(names(none) =~= through);
        assert(segments(none)[0] == none);
        assert(seq![DOT].len() == 1);
    } else {
        let front = through.drop_last();
        let last = through[through.len() - 1];
        lemma_walked(front);
        lemma_names_of_name(last);
        lemma_names_of_joined(walked(front), last);
        lemma_last_byte_of_walked(front);
        assert(names(walked(through)) =~= through);
        if front.len() == 0 {
            assert(none + last == last);
        } else {
            lemma_segments_around_slash(walked(front), last);
            lemma_segments_slash_free(walked(front));
            assert(front[0] == through[0]);
        }
        assert(is_name(through[0]));
    }
}

proof fn lemma_last_byte_of_walked(through: Seq<Seq<u8>>)
    requires
        forall|i: int|
            0 <= i < through.len() ==> is_name(#[trigger] through[i]) && slash_free(through[i]),
    ensures
        through.len() > 0 ==> walked(through).len() > 0 && walked(through).last() != SLASH,
{
    if through.len() > 0 {
        let last = through[through.len() - 1];
        assert(is_name(last) && slash_free(last));
        let base = walked(through.drop_last());
        let p = joined(base, last);
        assert(last[0] != SLASH);
        assert(p.last() == last[last.len() - 1]);
    }
}

/// Paths that differ only behind their last slash, and end in more than a dot
/// there, have different names.
pub proof fn lemma_names_tell_endings_apart(base: Seq<u8>, a: Seq<u8>, b: Seq<u8>)
    requires
        slash_free(a) && a.len() > 1,
        slash_free(b) && b.len() > 1,
        names(base + a) == names(base + b),
    ensures
        a == b,
{
    lemma_segments_extended(base, a);
    lemma_segments_extended(base, b);
    let last = segments(base).last();
    assert(segments(base + a).last() == last + a);
    assert(segments(base + b).last() == last + b);
    assert((last + a).len() > seq![DOT].len());
    assert((last + b).len() > seq![DOT].len());
    assert(names(base + a).last() == last + a);
    assert(names(base + b).last() == last + b);
    assert((last + a).skip(last.len() as int) == a);
    assert((last + b).skip(last.len() as int) == b);
}

// ---------------------------------------------------------------------------
// Laws
// ---------------------------------------------------------------------------


/// The segments of a path lie between its slashes: a path without slashes is one
/// segment, and a slash parts those in front of it from those behind it.
pub proof fn law_segments_lie_between_slashes(a: Seq<u8>, b: Seq<u8>)
    ensures
        (forall|i: int| 0 <= i < a.len() ==> #[trigger] a[i] != 47) ==> segments(a) == seq![a],
        segments(a + seq![47u8] + b) == segments(a) + segments(b),
{
    if forall|i: int| 0 <= i < a.len() ==> #[trigger] a[i] != 47 {
        let none = Seq::<u8>::empty();
        assert(slash_free(a));
        lemma_segments_of_name(none, a);
        assert(none + a == a);
        assert(segments(none).drop_last() == Seq::<Seq<u8>>::empty());
        assert(segments(a) =~= seq![a]);
    }
    lemma_segments_around_slash(a, b);
    assert(a.push(SLASH) + b == a + seq![47u8] + b);
}

/// The names in a path are its segments but for empty ones and single dots: a path
/// without slashes is such a name or has none, and those in front of a slash come
/// before those behind it.
pub proof fn law_names_in_a_path(a: Seq<u8>, b: Seq<u8>)
    ensures
        (forall|i: int| 0 <= i < a.len() ==> #[trigger] a[i] != 47) ==> names(a) == if a.len() == 0
            || a == seq![46u8] {
            Seq::empty()
        } else {
            seq![a]
        },
        names(a + seq![47u8] + b) == names(a) + names(b),
{
    law_segments_lie_between_slashes(a, b);
    lemma_only_names_concat(segments(a), segments(b));
    if forall|i: int| 0 <= i < a.len() ==> #[trigger] a[i] != 47 {
        let one = seq![a];
        assert(one.drop_last() =~= Seq::empty());
        assert(only_names(one.drop_last()) =~= Seq::empty());
        assert(one.last() == a);
        assert(only_names(one) =~= if is_name(a) { seq![a] } else { Seq::empty() });
    }
}

/// The parts of a key lie between its slashes, as the segments of a path do.
pub proof fn law_parts_of_a_key(a: Seq<char>, b: Seq<char>)
    ensures
        (forall|i: int| 0 <= i < a.len() ==> #[trigger] a[i] != '/') ==> text_segments(a) == seq![a],
        text_segments(a + seq!['/'] + b) == text_segments(a) + text_segments(b),
    decreases a.len() + b.len(),
{
    if a.len() > 0 && forall|i: int| 0 <= i < a.len() ==> #[trigger] a[i] != '/' {
        let front = a.drop_last();
        assert forall|i: int| 0 <= i < front.len() implies #[trigger] front[i] != '/' by {
            assert(front[i] == a[i]);
        }
        law_parts_of_a_key(front, Seq::empty());
        assert(a.last() == a[a.len() - 1]);
        assert(front.push(a.last()) == a);
        assert(text_segments(a) =~= seq![a]);
    } else if a.len() == 0 {
        assert(a == Seq::<char>::empty());
    }
    let p = a + seq!['/'] + b;
    if b.len() == 0 {
        assert(p.drop_last() == a);
        assert(text_segments(p) =~= text_segments(a) + text_segments(b));
    } else {
        law_parts_of_a_key(a, b.drop_last());
        lemma_text_segments_nonempty(b.drop_last());
        assert(p.drop_last() == a + seq!['/'] + b.drop_last());
        assert(text_segments(p) =~= text_segments(a) + text_segments(b));
    }
}

/// A path is joined to a directory with one slash between them, unless there is
/// one already, or the directory is empty. A path that begins at the root takes
/// the place of the directory.
pub proof fn law_joined_paths(base: Seq<u8>, rel: Seq<u8>)
    ensures
        rel.len() > 0 && rel[0] == 47 ==> joined(base, rel) == rel,
        rel.len() == 0 || rel[0] != 47 ==> {
            &&& base.len() == 0 ==> joined(base, rel) == rel
            &&& base.len() > 0 && base.last() == 47 ==> joined(base, rel) == base + rel
            &&& base.len() > 0 && base.last() != 47 ==> joined(base, rel) == base + seq![47u8] + rel
            &&& names(joined(base, rel)) == names(base) + names(rel)
        },
{
    if rel.len() == 0 || rel[0] != SLASH {
        lemma_names_of_joined(base, rel);
        assert(base.push(SLASH) + rel =~= base + seq![47u8] + rel);
        if base.len() == 0 {
            assert(base + rel =~= rel);
        }
    }
}

/// The components of a path are its names, behind the root or the dot that the
/// path begins with, if it does.
pub proof fn law_components_of_a_path(p: Seq<u8>)
    ensures
        p.len() > 0 && p[0] == 47 ==> components(p) == seq![seq![47u8]] + names(p),
        segments(p)[0] == seq![46u8] ==> components(p) == seq![seq![46u8]] + names(p),
        !(p.len() > 0 && p[0] == 47) && segments(p)[0] != seq![46u8] ==> components(p) == names(p),
{
    lemma_first_segment(p);
}

/// The text of a component that is a text is that text, and the key of a path is
/// the texts of its components with slashes between them.
pub proof fn law_texts_of_components(s: Seq<char>, parts: Seq<Seq<u8>>, part: Seq<u8>, p: Seq<u8>)
    ensures
        component_text(encode_utf8(s)) == s,
        !valid_utf8(part) ==> component_text(part) == lossy_text(part),
        joined_texts(seq![part]) == component_text(part),
        parts.len() > 0 ==> joined_texts(parts.push(part)) == joined_texts(parts) + seq!['/']
            + component_text(part),
        path_key(p) == joined_texts(components(p)),
{
    encode_utf8_valid_utf8(s);
    encode_utf8_decode_utf8(s);
    assert(parts.push(part).drop_last() == parts);
    if parts.len() > 0 {
        assert(joined_texts(parts).push('/') + component_text(part) =~= joined_texts(parts)
            + seq!['/'] + component_text(part));
    }
}

/// A key is plain exactly if none of its parts is empty or a single dot.
pub proof fn law_plain_keys(key: Seq<char>)
    ensures
        is_plain_key(key) <==> forall|i: int|
            #![trigger text_segments(key)[i]]
            0 <= i < text_segments(key).len() ==> text_segments(key)[i].len() > 0
                && text_segments(key)[i] != seq!['.'],
{
}

/// A walk goes from one name to the next with a slash between them.
pub proof fn law_walk_joins_names(through: Seq<Seq<u8>>, name: Seq<u8>)
    requires
        forall|i: int|
            0 <= i < through.len() ==> is_name(#[trigger] through[i]) && slash_free(through[i]),
        is_name(name) && slash_free(name),
    ensures
        walked(Seq::empty()) == Seq::<u8>::empty(),
        walked(seq![name]) == name,
        through.len() > 0 ==> walked(through.push(name)) == walked(through) + seq![47u8] + name,
{
    let one = seq![name];
    assert(one.drop_last() =~= Seq::empty());
    assert(walked(one.drop_last()) == Seq::<u8>::empty());
    assert(Seq::<u8>::empty() + name =~= name);
    assert(through.push(name).drop_last() == through);
    lemma_last_byte_of_walked(through);
    if through.len() > 0 {
        assert(walked(through).push(SLASH) + name =~= walked(through) + seq![47u8] + name);
    }
}

/// The stem of a name ends in front of its last dot, unless that is where the name
/// begins. A name without such a dot is its own stem.
pub proof fn law_stem_of_a_name(name: Seq<u8>, i: int)
    ensures
        0 < i < name.len() && name[i] == 46 && (forall|k: int|
            i < k < name.len() ==> #[trigger] name[k] != 46) ==> stem_len(name) == i,
        (forall|k: int| 0 < k < name.len() ==> #[trigger] name[k] != 46) ==> stem_len(name)
            == name.len(),
{
    lemma_last_dot(name);
}

/// Bytes are free of slashes exactly if none is the slash, and are a name exactly
/// if there is one and they are not a single dot.
pub proof fn law_bytes_of_a_name(s: Seq<u8>)
    ensures
        slash_free(s) <==> forall|i: int| 0 <= i < s.len() ==> #[trigger] s[i] != 47,
        is_name(s) <==> s.len() > 0 && s != seq![46u8],
        has_file_name(s) <==> names(s).len() > 0 && names(s).last() != seq![46u8, 46u8],
{
}

/// A path says what it holds.
pub proof fn law_path_says_what_it_holds(path: FsPath)
    ensures
        path@ == path.bytes@,
{
}

/// A suffix goes to the end of the last name of a path, and an extension takes the
/// place of what is behind its stem. The names in front of it stay.
pub proof fn law_changed_last_name(p: Seq<u8>, suffix: Seq<u8>)
    requires
        names(p).len() > 0,
        suffix.len() > 0,
        forall|i: int| 0 <= i < suffix.len() ==> #[trigger] suffix[i] != 47,
    ensures
        names(to_last_name(p) + suffix) == names(p).drop_last().push(names(p).last() + suffix),
        names(with_extension(p, suffix)) == names(p).drop_last().push(
            names(p).last().take(stem_len(names(p).last())) + seq![46u8] + suffix,
        ),
{
    lemma_names_with_suffix(p, suffix);
    lemma_names_with_extension(p, suffix);
    let stem = names(p).last().take(stem_len(names(p).last()));
    assert(stem.push(DOT) + suffix =~= stem + seq![46u8] + suffix);
}

} // verus!
