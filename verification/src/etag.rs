//! MD5 checksums and the entity tags made of them.
//!
//! The tag of an object that was stored in one piece is its MD5 checksum in
//! hexadecimal; the tag of an object that was put together from parts follows
//! the S3 formula for multipart uploads. Tags carry their double quotes.

use crate::headers;
use crate::text;
use crate::text::decimal_string;
use vstd::prelude::*;
use vstd::string::*;

verus! {

/// The bytes of an MD5 checksum.
pub type Md5DigestBytes = [u8; 16];

// ---------------------------------------------------------------------------
// The hash function
// ---------------------------------------------------------------------------

/// A running MD5 computation of the `md-5` crate.
#[verifier::external_body]
pub struct Md5Hasher {
    inner: md5::Md5,
}

/// The MD5 checksum of `data`.
pub uninterp spec fn md5_of(data: Seq<u8>) -> Seq<u8>;

/// The checksum that `hasher` gives once it has absorbed `more` in addition.
pub uninterp spec fn md5_after(hasher: Md5Hasher, more: Seq<u8>) -> Seq<u8>;

impl Md5Hasher {
    /// `md5::Md5::new`: a computation that has absorbed nothing yet.
    #[verifier::external_body]
    fn new() -> (r: Md5Hasher)
        ensures
            forall|data: Seq<u8>| #[trigger] md5_after(r, data) == md5_of(data),
    {
        Md5Hasher { inner: md5::Digest::new() }
    }

    /// `md5::Digest::update`: absorbs `data` behind what was absorbed before.
    #[verifier::external_body]
    fn update(&mut self, data: &[u8])
        ensures
            forall|more: Seq<u8>| #[trigger]
                md5_after(*final(self), more) == md5_after(*old(self), data@ + more),
    {
        md5::Digest::update(&mut self.inner, data);
    }

    /// `md5::Digest::finalize`: the checksum of what was absorbed.
    #[verifier::external_body]
    fn finalize(self) -> (r: Md5DigestBytes)
        ensures
            r@ == md5_after(self, Seq::empty()),
    {
        md5::Digest::finalize(self.inner).into()
    }
}

/// A checksum computation over data that arrives in pieces.
///
/// Its view is the data that has arrived so far.
pub struct Md5Stream {
    hasher: Md5Hasher,
    absorbed: Ghost<Seq<u8>>,
}

impl View for Md5Stream {
    type V = Seq<u8>;

    closed spec fn view(&self) -> Seq<u8> {
        self.absorbed@
    }
}

impl Md5Stream {
    /// Whether the computation has absorbed exactly its view.
    pub closed spec fn wf(&self) -> bool {
        forall|more: Seq<u8>| #[trigger]
            md5_after(self.hasher, more) == md5_of(self.absorbed@ + more)
    }

    /// A computation over no data.
    pub fn new() -> (r: Md5Stream)
        ensures
            r.wf(),
            r@ == Seq::<u8>::empty(),
    {
        let r = Md5Stream { hasher: Md5Hasher::new(), absorbed: Ghost(Seq::empty()) };
        assert forall|more: Seq<u8>| #[trigger]
            md5_after(r.hasher, more) == md5_of(r.absorbed@ + more) by {
            assert(r.absorbed@ + more == more);
        }
        r
    }

    /// Takes in the next piece of the data.
    pub fn update(&mut self, chunk: &[u8])
        requires
            old(self).wf(),
        ensures
            final(self).wf(),
            final(self)@ == old(self)@ + chunk@,
    {
        let ghost before = self.absorbed@;
        self.hasher.update(chunk);
        self.absorbed = Ghost(before + chunk@);
        assert forall|more: Seq<u8>| #[trigger]
            md5_after(self.hasher, more) == md5_of(self.absorbed@ + more) by {
            assert(before + (chunk@ + more) == (before + chunk@) + more);
        }
    }

    /// The checksum of the data, however it was cut into pieces.
    pub fn finish(self) -> (r: Md5DigestBytes)
        requires
            self.wf(),
        ensures
            r@ == md5_of(self@),
    {
        assert(self.absorbed@ + Seq::<u8>::empty() == self.absorbed@);
        self.hasher.finalize()
    }
}

// ---------------------------------------------------------------------------
// Rendering
// ---------------------------------------------------------------------------

/// The hexadecimal digit for `n`, in lower case.
pub open spec fn hex_digit(n: int) -> char {
    if n < 10 {
        (('0' as u32) + n) as char
    } else {
        (('a' as u32) + n - 10) as char
    }
}

/// Two hexadecimal digits for each byte.
pub open spec fn hex(bytes: Seq<u8>) -> Seq<char>
    decreases bytes.len(),
{
    if bytes.len() == 0 {
        Seq::empty()
    } else {
        hex(bytes.drop_last()).push(hex_digit(bytes.last() as int / 16)).push(
            hex_digit(bytes.last() as int % 16),
        )
    }
}

/// `s` between double quotes.
pub open spec fn quoted(s: Seq<char>) -> Seq<char> {
    seq!['"'] + s + seq!['"']
}

/// The checksums in `digests`, one behind the other.
pub open spec fn joined_digests(digests: Seq<Md5DigestBytes>) -> Seq<u8>
    decreases digests.len(),
{
    if digests.len() == 0 {
        Seq::empty()
    } else {
        joined_digests(digests.drop_last()) + digests.last()@
    }
}

/// The entity tag of an object with the contents `data`.
pub open spec fn etag_of(data: Seq<u8>) -> Seq<char> {
    quoted(hex(md5_of(data)))
}

/// The entity tag of an object put together from parts with these checksums:
/// the checksum of the joined checksums, a hyphen and the number of parts.
pub open spec fn multipart_etag_of(digests: Seq<Md5DigestBytes>) -> Seq<char> {
    quoted(hex(md5_of(joined_digests(digests))) + "-"@ + text::decimal(digests.len()))
}

fn hex_digit_char(n: u8) -> (r: char)
    requires
        n < 16,
    ensures
        r == hex_digit(n as int),
{
    if n < 10 {
        (48u8 + n) as char
    } else {
        (87u8 + n) as char
    }
}

/// Two hexadecimal digits for each byte.
pub fn hex_encode(bytes: &[u8]) -> (r: String)
    ensures
        r@ == hex(bytes@),
{
    let mut out: String = String::new();
    let n: usize = bytes.len();
    let mut i: usize = 0;
    while i < n
        invariant
            i <= n,
            n == bytes@.len(),
            out@ == hex(bytes@.take(i as int)),
        decreases n - i,
    {
        let b: u8 = bytes[i];
        out.push(hex_digit_char(b / 16));
        out.push(hex_digit_char(b % 16));
        assert(bytes@.take(i + 1).drop_last() == bytes@.take(i as int));
        i = i + 1;
    }
    assert(bytes@.take(n as int) == bytes@);
    out
}

/// Render a raw MD5 hex string as a quoted ETag string.
pub fn etag_from_md5_hex(md5_hex: &str) -> (r: String)
    ensures
        r@ == quoted(md5_hex@),
{
    let mut s: String = String::new();
    s.push('"');
    s.append(md5_hex);
    s.push('"');
    assert(s@ =~= quoted(md5_hex@));
    s
}

/// Render MD5 digest bytes as lowercase hex without ETag quoting.
pub fn md5_hex_from_digest_bytes(digest: &Md5DigestBytes) -> (r: String)
    ensures
        r@ == hex(digest@),
{
    hex_encode(digest.as_slice())
}

/// Render an MD5 digest as a quoted ETag string.
pub fn etag_from_digest_bytes(digest: &Md5DigestBytes) -> (r: String)
    ensures
        r@ == quoted(hex(digest@)),
{
    etag_from_md5_hex(md5_hex_from_digest_bytes(digest).as_str())
}

/// Compute a multipart ETag using the S3 algorithm:
/// `md5(concat(binary_part_md5s)) + "-" + part_count`.
pub fn multipart_etag_from_part_digests(part_digests: &[Md5DigestBytes]) -> (r: String)
    ensures
        r@ == multipart_etag_of(part_digests@),
{
    let mut stream: Md5Stream = Md5Stream::new();
    let n: usize = part_digests.len();
    let mut i: usize = 0;
    while i < n
        invariant
            i <= n,
            n == part_digests@.len(),
            stream.wf(),
            stream@ == joined_digests(part_digests@.take(i as int)),
        decreases n - i,
    {
        stream.update(part_digests[i].as_slice());
        assert(part_digests@.take(i + 1).drop_last() == part_digests@.take(i as int));
        i = i + 1;
    }
    assert(part_digests@.take(n as int) == part_digests@);
    let digest: Md5DigestBytes = stream.finish();
    let mut inner: String = hex_encode(digest.as_slice());
    inner.append("-");
    inner.append(decimal_string(n as u64).as_str());
    etag_from_md5_hex(inner.as_str())
}

/// The MD5 checksum of a file whose contents went through `contents`.
/// Returns the hex string without ETag quoting.
pub fn compute_file_md5_hex(contents: Md5Stream) -> (r: String)
    requires
        contents.wf(),
    ensures
        r@ == hex(md5_of(contents@)),
{
    let digest: Md5DigestBytes = contents.finish();
    md5_hex_from_digest_bytes(&digest)
}

/// The ETag of a file whose contents went through `contents`.
/// Returns a hex-encoded string wrapped in double quotes (the ETag wire format).
pub fn compute_file_etag(contents: Md5Stream) -> (r: String)
    requires
        contents.wf(),
    ensures
        r@ == etag_of(contents@),
{
    etag_from_md5_hex(compute_file_md5_hex(contents).as_str())
}

// ---------------------------------------------------------------------------
// Laws
// ---------------------------------------------------------------------------

/// Whether `c` is a hexadecimal digit in lower case.
pub open spec fn is_hex_digit(c: char) -> bool {
    '0' <= c <= '9' || 'a' <= c <= 'f'
}

/// The hexadecimal form of `n` bytes has `2 * n` lower-case hexadecimal digits.
pub proof fn lemma_hex_digits(bytes: Seq<u8>)
    ensures
        hex(bytes).len() == 2 * bytes.len(),
        forall|i: int| 0 <= i < hex(bytes).len() ==> is_hex_digit(#[trigger] hex(bytes)[i]),
    decreases bytes.len(),
{
    if bytes.len() > 0 {
        lemma_hex_digits(bytes.drop_last());
    }
}

/// Different byte strings have different hexadecimal forms.
pub proof fn lemma_hex_injective(a: Seq<u8>, b: Seq<u8>)
    requires
        hex(a) == hex(b),
    ensures
        a == b,
    decreases a.len(),
{
    lemma_hex_digits(a);
    lemma_hex_digits(b);
    if a.len() > 0 {
        let n = hex(a).len() as int;
        assert(hex(a.drop_last()) == hex(a).take(n - 2));
        assert(hex(b.drop_last()) == hex(b).take(n - 2));
        lemma_hex_injective(a.drop_last(), b.drop_last());
        assert(hex(a)[n - 2] == hex_digit(a.last() as int / 16));
        assert(hex(a)[n - 1] == hex_digit(a.last() as int % 16));
        assert(hex(b)[n - 2] == hex_digit(b.last() as int / 16));
        assert(hex(b)[n - 1] == hex_digit(b.last() as int % 16));
        assert(a.last() == b.last());
        assert(a == a.drop_last().push(a.last()));
        assert(b == b.drop_last().push(b.last()));
    } else {
        assert(a =~= b);
    }
}

/// Entity tags can be sent as header values.
pub proof fn lemma_tags_are_header_values(digest: Seq<u8>, digests: Seq<Md5DigestBytes>)
    ensures
        headers::valid_header_value(quoted(hex(digest))),
        headers::valid_header_value(multipart_etag_of(digests)),
{
    lemma_hex_digits(digest);
    let head = hex(md5_of(joined_digests(digests)));
    let count = text::decimal(digests.len());
    lemma_hex_digits(md5_of(joined_digests(digests)));
    text::lemma_decimal_digits(digests.len());
    reveal_strlit("-");
    let plain = quoted(hex(digest));
    assert forall|i: int| 0 <= i < plain.len() implies headers::is_value_char(#[trigger] plain[i]) by {
        if 0 < i < plain.len() - 1 {
            assert(plain[i] == hex(digest)[i - 1]);
        }
    }
    let tag = multipart_etag_of(digests);
    assert forall|i: int| 0 <= i < tag.len() implies headers::is_value_char(#[trigger] tag[i]) by {
        if 0 < i <= head.len() {
            assert(tag[i] == head[i - 1]);
        } else if head.len() + 1 < i < tag.len() - 1 {
            assert(tag[i] == count[i - head.len() - 2]);
            assert(text::is_digit(count[i - head.len() - 2]));
        }
    }
}

/// The tag of a checksum is 32 hexadecimal digits between double quotes.
pub proof fn law_etag_shape(digest: Seq<u8>)
    requires
        digest.len() == 16,
    ensures
        quoted(hex(digest)).len() == 34,
        quoted(hex(digest))[0] == '"',
        quoted(hex(digest)).last() == '"',
        forall|i: int| 1 <= i < 33 ==> is_hex_digit(#[trigger] quoted(hex(digest))[i]),
{
    lemma_hex_digits(digest);
    assert forall|i: int| 1 <= i < 33 implies is_hex_digit(#[trigger] quoted(hex(digest))[i]) by {
        assert(quoted(hex(digest))[i] == hex(digest)[i - 1]);
    }
}

/// Objects have the same tag only if they have the same checksum.
pub proof fn law_etag_identifies_the_checksum(a: Seq<u8>, b: Seq<u8>)
    ensures
        quoted(hex(a)) == quoted(hex(b)) <==> a == b,
{
    if quoted(hex(a)) == quoted(hex(b)) {
        let n = quoted(hex(a)).len() as int;
        assert(quoted(hex(a)).subrange(1, n - 1) == hex(a));
        assert(quoted(hex(b)).subrange(1, n - 1) == hex(b));
        lemma_hex_injective(a, b);
    }
}

/// A multipart tag is never the tag of an object that was stored in one piece.
pub proof fn law_multipart_etag_differs_from_every_plain_etag(
    digests: Seq<Md5DigestBytes>,
    digest: Seq<u8>,
)
    ensures
        multipart_etag_of(digests) != quoted(hex(digest)),
{
    reveal_strlit("-");
    let head = hex(md5_of(joined_digests(digests)));
    let tag = multipart_etag_of(digests);
    lemma_hex_digits(digest);
    text::lemma_decimal_digits(digests.len());
    assert(tag[1 + head.len() as int] == '-');
    if tag == quoted(hex(digest)) {
        assert(tag.len() == head.len() + 1 + text::decimal(digests.len()).len() + 2);
        assert(quoted(hex(digest)).len() == hex(digest).len() + 2);
        assert(quoted(hex(digest))[1 + head.len() as int] == hex(digest)[head.len() as int]);
    }
}

/// The hexadecimal form of a byte string has the digit of the upper half of
/// every byte, and then that of its lower half.
pub proof fn law_hexadecimal_digits(bytes: Seq<u8>)
    ensures
        hex(bytes).len() == 2 * bytes.len(),
        forall|i: int|
            0 <= i < bytes.len() ==> {
                &&& hex(bytes)[2 * i] == "0123456789abcdef"@[(#[trigger] bytes[i]) as int / 16]
                &&& hex(bytes)[2 * i + 1] == "0123456789abcdef"@[bytes[i] as int % 16]
            },
    decreases bytes.len(),
{
    lemma_hex_digits(bytes);
    reveal_strlit("0123456789abcdef");
    if bytes.len() > 0 {
        let front = bytes.drop_last();
        let n = front.len() as int;
        law_hexadecimal_digits(front);
        lemma_hex_digits(front);
        assert forall|i: int| 0 <= i < bytes.len() implies {
            &&& hex(bytes)[2 * i] == "0123456789abcdef"@[(#[trigger] bytes[i]) as int / 16]
            &&& hex(bytes)[2 * i + 1] == "0123456789abcdef"@[bytes[i] as int % 16]
        } by {
            if i < n {
                assert(front[i] == bytes[i]);
                assert(hex(bytes)[2 * i] == hex(front)[2 * i]);
                assert(hex(bytes)[2 * i + 1] == hex(front)[2 * i + 1]);
            } else {
                assert(hex(bytes)[2 * n] == hex_digit(bytes[n] as int / 16));
                assert(hex(bytes)[2 * n + 1] == hex_digit(bytes[n] as int % 16));
            }
        }
    }
}

/// Between its quotes a tag has the text that was put in quotes, and nothing
/// else.
pub proof fn law_quoted_text(s: Seq<char>)
    ensures
        quoted(s).len() == s.len() + 2,
        quoted(s)[0] == '"' && quoted(s).last() == '"',
        quoted(s).subrange(1, s.len() as int + 1) == s,
{
    assert(quoted(s).subrange(1, s.len() as int + 1) =~= s);
}

/// Joined checksums have the sixteen bytes of each, at its place.
pub proof fn law_joined_digests(digests: Seq<Md5DigestBytes>)
    ensures
        joined_digests(digests).len() == 16 * digests.len(),
        forall|i: int, j: int|
            0 <= i < digests.len() && 0 <= j < 16 ==> joined_digests(digests)[16 * i + j] == (
            #[trigger] digests[i]@[j]),
    decreases digests.len(),
{
    if digests.len() > 0 {
        let front = digests.drop_last();
        let n = front.len() as int;
        law_joined_digests(front);
        assert(digests.last()@.len() == 16);
        assert forall|i: int, j: int| 0 <= i < digests.len() && 0 <= j < 16 implies joined_digests(
            digests,
        )[16 * i + j] == (#[trigger] digests[i]@[j]) by {
            if i < n {
                assert(front[i]@[j] == digests[i]@[j]);
                assert(joined_digests(digests)[16 * i + j] == joined_digests(front)[16 * i + j]);
            }
        }
    }
}

/// The tag of an object that was stored in one piece is the checksum of its
/// contents in hexadecimal, in quotes.
pub proof fn law_tag_of_contents(data: Seq<u8>)
    ensures
        etag_of(data) == seq!['"'] + hex(md5_of(data)) + seq!['"'],
{
}

/// The tag of an object that was put together from parts is the checksum of the
/// joined checksums of its parts in hexadecimal, a hyphen and the number of
/// parts, in quotes.
pub proof fn law_tag_of_parts(digests: Seq<Md5DigestBytes>)
    ensures
        multipart_etag_of(digests) == seq!['"'] + hex(md5_of(joined_digests(digests))) + seq!['-']
            + text::decimal(digests.len()) + seq!['"'],
{
    reveal_strlit("-");
    assert("-"@ =~= seq!['-']);
    assert(multipart_etag_of(digests) =~= seq!['"'] + hex(md5_of(joined_digests(digests)))
        + seq!['-'] + text::decimal(digests.len()) + seq!['"']);
}

} // verus!
