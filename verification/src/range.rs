//! HTTP `Range` header parsing and byte-range response helpers.
//!
//! Only single-range requests are supported (S3 does not support multi-range GET).

use crate::text;
use crate::errors::Error;
use crate::errors::ErrorKind;
use crate::text::decimal_string;
use crate::text::find_char;
use crate::text::parse_u64;
use crate::text::strip_prefix;
use crate::text::trim;
use vstd::prelude::*;
use vstd::string::*;

verus! {

/// A parsed, validated byte range within a file of known size.
#[derive(Debug, Clone, Copy, PartialEq, Eq, Structural)]
pub struct ByteRange {
    /// The first byte.
    pub start: u64,
    /// The last byte.
    pub end: u64,
}

impl ByteRange {
    /// Whether the range lies within a file of `size` bytes and holds a byte.
    pub open spec fn within(self, size: u64) -> bool {
        self.start <= self.end < size
    }

    /// The value of the `Content-Range` header for this range of `size` bytes.
    pub open spec fn content_range(self, size: u64) -> Seq<char> {
        "bytes "@ + text::decimal(self.start as nat) + "-"@ + text::decimal(self.end as nat) + "/"@ + text::decimal(
            size as nat,
        )
    }

    /// The number of bytes in the range.
    pub fn len(&self) -> (r: u64)
        requires
            self.start <= self.end,
            self.end - self.start < u64::MAX,
        ensures
            r == self.end - self.start + 1,
    {
        self.end - self.start + 1
    }

    /// Whether the range holds no byte: a range holds at least one.
    pub fn is_empty(&self) -> (r: bool)
        ensures
            r == false,
    {
        false
    }

    /// Format the `Content-Range` header value, e.g. `bytes 0-499/1234`.
    pub fn content_range_header(&self, total_size: u64) -> (r: String)
        ensures
            r@ == self.content_range(total_size),
    {
        let mut s: String = "bytes ".to_owned();
        s.append(decimal_string(self.start).as_str());
        s.append("-");
        s.append(decimal_string(self.end).as_str());
        s.append("/");
        s.append(decimal_string(total_size).as_str());
        s
    }
}

/// What a `Range` header asks of a file.
pub enum RangeVerdict {
    /// There is no header: the whole file is asked for.
    Whole,
    /// These bytes are asked for.
    Bytes(ByteRange),
    /// The header is malformed or cannot be satisfied, for this reason.
    Invalid(Seq<char>),
}

/// `n - k`, or zero where that is negative.
pub open spec fn minus(n: u64, k: u64) -> u64 {
    if n >= k {
        (n - k) as u64
    } else {
        0
    }
}

/// The bytes from `start` to `end` of a file of `size` bytes, unless there is
/// no byte at `start`.
pub open spec fn satisfiable(start: u64, end: u64, size: u64) -> RangeVerdict {
    if start >= size {
        RangeVerdict::Invalid(
            "range not satisfiable: start="@ + text::decimal(start as nat) + " size="@ + text::decimal(
                size as nat,
            ),
        )
    } else {
        RangeVerdict::Bytes(ByteRange { start, end })
    }
}

/// What the range `first-last` asks of a file of `size` bytes. An absent
/// `last` stands for the end of the file, an absent `first` makes `last` the
/// number of bytes asked for from the end.
pub open spec fn range_of_bounds(first: Seq<char>, last: Seq<char>, size: u64) -> RangeVerdict {
    let final_byte = minus(size, 1);
    if last.len() == 0 {
        match text::u64_value(first) {
            None => RangeVerdict::Invalid("bad start: "@ + first),
            Some(start) => satisfiable(start, final_byte, size),
        }
    } else if first.len() == 0 {
        match text::u64_value(last) {
            None => RangeVerdict::Invalid("bad suffix: "@ + last),
            Some(suffix) => satisfiable(minus(size, suffix), final_byte, size),
        }
    } else {
        match (text::u64_value(first), text::u64_value(last)) {
            (None, _) => RangeVerdict::Invalid("bad start: "@ + first),
            (_, None) => RangeVerdict::Invalid("bad end: "@ + last),
            (Some(start), Some(end)) => if start > end {
                RangeVerdict::Invalid(
                    "start "@ + text::decimal(start as nat) + " > end "@ + text::decimal(end as nat),
                )
            } else {
                satisfiable(start, if end < final_byte { end } else { final_byte }, size)
            },
        }
    }
}

/// What the `Range` header `header` asks of a file of `size` bytes.
pub open spec fn range_verdict(header: Option<Seq<char>>, size: u64) -> RangeVerdict {
    match header {
        None => RangeVerdict::Whole,
        Some(h) => {
            let value = text::trimmed(h);
            let spec_part = value.skip("bytes="@.len() as int);
            if !text::starts_with(value, "bytes="@) {
                RangeVerdict::Invalid("must start with 'bytes=': "@ + value)
            } else if spec_part.contains(',') {
                RangeVerdict::Invalid("multi-range requests are not supported"@)
            } else if !spec_part.contains('-') {
                RangeVerdict::Invalid("missing '-': "@ + spec_part)
            } else {
                let dash = text::first_index(spec_part, '-') as int;
                range_of_bounds(
                    text::trimmed(spec_part.take(dash)),
                    text::trimmed(spec_part.skip(dash + 1)),
                    size,
                )
            }
        },
    }
}

fn invalid(message: String) -> (r: Error)
    ensures
        r.kind == ErrorKind::InvalidRange(message),
{
    Error::new(ErrorKind::InvalidRange(message))
}

fn invalid_with(prefix: &str, detail: &str) -> (r: Error)
    ensures
        r.kind matches ErrorKind::InvalidRange(m) && m@ == prefix@ + detail@,
{
    let mut m: String = prefix.to_owned();
    m.append(detail);
    invalid(m)
}

fn invalid_with_numbers(prefix: &str, a: u64, infix: &str, b: u64) -> (r: Error)
    ensures
        r.kind matches ErrorKind::InvalidRange(m) && m@ == prefix@ + text::decimal(a as nat) + infix@
            + text::decimal(b as nat),
{
    let mut m: String = prefix.to_owned();
    m.append(decimal_string(a).as_str());
    m.append(infix);
    m.append(decimal_string(b).as_str());
    invalid(m)
}

/// Whether `result` reports `verdict`.
pub open spec fn reports(
    result: Result<Option<ByteRange>, Error>,
    verdict: RangeVerdict,
) -> bool {
    match verdict {
        RangeVerdict::Whole => result == Ok::<Option<ByteRange>, Error>(None),
        RangeVerdict::Bytes(range) => result == Ok::<Option<ByteRange>, Error>(Some(range)),
        RangeVerdict::Invalid(message) => result matches Err(e)
            && e.kind matches ErrorKind::InvalidRange(m) && m@ == message,
    }
}

/// Parse a `Range: bytes=<start>-<end>` header value for a resource of `file_size` bytes.
///
/// Returns:
/// - `Ok(Some(range))` for a valid, satisfiable range.
/// - `Ok(None)` if the header is absent.
/// - `Err` with [`ErrorKind::InvalidRange`] if the header is present but malformed or
///   unsatisfiable.
pub fn parse_range(header_value: Option<&str>, file_size: u64) -> (r: Result<
    Option<ByteRange>,
    Error,
>)
    ensures
        reports(r, range_verdict(text::opt_view(header_value), file_size)),
{
    let value: &str = match header_value {
        None => return Ok(None),
        Some(v) => trim(v),
    };
    let bytes_part: &str = match strip_prefix(value, "bytes=") {
        Some(rest) => rest,
        None => return Err(invalid_with("must start with 'bytes=': ", value)),
    };
    if find_char(bytes_part, ',').is_some() {
        return Err(invalid("multi-range requests are not supported".to_owned()));
    }
    let dash: usize = match find_char(bytes_part, '-') {
        Some(i) => i,
        None => return Err(invalid_with("missing '-': ", bytes_part)),
    };
    let n: usize = bytes_part.unicode_len();
    let first: &str = trim(bytes_part.substring_char(0, dash));
    let last: &str = trim(bytes_part.substring_char(dash + 1, n));
    assert(bytes_part@.subrange(dash + 1, n as int) == bytes_part@.skip(dash + 1));
    let final_byte: u64 = if file_size >= 1 { file_size - 1 } else { 0 };
    let start: u64;
    let end: u64;
    if last.is_empty() {
        start = match parse_u64(first) {
            Some(x) => x,
            None => return Err(invalid_with("bad start: ", first)),
        };
        end = final_byte;
    } else if first.is_empty() {
        let suffix: u64 = match parse_u64(last) {
            Some(x) => x,
            None => return Err(invalid_with("bad suffix: ", last)),
        };
        start = if file_size >= suffix { file_size - suffix } else { 0 };
        end = final_byte;
    } else {
        start = match parse_u64(first) {
            Some(x) => x,
            None => return Err(invalid_with("bad start: ", first)),
        };
        let asked: u64 = match parse_u64(last) {
            Some(x) => x,
            None => return Err(invalid_with("bad end: ", last)),
        };
        if start > asked {
            return Err(invalid_with_numbers("start ", start, " > end ", asked));
        }
        end = if asked < final_byte { asked } else { final_byte };
    }
    if file_size == 0 || start >= file_size {
        return Err(
            invalid_with_numbers("range not satisfiable: start=", start, " size=", file_size),
        );
    }
    Ok(Some(ByteRange { start, end }))
}

// ---------------------------------------------------------------------------
// Laws
// ---------------------------------------------------------------------------

/// Every range that is granted lies within the file and holds at least one byte.
pub proof fn law_granted_range_lies_within_the_file(header: Option<Seq<char>>, size: u64)
    ensures
        range_verdict(header, size) matches RangeVerdict::Bytes(range) ==> range.within(size),
{
}

/// The whole file is asked for exactly when there is no `Range` header.
pub proof fn law_whole_file_only_without_a_header(header: Option<Seq<char>>, size: u64)
    ensures
        range_verdict(header, size) is Whole <==> header is None,
{
}

/// No range of an empty file can be satisfied.
pub proof fn law_empty_file_has_no_range(header: Seq<char>)
    ensures
        range_verdict(Some(header), 0) is Invalid,
{
}

/// A request for more than one range is refused, whatever the file.
pub proof fn law_several_ranges_are_refused(header: Seq<char>, size: u64)
    requires
        header.contains(','),
    ensures
        range_verdict(Some(header), size) is Invalid,
{
    let value = text::trimmed(header);
    text::lemma_trimmed_keeps(header, ',');
    if text::starts_with(value, "bytes="@) {
        reveal_strlit("bytes=");
        let spec_part = value.skip("bytes="@.len() as int);
        let i = choose|i: int| 0 <= i < value.len() && value[i] == ',';
        assert(value.take("bytes="@.len() as int)[i] == value[i] || i >= "bytes="@.len());
        assert(spec_part[i - "bytes="@.len()] == ',');
    }
}

proof fn lemma_bounds(first: Seq<char>, last: Seq<char>, size: u64)
    requires
        text::all_digits(first),
        text::all_digits(last),
    ensures
        range_verdict(Some("bytes="@ + first + "-"@ + last), size) == range_of_bounds(
            first,
            last,
            size,
        ),
{
    reveal_strlit("bytes=");
    reveal_strlit("-");
    let h = "bytes="@ + first + "-"@ + last;
    let value = text::trimmed(h);
    let n = "bytes="@.len() as int;
    assert(h[0] == 'b');
    assert(h.last() == if last.len() > 0 { last.last() } else { '-' });
    text::lemma_trimmed_identity(h);
    assert(value.take(n) == "bytes="@);
    let spec_part = value.skip(n);
    assert(spec_part == first + "-"@ + last);
    assert forall|i: int| 0 <= i < spec_part.len() implies spec_part[i] != ',' by {
        assert(spec_part[i] == if i < first.len() {
            first[i]
        } else if i == first.len() {
            '-'
        } else {
            last[i - first.len() - 1]
        });
    }
    assert(spec_part[first.len() as int] == '-');
    text::lemma_first_index(spec_part, '-', first.len() as int);
    assert(spec_part.take(first.len() as int) == first);
    assert(spec_part.skip(first.len() as int + 1) == last);
    text::lemma_trimmed_identity(first);
    text::lemma_trimmed_identity(last);
}

/// `bytes=a-b` asks for the bytes `a` to `b`, cut off at the end of the file, and
/// is refused where the file has no byte `a`.
pub proof fn law_explicit_range(a: u64, b: u64, size: u64)
    requires
        a <= b,
    ensures
        ({
            let verdict = range_verdict(
                Some("bytes="@ + text::decimal(a as nat) + "-"@ + text::decimal(b as nat)),
                size,
            );
            if a < size {
                verdict == RangeVerdict::Bytes(
                    ByteRange { start: a, end: if b < size { b } else { (size - 1) as u64 } },
                )
            } else {
                verdict is Invalid
            }
        }),
{
    text::lemma_decimal_digits(a as nat);
    text::lemma_decimal_digits(b as nat);
    text::lemma_decimal_round_trip(a as nat);
    text::lemma_decimal_round_trip(b as nat);
    lemma_bounds(text::decimal(a as nat), text::decimal(b as nat), size);
}

/// `bytes=a-b` with `a` behind `b` is refused.
pub proof fn law_reversed_range_is_refused(a: u64, b: u64, size: u64)
    requires
        a > b,
    ensures
        range_verdict(
            Some("bytes="@ + text::decimal(a as nat) + "-"@ + text::decimal(b as nat)),
            size,
        ) is Invalid,
{
    text::lemma_decimal_digits(a as nat);
    text::lemma_decimal_digits(b as nat);
    text::lemma_decimal_round_trip(a as nat);
    text::lemma_decimal_round_trip(b as nat);
    lemma_bounds(text::decimal(a as nat), text::decimal(b as nat), size);
}

/// `bytes=a-` asks for everything from byte `a` on, and is refused where the file
/// has no such byte.
pub proof fn law_open_ended_range(a: u64, size: u64)
    ensures
        ({
            let verdict = range_verdict(Some("bytes="@ + text::decimal(a as nat) + "-"@), size);
            if a < size {
                verdict == RangeVerdict::Bytes(ByteRange { start: a, end: (size - 1) as u64 })
            } else {
                verdict is Invalid
            }
        }),
{
    text::lemma_decimal_digits(a as nat);
    text::lemma_decimal_round_trip(a as nat);
    lemma_bounds(text::decimal(a as nat), Seq::empty(), size);
    assert("bytes="@ + text::decimal(a as nat) + "-"@ + Seq::<char>::empty() == "bytes="@ + text::decimal(
        a as nat,
    ) + "-"@);
}

/// `bytes=-n` asks for the last `n` bytes, or for the whole of a shorter file,
/// and is refused where that is nothing.
pub proof fn law_suffix_range(n: u64, size: u64)
    ensures
        ({
            let verdict = range_verdict(Some("bytes="@ + "-"@ + text::decimal(n as nat)), size);
            if n > 0 && size > 0 {
                verdict == RangeVerdict::Bytes(
                    ByteRange {
                        start: if n < size {
                            (size - n) as u64
                        } else {
                            0
                        },
                        end: (size - 1) as u64,
                    },
                )
            } else {
                verdict is Invalid
            }
        }),
{
    text::lemma_decimal_digits(n as nat);
    text::lemma_decimal_round_trip(n as nat);
    lemma_bounds(Seq::empty(), text::decimal(n as nat), size);
    assert("bytes="@ + Seq::<char>::empty() + "-"@ + text::decimal(n as nat) == "bytes="@ + "-"@
        + text::decimal(n as nat));
}

/// What a header of one range asks for follows from the numbers on either side
/// of its dash: both give the first byte and the last, cut off at the end of the
/// file; the first alone gives everything from there on; the last alone gives
/// that many bytes from the end. Everything else is refused.
pub proof fn law_numbers_around_the_dash(first: Seq<char>, last: Seq<char>, size: u64)
    requires
        !first.contains(',') && !first.contains('-'),
        !last.contains(','),
        last.len() > 0 ==> !text::is_whitespace(last.last()),
    ensures
        ({
            let verdict = range_verdict(Some("bytes="@ + first + "-"@ + last), size);
            let a = text::u64_value(text::trimmed(first));
            let b = text::u64_value(text::trimmed(last));
            if text::trimmed(last).len() == 0 {
                if a is Some && a->0 < size {
                    verdict == RangeVerdict::Bytes(
                        ByteRange { start: a->0, end: (size - 1) as u64 },
                    )
                } else {
                    verdict is Invalid
                }
            } else if text::trimmed(first).len() == 0 {
                if b is Some && b->0 > 0 && size > 0 {
                    verdict == RangeVerdict::Bytes(
                        ByteRange {
                            start: if b->0 < size {
                                (size - b->0) as u64
                            } else {
                                0
                            },
                            end: (size - 1) as u64,
                        },
                    )
                } else {
                    verdict is Invalid
                }
            } else {
                if a is Some && b is Some && a->0 <= b->0 && a->0 < size {
                    verdict == RangeVerdict::Bytes(
                        ByteRange {
                            start: a->0,
                            end: if b->0 < size {
                                b->0
                            } else {
                                (size - 1) as u64
                            },
                        },
                    )
                } else {
                    verdict is Invalid
                }
            }
        }),
{
    reveal_strlit("bytes=");
    reveal_strlit("-");
    let h = "bytes="@ + first + "-"@ + last;
    let n = "bytes="@.len() as int;
    assert(h[0] == 'b');
    assert(h.last() == if last.len() > 0 { last.last() } else { '-' });
    text::lemma_trimmed_identity(h);
    assert(h.take(n) == "bytes="@);
    let spec_part = h.skip(n);
    assert(spec_part == first + "-"@ + last);
    assert forall|i: int| 0 <= i < spec_part.len() implies spec_part[i] != ',' by {
        assert(spec_part[i] == if i < first.len() {
            first[i]
        } else if i == first.len() {
            '-'
        } else {
            last[i - first.len() - 1]
        });
        if i < first.len() {
            assert(first.contains(first[i]));
        } else if i > first.len() {
            assert(last.contains(last[i - first.len() - 1]));
        }
    }
    assert(spec_part[first.len() as int] == '-');
    assert forall|k: int| 0 <= k < first.len() implies spec_part[k] != '-' by {
        assert(spec_part[k] == first[k]);
        assert(first.contains(first[k]));
    }
    text::lemma_first_index(spec_part, '-', first.len() as int);
    assert(spec_part.take(first.len() as int) == first);
    assert(spec_part.skip(first.len() as int + 1) == last);
}

/// A header that does not begin with `bytes=`, or has no dash behind that, is
/// refused, whatever the file. White space around a header makes no difference.
pub proof fn law_shape_of_a_range(before: Seq<char>, value: Seq<char>, after: Seq<char>, size: u64)
    requires
        value.len() > 0 ==> !text::is_whitespace(value[0]) && !text::is_whitespace(value.last()),
        forall|i: int| 0 <= i < before.len() ==> text::is_whitespace(#[trigger] before[i]),
        forall|i: int| 0 <= i < after.len() ==> text::is_whitespace(#[trigger] after[i]),
    ensures
        range_verdict(Some(before + value + after), size) == range_verdict(Some(value), size),
        !(value.len() >= 6 && value.take(6) == seq!['b', 'y', 't', 'e', 's', '=']) ==> range_verdict(
            Some(value),
            size,
        ) is Invalid,
        !value.contains('-') ==> range_verdict(Some(value), size) is Invalid,
{
    text::law_trimming_ignores_surrounding_space(before, value, after);
    text::lemma_trimmed_identity(value);
    reveal_strlit("bytes=");
    assert("bytes="@ =~= seq!['b', 'y', 't', 'e', 's', '=']);
    let spec_part = value.skip(6);
    if spec_part.contains('-') && value.len() >= 6 {
        let i = choose|i: int| 0 <= i < spec_part.len() && spec_part[i] == '-';
        assert(value[i + 6] == '-');
    }
}

/// The `Content-Range` of a range gives its first byte, its last byte and the
/// size of the file.
pub proof fn law_content_range_names_the_bytes(range: ByteRange, size: u64)
    ensures
        range.content_range(size) == seq!['b', 'y', 't', 'e', 's', ' '] + text::decimal(
            range.start as nat,
        ) + seq!['-'] + text::decimal(range.end as nat) + seq!['/'] + text::decimal(size as nat),
{
    reveal_strlit("bytes ");
    reveal_strlit("-");
    reveal_strlit("/");
    assert("bytes "@ =~= seq!['b', 'y', 't', 'e', 's', ' ']);
    assert("-"@ =~= seq!['-']);
    assert("/"@ =~= seq!['/']);
}

/// Parsing reports a range exactly if that range was asked for, and nothing but
/// the whole file without a header.
pub proof fn law_reported_ranges(
    result: Result<Option<ByteRange>, Error>,
    verdict: RangeVerdict,
    range: ByteRange,
)
    requires
        reports(result, verdict),
    ensures
        result == Ok::<Option<ByteRange>, Error>(None) <==> verdict is Whole,
        result == Ok::<Option<ByteRange>, Error>(Some(range)) <==> verdict
            == RangeVerdict::Bytes(range),
        result is Err <==> verdict is Invalid,
{
}

/// A range lies within a file exactly if its first byte is not behind its last,
/// which is one of the file.
pub proof fn law_ranges_within_a_file(range: ByteRange, size: u64)
    ensures
        range.within(size) <==> range.start <= range.end && range.end < size,
{
}

} // verus!
