//! HTTP header maps and header syntax.
//!
//! A header map of the `http` crate is specified by the sequence of its
//! entries: the pairs of a lower-case name and the bytes of a value, in the
//! order in which the map hands them out. A name with several values has them
//! behind one another.

use crate::text;
use vstd::prelude::*;
use vstd::string::*;
use vstd::utf8::*;

verus! {

/// `http::HeaderMap`, a multimap from header names to values.
#[verifier::external_type_specification]
#[verifier::external_body]
#[verifier::reject_recursive_types(T)]
pub struct ExHeaderMap<T>(http::HeaderMap<T>);

/// `http::HeaderValue`, the value of a header.
#[verifier::external_type_specification]
#[verifier::external_body]
pub struct ExHeaderValue(http::HeaderValue);

/// `http::HeaderName`, the name of a header.
#[verifier::external_type_specification]
#[verifier::external_body]
pub struct ExHeaderName(http::HeaderName);

/// `http::header::InvalidHeaderName`, the error for a malformed header name.
#[verifier::external_type_specification]
#[verifier::external_body]
pub struct ExInvalidHeaderName(http::header::InvalidHeaderName);

/// `http::header::InvalidHeaderValue`, the error for a malformed header value.
#[verifier::external_type_specification]
#[verifier::external_body]
pub struct ExInvalidHeaderValue(http::header::InvalidHeaderValue);

/// The entries of a header map, in the order of its iterator.
pub uninterp spec fn header_entries(map: http::HeaderMap<http::HeaderValue>) -> Seq<(Seq<char>, Seq<u8>)>;

/// `http::HeaderMap::new`: a map without entries.
#[verifier::external_body]
pub(crate) fn new_header_map() -> (r: http::HeaderMap<http::HeaderValue>)
    ensures
        header_entries(r) == Seq::<(Seq<char>, Seq<u8>)>::empty(),
{
    http::HeaderMap::new()
}

/// `http::HeaderMap::iter`: hands out every entry.
#[verifier::external_body]
pub(crate) fn entries_of(map: &http::HeaderMap<http::HeaderValue>) -> (r: Vec<(String, Vec<u8>)>)
    ensures
        r@.len() == header_entries(*map).len(),
        forall|i: int| 0 <= i < r@.len() ==> {
            &&& (#[trigger] r@[i]).0@ == header_entries(*map)[i].0
            &&& r@[i].1@ == header_entries(*map)[i].1
        },
{
    map.iter().map(|(k, v)| (k.as_str().to_owned(), v.as_bytes().to_vec())).collect()
}

/// `http::HeaderMap::get`: the first value under `name`, whose case does not matter.
#[verifier::external_body]
pub(crate) fn first_value_of(map: &http::HeaderMap<http::HeaderValue>, name: &str) -> (r: Option<
    Vec<u8>,
>)
    requires
        valid_header_name(name@),
    ensures
        match r {
            Some(v) => first_value(header_entries(*map), text::lower(name@)) == Some(v@),
            None => first_value(header_entries(*map), text::lower(name@)) is None,
        },
{
    map.get(name).map(|v| v.as_bytes().to_vec())
}

/// The number of entries from which on a header map may refuse to grow.
pub const HEADER_MAP_LIMIT: usize = 6554;

/// `http::HeaderMap::insert`: `value` becomes the only value under `name`, at
/// the place of the first one that was there, or else behind all entries. The
/// map panics where it would have to outgrow its largest size, which it does
/// not with fewer than 6554 entries.
#[verifier::external_body]
pub(crate) fn insert_header(
    map: &mut http::HeaderMap<http::HeaderValue>,
    name: &str,
    value: &str,
)
    requires
        valid_header_name(name@),
        valid_header_value(value@),
        header_entries(*old(map)).len() < HEADER_MAP_LIMIT,
    ensures
        header_entries(*final(map)) == inserted(
            header_entries(*old(map)),
            text::lower(name@),
            value.spec_bytes(),
        ),
{
    let name = http::HeaderName::from_bytes(name.as_bytes()).unwrap();
    map.insert(name, http::HeaderValue::from_str(value).unwrap());
}

/// `http::HeaderName::from_bytes`: accepts exactly the header names.
#[verifier::external_body]
pub(crate) fn header_name_from(name: &str) -> (r: Result<
    http::HeaderName,
    http::header::InvalidHeaderName,
>)
    ensures
        r is Ok <==> valid_header_name(name@),
{
    http::HeaderName::from_bytes(name.as_bytes())
}

/// `http::HeaderValue::from_str`: accepts exactly the header values.
#[verifier::external_body]
pub(crate) fn header_value_from(value: &str) -> (r: Result<
    http::HeaderValue,
    http::header::InvalidHeaderValue,
>)
    ensures
        r is Ok <==> valid_header_value(value@),
{
    http::HeaderValue::from_str(value)
}

/// The text that `http::header::InvalidHeaderName` displays.
#[verifier::external_body]
pub(crate) fn name_error_text(e: &http::header::InvalidHeaderName) -> (r: String)
    ensures
        r@ == "invalid HTTP header name"@,
{
    e.to_string()
}

/// The text that `http::header::InvalidHeaderValue` displays.
#[verifier::external_body]
pub(crate) fn value_error_text(e: &http::header::InvalidHeaderValue) -> (r: String)
    ensures
        r@ == "failed to parse header value"@,
{
    e.to_string()
}

// ---------------------------------------------------------------------------
// Header syntax
// ---------------------------------------------------------------------------

/// The characters of a token: visible ASCII without the delimiters.
pub open spec fn is_token_char(c: char) -> bool {
    ||| '0' <= c <= '9'
    ||| 'A' <= c <= 'Z'
    ||| 'a' <= c <= 'z'
    ||| c == '!'
    ||| '#' <= c <= '\''
    ||| c == '*'
    ||| c == '+'
    ||| c == '-'
    ||| c == '.'
    ||| '^' <= c <= '`'
    ||| c == '|'
    ||| c == '~'
}

/// A header name is a token of at most 65535 characters.
pub open spec fn valid_header_name(s: Seq<char>) -> bool {
    &&& 1 <= s.len() <= 65535
    &&& forall|i: int| 0 <= i < s.len() ==> is_token_char(#[trigger] s[i])
}

/// A header value holds no control characters but the tabulator.
pub open spec fn valid_header_value(s: Seq<char>) -> bool {
    forall|i: int| 0 <= i < s.len() ==> is_value_char(#[trigger] s[i])
}

/// The characters of a header value.
pub open spec fn is_value_char(c: char) -> bool {
    c == '\t' || (c as u32 >= 32 && c as u32 != 127)
}

/// The bytes of visible ASCII characters, the blank and the tabulator.
pub open spec fn is_visible_byte(b: u8) -> bool {
    b == 9 || 32 <= b < 127
}

/// The text of a header value that holds visible ASCII only.
pub open spec fn visible_text(bytes: Seq<u8>) -> Option<Seq<char>> {
    if forall|i: int| 0 <= i < bytes.len() ==> is_visible_byte(#[trigger] bytes[i]) {
        Some(bytes.map_values(|b: u8| b as char))
    } else {
        None
    }
}

/// Visible ASCII encodes to the bytes that it was read from.
pub proof fn lemma_visible_text_encodes(bytes: Seq<u8>)
    ensures
        visible_text(bytes) matches Some(t) ==> encode_utf8(t) == bytes,
{
    if let Some(t) = visible_text(bytes) {
        assert forall|i: int| 0 <= i < t.len() implies '\0' <= #[trigger] t[i] <= '\u{7f}' by {
            assert(is_visible_byte(bytes[i]));
        }
        is_ascii_chars_encode_utf8(t);
        assert(encode_utf8(t) =~= bytes);
    }
}

/// Visible ASCII is a header value.
pub proof fn lemma_visible_text_is_value(bytes: Seq<u8>)
    ensures
        visible_text(bytes) matches Some(t) ==> valid_header_value(t),
{
    if let Some(t) = visible_text(bytes) {
        assert forall|i: int| 0 <= i < t.len() implies is_value_char(#[trigger] t[i]) by {
            assert(is_visible_byte(bytes[i]));
        }
    }
}

/// The text of a header value, unless it holds other than visible ASCII.
pub fn header_text(bytes: &[u8]) -> (r: Option<String>)
    ensures
        match r {
            Some(s) => visible_text(bytes@) == Some(s@),
            None => visible_text(bytes@) is None,
        },
{
    let mut s: String = String::new();
    let n: usize = bytes.len();
    let mut i: usize = 0;
    while i < n
        invariant
            i <= n,
            n == bytes@.len(),
            forall|k: int| 0 <= k < i ==> is_visible_byte(#[trigger] bytes@[k]),
            s@.len() == i,
            forall|k: int| 0 <= k < i ==> s@[k] == (#[trigger] bytes@[k]) as char,
        decreases n - i,
    {
        let b: u8 = bytes[i];
        if !(b == 9 || (32 <= b && b < 127)) {
            assert(!is_visible_byte(bytes@[i as int]));
            return None;
        }
        s.push(b as char);
        i = i + 1;
    }
    assert(s@ =~= bytes@.map_values(|b: u8| b as char));
    Some(s)
}

/// The text of the first value under `name`.
pub open spec fn text_under(entries: Seq<(Seq<char>, Seq<u8>)>, name: Seq<char>) -> Option<
    Seq<char>,
> {
    match first_value(entries, name) {
        Some(v) => visible_text(v),
        None => None,
    }
}

/// The text of the first value under `name`, if there is one and it is visible
/// ASCII.
pub fn header_text_under(map: &http::HeaderMap<http::HeaderValue>, name: &str) -> (r: Option<
    String,
>)
    requires
        valid_header_name(name@),
    ensures
        match r {
            Some(s) => text_under(header_entries(*map), text::lower(name@)) == Some(s@),
            None => text_under(header_entries(*map), text::lower(name@)) is None,
        },
{
    match first_value_of(map, name) {
        Some(v) => header_text(v.as_slice()),
        None => None,
    }
}

/// The names of the headers that the server reads are header names in lower
/// case.
pub proof fn lemma_names_of_headers_read()
    ensures
        valid_header_name("if-match"@),
        valid_header_name("if-none-match"@),
        valid_header_name("if-modified-since"@),
        valid_header_name("if-unmodified-since"@),
        valid_header_name("range"@),
        text::lower("if-match"@) == "if-match"@,
        text::lower("if-none-match"@) == "if-none-match"@,
        text::lower("if-modified-since"@) == "if-modified-since"@,
        text::lower("if-unmodified-since"@) == "if-unmodified-since"@,
        text::lower("range"@) == "range"@,
{
    reveal_strlit("if-match");
    reveal_strlit("if-none-match");
    reveal_strlit("if-modified-since");
    reveal_strlit("if-unmodified-since");
    reveal_strlit("range");
    assert(text::lower("if-match"@) =~= "if-match"@);
    assert(text::lower("if-none-match"@) =~= "if-none-match"@);
    assert(text::lower("if-modified-since"@) =~= "if-modified-since"@);
    assert(text::lower("if-unmodified-since"@) =~= "if-unmodified-since"@);
    assert(text::lower("range"@) =~= "range"@);
}

/// Whether `name` is a header name.
pub fn is_header_name(name: &str) -> (r: bool)
    ensures
        r == valid_header_name(name@),
{
    header_name_from(name).is_ok()
}

/// Whether `value` is a header value.
pub fn is_header_value(value: &str) -> (r: bool)
    ensures
        r == valid_header_value(value@),
{
    header_value_from(value).is_ok()
}

// ---------------------------------------------------------------------------
// Entries
// ---------------------------------------------------------------------------

/// The number of entries in front of the first one under `name`.
pub open spec fn name_index(entries: Seq<(Seq<char>, Seq<u8>)>, name: Seq<char>) -> int
    decreases entries.len(),
{
    if entries.len() == 0 || entries[0].0 == name {
        0
    } else {
        1 + name_index(entries.drop_first(), name)
    }
}

/// The first value under `name`.
pub open spec fn first_value(entries: Seq<(Seq<char>, Seq<u8>)>, name: Seq<char>) -> Option<
    Seq<u8>,
> {
    let i = name_index(entries, name);
    if i < entries.len() {
        Some(entries[i].1)
    } else {
        None
    }
}

/// The entries that are not under `name`.
pub open spec fn without(entries: Seq<(Seq<char>, Seq<u8>)>, name: Seq<char>) -> Seq<
    (Seq<char>, Seq<u8>),
>
    decreases entries.len(),
{
    if entries.len() == 0 {
        Seq::empty()
    } else if entries[0].0 == name {
        without(entries.drop_first(), name)
    } else {
        seq![entries[0]] + without(entries.drop_first(), name)
    }
}

/// The entries after `value` has become the only value under `name`.
pub open spec fn inserted(
    entries: Seq<(Seq<char>, Seq<u8>)>,
    name: Seq<char>,
    value: Seq<u8>,
) -> Seq<(Seq<char>, Seq<u8>)>
    decreases entries.len(),
{
    if entries.len() == 0 {
        seq![(name, value)]
    } else if entries[0].0 == name {
        seq![(name, value)] + without(entries.drop_first(), name)
    } else {
        seq![entries[0]] + inserted(entries.drop_first(), name, value)
    }
}

proof fn lemma_name_index_bounds(entries: Seq<(Seq<char>, Seq<u8>)>, name: Seq<char>)
    ensures
        0 <= name_index(entries, name) <= entries.len(),
    decreases entries.len(),
{
    if entries.len() > 0 && entries[0].0 != name {
        lemma_name_index_bounds(entries.drop_first(), name);
    }
}

proof fn lemma_first_value_step(
    head: (Seq<char>, Seq<u8>),
    tail: Seq<(Seq<char>, Seq<u8>)>,
    name: Seq<char>,
)
    ensures
        first_value(seq![head] + tail, name) == if head.0 == name {
            Some(head.1)
        } else {
            first_value(tail, name)
        },
{
    let all = seq![head] + tail;
    assert(all.drop_first() =~= tail);
    lemma_name_index_bounds(tail, name);
}

proof fn lemma_without(entries: Seq<(Seq<char>, Seq<u8>)>, name: Seq<char>, other: Seq<char>)
    ensures
        without(entries, name).len() <= entries.len(),
        other != name ==> first_value(without(entries, name), other) == first_value(
            entries,
            other,
        ),
    decreases entries.len(),
{
    if entries.len() > 0 {
        lemma_without(entries.drop_first(), name, other);
        assert(entries =~= seq![entries[0]] + entries.drop_first());
        lemma_first_value_step(entries[0], entries.drop_first(), other);
        lemma_first_value_step(entries[0], without(entries.drop_first(), name), other);
    }
}

/// An inserted value is the first one under its name, and nothing changes
/// under the other names.
pub proof fn lemma_inserted(
    entries: Seq<(Seq<char>, Seq<u8>)>,
    name: Seq<char>,
    value: Seq<u8>,
    other: Seq<char>,
)
    ensures
        inserted(entries, name, value).len() <= entries.len() + 1,
        first_value(inserted(entries, name, value), other) == if other == name {
            Some(value)
        } else {
            first_value(entries, other)
        },
    decreases entries.len(),
{
    if entries.len() == 0 {
        assert(seq![(name, value)] =~= seq![(name, value)] + Seq::<(Seq<char>, Seq<u8>)>::empty());
        lemma_first_value_step((name, value), Seq::empty(), other);
    } else {
        let tail = entries.drop_first();
        assert(entries =~= seq![entries[0]] + tail);
        lemma_first_value_step(entries[0], tail, other);
        if entries[0].0 == name {
            lemma_without(tail, name, other);
            lemma_first_value_step((name, value), without(tail, name), other);
        } else {
            lemma_inserted(tail, name, value, other);
            lemma_first_value_step(entries[0], inserted(tail, name, value), other);
        }
    }
}

/// A value under a name that is not there yet goes behind all entries.
pub proof fn lemma_inserted_absent(
    entries: Seq<(Seq<char>, Seq<u8>)>,
    name: Seq<char>,
    value: Seq<u8>,
)
    requires
        forall|i: int| 0 <= i < entries.len() ==> (#[trigger] entries[i]).0 != name,
    ensures
        inserted(entries, name, value) == entries.push((name, value)),
    decreases entries.len(),
{
    if entries.len() > 0 {
        let tail = entries.drop_first();
        assert forall|i: int| 0 <= i < tail.len() implies (#[trigger] tail[i]).0 != name by {
            assert(tail[i] == entries[i + 1]);
        }
        lemma_inserted_absent(tail, name, value);
        assert(entries[0].0 != name);
        assert(seq![entries[0]] + tail.push((name, value)) =~= entries.push((name, value)));
    } else {
        assert(entries.push((name, value)) =~= seq![(name, value)]);
    }
}

/// A value is the first one under its name if no entry in front of it has that
/// name.
pub proof fn lemma_first_value_at(entries: Seq<(Seq<char>, Seq<u8>)>, name: Seq<char>, i: int)
    requires
        0 <= i < entries.len(),
        entries[i].0 == name,
        forall|k: int| 0 <= k < i ==> (#[trigger] entries[k]).0 != name,
    ensures
        first_value(entries, name) == Some(entries[i].1),
    decreases entries.len(),
{
    let tail = entries.drop_first();
    assert(entries =~= seq![entries[0]] + tail);
    lemma_first_value_step(entries[0], tail, name);
    if i > 0 {
        assert forall|k: int| 0 <= k < i - 1 implies (#[trigger] tail[k]).0 != name by {
            assert(tail[k] == entries[k + 1]);
        }
        lemma_first_value_at(tail, name, i - 1);
    }
}

/// Under a name that no entry has there is no value.
pub proof fn lemma_first_value_absent(entries: Seq<(Seq<char>, Seq<u8>)>, name: Seq<char>)
    requires
        forall|i: int| 0 <= i < entries.len() ==> (#[trigger] entries[i]).0 != name,
    ensures
        first_value(entries, name) is None,
    decreases entries.len(),
{
    if entries.len() > 0 {
        let tail = entries.drop_first();
        assert(entries =~= seq![entries[0]] + tail);
        lemma_first_value_step(entries[0], tail, name);
        assert forall|i: int| 0 <= i < tail.len() implies (#[trigger] tail[i]).0 != name by {
            assert(tail[i] == entries[i + 1]);
        }
        lemma_first_value_absent(tail, name);
    }
}

/// Bytes are a text exactly if each is visible ASCII, a blank or a tabulator,
/// and then each is the character of its code.
pub proof fn law_text_of_a_value(bytes: Seq<u8>)
    ensures
        visible_text(bytes) is Some <==> forall|i: int|
            0 <= i < bytes.len() ==> #[trigger] bytes[i] == 9 || 32 <= bytes[i] <= 126,
        visible_text(bytes) matches Some(t) ==> t.len() == bytes.len() && forall|i: int|
            0 <= i < bytes.len() ==> #[trigger] t[i] as int == bytes[i],
{
    if visible_text(bytes) is Some {
        assert forall|i: int| 0 <= i < bytes.len() implies #[trigger] bytes[i] == 9 || 32
            <= bytes[i] <= 126 by {
            assert(is_visible_byte(bytes[i]));
        }
    }
}

/// The text under a name is that of the first value under it; there is none
/// where no header has the name.
pub proof fn law_text_under_a_name(entries: Seq<(Seq<char>, Seq<u8>)>, name: Seq<char>, i: int)
    requires
        0 <= i <= entries.len(),
        forall|k: int| 0 <= k < i ==> (#[trigger] entries[k]).0 != name,
        i < entries.len() ==> entries[i].0 == name,
    ensures
        first_value(entries, name) == if i < entries.len() {
            Some(entries[i].1)
        } else {
            None
        },
        text_under(entries, name) == if i < entries.len() {
            visible_text(entries[i].1)
        } else {
            None
        },
{
    if i < entries.len() {
        lemma_first_value_at(entries, name, i);
    } else {
        lemma_first_value_absent(entries, name);
    }
}

/// Setting a header leaves the headers of all other names as they are, and
/// makes its value the only one under its name.
pub proof fn law_setting_a_header(
    entries: Seq<(Seq<char>, Seq<u8>)>,
    name: Seq<char>,
    value: Seq<u8>,
)
    ensures
        inserted(entries, name, value).filter(|e: (Seq<char>, Seq<u8>)| e.0 != name)
            == entries.filter(|e: (Seq<char>, Seq<u8>)| e.0 != name),
        inserted(entries, name, value).filter(|e: (Seq<char>, Seq<u8>)| e.0 == name) == seq![
            (name, value),
        ],
    decreases entries.len(),
{
    let others = |e: (Seq<char>, Seq<u8>)| e.0 != name;
    let same = |e: (Seq<char>, Seq<u8>)| e.0 == name;
    let item = (name, value);
    let one = seq![item];
    lemma_filter_of_one(item, others);
    lemma_filter_of_one(item, same);
    if entries.len() == 0 {
        assert(entries.filter(others) =~= one.filter(others)) by {
            reveal(Seq::filter);
        }
    } else {
        let head = entries[0];
        let tail = entries.drop_first();
        assert(entries =~= seq![head] + tail);
        lemma_filter_of_one(head, others);
        lemma_filter_of_one(head, same);
        Seq::filter_distributes_over_add(seq![head], tail, others);
        if head.0 == name {
            let rest = without(tail, name);
            lemma_without_filters(tail, name);
            Seq::filter_distributes_over_add(one, rest, others);
            Seq::filter_distributes_over_add(one, rest, same);
            assert(inserted(entries, name, value).filter(same) =~= one);
            assert(inserted(entries, name, value).filter(others) =~= entries.filter(others));
        } else {
            let rest = inserted(tail, name, value);
            law_setting_a_header(tail, name, value);
            Seq::filter_distributes_over_add(seq![head], rest, others);
            Seq::filter_distributes_over_add(seq![head], rest, same);
            assert(inserted(entries, name, value).filter(same) =~= one);
        }
    }
}

proof fn lemma_filter_of_one(
    e: (Seq<char>, Seq<u8>),
    pred: spec_fn((Seq<char>, Seq<u8>)) -> bool,
)
    ensures
        seq![e].filter(pred) == if pred(e) {
            seq![e]
        } else {
            Seq::empty()
        },
{
    reveal(Seq::filter);
    assert(seq![e].drop_last() =~= Seq::empty());
    assert(Seq::<(Seq<char>, Seq<u8>)>::empty().filter(pred) =~= Seq::empty());
    assert(Seq::<(Seq<char>, Seq<u8>)>::empty().push(e) =~= seq![e]);
}

proof fn lemma_without_filters(entries: Seq<(Seq<char>, Seq<u8>)>, name: Seq<char>)
    ensures
        without(entries, name).filter(|e: (Seq<char>, Seq<u8>)| e.0 != name) == entries.filter(
            |e: (Seq<char>, Seq<u8>)| e.0 != name,
        ),
        without(entries, name).filter(|e: (Seq<char>, Seq<u8>)| e.0 == name) == Seq::<
            (Seq<char>, Seq<u8>),
        >::empty(),
    decreases entries.len(),
{
    let others = |e: (Seq<char>, Seq<u8>)| e.0 != name;
    let same = |e: (Seq<char>, Seq<u8>)| e.0 == name;
    if entries.len() == 0 {
        reveal(Seq::filter);
        assert(without(entries, name) =~= entries);
        assert(entries.filter(same) =~= Seq::empty());
    } else {
        let head = entries[0];
        let tail = entries.drop_first();
        assert(entries =~= seq![head] + tail);
        lemma_without_filters(tail, name);
        lemma_filter_of_one(head, others);
        lemma_filter_of_one(head, same);
        Seq::filter_distributes_over_add(seq![head], tail, others);
        if head.0 != name {
            Seq::filter_distributes_over_add(seq![head], without(tail, name), others);
            Seq::filter_distributes_over_add(seq![head], without(tail, name), same);
            assert(without(entries, name).filter(same) =~= Seq::empty());
        } else {
            assert(entries.filter(others) =~= tail.filter(others));
        }
    }
}

/// The characters of a header name are those of visible ASCII but for the
/// delimiters.
pub proof fn law_characters_of_a_name(c: char)
    ensures
        is_token_char(c) <==> '!' <= c <= '~' && c != '"' && c != '(' && c != ')' && c != ','
            && c != '/' && c != ':' && c != ';' && c != '<' && c != '=' && c != '>' && c != '?'
            && c != '@' && c != '[' && c != '\\' && c != ']' && c != '{' && c != '}',
{
}

/// A header name is a text of at least one such character, and of no other; a
/// header value is a text without control characters other than the tabulator.
pub proof fn law_names_and_values(s: Seq<char>)
    ensures
        valid_header_name(s) <==> s.len() > 0 && s.len() < 65536 && forall|i: int|
            0 <= i < s.len() ==> is_token_char(#[trigger] s[i]),
        valid_header_value(s) <==> forall|i: int|
            0 <= i < s.len() ==> #[trigger] s[i] == '\t' || (s[i] as u32 > 31 && s[i] as u32
                != 127),
{
    if valid_header_value(s) {
        assert forall|i: int| 0 <= i < s.len() implies #[trigger] s[i] == '\t' || (s[i] as u32 > 31
            && s[i] as u32 != 127) by {
            assert(is_value_char(s[i]));
        }
    }
}

} // verus!
