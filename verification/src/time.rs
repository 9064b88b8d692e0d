//! Points in time and their HTTP form.

use crate::headers;
use vstd::prelude::*;

verus! {

/// A point in time: whole seconds since the Unix epoch, negative before it,
/// and the nanoseconds of the second that has begun.
#[derive(Debug, Clone, Copy, PartialEq, Eq, Structural)]
pub struct UnixTime {
    pub secs: i64,
    pub nanos: u32,
}

impl UnixTime {
    /// The Unix epoch.
    pub fn epoch() -> (r: UnixTime)
        ensures
            r == (UnixTime { secs: 0, nanos: 0 }),
    {
        UnixTime { secs: 0, nanos: 0 }
    }

    /// Whether `self` comes after `other`.
    pub open spec fn later_than(self, other: UnixTime) -> bool {
        self.secs > other.secs || (self.secs == other.secs && self.nanos > other.nanos)
    }

    /// Whether `self` comes after `other`.
    pub fn is_after(&self, other: &UnixTime) -> (r: bool)
        ensures
            r == self.later_than(*other),
    {
        self.secs > other.secs || (self.secs == other.secs && self.nanos > other.nanos)
    }

    /// The whole seconds since the Unix epoch; zero before it.
    pub open spec fn whole_secs(self) -> i64 {
        if self.secs < 0 {
            0
        } else {
            self.secs
        }
    }

    /// Whether an HTTP date can name the second of this time: from 1970 up to
    /// the end of the year 9999.
    pub open spec fn has_http_date(self) -> bool {
        0 <= self.secs < 253402300800
    }
}

/// The second since the epoch that an HTTP date names, if `s` is one.
pub uninterp spec fn http_date_value(s: Seq<char>) -> Option<i64>;

/// The HTTP date of a second since the epoch.
pub uninterp spec fn http_date_text(secs: i64) -> Seq<char>;

/// `httpdate::parse_http_date`: reads an HTTP date in any of its three formats.
/// It gives whole seconds of the years 1970 to 9999.
#[verifier::external_body]
pub(crate) fn read_http_date(s: &str) -> (r: Option<i64>)
    ensures
        r == http_date_value(s@),
        r matches Some(secs) ==> 0 <= secs < 253402300800,
{
    let time = httpdate::parse_http_date(s).ok()?;
    let since = time.duration_since(std::time::UNIX_EPOCH).ok()?;
    Some(since.as_secs() as i64)
}

/// `httpdate::fmt_http_date`: writes an HTTP date, which reads back as the
/// second that it was written from. It panics on times that have no HTTP date.
#[verifier::external_body]
pub(crate) fn write_http_date(secs: i64) -> (r: String)
    requires
        0 <= secs < 253402300800,
    ensures
        r@ == http_date_text(secs),
        http_date_value(r@) == Some(secs),
        headers::valid_header_value(r@),
{
    let since = std::time::Duration::from_secs(secs as u64);
    httpdate::fmt_http_date(std::time::UNIX_EPOCH + since)
}

// ---------------------------------------------------------------------------
// Laws
// ---------------------------------------------------------------------------


/// Of two points in time the later one is further from the epoch, in
/// nanoseconds.
pub proof fn law_later_times(a: UnixTime, b: UnixTime)
    requires
        a.nanos < 1_000_000_000,
        b.nanos < 1_000_000_000,
    ensures
        a.later_than(b) <==> a.secs * 1_000_000_000 + a.nanos > b.secs * 1_000_000_000 + b.nanos,
{
}

/// The whole seconds of a time after the epoch are its own, and those of a time
/// before it are none.
pub proof fn law_whole_seconds(t: UnixTime)
    ensures
        t.secs >= 0 ==> t.whole_secs() == t.secs,
        t.secs <= 0 ==> t.whole_secs() == 0,
{
}

/// The times from 1970 to 9999 have an HTTP date.
pub proof fn law_times_with_a_date(t: UnixTime)
    ensures
        t.has_http_date() <==> 0 <= t.secs <= 253402300799,
{
}

} // verus!
