//! A server embedded in a test: how it starts, and what a test can do to the
//! objects it serves.

use crate::errors::Error;
use crate::errors::ErrorKind;
use crate::errors::IoKind;
use crate::fs_path;
use crate::fs_path::FsPath;
use crate::handlers::put_object;
use crate::handlers::put_object::sanitize_key;
use crate::metadata_cache;
use crate::metadata_cache::clone_headers;
use crate::metadata_cache::upsert_custom_header;
use crate::metadata_cache::HeaderEntry;
use crate::metadata_cache::ObjectMetadataCache;
use crate::store;
use crate::store::EntryView;
use crate::store::FileEntry;
use crate::store::FileStore;
use crate::text;
use crate::text::decimal_string;
use vstd::prelude::*;
use vstd::string::*;
use vstd::utf8::*;

verus! {

/// The number of seconds that a server has to start.
pub const STARTUP_TIMEOUT_SECS: u64 = 5;

/// The number of ports that are tried by default.
pub const DEFAULT_PORT_WINDOW: u16 = 100;

/// What can go wrong with an embedded server.
#[derive(Debug)]
pub enum TestServerError {
    /// The server failed to start.
    Startup(Error),
    /// An operation on the server failed.
    Operation(Error),
    /// The server did not start within this number of seconds.
    StartupTimedOut(u64),
    /// The server ended without a word.
    StartupChannelClosed,
    /// The thread of the server panicked.
    ThreadPanicked,
}

impl TestServerError {
    /// The text that describes this error to a user.
    pub open spec fn text(self) -> Seq<char> {
        match self {
            TestServerError::Startup(e) => "server startup failed: "@ + e.kind.text(),
            TestServerError::Operation(e) => "server operation failed: "@ + e.kind.text(),
            TestServerError::StartupTimedOut(secs) => "timed out waiting "@ + text::decimal(
                secs as nat,
            ) + "s for server startup"@,
            TestServerError::StartupChannelClosed => "server startup channel closed unexpectedly"@,
            TestServerError::ThreadPanicked => "server background thread panicked"@,
        }
    }

    /// The text that describes this error to a user.
    pub fn message(&self) -> (r: String)
        ensures
            r@ == self.text(),
    {
        match self {
            TestServerError::Startup(e) => {
                let mut s: String = "server startup failed: ".to_owned();
                s.append(e.message().as_str());
                s
            },
            TestServerError::Operation(e) => {
                let mut s: String = "server operation failed: ".to_owned();
                s.append(e.message().as_str());
                s
            },
            TestServerError::StartupTimedOut(secs) => {
                let mut s: String = "timed out waiting ".to_owned();
                s.append(decimal_string(*secs).as_str());
                s.append("s for server startup");
                s
            },
            TestServerError::StartupChannelClosed => "server startup channel closed unexpectedly".to_owned(),
            TestServerError::ThreadPanicked => "server background thread panicked".to_owned(),
        }
    }
}

// ---------------------------------------------------------------------------
// Starting
// ---------------------------------------------------------------------------

/// The ports that are tried by default, from `start_port` on.
pub fn default_port_range(start_port: u16) -> (r: (u16, u16))
    requires
        start_port + DEFAULT_PORT_WINDOW <= u16::MAX,
    ensures
        r == (start_port, (start_port + DEFAULT_PORT_WINDOW) as u16),
{
    (start_port, start_port + DEFAULT_PORT_WINDOW)
}

/// The URL of a server that listens on `port` of the local host.
pub fn base_url(port: u16) -> (r: String)
    ensures
        r@ == "http://127.0.0.1:"@ + text::decimal(port as nat),
{
    let mut s: String = "http://127.0.0.1:".to_owned();
    s.append(decimal_string(port as u64).as_str());
    s
}

/// A search for a free port, from `start` on and below `end`.
#[derive(Debug)]
pub struct PortSearch {
    pub start: u16,
    pub end: u16,
    /// The port that is tried next.
    pub next: u16,
}

/// How a search for a free port ends.
pub enum SearchEnd {
    /// This port was bound.
    Bound(u16),
    /// This port could not be bound, for a reason of this kind.
    Failed(u16, IoKind),
    /// All ports are in use.
    Exhausted,
}

/// How a search from `next` on and below `end` ends, when `outcome` tells of
/// every port why it cannot be bound, if it cannot.
pub open spec fn search_end(
    next: u16,
    end: u16,
    outcome: spec_fn(u16) -> Option<IoKind>,
) -> SearchEnd
    decreases end - next,
{
    if next >= end {
        SearchEnd::Exhausted
    } else {
        match outcome(next) {
            None => SearchEnd::Bound(next),
            Some(IoKind::AddrInUse) => search_end((next + 1) as u16, end, outcome),
            Some(kind) => SearchEnd::Failed(next, kind),
        }
    }
}

/// Whether `e` reports that there is no free port.
pub open spec fn reports_no_port(e: Error, start: u16, end: u16) -> bool {
    match e.kind {
        ErrorKind::Io(IoKind::AddrNotAvailable, m) => m@
            == "failed to bind fxv-storage-server on any port in range ["@ + text::decimal(
            start as nat,
        ) + ".."@ + text::decimal(end as nat) + ")"@,
        _ => false,
    }
}

impl PortSearch {
    /// A search that has not begun.
    pub fn new(start: u16, end: u16) -> (r: PortSearch)
        ensures
            r == (PortSearch { start, end, next: start }),
    {
        PortSearch { start, end, next: start }
    }

    /// The port to try next, or an error if all have been tried.
    pub fn candidate(&self) -> (r: std::result::Result<u16, Error>)
        ensures
            match r {
                Ok(port) => self.next < self.end && port == self.next,
                Err(e) => self.next >= self.end && reports_no_port(e, self.start, self.end),
            },
            forall|outcome: spec_fn(u16) -> Option<IoKind>|
                match r {
                    Ok(port) => outcome(port) is None ==> #[trigger] search_end(
                        self.next,
                        self.end,
                        outcome,
                    ) == SearchEnd::Bound(port),
                    Err(_) => search_end(self.next, self.end, outcome) is Exhausted,
                },
    {
        if self.next < self.end {
            return Ok(self.next);
        }
        let mut message: String = "failed to bind fxv-storage-server on any port in range [".to_owned();
        message.append(decimal_string(self.start as u64).as_str());
        message.append("..");
        message.append(decimal_string(self.end as u64).as_str());
        message.append(")");
        Err(Error::new(ErrorKind::Io(IoKind::AddrNotAvailable, message)))
    }

    /// Takes note that the port could not be bound, for a reason of this kind.
    /// A port in use is passed over; any other reason ends the search, and the
    /// result is `false`.
    pub fn refused(&mut self, kind: IoKind) -> (r: bool)
        requires
            old(self).next < old(self).end,
        ensures
            r == (kind is AddrInUse),
            *final(self) == if r {
                PortSearch { next: (old(self).next + 1) as u16, ..*old(self) }
            } else {
                *old(self)
            },
            forall|outcome: spec_fn(u16) -> Option<IoKind>|
                outcome(old(self).next) == Some(kind) ==> #[trigger] search_end(
                    old(self).next,
                    old(self).end,
                    outcome,
                ) == if r {
                    search_end(final(self).next, final(self).end, outcome)
                } else {
                    SearchEnd::Failed(old(self).next, kind)
                },
    {
        match kind {
            IoKind::AddrInUse => {
                self.next = self.next + 1;
                true
            },
            _ => false,
        }
    }
}

/// The first port of the range that is not in use is bound, if it can be, or
/// else ends the search. If all are in use there is none.
pub proof fn law_first_free_port_is_taken(
    start: u16,
    end: u16,
    port: u16,
    outcome: spec_fn(u16) -> Option<IoKind>,
)
    requires
        start <= port <= end,
        forall|p: u16| start <= p < port ==> #[trigger] outcome(p) == Some(IoKind::AddrInUse),
        port < end ==> outcome(port) != Some(IoKind::AddrInUse),
    ensures
        search_end(start, end, outcome) == if port == end {
            SearchEnd::Exhausted
        } else {
            match outcome(port) {
                None => SearchEnd::Bound(port),
                Some(kind) => SearchEnd::Failed(port, kind),
            }
        },
    decreases port - start,
{
    if start < port {
        assert(outcome(start) == Some(IoKind::AddrInUse));
        law_first_free_port_is_taken((start + 1) as u16, end, port, outcome);
    }
}

/// What a starting server reports.
#[derive(Debug)]
pub enum StartupEvent {
    /// It has started.
    Started,
    /// It has failed to start.
    Failed(Error),
    /// It has reported nothing in time.
    TimedOut,
    /// It has ended without a report.
    Disconnected,
}

/// The error that a report from a starting server comes to, if any, when
/// `panicked` tells whether its thread has panicked.
pub fn startup_failure(event: StartupEvent, panicked: bool) -> (r: Option<TestServerError>)
    ensures
        r == match event {
            StartupEvent::Started => None,
            StartupEvent::Failed(e) => Some(
                if panicked {
                    TestServerError::ThreadPanicked
                } else {
                    TestServerError::Startup(e)
                },
            ),
            StartupEvent::TimedOut => Some(TestServerError::StartupTimedOut(STARTUP_TIMEOUT_SECS)),
            StartupEvent::Disconnected => Some(
                if panicked {
                    TestServerError::ThreadPanicked
                } else {
                    TestServerError::StartupChannelClosed
                },
            ),
        },
{
    match event {
        StartupEvent::Started => None,
        StartupEvent::Failed(e) => if panicked {
            Some(TestServerError::ThreadPanicked)
        } else {
            Some(TestServerError::Startup(e))
        },
        StartupEvent::TimedOut => Some(TestServerError::StartupTimedOut(STARTUP_TIMEOUT_SECS)),
        StartupEvent::Disconnected => if panicked {
            Some(TestServerError::ThreadPanicked)
        } else {
            Some(TestServerError::StartupChannelClosed)
        },
    }
}

// ---------------------------------------------------------------------------
// Custom headers
// ---------------------------------------------------------------------------

/// Metadata to cache for the object at `rel_path`.
#[derive(Debug)]
pub struct HeaderChange {
    pub rel_path: FsPath,
    pub metadata: ObjectMetadataCache,
}

/// The key of the object at a relative path.
pub fn rel_path_to_key(rel_path: &FsPath) -> (r: String)
    ensures
        r@ == fs_path::path_key(rel_path@),
{
    rel_path.to_key()
}

/// The error for malformed input.
pub fn invalid_input_error(message: &str) -> (r: Error)
    ensures
        metadata_cache::reports_input(r, message@),
{
    Error::new(ErrorKind::Io(IoKind::InvalidInput, message.to_owned()))
}

/// Whether `e` reports that there is no object `key`.
pub open spec fn reports_missing(e: Error, key: Seq<char>) -> bool {
    match e.kind {
        ErrorKind::Io(IoKind::NotFound, m) => m@ == "object '"@ + key + "' not found"@,
        _ => false,
    }
}

fn missing_object_error(key: &str) -> (r: Error)
    ensures
        reports_missing(r, key@),
{
    let mut message: String = "object '".to_owned();
    message.append(key);
    message.append("' not found");
    Error::new(ErrorKind::Io(IoKind::NotFound, message))
}

/// An object after its header `name` has been set to `value`.
pub open spec fn with_header(entry: EntryView, name: Seq<char>, value: Seq<char>) -> EntryView {
    EntryView {
        custom_headers: metadata_cache::upserted(entry.custom_headers, name, value),
        ..entry
    }
}

/// Add or replace a server-controlled custom header for an indexed object.
pub fn add_custom_header(store: &mut FileStore, path: &str, key: &str, value: &str) -> (r:
    std::result::Result<HeaderChange, TestServerError>)
    ensures
        final(store).root() == old(store).root(),
        match put_object::safe_path(encode_utf8(path@)) {
            None => {
                &&& final(store)@ == old(store)@
                &&& r matches Err(TestServerError::Operation(e)) && metadata_cache::reports_input(
                    e,
                    "The specified object key is invalid."@,
                )
            },
            Some(rel) => {
                let object = fs_path::path_key(rel);
                match (store::lookup(old(store)@, object), metadata_cache::header_fault(
                    key@,
                    value@,
                )) {
                    (None, _) => {
                        &&& final(store)@ == old(store)@
                        &&& r matches Err(TestServerError::Operation(e)) && reports_missing(
                            e,
                            object,
                        )
                    },
                    (Some(_), Some(fault)) => {
                        &&& final(store)@ == old(store)@
                        &&& r matches Err(TestServerError::Operation(e))
                            && metadata_cache::reports_input(e, fault)
                    },
                    (Some(entry), None) => {
                        &&& final(store)@ == old(store)@.insert(
                            object,
                            with_header(entry, key@, value@),
                        )
                        &&& r matches Ok(change) && change.rel_path@ == rel
                            && change.metadata@ == store::entry_metadata(
                            with_header(entry, key@, value@),
                        )
                    },
                }
            },
        },
{
    let rel_path: FsPath = match sanitize_key(path) {
        Some(p) => p,
        None => return Err(
            TestServerError::Operation(invalid_input_error("The specified object key is invalid.")),
        ),
    };
    let object_key: String = rel_path_to_key(&rel_path);
    let existing: FileEntry = match store.get(object_key.as_str()) {
        Some(e) => e.clone(),
        None => return Err(TestServerError::Operation(missing_object_error(object_key.as_str()))),
    };
    let mut custom_headers: Vec<HeaderEntry> = clone_headers(&existing.custom_headers);
    if let Err(e) = upsert_custom_header(&mut custom_headers, key, value) {
        return Err(TestServerError::Operation(e));
    }
    let metadata: ObjectMetadataCache = ObjectMetadataCache::from_current_state(
        existing.modified,
        existing.etag.clone(),
        existing.checksums.clone(),
        clone_headers(&custom_headers),
    );
    store.upsert(object_key, FileEntry { custom_headers, ..existing });
    Ok(HeaderChange { rel_path, metadata })
}

// ---------------------------------------------------------------------------
// Laws
// ---------------------------------------------------------------------------


/// Adding a header to an object changes nothing else about it, and leaves its
/// other headers as they are.
pub proof fn law_added_header_changes_nothing_else(
    entry: EntryView,
    name: Seq<char>,
    value: Seq<char>,
    other: Seq<char>,
)
    ensures
        with_header(entry, name, value).abs_path == entry.abs_path,
        with_header(entry, name, value).size == entry.size,
        with_header(entry, name, value).modified == entry.modified,
        with_header(entry, name, value).etag == entry.etag,
        with_header(entry, name, value).checksums == entry.checksums,
        metadata_cache::header_named(with_header(entry, name, value).custom_headers, name) == Some(
            value,
        ),
        text::lower(other) != text::lower(name) ==> metadata_cache::header_named(
            with_header(entry, name, value).custom_headers,
            other,
        ) == metadata_cache::header_named(entry.custom_headers, other),
{
    metadata_cache::law_set_header_is_found(entry.custom_headers, name, value, name);
    metadata_cache::law_set_header_is_found(entry.custom_headers, name, value, other);
}

/// An error reports that there is no free port, or no object, exactly if it is of
/// that kind and names the ports, or the object.
pub proof fn law_reports_of_what_is_missing(e: Error, start: u16, end: u16, key: Seq<char>)
    ensures
        reports_no_port(e, start, end) <==> (e.kind matches ErrorKind::Io(kind, m)
            && kind is AddrNotAvailable && m@
            == "failed to bind fxv-storage-server on any port in range ["@ + text::decimal(
            start as nat,
        ) + ".."@ + text::decimal(end as nat) + ")"@),
        reports_missing(e, key) <==> (e.kind matches ErrorKind::Io(kind, m) && kind is NotFound
            && m@ == "object '"@ + key + "' not found"@),
{
}

} // verus!
