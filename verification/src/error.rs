//! Errors of the CardDAV client.
use vstd::prelude::*;

verus! {

/// A configuration, transport or protocol error of the CardDAV client.
#[derive(Debug, Clone, PartialEq, Eq)]
pub enum CardDavError {
    /// No server URL was configured.
    MissingUrl,
    /// No Basic user was configured.
    MissingUsername,
    /// No application password was configured (the GUI token is never reused).
    MissingPassword,
    /// A URL scheme other than `https`, or `http` towards loopback.
    UnsupportedScheme(String),
    /// Cleartext HTTP towards a host that is not loopback.
    CleartextForbidden,
    /// A URL that could not be parsed or joined.
    InvalidUrl(String),
    /// A TOML configuration file that could not be read.
    Config { path: String, reason: String },
    /// An HTTP transport failure.
    Transport(String),
    /// An unexpected HTTP status.
    HttpStatus { status: u16, url: String, detail: String },
    /// A DAV href or redirect that leaves the origin.
    CrossOrigin { from: String, to: String },
    /// Invalid or incomplete DAV XML.
    Protocol(String),
    /// Basic authentication rejected (HTTP 401).
    Unauthorized(String),
    /// Several addressbooks and none chosen.
    AmbiguousAddressbook { count: usize },
    /// No addressbook found.
    NoAddressbook(String),
    /// A local I/O failure, with its message.
    Io(String),
    /// 429/503 persisted; the last `Retry-After` wait in milliseconds.
    RetriesExhausted { attempts: u32, retry_after: Option<u64> },
    /// A write without a concrete ETag (`If-Match: *` is never sent).
    MissingEtag,
    /// HTTP 412: the remote ETag changed; nothing was overwritten.
    PreconditionFailed { url: String, etag: String },
    /// A category filter that is not an N1/N2 taxonomy code.
    UnknownCategory(String),
}

} // verus!
