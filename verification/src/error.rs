//! The library's error type.

use vstd::prelude::*;
use crate::text::{decimal, decimal_string, owned, push_str};

verus! {

/// Failures reported by the library. Paths and causes are carried as text.
#[derive(Debug, Clone)]
pub enum Error {
    /// An I/O failure at a path, with the operating system's message.
    Io { path: String, source: String },
    /// An I/O failure without a path.
    PlainIo(String),
    /// A JSON document could not be read or written.
    Json(String),
    /// Archive extraction failed.
    Archive(String),
    /// A KeyValues document is malformed.
    Vdf(String),
    UnknownGame(String),
    GameNotInstalled(String),
    ModNotFound(String),
    ProfileNotFound(String),
    /// An `nxm://` link that cannot be read.
    BadLink(String),
    /// A transport failure talking to a remote service.
    Http(String),
    /// A remote service answered with an error status.
    Api { service: String, status: u16, body: String },
    /// A request that needs an API key was made without one.
    NoApiKey,
    /// The game has no listing on the named platform.
    GameUnsupported(String),
    Other(String),
}

/// The text shown for an error.
pub open spec fn error_message(e: Error) -> Seq<char> {
    match e {
        Error::Io { path, source } => "io error at "@ + path@ + ": "@ + source@,
        Error::PlainIo(m) => "io error: "@ + m@,
        Error::Json(m) => "json error: "@ + m@,
        Error::Archive(m) => "archive extraction failed: "@ + m@,
        Error::Vdf(m) => "vdf parse error: "@ + m@,
        Error::UnknownGame(m) => "unknown game id: "@ + m@,
        Error::GameNotInstalled(m) => "game not installed / not detected: "@ + m@,
        Error::ModNotFound(m) => "mod not found: "@ + m@,
        Error::ProfileNotFound(m) => "profile not found: "@ + m@,
        Error::BadLink(m) => "invalid nxm link: "@ + m@,
        Error::Http(m) => "http error: "@ + m@,
        Error::Api { service, status, body } => service@ + " api returned "@ + decimal(
            status as nat,
        ) + ": "@ + body@,
        Error::NoApiKey => "no api key set"@,
        Error::GameUnsupported(p) => "this game is not available on "@ + p@,
        Error::Other(m) => m@,
    }
}

/// `head` followed by `tail`, as a new string.
fn prefixed(head: &str, tail: &str) -> (r: String)
    ensures
        r@ == head@ + tail@,
{
    let mut s = owned(head);
    push_str(&mut s, tail);
    s
}

impl Error {
    /// The error's message, as it is shown to the user.
    pub fn message(&self) -> (r: String)
        ensures
            r@ == error_message(*self),
    {
        match self {
            Error::Io { path, source } => {
                let mut s = prefixed("io error at ", path.as_str());
                push_str(&mut s, ": ");
                push_str(&mut s, source.as_str());
                s
            },
            Error::PlainIo(m) => prefixed("io error: ", m.as_str()),
            Error::Json(m) => prefixed("json error: ", m.as_str()),
            Error::Archive(m) => prefixed("archive extraction failed: ", m.as_str()),
            Error::Vdf(m) => prefixed("vdf parse error: ", m.as_str()),
            Error::UnknownGame(m) => prefixed("unknown game id: ", m.as_str()),
            Error::GameNotInstalled(m) => prefixed("game not installed / not detected: ", m.as_str()),
            Error::ModNotFound(m) => prefixed("mod not found: ", m.as_str()),
            Error::ProfileNotFound(m) => prefixed("profile not found: ", m.as_str()),
            Error::BadLink(m) => prefixed("invalid nxm link: ", m.as_str()),
            Error::Http(m) => prefixed("http error: ", m.as_str()),
            Error::Api { service, status, body } => {
                let mut s = prefixed(service.as_str(), " api returned ");
                let n = decimal_string(*status as u64);
                push_str(&mut s, n.as_str());
                push_str(&mut s, ": ");
                push_str(&mut s, body.as_str());
                s
            },
            Error::NoApiKey => owned("no api key set"),
            Error::GameUnsupported(p) => prefixed("this game is not available on ", p.as_str()),
            Error::Other(m) => owned(m.as_str()),
        }
    }

    /// An I/O error at `path` carrying the cause's text.
    pub fn io(path: &str, source: &str) -> (e: Error)
        ensures
            e matches Error::Io { path: p, source: s } && p@ == path@ && s@ == source@,
    {
        Error::Io { path: crate::text::owned(path), source: crate::text::owned(source) }
    }

    /// A free-form error.
    pub fn other(msg: &str) -> (e: Error)
        ensures
            e matches Error::Other(m) && m@ == msg@,
    {
        Error::Other(crate::text::owned(msg))
    }
}

} // verus!
