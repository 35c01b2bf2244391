//! What can go wrong.

use vstd::prelude::*;
use vstd::string::*;

verus! {

/// A failure. Those that come from outside the library carry the words of their source.
#[derive(Debug)]
pub enum Error {
    Io { path: String, source: String },
    RawIo(String),
    Cert(String),
    TrustStore(String),
    Hosts(String),
    Elevation(String),
    Provider(String),
    Translate(String),
    Json(String),
    Http(String),
    NotImplemented(&'static str),
}

/// A failure, by its kind and its words.
pub open spec fn error_text(e: Error) -> Seq<char> {
    match e {
        Error::Io { path, source } => "io error at "@ + path@ + ": "@ + source@,
        Error::RawIo(source) => source@,
        Error::Cert(what) => "certificate error: "@ + what@,
        Error::TrustStore(what) => "trust store: "@ + what@,
        Error::Hosts(what) => "hosts file: "@ + what@,
        Error::Elevation(what) => "privilege escalation failed: "@ + what@,
        Error::Provider(what) => "upstream provider: "@ + what@,
        Error::Translate(what) => "translate: "@ + what@,
        Error::Json(source) => source@,
        Error::Http(source) => source@,
        Error::NotImplemented(what) => what@ + " is not implemented yet"@,
    }
}

/// One text after another.
fn prefixed(prefix: &str, what: &str) -> (r: String)
    ensures
        r@ == prefix@ + what@,
{
    let mut r = prefix.to_string();
    r.push_str(what);
    r
}

impl Error {
    /// A failed access to the file at `path`.
    pub fn io(path: String, source: String) -> (e: Self)
        ensures
            e == (Error::Io { path, source }),
    {
        Error::Io { path, source }
    }

    /// The failure in words.
    pub fn message(&self) -> (r: String)
        ensures
            r@ == error_text(*self),
    {
        match self {
            Error::Io { path, source } => {
                let mut r = prefixed("io error at ", path.as_str());
                r.push_str(": ");
                r.push_str(source.as_str());
                r
            },
            Error::RawIo(source) => source.clone(),
            Error::Cert(what) => prefixed("certificate error: ", what.as_str()),
            Error::TrustStore(what) => prefixed("trust store: ", what.as_str()),
            Error::Hosts(what) => prefixed("hosts file: ", what.as_str()),
            Error::Elevation(what) => prefixed("privilege escalation failed: ", what.as_str()),
            Error::Provider(what) => prefixed("upstream provider: ", what.as_str()),
            Error::Translate(what) => prefixed("translate: ", what.as_str()),
            Error::Json(source) => source.clone(),
            Error::Http(source) => source.clone(),
            Error::NotImplemented(what) => prefixed(what, " is not implemented yet"),
        }
    }
}

/// What went wrong is told in its own words, last but for a piece of work that is not there yet, and
/// an access that failed names the file.
pub proof fn law_failures_are_told_in_their_own_words(e: &Error, r: String, what: Seq<char>)
    requires
        call_ensures(Error::message, (e,), r),
        match *e {
            Error::Io { source, .. } => what == source@,
            Error::RawIo(s) => what == s@,
            Error::Cert(s) => what == s@,
            Error::TrustStore(s) => what == s@,
            Error::Hosts(s) => what == s@,
            Error::Elevation(s) => what == s@,
            Error::Provider(s) => what == s@,
            Error::Translate(s) => what == s@,
            Error::Json(s) => what == s@,
            Error::Http(s) => what == s@,
            Error::NotImplemented(_) => false,
        },
    ensures
        what.len() <= r@.len(),
        r@.skip(r@.len() - what.len()) == what,
        match *e {
            Error::Io { path, .. } => ("io error at "@ + path@ + ": "@).is_prefix_of(r@),
            Error::RawIo(_) => r@ == what,
            Error::Json(_) => r@ == what,
            Error::Http(_) => r@ == what,
            Error::Cert(_) => "certificate error: "@.is_prefix_of(r@),
            Error::TrustStore(_) => "trust store: "@.is_prefix_of(r@),
            Error::Hosts(_) => "hosts file: "@.is_prefix_of(r@),
            Error::Elevation(_) => "privilege escalation failed: "@.is_prefix_of(r@),
            Error::Provider(_) => "upstream provider: "@.is_prefix_of(r@),
            Error::Translate(_) => "translate: "@.is_prefix_of(r@),
            Error::NotImplemented(_) => true,
        },
{
    let front = r@.take(r@.len() - what.len());
    assert(r@.skip(r@.len() - what.len()) =~= what);
    match *e {
        Error::Io { path, .. } => {
            assert(("io error at "@ + path@ + ": "@) =~= front);
        },
        Error::Cert(_) => {
            assert("certificate error: "@ =~= front);
        },
        Error::TrustStore(_) => {
            assert("trust store: "@ =~= front);
        },
        Error::Hosts(_) => {
            assert("hosts file: "@ =~= front);
        },
        Error::Elevation(_) => {
            assert("privilege escalation failed: "@ =~= front);
        },
        Error::Provider(_) => {
            assert("upstream provider: "@ =~= front);
        },
        Error::Translate(_) => {
            assert("translate: "@ =~= front);
        },
        _ => {},
    }
}

} // verus!
