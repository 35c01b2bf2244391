//! The local TLS server: how requests are routed and what is said of connections.

use vstd::prelude::*;
use vstd::string::*;

use crate::config::{bare_host, strip_port};
use crate::text::{chars_of, contains, contains_str, lower, lower_chars, text_of};

pub mod control;
pub mod intercept;
pub mod passthrough;
pub mod preflight;
pub mod route;
pub mod sni;

verus! {

/// Request bodies above this are refused rather than buffered.
pub const MAX_BODY: usize = 33_554_432;

/// The host that a request is for: the one of its `Host` header without the port, else the one of
/// its target.
pub fn request_host(host_header: Option<&str>, uri_host: Option<&str>) -> (r: String)
    ensures
        r@ == match (host_header, uri_host) {
            (Some(h), _) => bare_host(h@),
            (None, Some(u)) => u@,
            (None, None) => seq![],
        },
{
    match host_header {
        Some(h) => strip_port(h),
        None => match uri_host {
            Some(u) => u.to_string(),
            None => String::new(),
        },
    }
}

/// The absolute form of a request's target; the root where it names no path.
pub fn upstream_uri(host: &str, path_and_query: Option<&str>) -> (r: String)
    ensures
        r@ == "https://"@ + host@ + match path_and_query {
            Some(p) => p@,
            None => "/"@,
        },
{
    let mut r = "https://".to_string();
    r.push_str(host);
    match path_and_query {
        Some(p) => {
            r.push_str(p);
        },
        None => {
            r.push_str("/");
        },
    }
    r
}

/// The body of the response to a request that failed.
pub fn error_body(error: &str) -> (r: String)
    ensures
        r@ == "9rai proxy error: "@ + error@,
{
    let mut r = "9rai proxy error: ".to_string();
    r.push_str(error);
    r
}

/// What a dead connection means.
#[derive(Debug, Clone, Copy, PartialEq, Eq, Structural)]
pub enum ConnectionEnd {
    /// It ended after the handshake.
    Ended,
    /// The client rejected the certificate.
    CertificateRejected,
    /// The client walked away before the handshake was complete: a port probe or health check.
    Probe,
    /// The handshake failed otherwise.
    HandshakeFailed,
}

/// The reasons for which a client that distrusts the root ends the handshake.
pub open spec fn names_distrust(low: Seq<char>) -> bool {
    ||| contains(low, "unknownca"@)
    ||| contains(low, "unknown_ca"@)
    ||| contains(low, "badcertificate"@)
    ||| contains(low, "certificateunknown"@)
    ||| contains(low, "decryptionerror"@)
}

/// What an error of a connection means.
pub open spec fn meaning(text: Seq<char>) -> ConnectionEnd {
    if !contains(text, "tls accept"@) {
        ConnectionEnd::Ended
    } else if names_distrust(lower(text)) {
        ConnectionEnd::CertificateRejected
    } else if contains(lower(text), "eof"@) {
        ConnectionEnd::Probe
    } else {
        ConnectionEnd::HandshakeFailed
    }
}

/// Say what a dead connection actually means, because the cases look identical in a log and lead
/// opposite ways: a client that distrusts the root ends the handshake with an alert that names the
/// reason, while a handshake that simply hits the end of the stream is a client that connected and
/// walked away.
pub fn connection_end(text: &str) -> (r: ConnectionEnd)
    ensures
        r == meaning(text@),
{
    if !contains_str(text, "tls accept") {
        return ConnectionEnd::Ended;
    }
    let chars = chars_of(text);
    let lowered = text_of(lower_chars(chars.as_slice()).as_slice());
    let low = lowered.as_str();
    if contains_str(low, "unknownca") || contains_str(low, "unknown_ca") || contains_str(
        low,
        "badcertificate",
    ) || contains_str(low, "certificateunknown") || contains_str(low, "decryptionerror") {
        ConnectionEnd::CertificateRejected
    } else if contains_str(low, "eof") {
        ConnectionEnd::Probe
    } else {
        ConnectionEnd::HandshakeFailed
    }
}

// ── Laws ─────────────────────────────────────────────────────────────────────

/// A request goes to the host that it names, with the very path and query that it asks for.
pub proof fn law_targets_keep_host_and_path(
    host: &str,
    path_and_query: Option<&str>,
    r: String,
    other: &str,
    other_path: Option<&str>,
    s: String,
)
    requires
        call_ensures(upstream_uri, (host, path_and_query), r),
        call_ensures(upstream_uri, (other, other_path), s),
    ensures
        "https://"@.is_prefix_of(r@),
        r@.subrange(8, 8 + host@.len() as int) == host@,
        path_and_query is Some ==> r@.skip(8 + host@.len() as int) == path_and_query->0@,
        path_and_query is None ==> r@.skip(8 + host@.len() as int) == "/"@,
        host@ == other@ && r@ == s@ && path_and_query is Some && other_path is Some
            ==> path_and_query->0@ == other_path->0@,
{
    reveal_strlit("https://");
    assert("https://"@ =~= r@.take(8));
    assert(r@.subrange(8, 8 + host@.len() as int) =~= host@);
    if let Some(p) = path_and_query {
        assert(r@.skip(8 + host@.len() as int) =~= p@);
    } else {
        assert(r@.skip(8 + host@.len() as int) =~= "/"@);
    }
    if let Some(p) = other_path {
        assert(s@.skip(8 + other@.len() as int) =~= p@);
    }
}

/// The host that a request is for is the one of its header, whatever the port and the target, and
/// the one of its target only where it has no such header.
pub proof fn law_the_header_names_the_host(
    name: Seq<char>,
    port: Seq<char>,
    header: &str,
    target: Option<&str>,
    r: String,
    s: String,
)
    requires
        !name.contains(':'),
        header@ == name || header@ == name + seq![':'] + port,
        call_ensures(request_host, (Some(header), target), r),
        call_ensures(request_host, (None::<&str>, target), s),
    ensures
        r@ == name,
        target is Some ==> s@ == target->0@,
        target is None ==> s@.len() == 0,
{
    crate::config::law_port_makes_no_difference(name, port);
}

/// A connection that dies after its handshake just ended. One that dies in the handshake is laid at
/// the certificate's door exactly where an alert of distrust is named, in whatever case, and is a
/// probe where it merely hit the end of the stream.
pub proof fn law_distrust_is_told_from_a_probe(text: &str, r: ConnectionEnd, i: int, alert: Seq<char>)
    requires
        call_ensures(connection_end, (text,), r),
    ensures
        !contains(text@, "tls accept"@) <==> r is Ended,
        contains(text@, "tls accept"@) && (alert == "unknownca"@ || alert == "unknown_ca"@ || alert
            == "badcertificate"@ || alert == "certificateunknown"@ || alert == "decryptionerror"@)
            && crate::text::occurs_at(lower(text@), alert, i) ==> r is CertificateRejected,
        r is CertificateRejected ==> exists|a: Seq<char>|
            {
                &&& a == "unknownca"@ || a == "unknown_ca"@ || a == "badcertificate"@ || a
                    == "certificateunknown"@ || a == "decryptionerror"@
                &&& #[trigger] contains(lower(text@), a)
            },
        r is Probe ==> contains(lower(text@), "eof"@),
        r is HandshakeFailed ==> !contains(lower(text@), "eof"@),
{
}

/// What is told of an error ends with the error.
pub proof fn law_errors_are_told_to_the_client(error: &str, r: String)
    requires
        call_ensures(error_body, (error,), r),
    ensures
        r@ == "9rai proxy error: "@ + error@,
        error@.is_suffix_of(r@),
{
    assert(error@ =~= r@.subrange(r@.len() - error@.len(), r@.len() as int));
}

} // verus!
