//! Forwarding a request to the real upstream: which headers cross, and what is said of failures.

use vstd::prelude::*;
use vstd::string::*;

use crate::error::Error;
use crate::text::{decimal, numeral, same};

verus! {

/// Headers that must not cross a connection boundary, in either direction.
pub const HOP_BY_HOP: [&'static str; 7] = [
    "connection",
    "keep-alive",
    "proxy-connection",
    "transfer-encoding",
    "te",
    "trailer",
    "upgrade",
];

/// A header: its name, in lower case, and its value.
#[derive(Debug, Clone)]
pub struct Header {
    pub name: String,
    pub value: Vec<u8>,
}

/// Headers, by name and value.
pub type HeaderList = Seq<(Seq<char>, Seq<u8>)>;

/// The headers that a list holds.
pub open spec fn header_list(headers: Seq<Header>) -> HeaderList {
    headers.map_values(|h: Header| (h.name@, h.value@))
}

/// A header of this name must not cross.
pub open spec fn stays_behind(name: Seq<char>) -> bool {
    exists|i: int| 0 <= i < 7 && (#[trigger] HOP_BY_HOP@[i])@ == name
}

/// The headers among the first `n` that cross to the client.
pub open spec fn relayed(headers: HeaderList, n: nat) -> HeaderList
    decreases n,
{
    if n == 0 {
        seq![]
    } else {
        let before = relayed(headers, (n - 1) as nat);
        if stays_behind(headers[n - 1].0) {
            before
        } else {
            before.push(headers[n - 1])
        }
    }
}

/// A text that can be the value of a header: no control characters but the tab, and no `DEL`.
pub open spec fn can_be_value(s: Seq<u8>) -> bool {
    forall|i: int| 0 <= i < s.len() ==> valid_byte(#[trigger] s[i])
}

/// A byte that can stand in the value of a header.
pub open spec fn valid_byte(b: u8) -> bool {
    (b >= 32 && b != 127) || b == 9
}

/// A header of this name is not taken over from the request: hop-by-hop headers, the length, which
/// is computed anew for the buffered body, and the host where it is set anew.
pub open spec fn dropped(name: Seq<char>, new_host: bool) -> bool {
    stays_behind(name) || name == "content-length"@ || (new_host && name == "host"@)
}

/// The headers among the first `n` that are taken over from the request.
pub open spec fn taken_over(headers: HeaderList, new_host: bool, n: nat) -> HeaderList
    decreases n,
{
    if n == 0 {
        seq![]
    } else {
        let before = taken_over(headers, new_host, (n - 1) as nat);
        if dropped(headers[n - 1].0, new_host) {
            before
        } else {
            before.push(headers[n - 1])
        }
    }
}

/// The headers of the upstream request: those that are taken over, and the host.
pub open spec fn sanitized(headers: HeaderList, host: Seq<u8>) -> HeaderList {
    if can_be_value(host) {
        taken_over(headers, true, headers.len()).push(("host"@, host))
    } else {
        taken_over(headers, false, headers.len())
    }
}

/// Whether a header of this name must not cross.
fn is_hop_by_hop(name: &str) -> (b: bool)
    ensures
        b == stays_behind(name@),
{
    let mut i: usize = 0;
    while i < 7
        invariant
            i <= 7,
            forall|j: int| 0 <= j < i ==> (#[trigger] HOP_BY_HOP@[j])@ != name@,
        decreases 7 - i,
    {
        if same(HOP_BY_HOP[i], name) {
            assert(HOP_BY_HOP@[i as int]@ == name@);
            return true;
        }
        i += 1;
    }
    false
}

/// A header with the same name and value.
fn copied(h: &Header) -> (r: Header)
    ensures
        r.name@ == h.name@,
        r.value@ == h.value@,
{
    Header { name: h.name.clone(), value: vstd::slice::slice_to_vec(h.value.as_slice()) }
}

/// The headers that are taken over from a request.
fn take_over(headers: &[Header], new_host: bool) -> (r: Vec<Header>)
    ensures
        header_list(r@) == taken_over(header_list(headers@), new_host, headers@.len()),
{
    let mut r: Vec<Header> = Vec::new();
    let mut i: usize = 0;
    let ghost all = header_list(headers@);
    assert(header_list(r@) =~= seq![]);
    while i < headers.len()
        invariant
            i <= headers@.len(),
            all == header_list(headers@),
            header_list(r@) == taken_over(all, new_host, i as nat),
        decreases headers@.len() - i,
    {
        let name = headers[i].name.as_str();
        let drops = is_hop_by_hop(name) || same(name, "content-length") || (new_host && same(
            name,
            "host",
        ));
        let ghost before = header_list(r@);
        if !drops {
            let h = copied(&headers[i]);
            r.push(h);
            assert(header_list(r@) =~= before.push(all[i as int]));
        }
        i += 1;
    }
    r
}

/// The headers of the upstream request. The body is fully buffered, so its framing is computed
/// anew instead of trusting whatever the client sent.
pub fn sanitize(headers: &[Header], host: &str) -> (r: Vec<Header>)
    ensures
        header_list(r@) == sanitized(header_list(headers@), host.spec_bytes()),
{
    let bytes = host.as_bytes();
    let mut i: usize = 0;
    let mut valid = true;
    while i < bytes.len()
        invariant
            i <= bytes@.len(),
            valid == forall|j: int| 0 <= j < i ==> valid_byte(#[trigger] bytes@[j]),
        decreases bytes@.len() - i,
    {
        let b = bytes[i];
        if !((b >= 32 && b != 127) || b == 9) {
            valid = false;
        }
        i += 1;
    }
    let mut r = take_over(headers, valid);
    if valid {
        let ghost before = header_list(r@);
        let h = Header { name: "host".to_string(), value: vstd::slice::slice_to_vec(bytes) };
        r.push(h);
        assert(header_list(r@) =~= before.push(("host"@, bytes@)));
    }
    r
}

/// The headers of a response that cross to the client.
pub fn relay_headers(headers: &[Header]) -> (r: Vec<Header>)
    ensures
        header_list(r@) == relayed(header_list(headers@), headers@.len()),
{
    let mut r: Vec<Header> = Vec::new();
    let mut i: usize = 0;
    let ghost all = header_list(headers@);
    assert(header_list(r@) =~= seq![]);
    while i < headers.len()
        invariant
            i <= headers@.len(),
            all == header_list(headers@),
            header_list(r@) == relayed(all, i as nat),
        decreases headers@.len() - i,
    {
        let ghost before = header_list(r@);
        if !is_hop_by_hop(headers[i].name.as_str()) {
            let h = copied(&headers[i]);
            r.push(h);
            assert(header_list(r@) =~= before.push(all[i as int]));
        }
        i += 1;
    }
    r
}

/// The error for an upstream that none of its addresses led to: how many were tried, and why the
/// last one failed.
pub fn connect_error(host: &str, port: u16, tried: usize, last: Option<&str>) -> (e: Error)
    ensures
        e is Provider,
        e->Provider_0@ == match last {
            Some(why) => "connect "@ + host@ + ":"@ + decimal(port as nat) + " failed for all "@
                + decimal(tried as nat) + " address(es), last: "@ + why@,
            None => "no address for "@ + host@,
        },
{
    match last {
        Some(why) => {
            let mut text = "connect ".to_string();
            text.push_str(host);
            text.push_str(":");
            text.push_str(numeral(port as u64).as_str());
            text.push_str(" failed for all ");
            text.push_str(numeral(tried as u64).as_str());
            text.push_str(" address(es), last: ");
            text.push_str(why);
            Error::Provider(text)
        },
        None => {
            let mut text = "no address for ".to_string();
            text.push_str(host);
            Error::Provider(text)
        },
    }
}

// ── Laws ─────────────────────────────────────────────────────────────────────

/// No hop-by-hop header crosses to the client, and every other one does.
pub proof fn law_hop_by_hop_headers_stay_behind(headers: HeaderList, n: nat)
    requires
        n <= headers.len(),
    ensures
        forall|i: int|
            0 <= i < relayed(headers, n).len() ==> !stays_behind((#[trigger] relayed(headers, n)[i]).0),
        forall|i: int|
            0 <= i < n && !stays_behind((#[trigger] headers[i]).0) ==> relayed(
                headers,
                n,
            ).contains(headers[i]),
    decreases n,
{
    if n > 0 {
        law_hop_by_hop_headers_stay_behind(headers, (n - 1) as nat);
        let before = relayed(headers, (n - 1) as nat);
        let now = relayed(headers, n);
        assert forall|i: int| 0 <= i < n && !stays_behind(
            (#[trigger] headers[i]).0,
        ) implies now.contains(headers[i]) by {
            if i == n - 1 {
                assert(now.last() == headers[i]);
            } else {
                assert(before.contains(headers[i]));
                let j = choose|j: int| 0 <= j < before.len() && before[j] == headers[i];
                assert(now[j] == headers[i]);
            }
        }
    }
}

/// The headers that concern one connection alone.
pub open spec fn is_of_the_connection(name: Seq<char>) -> bool {
    ||| name == "connection"@
    ||| name == "keep-alive"@
    ||| name == "proxy-connection"@
    ||| name == "transfer-encoding"@
    ||| name == "te"@
    ||| name == "trailer"@
    ||| name == "upgrade"@
}

/// A header that is the client's own business: it is not of the connection, and says neither how
/// long the body is nor which host is meant.
pub open spec fn is_ordinary(h: (Seq<char>, Seq<u8>)) -> bool {
    !is_of_the_connection(h.0) && h.0 != "content-length"@ && h.0 != "host"@
}

/// The headers that are no hop-by-hop headers are the ones that are not of the connection.
proof fn lemma_stays_behind(name: Seq<char>)
    ensures
        stays_behind(name) <==> is_of_the_connection(name),
{
    let names = HOP_BY_HOP@;
    assert(names[0]@ == "connection"@);
    assert(names[1]@ == "keep-alive"@);
    assert(names[2]@ == "proxy-connection"@);
    assert(names[3]@ == "transfer-encoding"@);
    assert(names[4]@ == "te"@);
    assert(names[5]@ == "trailer"@);
    assert(names[6]@ == "upgrade"@);
}

proof fn lemma_taken_over(headers: HeaderList, new_host: bool, n: nat)
    requires
        n <= headers.len(),
    ensures
        taken_over(headers, new_host, n) == headers.take(n as int).filter(
            |h: (Seq<char>, Seq<u8>)|
                is_ordinary(h) || (!new_host && h.0 == "host"@),
        ),
    decreases n,
{
    reveal(Seq::filter);
    reveal_strlit("host");
    reveal_strlit("content-length");
    assert("host"@.len() != "content-length"@.len());
    let keep = |h: (Seq<char>, Seq<u8>)| is_ordinary(h) || (!new_host && h.0 == "host"@);
    if n > 0 {
        lemma_taken_over(headers, new_host, (n - 1) as nat);
        assert(headers.take(n as int).drop_last() =~= headers.take(n - 1));
        let h = headers[n - 1];
        lemma_stays_behind(h.0);
        lemma_stays_behind("host"@);
        reveal_strlit("connection");
        reveal_strlit("keep-alive");
        reveal_strlit("proxy-connection");
        reveal_strlit("transfer-encoding");
        reveal_strlit("te");
        reveal_strlit("trailer");
        reveal_strlit("upgrade");
        assert(keep(h) == !dropped(h.0, new_host));
    } else {
        assert(headers.take(0) =~= seq![]);
    }
}

/// Filtering twice by a narrower and a wider rule is filtering by the narrower one.
proof fn lemma_filter_twice(
    s: HeaderList,
    narrow: spec_fn((Seq<char>, Seq<u8>)) -> bool,
    wide: spec_fn((Seq<char>, Seq<u8>)) -> bool,
)
    requires
        forall|h: (Seq<char>, Seq<u8>)| #[trigger] narrow(h) ==> wide(h),
    ensures
        s.filter(wide).filter(narrow) == s.filter(narrow),
    decreases s.len(),
{
    reveal(Seq::filter);
    if s.len() > 0 {
        let rest = s.drop_last();
        lemma_filter_twice(rest, narrow, wide);
        let w = rest.filter(wide);
        if wide(s.last()) {
            assert(w.push(s.last()).drop_last() =~= w);
        } else {
            assert(!narrow(s.last()));
        }
    }
}

/// A request is forwarded unmodified: every header of it that is not of the connection, the length
/// or the host reaches the upstream, with its value, as often as it came and in the same order, and
/// no such header is added.
pub proof fn law_ordinary_headers_reach_the_upstream(
    headers: &[Header],
    host: &str,
    sent: Vec<Header>,
)
    requires
        call_ensures(sanitize, (headers, host), sent),
    ensures
        header_list(sent@).filter(|h: (Seq<char>, Seq<u8>)| is_ordinary(h)) == header_list(
            headers@,
        ).filter(|h: (Seq<char>, Seq<u8>)| is_ordinary(h)),
{
    let all = header_list(headers@);
    let out = header_list(sent@);
    let new_host = can_be_value(host.spec_bytes());
    let narrow = |h: (Seq<char>, Seq<u8>)| is_ordinary(h);
    let wide = |h: (Seq<char>, Seq<u8>)| is_ordinary(h) || (!new_host && h.0 == "host"@);
    lemma_taken_over(all, new_host, all.len());
    assert(all.take(all.len() as int) =~= all);
    lemma_filter_twice(all, narrow, wide);
    if new_host {
        reveal(Seq::filter);
        let kept = all.filter(wide);
        let set = ("host"@, host.spec_bytes());
        assert(out == kept.push(set));
        assert(kept.push(set).drop_last() =~= kept);
        assert(!is_ordinary(set));
    }
}

/// The upstream hears of one host, the one that is meant, where its name can be sent; and never of
/// the client's connection, nor of a length that the client claimed.
pub proof fn law_the_upstream_hears_of_the_host_that_is_meant(
    headers: &[Header],
    host: &str,
    sent: Vec<Header>,
    i: int,
)
    requires
        call_ensures(sanitize, (headers, host), sent),
        0 <= i < sent@.len(),
    ensures
        !is_of_the_connection(sent@[i].name@),
        sent@[i].name@ != "content-length"@,
        (forall|j: int|
            0 <= j < host.spec_bytes().len() ==> 32 <= #[trigger] host.spec_bytes()[j]
                && host.spec_bytes()[j] != 127 || host.spec_bytes()[j] == 9) ==> sent@.last().name@ == "host"@ && sent@.last().value@ == host.spec_bytes() && (i
            < sent@.len() - 1 ==> sent@[i].name@ != "host"@),
{
    let all = header_list(headers@);
    let out = header_list(sent@);
    let new_host = can_be_value(host.spec_bytes());
    let wide = |h: (Seq<char>, Seq<u8>)| is_ordinary(h) || (!new_host && h.0 == "host"@);
    lemma_taken_over(all, new_host, all.len());
    assert(all.take(all.len() as int) =~= all);
    let kept = all.filter(wide);
    if i < kept.len() {
        all.lemma_filter_pred(wide, i);
    }
    assert(out[i] == (sent@[i].name@, sent@[i].value@));
    reveal_strlit("host");
    reveal_strlit("content-length");
    reveal_strlit("connection");
    reveal_strlit("keep-alive");
    reveal_strlit("proxy-connection");
    reveal_strlit("transfer-encoding");
    reveal_strlit("te");
    reveal_strlit("trailer");
    reveal_strlit("upgrade");
    assert("host"@.len() == 4);
    if i < kept.len() {
        assert(wide(kept[i]));
        assert(out[i] == kept[i]);
    }
    if forall|j: int|
        0 <= j < host.spec_bytes().len() ==> 32 <= #[trigger] host.spec_bytes()[j]
            && host.spec_bytes()[j] != 127 || host.spec_bytes()[j] == 9 {
        assert(new_host);
        assert(out.last() == (sent@.last().name@, sent@.last().value@));
    }
}

proof fn lemma_relayed(headers: HeaderList, n: nat)
    requires
        n <= headers.len(),
    ensures
        relayed(headers, n) == headers.take(n as int).filter(
            |h: (Seq<char>, Seq<u8>)| !is_of_the_connection(h.0),
        ),
    decreases n,
{
    reveal(Seq::filter);
    if n > 0 {
        lemma_relayed(headers, (n - 1) as nat);
        assert(headers.take(n as int).drop_last() =~= headers.take(n - 1));
        lemma_stays_behind(headers[n - 1].0);
    } else {
        assert(headers.take(0) =~= seq![]);
    }
}

/// An answer is handed on unmodified: the client gets every header of it that is not of the
/// connection, with its value, in order, and no other.
pub proof fn law_answers_keep_their_headers(headers: &[Header], handed: Vec<Header>)
    requires
        call_ensures(relay_headers, (headers,), handed),
    ensures
        header_list(handed@) == header_list(headers@).filter(
            |h: (Seq<char>, Seq<u8>)| !is_of_the_connection(h.0),
        ),
{
    let all = header_list(headers@);
    lemma_relayed(all, all.len());
    assert(all.take(all.len() as int) =~= all);
}

/// An upstream that cannot be reached is named, with the last reason where an address was tried.
pub proof fn law_unreachable_hosts_are_named(
    host: &str,
    port: u16,
    tried: usize,
    last: Option<&str>,
    e: Error,
)
    requires
        call_ensures(connect_error, (host, port, tried, last), e),
    ensures
        e is Provider,
        last is None ==> host@.is_suffix_of(e->Provider_0@),
        last is Some ==> last->0@.is_suffix_of(e->Provider_0@),
        last is Some ==> ("connect "@ + host@ + ":"@ + decimal(port as nat)).is_prefix_of(
            e->Provider_0@,
        ),
{
    let text = e->Provider_0@;
    let end = match last {
        Some(why) => why@,
        None => host@,
    };
    assert(end =~= text.subrange(text.len() - end.len(), text.len() as int));
    let front = "connect "@ + host@ + ":"@ + decimal(port as nat);
    assert(last is Some ==> front =~= text.take(front.len() as int));
}

/// Where the host that is meant cannot be sent, the client's own header stays.
pub proof fn law_a_host_that_cannot_be_sent_changes_nothing(
    headers: &[Header],
    host: &str,
    sent: Vec<Header>,
    j: int,
)
    requires
        call_ensures(sanitize, (headers, host), sent),
        0 <= j < host.spec_bytes().len(),
        host.spec_bytes()[j] == 127 || (host.spec_bytes()[j] < 32 && host.spec_bytes()[j] != 9),
    ensures
        header_list(sent@) == header_list(headers@).filter(
            |h: (Seq<char>, Seq<u8>)| is_ordinary(h) || h.0 == "host"@,
        ),
{
    let all = header_list(headers@);
    assert(!valid_byte(host.spec_bytes()[j]));
    let new_host = can_be_value(host.spec_bytes());
    lemma_taken_over(all, new_host, all.len());
    assert(all.take(all.len() as int) =~= all);
    let a = |h: (Seq<char>, Seq<u8>)| is_ordinary(h) || (!new_host && h.0 == "host"@);
    let b = |h: (Seq<char>, Seq<u8>)| is_ordinary(h) || h.0 == "host"@;
    lemma_filter_alike(all, a, b);
}

/// Two rules that agree keep the same.
proof fn lemma_filter_alike(
    s: HeaderList,
    a: spec_fn((Seq<char>, Seq<u8>)) -> bool,
    b: spec_fn((Seq<char>, Seq<u8>)) -> bool,
)
    requires
        forall|h: (Seq<char>, Seq<u8>)| #[trigger] a(h) == b(h),
    ensures
        s.filter(a) == s.filter(b),
    decreases s.len(),
{
    reveal(Seq::filter);
    if s.len() > 0 {
        lemma_filter_alike(s.drop_last(), a, b);
        assert(a(s.last()) == b(s.last()));
    }
}

} // verus!
