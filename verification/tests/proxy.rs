use nine_rai::dns::{order_addresses, resolver_opts, DnsCache};
use nine_rai::error::Error;
use nine_rai::eventstream::testing::{decode_all, decode_stream};
use nine_rai::net::IpAddress;
use nine_rai::platform::Platform;
use nine_rai::provider::{check_status, ProviderConfig};
use nine_rai::proxy::control::handle;
use nine_rai::proxy::intercept::{failed_midway, failed_start, Relay};
use nine_rai::proxy::passthrough::{
    connect_error, relay_headers, sanitize, Header, HOP_BY_HOP,
};
use nine_rai::proxy::preflight::{
    bind_error, listening_pid, name_probe, owner_probe, unix_owner, windows_owner, BindFailure,
};
use nine_rai::proxy::sni::serves;
use nine_rai::proxy::{
    connection_end, error_body, request_host, upstream_uri, ConnectionEnd, MAX_BODY,
};
use nine_rai::types::openai::{Choice, Delta, StreamChunk};

#[test]
fn the_upstream_resolver_never_reads_the_hijacked_hosts_file() {
    assert_eq!(
        resolver_opts().use_hosts_file,
        hickory_resolver::config::ResolveHosts::Never,
        "reading /etc/hosts here sends passthrough traffic back into our own listener"
    );
}

fn v4(n: u8) -> IpAddress {
    IpAddress::V4([10, 0, 0, n])
}

fn v6(n: u16) -> IpAddress {
    IpAddress::V6([0x2001, 0, 0, 0, 0, 0, 0, n])
}

#[test]
fn addresses_are_tried_ipv4_first() {
    assert_eq!(
        order_addresses("h", &[v6(1), v4(1), v6(2), v4(2)]).unwrap(),
        [v4(1), v4(2), v6(1), v6(2)]
    );
    match order_addresses("h", &[]) {
        Err(Error::Provider(why)) => assert_eq!(why, "no address for h"),
        _ => panic!("expected an error"),
    }
}

#[test]
fn answers_are_used_for_five_minutes() {
    let mut cache = DnsCache::new();
    assert!(cache.fresh("h", 0).is_none());
    cache.seed("h", vec![v4(1)], 1_000);
    assert_eq!(cache.fresh("h", 300_999), Some(vec![v4(1)]));
    assert_eq!(cache.fresh("h", 301_000), None);
    assert_eq!(cache.fresh("other", 1_000), None);
    cache.seed("h", vec![v4(2)], 400_000);
    assert_eq!(cache.fresh("h", 400_001), Some(vec![v4(2)]));
}

#[test]
fn a_non_success_status_is_an_error_in_words() {
    assert!(check_status(200, "200 OK", "").is_ok());
    assert!(check_status(299, "299", "").is_ok());
    match check_status(429, "429 Too Many Requests", "rate limited") {
        Err(e) => assert_eq!(
            e.message(),
            "upstream provider: upstream returned 429 Too Many Requests: rate limited"
        ),
        Ok(()) => panic!("a refusal must not pass"),
    }
    let long = "é".repeat(600);
    match check_status(300, "300", &long) {
        Err(Error::Provider(why)) => {
            assert_eq!(why, format!("upstream returned 300: {}", "é".repeat(500)))
        }
        _ => panic!("expected an error"),
    }
    assert!(check_status(199, "199", "").is_err());
}

#[test]
fn the_endpoint_tolerates_trailing_slashes() {
    let at = |base_url: &str| ProviderConfig {
        base_url: base_url.to_string(),
        api_key: String::new(),
    };
    assert_eq!(at("https://h/v1").endpoint(), "https://h/v1/chat/completions");
    assert_eq!(at("https://h/v1//").endpoint(), "https://h/v1/chat/completions");
    let fresh = ProviderConfig::default();
    assert_eq!(fresh.base_url, "https://api.openai.com/v1");
    assert_eq!(fresh.clone().api_key, "");
}

#[test]
fn the_control_channel_requires_the_bearer_token() {
    for auth in [None, Some("Bearer wrong"), Some("s3cret"), Some("bearer s3cret")] {
        let r = handle("s3cret", auth, "POST", "/stop", 7);
        assert_eq!((r.status, r.body.as_str(), r.stop), (401, "unauthorized", false));
    }
    let r = handle("s3cret", Some("Bearer s3cret"), "GET", "/status", 7);
    assert_eq!((r.status, r.json, r.stop), (200, true, false));
    assert_eq!(r.body, "{\"ok\":true,\"pid\":7}");
    let r = handle("s3cret", Some("Bearer s3cret"), "POST", "/stop", 7);
    assert_eq!((r.status, r.stop), (200, true));
    assert_eq!(r.body, "{\"stopping\":true}");
    let r = handle("s3cret", Some("Bearer s3cret"), "GET", "/stop", 7);
    assert_eq!((r.status, r.body.as_str(), r.stop), (404, "not found", false));
}

fn header(name: &str, value: &str) -> Header {
    Header { name: name.to_string(), value: value.as_bytes().to_vec() }
}

fn pairs(headers: &[Header]) -> Vec<(String, String)> {
    headers
        .iter()
        .map(|h| (h.name.clone(), String::from_utf8(h.value.clone()).unwrap()))
        .collect()
}

#[test]
fn hop_by_hop_headers_do_not_cross() {
    let mut all: Vec<Header> = HOP_BY_HOP.iter().map(|n| header(n, "x")).collect();
    all.push(header("content-length", "5"));
    all.push(header("host", "old"));
    all.push(header("x-a", "1"));
    all.push(header("x-a", "2"));
    let two = [("x-a".to_string(), "1".to_string()), ("x-a".to_string(), "2".to_string())];

    let sent = pairs(&sanitize(&all, "new.example"));
    assert_eq!(sent[..2], two);
    assert_eq!(sent[2], ("host".to_string(), "new.example".to_string()));
    assert_eq!(sent.len(), 3);

    let sent = pairs(&sanitize(&all, "bad\nhost"));
    assert_eq!(sent[0], ("host".to_string(), "old".to_string()));
    assert_eq!(sent[1..], two);

    let relayed = pairs(&relay_headers(&all));
    assert_eq!(relayed.len(), 4);
    assert_eq!(relayed[0].0, "content-length");
}

#[test]
fn an_upstream_that_cannot_be_reached_is_told() {
    assert_eq!(
        connect_error("h", 443, 2, Some("refused")).message(),
        "upstream provider: connect h:443 failed for all 2 address(es), last: refused"
    );
    assert_eq!(
        connect_error("h", 443, 0, None).message(),
        "upstream provider: no address for h"
    );
}

#[test]
fn a_port_that_cannot_be_bound_is_diagnosed() {
    assert_eq!(
        bind_error(443, &BindFailure::InUse { owner: Some("nginx (pid 5)".into()) }).message(),
        "upstream provider: port 443 is already in use by nginx (pid 5); stop it and retry"
    );
    assert_eq!(
        bind_error(443, &BindFailure::InUse { owner: None }).message(),
        "upstream provider: port 443 is already in use by unknown process; stop it and retry"
    );
    assert_eq!(
        bind_error(443, &BindFailure::Denied).message(),
        "privilege escalation failed: binding port 443 requires elevated privileges"
    );
    assert_eq!(
        bind_error(80, &BindFailure::Other { why: "odd".into() }).message(),
        "upstream provider: bind 127.0.0.1:80: odd"
    );
}

#[test]
fn the_holder_of_a_port_is_found_in_what_the_tools_print() {
    assert_eq!(
        owner_probe(Platform::Linux, 443).0,
        ["lsof", "-nP", "-iTCP:443", "-sTCP:LISTEN", "-t"]
    );
    let windows = owner_probe(Platform::Windows, 443);
    assert_eq!(windows.program(), "powershell");
    assert_eq!(
        windows.0[3],
        "(Get-NetTCPConnection -LocalPort 443 -State Listen | Select-Object -First 1 \
-ExpandProperty OwningProcess | ForEach-Object { (Get-Process -Id $_).ProcessName })"
    );
    assert_eq!(listening_pid(b"\n 12\n34\n"), Some("12".to_string()));
    assert_eq!(listening_pid(b" \n"), None);
    assert_eq!(name_probe("12").0, ["ps", "-p", "12", "-o", "comm="]);
    assert_eq!(unix_owner("12", b"nginx\n"), "nginx (pid 12)");
    assert_eq!(windows_owner(b" svc \r\n"), Some("svc".to_string()));
    assert_eq!(windows_owner(b"\r\n"), None);
}

#[test]
fn leaves_are_served_for_the_hijacked_hosts_only() {
    assert!(serves(Some("q.us-east-1.amazonaws.com")));
    assert!(!serves(Some("q.us-east-1.amazonaws.com:443")));
    assert!(!serves(Some("example.com")));
    assert!(!serves(None));
}

#[test]
fn requests_are_addressed_by_host_and_path() {
    assert_eq!(request_host(Some("h:443"), Some("u")), "h");
    assert_eq!(request_host(None, Some("u")), "u");
    assert_eq!(request_host(None, None), "");
    assert_eq!(upstream_uri("h", Some("/p?q=1")), "https://h/p?q=1");
    assert_eq!(upstream_uri("h", None), "https://h/");
    assert_eq!(error_body("why"), "9rai proxy error: why");
    assert_eq!(MAX_BODY, 32 * 1024 * 1024);
}

#[test]
fn dead_connections_are_told_apart() {
    assert_eq!(connection_end("serve connection: x"), ConnectionEnd::Ended);
    assert_eq!(
        connection_end("tls accept for h: received fatal alert: UnknownCA"),
        ConnectionEnd::CertificateRejected
    );
    assert_eq!(
        connection_end("tls accept: BadCertificate eof"),
        ConnectionEnd::CertificateRejected
    );
    assert_eq!(connection_end("tls accept: tls handshake EOF"), ConnectionEnd::Probe);
    assert_eq!(connection_end("tls accept: odd"), ConnectionEnd::HandshakeFailed);
}

#[test]
fn a_refused_request_is_answered_with_an_exception() {
    let body = failed_start(Some("c1"), "upstream returned 429");
    let frames = decode_stream(&body);
    assert_eq!(frames.len(), 2);
    assert_eq!(frames[0].event_type(), "initial-response");
    assert_eq!(frames[0].json()["conversationId"], "c1");
    assert_eq!(frames[1].message_type(), "exception");
    assert_eq!(frames[1].event_type(), "UpstreamError");
    assert_eq!(frames[1].json()["message"], "upstream returned 429");
    assert_eq!(decode_stream(&failed_start(None, "x"))[0].json()["conversationId"], "");
    assert_eq!(decode_stream(&failed_midway("x"))[0].json()["message"], "x");
}

#[test]
fn a_relay_turns_bytes_into_frames() {
    let mut relay = Relay::new("m", Some("c"));
    assert!(relay.read(b"data: {\"a\"").is_empty());
    assert_eq!(relay.read(b":1}\ndata: rest"), ["{\"a\":1}"]);
    assert_eq!(relay.read_rest(), Some("rest".to_string()));
    assert!(relay.feed(None).is_empty());
    let chunk = StreamChunk {
        choices: vec![Choice {
            delta: Delta { content: Some("hi".to_string()), ..Default::default() },
            finish_reason: None,
        }],
        ..Default::default()
    };
    let mut frames = relay.feed(Some(&chunk));
    frames.extend(relay.finish());
    let kinds: Vec<String> = decode_all(&frames.concat()).into_iter().map(|(k, _)| k).collect();
    assert_eq!(kinds, ["initial-response", "assistantResponseEvent", "messageStopEvent"]);
}
