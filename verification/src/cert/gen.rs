//! Certificate generation.
//!
//! Keys are ECDSA P-256: a leaf is minted inside the synchronous TLS SNI callback, where P-256 key
//! generation (tens of µs) is acceptable but RSA-2048 (hundreds of ms) is not. Both macOS and
//! Windows trust P-256 roots.

use rcgen::{CertificateParams, Issuer, KeyPair};
use vstd::prelude::*;
use vstd::string::*;

use crate::cert::x509;
use crate::cert::x509::{
    ascii, clear_names, clock, is_p256, issuer_key, issuer_names, issues_under, issuing_names,
    key_text, loaded_key_text, new_params, profile_in, public_key_in, push_dns_name, push_name,
    push_purpose, push_usage, set_ca, set_serial, set_validity, sha1_digest, shows, verifies,
    NamePart, NameSeq, Profile, Purpose, Usage, FIRST_SECOND, LAST_SECOND,
};
use crate::error::Error;

verus! {

pub const ROOT_CN: &'static str = "9rai MITM Root CA";

pub const ROOT_ORG: &'static str = "9rai";

pub const ROOT_COUNTRY: &'static str = "US";

/// How far back validity starts, to tolerate minor clock skew.
pub const SKEW_SECONDS: i64 = 3_600;

/// How long a root is valid: ten years.
pub const ROOT_SECONDS: i64 = 315_360_000;

/// How long a leaf is valid: one year.
pub const LEAF_SECONDS: i64 = 31_536_000;

// ── Profiles ─────────────────────────────────────────────────────────────────

/// What the root says of itself: a CA that signs certificates and revocation lists.
pub open spec fn root_profile(now: int) -> Profile {
    Profile {
        names: seq![
            (NamePart::CommonName, ROOT_CN@),
            (NamePart::Organization, ROOT_ORG@),
            (NamePart::Country, ROOT_COUNTRY@),
        ],
        ca: true,
        usages: seq![Usage::CertSign, Usage::CrlSign],
        purposes: seq![],
        dns_names: seq![],
        not_before: now - SKEW_SECONDS,
        not_after: now + ROOT_SECONDS,
        serial: Some(1),
    }
}

/// What a leaf says of itself: exactly the host and its direct wildcard, never widened, so that
/// HTTP/2 coalescing cannot route one hijacked host's traffic onto another's connection.
pub open spec fn leaf_profile(domain: Seq<char>, now: int) -> Profile {
    Profile {
        names: seq![(NamePart::CommonName, domain)],
        ca: false,
        usages: seq![Usage::DigitalSignature, Usage::KeyEncipherment],
        purposes: seq![Purpose::ServerAuth, Purpose::ClientAuth],
        dns_names: seq![domain, "*."@ + domain],
        not_before: now - SKEW_SECONDS,
        not_after: now + LEAF_SECONDS,
        serial: None,
    }
}

/// A time at which a certificate that is valid for so many seconds can be made.
pub open spec fn workable(now: int, seconds: int) -> bool {
    FIRST_SECOND + SKEW_SECONDS <= now <= LAST_SECOND - seconds
}

/// A certificate and its key are a root made at the given time: the certificate is signed with the
/// key, under its own name, and can issue others under that name.
pub open spec fn is_root(cert: Seq<char>, key: Seq<char>, now: int) -> bool {
    &&& shows(cert, root_profile(now), root_profile(now).names, public_key_in(key))
    &&& verifies(cert, public_key_in(key))
    &&& issues_under(cert, root_profile(now).names)
    &&& loaded_key_text(key) == key
    &&& is_p256(key)
}

/// A certificate and its key are a leaf for a domain, made at the given time, under the name of an
/// issuer and signed with the issuer's key.
pub open spec fn is_leaf(
    cert: Seq<char>,
    key: Seq<char>,
    domain: Seq<char>,
    now: int,
    issuer: NameSeq,
    issuer_key: Seq<char>,
) -> bool {
    &&& shows(cert, leaf_profile(domain, now), issuer, public_key_in(key))
    &&& verifies(cert, public_key_in(issuer_key))
    &&& is_p256(key)
}

// ── Failures ─────────────────────────────────────────────────────────────────

/// A failure of the work on a certificate, told in its own words.
pub fn or_cert_error<T>(r: Result<T, String>) -> (out: Result<T, Error>)
    ensures
        match r {
            Ok(v) => out == Ok::<T, Error>(v),
            Err(e) => out is Err && out->Err_0 is Cert && out->Err_0->Cert_0@ == e@,
        },
{
    match r {
        Ok(v) => Ok(v),
        Err(e) => Err(Error::Cert(e)),
    }
}

// ── Root ─────────────────────────────────────────────────────────────────────

/// A freshly generated root CA: the self-signed cert plus its key, both as PEM.
#[derive(Debug)]
pub struct GeneratedRoot {
    pub cert_pem: String,
    pub key_pem: String,
}

/// The parameters of the root.
fn root_params(now: i64) -> (params: CertificateParams)
    requires
        workable(now as int, ROOT_SECONDS as int),
    ensures
        profile_in(&params) == root_profile(now as int),
{
    let mut params = new_params();
    clear_names(&mut params);
    push_name(&mut params, NamePart::CommonName, ROOT_CN);
    push_name(&mut params, NamePart::Organization, ROOT_ORG);
    push_name(&mut params, NamePart::Country, ROOT_COUNTRY);
    set_ca(&mut params);
    push_usage(&mut params, Usage::CertSign);
    push_usage(&mut params, Usage::CrlSign);
    set_validity(&mut params, now - SKEW_SECONDS, now + ROOT_SECONDS);
    set_serial(&mut params, 1);
    proof {
        let p = profile_in(&params);
        let q = root_profile(now as int);
        assert(p.names =~= q.names);
        assert(p.usages =~= q.usages);
        assert(p.purposes =~= q.purposes);
        assert(p.dns_names =~= q.dns_names);
    }
    params
}

/// Generate a root at the given time.
pub fn generate_root_at(now: i64) -> (r: Result<GeneratedRoot, Error>)
    requires
        workable(now as int, ROOT_SECONDS as int),
    ensures
        match r {
            Ok(root) => is_root(root.cert_pem@, root.key_pem@, now as int),
            Err(e) => e is Cert,
        },
{
    let key = match or_cert_error(x509::generate_key()) {
        Ok(key) => key,
        Err(e) => {
            return Err(e);
        },
    };
    let params = root_params(now);
    match or_cert_error(x509::self_signed(&params, &key)) {
        Ok(cert_pem) => Ok(GeneratedRoot { cert_pem, key_pem: x509::key_pem(&key) }),
        Err(e) => Err(e),
    }
}

/// Whether a certificate that is valid for so many seconds can be made at the given time.
pub fn is_workable(now: i64, seconds: i64) -> (b: bool)
    requires
        0 <= seconds <= ROOT_SECONDS,
    ensures
        b == workable(now as int, seconds as int),
{
    FIRST_SECOND + SKEW_SECONDS <= now && now <= LAST_SECOND - seconds
}

/// The error of a clock at which no certificate can be made.
pub fn clock_error() -> (e: Error)
    ensures
        e is Cert,
        e->Cert_0@ == "the clock is out of range"@,
{
    Error::Cert("the clock is out of range".to_string())
}

/// Generate a root that is valid for ten years from now.
pub fn generate_root() -> (r: Result<GeneratedRoot, Error>)
    ensures
        match r {
            Ok(root) => exists|now: int|
                workable(now, ROOT_SECONDS as int) && #[trigger] is_root(
                    root.cert_pem@,
                    root.key_pem@,
                    now,
                ),
            Err(e) => e is Cert,
        },
{
    let now: i64 = clock();
    if !is_workable(now, ROOT_SECONDS) {
        return Err(clock_error());
    }
    let r = generate_root_at(now);
    assert(r is Ok ==> is_root(r->Ok_0.cert_pem@, r->Ok_0.key_pem@, now as int));
    r
}

// ── Leaves ───────────────────────────────────────────────────────────────────

/// The signing issuer that a certificate makes with a key that was loaded, or was not.
pub fn issuer_with(cert_pem: &str, loaded: Result<KeyPair, String>) -> (r: Result<
    Issuer<'static, KeyPair>,
    Error,
>)
    ensures
        match (loaded, issuing_names(cert_pem@)) {
            (Err(e), _) => r is Err && r->Err_0 is Cert && r->Err_0->Cert_0@ == e@,
            (Ok(_), Err(e)) => r is Err && r->Err_0 is Cert && r->Err_0->Cert_0@ == e,
            (Ok(key), Ok(names)) => r is Ok && issuer_names(&r->Ok_0) == names && issuer_key(
                &r->Ok_0,
            ) == key_text(&key),
        },
{
    match or_cert_error(loaded) {
        Ok(key) => or_cert_error(x509::make_issuer(cert_pem, key)),
        Err(e) => Err(e),
    }
}

/// Rebuild the signing issuer from stored root PEM.
pub fn load_issuer(cert_pem: &str, key_pem: &str) -> (r: Result<Issuer<'static, KeyPair>, Error>)
    ensures
        match r {
            Ok(issuer) => issues_under(cert_pem@, issuer_names(&issuer)) && issuer_key(&issuer) == loaded_key_text(key_pem@),
            Err(e) => e is Cert,
        },
{
    issuer_with(cert_pem, x509::load_key(key_pem))
}

/// A minted leaf: cert plus its own key, both PEM. Valid for exactly one domain.
#[derive(Debug)]
pub struct GeneratedLeaf {
    pub cert_pem: String,
    pub key_pem: String,
}

/// The parameters of a leaf. A domain that is not ASCII is refused.
fn leaf_params(domain: &str, now: i64) -> (r: Result<CertificateParams, Error>)
    requires
        workable(now as int, LEAF_SECONDS as int),
    ensures
        match r {
            Ok(params) => ascii(domain@) && profile_in(&params) == leaf_profile(
                domain@,
                now as int,
            ),
            Err(e) => !ascii(domain@) && e is Cert,
        },
{
    let mut params = new_params();
    clear_names(&mut params);
    push_name(&mut params, NamePart::CommonName, domain);
    push_usage(&mut params, Usage::DigitalSignature);
    push_usage(&mut params, Usage::KeyEncipherment);
    push_purpose(&mut params, Purpose::ServerAuth);
    push_purpose(&mut params, Purpose::ClientAuth);
    match push_dns_name(&mut params, domain) {
        Ok(_) => {},
        Err(e) => {
            return Err(Error::Cert(e));
        },
    }
    let mut wildcard = "*.".to_string();
    wildcard.push_str(domain);
    proof {
        reveal_strlit("*.");
        assert forall|i: int| ascii(domain@) && 0 <= i < wildcard@.len() implies (
        #[trigger] wildcard@[i] as u32) < 128 by {
            if i >= 2 {
                assert(wildcard@[i] == domain@[i - 2]);
            }
        }
        assert(ascii(wildcard@));
    }
    match push_dns_name(&mut params, wildcard.as_str()) {
        Ok(_) => {},
        Err(e) => {
            return Err(Error::Cert(e));
        },
    }
    set_validity(&mut params, now - SKEW_SECONDS, now + LEAF_SECONDS);
    proof {
        let p = profile_in(&params);
        let q = leaf_profile(domain@, now as int);
        assert(p.names =~= q.names);
        assert(p.usages =~= q.usages);
        assert(p.purposes =~= q.purposes);
        assert(p.dns_names =~= q.dns_names);
    }
    Ok(params)
}

/// Mint a leaf for a domain at the given time.
pub fn generate_leaf_at(domain: &str, issuer: &Issuer<'_, KeyPair>, now: i64) -> (r: Result<
    GeneratedLeaf,
    Error,
>)
    requires
        workable(now as int, LEAF_SECONDS as int),
    ensures
        match r {
            Ok(leaf) => ascii(domain@) && is_leaf(
                leaf.cert_pem@,
                leaf.key_pem@,
                domain@,
                now as int,
                issuer_names(issuer),
                issuer_key(issuer),
            ),
            Err(e) => e is Cert,
        },
{
    let key = match or_cert_error(x509::generate_key()) {
        Ok(key) => key,
        Err(e) => {
            return Err(e);
        },
    };
    let params = match leaf_params(domain, now) {
        Ok(params) => params,
        Err(e) => {
            return Err(e);
        },
    };
    match or_cert_error(x509::signed_by(&params, &key, issuer)) {
        Ok(cert_pem) => Ok(GeneratedLeaf { cert_pem, key_pem: x509::key_pem(&key) }),
        Err(e) => Err(e),
    }
}

/// Mint a leaf for a domain that is valid for a year from now.
pub fn generate_leaf(domain: &str, issuer: &Issuer<'_, KeyPair>) -> (r: Result<
    GeneratedLeaf,
    Error,
>)
    ensures
        match r {
            Ok(leaf) => ascii(domain@) && exists|now: int|
                workable(now, LEAF_SECONDS as int) && #[trigger] is_leaf(
                    leaf.cert_pem@,
                    leaf.key_pem@,
                    domain@,
                    now,
                    issuer_names(issuer),
                    issuer_key(issuer),
                ),
            Err(e) => e is Cert,
        },
{
    let now: i64 = clock();
    if !is_workable(now, LEAF_SECONDS) {
        return Err(clock_error());
    }
    let r = generate_leaf_at(domain, issuer, now);
    assert(r is Ok ==> is_leaf(
        r->Ok_0.cert_pem@,
        r->Ok_0.key_pem@,
        domain@,
        now as int,
        issuer_names(issuer),
        issuer_key(issuer),
    ));
    r
}

// ── Fingerprint ──────────────────────────────────────────────────────────────

/// The upper-case hexadecimal digit of a number below sixteen.
pub open spec fn hex_upper(n: int) -> char {
    if n < 10 {
        (48 + n) as char
    } else {
        (55 + n) as char
    }
}

/// Bytes as pairs of upper-case hexadecimal digits.
pub open spec fn hex_text(bytes: Seq<u8>) -> Seq<char>
    decreases bytes.len(),
{
    if bytes.len() == 0 {
        seq![]
    } else {
        hex_text(bytes.drop_last()) + seq![
            hex_upper(bytes.last() as int / 16),
            hex_upper(bytes.last() as int % 16),
        ]
    }
}

/// The upper-case hexadecimal digit of a number below sixteen.
fn upper_digit(n: u8) -> (c: char)
    requires
        n < 16,
    ensures
        c == hex_upper(n as int),
{
    if n < 10 {
        (48 + n) as char
    } else {
        (55 + n) as char
    }
}

/// Bytes as pairs of upper-case hexadecimal digits.
fn hex(bytes: &[u8]) -> (r: String)
    ensures
        r@ == hex_text(bytes@),
{
    let mut r = String::new();
    let mut i: usize = 0;
    while i < bytes.len()
        invariant
            i <= bytes@.len(),
            r@ == hex_text(bytes@.take(i as int)),
        decreases bytes@.len() - i,
    {
        r.push(upper_digit(bytes[i] / 16));
        r.push(upper_digit(bytes[i] % 16));
        i += 1;
        assert(bytes@.take(i as int).drop_last() =~= bytes@.take(i - 1));
        assert(r@ =~= hex_text(bytes@.take(i as int)));
    }
    assert(bytes@.take(i as int) =~= bytes@);
    r
}

/// Uppercase, colon-free SHA-1 of the certificate DER: the fingerprint form that both `security`
/// and `certutil` accept for lookup and deletion.
pub fn sha1_fingerprint(cert_der: &[u8]) -> (r: String)
    ensures
        r@ == hex_text(sha1_digest(cert_der@)),
{
    let digest = x509::sha1(cert_der);
    hex(digest.as_slice())
}

// ── Laws ─────────────────────────────────────────────────────────────────────

/// A root is a certificate authority of the library's own name, for signing and for nothing else, with
/// the serial number 1, valid from an hour ago for ten years from now, signed with its own key.
pub proof fn law_roots_are_what_they_are_for(now: i64, r: Result<GeneratedRoot, Error>)
    requires
        call_ensures(generate_root_at, (now,), r),
        r is Ok,
    ensures
        x509::certificate_facts(r->Ok_0.cert_pem@) is Some,
        ({
            let facts = x509::certificate_facts(r->Ok_0.cert_pem@)->0;
            let own = seq![
                (NamePart::CommonName, "9rai MITM Root CA"@),
                (NamePart::Organization, "9rai"@),
                (NamePart::Country, "US"@),
            ];
            &&& facts.ca
            &&& facts.names == own
            &&& facts.issuer == own
            &&& facts.serial == 1
            &&& facts.dns_names.len() == 0
            &&& forall|u: Usage| #[trigger]
                facts.usages.contains(u) <==> u == Usage::CertSign || u == Usage::CrlSign
            &&& forall|p: Purpose| !#[trigger] facts.purposes.contains(p)
            &&& facts.not_before == now - 60 * 60
            &&& facts.not_after == now + 3650 * 24 * 60 * 60
            &&& facts.public_key == public_key_in(r->Ok_0.key_pem@)
            &&& verifies(r->Ok_0.cert_pem@, facts.public_key)
        }),
{
    let usages = seq![Usage::CertSign, Usage::CrlSign];
    assert forall|u: Usage| #[trigger] usages.to_set().contains(u) <==> u == Usage::CertSign || u
        == Usage::CrlSign by {
        assert(usages[0] == Usage::CertSign && usages[1] == Usage::CrlSign);
        assert(usages.contains(u) <==> u == Usage::CertSign || u == Usage::CrlSign);
    }
    let none: Seq<Purpose> = seq![];
    assert forall|p: Purpose| !#[trigger] none.to_set().contains(p) by {
        assert(!none.contains(p));
    }
}

/// A leaf is good for its domain and the names right below it, and for no other; it is no authority;
/// it serves and asks on both ends of a connection; it is valid from an hour ago for a year from now;
/// and it is signed by the issuer that was asked, in whose name it stands.
pub proof fn law_leaves_are_good_for_one_domain(
    domain: &str,
    issuer: &Issuer<'_, KeyPair>,
    now: i64,
    r: Result<GeneratedLeaf, Error>,
)
    requires
        call_ensures(generate_leaf_at, (domain, issuer, now), r),
        r is Ok,
    ensures
        x509::certificate_facts(r->Ok_0.cert_pem@) is Some,
        ({
            let facts = x509::certificate_facts(r->Ok_0.cert_pem@)->0;
            &&& !facts.ca
            &&& facts.names == seq![(NamePart::CommonName, domain@)]
            &&& facts.dns_names == seq![domain@, seq!['*', '.'] + domain@]
            &&& facts.issuer == issuer_names(issuer)
            &&& forall|u: Usage| #[trigger]
                facts.usages.contains(u) <==> u == Usage::DigitalSignature || u
                    == Usage::KeyEncipherment
            &&& forall|p: Purpose| #[trigger] facts.purposes.contains(p)
            &&& facts.not_before == now - 60 * 60
            &&& facts.not_after == now + 365 * 24 * 60 * 60
            &&& facts.public_key == public_key_in(r->Ok_0.key_pem@)
            &&& verifies(r->Ok_0.cert_pem@, public_key_in(issuer_key(issuer)))
        }),
        forall|i: int| 0 <= i < domain@.len() ==> (#[trigger] domain@[i] as u32) < 128,
{
    reveal_strlit("*.");
    assert("*."@ =~= seq!['*', '.']);
    let usages = seq![Usage::DigitalSignature, Usage::KeyEncipherment];
    assert forall|u: Usage| #[trigger] usages.to_set().contains(u) <==> u
        == Usage::DigitalSignature || u == Usage::KeyEncipherment by {
        assert(usages[0] == Usage::DigitalSignature && usages[1] == Usage::KeyEncipherment);
        assert(usages.contains(u) <==> u == Usage::DigitalSignature || u == Usage::KeyEncipherment);
    }
    let purposes = seq![Purpose::ServerAuth, Purpose::ClientAuth];
    assert forall|p: Purpose| #[trigger] purposes.to_set().contains(p) by {
        assert(purposes[0] == Purpose::ServerAuth && purposes[1] == Purpose::ClientAuth);
        assert(purposes.contains(p));
    }
}

/// The number of a hexadecimal digit, the letters in upper case.
pub open spec fn hex_value(c: char) -> int {
    if c <= '9' {
        c as int - 48
    } else {
        c as int - 55
    }
}

proof fn lemma_hex_text(bytes: Seq<u8>, i: int)
    requires
        0 <= i < bytes.len(),
    ensures
        hex_text(bytes).len() == 2 * bytes.len(),
        hex_text(bytes)[2 * i] == hex_upper(bytes[i] as int / 16),
        hex_text(bytes)[2 * i + 1] == hex_upper(bytes[i] as int % 16),
    decreases bytes.len(),
{
    let rest = bytes.drop_last();
    if rest.len() > 0 {
        lemma_hex_text(rest, if i < rest.len() {
            i
        } else {
            0
        });
    } else {
        assert(hex_text(rest) =~= seq![]);
    }
}

/// A fingerprint is the digest of the certificate's bytes, two digits for each byte, of which the
/// letters are capitals.
pub proof fn law_fingerprints_are_the_digest(cert_der: &[u8], r: String, i: int)
    requires
        call_ensures(sha1_fingerprint, (cert_der,), r),
        0 <= i < sha1_digest(cert_der@).len(),
    ensures
        r@.len() == 2 * sha1_digest(cert_der@).len(),
        hex_value(r@[2 * i]) * 16 + hex_value(r@[2 * i + 1]) == sha1_digest(cert_der@)[i],
        '0' <= r@[2 * i] <= '9' || 'A' <= r@[2 * i] <= 'F',
        '0' <= r@[2 * i + 1] <= '9' || 'A' <= r@[2 * i + 1] <= 'F',
{
    lemma_hex_text(sha1_digest(cert_der@), i);
}

/// A time is good for a certificate that is valid for so long where its dates can be written: from an
/// hour after the start of the year 0 until that long before the end of the year 9999.
pub proof fn law_dates_must_be_writable(now: i64, seconds: i64, b: bool, e: Error)
    requires
        call_ensures(is_workable, (now, seconds), b),
        call_ensures(clock_error, (), e),
    ensures
        b <==> -62_167_219_200 + 60 * 60 <= now && now + seconds <= 253_402_300_799,
        e is Cert,
{
}

/// What is made now is made at some time, and is then what it is for.
pub proof fn law_what_is_made_now_is_made_at_some_time(
    root: Result<GeneratedRoot, Error>,
    domain: &str,
    issuer: &Issuer<'_, KeyPair>,
    leaf: Result<GeneratedLeaf, Error>,
)
    requires
        call_ensures(generate_root, (), root),
        call_ensures(generate_leaf, (domain, issuer), leaf),
    ensures
        root is Ok ==> exists|now: int|
            #[trigger] is_root(root->Ok_0.cert_pem@, root->Ok_0.key_pem@, now),
        leaf is Ok ==> exists|now: int|
            #[trigger] is_leaf(
                leaf->Ok_0.cert_pem@,
                leaf->Ok_0.key_pem@,
                domain@,
                now,
                issuer_names(issuer),
                issuer_key(issuer),
            ),
        root is Err ==> root->Err_0 is Cert,
        leaf is Err ==> leaf->Err_0 is Cert,
{
}

/// An issuer issues under the names of its certificate and with the key that was loaded, and a
/// failure to load either is told as it is, the key's first.
pub proof fn law_issuers_are_made_of_both(
    cert_pem: &str,
    loaded: Result<KeyPair, String>,
    r: Result<Issuer<'static, KeyPair>, Error>,
    handed: Result<u8, String>,
    told: Result<u8, Error>,
)
    requires
        call_ensures(issuer_with, (cert_pem, loaded), r),
        call_ensures(or_cert_error::<u8>, (handed,), told),
    ensures
        r is Ok <==> loaded is Ok && issuing_names(cert_pem@) is Ok,
        r is Ok ==> issuer_names(&r->Ok_0) == issuing_names(cert_pem@)->Ok_0 && issuer_key(
            &r->Ok_0,
        ) == key_text(&loaded->Ok_0),
        r is Err ==> r->Err_0 is Cert,
        loaded is Err ==> r->Err_0->Cert_0@ == loaded->Err_0@,
        told is Ok <==> handed is Ok,
        told is Ok ==> told->Ok_0 == handed->Ok_0,
        told is Err ==> told->Err_0 is Cert && told->Err_0->Cert_0@ == handed->Err_0@,
{
}

} // verus!
