//! What is left to the crates that make, sign and read certificates.

use std::sync::Arc;

use rcgen::{
    BasicConstraints, CertificateParams, DistinguishedName, DnType, ExtendedKeyUsagePurpose, IsCa,
    Issuer, KeyPair, KeyUsagePurpose, SanType, SerialNumber, PKCS_ECDSA_P256_SHA256,
};
use rustls::sign::CertifiedKey;
use rustls_pki_types::{CertificateDer, PrivateKeyDer};
use sha1::Digest;
use time::OffsetDateTime;
use vstd::prelude::*;

use crate::calendar::in_reach;

verus! {

// ── Outside types ────────────────────────────────────────────────────────────

/// The parameters of a certificate, of the `rcgen` crate.
#[verifier::external_type_specification]
#[verifier::external_body]
pub struct ExCertificateParams(CertificateParams);

/// A key pair of the `rcgen` crate.
#[verifier::external_type_specification]
#[verifier::external_body]
pub struct ExKeyPair(KeyPair);

/// An issuer of certificates, of the `rcgen` crate.
#[verifier::external_type_specification]
#[verifier::external_body]
#[verifier::reject_recursive_types(S)]
pub struct ExIssuer<'a, S>(Issuer<'a, S>);

/// A private key in DER, of the `rustls-pki-types` crate.
#[verifier::external_type_specification]
#[verifier::external_body]
pub struct ExPrivateKeyDer<'a>(PrivateKeyDer<'a>);

/// A certificate chain with its key, of the `rustls` crate.
#[verifier::external_type_specification]
#[verifier::external_body]
pub struct ExCertifiedKey(CertifiedKey);

// ── Model ────────────────────────────────────────────────────────────────────

/// A part of a distinguished name.
#[derive(Clone, Copy, PartialEq, Eq, Structural)]
pub enum NamePart {
    CommonName,
    Organization,
    Country,
}

/// What a key may be used for.
#[derive(Clone, Copy, PartialEq, Eq, Structural)]
pub enum Usage {
    CertSign,
    CrlSign,
    DigitalSignature,
    KeyEncipherment,
}

/// What a certificate may be presented for.
#[derive(Clone, Copy, PartialEq, Eq, Structural)]
pub enum Purpose {
    ServerAuth,
    ClientAuth,
}

/// A distinguished name: its parts, in order.
pub type NameSeq = Seq<(NamePart, Seq<char>)>;

/// What a certificate is to say. Times are seconds since 1970.
pub ghost struct Profile {
    pub names: NameSeq,
    pub ca: bool,
    pub usages: Seq<Usage>,
    pub purposes: Seq<Purpose>,
    pub dns_names: Seq<Seq<char>>,
    pub not_before: int,
    pub not_after: int,
    pub serial: Option<u64>,
}

/// What a reader finds in a certificate. Times are seconds since 1970.
pub ghost struct Facts {
    pub names: NameSeq,
    pub issuer: NameSeq,
    pub public_key: Seq<u8>,
    pub ca: bool,
    pub usages: Set<Usage>,
    pub purposes: Set<Purpose>,
    pub dns_names: Seq<Seq<char>>,
    pub not_before: int,
    pub not_after: int,
    pub serial: nat,
}

/// The first second that a certificate can tell: the start of the year 0.
pub const FIRST_SECOND: i64 = -62_167_219_200;

/// The last second that a certificate can tell: the end of the year 9999.
pub const LAST_SECOND: i64 = 253_402_300_799;

/// Times from the year 0 to the end of the year 9999.
pub open spec fn tellable(t: int) -> bool {
    FIRST_SECOND <= t <= LAST_SECOND
}

/// The text is ASCII.
pub open spec fn ascii(s: Seq<char>) -> bool {
    forall|i: int| 0 <= i < s.len() ==> (#[trigger] s[i] as u32) < 128
}

/// The certificate in a text form says what the profile says, names this issuer and holds this
/// public key. A profile without a serial number leaves it open.
pub open spec fn shows(
    pem: Seq<char>,
    profile: Profile,
    issuer: NameSeq,
    public_key: Seq<u8>,
) -> bool {
    match certificate_facts(pem) {
        Some(facts) => {
            &&& facts.names == profile.names
            &&& facts.issuer == issuer
            &&& facts.public_key == public_key
            &&& facts.ca == profile.ca
            &&& facts.usages == profile.usages.to_set()
            &&& facts.purposes == profile.purposes.to_set()
            &&& facts.dns_names == profile.dns_names
            &&& facts.not_before == profile.not_before
            &&& facts.not_after == profile.not_after
            &&& profile.serial is Some ==> facts.serial == profile.serial->0
        },
        None => false,
    }
}

// ── Clock ────────────────────────────────────────────────────────────────────

/// `OffsetDateTime::now_utc` as seconds since 1970: a time from the year -9999 to the year 9999.
#[verifier::external_body]
pub(crate) fn clock() -> (now: i64)
    ensures
        in_reach(now as int),
{
    OffsetDateTime::now_utc().unix_timestamp()
}

// ── Parameters ───────────────────────────────────────────────────────────────

/// What a set of parameters says so far.
pub uninterp spec fn profile_in(params: &CertificateParams) -> Profile;

/// `CertificateParams::default`: no CA, no usages, no alternative names, no serial number. What it
/// says of the name and the dates is replaced by every caller and is left unsaid.
#[verifier::external_body]
pub(crate) fn new_params() -> (params: CertificateParams)
    ensures
        !profile_in(&params).ca,
        profile_in(&params).usages.len() == 0,
        profile_in(&params).purposes.len() == 0,
        profile_in(&params).dns_names.len() == 0,
        profile_in(&params).serial is None,
{
    CertificateParams::default()
}

/// `DistinguishedName::new`, set as the name: it has no parts.
#[verifier::external_body]
pub(crate) fn clear_names(params: &mut CertificateParams)
    ensures
        profile_in(final(params)) == (Profile { names: seq![], ..profile_in(old(params)) }),
{
    params.distinguished_name = DistinguishedName::new();
}

/// `DistinguishedName::push`: appends a part that the name does not have yet.
#[verifier::external_body]
pub(crate) fn push_name(params: &mut CertificateParams, part: NamePart, value: &str)
    requires
        forall|i: int|
            0 <= i < profile_in(old(params)).names.len() ==> (#[trigger] profile_in(
                old(params),
            ).names[i]).0 != part,
    ensures
        profile_in(final(params)) == (Profile {
            names: profile_in(old(params)).names.push((part, value@)),
            ..profile_in(old(params))
        }),
{
    let kind = match part {
        NamePart::CommonName => DnType::CommonName,
        NamePart::Organization => DnType::OrganizationName,
        NamePart::Country => DnType::CountryName,
    };
    params.distinguished_name.push(kind, value);
}

/// The field `is_ca`, set to an unconstrained CA.
#[verifier::external_body]
pub(crate) fn set_ca(params: &mut CertificateParams)
    ensures
        profile_in(final(params)) == (Profile { ca: true, ..profile_in(old(params)) }),
{
    params.is_ca = IsCa::Ca(BasicConstraints::Unconstrained);
}

/// The field `key_usages`, with one more usage at its end.
#[verifier::external_body]
pub(crate) fn push_usage(params: &mut CertificateParams, usage: Usage)
    ensures
        profile_in(final(params)) == (Profile {
            usages: profile_in(old(params)).usages.push(usage),
            ..profile_in(old(params))
        }),
{
    params.key_usages.push(match usage {
        Usage::CertSign => KeyUsagePurpose::KeyCertSign,
        Usage::CrlSign => KeyUsagePurpose::CrlSign,
        Usage::DigitalSignature => KeyUsagePurpose::DigitalSignature,
        Usage::KeyEncipherment => KeyUsagePurpose::KeyEncipherment,
    });
}

/// The field `extended_key_usages`, with one more purpose at its end.
#[verifier::external_body]
pub(crate) fn push_purpose(params: &mut CertificateParams, purpose: Purpose)
    ensures
        profile_in(final(params)) == (Profile {
            purposes: profile_in(old(params)).purposes.push(purpose),
            ..profile_in(old(params))
        }),
{
    params.extended_key_usages.push(match purpose {
        Purpose::ServerAuth => ExtendedKeyUsagePurpose::ServerAuth,
        Purpose::ClientAuth => ExtendedKeyUsagePurpose::ClientAuth,
    });
}

/// The field `subject_alt_names`, with one more host name at its end. `Ia5String` takes ASCII and
/// refuses everything else, with an error in words.
#[verifier::external_body]
pub(crate) fn push_dns_name(params: &mut CertificateParams, name: &str) -> (r: Result<(), String>)
    ensures
        r is Ok <==> ascii(name@),
        profile_in(final(params)) == if r is Ok {
            Profile {
                dns_names: profile_in(old(params)).dns_names.push(name@),
                ..profile_in(old(params))
            }
        } else {
            profile_in(old(params))
        },
{
    let name = rcgen::string::Ia5String::try_from(name).map_err(|e| e.to_string())?;
    params.subject_alt_names.push(SanType::DnsName(name));
    Ok(())
}

/// The fields `not_before` and `not_after`, from seconds since 1970.
#[verifier::external_body]
pub(crate) fn set_validity(params: &mut CertificateParams, not_before: i64, not_after: i64)
    requires
        tellable(not_before as int),
        tellable(not_after as int),
    ensures
        profile_in(final(params)) == (Profile {
            not_before: not_before as int,
            not_after: not_after as int,
            ..profile_in(old(params))
        }),
{
    params.not_before = OffsetDateTime::from_unix_timestamp(not_before).expect("a tellable time");
    params.not_after = OffsetDateTime::from_unix_timestamp(not_after).expect("a tellable time");
}

/// The field `serial_number`.
#[verifier::external_body]
pub(crate) fn set_serial(params: &mut CertificateParams, serial: u64)
    ensures
        profile_in(final(params)) == (Profile { serial: Some(serial), ..profile_in(old(params)) }),
{
    params.serial_number = Some(SerialNumber::from(serial));
}

// ── Keys ─────────────────────────────────────────────────────────────────────

/// The text form of a key pair.
pub uninterp spec fn key_text(key: &KeyPair) -> Seq<char>;

/// The key in a text form is one for ECDSA on the curve P-256.
pub uninterp spec fn is_p256(text: Seq<char>) -> bool;

/// `KeyPair::generate_for` with ECDSA on the curve P-256: a key of that sort, and otherwise of
/// chance.
#[verifier::external_body]
pub(crate) fn generate_key() -> (r: Result<KeyPair, String>)
    ensures
        r is Ok ==> is_p256(key_text(&r->Ok_0)),
{
    KeyPair::generate_for(&PKCS_ECDSA_P256_SHA256).map_err(|e| e.to_string())
}

/// The public key that belongs to the private key in a text form.
pub uninterp spec fn public_key_in(text: Seq<char>) -> Seq<u8>;

/// `KeyPair::serialize_pem`: the text form of the key pair. Loading it again gives the same pair.
#[verifier::external_body]
pub(crate) fn key_pem(key: &KeyPair) -> (r: String)
    ensures
        r@ == key_text(key),
        loaded_key_text(r@) == r@,
{
    key.serialize_pem()
}

/// The text form of the key pair that a text stands for.
pub uninterp spec fn loaded_key_text(pem: Seq<char>) -> Seq<char>;

/// `KeyPair::from_pem`: the key pair that a text stands for. The pair holds a share of chance, so
/// only its text form depends on the text alone.
#[verifier::external_body]
pub(crate) fn load_key(pem: &str) -> (r: Result<KeyPair, String>)
    ensures
        r is Ok ==> key_text(&r->Ok_0) == loaded_key_text(pem@),
{
    KeyPair::from_pem(pem).map_err(|e| e.to_string())
}

/// The name that an issuer signs under.
pub uninterp spec fn issuer_names(issuer: &Issuer<'_, KeyPair>) -> NameSeq;

/// The text form of the key pair that an issuer signs with.
pub uninterp spec fn issuer_key(issuer: &Issuer<'_, KeyPair>) -> Seq<char>;

/// The name that the issuer signs under which a certificate makes, or why it makes none.
pub uninterp spec fn issuing_names(pem: Seq<char>) -> Result<NameSeq, Seq<char>>;

/// The certificate in a text form makes an issuer that signs under this name.
pub open spec fn issues_under(pem: Seq<char>, names: NameSeq) -> bool {
    issuing_names(pem) == Ok::<NameSeq, Seq<char>>(names)
}

/// `Issuer::from_ca_cert_pem`: the issuer that a certificate and a key pair make. It has its name
/// from the certificate, which also decides whether there is one, and signs with the key pair.
#[verifier::external_body]
pub(crate) fn make_issuer(pem: &str, key: KeyPair) -> (r: Result<Issuer<'static, KeyPair>, String>)
    ensures
        match r {
            Ok(i) => issuing_names(pem@) == Ok::<NameSeq, Seq<char>>(issuer_names(&i))
                && issuer_key(&i) == key_text(&key),
            Err(e) => issuing_names(pem@) == Err::<NameSeq, Seq<char>>(e@),
        },
{
    Issuer::from_ca_cert_pem(pem, key).map_err(|e| e.to_string())
}

// ── Certificates ─────────────────────────────────────────────────────────────

/// What a reader finds in the certificate that a text form holds, if it holds one.
pub uninterp spec fn certificate_facts(pem: Seq<char>) -> Option<Facts>;

/// The signature of the certificate in a text form is one of the private key that belongs to this
/// public key.
pub uninterp spec fn verifies(pem: Seq<char>, public_key: Seq<u8>) -> bool;

/// `CertificateParams::self_signed`, in its text form. The signature is of chance. A reader finds in
/// the certificate what the parameters say, the key pair's public key, and its own name as the
/// issuer's, and the key pair signed it. As an issuer it signs under that name.
#[verifier::external_body]
pub(crate) fn self_signed(params: &CertificateParams, key: &KeyPair) -> (r: Result<String, String>)
    requires
        tellable(profile_in(params).not_before),
        tellable(profile_in(params).not_after),
    ensures
        r is Ok ==> shows(
            r->Ok_0@,
            profile_in(params),
            profile_in(params).names,
            public_key_in(key_text(key)),
        ),
        r is Ok ==> verifies(r->Ok_0@, public_key_in(key_text(key))),
        r is Ok ==> issues_under(r->Ok_0@, profile_in(params).names),
{
    params.self_signed(key).map(|cert| cert.pem()).map_err(|e| e.to_string())
}

/// `CertificateParams::signed_by`, in its text form. The signature is of chance. A reader finds in
/// the certificate what the parameters say, the key pair's public key, and the issuer's name, and
/// the issuer's key pair signed it.
#[verifier::external_body]
pub(crate) fn signed_by(
    params: &CertificateParams,
    key: &KeyPair,
    issuer: &Issuer<'_, KeyPair>,
) -> (r: Result<String, String>)
    requires
        tellable(profile_in(params).not_before),
        tellable(profile_in(params).not_after),
    ensures
        r is Ok ==> shows(
            r->Ok_0@,
            profile_in(params),
            issuer_names(issuer),
            public_key_in(key_text(key)),
        ),
        r is Ok ==> verifies(r->Ok_0@, public_key_in(issuer_key(issuer))),
{
    params.signed_by(key, issuer).map(|cert| cert.pem()).map_err(|e| e.to_string())
}

/// `x509_parser::pem::parse_x509_pem` and `Pem::parse_x509`: the time after which the certificate
/// is no longer valid, where the text form holds one. One that does has contents.
#[verifier::external_body]
pub(crate) fn expiry(pem: &str) -> (r: Option<i64>)
    ensures
        match r {
            Some(t) => certificate_facts(pem@) is Some && certificate_facts(pem@)->0.not_after == t
                && pem_contents(pem@) is Ok,
            None => certificate_facts(pem@) is None,
        },
{
    let (_, block) = x509_parser::pem::parse_x509_pem(pem.as_bytes()).ok()?;
    let cert = block.parse_x509().ok()?;
    Some(cert.validity().not_after.timestamp())
}

/// The bytes that a text form holds, or why it holds none.
pub uninterp spec fn pem_contents(pem: Seq<char>) -> Result<Seq<u8>, Seq<char>>;

/// `x509_parser::pem::parse_x509_pem`: the bytes that the first block of a text form holds.
#[verifier::external_body]
pub(crate) fn contents(pem: &str) -> (r: Result<Vec<u8>, String>)
    ensures
        match r {
            Ok(der) => pem_contents(pem@) == Ok::<Seq<u8>, Seq<char>>(der@),
            Err(e) => pem_contents(pem@) == Err::<Seq<u8>, Seq<char>>(e@),
        },
{
    x509_parser::pem::parse_x509_pem(pem.as_bytes())
        .map(|(_, block)| block.contents)
        .map_err(|e| e.to_string())
}

/// The SHA-1 digest of bytes.
pub uninterp spec fn sha1_digest(bytes: Seq<u8>) -> Seq<u8>;

/// `Sha1::digest`: the 20 bytes of the digest.
#[verifier::external_body]
pub(crate) fn sha1(bytes: &[u8]) -> (r: Vec<u8>)
    ensures
        r@ == sha1_digest(bytes@),
        r@.len() == 20,
{
    sha1::Sha1::digest(bytes).to_vec()
}

// ── Serving ──────────────────────────────────────────────────────────────────

/// The first private key in a text form, or why it cannot be read.
pub uninterp spec fn first_key(pem: Seq<char>) -> Result<Option<PrivateKeyDer<'static>>, Seq<char>>;

/// `rustls_pemfile::private_key`: the first private key in a text form.
#[verifier::external_body]
pub(crate) fn private_key(pem: &str) -> (r: Result<Option<PrivateKeyDer<'static>>, String>)
    ensures
        match r {
            Ok(key) => first_key(pem@) == Ok::<Option<PrivateKeyDer<'static>>, Seq<char>>(key),
            Err(e) => first_key(pem@) == Err::<Option<PrivateKeyDer<'static>>, Seq<char>>(e@),
        },
{
    rustls_pemfile::private_key(&mut pem.as_bytes()).map_err(|e| e.to_string())
}

/// The certificates of a chain, in order.
pub uninterp spec fn chain_in(key: &CertifiedKey) -> Seq<Seq<u8>>;

/// The private key that a chain is served with.
pub uninterp spec fn signer_in(key: &CertifiedKey) -> PrivateKeyDer<'static>;

/// `rustls::crypto::ring::sign::any_ecdsa_type` and `CertifiedKey::new`: the chain and the signing
/// key, put together. It fails, with an error in words, where the key is no ECDSA key.
#[verifier::external_body]
pub(crate) fn certify(leaf: Vec<u8>, root: Vec<u8>, key: &PrivateKeyDer<'static>) -> (r: Result<
    Arc<CertifiedKey>,
    String,
>)
    ensures
        r is Ok ==> chain_in(&*r->Ok_0) == seq![leaf@, root@],
        r is Ok ==> signer_in(&*r->Ok_0) == *key,
{
    let signing = rustls::crypto::ring::sign::any_ecdsa_type(key).map_err(|e| e.to_string())?;
    let chain = vec![CertificateDer::from(leaf), CertificateDer::from(root)];
    Ok(Arc::new(CertifiedKey::new(chain, signing)))
}

/// `Arc::clone`: another handle to the same chain and key.
#[verifier::external_body]
pub(crate) fn share(key: &Arc<CertifiedKey>) -> (r: Arc<CertifiedKey>)
    ensures
        r == *key,
{
    Arc::clone(key)
}

} // verus!
