use nine_rai::cert::gen::{
    generate_leaf, generate_leaf_at, generate_root, generate_root_at, issuer_with, load_issuer,
    sha1_fingerprint,
};
use nine_rai::cert::{
    due_for_rotation, leaf_key, needs_rotation, needs_rotation_at, pem_to_der, served_leaf,
    CertStore,
};
use nine_rai::error::Error;
use rustls::client::danger::ServerCertVerifier;
use rustls_pki_types::{CertificateDer, ServerName, UnixTime};
use std::sync::Arc;

#[test]
fn root_is_a_ca_valid_for_a_decade() {
    let root = generate_root().unwrap();
    assert!(root.cert_pem.contains("BEGIN CERTIFICATE"));
    assert!(root.key_pem.contains("PRIVATE KEY"));

    let (_, parsed) = x509_parser::pem::parse_x509_pem(root.cert_pem.as_bytes()).unwrap();
    let cert = parsed.parse_x509().unwrap();
    assert!(cert.tbs_certificate.is_ca());
    let days = (cert.validity().not_after.timestamp() - cert.validity().not_before.timestamp())
        / 86400;
    assert!(days >= 3649, "expected ~10 years, got {days} days");
}

#[test]
fn leaf_carries_both_the_host_and_its_wildcard_san() {
    let root = generate_root().unwrap();
    let issuer = load_issuer(&root.cert_pem, &root.key_pem).unwrap();
    let leaf = generate_leaf("runtime.us-east-1.kiro.dev", &issuer).unwrap();

    let (_, parsed) = x509_parser::pem::parse_x509_pem(leaf.cert_pem.as_bytes()).unwrap();
    let cert = parsed.parse_x509().unwrap();
    assert!(!cert.tbs_certificate.is_ca());

    let sans: Vec<String> = cert
        .tbs_certificate
        .subject_alternative_name()
        .unwrap()
        .unwrap()
        .value
        .general_names
        .iter()
        .map(|g| g.to_string())
        .collect();
    assert!(sans
        .iter()
        .any(|s| s.contains("runtime.us-east-1.kiro.dev")));
    assert!(sans
        .iter()
        .any(|s| s.contains("*.runtime.us-east-1.kiro.dev")));
    assert_eq!(sans.len(), 2);
}

#[test]
fn fingerprint_is_the_uppercase_hex_sha1_digest() {
    // SHA-1 of "abc" is a published test vector.
    let fp = sha1_fingerprint(b"abc");
    assert_eq!(fp, "A9993E364706816ABA3E25717850C26C9CD0D89D");
    assert_eq!(fp.len(), 40);
    assert!(fp
        .chars()
        .all(|c| c.is_ascii_hexdigit() && !c.is_lowercase()));
}

#[test]
fn a_freshly_generated_root_is_not_due_for_rotation() {
    let root = generate_root().unwrap();
    assert!(!needs_rotation(&root.cert_pem));
}

#[test]
fn garbage_pem_is_treated_as_needing_rotation() {
    assert!(needs_rotation("not a certificate"));
}

#[test]
fn minting_produces_a_usable_chain_and_caches_it() {
    let root = generate_root().unwrap();
    let root_der = pem_to_der(&root.cert_pem).unwrap();
    let mut store = CertStore::from_root(root.cert_pem, root.key_pem).unwrap();
    assert_eq!(store.fingerprint(), sha1_fingerprint(&root_der));

    let first = store.certified_key("runtime.us-east-1.kiro.dev").unwrap();
    assert_eq!(first.cert.len(), 2, "chain must be leaf + root");
    assert_eq!(first.cert[1].as_ref(), root_der.as_slice());
    let second = store.certified_key("runtime.us-east-1.kiro.dev").unwrap();
    assert!(
        Arc::ptr_eq(&first, &second),
        "second call must hit the cache"
    );
    let other = store.certified_key("q.us-east-1.amazonaws.com").unwrap();
    assert!(!Arc::ptr_eq(&first, &other));
}

#[test]
fn the_root_says_what_it_is_to_say() {
    let made = 1_700_000_000i64;
    let root = generate_root_at(made).unwrap();
    let (_, parsed) = x509_parser::pem::parse_x509_pem(root.cert_pem.as_bytes()).unwrap();
    let cert = parsed.parse_x509().unwrap();
    assert_eq!(cert.validity().not_before.timestamp(), made - 3_600);
    assert_eq!(cert.validity().not_after.timestamp(), made + 315_360_000);
    assert_eq!(cert.subject().to_string(), "CN=9rai MITM Root CA, O=9rai, C=US");
    assert_eq!(cert.tbs_certificate.serial.to_string(), "1");
    let usage = cert.key_usage().unwrap().unwrap().value;
    assert!(usage.key_cert_sign() && usage.crl_sign() && !usage.digital_signature());

    let issuer = load_issuer(&root.cert_pem, &root.key_pem).unwrap();
    let leaf = generate_leaf_at("a.example", &issuer, made).unwrap();
    let (_, parsed) = x509_parser::pem::parse_x509_pem(leaf.cert_pem.as_bytes()).unwrap();
    let cert = parsed.parse_x509().unwrap();
    assert_eq!(cert.validity().not_after.timestamp(), made + 31_536_000);
    assert_eq!(cert.subject().to_string(), "CN=a.example");
    assert_eq!(cert.issuer().to_string(), "CN=9rai MITM Root CA, O=9rai, C=US");
    let usage = cert.key_usage().unwrap().unwrap().value;
    assert!(usage.digital_signature() && usage.key_encipherment() && !usage.key_cert_sign());
    let purpose = cert.extended_key_usage().unwrap().unwrap().value;
    assert!(purpose.server_auth && purpose.client_auth);
}

#[test]
fn rotation_is_due_thirty_days_before_expiry() {
    let made = 1_700_000_000i64;
    let root = generate_root_at(made).unwrap();
    let expiry = made + 315_360_000;
    assert!(!needs_rotation_at(&root.cert_pem, expiry - 2_592_000));
    assert!(needs_rotation_at(&root.cert_pem, expiry - 2_592_000 + 1));
    assert!(due_for_rotation(None, 0));
    assert!(due_for_rotation(Some(2_591_999), 0));
    assert!(!due_for_rotation(Some(2_592_000), 0));
}

#[test]
fn a_stored_root_is_kept_and_a_missing_or_stale_one_replaced() {
    let now = 1_700_000_000i64;
    let root = generate_root_at(now).unwrap();
    let (cert, key) = (root.cert_pem, root.key_pem);
    let kept =
        CertStore::load_or_create_at(Some(cert.clone()), Some(key.clone()), now + 1).unwrap();
    assert!(!kept.fresh);
    assert_eq!(kept.store.root_cert_pem(), cert);
    assert_eq!(kept.store.root_key_pem(), key);
    for (c, k, t) in [
        (None, Some(key.clone()), now),
        (Some(cert.clone()), None, now),
        (Some("garbage".to_string()), Some(key.clone()), now),
        (Some(cert.clone()), Some(key.clone()), now + 315_360_000),
    ] {
        let made = CertStore::load_or_create_at(c, k, t).unwrap();
        assert!(made.fresh);
        assert!(!needs_rotation_at(made.store.root_cert_pem(), t));
    }
    assert!(CertStore::load_or_create(None, None).unwrap().fresh);
    assert!(!needs_rotation(CertStore::ephemeral().unwrap().root_cert_pem()));
}

#[test]
fn failures_of_certificates_are_told() {
    match pem_to_der("garbage") {
        Err(Error::Cert(why)) => assert!(why.starts_with("root PEM parse: "), "{why}"),
        _ => panic!("expected an error"),
    }
    assert!(load_issuer("garbage", "garbage").is_err());
    let root = generate_root().unwrap();
    let issuer = load_issuer(&root.cert_pem, &root.key_pem).unwrap();
    assert!(matches!(generate_leaf("münchen.example", &issuer), Err(Error::Cert(_))));
    let mut broken = CertStore::from_root(root.cert_pem, "garbage".to_string()).unwrap();
    assert!(broken.certified_key("a.example").is_err());
    assert!(CertStore::from_root("garbage".to_string(), root.key_pem).is_err());
}

/// The public key in a certificate.
fn public_key(cert_pem: &str) -> Vec<u8> {
    let (_, parsed) = x509_parser::pem::parse_x509_pem(cert_pem.as_bytes()).unwrap();
    let cert = parsed.parse_x509().unwrap();
    cert.public_key().subject_public_key.data.to_vec()
}

#[test]
fn certificates_belong_to_their_keys() {
    let root = generate_root().unwrap();
    let issuer = load_issuer(&root.cert_pem, &root.key_pem).unwrap();
    let leaf = generate_leaf("a.example", &issuer).unwrap();
    for (cert, key) in [(&root.cert_pem, &root.key_pem), (&leaf.cert_pem, &leaf.key_pem)] {
        let pair = rcgen::KeyPair::from_pem(key).unwrap();
        assert_eq!(public_key(cert), pair.public_key_raw());
        assert_eq!(pair.serialize_pem(), *key);
        assert_eq!(pair.algorithm(), &rcgen::PKCS_ECDSA_P256_SHA256);
    }
    assert_ne!(public_key(&root.cert_pem), public_key(&leaf.cert_pem));
}

#[test]
fn what_is_served_chains_up_to_the_root() {
    let mut store = CertStore::ephemeral().unwrap();
    let served = store.certified_key("a.example").unwrap();
    let anchored = |root_pem: &str, name: &str| {
        let mut roots = rustls::RootCertStore::empty();
        roots.add(CertificateDer::from(pem_to_der(root_pem).unwrap())).unwrap();
        let provider = Arc::new(rustls::crypto::ring::default_provider());
        rustls::client::WebPkiServerVerifier::builder_with_provider(Arc::new(roots), provider)
            .build()
            .unwrap()
            .verify_server_cert(
                &served.cert[0],
                &[],
                &ServerName::try_from(name.to_string()).unwrap(),
                &[],
                UnixTime::now(),
            )
            .is_ok()
    };
    assert!(anchored(store.root_cert_pem(), "a.example"));
    assert!(anchored(store.root_cert_pem(), "b.a.example"));
    assert!(!anchored(store.root_cert_pem(), "c.b.a.example"));
    assert!(!anchored(store.root_cert_pem(), "b.example"));
    assert!(!anchored(&generate_root().unwrap().cert_pem, "a.example"));
    assert!(served.keys_match().is_ok());
}

#[test]
fn roots_can_be_made_at_odd_times() {
    let last = 253_402_300_799i64;
    for made in [-62_167_219_200 + 3_600, -3_000_000_000, 0, last - 315_360_000] {
        let root = generate_root_at(made).unwrap();
        let (_, parsed) = x509_parser::pem::parse_x509_pem(root.cert_pem.as_bytes()).unwrap();
        let cert = parsed.parse_x509().unwrap();
        assert_eq!(cert.validity().not_before.timestamp(), made - 3_600);
        assert_eq!(cert.validity().not_after.timestamp(), made + 315_360_000);
    }
    let late = generate_root_at(last - 315_360_000).unwrap();
    let (cert, key) = (Some(late.cert_pem), Some(late.key_pem));
    let kept = CertStore::load_or_create_at(cert, key, last - 2_592_000).unwrap();
    assert!(!kept.fresh, "a stored root is kept whatever the clock says");
    match CertStore::load_or_create_at(None, None, last) {
        Err(Error::Cert(why)) => assert_eq!(why, "the clock is out of range"),
        _ => panic!("expected an error"),
    }
}

#[test]
fn outcomes_of_reading_keys_are_told() {
    fn why<T>(r: Result<T, Error>) -> String {
        match r {
            Err(Error::Cert(why)) => why,
            _ => panic!("expected an error"),
        }
    }
    assert_eq!(why(leaf_key(Ok(None))), "leaf key PEM contained no private key");
    assert_eq!(why(leaf_key(Err("bad".into()))), "leaf key parse: bad");
    assert_eq!(why(served_leaf(Err("bad".into()))), "leaf signing key: bad");
    assert_eq!(why(issuer_with("garbage", Err("no key".into()))), "no key");

    let root = generate_root().unwrap();
    let key = || rustls_pemfile::private_key(&mut root.key_pem.as_bytes()).unwrap();
    assert_eq!(leaf_key(Ok(key())).unwrap(), key().unwrap());
    let pair = || rcgen::KeyPair::from_pem(&root.key_pem).map_err(|e| e.to_string());
    assert!(issuer_with(&root.cert_pem, pair()).is_ok());
    assert_eq!(
        why(issuer_with("garbage", pair())),
        rcgen::Error::CouldNotParseCertificate.to_string()
    );
    let mut store = CertStore::ephemeral().unwrap();
    let served = store.certified_key("a.example").unwrap();
    assert!(Arc::ptr_eq(&served_leaf(Ok(served.clone())).unwrap(), &served));
}
