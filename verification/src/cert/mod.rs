//! Root CA lifecycle and per-domain leaf minting.
//!
//! The store owns the root PEM, hands out a chain with its key for any host, and caches each leaf
//! for the process lifetime (only three hosts are ever hijacked). Leaves are signed lazily; the
//! cache hit is the hot path, so rebuilding the issuer on the rare miss is fine.

use std::sync::Arc;

use rustls::sign::CertifiedKey;
use rustls_pki_types::PrivateKeyDer;
use vstd::prelude::*;
use vstd::string::*;

use crate::cache::Cache;
use crate::calendar::in_reach;
use crate::cert::gen::{hex_text, is_leaf, is_root, workable, LEAF_SECONDS, ROOT_SECONDS};
use crate::cert::x509::{
    ascii, certificate_facts, chain_in, clock, first_key, issuing_names, loaded_key_text,
    pem_contents, sha1_digest, signer_in, verifies, Facts, LAST_SECOND,
};
use crate::error::Error;

pub mod gen;
pub mod trust;
pub mod x509;

verus! {

/// The root is regenerated once it is within this window of expiring: thirty days.
pub const ROTATE_BEFORE_EXPIRY: i64 = 2_592_000;

// ── Rotation ─────────────────────────────────────────────────────────────────

/// A root is due for rotation where it cannot be read or expires within the window.
pub open spec fn rotation_due(facts: Option<Facts>, now: int) -> bool {
    match facts {
        Some(f) => f.not_after < now + ROTATE_BEFORE_EXPIRY,
        None => true,
    }
}

/// Is a root that is valid until this time, or cannot be read, due for rotation now?
pub fn due_for_rotation(not_after: Option<i64>, now: i64) -> (b: bool)
    requires
        now <= LAST_SECOND,
    ensures
        b == match not_after {
            Some(t) => t < now + ROTATE_BEFORE_EXPIRY,
            None => true,
        },
{
    match not_after {
        Some(t) => t < now + ROTATE_BEFORE_EXPIRY,
        None => true,
    }
}

/// Is the root due for rotation at the given time?
pub fn needs_rotation_at(cert_pem: &str, now: i64) -> (b: bool)
    requires
        now <= LAST_SECOND,
    ensures
        b == rotation_due(certificate_facts(cert_pem@), now as int),
        !b ==> pem_contents(cert_pem@) is Ok,
{
    due_for_rotation(x509::expiry(cert_pem), now)
}

/// Is the root due for rotation now?
pub fn needs_rotation(cert_pem: &str) -> (b: bool)
    ensures
        certificate_facts(cert_pem@) is None ==> b,
        exists|now: int|
            in_reach(now) && b == #[trigger] rotation_due(
                certificate_facts(cert_pem@),
                now,
            ),
{
    let now: i64 = clock();
    let b = needs_rotation_at(cert_pem, now);
    assert(b == rotation_due(certificate_facts(cert_pem@), now as int));
    b
}

/// The bytes of the certificate in a PEM text.
pub fn pem_to_der(cert_pem: &str) -> (r: Result<Vec<u8>, Error>)
    ensures
        match r {
            Ok(der) => pem_contents(cert_pem@) == Ok::<Seq<u8>, Seq<char>>(der@),
            Err(e) => pem_contents(cert_pem@) is Err && e is Cert && e->Cert_0@
                == "root PEM parse: "@ + pem_contents(cert_pem@)->Err_0,
        },
{
    match x509::contents(cert_pem) {
        Ok(der) => Ok(der),
        Err(e) => {
            let mut why = "root PEM parse: ".to_string();
            why.push_str(e.as_str());
            Err(Error::Cert(why))
        },
    }
}

// ── Store ────────────────────────────────────────────────────────────────────

pub struct CertStore {
    root_cert_pem: String,
    root_key_pem: String,
    root_der: Vec<u8>,
    fingerprint: String,
    cache: Cache<Arc<CertifiedKey>>,
}

/// What a store was opened from, and whether the root is new and has yet to be written down.
pub struct Opened {
    pub store: CertStore,
    pub fresh: bool,
}

/// A chain for a host: a leaf for the host under the name of the root's issuer, signed with the
/// root's key, then the root, with the key of the leaf.
pub open spec fn minted(
    served: CertifiedKey,
    host: Seq<char>,
    root: Seq<char>,
    root_key: Seq<char>,
    root_der: Seq<u8>,
) -> bool {
    exists|leaf: Seq<char>, key: Seq<char>, now: int|
        {
            &&& workable(now, LEAF_SECONDS as int)
            &&& issuing_names(root) is Ok
            &&& #[trigger] is_leaf(
                leaf,
                key,
                host,
                now,
                issuing_names(root)->Ok_0,
                loaded_key_text(root_key),
            )
            &&& pem_contents(leaf) is Ok
            &&& chain_in(&served) == seq![pem_contents(leaf)->Ok_0, root_der]
            &&& first_key(key) == Ok::<Option<PrivateKeyDer<'static>>, Seq<char>>(
                Some(signer_in(&served)),
            )
        }
}

/// The private key of a leaf, from what reading its text form came to.
pub fn leaf_key(read: Result<Option<PrivateKeyDer<'static>>, String>) -> (r: Result<
    PrivateKeyDer<'static>,
    Error,
>)
    ensures
        match read {
            Ok(Some(key)) => r == Ok::<PrivateKeyDer<'static>, Error>(key),
            Ok(None) => r is Err && r->Err_0 is Cert && r->Err_0->Cert_0@
                == "leaf key PEM contained no private key"@,
            Err(e) => r is Err && r->Err_0 is Cert && r->Err_0->Cert_0@ == "leaf key parse: "@
                + e@,
        },
{
    match read {
        Ok(Some(key)) => Ok(key),
        Ok(None) => Err(Error::Cert("leaf key PEM contained no private key".to_string())),
        Err(e) => {
            let mut why = "leaf key parse: ".to_string();
            why.push_str(e.as_str());
            Err(Error::Cert(why))
        },
    }
}

/// The chain of a leaf, from what making its signing key came to.
pub fn served_leaf(made: Result<Arc<CertifiedKey>, String>) -> (r: Result<Arc<CertifiedKey>, Error>)
    ensures
        match made {
            Ok(served) => r == Ok::<Arc<CertifiedKey>, Error>(served),
            Err(e) => r is Err && r->Err_0 is Cert && r->Err_0->Cert_0@ == "leaf signing key: "@
                + e@,
        },
{
    match made {
        Ok(served) => Ok(served),
        Err(e) => {
            let mut why = "leaf signing key: ".to_string();
            why.push_str(e.as_str());
            Err(Error::Cert(why))
        },
    }
}

/// A stored root can be used: all of it is there and it is not due for rotation.
pub open spec fn usable(cert: Option<String>, key: Option<String>, now: int) -> bool {
    cert is Some && key is Some && !rotation_due(certificate_facts(cert->0@), now)
}

impl CertStore {
    /// The root certificate.
    pub closed spec fn root(&self) -> Seq<char> {
        self.root_cert_pem@
    }

    /// The key of the root certificate.
    pub closed spec fn root_key(&self) -> Seq<char> {
        self.root_key_pem@
    }

    /// The bytes of the root certificate.
    pub closed spec fn der(&self) -> Seq<u8> {
        self.root_der@
    }

    /// The keys that were minted so far, by host.
    pub closed spec fn keys(&self) -> Map<Seq<char>, Arc<CertifiedKey>> {
        self.cache.entries()
    }

    /// The bytes and the fingerprint are those of the root certificate.
    pub closed spec fn wf(&self) -> bool {
        &&& self.cache.wf()
        &&& pem_contents(self.root_cert_pem@) == Ok::<Seq<u8>, Seq<char>>(self.root_der@)
        &&& self.fingerprint@ == hex_text(sha1_digest(self.root_der@))
    }

    /// A store for the given root.
    pub fn from_root(cert_pem: String, key_pem: String) -> (r: Result<Self, Error>)
        ensures
            match r {
                Ok(store) => {
                    &&& store.wf()
                    &&& store.root() == cert_pem@
                    &&& store.root_key() == key_pem@
                    &&& store.keys().dom() == Set::<Seq<char>>::empty()
                    &&& pem_contents(cert_pem@) is Ok
                },
                Err(e) => pem_contents(cert_pem@) is Err && e is Cert && e->Cert_0@
                    == "root PEM parse: "@ + pem_contents(cert_pem@)->Err_0,
            },
    {
        let root_der = match pem_to_der(cert_pem.as_str()) {
            Ok(der) => der,
            Err(e) => {
                return Err(e);
            },
        };
        let fingerprint = gen::sha1_fingerprint(root_der.as_slice());
        Ok(
            CertStore {
                root_cert_pem: cert_pem,
                root_key_pem: key_pem,
                root_der,
                fingerprint,
                cache: Cache::new(),
            },
        )
    }

    /// The store for the root that was read from disk, or for a fresh one where a part of it is
    /// missing or it is near expiry at the given time. A root that can be used is always kept; a
    /// fresh one cannot be made at every time.
    pub fn load_or_create_at(cert: Option<String>, key: Option<String>, now: i64) -> (r: Result<
        Opened,
        Error,
    >)
        requires
            now <= LAST_SECOND,
        ensures
            usable(cert, key, now as int) ==> r is Ok,
            !usable(cert, key, now as int) && !workable(now as int, ROOT_SECONDS as int) ==> r
                is Err && r->Err_0->Cert_0@ == "the clock is out of range"@,
            match r {
                Ok(opened) => {
                    &&& opened.store.wf()
                    &&& opened.store.keys().dom() == Set::<Seq<char>>::empty()
                    &&& opened.fresh == !usable(cert, key, now as int)
                    &&& !opened.fresh ==> opened.store.root() == cert->0@
                        && opened.store.root_key() == key->0@
                    &&& opened.fresh ==> workable(now as int, ROOT_SECONDS as int) && is_root(
                        opened.store.root(),
                        opened.store.root_key(),
                        now as int,
                    )
                },
                Err(e) => e is Cert,
            },
    {
        match (cert, key) {
            (Some(c), Some(k)) => {
                if !needs_rotation_at(c.as_str(), now) {
                    return match CertStore::from_root(c, k) {
                        Ok(store) => Ok(Opened { store, fresh: false }),
                        Err(e) => Err(e),
                    };
                }
            },
            _ => {},
        }
        if !gen::is_workable(now, ROOT_SECONDS) {
            return Err(gen::clock_error());
        }
        let root = match gen::generate_root_at(now) {
            Ok(root) => root,
            Err(e) => {
                return Err(e);
            },
        };
        match CertStore::from_root(root.cert_pem, root.key_pem) {
            Ok(store) => Ok(Opened { store, fresh: true }),
            Err(e) => Err(e),
        }
    }

    /// The store for the root that was read from disk, or for a fresh one where a part of it is
    /// missing or it is near expiry. A fresh one has to be written down by the caller.
    pub fn load_or_create(cert: Option<String>, key: Option<String>) -> (r: Result<Opened, Error>)
        ensures
            match r {
                Ok(opened) => {
                    &&& opened.store.wf()
                    &&& opened.store.keys().dom() == Set::<Seq<char>>::empty()
                    &&& exists|now: int|
                        {
                            &&& in_reach(now)
                            &&& opened.fresh == !#[trigger] usable(cert, key, now)
                            &&& opened.fresh ==> workable(now, ROOT_SECONDS as int) && is_root(
                                opened.store.root(),
                                opened.store.root_key(),
                                now,
                            )
                        }
                    &&& !opened.fresh ==> opened.store.root() == cert->0@
                        && opened.store.root_key() == key->0@
                },
                Err(e) => e is Cert && exists|now: int|
                    {
                        &&& in_reach(now)
                        &&& !#[trigger] usable(cert, key, now)
                        &&& !workable(now, ROOT_SECONDS as int) ==> e->Cert_0@
                            == "the clock is out of range"@
                    },
            },
    {
        let now: i64 = clock();
        let ghost kept = usable(cert, key, now as int);
        CertStore::load_or_create_at(cert, key, now)
    }

    /// An in-memory root that is never written to disk.
    pub fn ephemeral() -> (r: Result<Self, Error>)
        ensures
            match r {
                Ok(store) => {
                    &&& store.wf()
                    &&& store.keys().dom() == Set::<Seq<char>>::empty()
                    &&& exists|now: int|
                        workable(now, ROOT_SECONDS as int) && #[trigger] is_root(
                            store.root(),
                            store.root_key(),
                            now,
                        )
                },
                Err(e) => e is Cert,
            },
    {
        match gen::generate_root() {
            Ok(root) => CertStore::from_root(root.cert_pem, root.key_pem),
            Err(e) => Err(e),
        }
    }

    pub fn root_cert_pem(&self) -> (r: &str)
        ensures
            r@ == self.root(),
    {
        self.root_cert_pem.as_str()
    }

    pub fn root_key_pem(&self) -> (r: &str)
        ensures
            r@ == self.root_key(),
    {
        self.root_key_pem.as_str()
    }

    pub fn fingerprint(&self) -> (r: &str)
        ensures
            self.wf() ==> r@ == hex_text(sha1_digest(self.der())),
    {
        self.fingerprint.as_str()
    }

    /// A signing key and chain for `domain`, minting and caching on first use.
    pub fn certified_key(&mut self, domain: &str) -> (r: Result<Arc<CertifiedKey>, Error>)
        requires
            old(self).wf(),
        ensures
            final(self).wf(),
            final(self).root() == old(self).root(),
            final(self).root_key() == old(self).root_key(),
            final(self).der() == old(self).der(),
            old(self).keys().dom().contains(domain@) ==> r == Ok::<Arc<CertifiedKey>, Error>(
                old(self).keys()[domain@],
            ) && final(self).keys() == old(self).keys(),
            !old(self).keys().dom().contains(domain@) ==> match r {
                Ok(key) => {
                    &&& ascii(domain@)
                    &&& minted(
                        *key,
                        domain@,
                        old(self).root(),
                        old(self).root_key(),
                        old(self).der(),
                    )
                    &&& final(self).keys() == old(self).keys().insert(domain@, key)
                },
                Err(e) => e is Cert && final(self).keys() == old(self).keys(),
            },
    {
        match self.cache.get(domain) {
            Some(hit) => {
                return Ok(x509::share(hit));
            },
            None => {},
        }
        let issuer = match gen::load_issuer(
            self.root_cert_pem.as_str(),
            self.root_key_pem.as_str(),
        ) {
            Ok(issuer) => issuer,
            Err(e) => {
                return Err(e);
            },
        };
        let leaf = match gen::generate_leaf(domain, &issuer) {
            Ok(leaf) => leaf,
            Err(e) => {
                return Err(e);
            },
        };
        let leaf_der = match pem_to_der(leaf.cert_pem.as_str()) {
            Ok(der) => der,
            Err(e) => {
                return Err(e);
            },
        };
        let key_der = match leaf_key(x509::private_key(leaf.key_pem.as_str())) {
            Ok(key) => key,
            Err(e) => {
                return Err(e);
            },
        };
        // Serve leaf and root, so that a client that only pins the root still builds a chain.
        let root_der = vstd::slice::slice_to_vec(self.root_der.as_slice());
        let ghost leaf_bytes = leaf_der@;
        let served = match served_leaf(x509::certify(leaf_der, root_der, &key_der)) {
            Ok(served) => served,
            Err(e) => {
                return Err(e);
            },
        };
        proof {
            let names = x509::issuer_names(&issuer);
            let key = x509::issuer_key(&issuer);
            let now = choose|now: int|
                workable(now, LEAF_SECONDS as int) && #[trigger] is_leaf(
                    leaf.cert_pem@,
                    leaf.key_pem@,
                    domain@,
                    now,
                    names,
                    key,
                );
            assert(is_leaf(leaf.cert_pem@, leaf.key_pem@, domain@, now, names, key));
            assert(names == issuing_names(self.root())->Ok_0);
            assert(key == loaded_key_text(self.root_key()));
            assert(chain_in(&*served) =~= seq![leaf_bytes, self.der()]);
            assert(minted(*served, domain@, self.root(), self.root_key(), self.der()));
        }
        self.cache.insert(domain, x509::share(&served));
        Ok(served)
    }
}

// ── Laws ─────────────────────────────────────────────────────────────────────

/// A freshly generated root is not due for rotation, not for as long as nine years and eleven
/// months after.
pub proof fn law_fresh_root_is_not_due(cert: Seq<char>, key: Seq<char>, made: int, now: int)
    requires
        is_root(cert, key, made),
        now <= made + ROOT_SECONDS - ROTATE_BEFORE_EXPIRY,
    ensures
        !rotation_due(certificate_facts(cert), now),
{
}

/// What is served for a host chains up to a root that was made here: the leaf names the root as its
/// issuer, its signature verifies under the public key that the root holds, and the root's own does
/// too.
pub proof fn law_leaf_chains_to_the_root(
    served: CertifiedKey,
    host: Seq<char>,
    root: Seq<char>,
    root_key: Seq<char>,
    made: int,
)
    requires
        is_root(root, root_key, made),
        pem_contents(root) is Ok,
        minted(served, host, root, root_key, pem_contents(root)->Ok_0),
    ensures
        chain_in(&served).len() == 2,
        chain_in(&served)[1] == pem_contents(root)->Ok_0,
        certificate_facts(root) is Some,
        verifies(root, certificate_facts(root)->0.public_key),
        exists|leaf: Seq<char>|
            {
                &&& pem_contents(leaf) == Ok::<Seq<u8>, Seq<char>>(chain_in(&served)[0])
                &&& certificate_facts(leaf) is Some
                &&& certificate_facts(leaf)->0.dns_names == seq![host, "*."@ + host]
                &&& certificate_facts(leaf)->0.issuer == certificate_facts(root)->0.names
                &&& #[trigger] verifies(leaf, certificate_facts(root)->0.public_key)
            },
{
    lemma_leaf_chains(&served, host, root, root_key, made);
}

proof fn lemma_leaf_chains(
    served: &CertifiedKey,
    host: Seq<char>,
    root: Seq<char>,
    root_key: Seq<char>,
    made: int,
)
    requires
        is_root(root, root_key, made),
        pem_contents(root) is Ok,
        minted(*served, host, root, root_key, pem_contents(root)->Ok_0),
    ensures
        chain_in(served).len() == 2,
        chain_in(served)[1] == pem_contents(root)->Ok_0,
        certificate_facts(root) is Some,
        verifies(root, certificate_facts(root)->0.public_key),
        exists|leaf: Seq<char>|
            {
                &&& pem_contents(leaf) == Ok::<Seq<u8>, Seq<char>>(chain_in(served)[0])
                &&& certificate_facts(leaf) is Some
                &&& certificate_facts(leaf)->0.dns_names == seq![host, "*."@ + host]
                &&& certificate_facts(leaf)->0.issuer == certificate_facts(root)->0.names
                &&& #[trigger] verifies(leaf, certificate_facts(root)->0.public_key)
            },
{
    let (leaf, key, now) = choose|leaf: Seq<char>, key: Seq<char>, now: int|
        {
            &&& workable(now, LEAF_SECONDS as int)
            &&& issuing_names(root) is Ok
            &&& #[trigger] is_leaf(
                leaf,
                key,
                host,
                now,
                issuing_names(root)->Ok_0,
                loaded_key_text(root_key),
            )
            &&& pem_contents(leaf) is Ok
            &&& chain_in(served) == seq![pem_contents(leaf)->Ok_0, pem_contents(root)->Ok_0]
            &&& first_key(key) == Ok::<Option<PrivateKeyDer<'static>>, Seq<char>>(
                Some(signer_in(served)),
            )
        };
    assert(verifies(leaf, certificate_facts(root)->0.public_key));
}

/// A root is replaced once it cannot be read or has less than thirty days to go, and not before.
pub proof fn law_roots_are_replaced_a_month_early(
    not_after: Option<i64>,
    now: i64,
    due: bool,
    pem: &str,
    needs: bool,
)
    requires
        call_ensures(due_for_rotation, (not_after, now), due),
        call_ensures(needs_rotation_at, (pem, now), needs),
    ensures
        due <==> not_after is None || not_after->0 - now < 30 * 24 * 60 * 60,
        needs <==> certificate_facts(pem@) is None || certificate_facts(pem@)->0.not_after - now
            < 30 * 24 * 60 * 60,
{
}

/// A chain that was served for a host is served for it again, as it is, and a chain for one host says
/// nothing of another.
pub proof fn law_chains_are_minted_once(
    store: &mut CertStore,
    host: &str,
    r: Result<Arc<CertifiedKey>, Error>,
    other: Seq<char>,
)
    requires
        call_ensures(CertStore::certified_key, (store, host), r),
    ensures
        r is Ok ==> final(store).keys().dom().contains(host@) && final(store).keys()[host@]
            == r->Ok_0,
        old(store).keys().dom().contains(host@) ==> r is Ok && r->Ok_0 == old(store).keys()[host@],
        other != host@ ==> (final(store).keys().dom().contains(other) <==> old(
            store,
        ).keys().dom().contains(other)),
        other != host@ && old(store).keys().dom().contains(other) ==> final(store).keys()[other]
            == old(store).keys()[other],
        final(store).root() == old(store).root(),
        final(store).root_key() == old(store).root_key(),
{
}

/// A root that was stored is kept wherever it can be read and is not due, whatever else there is; and
/// what a store was opened from is what it hands out.
pub proof fn law_stored_roots_are_kept(
    cert: String,
    key: String,
    now: i64,
    r: Result<Opened, Error>,
)
    requires
        call_ensures(CertStore::load_or_create_at, (Some(cert), Some(key), now), r),
        certificate_facts(cert@) is Some,
        certificate_facts(cert@)->0.not_after - now >= 30 * 24 * 60 * 60,
    ensures
        r is Ok,
        !r->Ok_0.fresh,
        r->Ok_0.store.root() == cert@,
        r->Ok_0.store.root_key() == key@,
        forall|shown: &str|
            #[trigger] call_ensures(CertStore::root_cert_pem, (&r->Ok_0.store,), shown) ==> shown@
                == cert@,
{
    assert(usable(Some(cert), Some(key), now as int));
}

/// A certificate that cannot be read is always due, and what is read of a key or a signer is handed
/// on as it is, or its failure is told.
pub proof fn law_what_was_read_is_handed_on(
    pem: &str,
    due: bool,
    der: Result<Vec<u8>, Error>,
    read: Result<Option<PrivateKeyDer<'static>>, String>,
    key: Result<PrivateKeyDer<'static>, Error>,
    made: Result<Arc<CertifiedKey>, String>,
    served: Result<Arc<CertifiedKey>, Error>,
)
    requires
        call_ensures(needs_rotation, (pem,), due),
        call_ensures(pem_to_der, (pem,), der),
        call_ensures(leaf_key, (read,), key),
        call_ensures(served_leaf, (made,), served),
    ensures
        certificate_facts(pem@) is None ==> due,
        due ==> certificate_facts(pem@) is None || exists|now: int|
            #[trigger] in_reach(now) && certificate_facts(pem@)->0.not_after - now < 30 * 24 * 60
                * 60,
        !due ==> exists|now: int|
            #[trigger] in_reach(now) && certificate_facts(pem@)->0.not_after - now >= 30 * 24 * 60
                * 60,
        der is Ok <==> pem_contents(pem@) is Ok,
        der is Ok ==> der->Ok_0@ == pem_contents(pem@)->Ok_0,
        key is Ok <==> read is Ok && read->Ok_0 is Some,
        key is Ok ==> key->Ok_0 == read->Ok_0->0,
        key is Err ==> key->Err_0 is Cert,
        served is Ok <==> made is Ok,
        served is Ok ==> served->Ok_0 == made->Ok_0,
        served is Err ==> served->Err_0 is Cert,
{
    if certificate_facts(pem@) is Some {
        let now = choose|now: int|
            in_reach(now) && due == #[trigger] rotation_due(certificate_facts(pem@), now);
        assert(in_reach(now));
    }
}

/// A store that is made from a root hands out that root, its key and its fingerprint, and has served
/// nothing yet; a root that cannot be read makes no store.
pub proof fn law_stores_hand_out_their_root(
    cert: String,
    key: String,
    r: Result<CertStore, Error>,
    shown: &str,
    print: &str,
)
    requires
        call_ensures(CertStore::from_root, (cert, key), r),
        r is Ok ==> call_ensures(CertStore::root_key_pem, (&r->Ok_0,), shown),
        r is Ok ==> call_ensures(CertStore::fingerprint, (&r->Ok_0,), print),
    ensures
        r is Ok <==> pem_contents(cert@) is Ok,
        r is Ok ==> {
            &&& r->Ok_0.root() == cert@
            &&& shown@ == key@
            &&& print@ == hex_text(sha1_digest(r->Ok_0.der()))
            &&& forall|host: Seq<char>| !(#[trigger] r->Ok_0.keys().dom().contains(host))
        },
{
}

/// A store that needs no file has a root of its own, made a moment ago.
pub proof fn law_new_stores_have_new_roots(r: Result<CertStore, Error>)
    requires
        call_ensures(CertStore::ephemeral, (), r),
    ensures
        r is Ok ==> exists|now: int| #[trigger] is_root(r->Ok_0.root(), r->Ok_0.root_key(), now),
        r is Ok ==> forall|host: Seq<char>| !(#[trigger] r->Ok_0.keys().dom().contains(host)),
        r is Err ==> r->Err_0 is Cert,
{
}

/// What a store serves for a host that it has not served yet is a leaf for that host and the root of
/// the store, in this order, and the leaf is signed with the root's key.
pub proof fn law_served_chains_end_in_the_root(
    store: &mut CertStore,
    host: &str,
    r: Result<Arc<CertifiedKey>, Error>,
    made: int,
)
    requires
        call_ensures(CertStore::certified_key, (store, host), r),
        !old(store).keys().dom().contains(host@),
        is_root(old(store).root(), old(store).root_key(), made),
        pem_contents(old(store).root()) == Ok::<Seq<u8>, Seq<char>>(old(store).der()),
        r is Ok,
    ensures
        chain_in(&*r->Ok_0).len() == 2,
        chain_in(&*r->Ok_0)[1] == old(store).der(),
        exists|leaf: Seq<char>|
            {
                &&& pem_contents(leaf) == Ok::<Seq<u8>, Seq<char>>(chain_in(&*r->Ok_0)[0])
                &&& certificate_facts(leaf) is Some
                &&& certificate_facts(leaf)->0.dns_names == seq![host@, "*."@ + host@]
                &&& #[trigger] verifies(
                    leaf,
                    certificate_facts(old(store).root())->0.public_key,
                )
            },
{
    lemma_leaf_chains(
        &*r->Ok_0,
        host@,
        old(store).root(),
        old(store).root_key(),
        made,
    );
}

/// A root that is missing, or lacks its key, or is due, is replaced by one that is made now.
pub proof fn law_missing_roots_are_made(
    cert: Option<String>,
    key: Option<String>,
    now: i64,
    r: Result<Opened, Error>,
)
    requires
        call_ensures(CertStore::load_or_create_at, (cert, key, now), r),
        cert is None || key is None || certificate_facts(cert->0@) is None || certificate_facts(
            cert->0@,
        )->0.not_after - now < 30 * 24 * 60 * 60,
        r is Ok,
    ensures
        r->Ok_0.fresh,
        is_root(r->Ok_0.store.root(), r->Ok_0.store.root_key(), now as int),
{
}

} // verus!
