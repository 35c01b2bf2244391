//! Resolution for passthrough, forced through a public resolver.
//!
//! The system resolver is unusable while interception is on: the hosts entries point every target
//! back at this machine. A public resolver is asked directly and its answers are cached briefly.

use hickory_resolver::config::{ResolveHosts, ResolverOpts};
use vstd::prelude::*;
use vstd::string::*;

use crate::cache::Cache;
use crate::error::Error;
use crate::net::IpAddress;

verus! {

/// How long an answer is used, in milliseconds: five minutes.
pub const TTL_MILLIS: u64 = 300_000;

// ── Resolver options ─────────────────────────────────────────────────────────

/// The options of a resolver, of the `hickory-resolver` crate.
#[verifier::external_type_specification]
#[verifier::external_body]
pub struct ExResolverOpts(ResolverOpts);

/// Whether a resolver with these options reads the system's hosts file.
pub uninterp spec fn reads_hosts_file(opts: &ResolverOpts) -> bool;

/// `ResolverOpts::default`, of which nothing is used but the field that is set below.
#[verifier::external_body]
fn default_opts() -> (opts: ResolverOpts) {
    ResolverOpts::default()
}

/// The field `use_hosts_file`, set so that the hosts file is never read.
#[verifier::external_body]
fn ignore_hosts_file(opts: &mut ResolverOpts)
    ensures
        !reads_hosts_file(final(opts)),
{
    opts.use_hosts_file = ResolveHosts::Never;
}

/// Resolver options that make "ask the public resolver" mean exactly that.
///
/// Pointing the resolver at a public nameserver is not enough on its own: it would still read the
/// system hosts file first, and that file is the very thing that points the hosts at this machine.
/// Passthrough would dial loopback and land back on its own listener.
pub fn resolver_opts() -> (opts: ResolverOpts)
    ensures
        !reads_hosts_file(&opts),
{
    let mut opts = default_opts();
    ignore_hosts_file(&mut opts);
    opts
}

// ── Answers ──────────────────────────────────────────────────────────────────

/// The addresses among the first `n` that are of the wanted family.
pub open spec fn of_family(ips: Seq<IpAddress>, v4: bool, n: nat) -> Seq<IpAddress>
    decreases n,
{
    if n == 0 {
        seq![]
    } else {
        let before = of_family(ips, v4, (n - 1) as nat);
        if (ips[n - 1] is V4) == v4 {
            before.push(ips[n - 1])
        } else {
            before
        }
    }
}

/// The addresses, IPv4 first, each family in the order of the answer.
pub open spec fn v4_first(ips: Seq<IpAddress>) -> Seq<IpAddress> {
    of_family(ips, true, ips.len()) + of_family(ips, false, ips.len())
}

/// The addresses of one family.
fn family(ips: &[IpAddress], v4: bool) -> (r: Vec<IpAddress>)
    ensures
        r@ == of_family(ips@, v4, ips@.len()),
{
    let mut r: Vec<IpAddress> = Vec::new();
    let mut i: usize = 0;
    while i < ips.len()
        invariant
            i <= ips@.len(),
            r@ == of_family(ips@, v4, i as nat),
        decreases ips@.len() - i,
    {
        let is_v4 = match ips[i] {
            IpAddress::V4(_) => true,
            IpAddress::V6(_) => false,
        };
        if is_v4 == v4 {
            r.push(ips[i]);
        }
        i += 1;
    }
    r
}

/// The answer for a host: its addresses, IPv4 first. The caller tries them in order; to keep a
/// single one would strand it if that address dies.
pub fn order_addresses(host: &str, ips: &[IpAddress]) -> (r: Result<Vec<IpAddress>, Error>)
    ensures
        match r {
            Ok(list) => ips@.len() > 0 && list@ == v4_first(ips@),
            Err(e) => ips@.len() == 0 && e is Provider && e->Provider_0@ == "no address for "@
                + host@,
        },
{
    if ips.len() == 0 {
        let mut why = "no address for ".to_string();
        why.push_str(host);
        return Err(Error::Provider(why));
    }
    let mut list = family(ips, true);
    let mut rest = family(ips, false);
    list.append(&mut rest);
    Ok(list)
}

// ── Cache ────────────────────────────────────────────────────────────────────

/// Addresses, and when they were learned.
#[derive(Debug)]
struct Answer {
    ips: Vec<IpAddress>,
    at: u64,
}

/// The answers that were learned so far. Times are milliseconds of a clock that does not go back.
pub struct DnsCache {
    cache: Cache<Answer>,
}

impl DnsCache {
    /// For each host its addresses, and when they were learned.
    pub closed spec fn answers(&self) -> Map<Seq<char>, (Seq<IpAddress>, u64)> {
        self.cache.entries().map_values(|a: Answer| (a.ips@, a.at))
    }

    /// The cache is in order.
    pub closed spec fn wf(&self) -> bool {
        self.cache.wf()
    }

    pub fn new() -> (r: Self)
        ensures
            r.wf(),
            r.answers().dom() == Set::<Seq<char>>::empty(),
    {
        let r = DnsCache { cache: Cache::new() };
        assert(r.answers().dom() =~= Set::<Seq<char>>::empty());
        r
    }

    /// The answer for a host, where one was learned less than the time to live ago.
    pub fn fresh(&self, host: &str, now: u64) -> (r: Option<Vec<IpAddress>>)
        requires
            self.wf(),
        ensures
            match r {
                Some(ips) => self.answers().dom().contains(host@) && self.answers()[host@].0
                    == ips@ && now - self.answers()[host@].1 < TTL_MILLIS,
                None => self.answers().dom().contains(host@) ==> now - self.answers()[host@].1
                    >= TTL_MILLIS,
            },
    {
        match self.cache.get(host) {
            Some(a) => if now < a.at || now - a.at < TTL_MILLIS {
                Some(vstd::slice::slice_to_vec(a.ips.as_slice()))
            } else {
                None
            },
            None => None,
        }
    }

    /// Insert an answer.
    pub fn seed(&mut self, host: &str, ips: Vec<IpAddress>, now: u64)
        requires
            old(self).wf(),
        ensures
            final(self).wf(),
            final(self).answers() == old(self).answers().insert(host@, (ips@, now)),
    {
        self.cache.insert(host, Answer { ips, at: now });
        assert(self.answers() =~= old(self).answers().insert(host@, (ips@, now)));
    }
}

// ── Laws ─────────────────────────────────────────────────────────────────────

/// To put IPv4 first loses no address and makes up none.
pub proof fn law_order_keeps_every_address(ips: Seq<IpAddress>)
    ensures
        v4_first(ips).to_multiset() == ips.to_multiset(),
{
    lemma_families(ips, ips.len());
    assert(ips.take(ips.len() as int) =~= ips);
}

proof fn lemma_families(ips: Seq<IpAddress>, n: nat)
    requires
        n <= ips.len(),
    ensures
        (of_family(ips, true, n) + of_family(ips, false, n)).to_multiset() == ips.take(
            n as int,
        ).to_multiset(),
    decreases n,
{
    broadcast use {vstd::seq_lib::group_to_multiset_ensures};

    if n == 0 {
        assert(of_family(ips, true, 0) + of_family(ips, false, 0) =~= ips.take(0));
    } else {
        lemma_families(ips, (n - 1) as nat);
        let a = of_family(ips, true, (n - 1) as nat);
        let b = of_family(ips, false, (n - 1) as nat);
        let x = ips[n - 1];
        vstd::seq_lib::lemma_multiset_commutative(a, b);
        assert(ips.take(n as int) =~= ips.take(n - 1).push(x));
        if x is V4 {
            vstd::seq_lib::lemma_multiset_commutative(a.push(x), b);
        } else {
            vstd::seq_lib::lemma_multiset_commutative(a, b.push(x));
        }
        assert((of_family(ips, true, n) + of_family(ips, false, n)).to_multiset() =~= (a
            + b).to_multiset().insert(x));
    }
}

proof fn lemma_of_family(ips: Seq<IpAddress>, v4: bool, n: nat)
    requires
        n <= ips.len(),
    ensures
        of_family(ips, v4, n) == ips.take(n as int).filter(|ip: IpAddress| (ip is V4) == v4),
        forall|i: int|
            0 <= i < of_family(ips, v4, n).len() ==> ((#[trigger] of_family(ips, v4, n)[i]) is V4)
                == v4,
    decreases n,
{
    reveal(Seq::filter);
    if n > 0 {
        lemma_of_family(ips, v4, (n - 1) as nat);
        assert(ips.take(n as int).drop_last() =~= ips.take(n - 1));
    } else {
        assert(ips.take(0) =~= seq![]);
    }
}

/// Every address of an answer is kept, the IPv4 addresses in front of the others, and each family
/// in the order of the answer; there is no answer only where there is no address.
pub proof fn law_addresses_come_four_first(
    host: &str,
    ips: &[IpAddress],
    r: Result<Vec<IpAddress>, Error>,
)
    requires
        call_ensures(order_addresses, (host, ips), r),
    ensures
        r is Ok <==> ips@.len() > 0,
        r is Ok ==> {
            let list = r->Ok_0@;
            &&& list.to_multiset() == ips@.to_multiset()
            &&& forall|i: int, j: int|
                0 <= i < j < list.len() && #[trigger] list[j] is V4 ==> #[trigger] list[i] is V4
            &&& exists|k: int|
                {
                    &&& 0 <= k <= list.len()
                    &&& #[trigger] list.take(k) == ips@.filter(|ip: IpAddress| ip is V4)
                    &&& list.skip(k) == ips@.filter(|ip: IpAddress| !(ip is V4))
                }
        },
{
    if r is Ok {
        let list = r->Ok_0@;
        law_order_keeps_every_address(ips@);
        lemma_of_family(ips@, true, ips@.len());
        lemma_of_family(ips@, false, ips@.len());
        assert(ips@.take(ips@.len() as int) =~= ips@);
        let a = of_family(ips@, true, ips@.len());
        let b = of_family(ips@, false, ips@.len());
        let k = a.len() as int;
        assert(list.take(k) =~= a);
        assert(list.skip(k) =~= b);
        lemma_same_filter(ips@, |ip: IpAddress| (ip is V4) == true, |ip: IpAddress| ip is V4);
        lemma_same_filter(ips@, |ip: IpAddress| (ip is V4) == false, |ip: IpAddress| !(ip is V4));
        assert forall|i: int, j: int|
            0 <= i < j < list.len() && #[trigger] list[j] is V4 implies #[trigger] list[i] is V4 by {
            if j >= k {
                assert(list[j] == b[j - k]);
            } else {
                assert(list[i] == a[i]);
            }
        }
    }
}

proof fn lemma_same_filter(
    s: Seq<IpAddress>,
    p: spec_fn(IpAddress) -> bool,
    q: spec_fn(IpAddress) -> bool,
)
    requires
        forall|ip: IpAddress| #[trigger] p(ip) == q(ip),
    ensures
        s.filter(p) == s.filter(q),
    decreases s.len(),
{
    reveal(Seq::filter);
    if s.len() > 0 {
        lemma_same_filter(s.drop_last(), p, q);
        assert(p(s.last()) == q(s.last()));
    }
}

/// What is learned of a host is remembered for five minutes, as it was learned, and says nothing of
/// any other host.
pub proof fn law_answers_are_remembered_for_five_minutes(
    cache: &mut DnsCache,
    host: &str,
    ips: Vec<IpAddress>,
    learned: u64,
    asked: &str,
    now: u64,
)
    requires
        call_ensures(DnsCache::seed, (cache, host, ips, learned), ()),
        learned <= now,
    ensures
        forall|next: DnsCache, r: Option<Vec<IpAddress>>|
            next.answers() == final(cache).answers() && asked@ == host@ && #[trigger] call_ensures(
                DnsCache::fresh,
                (&next, asked, now),
                r,
            ) ==> if now - learned < 300_000 {
                r is Some && r->0@ == ips@
            } else {
                r is None
            },
        forall|other: Seq<char>|
            other != host@ ==> (#[trigger] final(cache).answers().dom().contains(other) <==> old(
                cache,
            ).answers().dom().contains(other)) && (old(cache).answers().dom().contains(other)
                ==> final(cache).answers()[other] == old(cache).answers()[other]),
{
}

/// The resolver that answers for the redirected hosts does not look into the hosts file that
/// redirects them.
pub proof fn law_redirection_is_not_asked(opts: ResolverOpts)
    requires
        call_ensures(resolver_opts, (), opts),
    ensures
        !reads_hosts_file(&opts),
{
}

} // verus!
