//! Turning interception on and off: the contents of the hosts file and the privileged batches.
//!
//! File contents are staged to a normal-user temp path; the privileged batch only copies a
//! prepared file into place.

use vstd::prelude::*;
use vstd::string::*;

use crate::cert::gen::ROOT_CN;
use crate::config::{hosts_of, Tool};
use crate::hosts;
use crate::hosts::{applied, stripped};
use crate::net::{loops_back, IpAddress};
use crate::paths;
use crate::paths::{hosts_path, join_path, law_joined_lies_below, root_cert_path};
use crate::platform::Platform;
use crate::privilege::{first_refusal, refusal, writes_trust, PrivOp};
use crate::text::{contains, occurs_at, texts};

verus! {

// ── Hosts ────────────────────────────────────────────────────────────────────

/// The hosts file with the hosts of the tool redirected.
pub fn redirected(existing: &str) -> (r: String)
    ensures
        r@ == applied(existing@, hosts_of(Tool::Kiro)),
{
    let names = Tool::Kiro.hosts();
    hosts::apply(existing, names.as_slice())
}

/// The hosts file with nothing redirected.
pub fn restored(existing: &str) -> (r: String)
    ensures
        r@ == stripped(existing@),
{
    hosts::strip(existing)
}

/// Is the machine still redirected, i.e. did something leave the managed block in the hosts file?
pub fn hosts_are_redirected(existing: &str) -> (b: bool)
    ensures
        b == contains(existing@, hosts::BEGIN@),
{
    hosts::is_applied(existing)
}

/// Where the contents of the hosts file are staged.
pub fn staged_path(platform: Platform, data_dir: &str) -> (r: String)
    ensures
        r@ == join_path(platform, data_dir@, "hosts.staged"@),
{
    paths::join(platform, data_dir, "hosts.staged")
}

/// What the system resolver says of a host: its addresses, or nothing where it does not resolve.
#[derive(Debug)]
pub struct Resolution {
    pub host: String,
    pub addresses: Option<Vec<IpAddress>>,
}

/// A host that leads here: every answer is the address of this machine, since one real address
/// left in the list is one that a client may pick. A name that resolves nowhere is not reaching the
/// real service either.
pub open spec fn leads_here(addresses: Option<Vec<IpAddress>>) -> bool {
    match addresses {
        Some(list) => forall|i: int| 0 <= i < list@.len() ==> loops_back(#[trigger] list@[i]),
        None => true,
    }
}

/// Does a host with these addresses lead here?
pub fn resolves_to_loopback(addresses: &Option<Vec<IpAddress>>) -> (b: bool)
    ensures
        b == leads_here(*addresses),
{
    match addresses {
        Some(list) => {
            let mut i: usize = 0;
            while i < list.len()
                invariant
                    i <= list@.len(),
                    *addresses == Some(*list),
                    forall|j: int| 0 <= j < i ==> loops_back(#[trigger] list@[j]),
                decreases list@.len() - i,
            {
                if !list[i].is_loopback() {
                    assert(!loops_back(addresses->0@[i as int]));
                    return false;
                }
                i += 1;
            }
            true
        },
        None => true,
    }
}

/// The hosts among the first `n` that do not lead here.
pub open spec fn astray(resolutions: Seq<Resolution>, n: nat) -> Seq<Seq<char>>
    decreases n,
{
    if n == 0 {
        seq![]
    } else {
        let before = astray(resolutions, (n - 1) as nat);
        if leads_here(resolutions[n - 1].addresses) {
            before
        } else {
            before.push(resolutions[n - 1].host@)
        }
    }
}

/// The hijacked hosts that the *system resolver* does not send here yet.
///
/// Writing the hosts file and having the OS honour it are two different things, and the difference
/// is invisible: every step of the enable batch succeeds, the proxy binds its port, and the IDE
/// goes on talking to the real service. This asks the same question that the IDE's own connect
/// will ask.
pub fn hosts_not_hijacked(resolutions: &[Resolution]) -> (r: Vec<String>)
    ensures
        texts(r@) == astray(resolutions@, resolutions@.len()),
{
    let mut r: Vec<String> = Vec::new();
    let mut i: usize = 0;
    assert(texts(r@) =~= seq![]);
    while i < resolutions.len()
        invariant
            i <= resolutions@.len(),
            texts(r@) == astray(resolutions@, i as nat),
        decreases resolutions@.len() - i,
    {
        let ghost before = texts(r@);
        if !resolves_to_loopback(&resolutions[i].addresses) {
            let host = resolutions[i].host.clone();
            r.push(host);
            assert(texts(r@) =~= before.push(host@));
        }
        i += 1;
    }
    r
}

// ── Batches ──────────────────────────────────────────────────────────────────

/// A step that installs the staged hosts file.
pub open spec fn installs_hosts(op: PrivOp, platform: Platform, staged: Seq<char>) -> bool {
    op is InstallHosts && op->InstallHosts_staged@ == staged && op->InstallHosts_target@
        == hosts_path(platform)
}

/// The batch that enables interception: point Node clients at the root, redirect the hosts, flush
/// the resolver's cache.
pub open spec fn enables(
    ops: Seq<PrivOp>,
    platform: Platform,
    cert: Seq<char>,
    staged: Seq<char>,
) -> bool {
    &&& ops.len() == 3
    &&& ops[0] is SetNodeCaEnv
    &&& ops[0]->SetNodeCaEnv_cert@ == cert
    &&& installs_hosts(ops[1], platform, staged)
    &&& ops[2] is FlushDns
}

/// The batch that disables interception: restore the hosts and flush the resolver's cache.
pub open spec fn disables(ops: Seq<PrivOp>, platform: Platform, staged: Seq<char>) -> bool {
    &&& ops.len() == 2
    &&& installs_hosts(ops[0], platform, staged)
    &&& ops[1] is FlushDns
}

/// The batch that removes trust altogether.
pub open spec fn uninstalls(
    ops: Seq<PrivOp>,
    platform: Platform,
    staged: Seq<char>,
    fingerprint: Seq<char>,
) -> bool {
    &&& ops.len() == 4
    &&& disables(ops.take(2), platform, staged)
    &&& ops[2] is RemoveCa
    &&& ops[2]->RemoveCa_cn@ == ROOT_CN@
    &&& ops[2]->RemoveCa_fingerprint@ == fingerprint
    &&& ops[3] is UnsetNodeCaEnv
}

/// The privileged batch that enables interception.
///
/// Installing the root into the system trust store is deliberately *not* here. That write needs an
/// authorization prompt that a session may have no way to show, and the batch is all-or-nothing:
/// one refused trust-settings write would abort an otherwise healthy startup. Trusting the root is
/// therefore a separate, best-effort step that the caller runs first.
pub fn enable_ops_for(platform: Platform, cert: &str, staged: &str) -> (ops: Vec<PrivOp>)
    ensures
        enables(ops@, platform, cert@, staged@),
{
    vec![
        PrivOp::SetNodeCaEnv { cert: cert.to_string() },
        PrivOp::InstallHosts {
            staged: staged.to_string(),
            target: paths::hosts_file(platform).to_string(),
        },
        PrivOp::FlushDns,
    ]
}

/// The privileged batch that enables interception, from the files in the data directory.
pub fn enable_ops(platform: Platform, data_dir: &str) -> (ops: Vec<PrivOp>)
    ensures
        enables(
            ops@,
            platform,
            root_cert_path(platform, data_dir@),
            join_path(platform, data_dir@, "hosts.staged"@),
        ),
{
    let cert = paths::root_ca_cert(platform, data_dir);
    let staged = staged_path(platform, data_dir);
    enable_ops_for(platform, cert.as_str(), staged.as_str())
}

/// The privileged batch that disables interception: restore the hosts and flush DNS.
///
/// The CA is intentionally left trusted: repeated enable/disable cycles should not re-prompt.
/// `NODE_EXTRA_CA_CERTS` follows the same lifetime, and must: a process reads it once at startup
/// and never again, so withdrawing it here would poison every helper that the IDE happens to spawn
/// while the proxy is off.
pub fn disable_ops(platform: Platform, data_dir: &str) -> (ops: Vec<PrivOp>)
    ensures
        disables(ops@, platform, join_path(platform, data_dir@, "hosts.staged"@)),
{
    vec![
        PrivOp::InstallHosts {
            staged: staged_path(platform, data_dir),
            target: paths::hosts_file(platform).to_string(),
        },
        PrivOp::FlushDns,
    ]
}

/// The privileged batch that fully removes trust, used by an explicit uninstall.
pub fn uninstall_ops(platform: Platform, data_dir: &str, fingerprint: &str) -> (ops: Vec<PrivOp>)
    ensures
        uninstalls(
            ops@,
            platform,
            join_path(platform, data_dir@, "hosts.staged"@),
            fingerprint@,
        ),
{
    let mut ops = disable_ops(platform, data_dir);
    let ghost first = ops@;
    ops.push(
        PrivOp::RemoveCa { cn: ROOT_CN.to_string(), fingerprint: fingerprint.to_string() },
    );
    // The root is going away, so nothing should keep pointing Node clients at it.
    ops.push(PrivOp::UnsetNodeCaEnv);
    assert(ops@.take(2) =~= first);
    ops
}

// ── Laws ─────────────────────────────────────────────────────────────────────

/// The batches that this application makes are the ones that pass validation.
pub proof fn law_own_batches_are_accepted(
    platform: Platform,
    data_dir: Seq<char>,
    fingerprint: Seq<char>,
    ops: Seq<PrivOp>,
)
    requires
        ({
            let staged = join_path(platform, data_dir, "hosts.staged"@);
            let cert = root_cert_path(platform, data_dir);
            ||| enables(ops, platform, cert, staged)
            ||| disables(ops, platform, staged)
            ||| uninstalls(ops, platform, staged, fingerprint)
        }),
    ensures
        first_refusal(platform, Some(data_dir), ops, 0) is None,
{
    reveal_strlit("hosts.staged");
    law_joined_lies_below(platform, data_dir, "hosts.staged"@);
    reveal_with_fuel(first_refusal, 6);
    assert(ops.len() == 4 ==> ops[0] == ops.take(2)[0] && ops[1] == ops.take(2)[1]);
    assert forall|i: int| 0 <= i < ops.len() implies refusal(
        platform,
        Some(data_dir),
        #[trigger] ops[i],
    ) is None by {}
}

/// Restoring the hosts file undoes redirecting it: what the user wrote comes back, to the
/// character.
pub proof fn law_restoring_undoes_redirecting(original: Seq<char>)
    requires
        !contains(original, hosts::BEGIN@),
    ensures
        stripped(applied(original, hosts_of(Tool::Kiro))) == original,
        contains(applied(original, hosts_of(Tool::Kiro)), hosts::BEGIN@),
{
    reveal_strlit("runtime.us-east-1.kiro.dev");
    reveal_strlit("q.us-east-1.amazonaws.com");
    reveal_strlit("codewhisperer.us-east-1.amazonaws.com");
    let names = hosts_of(Tool::Kiro);
    assert forall|i: int| 0 <= i < names.len() implies !contains(
        #[trigger] names[i],
        hosts::BEGIN@,
    ) && !contains(names[i], hosts::END@) by {
        hosts::lemma_plain(names[i]);
    }
    hosts::law_strip_undoes_apply(original, names);
    hosts::law_apply_leaves_one_block(original, names);
}

/// The tool's three hosts are redirected to both loopback addresses, below what was in the file; and
/// to restore the file gives back what was in it.
pub proof fn law_redirecting_maps_the_three_hosts(existing: &str, on: String, off: String)
    requires
        call_ensures(redirected, (existing,), on),
        !contains(existing@, "# BEGIN 9rai"@),
    ensures
        existing@.is_prefix_of(on@),
        contains(on@, "127.0.0.1\truntime.us-east-1.kiro.dev\n"@),
        contains(on@, "::1\truntime.us-east-1.kiro.dev\n"@),
        contains(on@, "127.0.0.1\tq.us-east-1.amazonaws.com\n"@),
        contains(on@, "::1\tq.us-east-1.amazonaws.com\n"@),
        contains(on@, "127.0.0.1\tcodewhisperer.us-east-1.amazonaws.com\n"@),
        contains(on@, "::1\tcodewhisperer.us-east-1.amazonaws.com\n"@),
        forall|t: &str|
            t@ == on@ && #[trigger] call_ensures(restored, (t,), off) ==> off@ == existing@,
{
    let names = hosts_of(Tool::Kiro);
    law_restoring_undoes_redirecting(existing@);
    hosts::law_strip_leaves_no_block(existing@);
    let base = existing@;
    let all = applied(base, names);
    let above = if base.len() == 0 {
        hosts::BEGIN@ + seq!['\n'] + hosts::NOTE@ + seq!['\n']
    } else {
        base + seq!['\n'] + hosts::BEGIN@ + seq!['\n'] + hosts::NOTE@ + seq!['\n']
    };
    let lines = hosts::host_lines(names);
    let below = hosts::END@ + seq!['\n'];
    assert(all =~= above + lines + below);
    assert(base =~= all.take(base.len() as int));
    assert forall|i: int| 0 <= i < 3 implies contains(
        all,
        "127.0.0.1\t"@ + #[trigger] names[i] + seq!['\n'],
    ) && contains(all, "::1\t"@ + names[i] + seq!['\n']) by {
        lemma_mapped(above, names, below, i);
    }
    lemma_literals();
}

/// A host that is among those that are mapped has its two lines in the file.
proof fn lemma_mapped(above: Seq<char>, names: Seq<Seq<char>>, below: Seq<char>, i: int)
    requires
        0 <= i < names.len(),
    ensures
        contains(
            above + hosts::host_lines(names) + below,
            "127.0.0.1\t"@ + names[i] + seq!['\n'],
        ),
        contains(above + hosts::host_lines(names) + below, "::1\t"@ + names[i] + seq!['\n']),
{
    let one = seq![names[i]];
    let front = names.take(i);
    let back = names.skip(i + 1);
    hosts::law_each_host_is_mapped_to_both_loopbacks(front, one);
    hosts::law_each_host_is_mapped_to_both_loopbacks(front + one, back);
    assert(front + one + back =~= names);
    reveal_strlit("\n");
    assert("\n"@ =~= seq!['\n']);
    let p = "127.0.0.1\t"@ + names[i] + seq!['\n'];
    let q = "::1\t"@ + names[i] + seq!['\n'];
    let lines = hosts::host_lines(one);
    assert(lines =~= p + q);
    let s = above + hosts::host_lines(names) + below;
    let at = (above + hosts::host_lines(front)).len() as int;
    assert(s.subrange(at, at + p.len()) =~= p);
    assert(s.subrange(at + p.len(), at + p.len() + q.len()) =~= q);
    assert(occurs_at(s, p, at));
    assert(occurs_at(s, q, at + p.len()));
}

proof fn lemma_literals()
    ensures
        "127.0.0.1\t"@ + "runtime.us-east-1.kiro.dev"@ + seq!['\n']
            == "127.0.0.1\truntime.us-east-1.kiro.dev\n"@,
        "::1\t"@ + "runtime.us-east-1.kiro.dev"@ + seq!['\n']
            == "::1\truntime.us-east-1.kiro.dev\n"@,
        "127.0.0.1\t"@ + "q.us-east-1.amazonaws.com"@ + seq!['\n']
            == "127.0.0.1\tq.us-east-1.amazonaws.com\n"@,
        "::1\t"@ + "q.us-east-1.amazonaws.com"@ + seq!['\n']
            == "::1\tq.us-east-1.amazonaws.com\n"@,
        "127.0.0.1\t"@ + "codewhisperer.us-east-1.amazonaws.com"@ + seq!['\n']
            == "127.0.0.1\tcodewhisperer.us-east-1.amazonaws.com\n"@,
        "::1\t"@ + "codewhisperer.us-east-1.amazonaws.com"@ + seq!['\n']
            == "::1\tcodewhisperer.us-east-1.amazonaws.com\n"@,
{
    reveal_strlit("127.0.0.1\t");
    reveal_strlit("::1\t");
    reveal_strlit("runtime.us-east-1.kiro.dev");
    reveal_strlit("q.us-east-1.amazonaws.com");
    reveal_strlit("codewhisperer.us-east-1.amazonaws.com");
    reveal_strlit("127.0.0.1\truntime.us-east-1.kiro.dev\n");
    reveal_strlit("::1\truntime.us-east-1.kiro.dev\n");
    reveal_strlit("127.0.0.1\tq.us-east-1.amazonaws.com\n");
    reveal_strlit("::1\tq.us-east-1.amazonaws.com\n");
    reveal_strlit("127.0.0.1\tcodewhisperer.us-east-1.amazonaws.com\n");
    reveal_strlit("::1\tcodewhisperer.us-east-1.amazonaws.com\n");
    assert("127.0.0.1\t"@ + "runtime.us-east-1.kiro.dev"@ + seq!['\n']
        =~= "127.0.0.1\truntime.us-east-1.kiro.dev\n"@);
    assert("::1\t"@ + "runtime.us-east-1.kiro.dev"@ + seq!['\n']
        =~= "::1\truntime.us-east-1.kiro.dev\n"@);
    assert("127.0.0.1\t"@ + "q.us-east-1.amazonaws.com"@ + seq!['\n']
        =~= "127.0.0.1\tq.us-east-1.amazonaws.com\n"@);
    assert("::1\t"@ + "q.us-east-1.amazonaws.com"@ + seq!['\n']
        =~= "::1\tq.us-east-1.amazonaws.com\n"@);
    assert("127.0.0.1\t"@ + "codewhisperer.us-east-1.amazonaws.com"@ + seq!['\n']
        =~= "127.0.0.1\tcodewhisperer.us-east-1.amazonaws.com\n"@);
    assert("::1\t"@ + "codewhisperer.us-east-1.amazonaws.com"@ + seq!['\n']
        =~= "::1\tcodewhisperer.us-east-1.amazonaws.com\n"@);
}

proof fn lemma_astray(resolutions: Seq<Resolution>, n: nat)
    requires
        n <= resolutions.len(),
    ensures
        astray(resolutions, n) == resolutions.take(n as int).filter(
            |r: Resolution| !leads_here(r.addresses),
        ).map_values(|r: Resolution| r.host@),
    decreases n,
{
    reveal(Seq::filter);
    let away = |r: Resolution| !leads_here(r.addresses);
    let name = |r: Resolution| r.host@;
    if n > 0 {
        lemma_astray(resolutions, (n - 1) as nat);
        assert(resolutions.take(n as int).drop_last() =~= resolutions.take(n - 1));
        let before = resolutions.take(n - 1).filter(away);
        let r = resolutions[n - 1];
        if away(r) {
            assert(before.push(r).map_values(name) =~= before.map_values(name).push(r.host@));
        }
    } else {
        assert(resolutions.take(0) =~= seq![]);
        assert(resolutions.take(0).filter(away).map_values(name) =~= seq![]);
    }
}

/// A host is reported, in its place, exactly where the resolver gives it an address of another
/// machine: one such address is enough, and no answer at all is none.
pub proof fn law_hosts_that_go_astray_are_reported(resolutions: &[Resolution], r: Vec<String>)
    requires
        call_ensures(hosts_not_hijacked, (resolutions,), r),
    ensures
        texts(r@) == resolutions@.filter(
            |r: Resolution| !leads_here(r.addresses),
        ).map_values(|r: Resolution| r.host@),
        forall|a: Option<Vec<IpAddress>>, b: bool|
            #[trigger] call_ensures(resolves_to_loopback, (&a,), b) ==> (!b <==> a is Some
                && exists|i: int|
                0 <= i < a->0@.len() && match #[trigger] a->0@[i] {
                    IpAddress::V4(octets) => octets@[0] != 127,
                    IpAddress::V6(groups) => groups@ != seq![0u16, 0, 0, 0, 0, 0, 0, 1],
                }),
{
    lemma_astray(resolutions@, resolutions@.len());
    assert(resolutions@.take(resolutions@.len() as int) =~= resolutions@);
    assert forall|a: Option<Vec<IpAddress>>, b: bool|
        #[trigger] call_ensures(resolves_to_loopback, (&a,), b) implies (!b <==> a is Some
            && exists|i: int|
            0 <= i < a->0@.len() && match #[trigger] a->0@[i] {
                IpAddress::V4(octets) => octets@[0] != 127,
                IpAddress::V6(groups) => groups@ != seq![0u16, 0, 0, 0, 0, 0, 0, 1],
            }) by {
        if let Some(list) = a {
            assert forall|i: int| 0 <= i < list@.len() implies loops_back(#[trigger] list@[i])
                == match list@[i] {
                IpAddress::V4(octets) => octets@[0] == 127,
                IpAddress::V6(groups) => groups@ == seq![0u16, 0, 0, 0, 0, 0, 0, 1],
            } by {
                if let IpAddress::V6(groups) = list@[i] {
                    if loops_back(list@[i]) {
                        assert(groups@ =~= seq![0u16, 0, 0, 0, 0, 0, 0, 1]);
                    } else if groups@ == seq![0u16, 0, 0, 0, 0, 0, 0, 1] {
                        assert(groups@[7] == 1);
                    }
                }
            }
        }
    }
}

/// To turn interception on publishes the root to Node clients, installs the staged hosts file and
/// drops the resolver's cache, in that order; to turn it off installs the hosts file and drops the
/// cache; and to uninstall does that and then removes the root and withdraws it from Node clients.
pub proof fn law_batches_do_what_they_are_for(
    platform: Platform,
    data_dir: &str,
    fingerprint: &str,
    on: Vec<PrivOp>,
    off: Vec<PrivOp>,
    gone: Vec<PrivOp>,
)
    requires
        call_ensures(enable_ops, (platform, data_dir), on),
        call_ensures(disable_ops, (platform, data_dir), off),
        call_ensures(uninstall_ops, (platform, data_dir, fingerprint), gone),
    ensures
        ({
            let hosts_file = if platform == Platform::Windows {
                "C:\\Windows\\System32\\drivers\\etc\\hosts"@
            } else {
                "/etc/hosts"@
            };
            let staged = join_path(platform, data_dir@, "hosts.staged"@);
            let root = join_path(
                platform,
                join_path(platform, data_dir@, "cert"@),
                "rootCA.crt"@,
            );
            &&& on@.len() == 3
            &&& on@[0] is SetNodeCaEnv && on@[0]->SetNodeCaEnv_cert@ == root
            &&& on@[1] is InstallHosts && on@[1]->InstallHosts_staged@ == staged
                && on@[1]->InstallHosts_target@ == hosts_file
            &&& on@[2] is FlushDns
            &&& off@.len() == 2
            &&& off@[0] is InstallHosts && off@[0]->InstallHosts_staged@ == staged
                && off@[0]->InstallHosts_target@ == hosts_file
            &&& off@[1] is FlushDns
            &&& gone@.len() == 4
            &&& gone@[0] is InstallHosts && gone@[0]->InstallHosts_staged@ == staged
                && gone@[0]->InstallHosts_target@ == hosts_file
            &&& gone@[1] is FlushDns
            &&& gone@[2] is RemoveCa && gone@[2]->RemoveCa_cn@ == "9rai MITM Root CA"@
                && gone@[2]->RemoveCa_fingerprint@ == fingerprint@
            &&& gone@[3] is UnsetNodeCaEnv
        }),
{
    assert(gone@.take(2)[0] == gone@[0]);
    assert(gone@.take(2)[1] == gone@[1]);
}

/// Turning interception on or off never writes to the trust store, and turning it off leaves Node
/// clients trusting the root.
pub proof fn law_switching_leaves_trust_alone(
    platform: Platform,
    cert: Seq<char>,
    staged: Seq<char>,
    ops: Seq<PrivOp>,
)
    requires
        enables(ops, platform, cert, staged) || disables(ops, platform, staged),
    ensures
        forall|i: int|
            0 <= i < ops.len() ==> !writes_trust(#[trigger] ops[i]) && !(ops[i] is UnsetNodeCaEnv),
{
}

/// The new hosts file is staged in the data directory, and enabling tells Node-based clients of the
/// root, puts the staged file in place and makes the resolver forget, in this order.
pub proof fn law_enabling_installs_what_was_staged(
    platform: Platform,
    data_dir: &str,
    path: String,
    cert: &str,
    staged: &str,
    ops: Vec<PrivOp>,
    existing: &str,
    redirected: bool,
)
    requires
        call_ensures(staged_path, (platform, data_dir), path),
        call_ensures(enable_ops_for, (platform, cert, staged), ops),
        call_ensures(hosts_are_redirected, (existing,), redirected),
    ensures
        path@ == join_path(platform, data_dir@, "hosts.staged"@),
        ops@.len() == 3,
        ops@[0] is SetNodeCaEnv && ops@[0]->SetNodeCaEnv_cert@ == cert@,
        ops@[1] is InstallHosts && ops@[1]->staged@ == staged@,
        platform == Platform::Windows ==> ops@[1]->target@
            == "C:\\Windows\\System32\\drivers\\etc\\hosts"@,
        platform != Platform::Windows ==> ops@[1]->target@ == "/etc/hosts"@,
        ops@[2] is FlushDns,
        redirected <==> contains(existing@, hosts::BEGIN@),
{
}

} // verus!
