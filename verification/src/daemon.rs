//! What the daemon decides on its way up: whether it may start, how the root gets trusted, and
//! whether the system resolver honours the hosts file.

use vstd::prelude::*;
use vstd::string::*;

use crate::appconfig::AppConfig;
use crate::cert::trust;
use crate::platform::Platform;
use crate::privilege::PrivOp;
use crate::text::{contains, join, joined, occurs_at, texts, trim, trimmed};
use crate::utf8::{from_utf8_lossy, utf8_lossy};

verus! {

/// How often the resolver is asked again after it was restarted.
pub const RESOLVER_CHECKS: u32 = 20;

/// Refuse to start without a provider key, or with nothing mapped.
pub fn daemon_gate(config: &AppConfig) -> (r: Result<(), String>)
    ensures
        match r {
            Ok(_) => config.provider.api_key@.len() > 0 && (config.mappings.models@.len() > 0
                || config.mappings.default is Some),
            Err(why) => if config.provider.api_key@.len() == 0 {
                why@ == "no provider configured — run `9rai config set-provider` first"@
            } else {
                config.mappings.models@.len() == 0 && config.mappings.default is None && why@
                    == "no model mappings — run `9rai config map` first"@
            },
        },
{
    if config.provider.api_key.as_str().is_empty() {
        return Err("no provider configured — run `9rai config set-provider` first".to_string());
    }
    if config.mappings.is_empty() {
        return Err("no model mappings — run `9rai config map` first".to_string());
    }
    Ok(())
}

// ── Trusting the root ────────────────────────────────────────────────────────

/// What to do about the trust store.
#[derive(Debug)]
pub enum TrustStep {
    /// Leave it to the desktop session.
    Leave,
    /// Ask whether the root is trusted.
    Probe,
    /// Nothing is left to do.
    Done,
    /// Install the root, whether or not that succeeds, and ask again.
    Install { op: PrivOp },
    /// Tell the user what would help.
    Remedy { command: String },
}

/// Begin with the trust store.
///
/// macOS trust settings are per-user, and a process that is root on someone else's behalf cannot
/// see them: it would report a trusted machine as untrusted, and its only remedy is the one write
/// that a session without an authorization prompt can never perform. That is left to the session
/// that can.
pub fn trust_begin(gui_user_uid: Option<u32>) -> (r: TrustStep)
    ensures
        r == if gui_user_uid is Some {
            TrustStep::Leave
        } else {
            TrustStep::Probe
        },
{
    match gui_user_uid {
        Some(_) => TrustStep::Leave,
        None => TrustStep::Probe,
    }
}

/// What a user is told who has to trust the root by hand.
pub open spec fn remedy(platform: Platform, cert_path: Seq<char>) -> Seq<char> {
    if platform == Platform::MacOs {
        "security add-trusted-cert -r trustRoot \""@ + cert_path + "\""@
    } else {
        "install "@ + cert_path + " into the system trust store manually"@
    }
}

/// Go on from the answer whether the root is trusted; `installed` says that installing it was tried
/// already. It is tried once, and a failure is told and never fatal: a machine whose trust store
/// could not be written still serves every client that reads `NODE_EXTRA_CA_CERTS`.
pub fn trust_probed(
    platform: Platform,
    trusted: bool,
    installed: bool,
    cert_path: Option<&str>,
) -> (r: TrustStep)
    ensures
        if trusted || cert_path is None {
            r is Done
        } else if installed {
            r is Remedy && r->Remedy_command@ == remedy(platform, cert_path->0@)
        } else {
            r is Install && r->Install_op is InstallCa && r->Install_op->InstallCa_cert@
                == cert_path->0@
        },
{
    if trusted {
        return TrustStep::Done;
    }
    match cert_path {
        Some(cert) => if installed {
            TrustStep::Remedy { command: trust::manual_trust_command(platform, cert) }
        } else {
            TrustStep::Install { op: PrivOp::InstallCa { cert: cert.to_string() } }
        },
        None => TrustStep::Done,
    }
}

/// What running a command without a terminal came to.
#[derive(Debug)]
pub enum Ran {
    /// It could not be run, and why.
    NotRun(String),
    Exited { success: bool, stderr: Vec<u8> },
}

/// What the log says of a command that was to trust the root for the user, if it failed.
pub fn install_note(program: &str, ran: &Ran) -> (r: Option<String>)
    ensures
        match ran {
            Ran::NotRun(why) => r is Some && r->0@ == "could not run "@ + program@ + ": "@ + why@,
            Ran::Exited { success, stderr } => if *success {
                r is None
            } else {
                r is Some && r->0@ == "trusting the root CA failed: "@ + trim(
                    utf8_lossy(stderr@),
                )
            },
        },
{
    match ran {
        Ran::NotRun(why) => {
            let mut text = "could not run ".to_string();
            text.push_str(program);
            text.push_str(": ");
            text.push_str(why.as_str());
            Some(text)
        },
        Ran::Exited { success, stderr } => {
            if *success {
                None
            } else {
                let mut text = "trusting the root CA failed: ".to_string();
                let said = from_utf8_lossy(stderr.as_slice());
                text.push_str(trimmed(said.as_str()).as_str());
                Some(text)
            }
        },
    }
}

/// What the log says in the end of the attempt to trust the root for the user.
pub fn trust_notes(platform: Platform, trusted: bool, cert_path: &str) -> (r: Vec<String>)
    ensures
        texts(r@) == if trusted {
            seq!["the system now trusts our root CA"@]
        } else {
            seq![
                "the system trust store does not trust our root — clients that use it (Chromium, and with it the IDE's non-Node requests) will reject our certificates"@,
                "run this in a terminal to fix it: "@ + remedy(platform, cert_path@),
            ]
        },
{
    if trusted {
        let r = vec!["the system now trusts our root CA".to_string()];
        assert(texts(r@) =~= seq!["the system now trusts our root CA"@]);
        r
    } else {
        let mut fix = "run this in a terminal to fix it: ".to_string();
        fix.push_str(trust::manual_trust_command(platform, cert_path).as_str());
        let r = vec![
            "the system trust store does not trust our root — clients that use it (Chromium, and with it the IDE's non-Node requests) will reject our certificates".to_string(),
            fix,
        ];
        assert(texts(r@) =~= seq![
            "the system trust store does not trust our root — clients that use it (Chromium, and with it the IDE's non-Node requests) will reject our certificates"@,
            "run this in a terminal to fix it: "@ + remedy(platform, cert_path@),
        ]);
        r
    }
}

// ── The resolver ─────────────────────────────────────────────────────────────

/// What to do about the system resolver.
#[derive(Debug)]
pub enum ResolverStep {
    /// Every host leads here.
    Settled,
    /// Restart it, and ask again.
    Reload,
    /// Give it a moment, and ask again.
    Wait,
    /// It cannot be made to: restore the hosts file and fail.
    GiveUp { why: String },
}

/// Why a start is given up over the resolver.
pub open spec fn resolver_failure(stale: Seq<Seq<char>>) -> Seq<char> {
    "the hosts file was applied, but the system resolver still sends "@ + join(stale, ", "@)
        + " to the real service — the IDE would never reach this proxy"@
}

/// What to do about the system resolver, which does not send the `stale` hosts here, after it was
/// asked `checks` times since it was restarted. It is restarted once, and asked again rather than
/// waited for by a fixed delay.
pub fn resolver_next(checks: Option<u32>, stale: &[String]) -> (r: ResolverStep)
    ensures
        match checks {
            None => if stale@.len() == 0 {
                r is Settled
            } else {
                r is Reload
            },
            Some(n) => if n >= RESOLVER_CHECKS {
                r is GiveUp && r->GiveUp_why@ == resolver_failure(texts(stale@))
            } else if stale@.len() == 0 {
                r is Settled
            } else {
                r is Wait
            },
        },
{
    match checks {
        None => if stale.len() == 0 {
            ResolverStep::Settled
        } else {
            ResolverStep::Reload
        },
        Some(n) => if n >= RESOLVER_CHECKS {
            let mut why =
                "the hosts file was applied, but the system resolver still sends ".to_string();
            why.push_str(joined(stale, ", ").as_str());
            why.push_str(" to the real service — the IDE would never reach this proxy");
            ResolverStep::GiveUp { why }
        } else if stale.len() == 0 {
            ResolverStep::Settled
        } else {
            ResolverStep::Wait
        },
    }
}

// ── The run ──────────────────────────────────────────────────────────────────

/// Where a run of the daemon stands: what it has to do next.
#[derive(Debug, Clone, Copy, PartialEq, Eq, Structural)]
pub enum DaemonStep {
    /// Get the root trusted, as far as that goes.
    Trust,
    /// Run the privileged batch that enables interception.
    Enable,
    /// See to it that the system resolver honours the hosts file.
    Resolve,
    /// Serve until told to stop.
    Serve,
    /// Run the privileged batch that restores the hosts file.
    Restore,
    /// Nothing is left to do.
    Ended,
}

/// What comes after a step. A batch that could not be enabled has changed nothing; whatever else
/// happens once it was, the hosts file is restored before the run ends.
pub open spec fn step_after(step: DaemonStep, failed: bool) -> DaemonStep {
    match step {
        DaemonStep::Trust => DaemonStep::Enable,
        DaemonStep::Enable => if failed {
            DaemonStep::Ended
        } else {
            DaemonStep::Resolve
        },
        DaemonStep::Resolve => if failed {
            DaemonStep::Restore
        } else {
            DaemonStep::Serve
        },
        DaemonStep::Serve => DaemonStep::Restore,
        DaemonStep::Restore => DaemonStep::Ended,
        DaemonStep::Ended => DaemonStep::Ended,
    }
}

/// The failure that a run ends with: the one that ended it, unless restoring could not even be
/// tried, and the last one of these. The trust store is no reason to fail.
pub open spec fn failure_after(
    step: DaemonStep,
    before: Option<String>,
    failure: Option<String>,
) -> Option<String> {
    if failure is Some && step != DaemonStep::Trust && step != DaemonStep::Ended {
        failure
    } else {
        before
    }
}

/// A run of the daemon.
#[derive(Debug)]
pub struct DaemonRun {
    pub step: DaemonStep,
    /// The failure that the run ends with, as it stands.
    pub failure: Option<String>,
}

impl DaemonRun {
    pub fn new() -> (r: Self)
        ensures
            r.step == DaemonStep::Trust,
            r.failure is None,
    {
        DaemonRun { step: DaemonStep::Trust, failure: None }
    }

    /// The step was taken, and failed or not.
    pub fn advance(&mut self, failure: Option<String>)
        ensures
            final(self).step == step_after(old(self).step, failure is Some),
            final(self).failure == failure_after(old(self).step, old(self).failure, failure),
    {
        let failed = failure.is_some();
        let counts = match self.step {
            DaemonStep::Trust => false,
            DaemonStep::Ended => false,
            _ => true,
        };
        if failed && counts {
            self.failure = failure;
        }
        self.step = match self.step {
            DaemonStep::Trust => DaemonStep::Enable,
            DaemonStep::Enable => if failed {
                DaemonStep::Ended
            } else {
                DaemonStep::Resolve
            },
            DaemonStep::Resolve => if failed {
                DaemonStep::Restore
            } else {
                DaemonStep::Serve
            },
            DaemonStep::Serve => DaemonStep::Restore,
            DaemonStep::Restore => DaemonStep::Ended,
            DaemonStep::Ended => DaemonStep::Ended,
        };
    }
}

// ── Laws ─────────────────────────────────────────────────────────────────────

/// The hosts file is redirected, as far as the run knows.
pub open spec fn redirects(step: DaemonStep) -> bool {
    step == DaemonStep::Resolve || step == DaemonStep::Serve || step == DaemonStep::Restore
}

/// A run that has redirected the hosts file ends only through restoring it, whatever fails.
pub proof fn law_hosts_are_restored_before_the_end(step: DaemonStep, failed: bool)
    ensures
        redirects(step) && step != DaemonStep::Restore ==> redirects(step_after(step, failed)),
        step_after(step, failed) == DaemonStep::Ended ==> !redirects(step) || step
            == DaemonStep::Restore,
        step == DaemonStep::Enable && !failed ==> redirects(step_after(step, failed)),
{
}

/// The daemon starts exactly where there is a key and something is mapped, by an entry or by the
/// fallback, and says what is missing otherwise.
pub proof fn law_nothing_starts_half_configured(config: &AppConfig, r: Result<(), String>)
    requires
        call_ensures(daemon_gate, (config,), r),
    ensures
        r is Ok <==> config.provider.api_key@.len() > 0 && (config.mappings.models@.len() > 0
            || config.mappings.default is Some),
        r is Err && config.provider.api_key@.len() == 0 ==> r->Err_0@
            == "no provider configured — run `9rai config set-provider` first"@,
        r is Err && config.provider.api_key@.len() > 0 ==> r->Err_0@
            == "no model mappings — run `9rai config map` first"@,
{
}

/// The trust store is touched at most once, and only where the root is not trusted yet and the
/// process acts for itself; the user is told what would help only after that failed, and of the very
/// certificate.
pub proof fn law_the_root_is_installed_at_most_once(
    platform: Platform,
    uid: Option<u32>,
    trusted: bool,
    cert: &str,
    begun: TrustStep,
    first: TrustStep,
    second: TrustStep,
    nowhere: TrustStep,
)
    requires
        call_ensures(trust_begin, (uid,), begun),
        call_ensures(trust_probed, (platform, trusted, false, Some(cert)), first),
        call_ensures(trust_probed, (platform, trusted, true, Some(cert)), second),
        call_ensures(trust_probed, (platform, trusted, true, None::<&str>), nowhere),
    ensures
        begun is Leave <==> uid is Some,
        begun is Probe <==> uid is None,
        trusted ==> first is Done && second is Done,
        !trusted ==> first is Install && first->Install_op is InstallCa
            && first->Install_op->InstallCa_cert@ == cert@,
        !trusted ==> second is Remedy && crate::text::contains(second->Remedy_command@, cert@),
        nowhere is Done,
{
    if !trusted {
        let r = second->Remedy_command@;
        reveal_strlit("security add-trusted-cert -r trustRoot \"");
        reveal_strlit("install ");
        let at: int = if platform == Platform::MacOs {
            "security add-trusted-cert -r trustRoot \""@.len() as int
        } else {
            "install "@.len() as int
        };
        assert(r.subrange(at, at + cert@.len()) =~= cert@);
        assert(crate::text::occurs_at(r, cert@, at));
    }
}

/// A resolver that sends every host here is left alone; one that does not is restarted, once, and
/// asked again up to twenty times before the start is given up, in words that name every host that
/// goes astray.
pub proof fn law_the_resolver_gets_its_chance(
    n: u32,
    stale: &[String],
    first: ResolverStep,
    later: ResolverStep,
)
    requires
        call_ensures(resolver_next, (None::<u32>, stale), first),
        call_ensures(resolver_next, (Some(n), stale), later),
    ensures
        stale@.len() == 0 ==> first is Settled,
        stale@.len() > 0 ==> first is Reload,
        n < 20 && stale@.len() == 0 ==> later is Settled,
        n < 20 && stale@.len() > 0 ==> later is Wait,
        n >= 20 ==> later is GiveUp && crate::text::contains(
            later->GiveUp_why@,
            join(texts(stale@), ", "@),
        ),
{
    if n >= 20 {
        let r = later->GiveUp_why@;
        let front = "the hosts file was applied, but the system resolver still sends "@;
        let names = join(texts(stale@), ", "@);
        let at = front.len() as int;
        assert(r.subrange(at, at + names.len()) =~= names);
        assert(crate::text::occurs_at(r, names, at));
    }
}

/// A run goes its way step by step: the root is trusted as far as that goes, then interception is
/// turned on, the resolver is seen to, and the daemon serves. Where turning it on failed nothing is
/// left to do; in every other case the hosts file is restored before the end.
pub proof fn law_runs_go_their_way(run: &mut DaemonRun, failure: Option<String>)
    requires
        call_ensures(DaemonRun::advance, (run, failure), ()),
    ensures
        ({
            let failed = failure is Some;
            match old(run).step {
                DaemonStep::Trust => final(run).step == DaemonStep::Enable,
                DaemonStep::Enable => final(run).step == if failed {
                    DaemonStep::Ended
                } else {
                    DaemonStep::Resolve
                },
                DaemonStep::Resolve => final(run).step == if failed {
                    DaemonStep::Restore
                } else {
                    DaemonStep::Serve
                },
                DaemonStep::Serve => final(run).step == DaemonStep::Restore,
                DaemonStep::Restore => final(run).step == DaemonStep::Ended,
                DaemonStep::Ended => final(run).step == DaemonStep::Ended,
            }
        }),
        failure is None ==> final(run).failure == old(run).failure,
        failure is Some && old(run).step != DaemonStep::Trust && old(run).step
            != DaemonStep::Ended ==> final(run).failure == failure,
        old(run).step == DaemonStep::Trust ==> final(run).failure == old(run).failure,
{
}

/// What the log says of an attempt to trust the root: nothing where it succeeded, and else what went
/// wrong, in the words of the command.
pub proof fn law_failed_attempts_are_told(
    program: &str,
    said: Seq<char>,
    ran: &Ran,
    r: Option<String>,
)
    requires
        call_ensures(install_note, (program, ran), r),
        match *ran {
            Ran::NotRun(why) => said == why@,
            Ran::Exited { stderr, .. } => stderr@ == vstd::utf8::encode_utf8(said) && said == trim(
                said,
            ),
        },
    ensures
        r is None <==> *ran is Exited && ran->success,
        r is Some ==> r->0@.len() >= said.len() && r->0@.skip(r->0@.len() - said.len()) == said,
{
    crate::utf8::law_encoded_text_reads_back(said);
    if r is Some {
        assert(r->0@.skip(r->0@.len() - said.len()) =~= said);
    }
}

/// A user whose system does not trust the root is told so and what to do; one whose system does is
/// told that.
pub proof fn law_trust_is_told(platform: Platform, trusted: bool, cert_path: &str, r: Vec<String>)
    requires
        call_ensures(trust_notes, (platform, trusted, cert_path), r),
    ensures
        trusted ==> texts(r@) == seq!["the system now trusts our root CA"@],
        !trusted ==> r@.len() == 2 && contains(r@[1]@, cert_path@),
{
    if !trusted {
        let all = texts(r@);
        assert(all.len() == 2);
        let text = all[1];
        let way = remedy(platform, cert_path@);
        let start = "run this in a terminal to fix it: "@;
        let front = if platform == Platform::MacOs {
            start + "security add-trusted-cert -r trustRoot \""@
        } else {
            start + "install "@
        };
        let end = (front.len() + cert_path@.len()) as int;
        assert(text =~= start + way);
        assert(text.subrange(front.len() as int, end) =~= cert_path@);
        assert(occurs_at(text, cert_path@, front.len() as int));
        assert(r@[1]@ == text);
    }
}

} // verus!
