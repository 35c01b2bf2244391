//! Privileged operations and how they are rendered to OS commands.
//!
//! Every privileged action is a [`PrivOp`] value, rendered to concrete argv by pure functions
//! ([`render_unix`] / [`render_windows`]). A whole batch is elevated **once**: one auth dialog on
//! macOS, one UAC prompt on Windows. The user's password is never captured, stored, or
//! transported.

use vstd::prelude::*;
use vstd::string::*;

use crate::cert::gen::ROOT_CN;
use crate::cert::trust;
use crate::cert::trust::{
    launchctl_commands, unix_flush_commands, unix_install_commands, unix_reload_commands,
    unix_remove_commands, windows_flush_commands, windows_install_commands, windows_reload_commands,
    windows_remove_commands, windows_set_node_ca_commands, windows_unset_node_ca_commands,
    NODE_CA_VAR,
};
pub use crate::command::Argv;
use crate::command::{command_seq, shown, Command};
use crate::error::Error;
use crate::paths;
use crate::paths::{hosts_path, join_path, parts, path_under, root_cert_path, same_path};
use crate::platform::Platform;
use crate::text::{contains, join, occurs_at, same, strs};

verus! {

/// One privileged step. File contents are staged to a temp path by the unprivileged caller, so
/// the privileged batch only ever copies a prepared file into place and never edits in place.
#[derive(Debug)]
pub enum PrivOp {
    /// Replace the hosts file with the already-rendered contents at `staged`.
    InstallHosts { staged: String, target: String },
    /// Trust the root CA whose PEM is at `cert`.
    InstallCa { cert: String },
    /// Untrust the root CA identified by common name and SHA-1 fingerprint.
    RemoveCa { cn: String, fingerprint: String },
    /// Drop the OS DNS cache so the hosts change takes effect immediately.
    FlushDns,
    /// Force the system resolver to re-read the hosts file. Stronger (and more disruptive) than
    /// [`PrivOp::FlushDns`]; used only when a flush demonstrably was not enough.
    ReloadResolver,
    /// Publish `NODE_EXTRA_CA_CERTS` into the desktop session so Node-based clients trust the
    /// root; they ignore the OS trust store.
    SetNodeCaEnv { cert: String },
    /// Withdraw it again, so nothing keeps trusting a root that is no longer in use.
    UnsetNodeCaEnv,
}

impl Clone for PrivOp {
    fn clone(&self) -> (r: Self)
        ensures
            r == *self,
    {
        match self {
            PrivOp::InstallHosts { staged, target } => PrivOp::InstallHosts {
                staged: staged.clone(),
                target: target.clone(),
            },
            PrivOp::InstallCa { cert } => PrivOp::InstallCa { cert: cert.clone() },
            PrivOp::RemoveCa { cn, fingerprint } => PrivOp::RemoveCa {
                cn: cn.clone(),
                fingerprint: fingerprint.clone(),
            },
            PrivOp::FlushDns => PrivOp::FlushDns,
            PrivOp::ReloadResolver => PrivOp::ReloadResolver,
            PrivOp::SetNodeCaEnv { cert } => PrivOp::SetNodeCaEnv { cert: cert.clone() },
            PrivOp::UnsetNodeCaEnv => PrivOp::UnsetNodeCaEnv,
        }
    }
}

// ── Rendering ────────────────────────────────────────────────────────────────

/// The commands of one step on macOS or another Unix.
pub open spec fn unix_commands(platform: Platform, uid: Option<u32>, op: PrivOp) -> Seq<Command> {
    match op {
        PrivOp::InstallHosts { staged, target } => seq![
            (seq!["cp"@, staged@, target@], false),
            (seq!["chmod"@, "644"@, target@], false),
        ],
        PrivOp::InstallCa { cert } => unix_install_commands(cert@),
        PrivOp::RemoveCa { fingerprint, .. } => unix_remove_commands(fingerprint@),
        PrivOp::FlushDns => unix_flush_commands(platform),
        PrivOp::ReloadResolver => unix_reload_commands(platform),
        PrivOp::SetNodeCaEnv { cert } => launchctl_commands(
            platform,
            uid,
            seq!["setenv"@, NODE_CA_VAR@, cert@],
        ),
        PrivOp::UnsetNodeCaEnv => launchctl_commands(
            platform,
            uid,
            seq!["unsetenv"@, NODE_CA_VAR@],
        ),
    }
}

/// The commands of one step on Windows, which reads the hosts file for each lookup, so that a
/// flush of the cache is all that a reload takes.
pub open spec fn windows_commands(op: PrivOp) -> Seq<Command> {
    match op {
        PrivOp::InstallHosts { staged, target } => seq![
            (seq!["cmd"@, "/C"@, "copy"@, "/Y"@, staged@, target@], false),
        ],
        PrivOp::InstallCa { cert } => windows_install_commands(cert@),
        PrivOp::RemoveCa { cn, .. } => windows_remove_commands(cn@),
        PrivOp::FlushDns => windows_flush_commands(),
        PrivOp::ReloadResolver => windows_reload_commands(),
        PrivOp::SetNodeCaEnv { cert } => windows_set_node_ca_commands(cert@),
        PrivOp::UnsetNodeCaEnv => windows_unset_node_ca_commands(),
    }
}

/// The commands of one step.
pub open spec fn op_commands(platform: Platform, uid: Option<u32>, op: PrivOp) -> Seq<Command> {
    if platform == Platform::Windows {
        windows_commands(op)
    } else {
        unix_commands(platform, uid, op)
    }
}

/// The commands of the first `n` steps of a batch.
pub open spec fn batch_commands(
    platform: Platform,
    uid: Option<u32>,
    ops: Seq<PrivOp>,
    n: nat,
) -> Seq<Command>
    decreases n,
{
    if n == 0 {
        seq![]
    } else {
        batch_commands(platform, uid, ops, (n - 1) as nat) + op_commands(platform, uid, ops[n - 1])
    }
}

/// Render one op to the macOS/Unix commands that carry it out.
pub fn render_unix(platform: Platform, gui_user_uid: Option<u32>, op: &PrivOp) -> (r: Vec<Argv>)
    ensures
        command_seq(r@) == unix_commands(platform, gui_user_uid, *op),
{
    match op {
        PrivOp::InstallHosts { staged, target } => {
            let copy = ["cp", staged.as_str(), target.as_str()];
            let mode = ["chmod", "644", target.as_str()];
            let r = vec![Argv::new(&copy), Argv::new(&mode)];
            proof {
                let want = unix_commands(platform, gui_user_uid, *op);
                assert(strs(copy@) =~= want[0].0);
                assert(strs(mode@) =~= want[1].0);
                assert(command_seq(r@) =~= want);
            }
            r
        },
        PrivOp::InstallCa { cert } => trust::unix_install(cert.as_str()),
        PrivOp::RemoveCa { fingerprint, .. } => trust::unix_remove(fingerprint.as_str()),
        PrivOp::FlushDns => trust::unix_flush_dns(platform),
        PrivOp::ReloadResolver => trust::unix_reload_resolver(platform),
        PrivOp::SetNodeCaEnv { cert } => trust::unix_set_node_ca(
            platform,
            gui_user_uid,
            cert.as_str(),
        ),
        PrivOp::UnsetNodeCaEnv => trust::unix_unset_node_ca(platform, gui_user_uid),
    }
}

/// Render one op to the Windows commands that carry it out.
pub fn render_windows(op: &PrivOp) -> (r: Vec<Argv>)
    ensures
        command_seq(r@) == windows_commands(*op),
{
    match op {
        PrivOp::InstallHosts { staged, target } => {
            let copy = ["cmd", "/C", "copy", "/Y", staged.as_str(), target.as_str()];
            let r = vec![Argv::new(&copy)];
            proof {
                assert(strs(copy@) =~= windows_commands(*op)[0].0);
                assert(command_seq(r@) =~= windows_commands(*op));
            }
            r
        },
        PrivOp::InstallCa { cert } => trust::windows_install(cert.as_str()),
        PrivOp::RemoveCa { cn, .. } => trust::windows_remove(cn.as_str()),
        PrivOp::FlushDns => trust::windows_flush_dns(),
        PrivOp::ReloadResolver => trust::windows_reload_resolver(),
        PrivOp::SetNodeCaEnv { cert } => trust::windows_set_node_ca(cert.as_str()),
        PrivOp::UnsetNodeCaEnv => trust::windows_unset_node_ca(),
    }
}

/// Render a whole batch to the argv list for the platform.
pub fn render(platform: Platform, gui_user_uid: Option<u32>, ops: &[PrivOp]) -> (r: Vec<Argv>)
    ensures
        command_seq(r@) == batch_commands(platform, gui_user_uid, ops@, ops@.len()),
{
    let mut r: Vec<Argv> = Vec::new();
    let mut i: usize = 0;
    assert(command_seq(r@) =~= seq![]);
    while i < ops.len()
        invariant
            i <= ops@.len(),
            command_seq(r@) == batch_commands(platform, gui_user_uid, ops@, i as nat),
        decreases ops@.len() - i,
    {
        let mut more = if platform == Platform::Windows {
            render_windows(&ops[i])
        } else {
            render_unix(platform, gui_user_uid, &ops[i])
        };
        let ghost before = r@;
        let ghost added = more@;
        r.append(&mut more);
        assert(command_seq(r@) =~= command_seq(before) + command_seq(added));
        i += 1;
    }
    r
}

// ── Validation ───────────────────────────────────────────────────────────────

/// Why a step is refused.
pub ghost enum Refusal {
    /// The data directory cannot be told.
    NoDataDir,
    Because(Seq<char>),
}

/// What Rust's debug format makes of a text.
pub uninterp spec fn debug_text(s: Seq<char>) -> Seq<char>;

/// `format!` with the debug format of a string: the text between quotation marks, with escapes
/// that depend on the text alone, which are named and not described.
#[verifier::external_body]
fn debug_format(s: &str) -> (r: String)
    ensures
        r@ == debug_text(s@),
{
    format!("{s:?}")
}

/// Why a certificate that is not the library's own root is refused.
pub open spec fn foreign_root(
    platform: Platform,
    data_dir: Option<Seq<char>>,
    cert: Seq<char>,
    what: Seq<char>,
) -> Option<Refusal> {
    match data_dir {
        None => Some(Refusal::NoDataDir),
        Some(data) => if parts(platform, cert) == parts(platform, root_cert_path(platform, data)) {
            None
        } else {
            Some(Refusal::Because(what))
        },
    }
}

/// Why a step is refused, if it is: only the hosts file may be written, only from the staged file
/// in the data directory, and only the library's own root may be installed, removed or published.
pub open spec fn refusal(
    platform: Platform,
    data_dir: Option<Seq<char>>,
    op: PrivOp,
) -> Option<Refusal> {
    match op {
        PrivOp::InstallHosts { staged, target } => if parts(platform, target@) != parts(
            platform,
            hosts_path(platform),
        ) {
            Some(Refusal::Because("refusing to write non-hosts target "@ + target@))
        } else {
            match data_dir {
                None => Some(Refusal::NoDataDir),
                Some(data) => {
                    let own = join_path(platform, data, "hosts.staged"@);
                    if !parts(platform, data).is_prefix_of(parts(platform, staged@)) {
                        Some(
                            Refusal::Because(
                                "refusing staged file "@ + staged@ + " outside "@ + data,
                            ),
                        )
                    } else if parts(platform, staged@) != parts(platform, own) {
                        Some(
                            Refusal::Because(
                                "refusing staged file "@ + staged@ + " in place of "@ + own,
                            ),
                        )
                    } else {
                        None
                    }
                },
            }
        },
        PrivOp::InstallCa { cert } => foreign_root(
            platform,
            data_dir,
            cert@,
            "refusing to install a CA that is not our own root"@,
        ),
        PrivOp::RemoveCa { cn, .. } => if cn@ == ROOT_CN@ {
            None
        } else {
            Some(Refusal::Because("refusing to remove foreign CA "@ + debug_text(cn@)))
        },
        PrivOp::SetNodeCaEnv { cert } => foreign_root(
            platform,
            data_dir,
            cert@,
            "refusing to advertise a CA that is not our own root"@,
        ),
        PrivOp::FlushDns => None,
        PrivOp::ReloadResolver => None,
        PrivOp::UnsetNodeCaEnv => None,
    }
}

/// The refusal of the first step, from the `i`-th on, that is refused.
pub open spec fn first_refusal(
    platform: Platform,
    data_dir: Option<Seq<char>>,
    ops: Seq<PrivOp>,
    i: int,
) -> Option<Refusal>
    decreases ops.len() - i,
{
    if i < 0 || i >= ops.len() {
        None
    } else if refusal(platform, data_dir, ops[i]) is Some {
        refusal(platform, data_dir, ops[i])
    } else {
        first_refusal(platform, data_dir, ops, i + 1)
    }
}

/// The error that states a refusal.
pub open spec fn states(e: Error, why: Refusal) -> bool {
    match why {
        Refusal::NoDataDir => e is Cert && e->Cert_0@ == "cannot resolve platform data directory"@,
        Refusal::Because(text) => e is Elevation && e->Elevation_0@ == text,
    }
}

/// The view of an optional text.
pub open spec fn seen(o: Option<&str>) -> Option<Seq<char>> {
    match o {
        Some(s) => Some(s@),
        None => None,
    }
}

fn no_data_dir() -> (e: Error)
    ensures
        states(e, Refusal::NoDataDir),
{
    Error::Cert("cannot resolve platform data directory".to_string())
}

/// Refuse a certificate that is not the library's own root.
fn check_root(platform: Platform, data_dir: Option<&str>, cert: &str, what: &str) -> (r: Result<
    (),
    Error,
>)
    ensures
        match (r, foreign_root(platform, seen(data_dir), cert@, what@)) {
            (Ok(_), None) => true,
            (Err(e), Some(why)) => states(e, why),
            _ => false,
        },
{
    let data = match data_dir {
        Some(d) => d,
        None => {
            return Err(no_data_dir());
        },
    };
    let own = paths::root_ca_cert(platform, data);
    if same_path(platform, cert, own.as_str()) {
        Ok(())
    } else {
        Err(Error::Elevation(what.to_string()))
    }
}

/// Refuse one step that is not of the shape that this application produces.
fn check_op(platform: Platform, data_dir: Option<&str>, op: &PrivOp) -> (r: Result<(), Error>)
    ensures
        match (r, refusal(platform, seen(data_dir), *op)) {
            (Ok(_), None) => true,
            (Err(e), Some(why)) => states(e, why),
            _ => false,
        },
{
    match op {
        PrivOp::InstallHosts { staged, target } => {
            if !same_path(platform, target.as_str(), paths::hosts_file(platform)) {
                let mut why = "refusing to write non-hosts target ".to_string();
                why.push_str(target.as_str());
                return Err(Error::Elevation(why));
            }
            let data = match data_dir {
                Some(d) => d,
                None => {
                    return Err(no_data_dir());
                },
            };
            if !path_under(platform, staged.as_str(), data) {
                let mut why = "refusing staged file ".to_string();
                why.push_str(staged.as_str());
                why.push_str(" outside ");
                why.push_str(data);
                return Err(Error::Elevation(why));
            }
            // A path that starts in the data directory can still climb out of it.
            let own = paths::join(platform, data, "hosts.staged");
            if !same_path(platform, staged.as_str(), own.as_str()) {
                let mut why = "refusing staged file ".to_string();
                why.push_str(staged.as_str());
                why.push_str(" in place of ");
                why.push_str(own.as_str());
                return Err(Error::Elevation(why));
            }
            Ok(())
        },
        PrivOp::InstallCa { cert } => check_root(
            platform,
            data_dir,
            cert.as_str(),
            "refusing to install a CA that is not our own root",
        ),
        PrivOp::RemoveCa { cn, .. } => {
            if same(cn.as_str(), ROOT_CN) {
                Ok(())
            } else {
                let mut why = "refusing to remove foreign CA ".to_string();
                why.push_str(debug_format(cn.as_str()).as_str());
                Err(Error::Elevation(why))
            }
        },
        // Publishing an environment variable that points every Node client at a certificate is
        // as sensitive as installing that certificate: same check.
        PrivOp::SetNodeCaEnv { cert } => check_root(
            platform,
            data_dir,
            cert.as_str(),
            "refusing to advertise a CA that is not our own root",
        ),
        PrivOp::FlushDns => Ok(()),
        PrivOp::ReloadResolver => Ok(()),
        PrivOp::UnsetNodeCaEnv => Ok(()),
    }
}

/// Reject anything that is not exactly the batch shape this application produces. The elevated
/// entry point takes its ops from the command line; without this check, any local process that
/// can talk a user into approving a prompt could have arbitrary files overwritten or a foreign CA
/// installed.
pub fn validate(platform: Platform, data_dir: Option<&str>, ops: &[PrivOp]) -> (r: Result<
    (),
    Error,
>)
    ensures
        match (r, first_refusal(platform, seen(data_dir), ops@, 0)) {
            (Ok(_), None) => true,
            (Err(e), Some(why)) => states(e, why),
            _ => false,
        },
{
    let mut i: usize = 0;
    while i < ops.len()
        invariant
            i <= ops@.len(),
            first_refusal(platform, seen(data_dir), ops@, 0) == first_refusal(
                platform,
                seen(data_dir),
                ops@,
                i as int,
            ),
        decreases ops@.len() - i,
    {
        match check_op(platform, data_dir, &ops[i]) {
            Ok(_) => {},
            Err(e) => {
                return Err(e);
            },
        }
        i += 1;
    }
    Ok(())
}

/// A batch that is accepted holds no step that would be refused on its own.
pub proof fn law_accepted_batches_hold_accepted_steps(
    platform: Platform,
    data_dir: Option<Seq<char>>,
    ops: Seq<PrivOp>,
    from: int,
)
    requires
        0 <= from,
        first_refusal(platform, data_dir, ops, from) is None,
    ensures
        forall|i: int|
            from <= i < ops.len() ==> refusal(platform, data_dir, #[trigger] ops[i]) is None,
    decreases ops.len() - from,
{
    if from < ops.len() {
        law_accepted_batches_hold_accepted_steps(platform, data_dir, ops, from + 1);
    }
}

// ── Execution ────────────────────────────────────────────────────────────────

/// Executes a batch of privileged ops.
pub trait Privileged {
    fn run(&mut self, ops: &[PrivOp]) -> Result<(), Error>;
}

/// Records ops instead of running them, for dry runs.
#[derive(Debug)]
pub struct RecordingExecutor {
    pub ops: Vec<PrivOp>,
}

impl Default for RecordingExecutor {
    fn default() -> (r: Self)
        ensures
            r.ops@.len() == 0,
    {
        RecordingExecutor { ops: Vec::new() }
    }
}

impl Privileged for RecordingExecutor {
    fn run(&mut self, ops: &[PrivOp]) -> (r: Result<(), Error>)
        ensures
            r is Ok,
            final(self).ops@ == old(self).ops@ + ops@,
    {
        let ghost before = self.ops@;
        let mut i: usize = 0;
        while i < ops.len()
            invariant
                i <= ops@.len(),
                self.ops@ == before + ops@.take(i as int),
            decreases ops@.len() - i,
        {
            self.ops.push(ops[i].clone());
            i += 1;
            assert(self.ops@ =~= before + ops@.take(i as int));
        }
        assert(ops@.take(i as int) =~= ops@);
        Ok(())
    }
}

/// The step writes to the trust store.
pub open spec fn writes_trust(op: PrivOp) -> bool {
    op is InstallCa || op is RemoveCa
}

/// The commands of a batch, in order. Trust-store automation is there for macOS and Windows only;
/// on Linux the commands would be those of a macOS keychain, so such a batch is refused.
pub fn plan(platform: Platform, gui_user_uid: Option<u32>, ops: &[PrivOp]) -> (r: Result<
    Vec<Argv>,
    Error,
>)
    ensures
        match r {
            Ok(commands) => {
                &&& platform == Platform::Linux ==> forall|i: int|
                    0 <= i < ops@.len() ==> !writes_trust(#[trigger] ops@[i])
                &&& command_seq(commands@) == batch_commands(
                    platform,
                    gui_user_uid,
                    ops@,
                    ops@.len(),
                )
            },
            Err(e) => {
                &&& platform == Platform::Linux
                &&& exists|i: int| 0 <= i < ops@.len() && writes_trust(#[trigger] ops@[i])
                &&& e is NotImplemented
                &&& e->NotImplemented_0@
                    == "trust-store automation on Linux (install the root CA manually)"@
            },
        },
{
    if platform == Platform::Linux {
        let mut i: usize = 0;
        while i < ops.len()
            invariant
                i <= ops@.len(),
                platform == Platform::Linux,
                forall|j: int| 0 <= j < i ==> !writes_trust(#[trigger] ops@[j]),
            decreases ops@.len() - i,
        {
            let refused = match &ops[i] {
                PrivOp::InstallCa { .. } => true,
                PrivOp::RemoveCa { .. } => true,
                _ => false,
            };
            if refused {
                assert(writes_trust(ops@[i as int]));
                return Err(
                    Error::NotImplemented(
                        "trust-store automation on Linux (install the root CA manually)",
                    ),
                );
            }
            i += 1;
        }
    }
    Ok(render(platform, gui_user_uid, ops))
}

/// What running one command came to.
#[derive(Debug)]
pub enum StepOutcome {
    /// It could not be started, and why.
    NotStarted(String),
    /// It ran and exited; `status` is the exit status in words.
    Exited { success: bool, status: String },
}

/// What a bare non-zero exit most likely means on Unix for a process that is not root.
pub open spec fn hint(platform: Platform, euid: u32) -> Seq<char> {
    if platform != Platform::Windows && euid != 0 {
        " — this process is not root, so the trust store and /etc/hosts are read-only to it; run the batch under `sudo` or through the GUI's authorization prompt"@
    } else {
        seq![]
    }
}

/// What a bare non-zero exit most likely means. The tools report a refused write as an exit code
/// and nothing else, so without this a log line reads only "exited with 1".
pub fn failure_hint(platform: Platform, euid: u32) -> (r: &'static str)
    ensures
        r@ == hint(platform, euid),
{
    if platform != Platform::Windows && euid != 0 {
        " — this process is not root, so the trust store and /etc/hosts are read-only to it; run the batch under `sudo` or through the GUI's authorization prompt"
    } else {
        proof {
            reveal_strlit("");
            assert(""@ =~= Seq::empty());
        }
        ""
    }
}

/// How a command is displayed.
pub open spec fn displayed(argv: Argv) -> Seq<char> {
    join(argv@.0.map_values(|p: Seq<char>| shown(p)), " "@)
}

/// Whether a batch goes on after one of its commands: it does where the command succeeded or its
/// failure is tolerated.
pub fn judge_step(platform: Platform, euid: u32, argv: &Argv, outcome: &StepOutcome) -> (r: Result<
    (),
    Error,
>)
    ensures
        match outcome {
            StepOutcome::NotStarted(why) => r is Err && r->Err_0 is Elevation
                && r->Err_0->Elevation_0@ == "spawning `"@ + displayed(*argv) + "` failed: "@
                + why@,
            StepOutcome::Exited { success, status } => if *success || argv.1 {
                r is Ok
            } else {
                r is Err && r->Err_0 is Elevation && r->Err_0->Elevation_0@ == "`"@ + displayed(
                    *argv,
                ) + "` exited with "@ + status@ + hint(platform, euid)
            },
        },
{
    match outcome {
        StepOutcome::NotStarted(why) => {
            let mut text = "spawning `".to_string();
            text.push_str(argv.display().as_str());
            text.push_str("` failed: ");
            text.push_str(why.as_str());
            Err(Error::Elevation(text))
        },
        StepOutcome::Exited { success, status } => {
            if *success || argv.1 {
                Ok(())
            } else {
                let mut text = "`".to_string();
                text.push_str(argv.display().as_str());
                text.push_str("` exited with ");
                text.push_str(status.as_str());
                text.push_str(failure_hint(platform, euid));
                Err(Error::Elevation(text))
            }
        },
    }
}

// ── Laws ─────────────────────────────────────────────────────────────────────

proof fn lemma_batch_prefix(
    platform: Platform,
    uid: Option<u32>,
    a: Seq<PrivOp>,
    b: Seq<PrivOp>,
    n: nat,
)
    requires
        n <= a.len(),
        n <= b.len(),
        forall|i: int| 0 <= i < n ==> a[i] == #[trigger] b[i],
    ensures
        batch_commands(platform, uid, a, n) == batch_commands(platform, uid, b, n),
    decreases n,
{
    if n > 0 {
        lemma_batch_prefix(platform, uid, a, b, (n - 1) as nat);
        assert(a[n - 1] == b[n - 1]);
    }
}

/// The steps of a batch are carried out in their order, each by commands of its own.
pub proof fn law_steps_are_carried_out_in_order(
    platform: Platform,
    uid: Option<u32>,
    first: &[PrivOp],
    rest: &[PrivOp],
    all: &[PrivOp],
    a: Vec<Argv>,
    b: Vec<Argv>,
    c: Vec<Argv>,
)
    requires
        all@ == first@ + rest@,
        call_ensures(render, (platform, uid, first), a),
        call_ensures(render, (platform, uid, rest), b),
        call_ensures(render, (platform, uid, all), c),
    ensures
        command_seq(c@) == command_seq(a@) + command_seq(b@),
{
    lemma_batch_concat(platform, uid, first@, rest@, rest@.len());
}

proof fn lemma_batch_concat(
    platform: Platform,
    uid: Option<u32>,
    a: Seq<PrivOp>,
    b: Seq<PrivOp>,
    n: nat,
)
    requires
        n <= b.len(),
    ensures
        batch_commands(platform, uid, a + b, a.len() + n) == batch_commands(
            platform,
            uid,
            a,
            a.len(),
        ) + batch_commands(platform, uid, b, n),
    decreases n,
{
    let x = batch_commands(platform, uid, a, a.len());
    if n == 0 {
        lemma_batch_prefix(platform, uid, a + b, a, a.len());
        assert(x + batch_commands(platform, uid, b, 0) =~= x);
    } else {
        lemma_batch_concat(platform, uid, a, b, (n - 1) as nat);
        assert((a + b)[a.len() + n - 1] == b[n - 1]);
        assert(batch_commands(platform, uid, a + b, a.len() + n) =~= x + batch_commands(
            platform,
            uid,
            b,
            n,
        ));
    }
}

/// What a step is carried out by: the staged file is copied over its target, and nothing else is; the
/// certificate that is installed or published is the one of the step, and the one that is removed
/// has the step's fingerprint or name. Only what may have nothing to do is allowed to fail.
pub proof fn law_steps_do_what_they_say(
    platform: Platform,
    uid: Option<u32>,
    ops: &[PrivOp],
    r: Vec<Argv>,
)
    requires
        call_ensures(render, (platform, uid, ops), r),
        ops@.len() == 1,
    ensures
        ({
            let c = command_seq(r@);
            let windows = platform == Platform::Windows;
            match ops@[0] {
                PrivOp::InstallHosts { staged, target } => if windows {
                    c == seq![
                        (seq!["cmd"@, "/C"@, "copy"@, "/Y"@, staged@, target@], false),
                    ]
                } else {
                    c == seq![
                        (seq!["cp"@, staged@, target@], false),
                        (seq!["chmod"@, "644"@, target@], false),
                    ]
                },
                PrivOp::InstallCa { cert } => {
                    &&& c.len() == 2
                    &&& c[0].1 && !c[1].1
                    &&& c[1].0.last() == cert@
                    &&& c[0].0.contains("9rai MITM Root CA"@)
                    &&& c[0].0.contains(if windows { "-delstore"@ } else { "delete-certificate"@ })
                    &&& c[1].0.contains(if windows { "-addstore"@ } else { "add-trusted-cert"@ })
                },
                PrivOp::RemoveCa { cn, fingerprint } => {
                    &&& c.len() == 1
                    &&& c[0].1
                    &&& c[0].0.contains(if windows { "-delstore"@ } else { "delete-certificate"@ })
                    &&& c[0].0.contains(if windows { cn@ } else { fingerprint@ })
                },
                PrivOp::SetNodeCaEnv { cert } => {
                    &&& platform == Platform::Linux ==> c.len() == 0
                    &&& platform != Platform::Linux ==> c.len() == 1 && c[0].1 && c[0].0.last()
                        == cert@ && c[0].0[c[0].0.len() - 2] == "NODE_EXTRA_CA_CERTS"@
                },
                PrivOp::UnsetNodeCaEnv => {
                    &&& platform == Platform::Linux ==> c.len() == 0
                    &&& platform != Platform::Linux ==> c.len() == 1 && c[0].1 && c[0].0.last()
                        == "NODE_EXTRA_CA_CERTS"@
                },
                PrivOp::FlushDns => c.len() > 0 && forall|i: int|
                    0 <= i < c.len() ==> !(#[trigger] c[i]).1,
                PrivOp::ReloadResolver => c.len() == 1 && c[0].1,
            }
        }),
{
    reveal_with_fuel(batch_commands, 2);
    let c = command_seq(r@);
    let want = op_commands(platform, uid, ops@[0]);
    assert(c =~= want);
    match ops@[0] {
        PrivOp::InstallCa { cert } => {
            assert(c[0].0[3] == "9rai MITM Root CA"@);
            assert(c[0].0[1] == if platform == Platform::Windows {
                "-delstore"@
            } else {
                "delete-certificate"@
            });
            assert(c[1].0[1] == if platform == Platform::Windows {
                "-addstore"@
            } else {
                "add-trusted-cert"@
            });
        },
        PrivOp::RemoveCa { cn, fingerprint } => {
            assert(c[0].0[1] == if platform == Platform::Windows {
                "-delstore"@
            } else {
                "delete-certificate"@
            });
            assert(c[0].0[3] == if platform == Platform::Windows {
                cn@
            } else {
                fingerprint@
            });
        },
        PrivOp::SetNodeCaEnv { cert } => {
            if platform == Platform::MacOs {
                let args = seq!["setenv"@, NODE_CA_VAR@, cert@];
                let n = c[0].0.len() as int;
                assert(c[0].0[n - 1] == args[2]);
                assert(c[0].0[n - 2] == args[1]);
            }
        },
        PrivOp::UnsetNodeCaEnv => {
            if platform == Platform::MacOs {
                let args = seq!["unsetenv"@, NODE_CA_VAR@];
                let n = c[0].0.len() as int;
                assert(c[0].0[n - 1] == args[1]);
            }
        },
        _ => {},
    }
}

/// Only the hosts file can be written, only from the file that is staged in the data directory; only
/// the root that is kept there can be installed or published; and only a root of the library's own
/// name can be removed. A batch of nothing but such steps is accepted.
pub proof fn law_only_own_steps_are_accepted(
    platform: Platform,
    data_dir: &str,
    ops: &[PrivOp],
    r: Result<(), Error>,
)
    requires
        call_ensures(validate, (platform, Some(data_dir), ops), r),
    ensures
        r is Ok <==> forall|i: int|
            0 <= i < ops@.len() ==> match #[trigger] ops@[i] {
                PrivOp::InstallHosts { staged, target } => {
                    &&& parts(platform, target@) == parts(
                        platform,
                        if platform == Platform::Windows {
                            "C:\\Windows\\System32\\drivers\\etc\\hosts"@
                        } else {
                            "/etc/hosts"@
                        },
                    )
                    &&& parts(platform, data_dir@).is_prefix_of(parts(platform, staged@))
                    &&& parts(platform, staged@) == parts(
                        platform,
                        join_path(platform, data_dir@, "hosts.staged"@),
                    )
                },
                PrivOp::InstallCa { cert } => is_own_root(platform, data_dir@, cert@),
                PrivOp::SetNodeCaEnv { cert } => is_own_root(platform, data_dir@, cert@),
                PrivOp::RemoveCa { cn, .. } => cn@ == "9rai MITM Root CA"@,
                PrivOp::FlushDns => true,
                PrivOp::ReloadResolver => true,
                PrivOp::UnsetNodeCaEnv => true,
            },
        r is Err ==> r->Err_0 is Elevation,
{
    lemma_refusals(platform, Some(data_dir@), ops@, 0);
}

/// The path of the root certificate in the data directory.
pub open spec fn is_own_root(platform: Platform, data_dir: Seq<char>, cert: Seq<char>) -> bool {
    parts(platform, cert) == parts(
        platform,
        join_path(platform, join_path(platform, data_dir, "cert"@), "rootCA.crt"@),
    )
}

proof fn lemma_refusals(
    platform: Platform,
    data_dir: Option<Seq<char>>,
    ops: Seq<PrivOp>,
    from: int,
)
    requires
        0 <= from,
        data_dir is Some,
    ensures
        first_refusal(platform, data_dir, ops, from) is None <==> forall|i: int|
            from <= i < ops.len() ==> refusal(platform, data_dir, #[trigger] ops[i]) is None,
        first_refusal(platform, data_dir, ops, from) is Some ==> first_refusal(
            platform,
            data_dir,
            ops,
            from,
        )->0 is Because,
    decreases ops.len() - from,
{
    if from < ops.len() {
        lemma_refusals(platform, data_dir, ops, from + 1);
    }
}

/// Where the data directory is not known, nothing that depends on it is accepted.
pub proof fn law_nothing_is_accepted_in_the_dark(
    platform: Platform,
    ops: &[PrivOp],
    r: Result<(), Error>,
    i: int,
)
    requires
        call_ensures(validate, (platform, None::<&str>, ops), r),
        0 <= i < ops@.len(),
        ops@[i] is InstallHosts || ops@[i] is InstallCa || ops@[i] is SetNodeCaEnv,
    ensures
        r is Err,
{
    if r is Ok {
        law_accepted_batches_hold_accepted_steps(platform, None, ops@, 0);
    }
}

/// A batch is planned as it is rendered, except that nothing is written to a trust store on Linux.
pub proof fn law_plans_are_what_is_rendered(
    platform: Platform,
    uid: Option<u32>,
    ops: &[PrivOp],
    plan_: Result<Vec<Argv>, Error>,
    rendered: Vec<Argv>,
)
    requires
        call_ensures(plan, (platform, uid, ops), plan_),
        call_ensures(render, (platform, uid, ops), rendered),
    ensures
        plan_ is Err <==> platform == Platform::Linux && exists|i: int|
            0 <= i < ops@.len() && (#[trigger] ops@[i] is InstallCa || ops@[i] is RemoveCa),
        plan_ is Ok ==> command_seq(plan_->Ok_0@) == command_seq(rendered@),
{
    if plan_ is Err {
        let i = choose|i: int| 0 <= i < ops@.len() && writes_trust(#[trigger] ops@[i]);
        assert(ops@[i] is InstallCa || ops@[i] is RemoveCa);
    }
    if plan_ is Ok && platform == Platform::Linux {
        assert forall|i: int| 0 <= i < ops@.len() implies !(#[trigger] ops@[i] is InstallCa)
            && !(ops@[i] is RemoveCa) by {
            assert(!writes_trust(ops@[i]));
        }
    }
}

/// A batch goes on exactly where its command succeeded, or failed and may; a command that could not
/// even be started always ends it, in words that say why.
pub proof fn law_a_batch_ends_with_its_first_failure(
    platform: Platform,
    euid: u32,
    argv: &Argv,
    outcome: &StepOutcome,
    r: Result<(), Error>,
)
    requires
        call_ensures(judge_step, (platform, euid, argv, outcome), r),
    ensures
        r is Ok <==> match *outcome {
            StepOutcome::NotStarted(_) => false,
            StepOutcome::Exited { success, .. } => success || argv.1,
        },
        r is Err ==> r->Err_0 is Elevation,
        match *outcome {
            StepOutcome::NotStarted(why) => {
                let said = r->Err_0->Elevation_0@;
                said.len() >= why@.len() && said.skip(said.len() - why@.len()) == why@
            },
            StepOutcome::Exited { status, .. } => r is Err ==> contains(
                r->Err_0->Elevation_0@,
                status@,
            ),
        },
{
    if r is Err {
        let said = r->Err_0->Elevation_0@;
        match *outcome {
            StepOutcome::NotStarted(why) => {
                assert(said.skip(said.len() - why@.len()) =~= why@);
            },
            StepOutcome::Exited { status, .. } => {
                let front = "`"@ + displayed(*argv) + "` exited with "@;
                let at = front.len() as int;
                assert(said.subrange(at, at + status@.len()) =~= status@);
                assert(occurs_at(said, status@, at));
            },
        }
    }
}

/// A dry run notes every step, in order, and does not fail.
pub proof fn law_dry_runs_note_every_step(
    executor: &mut RecordingExecutor,
    ops: &[PrivOp],
    r: Result<(), Error>,
)
    requires
        call_ensures(RecordingExecutor::run, (executor, ops), r),
    ensures
        r is Ok,
        final(executor).ops@ == old(executor).ops@ + ops@,
{
}

/// Only a process that lacks the privilege is told so, and only where there is a `root` to be.
pub proof fn law_only_the_unprivileged_get_a_hint(platform: Platform, euid: u32, r: &'static str)
    requires
        call_ensures(failure_hint, (platform, euid), r),
    ensures
        r@.len() > 0 <==> platform != Platform::Windows && euid != 0,
{
    reveal_strlit(
        " — this process is not root, so the trust store and /etc/hosts are read-only to it; run the batch under `sudo` or through the GUI's authorization prompt",
    );
}

/// Each platform has its own commands, and a batch is made of them.
pub proof fn law_batches_are_made_of_commands(
    platform: Platform,
    uid: Option<u32>,
    ops: &[PrivOp],
    whole: Vec<Argv>,
    unix: Vec<Argv>,
    windows: Vec<Argv>,
)
    requires
        ops@.len() == 1,
        call_ensures(render, (platform, uid, ops), whole),
        call_ensures(render_unix, (platform, uid, &ops@[0]), unix),
        call_ensures(render_windows, (&ops@[0],), windows),
    ensures
        command_seq(whole@) == if platform == Platform::Windows {
            command_seq(windows@)
        } else {
            command_seq(unix@)
        },
{
    reveal_with_fuel(batch_commands, 2);
    assert(command_seq(whole@) =~= op_commands(platform, uid, ops@[0]));
}

/// A batch is refused for its first step that is not its own, and the refusal names what was asked
/// for.
pub proof fn law_refusals_name_what_was_asked_for(
    platform: Platform,
    data_dir: &str,
    ops: &[PrivOp],
    r: Result<(), Error>,
    more: &[PrivOp],
    s: Result<(), Error>,
)
    requires
        ops@.len() == 1,
        more@.len() > 0,
        more@[0] == ops@[0],
        call_ensures(validate, (platform, Some(data_dir), ops), r),
        call_ensures(validate, (platform, Some(data_dir), more), s),
        r is Err,
    ensures
        s is Err,
        s->Err_0->Elevation_0@ == r->Err_0->Elevation_0@,
        match ops@[0] {
            PrivOp::InstallHosts { staged, target } => contains(
                r->Err_0->Elevation_0@,
                target@,
            ) || contains(r->Err_0->Elevation_0@, staged@),
            PrivOp::InstallCa { .. } => r->Err_0->Elevation_0@
                == "refusing to install a CA that is not our own root"@,
            PrivOp::SetNodeCaEnv { .. } => r->Err_0->Elevation_0@
                == "refusing to advertise a CA that is not our own root"@,
            PrivOp::RemoveCa { .. } => "refusing to remove foreign CA "@.is_prefix_of(
                r->Err_0->Elevation_0@,
            ),
            _ => false,
        },
{
    let text = r->Err_0->Elevation_0@;
    reveal_with_fuel(first_refusal, 2);
    match ops@[0] {
        PrivOp::InstallHosts { staged, target } => {
            let a = "refusing to write non-hosts target "@;
            let b = "refusing staged file "@;
            let to = (a.len() + target@.len()) as int;
            let from = (b.len() + staged@.len()) as int;
            if parts(platform, target@) != parts(platform, hosts_path(platform)) {
                assert(text.subrange(a.len() as int, to) =~= target@);
                assert(occurs_at(text, target@, a.len() as int));
            } else {
                assert(text.subrange(b.len() as int, from) =~= staged@);
                assert(occurs_at(text, staged@, b.len() as int));
            }
        },
        PrivOp::RemoveCa { cn, .. } => {
            let a = "refusing to remove foreign CA "@;
            assert(a =~= text.take(a.len() as int));
        },
        _ => {},
    }
}

} // verus!
