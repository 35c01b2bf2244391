//! Trust-store commands.
//!
//! These return [`Argv`] lists rather than running anything, so [`crate::privilege`] can batch a
//! whole install into a single elevation.

use vstd::prelude::*;
use vstd::slice::slice_subrange;
use vstd::string::*;

use crate::cert::gen::ROOT_CN;
use crate::command::{command_seq, Argv, Command};
use crate::platform::Platform;
use crate::text::{
    chars_of, decimal, find, find_chars, lines, lines_of, lower, lower_chars, numeral, same_chars,
    strs, texts, trim, trim_chars,
};
use crate::utf8::{from_utf8_lossy, utf8_lossy};

verus! {

pub const MAC_KEYCHAIN: &'static str = "/Library/Keychains/System.keychain";

pub const NODE_CA_VAR: &'static str = "NODE_EXTRA_CA_CERTS";

// ── Commands, as they are ────────────────────────────────────────────────────

/// Delete a stale copy, then add the root to the system keychain as trusted.
pub open spec fn unix_install_commands(cert_path: Seq<char>) -> Seq<Command> {
    seq![
        (
            seq!["security"@, "delete-certificate"@, "-c"@, ROOT_CN@, MAC_KEYCHAIN@],
            true,
        ),
        (
            seq![
                "security"@,
                "add-trusted-cert"@,
                "-d"@,
                "-r"@,
                "trustRoot"@,
                "-k"@,
                MAC_KEYCHAIN@,
                cert_path,
            ],
            false,
        ),
    ]
}

/// Add the root to the user's own trust settings.
pub open spec fn unix_install_user_commands(cert_path: Seq<char>) -> Seq<Command> {
    seq![(seq!["security"@, "add-trusted-cert"@, "-r"@, "trustRoot"@, cert_path], false)]
}

/// Delete the certificate with this fingerprint from the system keychain.
pub open spec fn unix_remove_commands(fingerprint: Seq<char>) -> Seq<Command> {
    seq![(seq!["security"@, "delete-certificate"@, "-Z"@, fingerprint, MAC_KEYCHAIN@], true)]
}

/// Drop the cached answers of the resolver.
pub open spec fn unix_flush_commands(platform: Platform) -> Seq<Command> {
    if platform == Platform::Linux {
        seq![(seq!["resolvectl"@, "flush-caches"@], false)]
    } else {
        seq![
            (seq!["dscacheutil"@, "-flushcache"@], false),
            (seq!["killall"@, "-HUP"@, "mDNSResponder"@], false),
        ]
    }
}

/// Make the resolver read the hosts file again. A resolver that is not running is no failure.
pub open spec fn unix_reload_commands(platform: Platform) -> Seq<Command> {
    if platform == Platform::Linux {
        seq![(seq!["resolvectl"@, "flush-caches"@], true)]
    } else {
        seq![(seq!["killall"@, "mDNSResponder"@], true)]
    }
}

/// A `launchctl` call in the domain of the desktop user; nothing but on macOS.
pub open spec fn launchctl_commands(
    platform: Platform,
    uid: Option<u32>,
    args: Seq<Seq<char>>,
) -> Seq<Command> {
    if platform == Platform::MacOs {
        let head = match uid {
            Some(n) => seq!["launchctl"@, "asuser"@, decimal(n as nat), "launchctl"@],
            None => seq!["launchctl"@],
        };
        seq![(head + args, true)]
    } else {
        seq![]
    }
}

/// Delete a stale copy, then add the root to the machine store.
pub open spec fn windows_install_commands(cert_path: Seq<char>) -> Seq<Command> {
    seq![
        (seq!["certutil"@, "-delstore"@, "Root"@, ROOT_CN@], true),
        (seq!["certutil"@, "-addstore"@, "Root"@, cert_path], false),
    ]
}

/// Delete the certificate with this common name from the machine store.
pub open spec fn windows_remove_commands(cn: Seq<char>) -> Seq<Command> {
    seq![(seq!["certutil"@, "-delstore"@, "Root"@, cn], true)]
}

/// Drop the cached answers of the resolver.
pub open spec fn windows_flush_commands() -> Seq<Command> {
    seq![(seq!["ipconfig"@, "/flushdns"@], false)]
}

/// Make the resolver read the hosts file again, which it does once its cache is dropped. A resolver
/// that is not running is no failure.
pub open spec fn windows_reload_commands() -> Seq<Command> {
    seq![(seq!["ipconfig"@, "/flushdns"@], true)]
}

/// Publish the certificate in the user's environment.
pub open spec fn windows_set_node_ca_commands(cert_path: Seq<char>) -> Seq<Command> {
    seq![(seq!["setx"@, NODE_CA_VAR@, cert_path], true)]
}

/// Take it out of the user's environment.
pub open spec fn windows_unset_node_ca_commands() -> Seq<Command> {
    seq![(seq!["reg"@, "delete"@, "HKCU\\Environment"@, "/F"@, "/V"@, NODE_CA_VAR@], true)]
}

// ── macOS / Unix ─────────────────────────────────────────────────────────────

/// `security add-trusted-cert` into the system keychain. A stale copy is deleted first so
/// re-installs after a rotation do not accumulate; best-effort, since on a first install there is
/// nothing to delete and `security` reports that as an error.
pub fn unix_install(cert_path: &str) -> (r: Vec<Argv>)
    ensures
        command_seq(r@) == unix_install_commands(cert_path@),
{
    let delete = ["security", "delete-certificate", "-c", ROOT_CN, MAC_KEYCHAIN];
    let add = [
        "security",
        "add-trusted-cert",
        "-d",
        "-r",
        "trustRoot",
        "-k",
        MAC_KEYCHAIN,
        cert_path,
    ];
    let r = vec![Argv::optional(&delete), Argv::new(&add)];
    proof {
        assert(strs(delete@) =~= unix_install_commands(cert_path@)[0].0);
        assert(strs(add@) =~= unix_install_commands(cert_path@)[1].0);
        assert(command_seq(r@) =~= unix_install_commands(cert_path@));
    }
    r
}

/// Trust the root for the logged-in user, with no elevation at all.
///
/// The admin domain (`-d`) needs an authorization only an interactive session can satisfy. This
/// form runs as the user in their own session, so macOS raises its own dialog and takes the answer
/// directly. The settings land in the user trust domain, which is honoured for that user's
/// applications.
pub fn unix_install_user(cert_path: &str) -> (r: Vec<Argv>)
    ensures
        command_seq(r@) == unix_install_user_commands(cert_path@),
{
    let add = ["security", "add-trusted-cert", "-r", "trustRoot", cert_path];
    let r = vec![Argv::new(&add)];
    proof {
        assert(strs(add@) =~= unix_install_user_commands(cert_path@)[0].0);
        assert(command_seq(r@) =~= unix_install_user_commands(cert_path@));
    }
    r
}

/// Delete the certificate with this fingerprint.
pub fn unix_remove(fingerprint: &str) -> (r: Vec<Argv>)
    ensures
        command_seq(r@) == unix_remove_commands(fingerprint@),
{
    let delete = ["security", "delete-certificate", "-Z", fingerprint, MAC_KEYCHAIN];
    let r = vec![Argv::optional(&delete)];
    proof {
        assert(strs(delete@) =~= unix_remove_commands(fingerprint@)[0].0);
        assert(command_seq(r@) =~= unix_remove_commands(fingerprint@));
    }
    r
}

/// Drop the cached answers of the resolver.
pub fn unix_flush_dns(platform: Platform) -> (r: Vec<Argv>)
    ensures
        command_seq(r@) == unix_flush_commands(platform),
{
    let ghost want = unix_flush_commands(platform);
    if platform == Platform::Linux {
        let flush = ["resolvectl", "flush-caches"];
        let r = vec![Argv::new(&flush)];
        proof {
            assert(strs(flush@) =~= want[0].0);
            assert(command_seq(r@) =~= want);
        }
        r
    } else {
        let flush = ["dscacheutil", "-flushcache"];
        let hup = ["killall", "-HUP", "mDNSResponder"];
        let r = vec![Argv::new(&flush), Argv::new(&hup)];
        proof {
            assert(strs(flush@) =~= want[0].0);
            assert(strs(hup@) =~= want[1].0);
            assert(command_seq(r@) =~= want);
        }
        r
    }
}

/// What to tell a user whose trust store could not be written.
///
/// The same command run from a terminal has the interactive authorization that an
/// elevated-but-headless shell does not.
pub fn manual_trust_command(platform: Platform, cert_path: &str) -> (r: String)
    ensures
        r@ == if platform == Platform::MacOs {
            "security add-trusted-cert -r trustRoot \""@ + cert_path@ + "\""@
        } else {
            "install "@ + cert_path@ + " into the system trust store manually"@
        },
{
    if platform == Platform::MacOs {
        let mut r = "security add-trusted-cert -r trustRoot \"".to_string();
        r.push_str(cert_path);
        r.push_str("\"");
        r
    } else {
        let mut r = "install ".to_string();
        r.push_str(cert_path);
        r.push_str(" into the system trust store manually");
        r
    }
}

/// A `launchctl` call in the domain of the desktop user. Best-effort: a machine without a GUI
/// session still proxies fine for anything that uses the system trust store.
fn launchctl(platform: Platform, gui_user_uid: Option<u32>, args: &[&str]) -> (r: Vec<Argv>)
    ensures
        command_seq(r@) == launchctl_commands(platform, gui_user_uid, strs(args@)),
{
    let mut r: Vec<Argv> = Vec::new();
    let ghost want = launchctl_commands(platform, gui_user_uid, strs(args@));
    if platform == Platform::MacOs {
        let mut argv: Vec<String> = match gui_user_uid {
            Some(uid) => vec![
                "launchctl".to_string(),
                "asuser".to_string(),
                numeral(uid as u64),
                "launchctl".to_string(),
            ],
            None => vec!["launchctl".to_string()],
        };
        let ghost head = texts(argv@);
        assert(head =~= match gui_user_uid {
            Some(n) => seq!["launchctl"@, "asuser"@, decimal(n as nat), "launchctl"@],
            None => seq!["launchctl"@],
        });
        let mut i: usize = 0;
        assert(head + strs(args@).take(0) =~= head);
        while i < args.len()
            invariant
                i <= args@.len(),
                texts(argv@) == head + strs(args@).take(i as int),
            decreases args@.len() - i,
        {
            let ghost before = texts(argv@);
            argv.push(args[i].to_string());
            i += 1;
            assert(texts(argv@) =~= before.push(strs(args@)[i - 1]));
            assert(strs(args@).take(i as int) =~= strs(args@).take(i - 1).push(strs(args@)[i - 1]));
            assert(texts(argv@) =~= head + strs(args@).take(i as int));
        }
        assert(strs(args@).take(i as int) =~= strs(args@));
        r.push(Argv(argv, true));
    }
    assert(command_seq(r@) =~= want);
    r
}

/// Point Node-based clients at the root CA.
///
/// Trusting the root in the system keychain is not enough for such a client: Node ships its own
/// compiled-in CA list and ignores the keychain. `launchctl setenv` reaches the user's GUI
/// session; from a root daemon that needs an `asuser` hop into their domain. Processes pick the
/// variable up when they start, so the IDE has to be restarted once after enabling.
pub fn unix_set_node_ca(platform: Platform, gui_user_uid: Option<u32>, cert_path: &str) -> (r: Vec<
    Argv,
>)
    ensures
        command_seq(r@) == launchctl_commands(
            platform,
            gui_user_uid,
            seq!["setenv"@, NODE_CA_VAR@, cert_path@],
        ),
{
    let args = ["setenv", NODE_CA_VAR, cert_path];
    assert(strs(args@) =~= seq!["setenv"@, NODE_CA_VAR@, cert_path@]);
    launchctl(platform, gui_user_uid, &args)
}

/// Withdraw the variable again.
pub fn unix_unset_node_ca(platform: Platform, gui_user_uid: Option<u32>) -> (r: Vec<Argv>)
    ensures
        command_seq(r@) == launchctl_commands(
            platform,
            gui_user_uid,
            seq!["unsetenv"@, NODE_CA_VAR@],
        ),
{
    let args = ["unsetenv", NODE_CA_VAR];
    assert(strs(args@) =~= seq!["unsetenv"@, NODE_CA_VAR@]);
    launchctl(platform, gui_user_uid, &args)
}

/// Make the system resolver re-read the hosts file.
///
/// On macOS a `HUP` purges the resolver's cache but does **not** make it read `/etc/hosts` again;
/// that only happens when its own file watcher fires, which misses the change when the file is
/// replaced twice within a few seconds. Terminating the resolver makes launchd restart it, and it
/// reads the hosts file on startup. Best-effort: if the process is not running, launchd is about
/// to start a fresh one anyway.
pub fn unix_reload_resolver(platform: Platform) -> (r: Vec<Argv>)
    ensures
        command_seq(r@) == unix_reload_commands(platform),
{
    let ghost want = unix_reload_commands(platform);
    if platform == Platform::Linux {
        let flush = ["resolvectl", "flush-caches"];
        let r = vec![Argv::optional(&flush)];
        proof {
            assert(strs(flush@) =~= want[0].0);
            assert(command_seq(r@) =~= want);
        }
        r
    } else {
        let kill = ["killall", "mDNSResponder"];
        let r = vec![Argv::optional(&kill)];
        proof {
            assert(strs(kill@) =~= want[0].0);
            assert(command_seq(r@) =~= want);
        }
        r
    }
}

// ── Windows ──────────────────────────────────────────────────────────────────

/// `certutil -addstore Root` into the machine store, stale copy removed first (best-effort: absent
/// on a first install, and `certutil` reports that as a failure).
pub fn windows_install(cert_path: &str) -> (r: Vec<Argv>)
    ensures
        command_seq(r@) == windows_install_commands(cert_path@),
{
    let delete = ["certutil", "-delstore", "Root", ROOT_CN];
    let add = ["certutil", "-addstore", "Root", cert_path];
    let r = vec![Argv::optional(&delete), Argv::new(&add)];
    proof {
        assert(strs(delete@) =~= windows_install_commands(cert_path@)[0].0);
        assert(strs(add@) =~= windows_install_commands(cert_path@)[1].0);
        assert(command_seq(r@) =~= windows_install_commands(cert_path@));
    }
    r
}

/// Delete the certificate with this common name.
pub fn windows_remove(cn: &str) -> (r: Vec<Argv>)
    ensures
        command_seq(r@) == windows_remove_commands(cn@),
{
    let delete = ["certutil", "-delstore", "Root", cn];
    let r = vec![Argv::optional(&delete)];
    proof {
        assert(strs(delete@) =~= windows_remove_commands(cn@)[0].0);
        assert(command_seq(r@) =~= windows_remove_commands(cn@));
    }
    r
}

/// Drop the cached answers of the resolver.
pub fn windows_flush_dns() -> (r: Vec<Argv>)
    ensures
        command_seq(r@) == windows_flush_commands(),
{
    let flush = ["ipconfig", "/flushdns"];
    let r = vec![Argv::new(&flush)];
    proof {
        assert(strs(flush@) =~= windows_flush_commands()[0].0);
        assert(command_seq(r@) =~= windows_flush_commands());
    }
    r
}

/// Make the system resolver re-read the hosts file: it looks there again once its cache is dropped.
pub fn windows_reload_resolver() -> (r: Vec<Argv>)
    ensures
        command_seq(r@) == windows_reload_commands(),
{
    let flush = ["ipconfig", "/flushdns"];
    let r = vec![Argv::optional(&flush)];
    proof {
        assert(strs(flush@) =~= windows_reload_commands()[0].0);
        assert(command_seq(r@) =~= windows_reload_commands());
    }
    r
}

/// A user-level environment variable for Node-based clients.
pub fn windows_set_node_ca(cert_path: &str) -> (r: Vec<Argv>)
    ensures
        command_seq(r@) == windows_set_node_ca_commands(cert_path@),
{
    let set = ["setx", NODE_CA_VAR, cert_path];
    let r = vec![Argv::optional(&set)];
    proof {
        assert(strs(set@) =~= windows_set_node_ca_commands(cert_path@)[0].0);
        assert(command_seq(r@) =~= windows_set_node_ca_commands(cert_path@));
    }
    r
}

/// Withdraw the variable again.
pub fn windows_unset_node_ca() -> (r: Vec<Argv>)
    ensures
        command_seq(r@) == windows_unset_node_ca_commands(),
{
    let delete = ["reg", "delete", "HKCU\\Environment", "/F", "/V", NODE_CA_VAR];
    let r = vec![Argv::optional(&delete)];
    proof {
        assert(strs(delete@) =~= windows_unset_node_ca_commands()[0].0);
        assert(command_seq(r@) =~= windows_unset_node_ca_commands());
    }
    r
}

// ── Is the root trusted? ─────────────────────────────────────────────────────

/// What a command that was run came to.
#[derive(Debug, Clone)]
pub struct Outcome {
    /// It exited with 0.
    pub success: bool,
    pub stdout: Vec<u8>,
}

/// A hexadecimal digit of ASCII.
pub open spec fn is_hex(c: char) -> bool {
    '0' <= c <= '9' || 'a' <= c <= 'f' || 'A' <= c <= 'F'
}

/// The hexadecimal digits of a text.
pub open spec fn hex_only(s: Seq<char>) -> Seq<char> {
    s.filter(|c: char| is_hex(c))
}

/// A line that gives this SHA-1 hash, whatever the case of the letters and whatever stands between
/// the digits.
pub open spec fn gives_hash(line: Seq<char>, fingerprint: Seq<char>) -> bool {
    let t = trim(line);
    "sha-1"@.is_prefix_of(lower(t)) && match find(t, seq![':']) {
        Some(i) => lower(hex_only(t.skip(i + 1))) == lower(fingerprint),
        None => false,
    }
}

/// The question whether the root is trusted, as a command that needs no privilege.
///
/// macOS is asked to evaluate the certificate at `cert_path`: that fails for a root that is absent,
/// superseded by a rotation, or imported without trust. Without a path there is nothing to ask.
/// Elsewhere the presence of the certificate is the answer.
pub open spec fn probe_command(
    platform: Platform,
    cert_path: Option<Seq<char>>,
    fingerprint: Seq<char>,
) -> Option<Seq<Seq<char>>> {
    match platform {
        Platform::MacOs => match cert_path {
            Some(path) => Some(
                seq![
                    "security"@,
                    "verify-cert"@,
                    "-c"@,
                    path,
                    "-p"@,
                    "ssl"@,
                    "-k"@,
                    MAC_KEYCHAIN@,
                ],
            ),
            None => None,
        },
        Platform::Linux => Some(
            seq![
                "security"@,
                "find-certificate"@,
                "-a"@,
                "-c"@,
                ROOT_CN@,
                "-Z"@,
                MAC_KEYCHAIN@,
            ],
        ),
        Platform::Windows => Some(seq!["certutil"@, "-store"@, "Root"@, fingerprint]),
    }
}

/// What the outcome of that command says; a command that could not be run says no.
pub open spec fn says_installed(
    platform: Platform,
    outcome: Option<Outcome>,
    fingerprint: Seq<char>,
) -> bool {
    match outcome {
        Some(o) => match platform {
            Platform::Linux => lists_hash(lines(utf8_lossy(o.stdout@)), fingerprint),
            _ => o.success,
        },
        None => false,
    }
}

/// One of the lines gives this hash.
pub open spec fn lists_hash(lines: Seq<Seq<char>>, fingerprint: Seq<char>) -> bool {
    exists|i: int| 0 <= i < lines.len() && gives_hash(#[trigger] lines[i], fingerprint)
}

/// The command that asks whether the root, which is kept at `cert_path`, is trusted, if there is
/// anything to ask.
pub fn trust_probe(platform: Platform, cert_path: Option<&str>, fingerprint: &str) -> (r: Option<
    Argv,
>)
    ensures
        match (
            r,
            probe_command(
                platform,
                match cert_path {
                    Some(path) => Some(path@),
                    None => None,
                },
                fingerprint@,
            ),
        ) {
            (Some(argv), Some(want)) => argv@ == (want, false),
            (None, None) => true,
            _ => false,
        },
{
    let ghost want = probe_command(
        platform,
        match cert_path {
            Some(path) => Some(path@),
            None => None,
        },
        fingerprint@,
    )->0;
    match platform {
        Platform::MacOs => {
            let path = match cert_path {
                Some(path) => path,
                None => {
                    return None;
                },
            };
            let args = [
                "security",
                "verify-cert",
                "-c",
                path,
                "-p",
                "ssl",
                "-k",
                MAC_KEYCHAIN,
            ];
            assert(strs(args@) =~= want);
            Some(Argv::new(&args))
        },
        Platform::Linux => {
            let args = ["security", "find-certificate", "-a", "-c", ROOT_CN, "-Z", MAC_KEYCHAIN];
            assert(strs(args@) =~= want);
            Some(Argv::new(&args))
        },
        Platform::Windows => {
            let args = ["certutil", "-store", "Root", fingerprint];
            assert(strs(args@) =~= want);
            Some(Argv::new(&args))
        },
    }
}

/// The hexadecimal digits of a text.
fn hex_digits(s: &[char]) -> (r: Vec<char>)
    ensures
        r@ == hex_only(s@),
{
    let mut r: Vec<char> = Vec::new();
    let mut i: usize = 0;
    reveal(Seq::filter);
    while i < s.len()
        invariant
            i <= s@.len(),
            r@ == hex_only(s@.take(i as int)),
        decreases s@.len() - i,
    {
        let c = s[i];
        assert(s@.take(i + 1).drop_last() =~= s@.take(i as int));
        assert(s@.take(i + 1).last() == c);
        reveal(Seq::filter);
        if ('0' <= c && c <= '9') || ('a' <= c && c <= 'f') || ('A' <= c && c <= 'F') {
            r.push(c);
        }
        i += 1;
    }
    assert(s@.take(i as int) =~= s@);
    r
}

/// Whether a line gives this SHA-1 hash.
fn line_gives_hash(line: &str, fingerprint: &str) -> (b: bool)
    ensures
        b == gives_hash(line@, fingerprint@),
{
    let all = chars_of(line);
    let t = trim_chars(all.as_slice());
    let low = lower_chars(t);
    let tag = chars_of("sha-1");
    if tag.len() > low.len() {
        return false;
    }
    let front = slice_subrange(low.as_slice(), 0, tag.len());
    let tagged = same_chars(front, tag.as_slice());
    assert(tagged == "sha-1"@.is_prefix_of(lower(t@)));
    if !tagged {
        return false;
    }
    let colon = vec![':'];
    assert(colon@ =~= seq![':']);
    match find_chars(t, colon.as_slice(), 0) {
        Some(i) => {
            proof {
                crate::text::lemma_find_from(t@, colon@, 0);
            }
            let hash = slice_subrange(t, i + 1, t.len());
            assert(hash@ =~= t@.skip(i + 1));
            let hex = hex_digits(hash);
            let expected = chars_of(fingerprint);
            same_chars(
                lower_chars(hex.as_slice()).as_slice(),
                lower_chars(expected.as_slice()).as_slice(),
            )
        },
        None => false,
    }
}

/// Is the certificate with this fingerprint among those that were listed? The line that gives the
/// hash has been printed in several forms, so it is matched loosely.
pub fn unix_cert_is_present(stdout: &[u8], expected_fingerprint: &str) -> (b: bool)
    ensures
        b == lists_hash(lines(utf8_lossy(stdout@)), expected_fingerprint@),
{
    let text = from_utf8_lossy(stdout);
    let all = lines_of(chars_of(text.as_str()).as_slice());
    let ghost line_seq = lines(utf8_lossy(stdout@));
    let mut i: usize = 0;
    while i < all.len()
        invariant
            i <= all@.len(),
            line_seq == texts(all@),
            line_seq == lines(utf8_lossy(stdout@)),
            forall|j: int| 0 <= j < i ==> !gives_hash(#[trigger] line_seq[j], expected_fingerprint@),
        decreases all@.len() - i,
    {
        assert(line_seq[i as int] == all@[i as int]@);
        if line_gives_hash(all[i].as_str(), expected_fingerprint) {
            return true;
        }
        i += 1;
    }
    false
}

/// Is the root trusted, by what the command of [`trust_probe`] came to on macOS or another Unix?
pub fn unix_is_installed(
    platform: Platform,
    outcome: Option<&Outcome>,
    expected_fingerprint: &str,
) -> (b: bool)
    requires
        platform != Platform::Windows,
    ensures
        b == says_installed(
            platform,
            match outcome {
                Some(o) => Some(*o),
                None => None,
            },
            expected_fingerprint@,
        ),
{
    match outcome {
        Some(o) => if platform == Platform::MacOs {
            o.success
        } else {
            unix_cert_is_present(o.stdout.as_slice(), expected_fingerprint)
        },
        None => false,
    }
}

/// Is the root trusted, by what the command of [`trust_probe`] came to on Windows?
pub fn windows_is_installed(outcome: Option<&Outcome>) -> (b: bool)
    ensures
        b == (outcome is Some && outcome->0.success),
{
    match outcome {
        Some(o) => o.success,
        None => false,
    }
}

/// Is the root trusted, by what the command of [`trust_probe`] came to?
pub fn is_installed(
    platform: Platform,
    outcome: Option<&Outcome>,
    expected_fingerprint: &str,
) -> (b: bool)
    ensures
        b == says_installed(
            platform,
            match outcome {
                Some(o) => Some(*o),
                None => None,
            },
            expected_fingerprint@,
        ),
{
    if platform == Platform::Windows {
        windows_is_installed(outcome)
    } else {
        unix_is_installed(platform, outcome, expected_fingerprint)
    }
}

// ── Laws ─────────────────────────────────────────────────────────────────────

/// Where nothing could be asked the root is not trusted; macOS and Windows are believed by how the
/// question exits, and elsewhere by whether the certificate is listed.
pub proof fn law_trust_is_believed_by_the_answer(
    platform: Platform,
    outcome: Option<&Outcome>,
    fingerprint: &str,
    b: bool,
    listed: bool,
)
    requires
        call_ensures(is_installed, (platform, outcome, fingerprint), b),
    ensures
        outcome is None ==> !b,
        outcome is Some && platform != Platform::Linux ==> b == outcome->0.success,
        forall|stdout: &[u8]|
            outcome is Some && platform == Platform::Linux && stdout@ == outcome->0.stdout@
                && #[trigger] call_ensures(unix_cert_is_present, (stdout, fingerprint), listed)
                ==> b == listed,
{
}

/// A certificate is found in a listing by a line of its own that gives its hash, in whatever case,
/// and with whatever blanks around it.
pub proof fn law_listed_hashes_are_found(
    before: Seq<char>,
    front: Seq<char>,
    hash: Seq<char>,
    after: Seq<char>,
    stdout: &[u8],
    fingerprint: &str,
    b: bool,
)
    requires
        call_ensures(unix_cert_is_present, (stdout, fingerprint), b),
        stdout@ == vstd::utf8::encode_utf8(
            before + front + "SHA-1 hash: "@ + hash + seq!['\n'] + after,
        ),
        before.len() == 0 || before.last() == '\n',
        crate::text::blank(front),
        !front.contains('\n'),
        hash.len() > 0,
        forall|i: int| 0 <= i < hash.len() ==> is_hex(#[trigger] hash[i]),
        lower(hash) == lower(fingerprint@),
    ensures
        b,
{
    let line = front + "SHA-1 hash: "@ + hash;
    let text = before + line + seq!['\n'] + after;
    assert(before + front + "SHA-1 hash: "@ + hash + seq!['\n'] + after =~= text);
    crate::utf8::law_encoded_text_reads_back(text);
    lemma_hash_line(front, hash, fingerprint@);
    assert(text =~= before + (line + seq!['\n'] + after));
    crate::text::law_lines_are_cut_at_line_feeds(line, after);
    let rest = line + seq!['\n'] + after;
    assert((seq![line] + lines(after))[0] == line);
    crate::text::lemma_line_among(before, rest, line);
    let all = lines(text);
    let i = choose|i: int| 0 <= i < all.len() && all[i] == line;
    assert(gives_hash(all[i], fingerprint@));
}

/// Such a line gives the hash, and is one line.
proof fn lemma_hash_line(front: Seq<char>, hash: Seq<char>, fingerprint: Seq<char>)
    requires
        crate::text::blank(front),
        !front.contains('\n'),
        hash.len() > 0,
        forall|i: int| 0 <= i < hash.len() ==> is_hex(#[trigger] hash[i]),
        lower(hash) == lower(fingerprint),
    ensures
        gives_hash(front + "SHA-1 hash: "@ + hash, fingerprint),
        !(front + "SHA-1 hash: "@ + hash).contains('\n'),
        (front + "SHA-1 hash: "@ + hash).last() != '\r',
        (front + "SHA-1 hash: "@ + hash).len() > 0,
{
    let line = front + "SHA-1 hash: "@ + hash;
    let core = "SHA-1 hash: "@ + hash;
    reveal_strlit("SHA-1 hash: ");
    assert(line.last() == hash[hash.len() - 1]);
    assert(core.last() == hash[hash.len() - 1]);
    assert(line =~= front + core + seq![]);
    assert(crate::text::blank(seq![]));
    crate::text::law_trimming_keeps_the_core(front, core, seq![]);
    lemma_core(hash);
    if line.contains('\n') {
        let i = choose|i: int| 0 <= i < line.len() && line[i] == '\n';
        if i < front.len() {
            assert(front[i] == '\n');
        } else if i >= front.len() + 12 {
            assert(hash[i - front.len() - 12] == '\n');
        }
    }
}

proof fn lemma_core(hash: Seq<char>)
    requires
        forall|i: int| 0 <= i < hash.len() ==> is_hex(#[trigger] hash[i]),
    ensures
        "sha-1"@.is_prefix_of(lower("SHA-1 hash: "@ + hash)),
        find("SHA-1 hash: "@ + hash, seq![':']) == Some(10int),
        hex_only(("SHA-1 hash: "@ + hash).skip(11)) == hash,
{
    let core = "SHA-1 hash: "@ + hash;
    reveal_strlit("SHA-1 hash: ");
    reveal_strlit("sha-1");
    assert("sha-1"@ =~= lower(core).take(5));
    let colon = seq![':'];
    assert(core.subrange(10, 11) =~= colon);
    assert forall|j: int| 0 <= j < 10 implies !#[trigger] crate::text::occurs_at(core, colon, j) by {
        assert(core.subrange(j, j + 1)[0] == core[j]);
    }
    crate::text::lemma_find_is(core, colon, 10);
    let tail = core.skip(11);
    let blank: Seq<char> = seq![' '];
    assert(tail =~= blank + hash);
    lemma_hex_only(hash);
    reveal(Seq::filter);
    Seq::<char>::filter_distributes_over_add(blank, hash, |c: char| is_hex(c));
    assert(blank.drop_last() =~= seq![]);
    let keep = |c: char| is_hex(c);
    assert(!keep(' '));
    assert(blank.drop_last().filter(keep) =~= seq![]);
    assert(blank.filter(keep) == blank.drop_last().filter(keep));
    assert(seq![] + hash =~= hash);
}

proof fn lemma_hex_only(s: Seq<char>)
    requires
        forall|i: int| 0 <= i < s.len() ==> is_hex(#[trigger] s[i]),
    ensures
        hex_only(s) == s,
    decreases s.len(),
{
    reveal(Seq::filter);
    if s.len() > 0 {
        let t = s.drop_last();
        assert forall|i: int| 0 <= i < t.len() implies is_hex(#[trigger] t[i]) by {
            assert(t[i] == s[i]);
        }
        lemma_hex_only(t);
        assert(is_hex(s[s.len() - 1]));
        assert(t.push(s.last()) =~= s);
    } else {
        assert(hex_only(s) =~= s);
    }
}

/// What a user is told to do by hand concerns the certificate in question.
pub proof fn law_the_remedy_names_the_certificate(platform: Platform, cert_path: &str, r: String)
    requires
        call_ensures(manual_trust_command, (platform, cert_path), r),
    ensures
        crate::text::contains(r@, cert_path@),
        platform == Platform::MacOs ==> "security add-trusted-cert -r trustRoot "@.is_prefix_of(r@),
{
    reveal_strlit("security add-trusted-cert -r trustRoot \"");
    reveal_strlit("security add-trusted-cert -r trustRoot ");
    reveal_strlit("install ");
    let at: int = if platform == Platform::MacOs {
        "security add-trusted-cert -r trustRoot \""@.len() as int
    } else {
        "install "@.len() as int
    };
    assert(r@.subrange(at, at + cert_path@.len()) =~= cert_path@);
    assert(crate::text::occurs_at(r@, cert_path@, at));
    assert(platform == Platform::MacOs ==> "security add-trusted-cert -r trustRoot "@ =~= r@.take(
        "security add-trusted-cert -r trustRoot "@.len() as int,
    ));
}

/// Nothing is found in a listing that names no SHA-1 hash, and one line names at most one
/// certificate.
pub proof fn law_only_listed_hashes_are_found(
    listing: Seq<char>,
    stdout: &[u8],
    fingerprint: &str,
    b: bool,
    other: &str,
    c: bool,
)
    requires
        call_ensures(unix_cert_is_present, (stdout, fingerprint), b),
        call_ensures(unix_cert_is_present, (stdout, other), c),
        stdout@ == vstd::utf8::encode_utf8(listing),
    ensures
        (forall|i: int|
            0 <= i < lines(listing).len() ==> !crate::text::contains(
                lower(#[trigger] lines(listing)[i]),
                "sha-1"@,
            )) ==> !b,
        (forall|i: int|
            0 <= i < lines(listing).len() ==> !crate::text::contains(
                #[trigger] lines(listing)[i],
                ":"@,
            )) ==> !b,
        lines(listing).len() == 1 && b && c ==> lower(fingerprint@) == lower(other@),
{
    crate::utf8::law_encoded_text_reads_back(listing);
    let all = lines(listing);
    if b {
        let i = choose|i: int| 0 <= i < all.len() && gives_hash(#[trigger] all[i], fingerprint@);
        let line = all[i];
        let t = trim(line);
        crate::text::lemma_trimmed(line);
        let (x, y) = choose|x: int, y: int|
            0 <= x <= y <= line.len() && #[trigger] line.subrange(x, y) == t
                && crate::text::blank(line.take(x)) && crate::text::blank(line.skip(y));
        let tag = "sha-1"@;
        assert(lower(line).subrange(x, x + tag.len()) =~= lower(t).take(tag.len() as int));
        assert(crate::text::occurs_at(lower(line), tag, x));
        assert(crate::text::contains(lower(line), tag));
        reveal_strlit(":");
        assert(":"@ =~= seq![':']);
        crate::text::lemma_find_from(t, seq![':'], 0);
        let k = find(t, seq![':'])->0;
        assert(line.subrange(x + k, x + k + 1) =~= t.subrange(k, k + 1));
        assert(crate::text::occurs_at(line, ":"@, x + k));
        assert(crate::text::contains(line, ":"@));
    }
}

/// Whether the root is trusted is asked of the system's own store, about this certificate, and asking
/// changes nothing.
pub proof fn law_the_store_is_asked_about_the_root(
    platform: Platform,
    cert_path: Option<&str>,
    fingerprint: &str,
    r: Option<Argv>,
)
    requires
        call_ensures(trust_probe, (platform, cert_path, fingerprint), r),
    ensures
        r is None <==> platform == Platform::MacOs && cert_path is None,
        r is Some ==> !r->0@.1 && match platform {
            Platform::MacOs => r->0@.0 == seq![
                "security"@,
                "verify-cert"@,
                "-c"@,
                cert_path->0@,
                "-p"@,
                "ssl"@,
                "-k"@,
                "/Library/Keychains/System.keychain"@,
            ],
            Platform::Linux => r->0@.0 == seq![
                "security"@,
                "find-certificate"@,
                "-a"@,
                "-c"@,
                "9rai MITM Root CA"@,
                "-Z"@,
                "/Library/Keychains/System.keychain"@,
            ],
            Platform::Windows => r->0@.0 == seq!["certutil"@, "-store"@, "Root"@, fingerprint@],
        },
{
}

/// Each platform is believed in its own way.
pub proof fn law_each_platform_is_believed_in_its_own_way(
    platform: Platform,
    outcome: Option<&Outcome>,
    fingerprint: &str,
    whole: bool,
    unix: bool,
    windows: bool,
)
    requires
        call_ensures(is_installed, (platform, outcome, fingerprint), whole),
        call_ensures(unix_is_installed, (platform, outcome, fingerprint), unix),
        call_ensures(windows_is_installed, (outcome,), windows),
    ensures
        whole == if platform == Platform::Windows {
            windows
        } else {
            unix
        },
        outcome is None ==> !unix && !windows,
        outcome is Some ==> windows == outcome->0.success,
        outcome is Some && platform == Platform::MacOs ==> unix == outcome->0.success,
{
}

/// On a Unix the root goes into the system keychain, or into the user's own settings, and is taken
/// out by its fingerprint; a copy that may not be there is deleted without complaint.
pub proof fn law_unix_stores_are_kept(
    cert: &str,
    fingerprint: &str,
    system: Vec<Argv>,
    user: Vec<Argv>,
    gone: Vec<Argv>,
)
    requires
        call_ensures(unix_install, (cert,), system),
        call_ensures(unix_install_user, (cert,), user),
        call_ensures(unix_remove, (fingerprint,), gone),
    ensures
        ({
            let keychain = "/Library/Keychains/System.keychain"@;
            let name = "9rai MITM Root CA"@;
            &&& command_seq(system@) == seq![
                (seq!["security"@, "delete-certificate"@, "-c"@, name, keychain], true),
                (
                    seq!["security"@, "add-trusted-cert"@, "-d"@, "-r"@, "trustRoot"@]
                        + seq!["-k"@, keychain, cert@],
                    false,
                ),
            ]
            &&& command_seq(user@) == seq![
                (seq!["security"@, "add-trusted-cert"@, "-r"@, "trustRoot"@, cert@], false),
            ]
            &&& command_seq(gone@) == seq![
                (seq!["security"@, "delete-certificate"@, "-Z"@, fingerprint@, keychain], true),
            ]
        }),
{
    let c = command_seq(system@);
    assert(c[1].0 =~= seq!["security"@, "add-trusted-cert"@, "-d"@, "-r"@, "trustRoot"@] + seq![
        "-k"@,
        MAC_KEYCHAIN@,
        cert@,
    ]);
}

/// Windows keeps the root in its store of roots.
pub proof fn law_windows_stores_are_kept(
    cert: &str,
    cn: &str,
    added: Vec<Argv>,
    gone: Vec<Argv>,
    set: Vec<Argv>,
    unset: Vec<Argv>,
)
    requires
        call_ensures(windows_install, (cert,), added),
        call_ensures(windows_remove, (cn,), gone),
        call_ensures(windows_set_node_ca, (cert,), set),
        call_ensures(windows_unset_node_ca, (), unset),
    ensures
        command_seq(added@) == seq![
            (seq!["certutil"@, "-delstore"@, "Root"@, "9rai MITM Root CA"@], true),
            (seq!["certutil"@, "-addstore"@, "Root"@, cert@], false),
        ],
        command_seq(gone@) == seq![(seq!["certutil"@, "-delstore"@, "Root"@, cn@], true)],
        command_seq(set@) == seq![(seq!["setx"@, "NODE_EXTRA_CA_CERTS"@, cert@], true)],
        command_seq(unset@).len() == 1,
        command_seq(unset@)[0].0.last() == "NODE_EXTRA_CA_CERTS"@,
        command_seq(unset@)[0].0[1] == "delete"@,
        command_seq(unset@)[0].1,
{
}

/// The variable that Node-based clients read is set to the certificate, and withdrawn again, in the
/// session of the user at the desktop; elsewhere than on macOS there is no such session.
pub proof fn law_the_session_learns_of_the_root(
    platform: Platform,
    uid: Option<u32>,
    cert: &str,
    set: Vec<Argv>,
    unset: Vec<Argv>,
)
    requires
        call_ensures(unix_set_node_ca, (platform, uid, cert), set),
        call_ensures(unix_unset_node_ca, (platform, uid), unset),
    ensures
        platform != Platform::MacOs ==> set@.len() == 0 && unset@.len() == 0,
        platform == Platform::MacOs ==> {
            let s = command_seq(set@);
            let u = command_seq(unset@);
            &&& s.len() == 1 && u.len() == 1
            &&& s[0].1 && u[0].1
            &&& match uid {
                Some(n) => {
                    &&& s[0].0.take(4) == u[0].0.take(4)
                    &&& s[0].0.take(4) == seq![
                        "launchctl"@,
                        "asuser"@,
                        decimal(n as nat),
                        "launchctl"@,
                    ]
                    &&& s[0].0.skip(4) == seq!["setenv"@, "NODE_EXTRA_CA_CERTS"@, cert@]
                    &&& u[0].0.skip(4) == seq!["unsetenv"@, "NODE_EXTRA_CA_CERTS"@]
                },
                None => {
                    &&& s[0].0 == seq!["launchctl"@, "setenv"@, "NODE_EXTRA_CA_CERTS"@, cert@]
                    &&& u[0].0 == seq!["launchctl"@, "unsetenv"@, "NODE_EXTRA_CA_CERTS"@]
                },
            }
        },
{
    let s = command_seq(set@);
    let u = command_seq(unset@);
    if platform == Platform::MacOs {
        match uid {
            Some(n) => {
                let head = seq!["launchctl"@, "asuser"@, decimal(n as nat), "launchctl"@];
                assert(s[0].0.take(4) =~= head);
                assert(u[0].0.take(4) =~= head);
                assert(s[0].0.skip(4) =~= seq!["setenv"@, "NODE_EXTRA_CA_CERTS"@, cert@]);
                assert(u[0].0.skip(4) =~= seq!["unsetenv"@, "NODE_EXTRA_CA_CERTS"@]);
            },
            None => {
                assert(s[0].0 =~= seq![
                    "launchctl"@,
                    "setenv"@,
                    "NODE_EXTRA_CA_CERTS"@,
                    cert@,
                ]);
                assert(u[0].0 =~= seq!["launchctl"@, "unsetenv"@, "NODE_EXTRA_CA_CERTS"@]);
            },
        }
    } else {
        assert(s.len() == set@.len());
        assert(u.len() == unset@.len());
    }
}

/// The resolver of each platform is told to forget, and a reload that finds no resolver is no
/// failure.
pub proof fn law_the_resolver_is_told_to_forget(
    platform: Platform,
    flush: Vec<Argv>,
    reload: Vec<Argv>,
    windows_flush: Vec<Argv>,
    windows_reload: Vec<Argv>,
)
    requires
        call_ensures(unix_flush_dns, (platform,), flush),
        call_ensures(unix_reload_resolver, (platform,), reload),
        call_ensures(windows_flush_dns, (), windows_flush),
        call_ensures(windows_reload_resolver, (), windows_reload),
    ensures
        ({
            let resolved = seq!["resolvectl"@, "flush-caches"@];
            let ipconfig = seq!["ipconfig"@, "/flushdns"@];
            &&& command_seq(flush@) == if platform == Platform::Linux {
                seq![(resolved, false)]
            } else {
                seq![
                    (seq!["dscacheutil"@, "-flushcache"@], false),
                    (seq!["killall"@, "-HUP"@, "mDNSResponder"@], false),
                ]
            }
            &&& command_seq(reload@) == if platform == Platform::Linux {
                seq![(resolved, true)]
            } else {
                seq![(seq!["killall"@, "mDNSResponder"@], true)]
            }
            &&& command_seq(windows_flush@) == seq![(ipconfig, false)]
            &&& command_seq(windows_reload@) == seq![(ipconfig, true)]
        }),
{
}

} // verus!
