//! Starting the privileged daemon from the unprivileged GUI, and talking to it.
//!
//! The GUI never edits the hosts file or the trust store itself. It locates the CLI, launches the
//! daemon through the OS elevation prompt, and from then on talks to it *only* through the
//! loopback control channel.

use vstd::prelude::*;
use vstd::string::*;

use crate::error::Error;
use crate::json::hex_digit;
use crate::paths;
use crate::paths::join_path;
use crate::platform::Platform;
use crate::text::{decimal, numeral, replace, replaced, texts};

verus! {

pub const SESSION_FILE: &'static str = "daemon-session.json";

pub const LOG_FILE: &'static str = "daemon.log";

// ── Locations ────────────────────────────────────────────────────────────────

/// Where the pairing with a daemon is kept, so that a restarted GUI re-attaches to it.
pub fn session_path(platform: Platform, data_dir: &str) -> (r: String)
    ensures
        r@ == join_path(platform, data_dir@, SESSION_FILE@),
{
    paths::join(platform, data_dir, SESSION_FILE)
}

/// Where the output of the daemon goes.
pub fn log_path(platform: Platform, data_dir: &str) -> (r: String)
    ensures
        r@ == join_path(platform, join_path(platform, data_dir@, "logs"@), LOG_FILE@),
{
    paths::join(platform, paths::log_dir(platform, data_dir).as_str(), LOG_FILE)
}

// ── Tokens ───────────────────────────────────────────────────────────────────

/// The last `n` hexadecimal digits of a number.
pub open spec fn hex_word(word: nat, n: nat) -> Seq<char>
    decreases n,
{
    if n == 0 {
        seq![]
    } else {
        hex_word(word / 16, (n - 1) as nat).push(hex_digit(word as int % 16))
    }
}

/// The words as sixteen hexadecimal digits each.
pub open spec fn hex_words(words: Seq<u64>) -> Seq<char>
    decreases words.len(),
{
    if words.len() == 0 {
        seq![]
    } else {
        hex_words(words.drop_last()) + hex_word(words.last() as nat, 16)
    }
}

/// The last `n` hexadecimal digits of a number.
fn word_digits(word: u64, n: u32) -> (r: String)
    ensures
        r@ == hex_word(word as nat, n as nat),
    decreases n,
{
    if n == 0 {
        String::new()
    } else {
        let mut r = word_digits(word / 16, n - 1);
        let d: u8 = (word % 16) as u8;
        r.push(
            if d < 10 {
                (48 + d) as char
            } else {
                (87 + d) as char
            },
        );
        r
    }
}

/// A bearer token made of words that were drawn at random.
pub fn token(words: &[u64]) -> (r: String)
    ensures
        r@ == hex_words(words@),
{
    let mut r = String::new();
    let mut i: usize = 0;
    while i < words.len()
        invariant
            i <= words@.len(),
            r@ == hex_words(words@.take(i as int)),
        decreases words@.len() - i,
    {
        r.push_str(word_digits(words[i], 16).as_str());
        i += 1;
        assert(words@.take(i as int).drop_last() =~= words@.take(i - 1));
    }
    assert(words@.take(i as int) =~= words@);
    r
}

// ── Quoting ──────────────────────────────────────────────────────────────────

/// A text between single quotes for `sh`.
pub open spec fn shell_quoted(s: Seq<char>) -> Seq<char> {
    seq!['\''] + replace(s, '\'', "'\\''"@) + seq!['\'']
}

/// A text for the inside of an AppleScript literal.
pub open spec fn script_quoted(s: Seq<char>) -> Seq<char> {
    replace(replace(s, '\\', "\\\\"@), '"', "\\\""@)
}

/// Single-quote a string for `sh`.
pub fn shq(s: &str) -> (r: String)
    ensures
        r@ == shell_quoted(s@),
{
    let mut r = String::new();
    r.push('\'');
    r.push_str(replaced(s, '\'', "'\\''").as_str());
    r.push('\'');
    assert(r@ =~= shell_quoted(s@));
    r
}

/// Escape a string for the inside of an AppleScript double-quoted literal.
pub fn as_quote(s: &str) -> (r: String)
    ensures
        r@ == script_quoted(s@),
{
    let slashes = replaced(s, '\\', "\\\\");
    replaced(slashes.as_str(), '"', "\\\"")
}

// ── Elevation ────────────────────────────────────────────────────────────────

/// A program with its arguments.
pub type Launch = (Seq<char>, Seq<Seq<char>>);

/// A command line that runs elevated, with its output appended to a log.
pub open spec fn elevated(
    platform: Platform,
    cli: Seq<char>,
    arguments: Seq<char>,
    log: Seq<char>,
    background: bool,
) -> Launch {
    if platform == Platform::Windows {
        let inner = "\""@ + cli + "\" "@ + arguments + " >> \""@ + log + "\" 2>&1"@;
        let script = "Start-Process -FilePath 'cmd.exe' -ArgumentList '/C','"@ + replace(
            inner,
            '\'',
            "''"@,
        ) + if background {
            "' -Verb RunAs -WindowStyle Hidden"@
        } else {
            "' -Verb RunAs -Wait -WindowStyle Hidden"@
        };
        ("powershell"@, seq!["-NoProfile"@, "-Command"@, script])
    } else {
        let shell = shell_quoted(cli) + " "@ + arguments + " >> "@ + shell_quoted(log)
            + if background {
            " 2>&1 &"@
        } else {
            " 2>&1"@
        };
        if platform == Platform::MacOs {
            (
                "osascript"@,
                seq![
                    "-e"@,
                    "do shell script \""@ + script_quoted(shell)
                        + "\" with administrator privileges"@,
                ],
            )
        } else {
            ("pkexec"@, seq!["/bin/sh"@, "-c"@, shell])
        }
    }
}

/// A command line that runs elevated, with its output appended to a log.
fn elevate(
    platform: Platform,
    cli: &str,
    arguments: &str,
    log: &str,
    background: bool,
) -> (r: (String, Vec<String>))
    ensures
        (r.0@, texts(r.1@)) == elevated(platform, cli@, arguments@, log@, background),
{
    let ghost want = elevated(platform, cli@, arguments@, log@, background);
    if platform == Platform::Windows {
        let mut inner = "\"".to_string();
        inner.push_str(cli);
        inner.push_str("\" ");
        inner.push_str(arguments);
        inner.push_str(" >> \"");
        inner.push_str(log);
        inner.push_str("\" 2>&1");
        let mut script = "Start-Process -FilePath 'cmd.exe' -ArgumentList '/C','".to_string();
        script.push_str(replaced(inner.as_str(), '\'', "''").as_str());
        script.push_str(
            if background {
                "' -Verb RunAs -WindowStyle Hidden"
            } else {
                "' -Verb RunAs -Wait -WindowStyle Hidden"
            },
        );
        let args = vec!["-NoProfile".to_string(), "-Command".to_string(), script];
        assert(texts(args@) =~= want.1);
        return ("powershell".to_string(), args);
    }
    let mut shell = shq(cli);
    shell.push_str(" ");
    shell.push_str(arguments);
    shell.push_str(" >> ");
    shell.push_str(shq(log).as_str());
    shell.push_str(
        if background {
            " 2>&1 &"
        } else {
            " 2>&1"
        },
    );
    if platform == Platform::MacOs {
        let mut script = "do shell script \"".to_string();
        script.push_str(as_quote(shell.as_str()).as_str());
        script.push_str("\" with administrator privileges");
        let args = vec!["-e".to_string(), script];
        assert(texts(args@) =~= want.1);
        return ("osascript".to_string(), args);
    }
    // pkexec is the desktop-standard elevation prompt on Linux.
    let args = vec!["/bin/sh".to_string(), "-c".to_string(), shell];
    assert(texts(args@) =~= want.1);
    ("pkexec".to_string(), args)
}

/// The command that launches the daemon with administrator rights.
///
/// The daemon runs detached: the launcher exits as soon as the daemon is started, and liveness is
/// answered by the control channel, not by guessing from process trees across an elevation
/// boundary.
pub fn elevation_argv(platform: Platform, cli: &str, port: u16, token: &str, log: &str) -> (r: (
    String,
    Vec<String>,
))
    ensures
        (r.0@, texts(r.1@)) == elevated(
            platform,
            cli@,
            "daemon --control-port "@ + decimal(port as nat) + " --token "@ + token@,
            log@,
            true,
        ),
{
    let mut arguments = "daemon --control-port ".to_string();
    arguments.push_str(numeral(port as u64).as_str());
    arguments.push_str(" --token ");
    arguments.push_str(token);
    elevate(platform, cli, arguments.as_str(), log, true)
}

/// The command that runs a batch of privileged ops through the CLI's `elevated` entry point with
/// OS elevation: the same one-prompt mechanism as the daemon launch, but in the foreground, so
/// that the launcher blocks until the ops complete.
pub fn elevated_ops_argv(platform: Platform, cli: &str, ops_b64: &str, log: &str) -> (r: (
    String,
    Vec<String>,
))
    ensures
        (r.0@, texts(r.1@)) == elevated(
            platform,
            cli@,
            "elevated --ops "@ + ops_b64@,
            log@,
            false,
        ),
{
    let mut arguments = "elevated --ops ".to_string();
    arguments.push_str(ops_b64);
    elevate(platform, cli, arguments.as_str(), log, false)
}

/// The error for a privileged batch that failed: its exit status, and the end of the log where
/// there is any.
pub fn batch_failure(status: &str, tail: &str) -> (e: Error)
    ensures
        e is Elevation,
        e->Elevation_0@ == "privileged setup exited with "@ + status@ + if tail@.len() == 0 {
            ""@
        } else {
            ":\n"@ + tail@
        },
{
    let mut text = "privileged setup exited with ".to_string();
    text.push_str(status);
    proof {
        reveal_strlit("");
        assert(text@ + ""@ =~= text@);
        assert(text@ + (":\n"@ + tail@) =~= text@ + ":\n"@ + tail@);
    }
    if !tail.is_empty() {
        text.push_str(":\n");
        text.push_str(tail);
    }
    Error::Elevation(text)
}

// ── The CLI ──────────────────────────────────────────────────────────────────

/// The names that the CLI may have.
pub open spec fn cli_names(platform: Platform) -> Seq<Seq<char>> {
    if platform == Platform::Windows {
        seq!["9rai.exe"@, "9rai"@]
    } else {
        seq!["9rai"@]
    }
}

/// Every name in every directory, directory by directory, for the first `n` directories.
pub open spec fn places(platform: Platform, dirs: Seq<Seq<char>>, n: nat) -> Seq<Seq<char>>
    decreases n,
{
    if n == 0 {
        seq![]
    } else {
        places(platform, dirs, (n - 1) as nat) + cli_names(platform).map_values(
            |name: Seq<char>| join_path(platform, dirs[n - 1], name),
        )
    }
}

/// The files to look for the CLI at, in order: next to the GUI's own executable, then along the
/// search path. `dirs` are these directories.
pub fn cli_places(platform: Platform, dirs: &[String]) -> (r: Vec<String>)
    ensures
        texts(r@) == places(platform, texts(dirs@), dirs@.len()),
{
    let mut r: Vec<String> = Vec::new();
    let mut i: usize = 0;
    assert(texts(r@) =~= seq![]);
    while i < dirs.len()
        invariant
            i <= dirs@.len(),
            texts(r@) == places(platform, texts(dirs@), i as nat),
        decreases dirs@.len() - i,
    {
        let ghost before = texts(r@);
        let dir = dirs[i].as_str();
        if platform == Platform::Windows {
            r.push(paths::join(platform, dir, "9rai.exe"));
        }
        r.push(paths::join(platform, dir, "9rai"));
        i += 1;
        assert(texts(r@) =~= before + cli_names(platform).map_values(
            |name: Seq<char>| join_path(platform, texts(dirs@)[i - 1], name),
        ));
    }
    r
}

/// The first place, from the `i`-th on, that holds a file.
pub open spec fn first_file(places: Seq<Seq<char>>, files: Seq<bool>, i: nat) -> Option<Seq<char>>
    decreases places.len() - i,
{
    if i >= places.len() || i >= files.len() {
        None
    } else if files[i as int] {
        Some(places[i as int])
    } else {
        first_file(places, files, i + 1)
    }
}

/// Find the CLI: an explicit override counts, and must be a file; else the first of the places that
/// holds a file. `files` says of each place whether it does.
pub fn locate_cli(explicit: Option<(&str, bool)>, places: &[String], files: &[bool]) -> (r: Result<
    String,
    Error,
>)
    ensures
        match (explicit, r) {
            (Some((p, true)), Ok(found)) => found@ == p@,
            (Some((p, false)), Err(e)) => e is Elevation && e->Elevation_0@
                == "NINE_RAI_CLI points at "@ + p@ + " which is not a file"@,
            (None, Ok(found)) => first_file(texts(places@), files@, 0) == Some(found@),
            (None, Err(e)) => first_file(texts(places@), files@, 0) is None && e is Elevation
                && e->Elevation_0@
                == "cannot find the `9rai` CLI — build it (`cargo build --release --bin 9rai`) or set NINE_RAI_CLI"@,
            _ => false,
        },
{
    match explicit {
        Some((p, is_file)) => {
            if is_file {
                return Ok(p.to_string());
            }
            let mut why = "NINE_RAI_CLI points at ".to_string();
            why.push_str(p);
            why.push_str(" which is not a file");
            return Err(Error::Elevation(why));
        },
        None => {},
    }
    let mut i: usize = 0;
    let ghost all = texts(places@);
    while i < places.len() && i < files.len()
        invariant
            i <= places@.len(),
            i <= files@.len(),
            all == texts(places@),
            explicit is None,
            first_file(all, files@, 0) == first_file(all, files@, i as nat),
        decreases places@.len() - i,
    {
        if files[i] {
            return Ok(places[i].clone());
        }
        i += 1;
    }
    Err(
        Error::Elevation(
            "cannot find the `9rai` CLI — build it (`cargo build --release --bin 9rai`) or set NINE_RAI_CLI".to_string(),
        ),
    )
}

// ── Control channel ──────────────────────────────────────────────────────────

/// What a daemon answers to the question for its status.
#[derive(Debug, Clone, Copy)]
pub struct StatusReply {
    pub ok: bool,
    pub pid: u32,
}

/// What came back from the control channel.
#[derive(Debug)]
pub enum ChannelReply {
    /// Nothing is listening.
    Refused,
    /// The request failed otherwise.
    Failed(String),
    /// Something answered with this status code. The body is the reply, or why it is none.
    Answered { status: u16, body: Result<StatusReply, String> },
}

/// The answer of a daemon. Nothing where nothing is listening; an error where something *is*
/// listening but is not the daemon that was started.
pub fn judge_probe(port: u16, reply: &ChannelReply) -> (r: Result<Option<StatusReply>, Error>)
    ensures
        match reply {
            ChannelReply::Refused => r == Ok::<Option<StatusReply>, Error>(None),
            ChannelReply::Failed(why) => r is Err && r->Err_0 is Elevation
                && r->Err_0->Elevation_0@ == "control channel: "@ + why@,
            ChannelReply::Answered { status, body } => if *status == 401 {
                r is Err && r->Err_0 is Elevation && r->Err_0->Elevation_0@ == "port "@ + decimal(
                    port as nat,
                )
                    + " is held by a process that rejects our token — is another 9rai daemon running?"@
            } else {
                match *body {
                    Ok(s) => r == Ok::<Option<StatusReply>, Error>(Some(s)),
                    Err(why) => r is Err && r->Err_0 is Elevation && r->Err_0->Elevation_0@
                        == "control channel reply: "@ + why@,
                }
            },
        },
{
    match reply {
        ChannelReply::Refused => Ok(None),
        ChannelReply::Failed(why) => {
            let mut text = "control channel: ".to_string();
            text.push_str(why.as_str());
            Err(Error::Elevation(text))
        },
        ChannelReply::Answered { status, body } => {
            if *status == 401 {
                let mut text = "port ".to_string();
                text.push_str(numeral(port as u64).as_str());
                text.push_str(
                    " is held by a process that rejects our token — is another 9rai daemon running?",
                );
                return Err(Error::Elevation(text));
            }
            match body {
                Ok(s) => Ok(Some(*s)),
                Err(why) => {
                    let mut text = "control channel reply: ".to_string();
                    text.push_str(why.as_str());
                    Err(Error::Elevation(text))
                },
            }
        },
    }
}

// ── Laws ─────────────────────────────────────────────────────────────────────

/// The word that `sh` reads: what stands between single quotes is taken as it is, and a backslash
/// outside of them takes the next character as it is. Nothing where a quote is left open, or a
/// character stands outside of quotes.
pub open spec fn shell_word(s: Seq<char>, quoted: bool) -> Option<Seq<char>>
    decreases s.len(),
{
    if s.len() == 0 {
        if quoted {
            None
        } else {
            Some(seq![])
        }
    } else if s[0] == '\'' {
        shell_word(s.skip(1), !quoted)
    } else if quoted {
        match shell_word(s.skip(1), true) {
            Some(rest) => Some(seq![s[0]] + rest),
            None => None,
        }
    } else if s[0] == '\\' && s.len() > 1 {
        match shell_word(s.skip(2), false) {
            Some(rest) => Some(seq![s[1]] + rest),
            None => None,
        }
    } else {
        None
    }
}

/// The text that AppleScript reads inside a literal: a backslash takes the next character as it is.
/// Nothing where a quotation mark ends the literal early, or a backslash comes last.
pub open spec fn script_text(s: Seq<char>) -> Option<Seq<char>>
    decreases s.len(),
{
    if s.len() == 0 {
        Some(seq![])
    } else if s[0] == '"' {
        None
    } else if s[0] == '\\' {
        if s.len() > 1 {
            match script_text(s.skip(2)) {
                Some(rest) => Some(seq![s[1]] + rest),
                None => None,
            }
        } else {
            None
        }
    } else {
        match script_text(s.skip(1)) {
            Some(rest) => Some(seq![s[0]] + rest),
            None => None,
        }
    }
}

/// Replacing goes character by character from the front, too.
proof fn lemma_replace_front(s: Seq<char>, c: char, with: Seq<char>)
    requires
        s.len() > 0,
    ensures
        replace(s, c, with) == (if s[0] == c {
            with
        } else {
            seq![s[0]]
        }) + replace(s.skip(1), c, with),
    decreases s.len(),
{
    let head = if s[0] == c {
        with
    } else {
        seq![s[0]]
    };
    if s.len() == 1 {
        assert(s.drop_last() =~= seq![]);
        assert(s.skip(1) =~= seq![]);
        assert(replace(s, c, with) =~= head + replace(s.skip(1), c, with));
    } else {
        let t = s.drop_last();
        lemma_replace_front(t, c, with);
        assert(t.skip(1) =~= s.skip(1).drop_last());
        assert(s.skip(1).last() == s.last());
        assert(replace(s, c, with) =~= head + replace(s.skip(1), c, with));
    }
}

proof fn lemma_shell_word(s: Seq<char>)
    ensures
        shell_word(replace(s, '\'', "'\\''"@) + seq!['\''], true) == Some(s),
    decreases s.len(),
{
    reveal_strlit("'\\''");
    let with = "'\\''"@;
    assert(with =~= seq!['\'', '\\', '\'', '\'']);
    let q = replace(s, '\'', with) + seq!['\''];
    reveal_with_fuel(shell_word, 5);
    if s.len() == 0 {
        assert(q =~= seq!['\'']);
        assert(q.skip(1) =~= seq![]);
        assert(s =~= seq![]);
    } else {
        lemma_replace_front(s, '\'', with);
        lemma_shell_word(s.skip(1));
        let rest = replace(s.skip(1), '\'', with) + seq!['\''];
        assert(seq![s[0]] + s.skip(1) =~= s);
        if s[0] == '\'' {
            assert(q =~= with + rest);
            assert(q.skip(1)[0] == '\\');
            assert(q.skip(1)[1] == '\'');
            assert(q.skip(1).skip(2)[0] == '\'');
            assert(q.skip(1).skip(2).skip(1) =~= rest);
        } else {
            assert(q =~= seq![s[0]] + rest);
            assert(q.skip(1) =~= rest);
        }
    }
}

/// Whatever a text holds, `sh` reads it back from its quoted form as one word.
pub proof fn law_shell_reads_back_what_was_quoted(s: Seq<char>)
    ensures
        shell_word(shell_quoted(s), false) == Some(s),
{
    lemma_shell_word(s);
    let q = shell_quoted(s);
    assert(q.skip(1) =~= replace(s, '\'', "'\\''"@) + seq!['\'']);
}

/// Whatever a text holds, AppleScript reads it back from its escaped form.
pub proof fn law_script_reads_back_what_was_quoted(s: Seq<char>)
    ensures
        script_text(script_quoted(s)) == Some(s),
    decreases s.len(),
{
    reveal_strlit("\\\\");
    reveal_strlit("\\\"");
    let bb = "\\\\"@;
    let bq = "\\\""@;
    assert(bb =~= seq!['\\', '\\']);
    assert(bq =~= seq!['\\', '"']);
    let q = script_quoted(s);
    if s.len() == 0 {
        assert(q =~= seq![]);
        assert(s =~= seq![]);
    } else {
        let c = s[0];
        let t = s.skip(1);
        law_script_reads_back_what_was_quoted(t);
        lemma_replace_front(s, '\\', bb);
        let inner = replace(s, '\\', bb);
        let rest = replace(t, '\\', bb);
        assert(seq![c] + t =~= s);
        lemma_replace_front(inner, '"', bq);
        if c == '\\' {
            assert(inner =~= bb + rest);
            assert(inner.skip(1)[0] == '\\');
            lemma_replace_front(inner.skip(1), '"', bq);
            assert(inner.skip(1).skip(1) =~= rest);
            assert(q =~= seq!['\\', '\\'] + script_quoted(t));
            assert(q.skip(2) =~= script_quoted(t));
        } else {
            assert(inner =~= seq![c] + rest);
            assert(inner.skip(1) =~= rest);
            if c == '"' {
                assert(q =~= seq!['\\', '"'] + script_quoted(t));
                assert(q.skip(2) =~= script_quoted(t));
            } else {
                assert(q =~= seq![c] + script_quoted(t));
                assert(q.skip(1) =~= script_quoted(t));
            }
        }
    }
}

// ── Laws on calls ────────────────────────────────────────────────────────────

/// The first `n` of the digits tell a number below sixteen to the power of `n`.
proof fn lemma_hex_word(a: nat, b: nat, n: nat)
    requires
        hex_word(a, n) == hex_word(b, n),
        a < vstd::arithmetic::power::pow(16, n),
        b < vstd::arithmetic::power::pow(16, n),
    ensures
        a == b,
    decreases n,
{
    vstd::arithmetic::power::lemma_pow0(16);
    if n > 0 {
        vstd::arithmetic::power::lemma_pow_adds(16, (n - 1) as nat, 1);
        vstd::arithmetic::power::lemma_pow1(16);
        let x = hex_word(a, n);
        let y = hex_word(b, n);
        assert(x.drop_last() =~= hex_word(a / 16, (n - 1) as nat));
        assert(y.drop_last() =~= hex_word(b / 16, (n - 1) as nat));
        assert(x.last() == hex_digit(a as int % 16));
        assert(y.last() == hex_digit(b as int % 16));
        let p = vstd::arithmetic::power::pow(16, (n - 1) as nat);
        assert(a / 16 < p && b / 16 < p) by (nonlinear_arith)
            requires
                a < p * 16,
                b < p * 16,
                p >= 0,
        ;
        lemma_hex_word(a / 16, b / 16, (n - 1) as nat);
    }
}

proof fn lemma_hex_word_len(a: nat, n: nat)
    ensures
        hex_word(a, n).len() == n,
    decreases n,
{
    if n > 0 {
        lemma_hex_word_len(a / 16, (n - 1) as nat);
    }
}

/// A token is as hard to guess as the words that it was made of: other words give another token.
pub proof fn law_tokens_tell_their_words(a: &[u64], b: &[u64], x: String, y: String)
    requires
        call_ensures(token, (a,), x),
        call_ensures(token, (b,), y),
        a@.len() == b@.len(),
    ensures
        x@ == y@ <==> a@ == b@,
        x@.len() == 16 * a@.len(),
{
    lemma_hex_words(a@, b@);
}

proof fn lemma_hex_words(a: Seq<u64>, b: Seq<u64>)
    requires
        a.len() == b.len(),
    ensures
        hex_words(a) == hex_words(b) <==> a == b,
        hex_words(a).len() == 16 * a.len(),
        hex_words(b).len() == 16 * b.len(),
    decreases a.len(),
{
    if a.len() == 0 {
        assert(a =~= b);
    } else {
        let f = a.drop_last();
        let g = b.drop_last();
        lemma_hex_words(f, g);
        lemma_hex_word_len(a.last() as nat, 16);
        lemma_hex_word_len(b.last() as nat, 16);
        if hex_words(a) == hex_words(b) {
            let n = hex_words(f).len() as int;
            assert(hex_words(f) =~= hex_words(a).take(n));
            assert(hex_words(g) =~= hex_words(b).take(n));
            assert(hex_word(a.last() as nat, 16) =~= hex_words(a).skip(n));
            assert(hex_word(b.last() as nat, 16) =~= hex_words(b).skip(n));
            assert(vstd::arithmetic::power::pow(16, 16) == 0x1_0000_0000_0000_0000) by {
                lemma_sixteens();
            }
            lemma_hex_word(a.last() as nat, b.last() as nat, 16);
            assert(a =~= f.push(a.last()));
            assert(b =~= g.push(b.last()));
        }
    }
}

proof fn lemma_sixteens()
    ensures
        vstd::arithmetic::power::pow(16, 16) == 0x1_0000_0000_0000_0000,
{
    reveal(vstd::arithmetic::power::pow);
    reveal_with_fuel(vstd::arithmetic::power::pow, 17);
}

/// What is quoted is read back as it was, by the shell and by the script, whatever it holds.
pub proof fn law_quoting_can_be_undone(s: &str, shell: String, script: String)
    requires
        call_ensures(shq, (s,), shell),
        call_ensures(as_quote, (s,), script),
    ensures
        shell_word(shell@, false) == Some(s@),
        script_text(script@) == Some(s@),
{
    law_shell_reads_back_what_was_quoted(s@);
    law_script_reads_back_what_was_quoted(s@);
}

/// The daemon is launched with the port and the token that it was given, and in the background; a
/// batch is run with its steps, and waited for. Each leaves its output in the log.
pub proof fn law_launches_hand_over_what_was_given(
    cli: &str,
    port: u16,
    token_: &str,
    ops: &str,
    log: &str,
    daemon: (String, Vec<String>),
    batch: (String, Vec<String>),
)
    requires
        call_ensures(elevation_argv, (Platform::Linux, cli, port, token_, log), daemon),
        call_ensures(elevated_ops_argv, (Platform::Linux, cli, ops, log), batch),
    ensures
        daemon.0@ == "pkexec"@,
        batch.0@ == "pkexec"@,
        texts(daemon.1@) == seq![
            "/bin/sh"@,
            "-c"@,
            shell_quoted(cli@) + " "@ + ("daemon --control-port "@ + decimal(port as nat)
                + " --token "@ + token_@) + " >> "@ + shell_quoted(log@) + " 2>&1 &"@,
        ],
        texts(batch.1@) == seq![
            "/bin/sh"@,
            "-c"@,
            shell_quoted(cli@) + " "@ + ("elevated --ops "@ + ops@) + " >> "@ + shell_quoted(log@)
                + " 2>&1"@,
        ],
{
}

proof fn lemma_first_file(places: Seq<Seq<char>>, files: Seq<bool>, from: nat)
    requires
        places.len() == files.len(),
    ensures
        match first_file(places, files, from) {
            Some(p) => exists|i: int|
                from <= i < places.len() && #[trigger] files[i] && places[i] == p && forall|j: int|
                    from <= j < i ==> !#[trigger] files[j],
            None => forall|i: int| from <= i < places.len() ==> !#[trigger] files[i],
        },
    decreases places.len() - from,
{
    if from < places.len() && !files[from as int] {
        lemma_first_file(places, files, from + 1);
        if first_file(places, files, from) is Some {
            let p = first_file(places, files, from)->0;
            let i = choose|i: int|
                from + 1 <= i < places.len() && #[trigger] files[i] && places[i] == p && forall|
                    j: int,
                |
                    from + 1 <= j < i ==> !#[trigger] files[j];
            assert(files[i]);
        }
    }
}

/// The program is found where it was said to be, and is looked for nowhere else then; else at the
/// first of the places that holds a file.
pub proof fn law_the_first_file_is_taken(
    said: &str,
    is_file: bool,
    places_: &[String],
    files: &[bool],
    explicit: Result<String, Error>,
    found: Result<String, Error>,
)
    requires
        call_ensures(locate_cli, (Some((said, is_file)), places_, files), explicit),
        call_ensures(locate_cli, (None::<(&str, bool)>, places_, files), found),
        places_@.len() == files@.len(),
    ensures
        is_file ==> explicit is Ok && explicit->Ok_0@ == said@,
        !is_file ==> explicit is Err,
        found is Ok <==> exists|i: int| 0 <= i < files@.len() && #[trigger] files@[i],
        found is Ok ==> exists|i: int|
            0 <= i < files@.len() && #[trigger] files@[i] && places_@[i]@ == found->Ok_0@
                && forall|j: int| 0 <= j < i ==> !#[trigger] files@[j],
{
    lemma_first_file(texts(places_@), files@, 0);
    if found is Ok {
        let i = choose|i: int|
            0 <= i < places_@.len() && #[trigger] files@[i] && texts(places_@)[i] == found->Ok_0@
                && forall|j: int| 0 <= j < i ==> !#[trigger] files@[j];
        assert(places_@[i]@ == texts(places_@)[i]);
    }
}

/// Directories are searched in their order.
pub proof fn law_directories_are_searched_in_order(
    platform: Platform,
    dirs: &[String],
    more: &[String],
    a: Vec<String>,
    b: Vec<String>,
    dir: String,
)
    requires
        call_ensures(cli_places, (platform, dirs), a),
        call_ensures(cli_places, (platform, more), b),
        more@ == dirs@.push(dir),
    ensures
        texts(b@) == texts(a@) + if platform == Platform::Windows {
            seq![
                join_path(platform, dir@, "9rai.exe"@),
                join_path(platform, dir@, "9rai"@),
            ]
        } else {
            seq![join_path(platform, dir@, "9rai"@)]
        },
        dirs@.len() == 0 ==> a@.len() == 0,
{
    let x = texts(dirs@);
    let y = texts(more@);
    assert forall|i: int| 0 <= i < x.len() implies x[i] == #[trigger] y[i] by {
        assert(more@[i] == dirs@[i]);
    }
    lemma_places_prefix(platform, x, y, x.len());
    assert(y[x.len() as int] == dir@);
    assert(texts(a@).len() == a@.len());
    let names = cli_names(platform).map_values(
        |name: Seq<char>| join_path(platform, y[x.len() as int], name),
    );
    assert(names =~= if platform == Platform::Windows {
        seq![join_path(platform, dir@, "9rai.exe"@), join_path(platform, dir@, "9rai"@)]
    } else {
        seq![join_path(platform, dir@, "9rai"@)]
    });
}

proof fn lemma_places_prefix(platform: Platform, a: Seq<Seq<char>>, b: Seq<Seq<char>>, n: nat)
    requires
        n <= a.len(),
        n <= b.len(),
        forall|i: int| 0 <= i < n ==> a[i] == #[trigger] b[i],
    ensures
        places(platform, a, n) == places(platform, b, n),
    decreases n,
{
    if n > 0 {
        lemma_places_prefix(platform, a, b, (n - 1) as nat);
        assert(a[n - 1] == b[n - 1]);
    }
}

/// A daemon is believed to be up only where one answered with its status; nothing at all on the port
/// is no failure; and whoever refuses the token is a stranger.
pub proof fn law_only_an_answer_is_a_daemon(
    port: u16,
    reply: &ChannelReply,
    r: Result<Option<StatusReply>, Error>,
)
    requires
        call_ensures(judge_probe, (port, reply), r),
    ensures
        match *reply {
            ChannelReply::Refused => r is Ok && r->Ok_0 is None,
            ChannelReply::Failed(_) => r is Err,
            ChannelReply::Answered { status, body } => {
                &&& status == 401 ==> r is Err
                &&& status != 401 && body is Ok ==> r is Ok && r->Ok_0 == Some(body->Ok_0)
                &&& body is Err ==> r is Err
            },
        },
        r is Err ==> r->Err_0 is Elevation,
{
}

/// What a run leaves behind is found in the data directory.
pub proof fn law_runs_leave_their_files(
    platform: Platform,
    data_dir: &str,
    session: String,
    log: String,
)
    requires
        call_ensures(session_path, (platform, data_dir), session),
        call_ensures(log_path, (platform, data_dir), log),
    ensures
        session@ == join_path(platform, data_dir@, "daemon-session.json"@),
        log@ == join_path(platform, join_path(platform, data_dir@, "logs"@), "daemon.log"@),
{
}

/// A batch that failed is told with how it exited and, where it printed anything, with that.
pub proof fn law_failed_batches_are_told(status: &str, tail: &str, e: Error)
    requires
        call_ensures(batch_failure, (status, tail), e),
    ensures
        e is Elevation,
        tail@.len() == 0 ==> status@.is_suffix_of(e->Elevation_0@),
        tail@.len() > 0 ==> (status@ + ":\n"@ + tail@).is_suffix_of(e->Elevation_0@),
{
    let text = e->Elevation_0@;
    let end = if tail@.len() == 0 {
        status@
    } else {
        status@ + ":\n"@ + tail@
    };
    reveal_strlit("");
    assert(end =~= text.subrange(text.len() - end.len(), text.len() as int));
}

/// The value of a hexadecimal digit in lower case.
pub open spec fn hex_value(c: char) -> int {
    if '0' <= c <= '9' {
        c as int - '0' as int
    } else {
        c as int - 'a' as int + 10
    }
}

/// The number that hexadecimal digits stand for, the most significant first.
pub open spec fn hex_total(s: Seq<char>) -> int
    decreases s.len(),
{
    if s.len() == 0 {
        0
    } else {
        hex_total(s.drop_last()) * 16 + hex_value(s.last())
    }
}

/// A token is its words in their order, each as sixteen hexadecimal digits in lower case.
pub proof fn law_tokens_are_read_as_numbers(words: &[u64], r: String, i: int)
    requires
        call_ensures(token, (words,), r),
        0 <= i < words@.len(),
    ensures
        r@.len() == 16 * words@.len(),
        hex_total(r@.subrange(16 * i, 16 * i + 16)) == words@[i],
        forall|j: int|
            0 <= j < r@.len() ==> '0' <= #[trigger] r@[j] <= '9' || 'a' <= r@[j] <= 'f',
{
    lemma_words_apart(words@, i);
    lemma_sixteens();
    lemma_hex_total(words@[i] as nat, 16);
}

proof fn lemma_words_apart(words: Seq<u64>, i: int)
    requires
        0 <= i < words.len(),
    ensures
        hex_words(words).len() == 16 * words.len(),
        hex_words(words).subrange(16 * i, 16 * i + 16) == hex_word(words[i] as nat, 16),
        forall|j: int|
            0 <= j < hex_words(words).len() ==> '0' <= #[trigger] hex_words(words)[j] <= '9'
                || 'a' <= hex_words(words)[j] <= 'f',
    decreases words.len(),
{
    let rest = words.drop_last();
    let all = hex_words(words);
    let last = hex_word(words.last() as nat, 16);
    lemma_hex_word_len(words.last() as nat, 16);
    lemma_hex_digits(words.last() as nat, 16);
    if rest.len() > 0 {
        lemma_words_apart(
            rest,
            if i < rest.len() {
                i
            } else {
                0
            },
        );
    } else {
        assert(hex_words(rest) =~= seq![]);
    }
    let front = hex_words(rest);
    assert(all =~= front + last);
    if i < rest.len() {
        assert(all.subrange(16 * i, 16 * i + 16) =~= front.subrange(16 * i, 16 * i + 16));
    } else {
        assert(all.subrange(16 * i, 16 * i + 16) =~= last);
    }
    assert forall|j: int| 0 <= j < all.len() implies '0' <= #[trigger] all[j] <= '9' || 'a'
        <= all[j] <= 'f' by {
        if j < front.len() {
            assert(all[j] == front[j]);
        } else {
            assert(all[j] == last[j - front.len()]);
        }
    }
}

proof fn lemma_hex_digits(word: nat, n: nat)
    ensures
        forall|j: int|
            0 <= j < hex_word(word, n).len() ==> '0' <= #[trigger] hex_word(word, n)[j] <= '9'
                || 'a' <= hex_word(word, n)[j] <= 'f',
    decreases n,
{
    if n > 0 {
        lemma_hex_digits(word / 16, (n - 1) as nat);
        let before = hex_word(word / 16, (n - 1) as nat);
        let s = hex_word(word, n);
        assert forall|j: int| 0 <= j < s.len() implies '0' <= #[trigger] s[j] <= '9' || 'a' <= s[j]
            <= 'f' by {
            if j < before.len() {
                assert(s[j] == before[j]);
            } else {
                assert(s[j] == hex_digit(word as int % 16));
            }
        }
    }
}

proof fn lemma_hex_total(word: nat, n: nat)
    requires
        word < vstd::arithmetic::power::pow(16, n),
    ensures
        hex_total(hex_word(word, n)) == word,
    decreases n,
{
    vstd::arithmetic::power::lemma_pow0(16);
    if n > 0 {
        vstd::arithmetic::power::lemma_pow_adds(16, (n - 1) as nat, 1);
        vstd::arithmetic::power::lemma_pow1(16);
        let s = hex_word(word, n);
        lemma_hex_total(word / 16, (n - 1) as nat);
        assert(s.drop_last() =~= hex_word(word / 16, (n - 1) as nat));
        assert(hex_value(hex_digit(word as int % 16)) == word % 16);
    }
}

/// On macOS the script runs what the shell would run on Linux, and Windows starts the program with
/// the same words; a batch is waited for and a daemon is not.
pub proof fn law_each_platform_elevates_alike(
    cli: &str,
    port: u16,
    token_: &str,
    ops: &str,
    log: &str,
    linux: (String, Vec<String>),
    mac: (String, Vec<String>),
    linux_ops: (String, Vec<String>),
    mac_ops: (String, Vec<String>),
)
    requires
        call_ensures(elevation_argv, (Platform::Linux, cli, port, token_, log), linux),
        call_ensures(elevation_argv, (Platform::MacOs, cli, port, token_, log), mac),
        call_ensures(elevated_ops_argv, (Platform::Linux, cli, ops, log), linux_ops),
        call_ensures(elevated_ops_argv, (Platform::MacOs, cli, ops, log), mac_ops),
    ensures
        mac.0@ == "osascript"@,
        mac_ops.0@ == "osascript"@,
        mac.1@.len() == 2 && mac.1@[0]@ == "-e"@,
        mac_ops.1@.len() == 2 && mac_ops.1@[0]@ == "-e"@,
        runs_in_script(mac.1@[1]@, linux.1@[2]@),
        runs_in_script(mac_ops.1@[1]@, linux_ops.1@[2]@),
{
    let a = texts(mac.1@);
    let b = texts(mac_ops.1@);
    let c = texts(linux.1@);
    let d = texts(linux_ops.1@);
    assert(a.len() == 2 && b.len() == 2 && c.len() == 3 && d.len() == 3);
    assert(a[0] == mac.1@[0]@ && a[1] == mac.1@[1]@);
    assert(b[0] == mac_ops.1@[0]@ && b[1] == mac_ops.1@[1]@);
    assert(c[2] == linux.1@[2]@);
    assert(d[2] == linux_ops.1@[2]@);
    law_script_reads_back_what_was_quoted(c[2]);
    law_script_reads_back_what_was_quoted(d[2]);
    let front = "do shell script \""@;
    let back = "\" with administrator privileges"@;
    assert(a[1] =~= front + script_quoted(c[2]) + back);
    assert(b[1] =~= front + script_quoted(d[2]) + back);
}

/// A script runs this shell line with the privilege of an administrator.
pub open spec fn runs_in_script(script: Seq<char>, shell: Seq<char>) -> bool {
    exists|q: Seq<char>|
        {
            &&& script == "do shell script \""@ + q + "\" with administrator privileges"@
            &&& #[trigger] script_text(q) == Some(shell)
        }
}

/// Windows starts the program hidden and elevated, with its output in the log, and each quotation
/// mark of the command line doubled.
pub proof fn law_windows_starts_the_program(
    cli: &str,
    port: u16,
    token_: &str,
    ops: &str,
    log: &str,
    daemon: (String, Vec<String>),
    batch: (String, Vec<String>),
)
    requires
        call_ensures(elevation_argv, (Platform::Windows, cli, port, token_, log), daemon),
        call_ensures(elevated_ops_argv, (Platform::Windows, cli, ops, log), batch),
    ensures
        ({
            let start = "Start-Process -FilePath 'cmd.exe' -ArgumentList '/C','"@;
            let daemon_line = "\""@ + cli@ + "\" "@ + ("daemon --control-port "@ + decimal(
                port as nat,
            ) + " --token "@ + token_@) + " >> \""@ + log@ + "\" 2>&1"@;
            let batch_line = "\""@ + cli@ + "\" "@ + ("elevated --ops "@ + ops@) + " >> \""@ + log@
                + "\" 2>&1"@;
            &&& daemon.0@ == "powershell"@ && batch.0@ == "powershell"@
            &&& texts(daemon.1@) == seq![
                "-NoProfile"@,
                "-Command"@,
                start + replace(daemon_line, '\'', "''"@) + "' -Verb RunAs -WindowStyle Hidden"@,
            ]
            &&& texts(batch.1@) == seq![
                "-NoProfile"@,
                "-Command"@,
                start + replace(batch_line, '\'', "''"@)
                    + "' -Verb RunAs -Wait -WindowStyle Hidden"@,
            ]
        }),
{
}

} // verus!
