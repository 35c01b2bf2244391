//! Binding the port on loopback, with a friendly diagnosis when something already holds it.
//!
//! The hosts file maps the hijacked domains to **both** loopback addresses, so the listener must
//! exist on both loopback stacks, and *only* there: any other address would expose the listener to
//! the whole network.

use vstd::prelude::*;
use vstd::string::*;
use vstd::utf8::encode_utf8;

use crate::command::Argv;
use crate::error::Error;
use crate::platform::Platform;
use crate::text::{
    blank, chars_of, contains, decimal, is_white, law_only_white_space_trims_to_nothing,
    law_trimming_keeps_the_core, lemma_trimmed, numeral, occurs_at, strs, text_between, tight, trim,
    trimmed,
};
use crate::utf8::{from_utf8_lossy, law_encoded_text_reads_back, utf8_lossy};

verus! {

/// Why a port could not be bound.
#[derive(Debug)]
pub enum BindFailure {
    /// Something else holds it, by its name where that is known.
    InUse { owner: Option<String> },
    /// It takes more privilege.
    Denied,
    Other { why: String },
}

/// The error for a port that could not be bound on the IPv4 loopback address.
pub fn bind_error(port: u16, failure: &BindFailure) -> (e: Error)
    ensures
        match failure {
            BindFailure::InUse { owner } => e is Provider && e->Provider_0@ == "port "@ + decimal(
                port as nat,
            ) + " is already in use by "@ + (match *owner {
                Some(o) => o@,
                None => "unknown process"@,
            }) + "; stop it and retry"@,
            BindFailure::Denied => e is Elevation && e->Elevation_0@ == "binding port "@ + decimal(
                port as nat,
            ) + " requires elevated privileges"@,
            BindFailure::Other { why } => e is Provider && e->Provider_0@ == "bind 127.0.0.1:"@
                + decimal(port as nat) + ": "@ + why@,
        },
{
    let number = numeral(port as u64);
    match failure {
        BindFailure::InUse { owner } => {
            let mut text = "port ".to_string();
            text.push_str(number.as_str());
            text.push_str(" is already in use by ");
            match owner {
                Some(o) => {
                    text.push_str(o.as_str());
                },
                None => {
                    text.push_str("unknown process");
                },
            }
            text.push_str("; stop it and retry");
            Error::Provider(text)
        },
        BindFailure::Denied => {
            let mut text = "binding port ".to_string();
            text.push_str(number.as_str());
            text.push_str(" requires elevated privileges");
            Error::Elevation(text)
        },
        BindFailure::Other { why } => {
            let mut text = "bind 127.0.0.1:".to_string();
            text.push_str(number.as_str());
            text.push_str(": ");
            text.push_str(why.as_str());
            Error::Provider(text)
        },
    }
}

// ── Who holds the port? ──────────────────────────────────────────────────────

/// The script that names the process behind a port on Windows.
pub open spec fn owner_script(port: u16) -> Seq<char> {
    "(Get-NetTCPConnection -LocalPort "@ + decimal(port as nat)
        + " -State Listen | Select-Object -First 1 -ExpandProperty OwningProcess | ForEach-Object { (Get-Process -Id $_).ProcessName })"@
}

/// The command that asks who listens on a port.
pub fn owner_probe(platform: Platform, port: u16) -> (r: Argv)
    ensures
        r@ == (
            if platform == Platform::Windows {
                seq!["powershell"@, "-NoProfile"@, "-Command"@, owner_script(port)]
            } else {
                seq![
                    "lsof"@,
                    "-nP"@,
                    "-iTCP:"@ + decimal(port as nat),
                    "-sTCP:LISTEN"@,
                    "-t"@,
                ]
            },
            false,
        ),
{
    let number = numeral(port as u64);
    if platform == Platform::Windows {
        let mut script = "(Get-NetTCPConnection -LocalPort ".to_string();
        script.push_str(number.as_str());
        script.push_str(
            " -State Listen | Select-Object -First 1 -ExpandProperty OwningProcess | ForEach-Object { (Get-Process -Id $_).ProcessName })",
        );
        let args = ["powershell", "-NoProfile", "-Command", script.as_str()];
        assert(strs(args@) =~= seq![
            "powershell"@,
            "-NoProfile"@,
            "-Command"@,
            owner_script(port),
        ]);
        Argv::new(&args)
    } else {
        let mut filter = "-iTCP:".to_string();
        filter.push_str(number.as_str());
        let args = ["lsof", "-nP", filter.as_str(), "-sTCP:LISTEN", "-t"];
        assert(strs(args@) =~= seq![
            "lsof"@,
            "-nP"@,
            "-iTCP:"@ + decimal(port as nat),
            "-sTCP:LISTEN"@,
            "-t"@,
        ]);
        Argv::new(&args)
    }
}

/// The text up to the first white space.
pub open spec fn up_to_white(s: Seq<char>) -> Seq<char>
    decreases s.len(),
{
    if s.len() == 0 || is_white(s[0]) {
        seq![]
    } else {
        seq![s[0]] + up_to_white(s.skip(1))
    }
}

/// The first word of a text, if there is one.
pub open spec fn first_word(s: Seq<char>) -> Option<Seq<char>> {
    let t = trim(s);
    if t.len() == 0 {
        None
    } else {
        Some(up_to_white(t))
    }
}

/// The process that listens on the port, in what the command of [`owner_probe`] printed on Unix.
pub fn listening_pid(stdout: &[u8]) -> (r: Option<String>)
    ensures
        match r {
            Some(pid) => first_word(utf8_lossy(stdout@)) == Some(pid@),
            None => first_word(utf8_lossy(stdout@)) is None,
        },
{
    let text = trimmed(from_utf8_lossy(stdout).as_str());
    let chars = chars_of(text.as_str());
    if chars.len() == 0 {
        return None;
    }
    let mut n: usize = 0;
    assert(chars@.skip(0) =~= chars@);
    assert(chars@.take(0) + up_to_white(chars@) =~= up_to_white(chars@));
    while n < chars.len() && !chars[n].is_whitespace()
        invariant
            n <= chars@.len(),
            up_to_white(chars@) == chars@.take(n as int) + up_to_white(chars@.skip(n as int)),
        decreases chars@.len() - n,
    {
        assert(chars@.skip(n as int)[0] == chars@[n as int]);
        assert(chars@.skip(n as int).skip(1) =~= chars@.skip(n + 1));
        assert(chars@.take(n as int) + (seq![chars@[n as int]] + up_to_white(chars@.skip(n + 1)))
            =~= chars@.take(n + 1) + up_to_white(chars@.skip(n + 1)));
        n += 1;
    }
    assert(up_to_white(chars@.skip(n as int)) =~= seq![]);
    assert(up_to_white(chars@) =~= chars@.subrange(0, n as int));
    Some(text_between(chars.as_slice(), 0, n))
}

/// The command that asks for the name of a process on Unix.
pub fn name_probe(pid: &str) -> (r: Argv)
    ensures
        r@ == (seq!["ps"@, "-p"@, pid@, "-o"@, "comm="@], false),
{
    let args = ["ps", "-p", pid, "-o", "comm="];
    assert(strs(args@) =~= seq!["ps"@, "-p"@, pid@, "-o"@, "comm="@]);
    Argv::new(&args)
}

/// The holder of a port on Unix, by what the command of [`name_probe`] printed.
pub fn unix_owner(pid: &str, stdout: &[u8]) -> (r: String)
    ensures
        r@ == trim(utf8_lossy(stdout@)) + " (pid "@ + pid@ + ")"@,
{
    let mut r = trimmed(from_utf8_lossy(stdout).as_str());
    r.push_str(" (pid ");
    r.push_str(pid);
    r.push_str(")");
    r
}

/// The holder of a port on Windows, by what the command of [`owner_probe`] printed.
pub fn windows_owner(stdout: &[u8]) -> (r: Option<String>)
    ensures
        match r {
            Some(name) => name@ == trim(utf8_lossy(stdout@)) && name@.len() > 0,
            None => trim(utf8_lossy(stdout@)).len() == 0,
        },
{
    let name = trimmed(from_utf8_lossy(stdout).as_str());
    if name.as_str().is_empty() {
        None
    } else {
        Some(name)
    }
}

// ── Laws ─────────────────────────────────────────────────────────────────────

/// Whatever keeps a port from being bound, the error names the port; a holder is named where it is
/// known, and only missing privilege is told as such.
pub proof fn law_port_trouble_is_explained(port: u16, failure: &BindFailure, e: Error)
    requires
        call_ensures(bind_error, (port, failure), e),
    ensures
        e is Elevation <==> failure is Denied,
        !(e is Elevation) ==> e is Provider,
        e is Elevation ==> contains(e->Elevation_0@, decimal(port as nat)),
        e is Provider ==> contains(e->Provider_0@, decimal(port as nat)),
        match failure {
            BindFailure::InUse { owner: Some(o) } => contains(e->Provider_0@, o@),
            BindFailure::InUse { owner: None } => contains(e->Provider_0@, "unknown process"@),
            BindFailure::Denied => contains(e->Elevation_0@, "elevated privileges"@),
            BindFailure::Other { why } => why@.is_suffix_of(e->Provider_0@),
        },
{
    let number = decimal(port as nat);
    match failure {
        BindFailure::InUse { owner } => {
            let who = match *owner {
                Some(o) => o@,
                None => "unknown process"@,
            };
            let text = e->Provider_0@;
            let middle = " is already in use by "@;
            let end = "; stop it and retry"@;
            lemma_amid("port "@, number, middle + who + end);
            assert(text =~= "port "@ + number + (middle + who + end));
            lemma_amid("port "@ + number + middle, who, end);
        },
        BindFailure::Denied => {
            let text = e->Elevation_0@;
            lemma_amid("binding port "@, number, " requires elevated privileges"@);
            let front = "binding port "@ + number + " requires "@;
            reveal_strlit(" requires elevated privileges");
            reveal_strlit(" requires ");
            reveal_strlit("elevated privileges");
            assert(text =~= front + "elevated privileges"@ + seq![]);
            lemma_amid(front, "elevated privileges"@, seq![]);
        },
        BindFailure::Other { why } => {
            let text = e->Provider_0@;
            lemma_amid("bind 127.0.0.1:"@, number, ": "@ + why@);
            assert(text =~= "bind 127.0.0.1:"@ + number + (": "@ + why@));
            assert(why@ =~= text.subrange(text.len() - why@.len(), text.len() as int));
        },
    }
}

proof fn lemma_amid(a: Seq<char>, b: Seq<char>, c: Seq<char>)
    ensures
        contains(a + b + c, b),
{
    assert((a + b + c).subrange(a.len() as int, (a.len() + b.len()) as int) =~= b);
    assert(occurs_at(a + b + c, b, a.len() as int));
}

/// The process is the first word that was printed, whatever stands around it; where nothing but
/// white space was printed there is none.
pub proof fn law_the_first_word_is_the_process(
    front: Seq<char>,
    word: Seq<char>,
    rest: Seq<char>,
    stdout: &[u8],
    r: Option<String>,
)
    requires
        call_ensures(listening_pid, (stdout,), r),
        stdout@ == encode_utf8(front + word + rest),
        blank(front),
        forall|i: int| 0 <= i < word.len() ==> !is_white(#[trigger] word[i]),
        rest.len() == 0 || is_white(rest[0]),
        word.len() == 0 ==> rest.len() == 0,
    ensures
        word.len() > 0 ==> r is Some && r->0@ == word,
        word.len() == 0 ==> r is None,
{
    let s = front + word + rest;
    law_encoded_text_reads_back(s);
    if word.len() == 0 {
        assert(s =~= front);
        law_only_white_space_trims_to_nothing(s);
    } else {
        lemma_trimmed(s);
        let t = trim(s);
        let (a, b) = choose|a: int, b: int|
            0 <= a <= b <= s.len() && #[trigger] s.subrange(a, b) == t && blank(s.take(a))
                && blank(s.skip(b));
        assert(!is_white(s[front.len() as int])) by {
            assert(s[front.len() as int] == word[0]);
        }
        assert(a <= front.len()) by {
            if a > front.len() {
                assert(s.take(a)[front.len() as int] == s[front.len() as int]);
            }
        }
        assert(b >= front.len() + word.len()) by {
            if b < front.len() + word.len() {
                let last = front.len() + word.len() - 1;
                assert(s.skip(b)[last - b] == s[last]);
                assert(s[last] == word[word.len() - 1]);
            }
        }
        assert(a == front.len()) by {
            if a < front.len() {
                assert(t[0] == s[a]);
                assert(s[a] == front[a]);
            }
        }
        assert(t =~= word + rest.take(b - front.len() - word.len()));
        lemma_up_to_white(word, rest.take(b - front.len() - word.len()));
    }
}

proof fn lemma_up_to_white(word: Seq<char>, rest: Seq<char>)
    requires
        forall|i: int| 0 <= i < word.len() ==> !is_white(#[trigger] word[i]),
        rest.len() == 0 || is_white(rest[0]),
    ensures
        up_to_white(word + rest) == word,
    decreases word.len(),
{
    let s = word + rest;
    if word.len() == 0 {
        assert(s =~= rest);
    } else {
        lemma_up_to_white(word.skip(1), rest);
        assert(s.skip(1) =~= word.skip(1) + rest);
        assert(seq![word[0]] + word.skip(1) =~= word);
    }
}

/// The question goes to the system about this very port and this very process.
pub proof fn law_owners_are_asked_for(
    platform: Platform,
    port: u16,
    probe: Argv,
    pid: &str,
    name: Argv,
)
    requires
        call_ensures(owner_probe, (platform, port), probe),
        call_ensures(name_probe, (pid,), name),
    ensures
        probe@.0[0] == if platform == Platform::Windows {
            "powershell"@
        } else {
            "lsof"@
        },
        platform == Platform::Windows ==> contains(probe@.0.last(), decimal(port as nat)),
        platform != Platform::Windows ==> probe@.0.contains("-iTCP:"@ + decimal(port as nat))
            && probe@.0.contains("-sTCP:LISTEN"@) && probe@.0.contains("-t"@),
        name@.0 == seq!["ps"@, "-p"@, pid@, "-o"@, "comm="@],
        !probe@.1,
        !name@.1,
{
    let number = decimal(port as nat);
    if platform == Platform::Windows {
        lemma_amid(
            "(Get-NetTCPConnection -LocalPort "@,
            number,
            " -State Listen | Select-Object -First 1 -ExpandProperty OwningProcess | ForEach-Object { (Get-Process -Id $_).ProcessName })"@,
        );
    } else {
        assert(probe@.0[2] == "-iTCP:"@ + number);
        assert(probe@.0[3] == "-sTCP:LISTEN"@);
        assert(probe@.0[4] == "-t"@);
    }
}

/// The holder is named by what was printed, without the white space around it; where Windows printed
/// nothing the holder is not known.
pub proof fn law_holders_are_named_as_printed(
    front: Seq<char>,
    name: Seq<char>,
    back: Seq<char>,
    stdout: &[u8],
    pid: &str,
    unix: String,
    windows: Option<String>,
)
    requires
        call_ensures(unix_owner, (pid, stdout), unix),
        call_ensures(windows_owner, (stdout,), windows),
        stdout@ == encode_utf8(front + name + back),
        blank(front),
        tight(name) || name.len() == 0,
        blank(back),
    ensures
        unix@ == name + " (pid "@ + pid@ + ")"@,
        windows is Some <==> name.len() > 0,
        windows is Some ==> windows->0@ == name,
{
    let s = front + name + back;
    law_encoded_text_reads_back(s);
    if name.len() > 0 {
        law_trimming_keeps_the_core(front, name, back);
    } else {
        assert(s =~= front + back);
        law_only_white_space_trims_to_nothing(s);
        assert(trim(s) =~= name);
    }
}

} // verus!
