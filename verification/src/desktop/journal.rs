//! The daemon's log, as the GUI writes to it and shows it.

use vstd::prelude::*;
use vstd::string::*;

use crate::appconfig::AppConfig;
pub use crate::calendar::CivilTime;
use crate::calendar::{civil_at, civil_time, in_reach};
use crate::config::{hosts_of, Tool};
use crate::hosts;
use crate::hosts::{applied, with_final_break};
use crate::text::{
    chars_of, decimal, digits_value, law_numerals_read_back, lines, lines_of, numeral, texts,
};
use crate::utf8::{from_utf8_lossy, utf8_lossy};

verus! {

/// Log tail handed to the UI, in bytes read from the end of the file.
pub const LOG_READ_BYTES: u64 = 65_536;

/// How many lines of the log are shown where nothing else is asked for.
pub const SHOWN_LINES: usize = 200;

/// How many lines of the log are shown at most.
pub const MAX_SHOWN_LINES: usize = 2000;

// ── Stamps ───────────────────────────────────────────────────────────────────

/// A number with zeros in front, up to a width.
pub open spec fn padded(n: nat, width: nat) -> Seq<char> {
    let d = decimal(n);
    if d.len() >= width {
        d
    } else {
        Seq::new((width - d.len()) as nat, |i: int| '0') + d
    }
}

/// A year in four places, the sign of a negative one included.
pub open spec fn year_text(year: int) -> Seq<char> {
    if year < 0 {
        seq!['-'] + padded((-year) as nat, 3)
    } else {
        padded(year as nat, 4)
    }
}

/// A point in time as it stands in the log.
pub open spec fn stamp_text(t: CivilTime) -> Seq<char> {
    year_text(t.year as int) + "-"@ + padded(t.month as nat, 2) + "-"@ + padded(t.day as nat, 2)
        + " "@ + padded(t.hour as nat, 2) + ":"@ + padded(t.minute as nat, 2) + ":"@ + padded(
        t.second as nat,
        2,
    ) + "Z"@
}

/// A number with zeros in front, up to a width.
fn pad(n: u64, width: usize) -> (r: String)
    requires
        width <= 4,
    ensures
        r@ == padded(n as nat, width as nat),
{
    let digits = numeral(n);
    let have: usize = chars_of(digits.as_str()).len();
    let mut r = String::new();
    let mut i: usize = have;
    while i < width
        invariant
            have <= i,
            i <= width || i == have,
            width <= 4,
            r@ == Seq::new((i - have) as nat, |j: int| '0'),
        decreases width - i,
    {
        r.push('0');
        i += 1;
        assert(r@ =~= Seq::new((i - have) as nat, |j: int| '0'));
    }
    let ghost zeros = r@;
    r.push_str(digits.as_str());
    assert(have >= width ==> zeros =~= seq![]);
    assert(have >= width ==> r@ =~= digits@);
    r
}

/// A point in time as it stands in the log. UTC, not local time, so that these lines sort next to
/// the daemon's own.
pub fn stamp(t: &CivilTime) -> (r: String)
    ensures
        r@ == stamp_text(*t),
{
    let mut r = if t.year < 0 {
        let mut y = String::new();
        y.push('-');
        y.push_str(pad((-(t.year as i64)) as u64, 3).as_str());
        assert(y@ =~= year_text(t.year as int));
        y
    } else {
        pad(t.year as u64, 4)
    };
    r.push_str("-");
    r.push_str(pad(t.month as u64, 2).as_str());
    r.push_str("-");
    r.push_str(pad(t.day as u64, 2).as_str());
    r.push_str(" ");
    r.push_str(pad(t.hour as u64, 2).as_str());
    r.push_str(":");
    r.push_str(pad(t.minute as u64, 2).as_str());
    r.push_str(":");
    r.push_str(pad(t.second as u64, 2).as_str());
    r.push_str("Z");
    r
}

/// The stamp of a time, or a question mark where it is out of reach.
pub open spec fn stamp_of(seconds: Option<i64>) -> Seq<char> {
    match seconds {
        Some(s) => if in_reach(s as int) {
            stamp_text(civil_time(s as int))
        } else {
            "?"@
        },
        None => "?"@,
    }
}

/// The stamp of a time in seconds since 1970, or a question mark where it is not known.
pub fn stamp_at(seconds: Option<i64>) -> (r: String)
    ensures
        r@ == stamp_of(seconds),
{
    match seconds {
        Some(s) => match civil_at(s) {
            Some(t) => stamp(&t),
            None => "?".to_string(),
        },
        None => "?".to_string(),
    }
}

// ── Notes ────────────────────────────────────────────────────────────────────

/// The first `n` lines, each with the stamp in front and a line feed behind.
pub open spec fn stamped(stamp: Seq<char>, lines: Seq<Seq<char>>, n: nat) -> Seq<char>
    decreases n,
{
    if n == 0 {
        seq![]
    } else {
        stamped(stamp, lines, (n - 1) as nat) + "["@ + stamp + "] "@ + lines[n - 1] + "\n"@
    }
}

/// Lines to append to the log, each stamped.
pub fn notes(stamp: &str, lines: &[String]) -> (r: String)
    ensures
        r@ == stamped(stamp@, texts(lines@), lines@.len()),
{
    let mut r = String::new();
    let mut i: usize = 0;
    while i < lines.len()
        invariant
            i <= lines@.len(),
            r@ == stamped(stamp@, texts(lines@), i as nat),
        decreases lines@.len() - i,
    {
        r.push_str("[");
        r.push_str(stamp);
        r.push_str("] ");
        r.push_str(lines[i].as_str());
        r.push_str("\n");
        i += 1;
    }
    r
}

// ── The end of the log ───────────────────────────────────────────────────────

/// The last lines of what was read from the end of the log. Where reading began in the middle of
/// the file, the first line is a fragment and is dropped.
pub open spec fn last_lines(text: Seq<char>, cut: bool, max: nat) -> Seq<Seq<char>> {
    let all = lines(text);
    let whole = if cut && all.len() > 0 {
        all.skip(1)
    } else {
        all
    };
    if whole.len() > max {
        whole.skip(whole.len() - max)
    } else {
        whole
    }
}

/// The last `max_lines` lines of a text.
pub fn tail_of(text: &str, cut: bool, max_lines: usize) -> (r: Vec<String>)
    ensures
        texts(r@) == last_lines(text@, cut, max_lines as nat),
{
    let all = lines_of(chars_of(text).as_slice());
    let ghost line_seq = texts(all@);
    let size: usize = all.len();
    let first: usize = if cut && size > 0 {
        1
    } else {
        0
    };
    let start: usize = if size - first > max_lines {
        size - max_lines
    } else {
        first
    };
    let mut r: Vec<String> = Vec::new();
    let mut i: usize = start;
    while i < size
        invariant
            size == all@.len(),
            start <= i <= size,
            r@.len() == i - start,
            forall|j: int| 0 <= j < i - start ==> (#[trigger] r@[j])@ == all@[start + j]@,
        decreases size - i,
    {
        r.push(all[i].clone());
        i += 1;
    }
    assert(texts(r@) =~= line_seq.skip(start as int));
    assert(last_lines(text@, cut, max_lines as nat) =~= line_seq.skip(start as int));
    r
}

/// The last `max_lines` lines of the bytes that were read from the end of the log. `cut` says that
/// the file does not start with them.
pub fn log_tail(bytes: &[u8], cut: bool, max_lines: usize) -> (r: Vec<String>)
    ensures
        texts(r@) == last_lines(utf8_lossy(bytes@), cut, max_lines as nat),
{
    let text = from_utf8_lossy(bytes);
    tail_of(text.as_str(), cut, max_lines)
}

/// Where to start reading a log of this length.
pub fn log_start(len: u64) -> (r: u64)
    ensures
        r == if len > LOG_READ_BYTES {
            len - LOG_READ_BYTES
        } else {
            0
        },
{
    if len > LOG_READ_BYTES {
        len - LOG_READ_BYTES
    } else {
        0
    }
}

/// How many lines of the log to show.
pub fn shown_lines(asked: Option<usize>) -> (r: usize)
    ensures
        r == match asked {
            Some(n) => if n < MAX_SHOWN_LINES {
                n
            } else {
                MAX_SHOWN_LINES
            },
            None => SHOWN_LINES,
        },
{
    match asked {
        Some(n) => if n < MAX_SHOWN_LINES {
            n
        } else {
            MAX_SHOWN_LINES
        },
        None => SHOWN_LINES,
    }
}

// ── Start attempts ───────────────────────────────────────────────────────────

/// What the hosts file is found to be.
#[derive(Debug)]
pub enum HostsFile {
    Read(String),
    /// It could not be read, and why.
    Unreadable(String),
}

/// The state of the hosts file in words.
pub open spec fn hosts_state(file: HostsFile) -> Seq<char> {
    match file {
        HostsFile::Read(text) => if applied(text@, hosts_of(Tool::Kiro)) == with_final_break(
            text@,
        ) {
            "already redirected"@
        } else {
            "clean"@
        },
        HostsFile::Unreadable(why) => "unreadable ("@ + why@ + ")"@,
    }
}

/// The state of the hosts file in words.
fn describe_hosts(file: &HostsFile) -> (r: String)
    ensures
        r@ == hosts_state(*file),
{
    match file {
        HostsFile::Read(text) => {
            let names = Tool::Kiro.hosts();
            if hosts::is_current(text.as_str(), names.as_slice()) {
                "already redirected".to_string()
            } else {
                "clean".to_string()
            }
        },
        HostsFile::Unreadable(why) => {
            let mut r = "unreadable (".to_string();
            r.push_str(why.as_str());
            r.push_str(")");
            r
        },
    }
}

/// The state of the root in words.
pub open spec fn root_state(trusted: bool) -> Seq<char> {
    if trusted {
        "already trusted"@
    } else {
        "not trusted — installing it before launch"@
    }
}

/// The model for what is not mapped, in words.
pub open spec fn fallback(config: AppConfig) -> Seq<char> {
    match config.mappings.default {
        Some(m) => m@,
        None => "none"@,
    }
}

/// What a start attempt is described as.
pub open spec fn banner(
    cli: Seq<char>,
    built: Option<i64>,
    program: Seq<char>,
    port: u16,
    fingerprint: Seq<char>,
    trusted: bool,
    hosts: HostsFile,
    config: AppConfig,
) -> Seq<Seq<char>> {
    seq![
        "──── start attempt ────"@,
        "  cli       "@ + cli + " (built "@ + stamp_of(built) + ")"@,
        "  elevate   "@ + program,
        "  control   127.0.0.1:"@ + decimal(port as nat),
        "  root CA   "@ + fingerprint + " ("@ + root_state(trusted) + ")"@,
        "  hosts     "@ + hosts_state(hosts),
        "  provider  "@ + config.provider.base_url@ + " ("@ + decimal(
            config.mappings.models@.len(),
        ) + " mapping(s), fallback "@ + fallback(config) + ")"@,
    ]
}

/// What the GUI knows about the machine at the moment it launches a daemon, as log lines.
///
/// Printed before every start attempt so that a failure further down has a labelled starting
/// point: which binary ran (with its build time), how it was elevated, and whether the CA and the
/// hosts file were already in the state that the daemon is about to put them in.
pub fn start_banner(
    cli: &str,
    built: Option<i64>,
    program: &str,
    port: u16,
    fingerprint: &str,
    trusted: bool,
    hosts: &HostsFile,
    config: &AppConfig,
) -> (r: Vec<String>)
    ensures
        texts(r@) == banner(
            cli@,
            built,
            program@,
            port,
            fingerprint@,
            trusted,
            *hosts,
            *config,
        ),
{
    let mut cli_line = "  cli       ".to_string();
    cli_line.push_str(cli);
    cli_line.push_str(" (built ");
    cli_line.push_str(stamp_at(built).as_str());
    cli_line.push_str(")");

    let mut elevate_line = "  elevate   ".to_string();
    elevate_line.push_str(program);

    let mut control_line = "  control   127.0.0.1:".to_string();
    control_line.push_str(numeral(port as u64).as_str());

    let mut root_line = "  root CA   ".to_string();
    root_line.push_str(fingerprint);
    root_line.push_str(" (");
    root_line.push_str(
        if trusted {
            "already trusted"
        } else {
            "not trusted — installing it before launch"
        },
    );
    root_line.push_str(")");

    let mut hosts_line = "  hosts     ".to_string();
    hosts_line.push_str(describe_hosts(hosts).as_str());

    let mut provider_line = "  provider  ".to_string();
    provider_line.push_str(config.provider.base_url.as_str());
    provider_line.push_str(" (");
    provider_line.push_str(numeral(config.mappings.models.len() as u64).as_str());
    provider_line.push_str(" mapping(s), fallback ");
    match &config.mappings.default {
        Some(m) => {
            provider_line.push_str(m.as_str());
        },
        None => {
            provider_line.push_str("none");
        },
    }
    provider_line.push_str(")");

    let r = vec![
        "──── start attempt ────".to_string(),
        cli_line,
        elevate_line,
        control_line,
        root_line,
        hosts_line,
        provider_line,
    ];
    assert(texts(r@) =~= banner(
        cli@,
        built,
        program@,
        port,
        fingerprint@,
        trusted,
        *hosts,
        *config,
    ));
    r
}

// ── Laws ─────────────────────────────────────────────────────────────────────

proof fn lemma_stamped_prefix(stamp: Seq<char>, a: Seq<Seq<char>>, b: Seq<Seq<char>>, n: nat)
    requires
        n <= a.len(),
        n <= b.len(),
        forall|i: int| 0 <= i < n ==> a[i] == #[trigger] b[i],
    ensures
        stamped(stamp, a, n) == stamped(stamp, b, n),
    decreases n,
{
    if n > 0 {
        lemma_stamped_prefix(stamp, a, b, (n - 1) as nat);
        assert(a[n - 1] == b[n - 1]);
    }
}

/// Notes are appended in their order, each on a line of its own behind its stamp.
pub proof fn law_notes_keep_their_order(
    stamp: &str,
    first: &[String],
    last: &[String],
    all: &[String],
    a: String,
    c: String,
)
    requires
        call_ensures(notes, (stamp, first), a),
        call_ensures(notes, (stamp, all), c),
        last@.len() == 1,
        all@ == first@ + last@,
    ensures
        c@ == a@ + "["@ + stamp@ + "] "@ + last@[0]@ + "\n"@,
        first@.len() == 0 ==> a@.len() == 0,
{
    let n = first@.len();
    let x = texts(all@);
    assert forall|i: int| 0 <= i < n implies x[i] == #[trigger] texts(first@)[i] by {
        assert(all@[i] == first@[i]);
    }
    lemma_stamped_prefix(stamp@, x, texts(first@), n);
    assert(x[n as int] == last@[0]@);
}

/// What is shown of the log is its end: the last lines, whole and in order, as many as are asked for
/// where there are so many. A first line that reading began in the middle of is never shown.
pub proof fn law_the_end_of_the_log_is_shown(text: &str, cut: bool, max: usize, r: Vec<String>)
    requires
        call_ensures(tail_of, (text, cut, max), r),
    ensures
        r@.len() <= max,
        r@.len() <= lines(text@).len(),
        texts(r@) == lines(text@).skip(lines(text@).len() - r@.len()),
        r@.len() == max || r@.len() == lines(text@).len() || (cut && r@.len() + 1 == lines(
            text@,
        ).len()),
        cut && lines(text@).len() > 0 ==> r@.len() < lines(text@).len(),
        !cut && lines(text@).len() <= max ==> r@.len() == lines(text@).len(),
        cut && 0 < lines(text@).len() <= max ==> r@.len() + 1 == lines(text@).len(),
{
    let all = lines(text@);
    let n = texts(r@).len() as int;
    assert(texts(r@) =~= all.skip(all.len() - n));
}

/// What is read from the log's end is read as text, and its end is shown.
pub proof fn law_the_log_is_read_as_text(
    text: Seq<char>,
    bytes: &[u8],
    cut: bool,
    max: usize,
    r: Vec<String>,
)
    requires
        call_ensures(log_tail, (bytes, cut, max), r),
        bytes@ == vstd::utf8::encode_utf8(text),
    ensures
        texts(r@) == last_lines(text, cut, max as nat),
{
    crate::utf8::law_encoded_text_reads_back(text);
}

/// A long log is read from so many bytes before its end on, and a short one from its beginning.
pub proof fn law_no_more_than_the_end_is_read(len: u64, start: u64)
    requires
        call_ensures(log_start, (len,), start),
    ensures
        start <= len,
        len - start <= 65_536,
        len <= 65_536 ==> start == 0,
        len > 65_536 ==> len - start == 65_536,
{
}

/// As many lines are shown as are asked for, two hundred where nothing is, and two thousand at most.
pub proof fn law_as_many_lines_as_asked_for(asked: Option<usize>, r: usize)
    requires
        call_ensures(shown_lines, (asked,), r),
    ensures
        r <= 2000,
        asked is Some && asked->0 <= 2000 ==> r == asked->0,
        asked is Some && asked->0 > 2000 ==> r == 2000,
        asked is None ==> r == 200,
{
}

/// A stamp can be read back: each field stands in its place, in decimal digits.
pub proof fn law_stamps_can_be_read_back(t: &CivilTime, r: String)
    requires
        call_ensures(stamp, (t,), r),
        0 <= t.year <= 9999,
        crate::calendar::in_calendar(*t),
    ensures
        r@.len() == 20,
        digits_value(r@.subrange(0, 4)) == t.year,
        digits_value(r@.subrange(5, 7)) == t.month,
        digits_value(r@.subrange(8, 10)) == t.day,
        digits_value(r@.subrange(11, 13)) == t.hour,
        digits_value(r@.subrange(14, 16)) == t.minute,
        digits_value(r@.subrange(17, 19)) == t.second,
        r@[4] == '-' && r@[7] == '-' && r@[10] == ' ' && r@[13] == ':' && r@[16] == ':' && r@[19]
            == 'Z',
{
    reveal_strlit("-");
    reveal_strlit(" ");
    reveal_strlit(":");
    reveal_strlit("Z");
    lemma_padded_four(t.year as nat);
    lemma_padded_two(t.month as nat);
    lemma_padded_two(t.day as nat);
    lemma_padded_two(t.hour as nat);
    lemma_padded_two(t.minute as nat);
    lemma_padded_two(t.second as nat);
    assert(r@.subrange(0, 4) =~= year_text(t.year as int));
    assert(r@.subrange(5, 7) =~= padded(t.month as nat, 2));
    assert(r@.subrange(8, 10) =~= padded(t.day as nat, 2));
    assert(r@.subrange(11, 13) =~= padded(t.hour as nat, 2));
    assert(r@.subrange(14, 16) =~= padded(t.minute as nat, 2));
    assert(r@.subrange(17, 19) =~= padded(t.second as nat, 2));
}

proof fn lemma_padded_two(n: nat)
    requires
        n < 100,
    ensures
        padded(n, 2).len() == 2,
        digits_value(padded(n, 2)) == n,
{
    law_numerals_read_back(n);
    reveal_with_fuel(decimal, 3);
    if n < 10 {
        reveal_with_fuel(digits_value, 3);
        let p = padded(n, 2);
        assert(p =~= seq!['0'] + decimal(n));
        assert(p.drop_last() =~= seq!['0']);
        assert(seq!['0'].drop_last() =~= seq![]);
        assert(p.last() == decimal(n).last());
    }
}

proof fn lemma_padded_four(n: nat)
    requires
        n <= 9999,
    ensures
        padded(n, 4).len() == 4,
        digits_value(padded(n, 4)) == n,
{
    law_numerals_read_back(n);
    reveal_with_fuel(decimal, 5);
    if n < 1000 {
        let zeros = Seq::new((4 - decimal(n).len()) as nat, |i: int| '0');
        lemma_zeros_in_front(zeros, decimal(n));
        assert(padded(n, 4) == zeros + decimal(n));
    } else {
        assert(decimal(n).len() == 4);
    }
}

/// Zeros in front of digits weigh nothing.
proof fn lemma_zeros_in_front(zeros: Seq<char>, s: Seq<char>)
    requires
        forall|i: int| 0 <= i < zeros.len() ==> zeros[i] == '0',
    ensures
        digits_value(zeros + s) == digits_value(s),
    decreases zeros.len() + s.len(),
{
    let all = zeros + s;
    if s.len() > 0 {
        assert(all.drop_last() =~= zeros + s.drop_last());
        assert(all.last() == s.last());
        lemma_zeros_in_front(zeros, s.drop_last());
    } else if zeros.len() > 0 {
        assert(all =~= zeros);
        lemma_zeros_in_front(zeros.drop_last(), s);
        assert(zeros.drop_last() + s =~= zeros.drop_last());
    } else {
        assert(all =~= s);
    }
}

/// What is noted of a start attempt tells what it was made with: the program and its age, how it is
/// elevated, the port, the root and whether it is trusted, and the provider.
pub proof fn law_start_attempts_are_described(
    cli: &str,
    built: Option<i64>,
    program: &str,
    port: u16,
    fingerprint: &str,
    trusted: bool,
    hosts: &HostsFile,
    config: &AppConfig,
    r: Vec<String>,
    age: String,
)
    requires
        call_ensures(
            start_banner,
            (cli, built, program, port, fingerprint, trusted, hosts, config),
            r,
        ),
        call_ensures(stamp_at, (built,), age),
    ensures
        r@.len() == 7,
        r@[0]@ == "──── start attempt ────"@,
        r@[1]@ == "  cli       "@ + cli@ + " (built "@ + age@ + ")"@,
        r@[2]@ == "  elevate   "@ + program@,
        r@[3]@ == "  control   127.0.0.1:"@ + decimal(port as nat),
        r@[4]@ == "  root CA   "@ + fingerprint@ + " ("@ + (if trusted {
            "already trusted"@
        } else {
            "not trusted — installing it before launch"@
        }) + ")"@,
        match *hosts {
            HostsFile::Unreadable(why) => r@[5]@ == "  hosts     "@ + ("unreadable ("@ + why@ + ")"@),
            HostsFile::Read(text) => r@[5]@ == "  hosts     "@ + if crate::hosts::applied(
                text@,
                hosts_of(Tool::Kiro),
            ) == with_final_break(text@) {
                "already redirected"@
            } else {
                "clean"@
            },
        },
        r@[6]@ == "  provider  "@ + config.provider.base_url@ + " ("@ + decimal(
            config.mappings.models@.len(),
        ) + " mapping(s), fallback "@ + (match config.mappings.default {
            Some(m) => m@,
            None => "none"@,
        }) + ")"@,
{
    let t = texts(r@);
    assert(t.len() == r@.len());
    assert(t[1] == r@[1]@ && t[2] == r@[2]@ && t[3] == r@[3]@ && t[4] == r@[4]@ && t[5] == r@[5]@
        && t[6] == r@[6]@);
}

/// The stamp of a time is the stamp of its point in the calendar, and a time that is not known or out
/// of reach has none.
pub proof fn law_times_are_stamped_by_the_calendar(seconds: i64, t: &CivilTime, a: String, b: String)
    requires
        call_ensures(stamp_at, (Some(seconds),), a),
        call_ensures(stamp, (t,), b),
        crate::calendar::in_calendar(*t),
        crate::calendar::seconds_of(*t) == seconds,
    ensures
        in_reach(seconds as int) ==> a@ == b@,
        !in_reach(seconds as int) ==> a@ == "?"@,
{
    if in_reach(seconds as int) {
        crate::calendar::law_one_time_for_each_second(*t, civil_time(seconds as int));
    }
}

/// A year before the first of the calendar keeps its sign and its number.
pub proof fn law_negative_years_keep_their_sign(t: &CivilTime, r: String)
    requires
        call_ensures(stamp, (t,), r),
        -9999 <= t.year < -99,
    ensures
        r@[0] == '-',
        (seq!['-'] + decimal((-t.year) as nat)).is_prefix_of(r@),
{
    reveal_with_fuel(decimal, 5);
    let front = seq!['-'] + decimal((-t.year) as nat);
    assert(year_text(t.year as int) == front);
    assert(front =~= r@.take(front.len() as int));
}

} // verus!
