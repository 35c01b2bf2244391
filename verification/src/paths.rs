//! Where local state lives, per platform.
//!
//! One subtlety drives most of this module: the daemon runs as **root** on macOS (port 443
//! requires it), but the config, CA and staged files belong to the *invoking* user. If the data
//! directory followed the effective uid, a daemon under `sudo` would read root's config while the
//! user writes their own, and the two sides would never see the same state. So where the effective
//! uid is 0 the invoking user is resolved (sudo environment, doas environment, or the console
//! owner for a graphical elevation) and *their* data directory is used.

use vstd::prelude::*;
use vstd::string::*;

use crate::error::Error;
use crate::platform::Platform;
use crate::text::{
    chars_of, fields_of, lines, lines_of, parse_u32, parsed_number, same, split_on, texts, trim,
    trimmed,
};
use crate::utf8::{from_utf8_lossy, utf8_lossy};

verus! {

// ── Model ────────────────────────────────────────────────────────────────────

/// A character that separates the parts of a path.
pub open spec fn is_separator(platform: Platform, c: char) -> bool {
    c == '/' || (platform == Platform::Windows && c == '\\')
}

/// The separator that joining puts between two parts.
pub open spec fn separator(platform: Platform) -> char {
    if platform == Platform::Windows {
        '\\'
    } else {
        '/'
    }
}

/// An ASCII letter.
pub open spec fn is_letter(c: char) -> bool {
    'a' <= c <= 'z' || 'A' <= c <= 'Z'
}

/// The path is nothing but a drive, such as `C:`.
pub open spec fn is_drive(platform: Platform, path: Seq<char>) -> bool {
    platform == Platform::Windows && path.len() == 2 && is_letter(path[0]) && path[1] == ':'
}

/// `name` below `base`. A name that starts with a separator stands for itself.
pub open spec fn join_path(platform: Platform, base: Seq<char>, name: Seq<char>) -> Seq<char> {
    if name.len() > 0 && is_separator(platform, name[0]) {
        name
    } else if base.len() == 0 || is_separator(platform, base.last()) || is_drive(platform, base) {
        base + name
    } else {
        base.push(separator(platform)) + name
    }
}

/// Text cut at every separator.
pub open spec fn pieces(platform: Platform, s: Seq<char>) -> Seq<Seq<char>>
    decreases s.len(),
{
    if s.len() == 0 {
        seq![seq![]]
    } else {
        let before = pieces(platform, s.drop_last());
        if is_separator(platform, s.last()) {
            before.push(seq![])
        } else {
            before.drop_last().push(before.last().push(s.last()))
        }
    }
}

/// The pieces that count: no empty ones, and no `.` but one that opens a relative path.
pub open spec fn counted(pieces: Seq<Seq<char>>, rooted: bool, n: nat) -> Seq<Seq<char>>
    decreases n,
{
    if n == 0 {
        seq![]
    } else {
        let before = counted(pieces, rooted, (n - 1) as nat);
        let p = pieces[n - 1];
        if p.len() == 0 || (p == seq!['.'] && (rooted || n > 1)) {
            before
        } else {
            before.push(p)
        }
    }
}

/// An ASCII letter in upper case.
pub open spec fn upper_char(c: char) -> char {
    if 'a' <= c <= 'z' {
        (c as u8 - 32) as char
    } else {
        c
    }
}

/// The drive that a path begins with, in upper case, and the rest of the path.
pub open spec fn drive_and_rest(platform: Platform, path: Seq<char>) -> (Seq<Seq<char>>, Seq<char>) {
    if path.len() >= 2 && is_drive(platform, path.take(2)) {
        (seq![seq![upper_char(path[0]), ':']], path.skip(2))
    } else {
        (seq![], path)
    }
}

/// What marks the root of a path, if it has one. On Windows two separators open the name of a
/// server, and are told from one.
pub open spec fn root_mark(platform: Platform, path: Seq<char>) -> Seq<Seq<char>> {
    if path.len() == 0 || !is_separator(platform, path[0]) {
        seq![]
    } else if platform == Platform::Windows && path.len() > 1 && is_separator(platform, path[1]) {
        seq![seq!['/', '/']]
    } else {
        seq![seq!['/']]
    }
}

/// The parts of a path: two paths with the same parts name the same file.
pub open spec fn parts(platform: Platform, path: Seq<char>) -> Seq<Seq<char>> {
    let (drive, rest) = drive_and_rest(platform, path);
    let root = root_mark(platform, rest);
    let all = pieces(platform, rest);
    drive + root + counted(all, root.len() > 0, all.len())
}

/// The system's hosts file.
pub open spec fn hosts_path(platform: Platform) -> Seq<char> {
    if platform == Platform::Windows {
        "C:\\Windows\\System32\\drivers\\etc\\hosts"@
    } else {
        "/etc/hosts"@
    }
}

// ── Paths ────────────────────────────────────────────────────────────────────

/// Whether a character separates the parts of a path.
fn separates(platform: Platform, c: char) -> (b: bool)
    ensures
        b == is_separator(platform, c),
{
    c == '/' || (platform == Platform::Windows && c == '\\')
}

/// Whether a character is an ASCII letter.
fn letter(c: char) -> (b: bool)
    ensures
        b == is_letter(c),
{
    ('a' <= c && c <= 'z') || ('A' <= c && c <= 'Z')
}

/// `name` below `base`.
pub fn join(platform: Platform, base: &str, name: &str) -> (r: String)
    ensures
        r@ == join_path(platform, base@, name@),
{
    let b = chars_of(base);
    let n = chars_of(name);
    if n.len() > 0 && separates(platform, n[0]) {
        return name.to_string();
    }
    let mut r = base.to_string();
    let size: usize = b.len();
    let drive = platform == Platform::Windows && size == 2 && letter(b[0]) && b[1] == ':';
    if size > 0 && !separates(platform, b[size - 1]) && !drive {
        r.push(
            if platform == Platform::Windows {
                '\\'
            } else {
                '/'
            },
        );
    }
    r.push_str(name);
    r
}

/// The pieces that a list of character vectors holds.
spec fn piece_seq(v: Seq<Vec<char>>) -> Seq<Seq<char>> {
    v.map_values(|p: Vec<char>| p@)
}

/// Text cut at every separator.
fn cut(platform: Platform, s: &[char]) -> (r: Vec<Vec<char>>)
    ensures
        piece_seq(r@) == pieces(platform, s@),
{
    let mut done: Vec<Vec<char>> = Vec::new();
    let mut last: Vec<char> = Vec::new();
    let mut i: usize = 0;
    assert(piece_seq(done@).push(last@) =~= pieces(platform, s@.take(0)));
    while i < s.len()
        invariant
            i <= s@.len(),
            piece_seq(done@).push(last@) == pieces(platform, s@.take(i as int)),
        decreases s@.len() - i,
    {
        assert(s@.take(i + 1).drop_last() =~= s@.take(i as int));
        let ghost before = piece_seq(done@);
        let ghost piece = last@;
        assert(before.push(piece).drop_last() =~= before);
        assert(before.push(piece).last() == piece);
        if separates(platform, s[i]) {
            done.push(last);
            last = Vec::new();
            assert(piece_seq(done@) =~= before.push(piece));
            assert(last@ =~= seq![]);
        } else {
            last.push(s[i]);
        }
        i += 1;
    }
    assert(s@.take(i as int) =~= s@);
    let ghost before = piece_seq(done@);
    let ghost piece = last@;
    done.push(last);
    assert(piece_seq(done@) =~= before.push(piece));
    done
}

/// Whether two pieces are the same.
fn same_piece(a: &Vec<char>, b: &Vec<char>) -> (r: bool)
    ensures
        r == (a@ == b@),
{
    crate::text::same_chars(a.as_slice(), b.as_slice())
}

/// The parts of a path.
fn split(platform: Platform, path: &str) -> (r: Vec<Vec<char>>)
    ensures
        piece_seq(r@) == parts(platform, path@),
{
    let all = chars_of(path);
    let size: usize = all.len();
    let mut r: Vec<Vec<char>> = Vec::new();
    let mut start: usize = 0;
    let ghost drive = drive_and_rest(platform, path@).0;
    assert(all@ == path@);
    if platform == Platform::Windows && size >= 2 && letter(all[0]) && all[1] == ':' {
        let c = all[0];
        let up: char = if 'a' <= c && c <= 'z' {
            (c as u8 - 32) as char
        } else {
            c
        };
        let piece = vec![up, ':'];
        assert(piece@ =~= seq![upper_char(all@[0]), ':']);
        r.push(piece);
        start = 2;
    }
    let rest = vstd::slice::slice_subrange(all.as_slice(), start, size);
    proof {
        assert(is_drive(platform, path@.take(2)) == (start == 2 && path@.len() >= 2)
            || path@.len() < 2);
        assert(rest@ =~= drive_and_rest(platform, path@).1);
        assert(piece_seq(r@) =~= drive);
    }
    let rooted = rest.len() > 0 && separates(platform, rest[0]);
    if rooted {
        let two = platform == Platform::Windows && rest.len() > 1 && separates(platform, rest[1]);
        let piece = if two {
            vec!['/', '/']
        } else {
            vec!['/']
        };
        assert(piece@ =~= root_mark(platform, rest@)[0]);
        r.push(piece);
    }
    let ghost head = piece_seq(r@);
    assert(head =~= drive + root_mark(platform, rest@));
    let cuts = cut(platform, rest);
    let ghost cut_seq = piece_seq(cuts@);
    let mut i: usize = 0;
    assert(head + counted(cut_seq, rooted, 0) =~= head);
    let dot = vec!['.'];
    assert(dot@ =~= seq!['.']);
    while i < cuts.len()
        invariant
            i <= cuts@.len(),
            cut_seq == piece_seq(cuts@),
            dot@ == seq!['.'],
            piece_seq(r@) == head + counted(cut_seq, rooted, i as nat),
        decreases cuts@.len() - i,
    {
        let skipped = cuts[i].len() == 0 || (same_piece(&cuts[i], &dot) && (rooted || i > 0));
        assert(cut_seq[i as int] == cuts@[i as int]@);
        let ghost before = piece_seq(r@);
        if !skipped {
            let piece = cuts[i].clone();
            r.push(piece);
            assert(piece@ =~= cut_seq[i as int]);
            assert(piece_seq(r@) =~= before.push(cut_seq[i as int]));
        }
        i += 1;
        assert(piece_seq(r@) =~= head + counted(cut_seq, rooted, i as nat));
    }
    r
}

/// Whether two paths have the same parts.
pub fn same_path(platform: Platform, a: &str, b: &str) -> (r: bool)
    ensures
        r == (parts(platform, a@) == parts(platform, b@)),
{
    let x = split(platform, a);
    let y = split(platform, b);
    assert(piece_seq(x@).len() == x@.len() && piece_seq(y@).len() == y@.len());
    if x.len() != y.len() {
        return false;
    }
    let r = leading(&x, &y);
    assert(piece_seq(y@).take(x@.len() as int) =~= piece_seq(y@));
    r
}

/// Whether the pieces `x` stand in front of the pieces `y`.
fn leading(x: &Vec<Vec<char>>, y: &Vec<Vec<char>>) -> (r: bool)
    requires
        x@.len() <= y@.len(),
    ensures
        r == (piece_seq(x@) == piece_seq(y@).take(x@.len() as int)),
{
    let mut i: usize = 0;
    let ghost front = piece_seq(y@).take(x@.len() as int);
    while i < x.len()
        invariant
            i <= x@.len() <= y@.len(),
            front == piece_seq(y@).take(x@.len() as int),
            forall|j: int| 0 <= j < i ==> #[trigger] piece_seq(x@)[j] == front[j],
        decreases x@.len() - i,
    {
        if !same_piece(&x[i], &y[i]) {
            assert(piece_seq(x@)[i as int] != front[i as int]);
            return false;
        }
        i += 1;
    }
    assert(piece_seq(x@) =~= front);
    true
}

/// Whether a path is `dir` or lies below it.
pub fn path_under(platform: Platform, path: &str, dir: &str) -> (r: bool)
    ensures
        r == parts(platform, dir@).is_prefix_of(parts(platform, path@)),
{
    let x = split(platform, dir);
    let y = split(platform, path);
    assert(piece_seq(x@).len() == x@.len() && piece_seq(y@).len() == y@.len());
    if x.len() > y.len() {
        return false;
    }
    let r = leading(&x, &y);
    assert(piece_seq(y@).take(x@.len() as int) =~= piece_seq(y@).subrange(0, x@.len() as int));
    r
}

// ── Locations ────────────────────────────────────────────────────────────────

/// The library's directory below the user's data root, e.g. `~/Library/Application Support/9rai`
/// (macOS) or `%APPDATA%\9rai` (Windows). The root of the invoking user counts before the one of
/// the effective user.
pub fn data_dir(platform: Platform, user_root: Option<&str>, base: Option<&str>) -> (r: Result<
    String,
    Error,
>)
    ensures
        match (user_root, base, r) {
            (Some(root), _, Ok(dir)) => dir@ == join_path(platform, root@, "9rai"@),
            (None, Some(root), Ok(dir)) => dir@ == join_path(platform, root@, "9rai"@),
            (None, None, Err(e)) => e is Cert && e->Cert_0@
                == "cannot resolve platform data directory"@,
            _ => false,
        },
{
    match user_root {
        Some(root) => Ok(join(platform, root, "9rai")),
        None => match base {
            Some(root) => Ok(join(platform, root, "9rai")),
            None => Err(Error::Cert("cannot resolve platform data directory".to_string())),
        },
    }
}

/// Where certificates are kept.
pub open spec fn cert_path(platform: Platform, data_dir: Seq<char>) -> Seq<char> {
    join_path(platform, data_dir, "cert"@)
}

/// Where the root certificate is kept.
pub open spec fn root_cert_path(platform: Platform, data_dir: Seq<char>) -> Seq<char> {
    join_path(platform, cert_path(platform, data_dir), "rootCA.crt"@)
}

/// Where certificates are kept, below the data directory.
pub fn cert_dir(platform: Platform, data_dir: &str) -> (r: String)
    ensures
        r@ == cert_path(platform, data_dir@),
{
    join(platform, data_dir, "cert")
}

/// Where the root certificate is kept.
pub fn root_ca_cert(platform: Platform, data_dir: &str) -> (r: String)
    ensures
        r@ == root_cert_path(platform, data_dir@),
{
    join(platform, cert_dir(platform, data_dir).as_str(), "rootCA.crt")
}

/// Where the key of the root certificate is kept.
pub fn root_ca_key(platform: Platform, data_dir: &str) -> (r: String)
    ensures
        r@ == join_path(platform, cert_path(platform, data_dir@), "rootCA.key"@),
{
    join(platform, cert_dir(platform, data_dir).as_str(), "rootCA.key")
}

/// Where logs are kept.
pub fn log_dir(platform: Platform, data_dir: &str) -> (r: String)
    ensures
        r@ == join_path(platform, data_dir@, "logs"@),
{
    join(platform, data_dir, "logs")
}

/// The system's hosts file.
pub fn hosts_file(platform: Platform) -> (r: &'static str)
    ensures
        r@ == hosts_path(platform),
{
    match platform {
        Platform::Windows => "C:\\Windows\\System32\\drivers\\etc\\hosts",
        _ => "/etc/hosts",
    }
}

// ── The invoking user ────────────────────────────────────────────────────────

/// The user on whose behalf a privileged process runs.
#[derive(Debug, Clone)]
pub struct RealUser {
    pub name: String,
    pub uid: u32,
    pub gid: u32,
}

impl RealUser {
    /// Where the user's data lives. `home` is the user's home directory.
    pub fn data_root(&self, platform: Platform, home: &str) -> (r: String)
        ensures
            r@ == if platform == Platform::MacOs {
                join_path(
                    platform,
                    join_path(platform, "/Users"@, self.name@),
                    "Library/Application Support"@,
                )
            } else {
                join_path(platform, home@, ".local/share"@)
            },
    {
        if platform == Platform::MacOs {
            let users = join(platform, "/Users", self.name.as_str());
            join(platform, users.as_str(), "Library/Application Support")
        } else {
            join(platform, home, ".local/share")
        }
    }
}

/// The uid of the GUI session user, when this process is root on their behalf. None means that it
/// is that user already, so that a `launchctl` call needs no `asuser` hop.
pub fn gui_user_uid(user: Option<&RealUser>) -> (r: Option<u32>)
    ensures
        r == match user {
            Some(u) => Some(u.uid),
            None => None,
        },
{
    match user {
        Some(u) => Some(u.uid),
        None => None,
    }
}

/// What the environment of a process says of who asked for it.
#[derive(Debug, Clone, Default)]
pub struct UserEnv {
    pub sudo_user: Option<String>,
    pub sudo_uid: Option<String>,
    pub sudo_gid: Option<String>,
    pub doas_user: Option<String>,
}

/// Where to look for the invoking user.
#[derive(Debug)]
pub enum UserSource {
    /// There is none to look for: the effective user counts.
    Nobody,
    /// The environment says it all.
    Known(RealUser),
    /// The environment says the name; the ids have to be asked for.
    Named(String),
    /// The owner of the console has to be asked for.
    Console,
}

/// A name that can stand for an invoking user.
pub open spec fn is_invoking(name: Option<String>) -> bool {
    name is Some && name->0@.len() > 0 && name->0@ != "root"@
}

/// The id that a variable holds.
pub open spec fn id_in(var: Option<String>) -> Option<nat> {
    match var {
        Some(s) => parsed_number(s@, u32::MAX as nat),
        None => None,
    }
}

/// Whether a name can stand for an invoking user.
fn invoking(name: &Option<String>) -> (b: bool)
    ensures
        b == is_invoking(*name),
{
    match name {
        Some(n) => !n.as_str().is_empty() && !same(n.as_str(), "root"),
        None => false,
    }
}

/// The id that a variable holds.
fn read_id(var: &Option<String>) -> (r: Option<u32>)
    ensures
        match r {
            Some(n) => id_in(*var) == Some(n as nat),
            None => id_in(*var) is None,
        },
{
    match var {
        Some(s) => parse_u32(s.as_str()),
        None => None,
    }
}

/// Who asked for this process to run? Nobody is looked for by an unprivileged process. `sudo`
/// leaves name and ids behind, `doas` the name, and a graphical elevation on macOS nothing, where
/// the owner of the console is the user.
pub fn detect_real_user(platform: Platform, euid: u32, env: &UserEnv) -> (r: UserSource)
    ensures
        match r {
            UserSource::Known(user) => {
                &&& euid == 0
                &&& is_invoking(env.sudo_user)
                &&& user.name == env.sudo_user->0
                &&& id_in(env.sudo_uid) == Some(user.uid as nat)
                &&& id_in(env.sudo_gid) == Some(user.gid as nat)
            },
            UserSource::Named(name) => {
                &&& euid == 0
                &&& !is_invoking(env.sudo_user)
                &&& is_invoking(env.doas_user)
                &&& name == env.doas_user->0
            },
            UserSource::Console => {
                &&& euid == 0
                &&& !is_invoking(env.sudo_user)
                &&& !is_invoking(env.doas_user)
                &&& platform == Platform::MacOs
            },
            UserSource::Nobody => {
                ||| euid != 0
                ||| is_invoking(env.sudo_user) && (id_in(env.sudo_uid) is None || id_in(
                    env.sudo_gid,
                ) is None)
                ||| !is_invoking(env.sudo_user) && !is_invoking(env.doas_user) && platform
                    != Platform::MacOs
            },
        },
{
    if euid != 0 {
        return UserSource::Nobody;
    }
    if invoking(&env.sudo_user) {
        return match (&env.sudo_user, read_id(&env.sudo_uid), read_id(&env.sudo_gid)) {
            (Some(name), Some(uid), Some(gid)) => UserSource::Known(
                RealUser { name: name.clone(), uid, gid },
            ),
            _ => UserSource::Nobody,
        };
    }
    if invoking(&env.doas_user) {
        return match &env.doas_user {
            Some(name) => UserSource::Named(name.clone()),
            None => UserSource::Nobody,
        };
    }
    if platform == Platform::MacOs {
        UserSource::Console
    } else {
        UserSource::Nobody
    }
}

/// The name of the console's owner in what `stat` printed, unless it is root.
pub fn console_user(stdout: &[u8]) -> (r: Option<String>)
    ensures
        match r {
            Some(name) => name@ == trim(utf8_lossy(stdout@)) && name@.len() > 0 && name@
                != "root"@,
            None => trim(utf8_lossy(stdout@)).len() == 0 || trim(utf8_lossy(stdout@)) == "root"@,
        },
{
    let name = trimmed(from_utf8_lossy(stdout).as_str());
    if name.as_str().is_empty() || same(name.as_str(), "root") {
        None
    } else {
        Some(name)
    }
}

/// The id in what `id` printed.
pub fn id_of(stdout: &[u8]) -> (r: Option<u32>)
    ensures
        match r {
            Some(n) => parsed_number(trim(utf8_lossy(stdout@)), u32::MAX as nat) == Some(n as nat),
            None => parsed_number(trim(utf8_lossy(stdout@)), u32::MAX as nat) is None,
        },
{
    parse_u32(trimmed(from_utf8_lossy(stdout).as_str()).as_str())
}

/// The home directory in one line of the user database, if the line is the one of this user.
pub open spec fn home_in(line: Seq<char>, name: Seq<char>) -> Option<Seq<char>> {
    let fields = split_on(line, ':');
    if fields[0] == name && fields.len() > 5 {
        Some(fields[5])
    } else {
        None
    }
}

/// The home directories that the first `n` lines name for a user.
pub open spec fn homes_in(lines: Seq<Seq<char>>, name: Seq<char>, n: nat) -> Seq<Seq<char>>
    decreases n,
{
    if n == 0 {
        seq![]
    } else {
        let before = homes_in(lines, name, (n - 1) as nat);
        match home_in(lines[n - 1], name) {
            Some(home) => before.push(home),
            None => before,
        }
    }
}

/// There is always a first field.
proof fn lemma_first_field(s: Seq<char>, c: char)
    ensures
        split_on(s, c).len() > 0,
    decreases s.len(),
{
    if s.len() > 0 {
        lemma_first_field(s.drop_last(), c);
    }
}

/// The home directories that the user database names for a user, in order. The first that is a
/// directory is the one to use.
pub fn home_candidates(passwd: &str, name: &str) -> (r: Vec<String>)
    ensures
        texts(r@) == homes_in(lines(passwd@), name@, lines(passwd@).len()),
{
    let all = lines_of(chars_of(passwd).as_slice());
    let ghost line_seq = lines(passwd@);
    let mut r: Vec<String> = Vec::new();
    let mut i: usize = 0;
    assert(texts(r@) =~= seq![]);
    while i < all.len()
        invariant
            i <= all@.len(),
            line_seq == texts(all@),
            texts(r@) == homes_in(line_seq, name@, i as nat),
        decreases all@.len() - i,
    {
        let fields = fields_of(all[i].as_str(), ':');
        let ghost before = texts(r@);
        proof {
            lemma_first_field(all@[i as int]@, ':');
            assert(line_seq[i as int] == all@[i as int]@);
            assert(texts(fields@).len() == fields@.len());
            assert(texts(fields@)[0] == fields@[0]@);
        }
        if same(fields[0].as_str(), name) && fields.len() > 5 {
            assert(texts(fields@)[5] == fields@[5]@);
            let home = fields[5].clone();
            r.push(home);
            assert(texts(r@) =~= before.push(home@));
        }
        i += 1;
    }
    r
}

/// The home directory of a user that the user database names none for.
pub fn default_home(name: &str) -> (r: String)
    ensures
        r@ == join_path(Platform::Linux, "/home"@, name@),
{
    join(Platform::Linux, "/home", name)
}

// ── Laws ─────────────────────────────────────────────────────────────────────

/// What is appended to a text adds to the parts, and takes none away.
proof fn lemma_pieces_grow(platform: Platform, s: Seq<char>, t: Seq<char>)
    requires
        t.len() > 0 ==> is_separator(platform, t[0]),
    ensures
        pieces(platform, s).len() > 0,
        pieces(platform, s).is_prefix_of(pieces(platform, s + t)),
    decreases t.len(),
{
    lemma_some_piece(platform, s);
    if t.len() == 0 {
        assert(s + t =~= s);
        assert(pieces(platform, s).is_prefix_of(pieces(platform, s)));
    } else {
        let u = s + t;
        assert(u.drop_last() =~= s + t.drop_last());
        let p = pieces(platform, s);
        let q = pieces(platform, s + t.drop_last());
        if t.len() == 1 {
            assert(s + t.drop_last() =~= s);
            assert(pieces(platform, u) == p.push(seq![]));
        } else {
            lemma_pieces_grow(platform, s, t.drop_last());
            lemma_more_pieces(platform, s, t.drop_last());
            assert(p =~= q.take(p.len() as int));
        }
        assert(p =~= pieces(platform, u).take(p.len() as int));
    }
}

proof fn lemma_some_piece(platform: Platform, s: Seq<char>)
    ensures
        pieces(platform, s).len() > 0,
    decreases s.len(),
{
    if s.len() > 0 {
        lemma_some_piece(platform, s.drop_last());
    }
}

proof fn lemma_more_pieces(platform: Platform, s: Seq<char>, t: Seq<char>)
    requires
        t.len() > 0,
        is_separator(platform, t[0]),
    ensures
        pieces(platform, s + t).len() > pieces(platform, s).len(),
    decreases t.len(),
{
    lemma_some_piece(platform, s);
    assert((s + t).drop_last() =~= s + t.drop_last());
    if t.len() > 1 {
        lemma_more_pieces(platform, s, t.drop_last());
    } else {
        assert(s + t.drop_last() =~= s);
    }
}

proof fn lemma_counted_grow(a: Seq<Seq<char>>, b: Seq<Seq<char>>, rooted: bool, n: nat)
    requires
        a.len() <= n <= b.len(),
        a.is_prefix_of(b),
    ensures
        counted(a, rooted, a.len()).is_prefix_of(counted(b, rooted, n)),
    decreases n,
{
    if n == a.len() {
        lemma_counted_same(a, b, rooted, n);
        assert(counted(a, rooted, n).is_prefix_of(counted(a, rooted, n)));
    } else {
        lemma_counted_grow(a, b, rooted, (n - 1) as nat);
        let x = counted(a, rooted, a.len());
        let y = counted(b, rooted, (n - 1) as nat);
        assert(x =~= y.take(x.len() as int));
        assert(x =~= counted(b, rooted, n).take(x.len() as int));
    }
}

proof fn lemma_counted_same(a: Seq<Seq<char>>, b: Seq<Seq<char>>, rooted: bool, n: nat)
    requires
        n <= a.len() <= b.len(),
        a.is_prefix_of(b),
    ensures
        counted(a, rooted, n) == counted(b, rooted, n),
    decreases n,
{
    if n > 0 {
        lemma_counted_same(a, b, rooted, (n - 1) as nat);
        assert(a =~= b.take(a.len() as int));
        assert(a[n - 1] == b[n - 1]);
    }
}

/// What is appended to a text changes none of its pieces but the last.
proof fn lemma_pieces_keep(platform: Platform, s: Seq<char>, t: Seq<char>)
    ensures
        pieces(platform, s).drop_last().is_prefix_of(pieces(platform, s + t)),
        pieces(platform, s + t).len() >= pieces(platform, s).len() > 0,
    decreases t.len(),
{
    lemma_some_piece(platform, s);
    let front = pieces(platform, s).drop_last();
    if t.len() == 0 {
        assert(s + t =~= s);
        assert(front =~= pieces(platform, s).take(front.len() as int));
    } else {
        lemma_pieces_keep(platform, s, t.drop_last());
        assert((s + t).drop_last() =~= s + t.drop_last());
        let q = pieces(platform, s + t.drop_last());
        assert(front =~= q.take(front.len() as int));
        assert(front =~= pieces(platform, s + t).take(front.len() as int));
    }
}

/// The last piece of a text that ends in a separator is empty.
proof fn lemma_last_piece_empty(platform: Platform, s: Seq<char>)
    requires
        s.len() > 0,
        is_separator(platform, s.last()),
    ensures
        pieces(platform, s).len() > 0,
        pieces(platform, s).last().len() == 0,
{
}

/// The counted pieces grow where a text goes on behind its last separator.
proof fn lemma_counted_behind(platform: Platform, s: Seq<char>, t: Seq<char>, rooted: bool)
    requires
        s.len() == 0 || is_separator(platform, s.last()),
    ensures
        ({
            let a = pieces(platform, s);
            let b = pieces(platform, s + t);
            counted(a, rooted, a.len()).is_prefix_of(counted(b, rooted, b.len()))
        }),
{
    let a = pieces(platform, s);
    let b = pieces(platform, s + t);
    lemma_pieces_keep(platform, s, t);
    if s.len() > 0 {
        lemma_last_piece_empty(platform, s);
    }
    let front = a.drop_last();
    assert(a.last().len() == 0);
    assert(front =~= a.take(front.len() as int));
    lemma_counted_same(front, a, rooted, front.len());
    assert(counted(a, rooted, a.len()) == counted(front, rooted, front.len()));
    lemma_counted_grow(front, b, rooted, b.len());
}

/// What is joined to a directory lies below it, if it does not start with a separator.
pub proof fn law_joined_lies_below(platform: Platform, dir: Seq<char>, name: Seq<char>)
    requires
        name.len() == 0 || !is_separator(platform, name[0]),
    ensures
        parts(platform, dir).is_prefix_of(parts(platform, join_path(platform, dir, name))),
{
    let full = join_path(platform, dir, name);
    let a = pieces(platform, dir);
    if dir.len() == 0 {
        assert(a =~= seq![seq![]]);
        reveal_with_fuel(counted, 2);
        assert(parts(platform, dir) =~= seq![]);
        assert(parts(platform, dir) =~= parts(platform, full).take(0));
    } else {
        lemma_joined_lies_below(platform, dir, name);
    }
}

#[verifier::rlimit(60)]
#[verifier::spinoff_prover]
proof fn lemma_joined_lies_below(platform: Platform, dir: Seq<char>, name: Seq<char>)
    requires
        dir.len() > 0,
        name.len() == 0 || !is_separator(platform, name[0]),
    ensures
        parts(platform, dir).is_prefix_of(parts(platform, join_path(platform, dir, name))),
{
    let full = join_path(platform, dir, name);
    let (drive, rest) = drive_and_rest(platform, dir);
    let (drive2, rest2) = drive_and_rest(platform, full);
    let root = root_mark(platform, rest);
    let a = pieces(platform, rest);
    let b = pieces(platform, rest2);
    let x = counted(a, root.len() > 0, a.len());
    let y = counted(b, root.len() > 0, b.len());
    assert(dir.len() >= 2 ==> full.take(2) =~= dir.take(2));
    if is_separator(platform, dir.last()) || is_drive(platform, dir) {
        assert(full =~= dir + name);
        if dir.len() >= 2 {
            assert(full.skip(2) =~= dir.skip(2) + name);
            assert(dir.len() == 2 ==> dir.take(2) =~= dir);
        }
        assert(drive == drive2);
        assert(rest2 =~= rest + name);
        assert(rest.len() > 0 ==> rest.last() == dir.last());
        lemma_counted_behind(platform, rest, name, root.len() > 0);
    } else {
        let tail = seq![separator(platform)] + name;
        assert(full =~= dir + tail);
        if dir.len() >= 2 {
            assert(full.skip(2) =~= dir.skip(2) + tail);
            assert(dir.len() == 2 ==> dir.take(2) =~= dir);
        } else {
            assert(full[1] == separator(platform));
        }
        assert(drive == drive2);
        assert(rest2 =~= rest + tail);
        assert(rest.len() > 0);
        assert(rest.last() == dir.last());
        lemma_pieces_grow(platform, rest, tail);
        lemma_counted_grow(a, b, root.len() > 0, b.len());
    }
    assert(root == root_mark(platform, rest2));
    assert(x =~= y.take(x.len() as int));
    let front = drive + root + x;
    let whole = drive + root + y;
    assert(front =~= whole.take(front.len() as int));
}

/// A name is put below a directory by one separator, where none stands there yet; a name that starts
/// at the root stands for itself.
pub proof fn law_names_go_below_directories(platform: Platform, base: &str, name: &str, r: String)
    requires
        call_ensures(join, (platform, base, name), r),
    ensures
        platform != Platform::Windows && name@.len() > 0 && name@[0] == '/' ==> r@ == name@,
        (name@.len() == 0 || (name@[0] != '/' && name@[0] != '\\')) && base@.len() > 0
            && base@.last() == '/' ==> r@ == base@ + name@,
        (name@.len() == 0 || name@[0] != '/') && platform != Platform::Windows && base@.len() > 0
            && base@.last() != '/' ==> r@ == base@ + seq!['/'] + name@,
        (name@.len() == 0 || (name@[0] != '/' && name@[0] != '\\')) && platform
            == Platform::Windows && base@.len() > 2 && base@.last() != '/' && base@.last() != '\\'
            ==> r@ == base@ + seq!['\\'] + name@,
        base@.len() == 0 ==> r@ == name@,
{
    assert(base@.push('/') =~= base@ + seq!['/']);
    assert(base@.push('\\') =~= base@ + seq!['\\']);
    assert(base@.len() == 0 ==> base@ + name@ =~= name@);
}

/// On Unix the pieces are what stands between slashes.
proof fn lemma_pieces_split(platform: Platform, s: Seq<char>)
    requires
        platform != Platform::Windows,
    ensures
        pieces(platform, s) == split_on(s, '/'),
    decreases s.len(),
{
    if s.len() > 0 {
        lemma_pieces_split(platform, s.drop_last());
    }
}

/// A name that stands for one step of a path.
pub open spec fn is_step(name: Seq<char>) -> bool {
    name.len() > 0 && name != seq!['.'] && !name.contains('/')
}

proof fn lemma_counted_steps(pieces: Seq<Seq<char>>, rooted: bool, n: nat)
    requires
        n <= pieces.len(),
        forall|i: int| 1 <= i < pieces.len() ==> is_step(#[trigger] pieces[i]),
        pieces.len() > 0,
        pieces[0].len() == 0,
    ensures
        counted(pieces, rooted, n) == if n == 0 {
            seq![]
        } else {
            pieces.subrange(1, n as int)
        },
    decreases n,
{
    if n > 0 {
        lemma_counted_steps(pieces, rooted, (n - 1) as nat);
        if n > 1 {
            assert(is_step(pieces[n - 1]));
            assert(pieces.subrange(1, n - 1).push(pieces[n - 1]) =~= pieces.subrange(1, n as int));
        } else {
            assert(pieces.subrange(1, 1) =~= seq![]);
        }
    }
}

/// A path from the root is told by its steps, one by one, a step upwards included: two such paths
/// are the same exactly where their steps are, and one lies below another exactly where it begins
/// with its steps.
pub proof fn law_paths_are_told_by_their_steps(
    platform: Platform,
    a: Seq<Seq<char>>,
    b: Seq<Seq<char>>,
    x: &str,
    y: &str,
    same_: bool,
    under: bool,
)
    requires
        platform != Platform::Windows,
        a.len() > 0,
        b.len() > 0,
        forall|i: int| 0 <= i < a.len() ==> is_step(#[trigger] a[i]),
        forall|i: int| 0 <= i < b.len() ==> is_step(#[trigger] b[i]),
        x@ == seq!['/'] + crate::text::join(a, seq!['/']),
        y@ == seq!['/'] + crate::text::join(b, seq!['/']),
        call_ensures(same_path, (platform, x, y), same_),
        call_ensures(path_under, (platform, x, y), under),
    ensures
        same_ <==> a == b,
        under <==> b.is_prefix_of(a),
{
    lemma_parts_of_steps(platform, a);
    lemma_parts_of_steps(platform, b);
    let p = seq![seq!['/']] + a;
    let q = seq![seq!['/']] + b;
    assert(p.skip(1) =~= a);
    assert(q.skip(1) =~= b);
    if b.is_prefix_of(a) {
        assert(q =~= p.take(q.len() as int)) by {
            assert(b =~= a.take(b.len() as int));
        }
    }
    if q.is_prefix_of(p) {
        assert(b =~= a.take(b.len() as int)) by {
            assert(q =~= p.take(q.len() as int));
            assert forall|i: int| 0 <= i < b.len() implies b[i] == a[i] by {
                assert(q[i + 1] == p[i + 1]);
            }
        }
    }
}

proof fn lemma_parts_of_steps(platform: Platform, steps: Seq<Seq<char>>)
    requires
        platform != Platform::Windows,
        steps.len() > 0,
        forall|i: int| 0 <= i < steps.len() ==> is_step(#[trigger] steps[i]),
    ensures
        parts(platform, seq!['/'] + crate::text::join(steps, seq!['/'])) == seq![seq!['/']] + steps,
{
    let path = seq!['/'] + crate::text::join(steps, seq!['/']);
    let none: Seq<char> = seq![];
    let all = seq![none] + steps;
    assert forall|i: int| 0 <= i < all.len() implies !(#[trigger] all[i]).contains('/') by {
        if i > 0 {
            assert(is_step(steps[i - 1]));
        }
    }
    lemma_join_front(steps, '/');
    crate::text::law_joined_texts_split_back(all, '/');
    lemma_pieces_split(platform, path);
    assert forall|i: int| 1 <= i < all.len() implies is_step(#[trigger] all[i]) by {
        assert(all[i] == steps[i - 1]);
    }
    lemma_counted_steps(all, true, all.len());
    assert(all.subrange(1, all.len() as int) =~= steps);
    let nothing: Seq<Seq<char>> = seq![];
    assert(nothing + seq![seq!['/']] + steps =~= seq![seq!['/']] + steps);
}

/// An empty piece in front of others is a separator in front of them.
proof fn lemma_join_front(steps: Seq<Seq<char>>, c: char)
    requires
        steps.len() > 0,
    ensures
        ({
            let none: Seq<char> = seq![];
            crate::text::join(seq![none] + steps, seq![c]) == seq![c] + crate::text::join(
                steps,
                seq![c],
            )
        }),
    decreases steps.len(),
{
    let none: Seq<char> = seq![];
    let all = seq![none] + steps;
    let fewer = steps.drop_last();
    assert(all.drop_last() =~= seq![none] + fewer);
    assert(all.last() == steps.last());
    if fewer.len() > 0 {
        lemma_join_front(fewer, c);
        assert(crate::text::join(all, seq![c]) =~= seq![c] + crate::text::join(steps, seq![c]));
    } else {
        assert(all.drop_last() =~= seq![none]);
        assert(crate::text::join(all.drop_last(), seq![c]) == none);
        assert(crate::text::join(all, seq![c]) =~= seq![c] + steps[0]);
        assert(crate::text::join(steps, seq![c]) == steps[0]);
    }
}

/// Where things are kept: each file below the data directory, under its own name.
pub proof fn law_files_have_their_places(
    platform: Platform,
    data: &str,
    cert: String,
    key: String,
    logs: String,
    hosts: &'static str,
)
    requires
        call_ensures(root_ca_cert, (platform, data), cert),
        call_ensures(root_ca_key, (platform, data), key),
        call_ensures(log_dir, (platform, data), logs),
        call_ensures(hosts_file, (platform,), hosts),
    ensures
        cert@ == join_path(platform, join_path(platform, data@, "cert"@), "rootCA.crt"@),
        key@ == join_path(platform, join_path(platform, data@, "cert"@), "rootCA.key"@),
        logs@ == join_path(platform, data@, "logs"@),
        platform == Platform::Windows ==> hosts@
            == "C:\\Windows\\System32\\drivers\\etc\\hosts"@,
        platform != Platform::Windows ==> hosts@ == "/etc/hosts"@,
{
}

/// The data directory is the one of the user on whose behalf the process runs, and the process's own
/// only where there is no such user.
pub proof fn law_data_is_kept_with_the_user(
    platform: Platform,
    user: Option<&str>,
    own: Option<&str>,
    r: Result<String, Error>,
)
    requires
        call_ensures(data_dir, (platform, user, own), r),
    ensures
        r is Err <==> user is None && own is None,
        user is Some ==> r->Ok_0@ == join_path(platform, user->0@, "9rai"@),
        user is None && own is Some ==> r->Ok_0@ == join_path(platform, own->0@, "9rai"@),
{
}

/// A privileged process looks for the user that asked for it: first the one that `sudo` names, with
/// the ids that come along, then the one that `doas` names, and then, on macOS, whoever sits at the
/// console. An unprivileged process looks for nobody, and root asks on nobody's behalf.
pub proof fn law_the_invoking_user_is_looked_for(
    platform: Platform,
    euid: u32,
    env: &UserEnv,
    r: UserSource,
)
    requires
        call_ensures(detect_real_user, (platform, euid, env), r),
    ensures
        ({
            let sudo = env.sudo_user is Some && env.sudo_user->0@.len() > 0 && env.sudo_user->0@
                != "root"@;
            let doas = env.doas_user is Some && env.doas_user->0@.len() > 0 && env.doas_user->0@
                != "root"@;
            let uid = id_in(env.sudo_uid);
            let gid = id_in(env.sudo_gid);
            &&& euid != 0 ==> r is Nobody
            &&& euid == 0 && sudo && uid is Some && gid is Some ==> r is Known && r->Known_0.name
                == env.sudo_user->0 && r->Known_0.uid == uid->0 && r->Known_0.gid == gid->0
            &&& euid == 0 && sudo && (uid is None || gid is None) ==> r is Nobody
            &&& euid == 0 && !sudo && doas ==> r == UserSource::Named(env.doas_user->0)
            &&& euid == 0 && !sudo && !doas && platform == Platform::MacOs ==> r is Console
            &&& euid == 0 && !sudo && !doas && platform != Platform::MacOs ==> r is Nobody
        }),
        forall|n: u32, s: String|
            s@ == #[trigger] crate::text::decimal(n as nat) ==> #[trigger] id_in(Some(s)) == Some(
                n as nat,
            ),
{
    assert forall|n: u32, s: String| s@ == #[trigger] crate::text::decimal(
        n as nat,
    ) implies #[trigger] id_in(Some(s)) == Some(n as nat) by {
        crate::text::law_written_numbers_parse(n as nat, u32::MAX as nat);
    }
}

/// The owner of the console and an id are read as they are printed, white space aside; root owns no
/// console.
pub proof fn law_printed_users_are_read(
    name: Seq<char>,
    back: Seq<char>,
    stdout: &[u8],
    user: Option<String>,
    n: u32,
    printed: &[u8],
    id: Option<u32>,
)
    requires
        call_ensures(console_user, (stdout,), user),
        stdout@ == vstd::utf8::encode_utf8(name + back),
        crate::text::tight(name),
        crate::text::blank(back),
        call_ensures(id_of, (printed,), id),
        printed@ == vstd::utf8::encode_utf8(crate::text::decimal(n as nat) + back),
    ensures
        name != "root"@ ==> user is Some && user->0@ == name,
        name == "root"@ ==> user is None,
        id == Some(n),
{
    let none: Seq<char> = seq![];
    crate::utf8::law_encoded_text_reads_back(name + back);
    crate::text::law_trimming_keeps_the_core(none, name, back);
    assert(none + name + back =~= name + back);
    let d = crate::text::decimal(n as nat);
    crate::utf8::law_encoded_text_reads_back(d + back);
    crate::text::law_numerals_read_back(n as nat);
    assert(!crate::text::is_white(d[0]));
    assert(d.last() == d[d.len() - 1]);
    assert(!crate::text::is_white(d.last()));
    crate::text::law_trimming_keeps_the_core(none, d, back);
    assert(none + d + back =~= d + back);
    crate::text::law_written_numbers_parse(n as nat, u32::MAX as nat);
}

/// A user's home is found in the line of the user database that begins with the user's name: the
/// sixth of its fields.
pub proof fn law_homes_are_found_by_name(
    before: Seq<char>,
    fields: Seq<Seq<char>>,
    after: Seq<char>,
    passwd: &str,
    name: &str,
    r: Vec<String>,
)
    requires
        call_ensures(home_candidates, (passwd, name), r),
        passwd@ == before + crate::text::join(fields, seq![':']) + seq!['\n'] + after,
        before.len() == 0 || before.last() == '\n',
        fields.len() > 5,
        fields[0] == name@,
        forall|i: int|
            0 <= i < fields.len() ==> !(#[trigger] fields[i]).contains(':'),
        !crate::text::join(fields, seq![':']).contains('\n'),
        crate::text::join(fields, seq![':']).last() != '\r',
    ensures
        texts(r@).contains(fields[5]),
{
    let line = crate::text::join(fields, seq![':']);
    crate::text::law_joined_texts_split_back(fields, ':');
    crate::text::law_lines_are_cut_at_line_feeds(line, after);
    let rest = line + seq!['\n'] + after;
    assert((seq![line] + lines(after))[0] == line);
    crate::text::lemma_line_among(before, rest, line);
    assert(passwd@ =~= before + rest);
    let all = lines(passwd@);
    let i = choose|i: int| 0 <= i < all.len() && all[i] == line;
    lemma_home_among(all, name@, all.len(), i, fields[5]);
}

proof fn lemma_home_among(
    all: Seq<Seq<char>>,
    name: Seq<char>,
    n: nat,
    i: int,
    home: Seq<char>,
)
    requires
        0 <= i < n <= all.len(),
        home_in(all[i], name) == Some(home),
    ensures
        homes_in(all, name, n).contains(home),
    decreases n,
{
    let now = homes_in(all, name, n);
    if i == n - 1 {
        assert(now.last() == home);
    } else {
        lemma_home_among(all, name, (n - 1) as nat, i, home);
        let before = homes_in(all, name, (n - 1) as nat);
        let j = choose|j: int| 0 <= j < before.len() && before[j] == home;
        assert(now[j] == home);
    }
}

/// Certificates are kept in a directory of their own; each platform keeps a user's data where its
/// users look for it; and the user of the desktop is the one that was found.
pub proof fn law_users_have_their_places(
    platform: Platform,
    data: &str,
    certs: String,
    user: &RealUser,
    home: &str,
    root: String,
    uid: Option<u32>,
    nobody: Option<u32>,
    name: &str,
    default: String,
)
    requires
        call_ensures(cert_dir, (platform, data), certs),
        call_ensures(RealUser::data_root, (user, platform, home), root),
        call_ensures(gui_user_uid, (Some(user),), uid),
        call_ensures(gui_user_uid, (None,), nobody),
        call_ensures(default_home, (name,), default),
    ensures
        certs@ == join_path(platform, data@, "cert"@),
        platform == Platform::MacOs && user.name@.len() > 0 && user.name@[0] != '/' ==> root@
            == "/Users/"@ + user.name@ + "/Library/Application Support"@ || user.name@.last()
            == '/',
        platform == Platform::Linux && home@.len() > 0 && home@.last() != '/' ==> root@ == home@
            + "/.local/share"@,
        uid == Some(user.uid),
        nobody is None,
        name@.len() > 0 && name@[0] != '/' ==> default@ == "/home/"@ + name@,
{
    reveal_strlit("/Users");
    reveal_strlit("/Users/");
    reveal_strlit("/home");
    reveal_strlit("/home/");
    reveal_strlit("/Library/Application Support");
    reveal_strlit("Library/Application Support");
    reveal_strlit("/.local/share");
    reveal_strlit(".local/share");
    assert("/Users"@.push('/') =~= "/Users/"@);
    assert("/home"@.push('/') =~= "/home/"@);
    let dir = "/Users/"@ + user.name@;
    assert(dir.push('/') + "Library/Application Support"@ =~= dir
        + "/Library/Application Support"@);
    assert(home@.push('/') + ".local/share"@ =~= home@ + "/.local/share"@);
}

// ── Windows ──────────────────────────────────────────────────────────────────

/// The path with every backslash turned round.
pub open spec fn slashed(s: Seq<char>) -> Seq<char> {
    s.map_values(
        |c: char|
            if c == '\\' {
                '/'
            } else {
                c
            },
    )
}

/// Windows takes either separator, and a drive in either case.
pub proof fn law_windows_takes_either_separator(path: Seq<char>, upper: char, lower: char)
    requires
        'A' <= upper <= 'Z',
        lower as u32 == upper as u32 + 32,
    ensures
        parts(Platform::Windows, slashed(path)) == parts(Platform::Windows, path),
        parts(Platform::Windows, seq![lower, ':'] + path) == parts(
            Platform::Windows,
            seq![upper, ':'] + path,
        ),
{
    let w = Platform::Windows;
    let other = slashed(path);
    assert(path.len() >= 2 ==> other.take(2)[0] == other[0] && path.take(2)[0] == path[0]);
    assert(path.len() >= 2 ==> other.take(2)[1] == other[1] && path.take(2)[1] == path[1]);
    let rest = drive_and_rest(w, path).1;
    assert(drive_and_rest(w, other).1 =~= slashed(rest));
    assert(drive_and_rest(w, other).0 =~= drive_and_rest(w, path).0);
    lemma_pieces_slashed(rest);
    let a = seq![lower, ':'] + path;
    let b = seq![upper, ':'] + path;
    assert(a.take(2) =~= seq![lower, ':']);
    assert(b.take(2) =~= seq![upper, ':']);
    assert(a.skip(2) =~= path);
    assert(b.skip(2) =~= path);
    assert(upper_char(lower) == upper) by {
        assert((lower as u8 - 32) as char == upper);
    }
    assert(upper_char(upper) == upper);
}

proof fn lemma_pieces_slashed(s: Seq<char>)
    ensures
        pieces(Platform::Windows, slashed(s)) == pieces(Platform::Windows, s),
    decreases s.len(),
{
    if s.len() > 0 {
        assert(slashed(s).drop_last() =~= slashed(s.drop_last()));
        lemma_pieces_slashed(s.drop_last());
    }
}

/// On Windows too a path from the root of a drive is told by its steps.
pub proof fn law_windows_paths_are_told_by_their_steps(
    drive: char,
    a: Seq<Seq<char>>,
    b: Seq<Seq<char>>,
    x: &str,
    y: &str,
    same_: bool,
    under: bool,
)
    requires
        'A' <= drive <= 'Z',
        a.len() > 0,
        b.len() > 0,
        forall|i: int| 0 <= i < a.len() ==> is_step(#[trigger] a[i]),
        forall|i: int| 0 <= i < b.len() ==> is_step(#[trigger] b[i]),
        x@ == seq![drive, ':', '/'] + crate::text::join(a, seq!['/']),
        y@ == seq![drive, ':', '/'] + crate::text::join(b, seq!['/']),
        !x@.contains('\\'),
        !y@.contains('\\'),
        call_ensures(same_path, (Platform::Windows, x, y), same_),
        call_ensures(path_under, (Platform::Windows, x, y), under),
    ensures
        same_ <==> a == b,
        under <==> b.is_prefix_of(a),
{
    lemma_windows_parts(drive, a, x@);
    lemma_windows_parts(drive, b, y@);
    let front = seq![seq![drive, ':'], seq!['/']];
    let p = front + a;
    let q = front + b;
    assert(p.skip(2) =~= a);
    assert(q.skip(2) =~= b);
    if b.is_prefix_of(a) {
        assert(q =~= p.take(q.len() as int)) by {
            assert(b =~= a.take(b.len() as int));
        }
    }
    if q.is_prefix_of(p) {
        assert(b =~= a.take(b.len() as int)) by {
            assert(q =~= p.take(q.len() as int));
            assert forall|i: int| 0 <= i < b.len() implies b[i] == a[i] by {
                assert(q[i + 2] == p[i + 2]);
            }
        }
    }
}

proof fn lemma_windows_parts(drive: char, steps: Seq<Seq<char>>, path: Seq<char>)
    requires
        'A' <= drive <= 'Z',
        steps.len() > 0,
        forall|i: int| 0 <= i < steps.len() ==> is_step(#[trigger] steps[i]),
        path == seq![drive, ':', '/'] + crate::text::join(steps, seq!['/']),
        !path.contains('\\'),
    ensures
        parts(Platform::Windows, path) == seq![seq![drive, ':'], seq!['/']] + steps,
{
    let w = Platform::Windows;
    let joined = crate::text::join(steps, seq!['/']);
    let rest = seq!['/'] + joined;
    assert(path.take(2) =~= seq![drive, ':']);
    assert(path.skip(2) =~= rest);
    assert(!rest.contains('\\')) by {
        if rest.contains('\\') {
            let i = choose|i: int| 0 <= i < rest.len() && rest[i] == '\\';
            assert(path[i + 2] == '\\');
        }
    }
    let none: Seq<char> = seq![];
    let all = seq![none] + steps;
    assert forall|i: int| 0 <= i < all.len() implies !(#[trigger] all[i]).contains('/') by {
        if i > 0 {
            assert(is_step(steps[i - 1]));
        }
    }
    lemma_join_front(steps, '/');
    crate::text::law_joined_texts_split_back(all, '/');
    lemma_pieces_split_windows(rest);
    assert forall|i: int| 1 <= i < all.len() implies is_step(#[trigger] all[i]) by {
        assert(all[i] == steps[i - 1]);
    }
    lemma_counted_steps(all, true, all.len());
    assert(all.subrange(1, all.len() as int) =~= steps);
    lemma_starts_plain(steps);
    assert(rest.len() > 1 && rest[1] == joined[0]);
    assert(seq![seq![drive, ':']] + seq![seq!['/']] + steps =~= seq![seq![drive, ':'], seq!['/']]
        + steps);
}

/// Steps that are joined do not begin with a separator.
proof fn lemma_starts_plain(steps: Seq<Seq<char>>)
    requires
        steps.len() > 0,
        forall|i: int| 0 <= i < steps.len() ==> is_step(#[trigger] steps[i]),
    ensures
        crate::text::join(steps, seq!['/']).len() > 0,
        crate::text::join(steps, seq!['/'])[0] == steps[0][0],
        steps[0][0] != '/',
    decreases steps.len(),
{
    assert(is_step(steps[0]));
    assert(steps[0].contains(steps[0][0]));
    if steps.len() > 1 {
        lemma_starts_plain(steps.drop_last());
    }
}

/// Without a backslash the pieces are what stands between slashes.
proof fn lemma_pieces_split_windows(s: Seq<char>)
    requires
        !s.contains('\\'),
    ensures
        pieces(Platform::Windows, s) == split_on(s, '/'),
    decreases s.len(),
{
    if s.len() > 0 {
        let t = s.drop_last();
        assert(!t.contains('\\')) by {
            if t.contains('\\') {
                let i = choose|i: int| 0 <= i < t.len() && t[i] == '\\';
                assert(s[i] == '\\');
            }
        }
        assert(s.contains(s.last()));
        lemma_pieces_split_windows(t);
    }
}

/// A separator at the end of a path makes no difference.
pub proof fn law_a_last_separator_makes_no_difference(platform: Platform, path: Seq<char>)
    requires
        path.len() > 0,
        path.last() != '/',
        path.last() != '\\',
        path.last() != ':',
    ensures
        parts(platform, path.push('/')) == parts(platform, path),
{
    let longer = path.push('/');
    assert(path.len() >= 2 ==> longer.take(2) =~= path.take(2));
    assert(path.len() == 1 ==> longer.take(2)[1] == '/');
    let (drive, rest) = drive_and_rest(platform, path);
    assert(drive_and_rest(platform, longer).1 =~= rest.push('/'));
    assert(rest.len() > 0) by {
        if rest.len() == 0 {
            assert(path.take(2)[1] == path[1]);
        }
    }
    assert(rest.last() == path.last());
    let all = pieces(platform, rest);
    assert(rest.push('/').drop_last() =~= rest);
    let none: Seq<char> = seq![];
    assert(pieces(platform, rest.push('/')) == all.push(none));
    lemma_counted_more(all, none, root_mark(platform, rest).len() > 0, all.len());
}

proof fn lemma_counted_more(all: Seq<Seq<char>>, last: Seq<char>, rooted: bool, n: nat)
    requires
        n <= all.len(),
    ensures
        counted(all.push(last), rooted, n) == counted(all, rooted, n),
    decreases n,
{
    if n > 0 {
        lemma_counted_more(all, last, rooted, (n - 1) as nat);
    }
}

/// A line of the user database is of this user and names this home.
pub open spec fn names_home(line: Seq<char>, name: Seq<char>, home: Seq<char>) -> bool {
    let fields = split_on(line, ':');
    fields.len() > 5 && fields[0] == name && fields[5] == home
}

/// Only lines of the user's own name a home for the user.
pub proof fn law_only_own_homes_are_found(passwd: &str, name: &str, r: Vec<String>, i: int)
    requires
        call_ensures(home_candidates, (passwd, name), r),
        0 <= i < r@.len(),
    ensures
        exists|j: int|
            0 <= j < lines(passwd@).len() && names_home(
                #[trigger] lines(passwd@)[j],
                name@,
                r@[i]@,
            ),
        r@.len() <= lines(passwd@).len(),
{
    let all = lines(passwd@);
    assert(texts(r@)[i] == r@[i]@);
    lemma_homes_are_own(all, name@, all.len(), i);
}

proof fn lemma_homes_are_own(all: Seq<Seq<char>>, name: Seq<char>, n: nat, i: int)
    requires
        n <= all.len(),
    ensures
        homes_in(all, name, n).len() <= n,
        0 <= i < homes_in(all, name, n).len() ==> exists|j: int|
            0 <= j < n && names_home(#[trigger] all[j], name, homes_in(all, name, n)[i]),
    decreases n,
{
    if n > 0 {
        lemma_homes_are_own(all, name, (n - 1) as nat, i);
        let before = homes_in(all, name, (n - 1) as nat);
        let now = homes_in(all, name, n);
        if 0 <= i < before.len() {
            let j = choose|j: int|
                0 <= j < n - 1 && names_home(#[trigger] all[j], name, before[i]);
            assert(names_home(all[j], name, now[i]));
        } else if i == before.len() && now.len() > before.len() {
            assert(names_home(all[n - 1], name, now[i]));
        }
    }
}

} // verus!
