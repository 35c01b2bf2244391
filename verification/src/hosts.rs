//! Hosts-file editing as pure string transforms.
//!
//! Removing lines by what they mention would delete unrelated lines of the user. Instead a single
//! delimited block is managed and nothing outside it is touched, so [`apply`] and [`strip`] are exact
//! inverses.

use vstd::prelude::*;
use vstd::slice::slice_subrange;
use vstd::string::*;

use crate::text::{
    chars_of, contains, contains_str, find, find_chars, lemma_find_contains, lemma_find_from,
    lemma_find_is, occurs_at, same_chars, strs, text_of,
};

verus! {

pub const BEGIN: &'static str = "# BEGIN 9rai";

pub const END: &'static str = "# END 9rai";

pub const NOTE: &'static str =
    "# Managed by 9rai. Do not edit; removed automatically when interception stops.";

// ── Model ────────────────────────────────────────────────────────────────────

/// Whether a line break of the two-character sort stands at `i`.
pub open spec fn returns_at(s: Seq<char>, i: int) -> bool {
    i + 1 < s.len() && s[i] == '\r' && s[i + 1] == '\n'
}

/// Text without the line break at its end, if it has one. A carriage return belongs to that break
/// only where `returns` says so.
pub open spec fn without_break(s: Seq<char>, returns: bool) -> Seq<char> {
    if s.len() > 0 && s.last() == '\n' {
        if returns && s.len() > 1 && s[s.len() - 2] == '\r' {
            s.take(s.len() - 2)
        } else {
            s.drop_last()
        }
    } else {
        s
    }
}

/// Text without the line break at its front, if it has one.
pub open spec fn after_break(s: Seq<char>) -> Seq<char> {
    if s.len() > 0 && s[0] == '\n' {
        s.skip(1)
    } else if returns_at(s, 0) {
        s.skip(2)
    } else {
        s
    }
}

/// What stood before the block and what stood after it, put together again: as they are, unless
/// that would make one line of two.
pub open spec fn rejoined(head: Seq<char>, tail: Seq<char>) -> Seq<char> {
    if head.len() == 0 || tail.len() == 0 || head.last() == '\n' {
        head + tail
    } else {
        head + seq!['\n'] + tail
    }
}

/// Text that ends in a line break, unless it is empty.
pub open spec fn with_final_break(s: Seq<char>) -> Seq<char> {
    if s.len() == 0 || s.last() == '\n' {
        s
    } else {
        s.push('\n')
    }
}

/// Where the block that begins at `start` ends; one without an end reaches to the end of the text.
pub open spec fn block_end(s: Seq<char>, start: int) -> int {
    match find(s.skip(start), END@) {
        Some(i) => start + i + END@.len(),
        None => s.len() as int,
    }
}

/// What stands before the block that begins at `start`, without the line break that sets the
/// block off. In a text with two-character line breaks, which shows in the block, that is one.
pub open spec fn head_of(s: Seq<char>, start: int) -> Seq<char> {
    without_break(s.take(start), returns_at(s, (start + BEGIN@.len()) as int))
}

/// What stands after the block that begins at `start` and the line break that ends it.
pub open spec fn tail_of(s: Seq<char>, start: int) -> Seq<char> {
    after_break(s.skip(block_end(s, start)))
}

/// The text without its managed blocks.
pub open spec fn stripped(s: Seq<char>) -> Seq<char>
    decreases s.len(),
    via stripped_decreases
{
    match find(s, BEGIN@) {
        None => s,
        Some(start) => rejoined(head_of(s, start), stripped(tail_of(s, start))),
    }
}

#[via_fn]
proof fn stripped_decreases(s: Seq<char>) {
    if let Some(start) = find(s, BEGIN@) {
        lemma_block_has_length(s, start);
    }
}

/// A block is not empty.
proof fn lemma_block_has_length(s: Seq<char>, start: int)
    requires
        find(s, BEGIN@) == Some(start),
    ensures
        0 <= start < start + BEGIN@.len() <= s.len(),
        start < block_end(s, start) <= s.len(),
        tail_of(s, start).len() < s.len(),
        occurs_at(s, BEGIN@, start),
        forall|j: int| 0 <= j < start ==> !#[trigger] occurs_at(s, BEGIN@, j),
{
    lemma_marks();
    lemma_find_from(s, BEGIN@, 0);
    lemma_find_from(s.skip(start), END@, 0);
}

/// The lines that map hosts to both loopback addresses.
pub open spec fn host_lines(hosts: Seq<Seq<char>>) -> Seq<char>
    decreases hosts.len(),
{
    if hosts.len() == 0 {
        seq![]
    } else {
        host_lines(hosts.drop_last()) + "127.0.0.1\t"@ + hosts.last() + seq!['\n'] + "::1\t"@
            + hosts.last() + seq!['\n']
    }
}

/// What stands between the beginning of a block and its end.
pub open spec fn block_body(hosts: Seq<Seq<char>>) -> Seq<char> {
    seq!['\n'] + NOTE@ + seq!['\n'] + host_lines(hosts)
}

/// The managed block.
pub open spec fn block(hosts: Seq<Seq<char>>) -> Seq<char> {
    BEGIN@ + block_body(hosts) + END@
}

/// The block below a text, set off by one line break.
pub open spec fn below(base: Seq<char>, hosts: Seq<Seq<char>>) -> Seq<char> {
    if base.len() == 0 {
        block(hosts).push('\n')
    } else {
        base + seq!['\n'] + block(hosts) + seq!['\n']
    }
}

/// The text with its managed blocks replaced by one for these hosts, or without any where there
/// are no hosts.
pub open spec fn applied(s: Seq<char>, hosts: Seq<Seq<char>>) -> Seq<char> {
    if hosts.len() == 0 {
        stripped(s)
    } else {
        below(stripped(s), hosts)
    }
}

// ── Functions ────────────────────────────────────────────────────────────────

/// Where the text before the first block ends and where the text after it starts, the line breaks
/// that set the block off left out.
fn cut(s: &[char]) -> (r: Option<(usize, usize)>)
    ensures
        match find(s@, BEGIN@) {
            None => r is None,
            Some(start) => match r {
                None => false,
                Some((i, j)) => i <= j <= s@.len() && 0 <= start < j && s@.take(i as int) == head_of(
                    s@,
                    start,
                ) && s@.skip(j as int) == tail_of(s@, start),
            },
        },
{
    let begin = chars_of(BEGIN);
    let end = chars_of(END);
    let size: usize = s.len();
    let start: usize = match find_chars(s, begin.as_slice(), 0) {
        Some(i) => i,
        None => {
            return None;
        },
    };
    proof {
        lemma_block_has_length(s@, start as int);
    }
    let rest = slice_subrange(s, start, size);
    assert(rest@ =~= s@.skip(start as int));
    let block_end: usize = match find_chars(rest, end.as_slice(), 0) {
        Some(i) => {
            proof {
                lemma_find_from(rest@, end@, 0);
            }
            start + i + end.len()
        },
        None => size,
    };

    let after: usize = start + begin.len();
    let returns: bool = size - after > 1 && s[after] == '\r' && s[after + 1] == '\n';
    let mut head_end: usize = start;
    // Drop one line break in front of the block.
    if head_end > 0 && s[head_end - 1] == '\n' {
        head_end -= 1;
        if returns && head_end > 0 && s[head_end - 1] == '\r' {
            head_end -= 1;
        }
    }
    assert(s@.take(head_end as int) =~= head_of(s@, start as int));

    let mut tail_start: usize = block_end;
    // Consume the line break that ended the last line of the block.
    if tail_start < size && s[tail_start] == '\n' {
        tail_start += 1;
    } else if size - tail_start > 1 && s[tail_start] == '\r' && s[tail_start + 1] == '\n' {
        tail_start += 2;
    }
    assert(s@.skip(tail_start as int) =~= tail_of(s@, start as int));
    Some((head_end, tail_start))
}

/// It does not matter which two of three pieces are put together first.
proof fn lemma_rejoined(a: Seq<char>, b: Seq<char>, c: Seq<char>)
    ensures
        rejoined(rejoined(a, b), c) == rejoined(a, rejoined(b, c)),
        rejoined(seq![], a) == a,
{
    assert(rejoined(rejoined(a, b), c) =~= rejoined(a, rejoined(b, c)));
    assert(rejoined(seq![], a) =~= a);
}

/// Put a piece of text below what is there.
fn rejoin(text: &mut String, ends: bool, piece: &[char])
    requires
        ends == (old(text)@.len() == 0 || old(text)@.last() == '\n'),
    ensures
        final(text)@ == rejoined(old(text)@, piece@),
{
    if piece.len() > 0 {
        if !ends {
            text.push('\n');
        }
        text.push_str(text_of(piece).as_str());
    }
    assert(final(text)@ =~= rejoined(old(text)@, piece@));
}

/// Remove every managed block, with the line break that set it off and the one that ended it.
pub fn strip(existing: &str) -> (r: String)
    ensures
        r@ == stripped(existing@),
{
    let all = chars_of(existing);
    let size: usize = all.len();
    let mut r = String::new();
    let mut ends: bool = true;
    let mut from: usize = 0;
    proof {
        lemma_rejoined(stripped(all@), seq![], seq![]);
        assert(all@.skip(0) =~= all@);
        assert(r@ =~= seq![]);
    }
    loop
        invariant
            all@ == existing@,
            size == all@.len(),
            from <= size,
            ends == (r@.len() == 0 || r@.last() == '\n'),
            stripped(all@) == rejoined(r@, stripped(all@.skip(from as int))),
        decreases size - from,
    {
        let rest = slice_subrange(all.as_slice(), from, size);
        assert(rest@ =~= all@.skip(from as int));
        let ghost so_far = r@;
        match cut(rest) {
            None => {
                rejoin(&mut r, ends, rest);
                return r;
            },
            Some((head_end, tail_start)) => {
                let head = slice_subrange(rest, 0, head_end);
                assert(head@ =~= rest@.take(head_end as int));
                rejoin(&mut r, ends, head);
                proof {
                    let start = find(rest@, BEGIN@)->0;
                    lemma_rejoined(so_far, head@, stripped(tail_of(rest@, start)));
                    assert(rest@.skip(tail_start as int) =~= all@.skip(from + tail_start));
                }
                if head.len() > 0 {
                    ends = head[head.len() - 1] == '\n';
                }
                from += tail_start;
            },
        }
    }
}

/// The managed block.
fn block_text(hosts: &[&str]) -> (r: String)
    ensures
        r@ == block(strs(hosts@)),
{
    let mut r = BEGIN.to_string();
    r.push('\n');
    r.push_str(NOTE);
    r.push('\n');
    let ghost top = r@;
    let ghost all = strs(hosts@);
    let mut i: usize = 0;
    assert(top + host_lines(all.take(0)) =~= top);
    while i < hosts.len()
        invariant
            i <= hosts@.len(),
            all == strs(hosts@),
            r@ == top + host_lines(all.take(i as int)),
        decreases hosts@.len() - i,
    {
        r.push_str("127.0.0.1\t");
        r.push_str(hosts[i]);
        r.push('\n');
        // A client may ask for an IPv6 address first; map that loopback too.
        r.push_str("::1\t");
        r.push_str(hosts[i]);
        r.push('\n');
        i += 1;
        assert(all.take(i as int).drop_last() =~= all.take(i - 1));
        assert(all.take(i as int).last() == hosts@[i - 1]@);
        assert(r@ =~= top + host_lines(all.take(i as int)));
    }
    assert(all.take(i as int) =~= all);
    r.push_str(END);
    assert(r@ =~= block(all));
    r
}

/// Replace (or insert) the managed block so it maps every `host` to loopback. Passing an empty
/// `hosts` is equivalent to [`strip`]. Existing blocks are always replaced, never stacked.
pub fn apply(existing: &str, hosts: &[&str]) -> (r: String)
    ensures
        r@ == applied(existing@, strs(hosts@)),
{
    let base = strip(existing);
    if hosts.len() == 0 {
        return base;
    }
    let block = block_text(hosts);
    if chars_of(base.as_str()).len() == 0 {
        let mut r = block;
        r.push('\n');
        return r;
    }
    let mut r = base;
    r.push('\n');
    r.push_str(block.as_str());
    r.push('\n');
    assert(r@ =~= applied(existing@, strs(hosts@)));
    r
}

/// Is the managed block present at all, whatever it currently maps?
///
/// Distinct from [`is_current`]: this answers "did somebody leave the machine redirected", which
/// is the question after a daemon dies without restoring anything.
pub fn is_applied(existing: &str) -> (b: bool)
    ensures
        b == contains(existing@, BEGIN@),
{
    contains_str(existing, BEGIN)
}

/// Text that ends in a line break, unless it is empty.
pub fn ensure_trailing_newline(s: &str) -> (r: String)
    ensures
        r@ == with_final_break(s@),
{
    let chars = chars_of(s);
    let mut r = s.to_string();
    if chars.len() > 0 && chars[chars.len() - 1] != '\n' {
        r.push('\n');
    }
    r
}

/// Does the file already map exactly `hosts` (and nothing stale)?
pub fn is_current(existing: &str, hosts: &[&str]) -> (b: bool)
    ensures
        b == (applied(existing@, strs(hosts@)) == with_final_break(existing@)),
{
    let a = apply(existing, hosts);
    let b = ensure_trailing_newline(existing);
    same_chars(chars_of(a.as_str()).as_slice(), chars_of(b.as_str()).as_slice())
}

// ── Laws ─────────────────────────────────────────────────────────────────────

/// Names that hold no mark of a block.
pub open spec fn unmarked(hosts: Seq<Seq<char>>) -> bool {
    forall|i: int|
        0 <= i < hosts.len() ==> !contains(#[trigger] hosts[i], BEGIN@) && !contains(
            hosts[i],
            END@,
        )
}

/// Names that stand on one line each.
pub open spec fn one_line_each(hosts: Seq<Seq<char>>) -> bool {
    forall|i: int| 0 <= i < hosts.len() ==> !(#[trigger] hosts[i]).contains('\n')
}

/// What can be looked for line by line and cell by cell: it starts with `#` and holds neither a
/// line break nor a tab.
spec fn is_mark(p: Seq<char>) -> bool {
    p.len() > 0 && p[0] == '#' && !p.contains('\n') && !p.contains('\t')
}

/// What the marks and the note are made of.
proof fn lemma_marks()
    ensures
        BEGIN@.len() == 12,
        END@.len() == 10,
        NOTE@.len() == 78,
        is_mark(BEGIN@),
        is_mark(END@),
        BEGIN@[2] == 'B',
        END@[2] == 'E',
        NOTE@[2] == 'M',
        forall|i: int| 0 < i < BEGIN@.len() ==> #[trigger] BEGIN@[i] != '#',
        forall|i: int| 0 < i < END@.len() ==> #[trigger] END@[i] != '#',
        forall|i: int| 0 < i < NOTE@.len() ==> #[trigger] NOTE@[i] != '#',
{
    reveal_strlit("# BEGIN 9rai");
    reveal_strlit("# END 9rai");
    reveal_strlit(
        "# Managed by 9rai. Do not edit; removed automatically when interception stops.",
    );
}

/// A pattern and the text agree, character by character, where the pattern stands.
proof fn lemma_agrees(s: Seq<char>, p: Seq<char>, i: int, k: int)
    requires
        occurs_at(s, p, i),
        0 <= k < p.len(),
    ensures
        s[i + k] == p[k],
{
    assert(s.subrange(i, i + p.len())[k] == p[k]);
}

/// A text without a pattern has none in any part of it.
proof fn lemma_part(s: Seq<char>, from: int, to: int, p: Seq<char>)
    requires
        0 <= from <= to <= s.len(),
        !contains(s, p),
    ensures
        !contains(s.subrange(from, to), p),
{
    let a = s.subrange(from, to);
    if contains(a, p) {
        let i = choose|i: int| occurs_at(a, p, i);
        assert(s.subrange(from + i, from + i + p.len()) =~= a.subrange(i, i + p.len()));
        assert(occurs_at(s, p, from + i));
    }
}

/// A pattern does not stand across a character that it does not hold.
proof fn lemma_apart(a: Seq<char>, c: char, b: Seq<char>, p: Seq<char>)
    requires
        p.len() > 0,
        !p.contains(c),
        !contains(a, p),
        !contains(b, p),
    ensures
        !contains(a + seq![c] + b, p),
{
    let s = a + seq![c] + b;
    if contains(s, p) {
        let i = choose|i: int| occurs_at(s, p, i);
        let n = p.len() as int;
        if i + n <= a.len() {
            assert(a.subrange(i, i + n) =~= s.subrange(i, i + n));
            assert(occurs_at(a, p, i));
        } else if i > a.len() {
            let j = i - a.len() - 1;
            assert(b.subrange(j, j + n) =~= s.subrange(i, i + n));
            assert(occurs_at(b, p, j));
        } else {
            lemma_agrees(s, p, i, a.len() - i);
            assert(p.contains(p[a.len() - i]));
        }
    }
}

/// Two texts of which the first ends its line hold no mark together that neither holds alone.
proof fn lemma_stacked(a: Seq<char>, b: Seq<char>, p: Seq<char>)
    requires
        is_mark(p),
        a.len() == 0 || a.last() == '\n',
        !contains(a, p),
        !contains(b, p),
    ensures
        !contains(a + b, p),
{
    if a.len() == 0 {
        assert(a + b =~= b);
    } else {
        lemma_part(a, 0, a.len() - 1, p);
        lemma_apart(a.subrange(0, a.len() - 1), '\n', b, p);
        assert(a.subrange(0, a.len() - 1) + seq!['\n'] + b =~= a + b);
    }
}

/// A mark does not stand in a text without `#` behind its first character, unless at its front.
proof fn lemma_unlike(s: Seq<char>, p: Seq<char>)
    requires
        p.len() > 2,
        p[0] == '#',
        forall|i: int| 0 < i < s.len() ==> #[trigger] s[i] != '#',
        s.len() > 0 ==> s[0] != '#' || s.len() > 2 && s[2] != p[2],
    ensures
        !contains(s, p),
{
    if contains(s, p) {
        let i = choose|i: int| occurs_at(s, p, i);
        lemma_agrees(s, p, i, 0);
        lemma_agrees(s, p, i, 2);
    }
}

/// A name without `#` holds no mark.
pub proof fn lemma_plain(name: Seq<char>)
    requires
        forall|i: int| 0 <= i < name.len() ==> #[trigger] name[i] != '#',
    ensures
        !contains(name, BEGIN@),
        !contains(name, END@),
{
    lemma_marks();
    lemma_unlike(name, BEGIN@);
    lemma_unlike(name, END@);
}

/// The lines for such names hold no mark, and the last one ends.
proof fn lemma_lines(hosts: Seq<Seq<char>>, p: Seq<char>)
    requires
        is_mark(p),
        p.len() > 2,
        forall|i: int| 0 <= i < hosts.len() ==> !contains(#[trigger] hosts[i], p),
    ensures
        !contains(host_lines(hosts), p),
        host_lines(hosts).len() == 0 || host_lines(hosts).last() == '\n',
    decreases hosts.len(),
{
    let none: Seq<char> = seq![];
    lemma_unlike(none, p);
    if hosts.len() > 0 {
        let fewer = hosts.drop_last();
        assert forall|i: int| 0 <= i < fewer.len() implies !contains(#[trigger] fewer[i], p) by {
            assert(fewer[i] == hosts[i]);
        }
        lemma_lines(fewer, p);
        let h = hosts.last();
        assert(h == hosts[hosts.len() - 1]);
        reveal_strlit("127.0.0.1\t");
        reveal_strlit("::1\t");
        let four = "127.0.0.1\t"@.drop_last();
        let six = "::1\t"@.drop_last();
        lemma_unlike(four, p);
        lemma_unlike(six, p);
        lemma_apart(h, '\n', none, p);
        lemma_apart(six, '\t', h + seq!['\n'] + none, p);
        let second = six + seq!['\t'] + (h + seq!['\n'] + none);
        lemma_apart(h, '\n', second, p);
        let rest = h + seq!['\n'] + second;
        lemma_apart(four, '\t', rest, p);
        let both = four + seq!['\t'] + rest;
        lemma_stacked(host_lines(fewer), both, p);
        assert(host_lines(hosts) =~= host_lines(fewer) + both);
    } else {
        assert(host_lines(hosts) =~= none);
    }
}

/// A block for unmarked names opens with its only beginning and closes with its only end.
proof fn lemma_block(hosts: Seq<Seq<char>>)
    requires
        unmarked(hosts),
    ensures
        !contains(BEGIN@ + block_body(hosts), END@),
        (BEGIN@ + block_body(hosts)).last() == '\n',
        !contains(block(hosts).skip(1), BEGIN@),
{
    lemma_marks();
    let lines = host_lines(hosts);
    lemma_lines(hosts, BEGIN@);
    lemma_lines(hosts, END@);
    lemma_unlike(BEGIN@, END@);
    lemma_unlike(END@, BEGIN@);
    lemma_unlike(NOTE@, BEGIN@);
    lemma_unlike(NOTE@, END@);
    lemma_apart(NOTE@, '\n', lines, END@);
    lemma_apart(BEGIN@, '\n', NOTE@ + seq!['\n'] + lines, END@);
    assert(BEGIN@ + seq!['\n'] + (NOTE@ + seq!['\n'] + lines) =~= BEGIN@ + block_body(hosts));

    let opened = BEGIN@.skip(1);
    lemma_unlike(opened, BEGIN@);
    lemma_stacked(lines, END@, BEGIN@);
    lemma_apart(NOTE@, '\n', lines + END@, BEGIN@);
    lemma_apart(opened, '\n', NOTE@ + seq!['\n'] + (lines + END@), BEGIN@);
    assert(opened + seq!['\n'] + (NOTE@ + seq!['\n'] + (lines + END@)) =~= block(hosts).skip(1));
}

/// Where the marks stand in a text that holds a block.
proof fn lemma_block_found(before: Seq<char>, hosts: Seq<Seq<char>>, after: Seq<char>)
    requires
        unmarked(hosts),
        !contains(before, BEGIN@),
        before.len() == 0 || before.last() == '\n',
    ensures
        find(before + block(hosts) + after, BEGIN@) == Some(before.len() as int),
        block_end(before + block(hosts) + after, before.len() as int) == before.len() + block(
            hosts,
        ).len(),
{
    let b = block(hosts);
    let s = before + b + after;
    let n = before.len() as int;
    lemma_marks();
    lemma_block(hosts);
    assert(s.subrange(n, n + 12) =~= BEGIN@);
    assert forall|j: int| 0 <= j < n implies !#[trigger] occurs_at(s, BEGIN@, j) by {
        if occurs_at(s, BEGIN@, j) {
            if j + 12 <= n {
                assert(before.subrange(j, j + 12) =~= s.subrange(j, j + 12));
                assert(occurs_at(before, BEGIN@, j));
            } else {
                lemma_agrees(s, BEGIN@, j, n - 1 - j);
                assert(s[n - 1] == before.last());
                assert(BEGIN@.contains(BEGIN@[n - 1 - j]));
            }
        }
    }
    lemma_find_is(s, BEGIN@, n);
    let rest = s.skip(n);
    let top = BEGIN@ + block_body(hosts);
    let at = top.len() as int;
    assert(rest.subrange(at, at + 10) =~= END@);
    assert forall|j: int| 0 <= j < at implies !#[trigger] occurs_at(rest, END@, j) by {
        if occurs_at(rest, END@, j) {
            if j + 10 <= at {
                assert(top.subrange(j, j + 10) =~= rest.subrange(j, j + 10));
                assert(occurs_at(top, END@, j));
            } else {
                lemma_agrees(rest, END@, j, at - 1 - j);
                assert(rest[at - 1] == top.last());
                assert(END@.contains(END@[at - 1 - j]));
            }
        }
    }
    lemma_find_is(rest, END@, at);
}

/// What is before and after a block comes back when the block is taken out: nothing outside it is
/// touched but the two line breaks that set it off.
pub proof fn law_strip_keeps_what_is_outside(
    before: Seq<char>,
    hosts: Seq<Seq<char>>,
    after: Seq<char>,
)
    requires
        unmarked(hosts),
        !contains(before, BEGIN@),
    ensures
        stripped(before + seq!['\n'] + block(hosts) + seq!['\n'] + after) == rejoined(
            before,
            stripped(after),
        ),
        stripped(block(hosts) + seq!['\n'] + after) == stripped(after),
{
    lemma_marks();
    let none: Seq<char> = seq![];
    let tail = seq!['\n'] + after;
    assert(tail.skip(1) =~= after);
    let b = block(hosts);
    assert(b[12] == '\n');

    lemma_unlike(none, BEGIN@);
    lemma_apart(before, '\n', none, BEGIN@);
    let above = before + seq!['\n'];
    assert(above + none =~= above);
    lemma_block_found(above, hosts, tail);
    let s = above + b + tail;
    assert(before + seq!['\n'] + b + seq!['\n'] + after =~= s);
    let n = above.len() as int;
    assert(s.take(n) =~= above);
    assert(above.drop_last() =~= before);
    assert(s[n + 12] == b[12]);
    assert(head_of(s, n) == before);
    assert(s.skip(n + b.len()) =~= tail);
    assert(tail_of(s, n) == after);

    lemma_block_found(none, hosts, tail);
    let t = none + b + tail;
    assert(b + seq!['\n'] + after =~= t);
    assert(t.take(0) =~= none);
    assert(t[12] == b[12]);
    assert(t.skip(b.len() as int) =~= tail);
    assert(head_of(t, 0) == none);
    assert(tail_of(t, 0) == after);
    lemma_rejoined(stripped(after), none, none);
}

/// No mark is left in a stripped text, and a text without one is left as it is.
pub proof fn law_strip_leaves_no_block(s: Seq<char>)
    ensures
        !contains(stripped(s), BEGIN@),
        !contains(s, BEGIN@) ==> stripped(s) == s,
        stripped(stripped(s)) == stripped(s),
    decreases s.len(),
{
    lemma_marks();
    lemma_find_contains(s, BEGIN@);
    if let Some(start) = find(s, BEGIN@) {
        lemma_block_has_length(s, start);
        let head = head_of(s, start);
        let tail = tail_of(s, start);
        law_strip_leaves_no_block(tail);
        let above = s.take(start);
        if contains(above, BEGIN@) {
            let i = choose|i: int| occurs_at(above, BEGIN@, i);
            assert(s.subrange(i, i + 12) =~= above.subrange(i, i + 12));
            assert(occurs_at(s, BEGIN@, i));
        }
        lemma_part(above, 0, head.len() as int, BEGIN@);
        assert(head =~= above.subrange(0, head.len() as int));
        let rest = stripped(tail);
        if head.len() == 0 || head.last() == '\n' {
            lemma_stacked(head, rest, BEGIN@);
        } else if rest.len() == 0 {
            assert(head + rest =~= head);
        } else {
            lemma_apart(head, '\n', rest, BEGIN@);
        }
    }
    lemma_find_contains(stripped(s), BEGIN@);
}

/// [`apply`] and [`strip`] are exact inverses: what the user wrote comes back, to the character,
/// when the block that was added is taken out.
pub proof fn law_strip_undoes_apply(original: Seq<char>, hosts: Seq<Seq<char>>)
    requires
        !contains(original, BEGIN@),
        unmarked(hosts),
    ensures
        stripped(applied(original, hosts)) == original,
{
    law_strip_leaves_no_block(original);
    if hosts.len() > 0 {
        let none: Seq<char> = seq![];
        lemma_marks();
        lemma_unlike(none, BEGIN@);
        law_strip_leaves_no_block(none);
        law_strip_keeps_what_is_outside(original, hosts, none);
        let b = block(hosts);
        assert(b.push('\n') =~= b + seq!['\n'] + none);
        assert(original + seq!['\n'] + b + seq!['\n'] + none =~= original + seq!['\n'] + b
            + seq!['\n']);
        assert(rejoined(original, none) =~= original);
        if original.len() == 0 {
            assert(original =~= none);
        }
    }
}

/// Blocks are replaced, never stacked, whatever the text holds: to apply hosts and then others
/// comes to the same as to apply the others alone, and to strip what was applied comes to the same
/// as to strip.
pub proof fn law_apply_replaces(
    existing: Seq<char>,
    first: Seq<Seq<char>>,
    second: Seq<Seq<char>>,
)
    requires
        unmarked(first),
    ensures
        applied(applied(existing, first), second) == applied(existing, second),
        stripped(applied(existing, first)) == stripped(existing),
{
    law_strip_leaves_no_block(existing);
    law_strip_undoes_apply(stripped(existing), first);
}

/// To apply no hosts is to strip.
pub proof fn law_apply_nothing_is_strip(s: Seq<char>)
    ensures
        applied(s, seq![]) == stripped(s),
{
}

/// After hosts are applied, to any text, there is exactly one block.
pub proof fn law_apply_leaves_one_block(existing: Seq<char>, hosts: Seq<Seq<char>>)
    requires
        unmarked(hosts),
        hosts.len() > 0,
    ensures
        contains(applied(existing, hosts), BEGIN@),
        forall|i: int, j: int|
            #[trigger] occurs_at(applied(existing, hosts), BEGIN@, i) && #[trigger] occurs_at(
                applied(existing, hosts),
                BEGIN@,
                j,
            ) ==> i == j,
{
    lemma_marks();
    lemma_block(hosts);
    law_strip_leaves_no_block(existing);
    let base = stripped(existing);
    let none: Seq<char> = seq![];
    lemma_unlike(none, BEGIN@);
    let b = block(hosts);
    let s = applied(existing, hosts);
    let above = if base.len() == 0 {
        none
    } else {
        base + seq!['\n']
    };
    lemma_apart(base, '\n', none, BEGIN@);
    assert(base + seq!['\n'] + none =~= base + seq!['\n']);
    let n = above.len() as int;
    assert(s =~= above + b + seq!['\n']);
    lemma_block_found(above, hosts, seq!['\n']);
    lemma_find_from(s, BEGIN@, 0);
    assert(occurs_at(s, BEGIN@, n));
    let rest = b.skip(1) + seq!['\n'] + none;
    lemma_apart(b.skip(1), '\n', none, BEGIN@);
    assert(s.skip(n + 1) =~= rest);
    assert forall|i: int| #[trigger] occurs_at(s, BEGIN@, i) implies i == n by {
        if i > n {
            let j = i - n - 1;
            assert(rest.subrange(j, j + 12) =~= s.subrange(i, i + 12));
            assert(occurs_at(rest, BEGIN@, j));
        }
    }
}

/// The last line of a text tells itself apart from the rest.
proof fn lemma_last_line(a: Seq<char>, u: Seq<char>, b: Seq<char>, v: Seq<char>)
    requires
        a + seq!['\n'] + u == b + seq!['\n'] + v,
        !u.contains('\n'),
        !v.contains('\n'),
    ensures
        a == b,
        u == v,
{
    let s = a + seq!['\n'] + u;
    let t = b + seq!['\n'] + v;
    assert(s.len() == a.len() + 1 + u.len());
    assert(t.len() == b.len() + 1 + v.len());
    if u.len() < v.len() {
        assert(s[a.len() as int] == '\n');
        assert(t[a.len() as int] == v[a.len() - b.len() - 1]);
        assert(v.contains(v[a.len() - b.len() - 1]));
    }
    if v.len() < u.len() {
        assert(t[b.len() as int] == '\n');
        assert(s[b.len() as int] == u[b.len() - a.len() - 1]);
        assert(u.contains(u[b.len() - a.len() - 1]));
    }
    assert(a.len() == b.len());
    assert(a =~= s.take(a.len() as int));
    assert(b =~= t.take(b.len() as int));
    assert(u =~= s.skip(a.len() as int + 1));
    assert(v =~= t.skip(b.len() as int + 1));
}

/// The lines tell which hosts they map.
proof fn lemma_lines_tell(first: Seq<Seq<char>>, second: Seq<Seq<char>>)
    requires
        one_line_each(first),
        one_line_each(second),
        host_lines(first) == host_lines(second),
    ensures
        first == second,
    decreases first.len(),
{
    if first.len() == 0 || second.len() == 0 {
        assert(first =~= second);
    } else {
        reveal_strlit("127.0.0.1\t");
        reveal_strlit("::1\t");
        let h = first.last();
        let g = second.last();
        assert(h == first[first.len() - 1]);
        assert(g == second[second.len() - 1]);
        let four = "127.0.0.1\t"@;
        let six = "::1\t"@;
        let a = host_lines(first.drop_last()) + four + h;
        let b = host_lines(second.drop_last()) + four + g;
        let x = host_lines(first);
        let y = host_lines(second);
        assert(x.drop_last() =~= a + seq!['\n'] + (six + h));
        assert(y.drop_last() =~= b + seq!['\n'] + (six + g));
        assert(!(six + h).contains('\n')) by {
            if (six + h).contains('\n') {
                let i = choose|i: int| 0 <= i < (six + h).len() && (six + h)[i] == '\n';
                assert(h[i - 4] == '\n');
            }
        }
        assert(!(six + g).contains('\n')) by {
            if (six + g).contains('\n') {
                let i = choose|i: int| 0 <= i < (six + g).len() && (six + g)[i] == '\n';
                assert(g[i - 4] == '\n');
            }
        }
        lemma_last_line(a, six + h, b, six + g);
        assert(h =~= (six + h).skip(4));
        assert(g =~= (six + g).skip(4));
        let p = host_lines(first.drop_last());
        let q = host_lines(second.drop_last());
        assert(p =~= a.take(a.len() - h.len() - 10));
        assert(q =~= b.take(b.len() - g.len() - 10));
        assert forall|i: int| 0 <= i < first.len() - 1 implies !(#[trigger] first.drop_last()[i])
            .contains('\n') by {
            assert(first.drop_last()[i] == first[i]);
        }
        assert forall|i: int| 0 <= i < second.len() - 1 implies !(#[trigger] second.drop_last()[i])
            .contains('\n') by {
            assert(second.drop_last()[i] == second[i]);
        }
        lemma_lines_tell(first.drop_last(), second.drop_last());
        assert(first =~= first.drop_last().push(h));
        assert(second =~= second.drop_last().push(g));
    }
}

/// After hosts are applied, to any text, the file is current for exactly those hosts.
pub proof fn law_applied_is_current(
    existing: Seq<char>,
    hosts: Seq<Seq<char>>,
    others: Seq<Seq<char>>,
)
    requires
        unmarked(hosts),
        one_line_each(hosts),
        one_line_each(others),
        hosts.len() > 0,
        others.len() > 0,
    ensures
        applied(applied(existing, hosts), others) == with_final_break(applied(existing, hosts))
            <==> others == hosts,
{
    law_apply_replaces(existing, hosts, others);
    let s = applied(existing, hosts);
    let t = applied(existing, others);
    assert(s.last() == '\n');
    if s == t {
        let base = stripped(existing);
        let n = if base.len() == 0 {
            0
        } else {
            base.len() as int + 1
        };
        let x = host_lines(hosts);
        let y = host_lines(others);
        lemma_marks();
        assert(x =~= s.subrange(n + 92, s.len() - 11));
        assert(y =~= t.subrange(n + 92, t.len() - 11));
        lemma_lines_tell(hosts, others);
    }
}

/// A text without a block is current for no hosts.
pub proof fn law_unapplied_is_not_current(existing: Seq<char>, hosts: Seq<Seq<char>>)
    requires
        !contains(existing, BEGIN@),
        unmarked(hosts),
        hosts.len() > 0,
    ensures
        applied(existing, hosts) != with_final_break(existing),
{
    law_apply_leaves_one_block(existing, hosts);
    let none: Seq<char> = seq![];
    lemma_marks();
    lemma_unlike(none, BEGIN@);
    lemma_apart(existing, '\n', none, BEGIN@);
    assert(existing + seq!['\n'] + none =~= existing.push('\n'));
}

// ── What the calls come to ───────────────────────────────────────────────────

/// Hosts are mapped in their order, each for itself: to both loopback addresses, on a line each.
pub proof fn law_each_host_is_mapped_to_both_loopbacks(a: Seq<Seq<char>>, b: Seq<Seq<char>>)
    ensures
        host_lines(a + b) == host_lines(a) + host_lines(b),
        forall|h: Seq<char>| #[trigger]
            host_lines(seq![h]) == "127.0.0.1\t"@ + h + "\n"@ + "::1\t"@ + h + "\n"@,
        host_lines(seq![]) == Seq::<char>::empty(),
    decreases b.len(),
{
    if b.len() == 0 {
        assert(a + b =~= a);
        assert(host_lines(a) + host_lines(b) =~= host_lines(a));
    } else {
        assert((a + b).drop_last() =~= a + b.drop_last());
        assert((a + b).last() == b.last());
        law_each_host_is_mapped_to_both_loopbacks(a, b.drop_last());
        assert(host_lines(a + b) =~= host_lines(a) + host_lines(b));
    }
    reveal_strlit("\n");
    assert forall|h: Seq<char>| #[trigger] host_lines(seq![h]) == "127.0.0.1\t"@ + h + "\n"@
        + "::1\t"@ + h + "\n"@ by {
        reveal_with_fuel(host_lines, 2);
        assert(seq![h].drop_last() =~= seq![]);
        assert("\n"@ =~= seq!['\n']);
        assert(host_lines(seq![h]) =~= "127.0.0.1\t"@ + h + "\n"@ + "::1\t"@ + h + "\n"@);
    }
}

/// A file without a block is kept as it is, to the character, and gets the block below it: a
/// beginning, a note, the lines of the hosts, and an end.
pub proof fn law_the_block_goes_below_what_is_there(existing: &str, hosts: &[&str], r: String)
    requires
        call_ensures(apply, (existing, hosts), r),
        !contains(existing@, "# BEGIN 9rai"@),
        hosts@.len() > 0,
    ensures
        r@ == (if existing@.len() == 0 {
            existing@
        } else {
            existing@ + "\n"@
        }) + "# BEGIN 9rai"@ + "\n"@
            + "# Managed by 9rai. Do not edit; removed automatically when interception stops."@
            + "\n"@ + host_lines(strs(hosts@)) + "# END 9rai"@ + "\n"@,
        existing@.is_prefix_of(r@),
{
    lemma_find_contains(existing@, BEGIN@);
    law_strip_leaves_no_block(existing@);
    reveal_strlit("\n");
    assert("\n"@ =~= seq!['\n']);
    let whole = (if existing@.len() == 0 {
        existing@
    } else {
        existing@ + "\n"@
    }) + "# BEGIN 9rai"@ + "\n"@
        + "# Managed by 9rai. Do not edit; removed automatically when interception stops."@
        + "\n"@ + host_lines(strs(hosts@)) + "# END 9rai"@ + "\n"@;
    assert(r@ =~= whole);
    assert(existing@ =~= r@.take(existing@.len() as int));
}

/// To apply hosts and strip the file again gives back the very file, and in between the block is
/// seen to be there, and to be current for these hosts.
pub proof fn law_what_is_applied_can_be_stripped(
    existing: &str,
    hosts: &[&str],
    applied_text: String,
    stripped_text: String,
    before: bool,
    between: bool,
    after: bool,
    current: bool,
)
    requires
        !contains(existing@, "# BEGIN 9rai"@),
        unmarked(strs(hosts@)),
        hosts@.len() > 0,
        call_ensures(apply, (existing, hosts), applied_text),
    ensures
        forall|t: &str|
            t@ == applied_text@ && #[trigger] call_ensures(strip, (t,), stripped_text)
                ==> stripped_text@ == existing@,
        call_ensures(is_applied, (existing,), before) ==> !before,
        forall|t: &str|
            t@ == applied_text@ && #[trigger] call_ensures(is_applied, (t,), between) ==> between,
        forall|t: &str|
            t@ == applied_text@ && #[trigger] call_ensures(is_current, (t, hosts), current)
                ==> current,
{
    law_strip_undoes_apply(existing@, strs(hosts@));
    law_apply_leaves_one_block(existing@, strs(hosts@));
    law_apply_replaces(existing@, strs(hosts@), strs(hosts@));
    assert(applied(existing@, strs(hosts@)).last() == '\n');
}

/// A file has a block exactly where the beginning of one stands somewhere in it.
pub proof fn law_a_block_is_seen_by_its_beginning(existing: &str, b: bool)
    requires
        call_ensures(is_applied, (existing,), b),
    ensures
        b <==> exists|i: int| #[trigger]
            crate::text::occurs_at(existing@, "# BEGIN 9rai"@, i),
{
}

/// A line break is put at the end where one is missing, and nothing else changes.
pub proof fn law_only_a_missing_break_is_added(s: &str, r: String)
    requires
        call_ensures(ensure_trailing_newline, (s,), r),
    ensures
        s@.is_prefix_of(r@),
        s@.len() == 0 ==> r@ == s@,
        s@.len() > 0 ==> r@.last() == '\n',
        s@.len() > 0 && s@.last() == '\n' ==> r@ == s@,
        r@.len() <= s@.len() + 1,
{
    assert(s@ =~= r@.take(s@.len() as int));
}

/// Whatever stands in a block, and whichever sort of line break a file uses, the block goes with its
/// line breaks and the rest stays as it is.
pub proof fn law_any_block_can_be_stripped(
    before: Seq<char>,
    ends: Seq<char>,
    inside: Seq<char>,
    after: Seq<char>,
)
    requires
        ends == seq!['\n'] || ends == seq!['\r', '\n'],
        !contains(before, "# BEGIN 9rai"@),
        find("# BEGIN 9rai"@ + ends + inside + "# END 9rai"@, "# END 9rai"@) == Some(
            (12 + ends.len() + inside.len()) as int,
        ),
    ensures
        stripped(
            before + ends + ("# BEGIN 9rai"@ + ends + inside + "# END 9rai"@) + ends + after,
        ) == rejoined(before, stripped(after)),
{
    lemma_marks();
    let b = BEGIN@ + ends + inside + END@;
    let s = before + ends + b + ends + after;
    let n = (before.len() + ends.len()) as int;
    assert((b + ends + after).take(12) =~= BEGIN@);
    lemma_first_block(before, ends, b + ends + after);
    assert(before + ends + (b + ends + after) =~= s);
    assert(s.skip(n) =~= b + (ends + after));
    lemma_find_extends(b, ends + after, END@, (12 + ends.len() + inside.len()) as int);
    assert(block_end(s, n) == n + b.len());
    assert(s.take(n) =~= before + ends);
    assert(s[n + 12] == ends[0]);
    assert(ends.len() == 2 ==> s[n + 13] == ends[1]);
    assert(head_of(s, n) =~= before);
    assert(s.skip(n + b.len()) =~= ends + after);
    assert(tail_of(s, n) =~= after);
}

/// A block that nobody closed reaches to the end of the file.
pub proof fn law_an_open_block_reaches_to_the_end(before: Seq<char>, inside: Seq<char>)
    requires
        !contains(before, "# BEGIN 9rai"@),
        !contains("# BEGIN 9rai"@ + seq!['\n'] + inside, "# END 9rai"@),
    ensures
        stripped(before + seq!['\n'] + ("# BEGIN 9rai"@ + seq!['\n'] + inside)) == before,
{
    lemma_marks();
    let ends = seq!['\n'];
    let b = BEGIN@ + ends + inside;
    let s = before + ends + b;
    let n = (before.len() + 1) as int;
    assert(b.take(12) =~= BEGIN@);
    lemma_first_block(before, ends, b);
    assert(s.skip(n) =~= b);
    lemma_find_from(b, END@, 0);
    assert(find(b, END@) is None);
    assert(s.take(n) =~= before + ends);
    assert(s[n + 12] == '\n');
    assert((before + ends).drop_last() =~= before);
    assert(head_of(s, n) =~= before);
    let none: Seq<char> = seq![];
    assert(s.skip(s.len() as int) =~= none);
    assert(tail_of(s, n) =~= none);
    lemma_unlike(none, BEGIN@);
    lemma_find_from(none, BEGIN@, 0);
    assert(stripped(none) == none);
    assert(rejoined(before, none) =~= before);
}

/// The block is found where it begins.
proof fn lemma_first_block(before: Seq<char>, ends: Seq<char>, block: Seq<char>)
    requires
        ends == seq!['\n'] || ends == seq!['\r', '\n'],
        !contains(before, BEGIN@),
        block.len() >= 12,
        block.take(12) == BEGIN@,
    ensures
        find(before + ends + block, BEGIN@) == Some((before.len() + ends.len()) as int),
{
    lemma_marks();
    let s = before + ends + block;
    let n = (before.len() + ends.len()) as int;
    assert(s.subrange(n, n + 12) =~= block.take(12));
    assert forall|j: int| 0 <= j < n implies !#[trigger] occurs_at(s, BEGIN@, j) by {
        if occurs_at(s, BEGIN@, j) {
            if j + 12 <= before.len() {
                assert(before.subrange(j, j + 12) =~= s.subrange(j, j + 12));
                assert(occurs_at(before, BEGIN@, j));
            } else {
                let k = if j + 12 >= n {
                    n - 1
                } else {
                    before.len() as int
                };
                lemma_agrees(s, BEGIN@, j, k - j);
                reveal_strlit("# BEGIN 9rai");
                assert(s[k] == '\n' || s[k] == '\r');
            }
        }
    }
    crate::text::lemma_find_is(s, BEGIN@, n);
}

/// What is found in a text is found when more text follows.
proof fn lemma_find_extends(s: Seq<char>, more: Seq<char>, p: Seq<char>, i: int)
    requires
        find(s, p) == Some(i),
        p.len() > 0,
        i + p.len() == s.len(),
    ensures
        find(s + more, p) == Some(i),
{
    lemma_find_from(s, p, 0);
    let t = s + more;
    assert(t.subrange(i, i + p.len()) =~= s.subrange(i, i + p.len()));
    assert forall|j: int| 0 <= j < i implies !#[trigger] occurs_at(t, p, j) by {
        if occurs_at(t, p, j) {
            assert(s.subrange(j, j + p.len()) =~= t.subrange(j, j + p.len()));
            assert(occurs_at(s, p, j));
        }
    }
    crate::text::lemma_find_is(t, p, i);
}

} // verus!
