//! Splits `<thinking>` / `<think>` blocks out of a token stream into a separate reasoning
//! channel, tolerating tags that straddle chunk boundaries.
//!
//! Any suffix that could still grow into a tag is held back, and the text that is emitted is
//! never rewritten.

use crate::text::{
    chars_of, contains, lower, lower_chars, occurs_at, same_chars, stands_at, text_between, text_of,
};
use vstd::prelude::*;
use vstd::slice::slice_subrange;

verus! {

/// The two spellings of a block. Each opening tag requires the closing tag of its own spelling.
#[derive(Debug, Clone, Copy, PartialEq, Eq, Structural)]
pub enum Tag {
    Thinking,
    Think,
}

impl Tag {
    /// The opening tag, in lower case.
    pub open spec fn opening(self) -> Seq<char> {
        match self {
            Tag::Thinking => seq!['<', 't', 'h', 'i', 'n', 'k', 'i', 'n', 'g', '>'],
            Tag::Think => seq!['<', 't', 'h', 'i', 'n', 'k', '>'],
        }
    }

    /// The closing tag, in lower case.
    pub open spec fn closing(self) -> Seq<char> {
        match self {
            Tag::Thinking => seq!['<', '/', 't', 'h', 'i', 'n', 'k', 'i', 'n', 'g', '>'],
            Tag::Think => seq!['<', '/', 't', 'h', 'i', 'n', 'k', '>'],
        }
    }
}

/// The tags that end the present stretch of text: the closing tag of the open block, or the
/// opening tags where no block is open.
pub open spec fn patterns(close: Option<Tag>) -> Seq<Seq<char>> {
    match close {
        Some(tag) => seq![tag.closing()],
        None => seq![Tag::Thinking.opening(), Tag::Think.opening()],
    }
}

/// Whether a block is open after the tag with index `k` of `patterns(close)`.
pub open spec fn close_after(close: Option<Tag>, k: int) -> Option<Tag> {
    match close {
        Some(_) => None,
        None => Some(
            if k == 0 {
                Tag::Thinking
            } else {
                Tag::Think
            },
        ),
    }
}

/// The first pattern, from index `k` on, that stands in `s` at index `i`.
pub open spec fn which_at(s: Seq<char>, pats: Seq<Seq<char>>, i: int, k: int) -> Option<int>
    decreases pats.len() - k,
{
    if k < 0 || k >= pats.len() {
        None
    } else if occurs_at(s, pats[k], i) {
        Some(k)
    } else {
        which_at(s, pats, i, k + 1)
    }
}

/// The leftmost place, from index `i` on, at which one of the patterns stands, with the index of
/// that pattern.
pub open spec fn first_from(s: Seq<char>, pats: Seq<Seq<char>>, i: int) -> Option<(int, int)>
    decreases s.len() - i,
{
    if i < 0 || i >= s.len() {
        None
    } else {
        match which_at(s, pats, i, 0) {
            Some(k) => Some((i, k)),
            None => first_from(s, pats, i + 1),
        }
    }
}

/// The last `n` characters of `s` are the beginning, and not the whole, of one of the patterns.
pub open spec fn held(s: Seq<char>, pats: Seq<Seq<char>>, n: int) -> bool {
    exists|k: int|
        0 <= k < pats.len() && 0 < n <= s.len() && n < (#[trigger] pats[k]).len() && s.skip(
            s.len() - n,
        ) == pats[k].take(n)
}

/// The greatest length, up to `n`, of a suffix that may still grow into one of the patterns.
pub open spec fn holdback_upto(s: Seq<char>, pats: Seq<Seq<char>>, n: int) -> int
    decreases n,
{
    if n <= 0 {
        0
    } else if held(s, pats, n) {
        n
    } else {
        holdback_upto(s, pats, n - 1)
    }
}

/// Length of the longest suffix of `s` that is a proper prefix of one of the patterns.
pub open spec fn holdback(s: Seq<char>, pats: Seq<Seq<char>>) -> int {
    holdback_upto(s, pats, s.len() as int)
}

/// What one delta makes unambiguous, and what stays undecided.
#[verifier::ext_equal]
pub struct Scan {
    pub reasoning: Seq<char>,
    pub text: Seq<char>,
    pub pending: Seq<char>,
    pub close: Option<Tag>,
}

/// `seg` put in front of the channel that `close` selects.
pub open spec fn emit(close: Option<Tag>, seg: Seq<char>, rest: Scan) -> Scan {
    match close {
        Some(_) => Scan { reasoning: seg + rest.reasoning, ..rest },
        None => Scan { text: seg + rest.text, ..rest },
    }
}

/// Nothing is decided yet.
pub open spec fn undecided(pending: Seq<char>, close: Option<Tag>) -> Scan {
    Scan { reasoning: seq![], text: seq![], pending, close }
}

/// How undecided text is split. Up to the leftmost tag, matched without regard to ASCII case, it
/// belongs to the channel of the present block; the tag itself belongs to neither and changes the
/// channel. Without a tag everything is emitted but the suffix that may still grow into one.
pub open spec fn scan(s: Seq<char>, close: Option<Tag>) -> Scan
    decreases s.len(),
{
    let pats = patterns(close);
    match first_from(lower(s), pats, 0) {
        Some((i, k)) => {
            proof {
                lemma_patterns(close);
                lemma_first(lower(s), pats, 0);
            }
            emit(close, s.take(i), scan(s.skip(i + pats[k].len()), close_after(close, k)))
        },
        None => {
            let n = s.len() - holdback(lower(s), pats);
            emit(close, s.take(n), undecided(s.skip(n), close))
        },
    }
}

/// Two scans, one after the other.
pub open spec fn after(a: Scan, b: Scan) -> Scan {
    Scan { reasoning: a.reasoning + b.reasoning, text: a.text + b.text, ..b }
}

/// What the end of the stream makes of the text that is still held.
pub open spec fn flushed(pending: Seq<char>, close: Option<Tag>) -> (Seq<char>, Seq<char>) {
    match close {
        Some(_) => (pending, seq![]),
        None => (seq![], pending),
    }
}

// ── Properties of the tags ───────────────────────────────────────────────────

/// What makes the tags unambiguous: none is the beginning of another, and each holds a single
/// `<`, its first character.
pub open spec fn unambiguous(pats: Seq<Seq<char>>) -> bool {
    &&& forall|k: int| 0 <= k < pats.len() ==> (#[trigger] pats[k]).len() > 0 && pats[k][0] == '<'
    &&& forall|k: int, i: int|
        0 <= k < pats.len() && 0 < i < pats[k].len() ==> #[trigger] pats[k][i] != '<'
    &&& forall|k: int, l: int|
        0 <= k < pats.len() && 0 <= l < pats.len() && k != l ==> !(
        #[trigger] pats[k]).is_prefix_of(#[trigger] pats[l])
}

pub proof fn lemma_patterns(close: Option<Tag>)
    ensures
        unambiguous(patterns(close)),
{
    let pats = patterns(close);
    if close is None {
        assert(pats[0][6] != pats[1][6]);
        assert(!pats[1].is_prefix_of(pats[0])) by {
            assert(pats[0].take(7)[6] == 'i');
        }
    }
}

proof fn lemma_which(s: Seq<char>, pats: Seq<Seq<char>>, i: int, k: int)
    requires
        0 <= k,
    ensures
        match which_at(s, pats, i, k) {
            Some(w) => k <= w < pats.len() && occurs_at(s, pats[w], i) && forall|l: int|
                k <= l < w ==> !occurs_at(s, #[trigger] pats[l], i),
            None => forall|l: int| k <= l < pats.len() ==> !occurs_at(s, #[trigger] pats[l], i),
        },
    decreases pats.len() - k,
{
    if k < pats.len() && !occurs_at(s, pats[k], i) {
        lemma_which(s, pats, i, k + 1);
    }
}

pub proof fn lemma_first(s: Seq<char>, pats: Seq<Seq<char>>, i: int)
    requires
        0 <= i,
        unambiguous(pats),
    ensures
        match first_from(s, pats, i) {
            Some((j, w)) => {
                &&& i <= j < s.len()
                &&& 0 <= w < pats.len()
                &&& occurs_at(s, pats[w], j)
                &&& forall|l: int| 0 <= l < w ==> !occurs_at(s, #[trigger] pats[l], j)
                &&& forall|m: int, l: int|
                    i <= m < j && 0 <= l < pats.len() ==> !#[trigger] occurs_at(s, pats[l], m)
            },
            None => forall|m: int, l: int|
                i <= m && 0 <= l < pats.len() ==> !#[trigger] occurs_at(s, pats[l], m),
        },
    decreases s.len() - i,
{
    if i < s.len() {
        lemma_which(s, pats, i, 0);
        if which_at(s, pats, i, 0) is None {
            lemma_first(s, pats, i + 1);
        }
    }
}

/// The search finds the leftmost place.
proof fn lemma_first_is(s: Seq<char>, pats: Seq<Seq<char>>, i: int, j: int, w: int)
    requires
        unambiguous(pats),
        0 <= i <= j,
        0 <= w < pats.len(),
        occurs_at(s, pats[w], j),
        forall|m: int, l: int|
            i <= m < j && 0 <= l < pats.len() ==> !#[trigger] occurs_at(s, pats[l], m),
    ensures
        first_from(s, pats, i) == Some((j, w)),
{
    lemma_first(s, pats, i);
    let f = first_from(s, pats, i);
    assert(f is Some);
    let (j2, w2) = f->0;
    assert(j2 == j);
    lemma_same_place(s, pats, j, w, w2);
}

/// Two tags never stand at the same place.
proof fn lemma_same_place(s: Seq<char>, pats: Seq<Seq<char>>, j: int, w: int, v: int)
    requires
        unambiguous(pats),
        0 <= w < pats.len(),
        0 <= v < pats.len(),
        occurs_at(s, pats[w], j),
        occurs_at(s, pats[v], j),
    ensures
        v == w,
{
    if v != w {
        if pats[w].len() <= pats[v].len() {
            assert(pats[w] =~= pats[v].take(pats[w].len() as int)) by {
                assert forall|x: int| 0 <= x < pats[w].len() implies pats[w][x] == pats[v][x] by {
                    assert(s.subrange(j, j + pats[w].len())[x] == s[j + x]);
                    assert(s.subrange(j, j + pats[v].len())[x] == s[j + x]);
                }
            }
            assert(pats[w].is_prefix_of(pats[v]));
        } else {
            assert(pats[v] =~= pats[w].take(pats[v].len() as int)) by {
                assert forall|x: int| 0 <= x < pats[v].len() implies pats[v][x] == pats[w][x] by {
                    assert(s.subrange(j, j + pats[w].len())[x] == s[j + x]);
                    assert(s.subrange(j, j + pats[v].len())[x] == s[j + x]);
                }
            }
            assert(pats[v].is_prefix_of(pats[w]));
        }
    }
}

pub(crate) proof fn lemma_holdback(s: Seq<char>, pats: Seq<Seq<char>>, n: int)
    requires
        0 <= n <= s.len(),
    ensures
        0 <= holdback_upto(s, pats, n) <= n,
        holdback_upto(s, pats, n) > 0 ==> held(s, pats, holdback_upto(s, pats, n)),
        forall|m: int| holdback_upto(s, pats, n) < m <= n ==> !#[trigger] held(s, pats, m),
    decreases n,
{
    if n > 0 && !held(s, pats, n) {
        lemma_holdback(s, pats, n - 1);
    }
}

// ── Independence of chunk boundaries ─────────────────────────────────────────

/// Text in front that neither holds nor can begin a tag goes to the present channel whole.
proof fn lemma_scan_prefix(x: Seq<char>, y: Seq<char>, close: Option<Tag>)
    requires
        forall|m: int, l: int|
            0 <= m < x.len() && 0 <= l < patterns(close).len() ==> !#[trigger] occurs_at(
                lower(x + y),
                patterns(close)[l],
                m,
            ),
        forall|n: int| n > y.len() ==> !#[trigger] held(lower(x + y), patterns(close), n),
    ensures
        scan(x + y, close) == emit(close, x, scan(y, close)),
{
    let pats = patterns(close);
    let p = x + y;
    lemma_patterns(close);
    assert(lower(p) =~= lower(x) + lower(y));
    assert forall|l: int, m: int| 0 <= m && 0 <= l < pats.len() implies occurs_at(
        lower(y),
        pats[l],
        m,
    ) == #[trigger] occurs_at(lower(p), pats[l], m + x.len()) by {
        if m + pats[l].len() <= y.len() {
            assert(lower(y).subrange(m, m + pats[l].len()) =~= lower(p).subrange(
                m + x.len(),
                m + x.len() + pats[l].len(),
            ));
        }
    }
    lemma_first(lower(y), pats, 0);
    match first_from(lower(y), pats, 0) {
        Some((i, k)) => {
            assert(occurs_at(lower(p), pats[k], i + x.len()));
            assert forall|m: int, l: int|
                0 <= m < i + x.len() && 0 <= l < pats.len() implies !#[trigger] occurs_at(
                lower(p),
                pats[l],
                m,
            ) by {
                if m >= x.len() {
                    assert(!occurs_at(lower(y), pats[l], m - x.len()));
                    assert(occurs_at(lower(p), pats[l], m - x.len() + x.len()) == occurs_at(lower(y), pats[l], m - x.len()));
                }
            }
            lemma_first_is(lower(p), pats, 0, i + x.len(), k);
            assert(p.take(i + x.len()) =~= x + y.take(i));
            assert(p.skip(i + x.len() + pats[k].len()) =~= y.skip(i + pats[k].len()));
            let rest = scan(y.skip(i + pats[k].len()), close_after(close, k));
            assert(scan(p, close) =~= emit(close, x + y.take(i), rest));
            assert(scan(y, close) == emit(close, y.take(i), rest));
            assert(emit(close, x + y.take(i), rest) =~= emit(close, x, emit(close, y.take(i), rest)));
        },
        None => {
            lemma_first(lower(p), pats, 0);
            assert(first_from(lower(p), pats, 0) is None) by {
                if let Some((j, w)) = first_from(lower(p), pats, 0) {
                    assert(j >= x.len());
                    assert(!occurs_at(lower(y), pats[w], j - x.len()));
                    assert(occurs_at(lower(p), pats[w], j - x.len() + x.len()) == occurs_at(lower(y), pats[w], j - x.len()));
                }
            }
            lemma_holdback(lower(p), pats, p.len() as int);
            lemma_holdback(lower(y), pats, y.len() as int);
            let hp = holdback(lower(p), pats);
            let hy = holdback(lower(y), pats);
            assert forall|n: int| 0 < n <= y.len() implies #[trigger] held(lower(p), pats, n) == held(
                lower(y),
                pats,
                n,
            ) by {
                assert(lower(p).skip(p.len() - n) =~= lower(y).skip(y.len() - n));
            }
            assert(hp <= y.len());
            assert(hp == hy) by {
                if hp > hy {
                    assert(held(lower(p), pats, hp));
                }
                if hy > hp {
                    assert(held(lower(y), pats, hy));
                    assert(held(lower(p), pats, hy));
                }
            }
            let n = y.len() - hy;
            assert(p.take(p.len() - hp) =~= x + y.take(n));
            assert(p.skip(p.len() - hp) =~= y.skip(n));
            let rest = undecided(y.skip(n), close);
            assert(emit(close, x + y.take(n), rest) =~= emit(close, x, emit(close, y.take(n), rest)));
        },
    }
}

/// A tag found in a text is found at the same place when more text follows.
proof fn lemma_first_extends(p: Seq<char>, b: Seq<char>, pats: Seq<Seq<char>>)
    requires
        unambiguous(pats),
        first_from(p, pats, 0) is Some,
    ensures
        first_from(p + b, pats, 0) == first_from(p, pats, 0),
{
    let q = p + b;
    lemma_first(p, pats, 0);
    let (i, k) = first_from(p, pats, 0)->0;
    assert(q.subrange(i, i + pats[k].len()) =~= p.subrange(i, i + pats[k].len()));
    assert(q[i] == '<') by {
        assert(p.subrange(i, i + pats[k].len())[0] == p[i]);
    }
    assert forall|m: int, l: int| 0 <= m < i && 0 <= l < pats.len() implies !#[trigger] occurs_at(
        q,
        pats[l],
        m,
    ) by {
        if occurs_at(q, pats[l], m) {
            if m + pats[l].len() <= p.len() {
                assert(q.subrange(m, m + pats[l].len()) =~= p.subrange(m, m + pats[l].len()));
                assert(occurs_at(p, pats[l], m));
            } else {
                assert(q.subrange(m, m + pats[l].len())[i - m] == q[i]);
                assert(pats[l][i - m] == '<');
            }
        }
    }
    lemma_first_is(q, pats, 0, i, k);
}

/// Where no tag stands in a text, none that more text completes begins before the suffix that is
/// held back, and no longer suffix may grow into one.
proof fn lemma_nothing_before_held(p: Seq<char>, b: Seq<char>, pats: Seq<Seq<char>>)
    requires
        unambiguous(pats),
        first_from(p, pats, 0) is None,
    ensures
        forall|m: int, l: int|
            0 <= m < p.len() - holdback(p, pats) && 0 <= l < pats.len()
                ==> !#[trigger] occurs_at(p + b, pats[l], m),
        forall|n: int| n > holdback(p, pats) + b.len() ==> !#[trigger] held(p + b, pats, n),
{
    let q = p + b;
    let h = holdback(p, pats);
    lemma_first(p, pats, 0);
    lemma_holdback(p, pats, p.len() as int);
    assert forall|m: int, l: int|
        0 <= m < p.len() - h && 0 <= l < pats.len() implies !#[trigger] occurs_at(q, pats[l], m) by {
        if occurs_at(q, pats[l], m) {
            let sub = q.subrange(m, m + pats[l].len());
            if m + pats[l].len() <= p.len() {
                assert(sub =~= p.subrange(m, m + pats[l].len()));
                assert(occurs_at(p, pats[l], m));
            } else {
                let n = p.len() - m;
                assert(p.skip(m) =~= pats[l].take(n)) by {
                    assert forall|z: int| 0 <= z < n implies p[m + z] == pats[l][z] by {
                        assert(sub[z] == q[m + z]);
                    }
                }
                assert(held(p, pats, n));
            }
        }
    }
    assert forall|n: int| n > h + b.len() implies !#[trigger] held(q, pats, n) by {
        if held(q, pats, n) {
            let k = choose|k: int|
                0 <= k < pats.len() && 0 < n <= q.len() && n < (#[trigger] pats[k]).len()
                    && q.skip(q.len() - n) == pats[k].take(n);
            let n2 = n - b.len();
            assert(p.skip(p.len() - n2) =~= pats[k].take(n2)) by {
                assert forall|z: int| 0 <= z < n2 implies p[p.len() - n2 + z] == pats[k][z] by {
                    assert(q.skip(q.len() - n)[z] == q[q.len() - n + z]);
                    assert(pats[k].take(n)[z] == pats[k][z]);
                }
            }
            assert(held(p, pats, n2));
        }
    }
}

/// Splitting a text at once, or a first part and then the rest, comes to the same.
pub(crate) proof fn lemma_scan_concat(p: Seq<char>, b: Seq<char>, close: Option<Tag>)
    ensures
        scan(p + b, close) == after(
            scan(p, close),
            scan(scan(p, close).pending + b, scan(p, close).close),
        ),
    decreases p.len(),
{
    let pats = patterns(close);
    let low = lower(p);
    lemma_patterns(close);
    assert(lower(p + b) =~= low + lower(b));
    lemma_first(low, pats, 0);
    match first_from(low, pats, 0) {
        Some((i, k)) => {
            lemma_first_extends(low, lower(b), pats);
            let next = close_after(close, k);
            let r = p.skip(i + pats[k].len());
            assert((p + b).take(i) =~= p.take(i));
            assert((p + b).skip(i + pats[k].len()) =~= r + b);
            lemma_scan_concat(r, b, next);
            let a = scan(r, next);
            let c = scan(a.pending + b, a.close);
            assert(emit(close, p.take(i), after(a, c)) =~= after(emit(close, p.take(i), a), c));
        },
        None => {
            lemma_holdback(low, pats, p.len() as int);
            let h = holdback(low, pats);
            let x = p.take(p.len() - h);
            let y = p.skip(p.len() - h) + b;
            assert(x + y =~= p + b);
            lemma_nothing_before_held(low, lower(b), pats);
            lemma_scan_prefix(x, y, close);
            let u = undecided(p.skip(p.len() - h), close);
            let c = scan(y, close);
            assert(emit(close, x, c) =~= after(emit(close, x, u), c));
        },
    }
}

/// The chunks, one directly after another.
pub open spec fn whole(chunks: Seq<Seq<char>>) -> Seq<char>
    decreases chunks.len(),
{
    if chunks.len() == 0 {
        seq![]
    } else {
        whole(chunks.drop_last()) + chunks.last()
    }
}

/// What a new splitter has emitted, and what it holds, after it was fed the given chunks.
pub open spec fn fed(chunks: Seq<Seq<char>>) -> Scan
    decreases chunks.len(),
{
    if chunks.len() == 0 {
        undecided(seq![], None)
    } else {
        let a = fed(chunks.drop_last());
        after(a, scan(a.pending + chunks.last(), a.close))
    }
}

/// The reasoning and the text of a whole stream that arrives in the given chunks.
pub open spec fn split_stream(chunks: Seq<Seq<char>>) -> (Seq<char>, Seq<char>) {
    let a = fed(chunks);
    let tail = flushed(a.pending, a.close);
    (a.reasoning + tail.0, a.text + tail.1)
}

proof fn lemma_fed(chunks: Seq<Seq<char>>)
    ensures
        fed(chunks) == scan(whole(chunks), None),
    decreases chunks.len(),
{
    if chunks.len() == 0 {
        let none: Seq<char> = seq![];
        lemma_holdback(lower(none), patterns(None), 0);
        assert(first_from(lower(none), patterns(None), 0) is None);
        assert(none.take(0) =~= none);
        assert(none.skip(0) =~= none);
        assert(emit(None, none, undecided(none, None)) =~= undecided(none, None));
    } else {
        lemma_fed(chunks.drop_last());
        lemma_scan_concat(whole(chunks.drop_last()), chunks.last(), None);
    }
}

/// Where the chunk boundaries fall does not matter: two ways to cut the same stream yield the
/// same reasoning and the same text.
pub proof fn law_chunk_boundaries_do_not_matter(a: Seq<Seq<char>>, b: Seq<Seq<char>>)
    requires
        whole(a) == whole(b),
    ensures
        split_stream(a) == split_stream(b),
{
    lemma_fed(a);
    lemma_fed(b);
}

/// A stream that holds no opening tag, in whatever chunks it arrives, is text from beginning to
/// end and passes through untouched.
pub proof fn law_plain_text_passes_untouched(chunks: Seq<Seq<char>>)
    requires
        !contains(lower(whole(chunks)), Tag::Thinking.opening()),
        !contains(lower(whole(chunks)), Tag::Think.opening()),
    ensures
        split_stream(chunks).0 == Seq::<char>::empty(),
        split_stream(chunks).1 == whole(chunks),
{
    let w = whole(chunks);
    lemma_fed(chunks);
    lemma_patterns(None);
    lemma_first(lower(w), patterns(None), 0);
    assert(first_from(lower(w), patterns(None), 0) is None) by {
        if let Some((j, k)) = first_from(lower(w), patterns(None), 0) {
            assert(occurs_at(lower(w), patterns(None)[k], j));
        }
    }
    lemma_holdback(lower(w), patterns(None), w.len() as int);
    let n = w.len() - holdback(lower(w), patterns(None));
    assert(w.take(n) + w.skip(n) =~= w);
    assert(split_stream(chunks).1 =~= w);
}

/// The reasoning and the text of all that is left of a stream.
spec fn finished(s: Seq<char>, close: Option<Tag>) -> (Seq<char>, Seq<char>) {
    let a = scan(s, close);
    let tail = flushed(a.pending, a.close);
    (a.reasoning + tail.0, a.text + tail.1)
}

/// Up to the leftmost tag all is of the present channel; the tag vanishes and the rest follows.
proof fn lemma_finished_at_tag(s: Seq<char>, close: Option<Tag>, i: int, k: int)
    requires
        first_from(lower(s), patterns(close), 0) == Some((i, k)),
    ensures
        ({
            let rest = finished(s.skip(i + patterns(close)[k].len()), close_after(close, k));
            finished(s, close) == match close {
                Some(_) => (s.take(i) + rest.0, rest.1),
                None => (rest.0, s.take(i) + rest.1),
            }
        }),
{
    let a = scan(s.skip(i + patterns(close)[k].len()), close_after(close, k));
    let tail = flushed(a.pending, a.close);
    match close {
        Some(_) => {
            assert(s.take(i) + a.reasoning + tail.0 =~= s.take(i) + (a.reasoning + tail.0));
        },
        None => {
            assert(s.take(i) + a.text + tail.1 =~= s.take(i) + (a.text + tail.1));
        },
    }
}

/// Without a tag all is of the present channel.
proof fn lemma_finished_without_tag(s: Seq<char>, close: Option<Tag>)
    requires
        first_from(lower(s), patterns(close), 0) is None,
    ensures
        finished(s, close) == match close {
            Some(_) => (s, Seq::<char>::empty()),
            None => (Seq::<char>::empty(), s),
        },
{
    lemma_holdback(lower(s), patterns(close), s.len() as int);
    let n = s.len() - holdback(lower(s), patterns(close));
    assert(s.take(n) + s.skip(n) =~= s);
    let none: Seq<char> = seq![];
    assert(s.take(n) + none =~= s.take(n));
    assert(none + none =~= none);
}

/// A block of a stream: the text in front of it, its tags as they are spelled, and what stands
/// between them.
pub ghost struct Block {
    pub before: Seq<char>,
    pub tag: Tag,
    pub open: Seq<char>,
    pub inside: Seq<char>,
    pub close: Seq<char>,
}

/// What follows the last block that is closed: text, or a block that is never closed.
pub ghost enum Ending {
    Text { text: Seq<char> },
    Unclosed { before: Seq<char>, tag: Tag, open: Seq<char>, inside: Seq<char> },
}

/// The earliest opening tag is this one, at `i`. Tags are told without regard to ASCII case.
pub open spec fn opens_at(s: Seq<char>, tag: Tag, i: int) -> bool {
    &&& occurs_at(lower(s), tag.opening(), i)
    &&& forall|j: int, t: Tag| 0 <= j < i ==> !#[trigger] occurs_at(lower(s), t.opening(), j)
}

/// The earliest closing tag of this spelling stands at `i`.
pub open spec fn closes_at(s: Seq<char>, tag: Tag, i: int) -> bool {
    &&& occurs_at(lower(s), tag.closing(), i)
    &&& forall|j: int| 0 <= j < i ==> !#[trigger] occurs_at(lower(s), tag.closing(), j)
}

/// A stream is these blocks and this ending, one after the other. An opening tag in a block, a
/// closing tag outside of one and a closing tag of the other spelling are part of what stands
/// there.
pub open spec fn reads_as(s: Seq<char>, blocks: Seq<Block>, ending: Ending) -> bool
    decreases blocks.len(),
{
    if blocks.len() == 0 {
        match ending {
            Ending::Text { text } => {
                &&& s == text
                &&& forall|t: Tag| !contains(lower(s), #[trigger] t.opening())
            },
            Ending::Unclosed { before, tag, open, inside } => {
                &&& s == before + open + inside
                &&& open.len() == tag.opening().len()
                &&& opens_at(s, tag, before.len() as int)
                &&& !contains(lower(inside), tag.closing())
            },
        }
    } else {
        let b = blocks[0];
        let opened = b.before + b.open;
        let closed = opened + b.inside + b.close;
        &&& b.open.len() == b.tag.opening().len()
        &&& b.close.len() == b.tag.closing().len()
        &&& closed.is_prefix_of(s)
        &&& opens_at(s, b.tag, b.before.len() as int)
        &&& closes_at(s.skip(opened.len() as int), b.tag, b.inside.len() as int)
        &&& reads_as(s.skip(closed.len() as int), blocks.skip(1), ending)
    }
}

/// What stands in the blocks.
pub open spec fn thoughts(blocks: Seq<Block>, ending: Ending) -> Seq<char>
    decreases blocks.len(),
{
    if blocks.len() == 0 {
        match ending {
            Ending::Text { .. } => seq![],
            Ending::Unclosed { inside, .. } => inside,
        }
    } else {
        blocks[0].inside + thoughts(blocks.skip(1), ending)
    }
}

/// What stands outside of the blocks.
pub open spec fn answers(blocks: Seq<Block>, ending: Ending) -> Seq<char>
    decreases blocks.len(),
{
    if blocks.len() == 0 {
        match ending {
            Ending::Text { text } => text,
            Ending::Unclosed { before, .. } => before,
        }
    } else {
        blocks[0].before + answers(blocks.skip(1), ending)
    }
}

/// The search finds the earliest opening tag.
proof fn lemma_opens(s: Seq<char>, tag: Tag, i: int)
    requires
        opens_at(s, tag, i),
    ensures
        ({
            let k: int = if tag == Tag::Thinking {
                0
            } else {
                1
            };
            &&& first_from(lower(s), patterns(None), 0) == Some((i, k))
            &&& patterns(None)[k] == tag.opening()
            &&& close_after(None, k) == Some(tag)
        }),
{
    let pats = patterns(None);
    let k: int = if tag == Tag::Thinking {
        0
    } else {
        1
    };
    lemma_patterns(None);
    assert forall|m: int, l: int| 0 <= m < i && 0 <= l < pats.len() implies !#[trigger] occurs_at(
        lower(s),
        pats[l],
        m,
    ) by {
        let t = if l == 0 {
            Tag::Thinking
        } else {
            Tag::Think
        };
        assert(!occurs_at(lower(s), t.opening(), m));
    }
    lemma_first_is(lower(s), pats, 0, i, k);
}

/// The search finds the earliest closing tag.
proof fn lemma_closes(s: Seq<char>, tag: Tag, i: int)
    requires
        closes_at(s, tag, i),
    ensures
        first_from(lower(s), patterns(Some(tag)), 0) == Some((i, 0int)),
{
    let pats = patterns(Some(tag));
    lemma_patterns(Some(tag));
    assert forall|m: int, l: int| 0 <= m < i && 0 <= l < pats.len() implies !#[trigger] occurs_at(
        lower(s),
        pats[l],
        m,
    ) by {
        assert(!occurs_at(lower(s), tag.closing(), m));
    }
    lemma_first_is(lower(s), pats, 0, i, 0);
}

/// The search finds nothing where no tag stands.
proof fn lemma_no_tag(s: Seq<char>, close: Option<Tag>)
    requires
        forall|l: int|
            0 <= l < patterns(close).len() ==> !contains(lower(s), #[trigger] patterns(close)[l]),
    ensures
        first_from(lower(s), patterns(close), 0) is None,
{
    lemma_patterns(close);
    lemma_first(lower(s), patterns(close), 0);
    if let Some((j, k)) = first_from(lower(s), patterns(close), 0) {
        assert(occurs_at(lower(s), patterns(close)[k], j));
    }
}

proof fn lemma_reads_as(s: Seq<char>, blocks: Seq<Block>, ending: Ending)
    requires
        reads_as(s, blocks, ending),
    ensures
        finished(s, None) == (thoughts(blocks, ending), answers(blocks, ending)),
    decreases blocks.len(),
{
    if blocks.len() > 0 {
        let b = blocks[0];
        let opened = b.before + b.open;
        let closed = opened + b.inside + b.close;
        let within = s.skip(opened.len() as int);
        let rest = s.skip(closed.len() as int);
        lemma_opens(s, b.tag, b.before.len() as int);
        let k: int = if b.tag == Tag::Thinking {
            0
        } else {
            1
        };
        lemma_finished_at_tag(s, None, b.before.len() as int, k);
        assert(closed =~= s.take(closed.len() as int));
        assert(s.take(b.before.len() as int) =~= b.before) by {
            assert(closed.take(b.before.len() as int) =~= b.before);
        }
        lemma_closes(within, b.tag, b.inside.len() as int);
        lemma_finished_at_tag(within, Some(b.tag), b.inside.len() as int, 0);
        assert(within.take(b.inside.len() as int) =~= b.inside) by {
            let n = opened.len() as int;
            assert(closed.subrange(n, n + b.inside.len()) =~= b.inside);
        }
        assert(within.skip(b.inside.len() as int + b.close.len()) =~= rest);
        lemma_reads_as(rest, blocks.skip(1), ending);
    } else {
        match ending {
            Ending::Text { text } => {
                assert forall|l: int| 0 <= l < patterns(None).len() implies !contains(
                    lower(s),
                    #[trigger] patterns(None)[l],
                ) by {
                    let t = if l == 0 {
                        Tag::Thinking
                    } else {
                        Tag::Think
                    };
                    assert(!contains(lower(s), t.opening()));
                }
                lemma_no_tag(s, None);
                lemma_finished_without_tag(s, None);
            },
            Ending::Unclosed { before, tag, open, inside } => {
                lemma_opens(s, tag, before.len() as int);
                let k: int = if tag == Tag::Thinking {
                    0
                } else {
                    1
                };
                lemma_finished_at_tag(s, None, before.len() as int, k);
                assert(s.take(before.len() as int) =~= before);
                assert(s.skip(before.len() as int + open.len()) =~= inside);
                lemma_no_tag(inside, Some(tag));
                lemma_finished_without_tag(inside, Some(tag));
                assert(before + Seq::<char>::empty() =~= before);
            },
        }
    }
}

/// Only the tags vanish. In whatever chunks a stream arrives, what stands in its blocks is the
/// reasoning and what stands outside of them is the text, each in order and to the character. A
/// block that is never closed is reasoning to the end.
pub proof fn law_only_the_tags_vanish(
    chunks: Seq<Seq<char>>,
    blocks: Seq<Block>,
    ending: Ending,
)
    requires
        reads_as(whole(chunks), blocks, ending),
    ensures
        split_stream(chunks).0 == thoughts(blocks, ending),
        split_stream(chunks).1 == answers(blocks, ending),
{
    lemma_fed(chunks);
    lemma_reads_as(whole(chunks), blocks, ending);
}

/// Every stream reads as blocks and an ending.
pub proof fn law_every_stream_is_blocks_and_an_ending(s: Seq<char>)
    ensures
        exists|blocks: Seq<Block>, ending: Ending| reads_as(s, blocks, ending),
    decreases s.len(),
{
    let pats = patterns(None);
    lemma_patterns(None);
    lemma_first(lower(s), pats, 0);
    let none: Seq<Block> = seq![];
    match first_from(lower(s), pats, 0) {
        None => {
            assert forall|t: Tag| !contains(lower(s), #[trigger] t.opening()) by {
                let l: int = if t == Tag::Thinking {
                    0
                } else {
                    1
                };
                assert(pats[l] == t.opening());
                if contains(lower(s), t.opening()) {
                    let i = choose|i: int| occurs_at(lower(s), t.opening(), i);
                    assert(!occurs_at(lower(s), pats[l], i));
                }
            }
            assert(reads_as(s, none, Ending::Text { text: s }));
        },
        Some((i, k)) => {
            let tag = close_after(None, k)->0;
            let size = tag.opening().len() as int;
            assert(pats[k] == tag.opening());
            let before = s.take(i);
            let open = s.subrange(i, i + size);
            let within = s.skip(i + size);
            assert(opens_at(s, tag, i)) by {
                assert forall|j: int, t: Tag| 0 <= j < i implies !#[trigger] occurs_at(
                    lower(s),
                    t.opening(),
                    j,
                ) by {
                    let l: int = if t == Tag::Thinking {
                        0
                    } else {
                        1
                    };
                    assert(pats[l] == t.opening());
                    assert(!occurs_at(lower(s), pats[l], j));
                }
            }
            let ends = patterns(Some(tag));
            lemma_patterns(Some(tag));
            lemma_first(lower(within), ends, 0);
            assert(ends[0] == tag.closing());
            match first_from(lower(within), ends, 0) {
                None => {
                    if contains(lower(within), tag.closing()) {
                        let j = choose|j: int| occurs_at(lower(within), tag.closing(), j);
                        assert(!occurs_at(lower(within), ends[0], j));
                    }
                    assert(s =~= before + open + within);
                    assert(reads_as(
                        s,
                        none,
                        Ending::Unclosed { before, tag, open, inside: within },
                    ));
                },
                Some((j, w)) => {
                    assert(w == 0);
                    let last = tag.closing().len() as int;
                    let b = Block {
                        before,
                        tag,
                        open,
                        inside: within.take(j),
                        close: within.subrange(j, j + last),
                    };
                    let opened = b.before + b.open;
                    let closed = opened + b.inside + b.close;
                    assert(closes_at(within, tag, j)) by {
                        assert forall|m: int| 0 <= m < j implies !#[trigger] occurs_at(
                            lower(within),
                            tag.closing(),
                            m,
                        ) by {
                            assert(!occurs_at(lower(within), ends[0], m));
                        }
                    }
                    assert(closed =~= s.take(closed.len() as int));
                    assert(s.skip(opened.len() as int) =~= within);
                    let rest = s.skip(closed.len() as int);
                    law_every_stream_is_blocks_and_an_ending(rest);
                    let (more, ending) = choose|more: Seq<Block>, ending: Ending|
                        reads_as(rest, more, ending);
                    let blocks = seq![b] + more;
                    assert(blocks.skip(1) =~= more);
                    assert(reads_as(s, blocks, ending));
                },
            }
        },
    }
}

/// Splitting makes nothing up: what is emitted and what is held is no longer than what came in, and
/// what is held is shorter than the longest tag.
pub proof fn law_splitting_makes_nothing_up(s: Seq<char>, close: Option<Tag>)
    ensures
        ({
            let r = scan(s, close);
            &&& r.reasoning.len() + r.text.len() + r.pending.len() <= s.len()
            &&& r.pending.len() <= 10
        }),
    decreases s.len(),
{
    let pats = patterns(close);
    lemma_patterns(close);
    lemma_first(lower(s), pats, 0);
    match first_from(lower(s), pats, 0) {
        Some((i, k)) => {
            law_splitting_makes_nothing_up(s.skip(i + pats[k].len()), close_after(close, k));
        },
        None => {
            lemma_holdback(lower(s), pats, s.len() as int);
            let n = holdback(lower(s), pats);
            if n > 0 {
                assert(held(lower(s), pats, n));
                assert(forall|k: int| 0 <= k < pats.len() ==> (#[trigger] pats[k]).len() <= 11);
            }
        },
    }
}

// ── The splitter ─────────────────────────────────────────────────────────────

/// What became unambiguous: a stretch of reasoning and a stretch of text.
#[derive(Debug, PartialEq, Eq)]
pub struct Split {
    pub reasoning: String,
    pub text: String,
}

impl Default for Split {
    fn default() -> (s: Self)
        ensures
            s.reasoning@ == Seq::<char>::empty(),
            s.text@ == Seq::<char>::empty(),
    {
        Split { reasoning: String::new(), text: String::new() }
    }
}

impl Split {
    pub fn is_empty(&self) -> (b: bool)
        ensures
            b == (self.reasoning@.len() == 0 && self.text@.len() == 0),
    {
        self.reasoning.as_str().is_empty() && self.text.as_str().is_empty()
    }
}

#[derive(Debug)]
pub struct ThinkingSplitter {
    /// Text that cannot be classified yet: a possible partial tag.
    pending: Vec<char>,
    /// The block that is open, by the tag that closes it.
    close: Option<Tag>,
}

impl Default for ThinkingSplitter {
    fn default() -> (s: Self)
        ensures
            s.held_text() == Seq::<char>::empty(),
            s.open_block() is None,
    {
        ThinkingSplitter::new()
    }
}

/// The patterns that a list of character vectors holds.
spec fn pats_of(v: Seq<Vec<char>>) -> Seq<Seq<char>> {
    v.map_values(|p: Vec<char>| p@)
}

/// The tags that end the present stretch of text.
fn pattern_list(close: Option<Tag>) -> (v: Vec<Vec<char>>)
    ensures
        pats_of(v@) == patterns(close),
{
    let v: Vec<Vec<char>> = match close {
        Some(Tag::Thinking) => vec![
            vec!['<', '/', 't', 'h', 'i', 'n', 'k', 'i', 'n', 'g', '>'],
        ],
        Some(Tag::Think) => vec![vec!['<', '/', 't', 'h', 'i', 'n', 'k', '>']],
        None => vec![
            vec!['<', 't', 'h', 'i', 'n', 'k', 'i', 'n', 'g', '>'],
            vec!['<', 't', 'h', 'i', 'n', 'k', '>'],
        ],
    };
    assert(pats_of(v@) =~= patterns(close));
    v
}

/// The leftmost tag, with the place at which it stands.
fn find_first(s: &[char], pats: &Vec<Vec<char>>) -> (r: Option<(usize, usize)>)
    ensures
        match r {
            Some((i, k)) => first_from(s@, pats_of(pats@), 0) == Some((i as int, k as int)),
            None => first_from(s@, pats_of(pats@), 0) is None,
        },
{
    let mut i: usize = 0;
    while i < s.len()
        invariant
            i <= s@.len(),
            first_from(s@, pats_of(pats@), 0) == first_from(s@, pats_of(pats@), i as int),
        decreases s@.len() - i,
    {
        let mut k: usize = 0;
        while k < pats.len()
            invariant
                k <= pats@.len(),
                i < s@.len(),
                first_from(s@, pats_of(pats@), 0) == first_from(s@, pats_of(pats@), i as int),
                which_at(s@, pats_of(pats@), i as int, 0) == which_at(
                    s@,
                    pats_of(pats@),
                    i as int,
                    k as int,
                ),
            decreases pats@.len() - k,
        {
            if stands_at(s, pats[k].as_slice(), i) {
                return Some((i, k));
            }
            k += 1;
        }
        i += 1;
    }
    None
}

/// Length of the longest suffix that may still grow into a tag. That suffix must be held back:
/// the next chunk may complete it.
fn hold(s: &[char], pats: &Vec<Vec<char>>) -> (n: usize)
    ensures
        n == holdback(s@, pats_of(pats@)),
        n <= s@.len(),
{
    let mut n: usize = s.len();
    while n > 0
        invariant
            n <= s@.len(),
            holdback(s@, pats_of(pats@)) == holdback_upto(s@, pats_of(pats@), n as int),
        decreases n,
    {
        let suffix = slice_subrange(s, s.len() - n, s.len());
        assert(suffix@ =~= s@.skip(s@.len() - n));
        let mut k: usize = 0;
        while k < pats.len()
            invariant
                k <= pats@.len(),
                0 < n <= s@.len(),
                suffix@ == s@.skip(s@.len() - n),
                holdback(s@, pats_of(pats@)) == holdback_upto(s@, pats_of(pats@), n as int),
                forall|l: int|
                    0 <= l < k ==> !(n < (#[trigger] pats_of(pats@)[l]).len() && s@.skip(
                        s@.len() - n,
                    ) == pats_of(pats@)[l].take(n as int)),
            decreases pats@.len() - k,
        {
            let p = pats[k].as_slice();
            if n < p.len() {
                let head = slice_subrange(p, 0, n);
                assert(head@ =~= p@.take(n as int));
                assert(pats_of(pats@)[k as int] == p@);
                if same_chars(suffix, head) {
                    assert(held(s@, pats_of(pats@), n as int));
                    return n;
                }
            }
            k += 1;
        }
        assert(!held(s@, pats_of(pats@), n as int));
        n -= 1;
    }
    0
}

impl ThinkingSplitter {
    /// The text that is held back.
    pub closed spec fn held_text(&self) -> Seq<char> {
        self.pending@
    }

    /// The block that is open.
    pub closed spec fn open_block(&self) -> Option<Tag> {
        self.close
    }

    pub fn new() -> (s: Self)
        ensures
            s.held_text() == Seq::<char>::empty(),
            s.open_block() is None,
    {
        ThinkingSplitter { pending: Vec::new(), close: None }
    }

    /// Feed one delta. Returns whatever became unambiguous as a result.
    pub fn push(&mut self, input: &str) -> (out: Split)
        ensures
            (Scan {
                reasoning: out.reasoning@,
                text: out.text@,
                pending: final(self).held_text(),
                close: final(self).open_block(),
            }) == scan(old(self).held_text() + input@, old(self).open_block()),
    {
        let ghost close0 = self.close;
        let mut more = chars_of(input);
        self.pending.append(&mut more);
        let ghost all = self.pending@;
        let mut out = Split::default();
        assert(after(
            Scan { reasoning: out.reasoning@, text: out.text@, pending: seq![], close: None },
            scan(all, close0),
        ) =~= scan(all, close0));
        loop
            invariant
                scan(all, close0) == after(
                    Scan {
                        reasoning: out.reasoning@,
                        text: out.text@,
                        pending: seq![],
                        close: None,
                    },
                    scan(self.pending@, self.close),
                ),
                all == old(self).held_text() + input@,
                close0 == old(self).open_block(),
            decreases self.pending@.len(),
        {
            let ghost before = Scan {
                reasoning: out.reasoning@,
                text: out.text@,
                pending: seq![],
                close: None,
            };
            let ghost pending0 = self.pending@;
            let ghost here = self.close;
            let low = lower_chars(self.pending.as_slice());
            let pats = pattern_list(self.close);
            proof {
                lemma_patterns(self.close);
                lemma_first(low@, pats_of(pats@), 0);
            }
            match find_first(low.as_slice(), &pats) {
                Some((i, k)) => {
                    assert(pats_of(pats@)[k as int] == pats@[k as int]@);
                    assert(i + pats@[k as int]@.len() <= low.len());
                    let skip: usize = i + pats[k].len();
                    let segment = text_between(self.pending.as_slice(), 0, i);
                    let rest = self.pending.split_off(skip);
                    self.pending = rest;
                    assert(segment@ =~= pending0.take(i as int));
                    assert(self.pending@ =~= pending0.skip(skip as int));
                    match self.close {
                        Some(_) => {
                            out.reasoning.push_str(segment.as_str());
                            self.close = None;
                        },
                        None => {
                            out.text.push_str(segment.as_str());
                            self.close = Some(
                                if k == 0 {
                                    Tag::Thinking
                                } else {
                                    Tag::Think
                                },
                            );
                        },
                    }
                    proof {
                        let tail = scan(self.pending@, self.close);
                        assert(after(before, emit(here, segment@, tail)) =~= after(
                            Scan {
                                reasoning: out.reasoning@,
                                text: out.text@,
                                pending: seq![],
                                close: None,
                            },
                            tail,
                        ));
                    }
                },
                None => {
                    let keep = hold(low.as_slice(), &pats);
                    let upto: usize = self.pending.len() - keep;
                    let segment = text_between(self.pending.as_slice(), 0, upto);
                    let rest = self.pending.split_off(upto);
                    self.pending = rest;
                    assert(segment@ =~= pending0.take(upto as int));
                    assert(self.pending@ =~= pending0.skip(upto as int));
                    match self.close {
                        Some(_) => out.reasoning.push_str(segment.as_str()),
                        None => out.text.push_str(segment.as_str()),
                    }
                    proof {
                        let tail = undecided(self.pending@, here);
                        assert(after(before, emit(here, segment@, tail)) =~= Scan {
                            reasoning: out.reasoning@,
                            text: out.text@,
                            pending: self.pending@,
                            close: self.close,
                        });
                    }
                    return out;
                },
            }
        }
    }

    /// Drain anything still held at end of stream. An unterminated block is reasoning; a
    /// dangling tag-lookalike was never a tag, so it is ordinary text.
    pub fn flush(&mut self) -> (out: Split)
        ensures
            (out.reasoning@, out.text@) == flushed(old(self).held_text(), old(self).open_block()),
            final(self).held_text() == Seq::<char>::empty(),
            final(self).open_block() is None,
    {
        let rest = text_of(self.pending.as_slice());
        self.pending.clear();
        match self.close.take() {
            Some(_) => Split { reasoning: rest, text: String::new() },
            None => Split { reasoning: String::new(), text: rest },
        }
    }
}

} // verus!
