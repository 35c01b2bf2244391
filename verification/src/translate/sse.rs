//! Incremental `text/event-stream` reader.
//!
//! Bytes are buffered until a line is complete, so a multi-byte character split across two
//! network reads cannot be corrupted. Only `data:` lines carry payloads; `[DONE]` is a sentinel,
//! not a payload, and is never treated as a terminator (the byte stream ending is).

use crate::text::{
    blank, chars_of, is_white, law_nothing_trims_to_nothing, law_only_white_space_trims_to_nothing,
    law_trimming_keeps_the_core, same_chars, stands_at, text_of, texts, tight, trim, trim_chars,
};
use crate::utf8::{
    from_utf8_lossy, law_encoded_text_reads_back, lemma_line_feed, lemma_line_feed_byte,
    lemma_utf8_concat, utf8_lossy,
};
use vstd::prelude::*;
use vstd::slice::slice_subrange;
use vstd::string::*;
use vstd::utf8::{encode_utf8, encode_utf8_decode_utf8, encode_utf8_valid_utf8};

verus! {

/// The field name that makes a line carry a payload.
pub open spec fn data_field() -> Seq<char> {
    seq!['d', 'a', 't', 'a', ':']
}

/// The payload that marks the end of the answer.
pub open spec fn done_mark() -> Seq<char> {
    seq!['[', 'D', 'O', 'N', 'E', ']']
}

/// The payload that a line of text carries, if any.
pub open spec fn text_payload(line: Seq<char>) -> Option<Seq<char>> {
    let bare = trim(line);
    if data_field().is_prefix_of(bare) {
        let rest = trim(bare.skip(data_field().len() as int));
        if rest.len() > 0 && rest != done_mark() {
            Some(rest)
        } else {
            None
        }
    } else {
        None
    }
}

/// The payload that the bytes of a line carry, if any.
pub open spec fn line_payload(raw: Seq<u8>) -> Option<Seq<char>> {
    text_payload(utf8_lossy(raw))
}

/// The payload as a sequence of none or one.
pub open spec fn listed(p: Option<Seq<char>>) -> Seq<Seq<char>> {
    match p {
        Some(t) => seq![t],
        None => seq![],
    }
}

/// The index of the first line feed, from index `i` on; the length where there is none.
pub open spec fn line_end(s: Seq<u8>, i: int) -> int
    decreases s.len() - i,
{
    if i < 0 || i >= s.len() {
        s.len() as int
    } else if s[i] == 10 {
        i
    } else {
        line_end(s, i + 1)
    }
}

pub proof fn lemma_line_end(s: Seq<u8>, i: int)
    requires
        0 <= i <= s.len(),
    ensures
        i <= line_end(s, i) <= s.len(),
        line_end(s, i) < s.len() ==> s[line_end(s, i)] == 10,
        forall|j: int| i <= j < line_end(s, i) ==> s[j] != 10,
    decreases s.len() - i,
{
    if i < s.len() && s[i] != 10 {
        lemma_line_end(s, i + 1);
    }
}

/// The payloads of the complete lines of `s`, and the incomplete line that is left.
pub open spec fn read_lines(s: Seq<u8>) -> (Seq<Seq<char>>, Seq<u8>)
    decreases s.len(),
{
    let end = line_end(s, 0);
    proof {
        lemma_line_end(s, 0);
    }
    if end >= s.len() {
        (seq![], s)
    } else {
        let rest = read_lines(s.skip(end + 1));
        (listed(line_payload(s.take(end))) + rest.0, rest.1)
    }
}

// ── Independence of chunk boundaries ─────────────────────────────────────────

/// Reading bytes at once, or a first part and then the rest, comes to the same.
pub proof fn lemma_read_concat(a: Seq<u8>, b: Seq<u8>)
    ensures
        read_lines(a + b) == (
            read_lines(a).0 + read_lines(read_lines(a).1 + b).0,
            read_lines(read_lines(a).1 + b).1,
        ),
    decreases a.len(),
{
    let end = line_end(a, 0);
    lemma_line_end(a, 0);
    lemma_line_end(a + b, 0);
    if end < a.len() {
        assert((a + b)[end] == 10);
        let end2 = line_end(a + b, 0);
        assert(end2 == end) by {
            if end2 < end {
                assert((a + b)[end2] == a[end2]);
            }
        }
        assert((a + b).take(end) =~= a.take(end));
        assert((a + b).skip(end + 1) =~= a.skip(end + 1) + b);
        let rest = a.skip(end + 1);
        lemma_read_concat(rest, b);
        let first = listed(line_payload(a.take(end)));
        let r = read_lines(rest);
        assert(first + (r.0 + read_lines(r.1 + b).0) =~= (first + r.0) + read_lines(r.1 + b).0);
    } else {
        let none: Seq<Seq<char>> = seq![];
        assert(none + read_lines(a + b).0 =~= read_lines(a + b).0);
    }
}

/// The chunks, one directly after another.
pub open spec fn whole(chunks: Seq<Seq<u8>>) -> Seq<u8>
    decreases chunks.len(),
{
    if chunks.len() == 0 {
        seq![]
    } else {
        whole(chunks.drop_last()) + chunks.last()
    }
}

/// The payloads that a new reader returns for the given chunks, and the line that it still holds.
pub open spec fn read_chunks(chunks: Seq<Seq<u8>>) -> (Seq<Seq<char>>, Seq<u8>)
    decreases chunks.len(),
{
    if chunks.len() == 0 {
        (seq![], seq![])
    } else {
        let before = read_chunks(chunks.drop_last());
        let now = read_lines(before.1 + chunks.last());
        (before.0 + now.0, now.1)
    }
}

/// The payloads of a whole stream that arrives in the given chunks, the flush at its end included.
pub open spec fn stream_payloads(chunks: Seq<Seq<u8>>) -> Seq<Seq<char>> {
    let r = read_chunks(chunks);
    r.0 + listed(line_payload(r.1))
}

proof fn lemma_read_chunks(chunks: Seq<Seq<u8>>)
    ensures
        read_chunks(chunks) == read_lines(whole(chunks)),
    decreases chunks.len(),
{
    if chunks.len() > 0 {
        lemma_read_chunks(chunks.drop_last());
        lemma_read_concat(whole(chunks.drop_last()), chunks.last());
    }
}

/// Where the chunk boundaries fall does not matter: two ways to cut the same bytes, even inside a
/// character, yield the same payloads.
pub proof fn law_chunk_boundaries_do_not_matter(a: Seq<Seq<u8>>, b: Seq<Seq<u8>>)
    requires
        whole(a) == whole(b),
    ensures
        stream_payloads(a) == stream_payloads(b),
{
    lemma_read_chunks(a);
    lemma_read_chunks(b);
}

// ── What lines carry ─────────────────────────────────────────────────────────

/// A payload that an event can carry: it is not empty, neither begins nor ends with white space,
/// and is not the mark of the end.
pub open spec fn can_be_carried(p: Seq<char>) -> bool {
    tight(p) && p != "[DONE]"@
}

/// A payload is the line's own text, character for character: `data:` and white space around what
/// follows it are dropped, and nothing else.
pub proof fn law_payloads_are_carried_verbatim(
    front: Seq<char>,
    gap: Seq<char>,
    p: Seq<char>,
    back: Seq<char>,
)
    requires
        blank(front),
        blank(gap),
        can_be_carried(p),
        blank(back),
    ensures
        text_payload(front + "data:"@ + gap + p + back) == Some(p),
{
    lemma_field(front, gap, p, back);
    law_trimming_keeps_the_core(gap, p, seq![]);
    assert(gap + p + seq![] =~= gap + p);
    reveal_strlit("[DONE]");
    assert(done_mark() =~= "[DONE]"@);
}

/// The mark of the end is no payload, and neither is a field without a value.
pub proof fn law_the_end_is_no_payload(front: Seq<char>, gap: Seq<char>, back: Seq<char>)
    requires
        blank(front),
        blank(gap),
        blank(back),
    ensures
        text_payload(front + "data:"@ + gap + "[DONE]"@ + back) is None,
        text_payload(front + "data:"@ + gap) is None,
{
    reveal_strlit("[DONE]");
    reveal_strlit("data:");
    assert(done_mark() =~= "[DONE]"@);
    lemma_field(front, gap, "[DONE]"@, back);
    law_trimming_keeps_the_core(gap, "[DONE]"@, seq![]);
    assert(gap + "[DONE]"@ + seq![] =~= gap + "[DONE]"@);
    law_trimming_keeps_the_core(front, "data:"@, gap);
    assert("data:"@ =~= data_field());
    let bare = trim(front + "data:"@ + gap);
    assert(bare.skip(5) =~= seq![]);
    law_nothing_trims_to_nothing();
}

/// A line that does not begin with `data:`, white space aside, carries nothing.
pub proof fn law_other_lines_carry_nothing(front: Seq<char>, line: Seq<char>, back: Seq<char>)
    requires
        blank(front),
        blank(back),
        tight(line),
        !"data:"@.is_prefix_of(line),
    ensures
        text_payload(front + line + back) is None,
        text_payload(front) is None,
{
    reveal_strlit("data:");
    assert("data:"@ =~= data_field());
    law_trimming_keeps_the_core(front, line, back);
    law_only_white_space_trims_to_nothing(front);
}

proof fn lemma_field(front: Seq<char>, gap: Seq<char>, p: Seq<char>, back: Seq<char>)
    requires
        blank(front),
        blank(gap),
        tight(p),
        blank(back),
    ensures
        trim(front + "data:"@ + gap + p + back) == "data:"@ + gap + p,
        "data:"@ == data_field(),
        data_field().is_prefix_of("data:"@ + gap + p),
        ("data:"@ + gap + p).skip(5) == gap + p,
{
    reveal_strlit("data:");
    assert("data:"@ =~= data_field());
    let core = "data:"@ + gap + p;
    assert(front + "data:"@ + gap + p + back =~= front + core + back);
    assert(core.last() == p.last());
    law_trimming_keeps_the_core(front, core, back);
    assert(data_field() =~= core.take(5));
    assert(core.skip(5) =~= gap + p);
}

/// Lines are read one by one, in order: a first line, then the rest.
pub proof fn law_lines_are_read_in_order(line: Seq<u8>, rest: Seq<u8>)
    requires
        !line.contains(10u8),
    ensures
        read_lines(line + seq![10u8] + rest) == (
            match line_payload(line) {
                Some(p) => seq![p] + read_lines(rest).0,
                None => read_lines(rest).0,
            },
            read_lines(rest).1,
        ),
        read_lines(line) == (Seq::<Seq<char>>::empty(), line),
{
    let s = line + seq![10u8] + rest;
    let n = line.len() as int;
    lemma_line_end(s, 0);
    assert(s[n] == 10);
    let end = line_end(s, 0);
    if end < n {
        assert(s[end] == line[end]);
        assert(line.contains(line[end]));
    }
    assert(end == n);
    assert(s.take(n) =~= line);
    assert(s.skip(n + 1) =~= rest);
    let none: Seq<Seq<char>> = seq![];
    assert(none + read_lines(rest).0 =~= read_lines(rest).0);
    lemma_line_end(line, 0);
    if line_end(line, 0) < line.len() {
        assert(line.contains(line[line_end(line, 0)]));
    }
}

/// The events that carry payloads, one after the other, as a server writes them.
pub open spec fn written(payloads: Seq<Seq<char>>) -> Seq<u8>
    decreases payloads.len(),
{
    if payloads.len() == 0 {
        seq![]
    } else {
        encode_utf8("data: "@ + payloads[0] + "\n\n"@) + written(payloads.skip(1))
    }
}

/// Payloads that were written as events are read back, each as it was and in order, wherever the
/// bytes are cut.
pub proof fn law_written_payloads_are_read_back(payloads: Seq<Seq<char>>, chunks: Seq<Seq<u8>>)
    requires
        forall|i: int|
            0 <= i < payloads.len() ==> can_be_carried(#[trigger] payloads[i])
                && !payloads[i].contains('\n'),
        whole(chunks) == written(payloads),
    ensures
        stream_payloads(chunks) == payloads,
{
    lemma_read_chunks(chunks);
    lemma_written(payloads);
    encode_utf8_valid_utf8(seq![]);
    encode_utf8_decode_utf8(seq![]);
    law_only_white_space_trims_to_nothing(seq![]);
    let none: Seq<u8> = seq![];
    law_encoded_text_reads_back(seq![]);
    assert(encode_utf8(seq![]) =~= none);
    reveal_strlit("data:");
    law_other_lines_carry_nothing(seq![], seq!['x'], seq![]);
    assert(payloads + listed(line_payload(none)) =~= payloads);
}

proof fn lemma_written(payloads: Seq<Seq<char>>)
    requires
        forall|i: int|
            0 <= i < payloads.len() ==> can_be_carried(#[trigger] payloads[i])
                && !payloads[i].contains('\n'),
    ensures
        read_lines(written(payloads)) == (payloads, Seq::<u8>::empty()),
    decreases payloads.len(),
{
    let none: Seq<u8> = seq![];
    law_lines_are_read_in_order(none, none);
    if payloads.len() == 0 {
        assert(payloads =~= seq![]);
    } else {
        let p = payloads[0];
        let more = payloads.skip(1);
        assert forall|i: int| 0 <= i < more.len() implies can_be_carried(#[trigger] more[i])
            && !more[i].contains('\n') by {
            assert(more[i] == payloads[i + 1]);
        }
        lemma_written(more);
        reveal_strlit("data: ");
        reveal_strlit("data:");
        reveal_strlit("\n\n");
        let text = "data: "@ + p;
        let line = encode_utf8(text);
        assert("data: "@ + p + "\n\n"@ =~= text + (seq!['\n'] + seq!['\n']));
        lemma_utf8_concat(text, seq!['\n'] + seq!['\n']);
        lemma_utf8_concat(seq!['\n'], seq!['\n']);
        lemma_line_feed();
        lemma_line_feed_byte(text);
        if text.contains('\n') {
            let i = choose|i: int| 0 <= i < text.len() && text[i] == '\n';
            assert(p[i - 6] == '\n');
        }
        let rest = written(more);
        let after = none + seq![10u8] + rest;
        assert(written(payloads) =~= line + seq![10u8] + after);
        law_lines_are_read_in_order(line, after);
        law_lines_are_read_in_order(none, rest);
        law_encoded_text_reads_back(text);
        let gap = seq![' '];
        assert(is_white(' '));
        assert(blank(gap));
        let nothing: Seq<char> = seq![];
        law_payloads_are_carried_verbatim(nothing, gap, p, nothing);
        assert(nothing + "data:"@ + gap + p + nothing =~= text);
        law_encoded_text_reads_back(nothing);
        assert(encode_utf8(nothing) =~= none);
        law_other_lines_carry_nothing(nothing, seq!['x'], nothing);
        assert(line_payload(none) is None);
        assert(payloads =~= seq![p] + more);
    }
}

// ── The reader ───────────────────────────────────────────────────────────────

/// The payload of a line of text.
pub fn payload_of(line: &[char]) -> (r: Option<String>)
    ensures
        match r {
            Some(t) => text_payload(line@) == Some(t@),
            None => text_payload(line@) is None,
        },
{
    let bare = trim_chars(line);
    let field: Vec<char> = vec!['d', 'a', 't', 'a', ':'];
    let done: Vec<char> = vec!['[', 'D', 'O', 'N', 'E', ']'];
    assert(field@ =~= data_field());
    assert(done@ =~= done_mark());
    if !stands_at(bare, field.as_slice(), 0) {
        return None;
    }
    let value = slice_subrange(bare, 5, bare.len());
    assert(value@ =~= bare@.skip(5));
    let rest = trim_chars(value);
    if rest.len() > 0 && !same_chars(rest, done.as_slice()) {
        Some(text_of(rest))
    } else {
        None
    }
}

/// The payload of the bytes of a line.
fn payload(raw: &[u8]) -> (r: Option<String>)
    ensures
        match r {
            Some(t) => line_payload(raw@) == Some(t@),
            None => line_payload(raw@) is None,
        },
{
    let line = chars_of(from_utf8_lossy(raw).as_str());
    payload_of(line.as_slice())
}

#[derive(Debug)]
pub struct SseReader {
    buf: Vec<u8>,
}

impl View for SseReader {
    type V = Seq<u8>;

    /// The bytes of the line that is not complete yet.
    closed spec fn view(&self) -> Seq<u8> {
        self.buf@
    }
}

impl Default for SseReader {
    fn default() -> (r: Self)
        ensures
            r@ == Seq::<u8>::empty(),
    {
        SseReader::new()
    }
}

impl SseReader {
    pub fn new() -> (r: Self)
        ensures
            r@ == Seq::<u8>::empty(),
    {
        SseReader { buf: Vec::new() }
    }

    /// Feed raw bytes; returns the payloads of every line that completed.
    pub fn push(&mut self, bytes: &[u8]) -> (out: Vec<String>)
        ensures
            (texts(out@), final(self)@) == read_lines(old(self)@ + bytes@),
    {
        self.buf.extend_from_slice(bytes);
        let ghost all = old(self)@ + bytes@;
        assert(self.buf@ =~= all);
        let mut out: Vec<String> = Vec::new();
        let mut i: usize = 0;
        let mut start: usize = 0;
        assert(all.skip(0) =~= all);
        assert(texts(out@) + read_lines(all).0 =~= read_lines(all).0);
        while i < self.buf.len()
            invariant
                self.buf@ == all,
                start <= i <= all.len(),
                read_lines(all) == (
                    texts(out@) + read_lines(all.skip(start as int)).0,
                    read_lines(all.skip(start as int)).1,
                ),
                line_end(all.skip(start as int), 0) == line_end(
                    all.skip(start as int),
                    i - start,
                ),
            decreases all.len() - i,
        {
            if self.buf[i] == 10 {
                let ghost here = all.skip(start as int);
                let ghost before = texts(out@);
                let line = slice_subrange(self.buf.as_slice(), start, i);
                assert(here[i - start] == 10);
                assert(line_end(here, 0) == i - start);
                assert(line@ =~= here.take(i - start));
                assert(here.skip(i - start + 1) =~= all.skip(i + 1));
                match payload(line) {
                    Some(p) => {
                        out.push(p);
                        assert(texts(out@) =~= before + listed(line_payload(line@)));
                    },
                    None => {
                        assert(texts(out@) =~= before + listed(line_payload(line@)));
                    },
                }
                start = i + 1;
                assert(read_lines(all).0 =~= texts(out@) + read_lines(all.skip(start as int)).0);
            } else {
                assert(all.skip(start as int)[i - start] != 10);
            }
            i += 1;
        }
        assert(line_end(all.skip(start as int), 0) == all.skip(start as int).len());
        assert(texts(out@) + Seq::<Seq<char>>::empty() =~= texts(out@));
        let rest = self.buf.split_off(start);
        self.buf = rest;
        assert(self.buf@ =~= all.skip(start as int));
        out
    }

    /// A final line with no trailing newline is still a valid event.
    pub fn flush(&mut self) -> (r: Option<String>)
        ensures
            match r {
                Some(t) => line_payload(old(self)@) == Some(t@),
                None => line_payload(old(self)@) is None,
            },
            final(self)@ == Seq::<u8>::empty(),
    {
        let r = payload(self.buf.as_slice());
        self.buf.clear();
        r
    }
}

} // verus!
