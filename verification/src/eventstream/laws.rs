//! What the encoder writes, the decoder reads back.

use vstd::prelude::*;
use vstd::string::*;
use vstd::utf8::{encode_utf8, encode_utf8_decode_utf8, encode_utf8_valid_utf8};

use crate::eventstream;
use crate::eventstream::buffer::{be16, be32, checksum};
use crate::eventstream::testing::{
    announced_kind, announced_type, decode_all, decode_stream, decoded, has_header, header,
    read_headers, stream_frames, try_decode_all, try_decode_stream, u16_at, u32_at, Decoded,
    DecodedFrame, HeaderSeq, Headers,
};
use crate::eventstream::{
    block, envelope, event_frame, event_headers, exception_frame, exception_headers, header_bytes,
    lengths, name_fits, single, unsealed, value_fits, HEADER_TYPE_STRING, JSON,
};
use crate::json::{compact, law_objects_are_written_member_by_member, Json, JsonValue};
use crate::text::law_joining_appends;
use crate::utf8::{lemma_utf8_len, utf8_lossy};

verus! {

/// Headers that fit their length fields and bear different names.
pub open spec fn well_formed_headers(headers: HeaderSeq) -> bool {
    &&& forall|i: int|
        0 <= i < headers.len() ==> name_fits((#[trigger] headers[i]).0) && value_fits(headers[i].1)
    &&& forall|i: int, j: int|
        0 <= i < j < headers.len() ==> (#[trigger] headers[i]).0 != (#[trigger] headers[j]).0
}

/// A header block and a payload whose frame has a length that 32 bits can hold.
pub open spec fn length_fits(headers: HeaderSeq, payload: Seq<u8>) -> bool {
    16 + block(headers).len() + payload.len() < 0x1_0000_0000
}

/// Frames on the wire, one after another.
pub open spec fn on_the_wire(frames: Seq<(HeaderSeq, Seq<u8>)>) -> Seq<u8>
    decreases frames.len(),
{
    if frames.len() == 0 {
        seq![]
    } else {
        envelope(block(frames[0].0), frames[0].1) + on_the_wire(frames.skip(1))
    }
}

/// Four bytes give back the number that they were made from.
proof fn lemma_u32(before: Seq<u8>, n: nat, after: Seq<u8>)
    requires
        n < 0x1_0000_0000,
    ensures
        u32_at(before + be32(n) + after, before.len() as int) == n,
{
    reveal(u32_at);
    let buf = before + be32(n) + after;
    let i = before.len() as int;
    assert(buf[i] == be32(n)[0]);
    assert(buf[i + 1] == be32(n)[1]);
    assert(buf[i + 2] == be32(n)[2]);
    assert(buf[i + 3] == be32(n)[3]);
    assert(n / 0x100_0000 % 0x100 == n / 0x100_0000);
    assert(n / 0x1_0000 == (n / 0x100_0000) * 0x100 + n / 0x1_0000 % 0x100);
    assert(n / 0x100 == (n / 0x1_0000) * 0x100 + n / 0x100 % 0x100);
}

/// The headers before the `k`-th, and it, stand at the front of the block.
proof fn lemma_block_prefix(headers: HeaderSeq, k: int)
    requires
        0 <= k <= headers.len(),
    ensures
        block(headers.take(k)).len() <= block(headers).len(),
        block(headers).take(block(headers.take(k)).len() as int) == block(headers.take(k)),
    decreases headers.len(),
{
    if k < headers.len() {
        let shorter = headers.drop_last();
        lemma_block_prefix(shorter, k);
        assert(shorter.take(k) =~= headers.take(k));
        let n = block(headers.take(k)).len() as int;
        assert(block(headers).take(n) =~= block(shorter).take(n));
    } else {
        assert(headers.take(k) =~= headers);
        assert(block(headers).take(block(headers).len() as int) =~= block(headers));
    }
}

/// Reading goes on from one header to the next.
proof fn lemma_read_one(buf: Seq<u8>, cur: int, end: int, seen: HeaderSeq, name: Seq<char>, value:
    Seq<char>)
    requires
        name_fits(name),
        value_fits(value),
        !has_header(seen, name),
        0 <= cur < end,
        cur + header_bytes(name, value).len() <= buf.len(),
        buf.subrange(cur, cur + header_bytes(name, value).len()) == header_bytes(name, value),
    ensures
        read_headers(buf, cur, end, seen) == read_headers(
            buf,
            cur + header_bytes(name, value).len(),
            end,
            seen.push((name, value)),
        ),
{
    let h = header_bytes(name, value);
    let n = encode_utf8(name);
    let v = encode_utf8(value);
    assert(h.len() == 1 + n.len() + 1 + 2 + v.len());
    let got = buf.subrange(cur, cur + h.len());
    assert forall|j: int| 0 <= j < h.len() implies buf[cur + j] == #[trigger] h[j] by {
        assert(got[j] == h[j]);
    }
    let kind_at = cur + 1 + n.len();
    assert(buf[cur + 0] == h[0] == n.len() as u8);
    assert(buf[cur + (1 + n.len())] == h[1 + n.len() as int] == HEADER_TYPE_STRING);
    assert(buf[cur + (2 + n.len())] == h[2 + n.len() as int] == be16(v.len())[0]);
    assert(buf[cur + (3 + n.len())] == h[3 + n.len() as int] == be16(v.len())[1]);
    assert(u16_at(buf, kind_at + 1) == v.len());
    assert(buf.subrange(cur + 1, kind_at) =~= n) by {
        assert forall|j: int| 0 <= j < n.len() implies buf[cur + 1 + j] == n[j] by {
            assert(buf[cur + (1 + j)] == h[1 + j]);
        }
    }
    assert(buf.subrange(kind_at + 3, kind_at + 3 + v.len()) =~= v) by {
        assert forall|j: int| 0 <= j < v.len() implies buf[kind_at + 3 + j] == v[j] by {
            assert(buf[cur + (4 + n.len() + j)] == h[4 + n.len() + j]);
        }
    }
    encode_utf8_valid_utf8(name);
    encode_utf8_valid_utf8(value);
    encode_utf8_decode_utf8(name);
    encode_utf8_decode_utf8(value);
    assert(utf8_lossy(n) == name);
    assert(utf8_lossy(v) == value);
}

/// Reading a block gives the headers that it was made from.
proof fn lemma_read_block(buf: Seq<u8>, headers: HeaderSeq, k: int)
    requires
        well_formed_headers(headers),
        0 <= k <= headers.len(),
        12 + block(headers).len() <= buf.len(),
        buf.subrange(12, 12 + block(headers).len() as int) == block(headers),
    ensures
        read_headers(
            buf,
            12 + block(headers.take(k)).len() as int,
            12 + block(headers).len() as int,
            headers.take(k),
        ) == Headers::List(headers),
    decreases headers.len() - k,
{
    let end = 12 + block(headers).len() as int;
    if k == headers.len() {
        assert(headers.take(k) =~= headers);
    } else {
        let cur = 12 + block(headers.take(k)).len() as int;
        let name = headers[k].0;
        let value = headers[k].1;
        lemma_read_block(buf, headers, k + 1);
        lemma_block_prefix(headers, k + 1);
        assert(headers.take(k + 1).drop_last() =~= headers.take(k));
        assert(headers.take(k + 1) =~= headers.take(k).push((name, value)));
        let h = header_bytes(name, value);
        assert(block(headers.take(k + 1)) == block(headers.take(k)) + h);
        assert forall|j: int| 0 <= j < h.len() implies buf[cur + j] == #[trigger] h[j] by {
            let at = block(headers.take(k)).len() + j;
            assert(block(headers.take(k + 1))[at] == h[j]);
            assert(block(headers).take(block(headers.take(k + 1)).len() as int)[at] == h[j]);
            assert(buf.subrange(12, end)[at] == h[j]);
        }
        assert(buf.subrange(cur, cur + h.len()) =~= h);
        lemma_read_one(buf, cur, end, headers.take(k), name, value);
    }
}

/// Where the parts of a frame stand.
proof fn lemma_envelope_parts(b: Seq<u8>, payload: Seq<u8>, rest: Seq<u8>)
    requires
        16 + b.len() + payload.len() < 0x1_0000_0000,
    ensures
        ({
            let total = 16 + b.len() + payload.len();
            let buf = envelope(b, payload) + rest;
            &&& envelope(b, payload).len() == total
            &&& u32_at(buf, 0) == total
            &&& u32_at(buf, 4) == b.len()
            &&& u32_at(buf, 8) == checksum(buf.take(8))
            &&& u32_at(buf, total - 4) == checksum(buf.take(total - 4))
            &&& buf.subrange(12, 12 + b.len() as int) == b
            &&& buf.subrange(12 + b.len() as int, total - 4) == payload
        }),
{
    reveal(envelope);
    let total = (16 + b.len() + payload.len()) as nat;
    let t = be32(total);
    let h = be32(b.len());
    let opening = lengths(b.len(), payload.len());
    let seal = be32(checksum(opening) as nat);
    let most = unsealed(b, payload);
    let end = be32(checksum(most) as nat);
    lemma_parts(t, h, seal, b, payload, end, rest);
    lemma_u32(seq![], total, h + seal + b + payload + end + rest);
    lemma_u32(t, b.len(), seal + b + payload + end + rest);
    lemma_u32(opening, checksum(opening) as nat, b + payload + end + rest);
    lemma_u32(most, checksum(most) as nat, rest);
}

/// The parts of a frame, found again in the whole.
proof fn lemma_parts(
    t: Seq<u8>,
    h: Seq<u8>,
    s: Seq<u8>,
    b: Seq<u8>,
    p: Seq<u8>,
    e: Seq<u8>,
    rest: Seq<u8>,
)
    requires
        t.len() == 4,
        h.len() == 4,
        s.len() == 4,
        e.len() == 4,
    ensures
        ({
            let most = t + h + s + b + p;
            let buf = most + e + rest;
            &&& buf == seq![] + t + (h + s + b + p + e + rest)
            &&& buf == t + h + (s + b + p + e + rest)
            &&& buf == t + h + s + (b + p + e + rest)
            &&& buf.take(8) == t + h
            &&& buf.take(12 + b.len() as int + p.len()) == most
            &&& buf.subrange(12, 12 + b.len() as int) == b
            &&& buf.subrange(12 + b.len() as int, 12 + b.len() as int + p.len()) == p
        }),
{
    let most = t + h + s + b + p;
    let buf = most + e + rest;
    assert(buf =~= seq![] + t + (h + s + b + p + e + rest));
    assert(buf =~= t + h + (s + b + p + e + rest));
    assert(buf =~= t + h + s + (b + p + e + rest));
    assert(buf.take(8) =~= t + h);
    assert(buf.take(12 + b.len() as int + p.len()) =~= most);
    assert(buf.subrange(12, 12 + b.len() as int) =~= b);
    assert(buf.subrange(12 + b.len() as int, 12 + b.len() as int + p.len()) =~= p);
}

/// Whatever follows a frame on the wire, decoding it gives its headers and payload back, and
/// its length covers exactly the frame.
pub proof fn law_envelope_decodes_back(headers: HeaderSeq, payload: Seq<u8>, rest: Seq<u8>)
    requires
        well_formed_headers(headers),
        length_fits(headers, payload),
    ensures
        decoded(envelope(block(headers), payload) + rest) == (Decoded::Frame {
            headers,
            payload,
            len: envelope(block(headers), payload).len(),
        }),
{
    let b = block(headers);
    let buf = envelope(b, payload) + rest;
    lemma_envelope_parts(b, payload, rest);
    lemma_read_block(buf, headers, 0);
    assert(headers.take(0) =~= seq![]);
}

/// Frames that stand one after another decode back in order.
pub proof fn law_frames_decode_in_order(frames: Seq<(HeaderSeq, Seq<u8>)>)
    requires
        forall|i: int|
            0 <= i < frames.len() ==> well_formed_headers((#[trigger] frames[i]).0) && length_fits(
                frames[i].0,
                frames[i].1,
            ),
    ensures
        stream_frames(on_the_wire(frames)) == Some(frames),
    decreases frames.len(),
{
    if frames.len() == 0 {
        assert(frames =~= seq![]);
    } else {
        let first = envelope(block(frames[0].0), frames[0].1);
        let rest = on_the_wire(frames.skip(1));
        law_frames_decode_in_order(frames.skip(1));
        law_envelope_decodes_back(frames[0].0, frames[0].1, rest);
        assert((first + rest).skip(first.len() as int) =~= rest);
        assert(seq![frames[0]] + frames.skip(1) =~= frames);
    }
}

/// Two frames, one after the other, decode back in order.
pub proof fn law_two_frames_decode_in_order(a: (HeaderSeq, Seq<u8>), b: (HeaderSeq, Seq<u8>))
    requires
        well_formed_headers(a.0),
        length_fits(a.0, a.1),
        well_formed_headers(b.0),
        length_fits(b.0, b.1),
    ensures
        stream_frames(envelope(block(a.0), a.1) + envelope(block(b.0), b.1)) == Some(seq![a, b]),
{
    let frames = seq![a, b];
    law_frames_decode_in_order(frames);
    reveal_with_fuel(on_the_wire, 3);
    let x = envelope(block(a.0), a.1);
    let y = envelope(block(b.0), b.1);
    assert(frames.skip(1).skip(1) =~= seq![]);
    assert(y + seq![] =~= y);
    assert(on_the_wire(frames.skip(1)) == y);
    assert(on_the_wire(frames) == x + y);
}

/// The headers of an event are well formed and name it.
pub proof fn law_event_headers_name_the_event(event_type: Seq<char>, content_type: Seq<char>)
    requires
        value_fits(event_type),
        value_fits(content_type),
    ensures
        well_formed_headers(event_headers(event_type, content_type)),
        announced_type(event_headers(event_type, content_type)) == event_type,
        announced_kind(event_headers(event_type, content_type)) == "event"@,
{
    reveal_strlit("event");
    reveal_strlit(":message-type");
    reveal_strlit(":event-type");
    reveal_strlit(":content-type");
    lemma_utf8_len("event"@);
    lemma_utf8_len(":message-type"@);
    lemma_utf8_len(":event-type"@);
    lemma_utf8_len(":content-type"@);
    let h = event_headers(event_type, content_type);
    assert(":message-type"@[1] != ":event-type"@[1]);
    assert(":message-type"@.len() != ":event-type"@.len());
    assert(":content-type"@.len() != ":event-type"@.len());
    assert(":content-type"@[1] != ":message-type"@[1]);
    reveal_with_fuel(header, 3);
    assert(h.skip(1)[0] == h[1]);
}

/// The headers of an exception are well formed and name its code.
pub proof fn law_exception_headers_name_the_code(code: Seq<char>)
    requires
        value_fits(code),
    ensures
        well_formed_headers(exception_headers(code)),
        announced_type(exception_headers(code)) == code,
        announced_kind(exception_headers(code)) == "exception"@,
{
    reveal_strlit("exception");
    reveal_strlit("application/json");
    reveal_strlit(":message-type");
    reveal_strlit(":event-type");
    reveal_strlit(":exception-type");
    reveal_strlit(":content-type");
    lemma_utf8_len("exception"@);
    lemma_utf8_len(JSON@);
    lemma_utf8_len(":message-type"@);
    lemma_utf8_len(":exception-type"@);
    lemma_utf8_len(":content-type"@);
    let h = exception_headers(code);
    assert(":message-type"@.len() != ":event-type"@.len());
    assert(":content-type"@.len() != ":event-type"@.len());
    assert(":exception-type"@.len() != ":event-type"@.len());
    assert(":exception-type"@.len() != ":message-type"@.len());
    assert(":exception-type"@.len() != ":content-type"@.len());
    assert(":content-type"@[1] != ":message-type"@[1]);
    reveal_with_fuel(header, 4);
    assert(h.skip(1)[0] == h[1]);
    assert(h.skip(1).skip(1)[0] == h[2]);
}

/// A frame decodes back to the type of its event and to its payload, byte for byte.
pub proof fn law_frame_round_trip(
    event_type: Seq<char>,
    payload: Seq<u8>,
    content_type: Seq<char>,
    rest: Seq<u8>,
)
    requires
        value_fits(event_type),
        value_fits(content_type),
        length_fits(event_headers(event_type, content_type), payload),
    ensures
        match decoded(event_frame(event_type, payload, content_type) + rest) {
            Decoded::Frame { headers, payload: read, len } => {
                &&& announced_kind(headers) == "event"@
                &&& announced_type(headers) == event_type
                &&& header(headers, ":content-type"@) == Some(content_type)
                &&& read == payload
                &&& len == event_frame(event_type, payload, content_type).len()
            },
            _ => false,
        },
{
    let h = event_headers(event_type, content_type);
    law_event_headers_name_the_event(event_type, content_type);
    law_envelope_decodes_back(h, payload, rest);
    assert(h[0].0 != h[2].0 && h[1].0 != h[2].0);
    reveal_with_fuel(header, 4);
    assert(h.skip(1)[0] == h[1]);
    assert(h.skip(1).skip(1)[0] == h[2]);
}

/// A failure is framed as an exception that carries its code and its message.
pub proof fn law_error_frame_is_an_exception(code: Seq<char>, message: Seq<char>, rest: Seq<u8>)
    requires
        value_fits(code),
        length_fits(exception_headers(code), encode_utf8(compact(single("message"@, message)))),
    ensures
        match decoded(exception_frame(code, message) + rest) {
            Decoded::Frame { headers, payload, len } => {
                &&& announced_kind(headers) == "exception"@
                &&& announced_type(headers) == code
                &&& payload == encode_utf8(compact(single("message"@, message)))
                &&& len == exception_frame(code, message).len()
            },
            _ => false,
        },
{
    law_exception_headers_name_the_code(code);
    law_envelope_decodes_back(
        exception_headers(code),
        encode_utf8(compact(single("message"@, message))),
        rest,
    );
}

// ── Layout ───────────────────────────────────────────────────────────────────

/// The number that four bytes hold, the most significant first.
pub open spec fn number_at(buf: Seq<u8>, i: int) -> int {
    buf[i] * 16_777_216 + buf[i + 1] * 65_536 + buf[i + 2] * 256 + buf[i + 3]
}

/// A frame is laid out as the wire format has it: its length, the length of its headers and the
/// checksum of these two, each in four bytes, most significant first; then the headers, the payload,
/// and the checksum of all that.
pub proof fn law_frames_are_laid_out(headers: Seq<u8>, payload: Seq<u8>)
    requires
        16 + headers.len() + payload.len() < 0x1_0000_0000,
    ensures
        ({
            let f = envelope(headers, payload);
            let end = f.len() - 4;
            &&& f.len() == 16 + headers.len() + payload.len()
            &&& number_at(f, 0) == f.len()
            &&& number_at(f, 4) == headers.len()
            &&& number_at(f, 8) == checksum(f.take(8))
            &&& f.subrange(12, 12 + headers.len() as int) == headers
            &&& f.subrange(12 + headers.len() as int, end) == payload
            &&& number_at(f, end) == checksum(f.take(end))
        }),
{
    reveal(u32_at);
    lemma_envelope_parts(headers, payload, seq![]);
    assert(envelope(headers, payload) + seq![] =~= envelope(headers, payload));
}

/// A header is laid out as the wire format has it: the length of its name in one byte, the name, the
/// mark of a text, the length of its value in two bytes, most significant first, and the value.
pub proof fn law_headers_are_laid_out(name: Seq<char>, value: Seq<char>)
    requires
        encode_utf8(name).len() <= 255,
        encode_utf8(value).len() <= 65_535,
    ensures
        ({
            let h = header_bytes(name, value);
            let n = encode_utf8(name).len() as int;
            let v = encode_utf8(value).len() as int;
            &&& h.len() == 4 + n + v
            &&& h[0] == n
            &&& h.subrange(1, 1 + n) == encode_utf8(name)
            &&& h[1 + n] == 7
            &&& h[2 + n] * 256 + h[3 + n] == v
            &&& h.skip(4 + n) == encode_utf8(value)
        }),
        block(seq![(name, value)]) == header_bytes(name, value),
{
    let h = header_bytes(name, value);
    let n = encode_utf8(name).len() as int;
    let v = encode_utf8(value).len() as int;
    assert(h.subrange(1, 1 + n) =~= encode_utf8(name));
    assert(h.skip(4 + n) =~= encode_utf8(value));
    assert(h[2 + n] == be16(v as nat)[0]);
    assert(h[3 + n] == be16(v as nat)[1]);
    reveal_with_fuel(block, 2);
    assert(seq![(name, value)].drop_last() =~= seq![]);
    assert(block(seq![(name, value)]) =~= h);
}

/// Headers stand on the wire in their order.
pub proof fn law_headers_stand_in_order(a: HeaderSeq, b: HeaderSeq)
    ensures
        block(a + b) == block(a) + block(b),
    decreases b.len(),
{
    if b.len() == 0 {
        assert(a + b =~= a);
        assert(block(a) + block(b) =~= block(a));
    } else {
        assert((a + b).drop_last() =~= a + b.drop_last());
        assert((a + b).last() == b.last());
        law_headers_stand_in_order(a, b.drop_last());
        assert(block(a + b) =~= block(a) + block(b));
    }
}

/// What decodes as a frame is one: both checksums are right, the lengths lie within the bytes, and
/// the payload is what stands between the headers and the last checksum.
pub proof fn law_decoding_checks_what_it_reads(
    buf: &[u8],
    r: Result<(crate::eventstream::testing::DecodedFrame, usize), String>,
)
    requires
        call_ensures(crate::eventstream::testing::decode_frame, (buf,), r),
    ensures
        r is Ok ==> {
            let (frame, len) = r->Ok_0;
            let headers = number_at(buf@, 4);
            &&& 16 <= len <= buf@.len()
            &&& number_at(buf@, 0) == len
            &&& 16 + headers <= len
            &&& number_at(buf@, 8) == checksum(buf@.take(8))
            &&& number_at(buf@, len - 4) == checksum(buf@.take(len - 4))
            &&& frame.payload@ == buf@.subrange(12 + headers, len - 4)
        },
        buf@.len() < 16 ==> r is Err,
{
    reveal(u32_at);
}

/// The frame that opens a stream names the conversation, and the frame of a failure its code and
/// what went wrong, each word for word.
pub proof fn law_openings_and_failures_say_what_they_are(
    conversation: &str,
    opening: Vec<u8>,
    code: &str,
    message: &str,
    failure: Vec<u8>,
)
    requires
        call_ensures(crate::eventstream::initial_response, (conversation,), opening),
        call_ensures(crate::eventstream::error_frame, (code, message), failure),
    ensures
        opening@ == envelope(
            block(
                seq![
                    (":message-type"@, "event"@),
                    (":event-type"@, "initial-response"@),
                    (":content-type"@, "application/x-amz-json-1.0"@),
                ],
            ),
            encode_utf8(
                seq!['{'] + compact(Json::Text("conversationId"@)) + seq![':'] + compact(
                    Json::Text(conversation@),
                ) + seq!['}'],
            ),
        ),
        failure@ == envelope(
            block(
                seq![
                    (":message-type"@, "exception"@),
                    (":exception-type"@, code@),
                    (":content-type"@, "application/json"@),
                ],
            ),
            encode_utf8(
                seq!['{'] + compact(Json::Text("message"@)) + seq![':'] + compact(
                    Json::Text(message@),
                ) + seq!['}'],
            ),
        ),
{
    lemma_single("conversationId"@, conversation@);
    lemma_single("message"@, message@);
}

proof fn lemma_single(name: Seq<char>, value: Seq<char>)
    ensures
        compact(single(name, value)) == seq!['{'] + compact(Json::Text(name)) + seq![':'] + compact(
            Json::Text(value),
        ) + seq!['}'],
{
    let write = |m: (Seq<char>, Json)| compact(Json::Text(m.0)) + seq![':'] + compact(m.1);
    let members = seq![(name, Json::Text(value))];
    let none: Seq<Seq<char>> = seq![];
    law_objects_are_written_member_by_member(members);
    assert(members.map_values(write) =~= none.push(write(members[0])));
    law_joining_appends(none, write(members[0]), seq![',']);
    assert(compact(single(name, value)) =~= seq!['{'] + compact(Json::Text(name)) + seq![':']
        + compact(Json::Text(value)) + seq!['}']);
}

/// A frame that was made decodes back, alone or before others, and a stream of frames decodes to
/// what its frames decode to.
pub proof fn law_made_frames_decode_back(
    event_type: &str,
    payload: &[u8],
    content_type: &str,
    made: Vec<u8>,
    buf: &[u8],
    r: Option<Vec<DecodedFrame>>,
)
    requires
        value_fits(event_type@),
        value_fits(content_type@),
        length_fits(event_headers(event_type@, content_type@), payload@),
        call_ensures(eventstream::frame, (event_type, payload, content_type), made),
        buf@ == made@,
        call_ensures(try_decode_stream, (buf,), r),
    ensures
        r is Some,
        r->0@.len() == 1,
        r->0@[0].payload@ == payload@,
        announced_type(r->0@[0]@.0) == event_type@,
        announced_kind(r->0@[0]@.0) == "event"@,
{
    let h = event_headers(event_type@, content_type@);
    law_event_headers_name_the_event(event_type@, content_type@);
    let frames = seq![(h, payload@)];
    law_frames_decode_in_order(frames);
    reveal_with_fuel(on_the_wire, 2);
    assert(frames.skip(1) =~= seq![]);
    let one = envelope(block(h), payload@);
    assert(one + seq![] =~= one);
    assert(on_the_wire(frames) == one);
    let all = crate::eventstream::testing::frame_seq(r->0@);
    assert(all == frames);
    assert(all[0] == r->0@[0]@);
}

/// A frame of JSON is a frame whose payload is the JSON text.
pub proof fn law_json_frames_are_frames(
    event_type: &str,
    value: &JsonValue,
    text: &[u8],
    made: Vec<u8>,
    same: Vec<u8>,
)
    requires
        call_ensures(eventstream::json_frame, (event_type, value), made),
        text@ == encode_utf8(compact(value@)),
        call_ensures(eventstream::frame, (event_type, text, "application/json"), same),
    ensures
        made@ == same@,
{
}

/// A frame tells its types by its headers: an event by its own, and an exception by its code where
/// no event is named.
pub proof fn law_headers_tell_the_types(frame: &DecodedFrame, event: &str, kind: &str)
    requires
        call_ensures(DecodedFrame::event_type, (frame,), event),
        call_ensures(DecodedFrame::message_type, (frame,), kind),
    ensures
        match header(frame@.0, ":event-type"@) {
            Some(t) => event@ == t,
            None => match header(frame@.0, ":exception-type"@) {
                Some(t) => event@ == t,
                None => event@.len() == 0,
            },
        },
        match header(frame@.0, ":message-type"@) {
            Some(t) => kind@ == t,
            None => kind@.len() == 0,
        },
{
}

/// The ways to decode a stream agree: one that hands out frames, and one that hands out their types.
pub proof fn law_decoders_agree(
    buf: &[u8],
    tried: Option<Vec<DecodedFrame>>,
    frames: Vec<DecodedFrame>,
    told: Option<Vec<(String, serde_json::Value)>>,
    events: Vec<(String, serde_json::Value)>,
)
    requires
        call_ensures(try_decode_stream, (buf,), tried),
        call_ensures(decode_stream, (buf,), frames),
        call_ensures(try_decode_all, (buf,), told),
        call_ensures(decode_all, (buf,), events),
    ensures
        tried is Some <==> told is Some,
        tried is Some ==> {
            &&& tried->0@.len() == frames@.len()
            &&& told->0@.len() == frames@.len()
            &&& events@.len() == frames@.len()
            &&& forall|i: int|
                0 <= i < frames@.len() ==> (#[trigger] frames@[i])@ == tried->0@[i]@
                    && events@[i].0@ == announced_type(frames@[i]@.0) && told->0@[i].0@
                    == events@[i].0@
        },
{
    if tried is Some {
        let all = crate::eventstream::testing::frame_seq(frames@);
        let other = crate::eventstream::testing::frame_seq(tried->0@);
        assert(all == other);
        assert forall|i: int| 0 <= i < frames@.len() implies (#[trigger] frames@[i])@
            == tried->0@[i]@ && events@[i].0@ == announced_type(frames@[i]@.0) && told->0@[i].0@
            == events@[i].0@ by {
            assert(all[i] == frames@[i]@);
            assert(other[i] == tried->0@[i]@);
        }
    }
}

/// No two headers of a frame that decodes have the same name.
pub proof fn law_decoded_headers_differ(buf: &[u8], r: Result<(DecodedFrame, usize), String>)
    requires
        call_ensures(crate::eventstream::testing::decode_frame, (buf,), r),
        r is Ok,
    ensures
        forall|i: int, j: int|
            0 <= i < j < r->Ok_0.0@.0.len() ==> (#[trigger] r->Ok_0.0@.0[i]).0 != (
            #[trigger] r->Ok_0.0@.0[j]).0,
{
    lemma_headers_differ(buf@, 12, 12 + u32_at(buf@, 4) as int, seq![]);
}

proof fn lemma_headers_differ(buf: Seq<u8>, cur: int, end: int, seen: HeaderSeq)
    requires
        forall|i: int, j: int|
            0 <= i < j < seen.len() ==> (#[trigger] seen[i]).0 != (#[trigger] seen[j]).0,
    ensures
        match read_headers(buf, cur, end, seen) {
            Headers::List(list) => forall|i: int, j: int|
                0 <= i < j < list.len() ==> (#[trigger] list[i]).0 != (#[trigger] list[j]).0,
            Headers::Bad(_) => true,
        },
    decreases buf.len() - cur,
{
    if cur < end && 0 <= cur < buf.len() && cur + 1 + buf[cur] < buf.len() {
        let kind_at = cur + 1 + buf[cur];
        let value_at = kind_at + 3;
        let name = utf8_lossy(buf.subrange(cur + 1, kind_at));
        if buf[kind_at] == HEADER_TYPE_STRING && value_at <= buf.len() && value_at + u16_at(
            buf,
            kind_at + 1,
        ) <= buf.len() && !has_header(seen, name) {
            let next = value_at + u16_at(buf, kind_at + 1);
            let value = utf8_lossy(buf.subrange(value_at, next));
            let more = seen.push((name, value));
            assert forall|i: int, j: int| 0 <= i < j < more.len() implies (#[trigger] more[i]).0
                != (#[trigger] more[j]).0 by {
                assert(more[i] == seen[i]);
                if j < seen.len() {
                    assert(more[j] == seen[j]);
                }
            }
            lemma_headers_differ(buf, next, end, more);
        }
    }
}

} // verus!
