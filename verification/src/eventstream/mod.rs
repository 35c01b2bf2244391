//! AWS EventStream (Smithy) binary framing.
//!
//! A client that decodes the stream with a Smithy decoder rejects anything that is not a
//! well-formed frame. All integers are big-endian:
//!
//! ```text
//! [totalLen u32][headersLen u32][preludeCrc u32][headers..][payload..][messageCrc u32]
//! ```
//!
//! `preludeCrc` covers the first 8 bytes; `messageCrc` covers everything before itself.

use bytes::BytesMut;
use vstd::prelude::*;
use vstd::slice::slice_to_vec;
use vstd::string::*;
use vstd::utf8::encode_utf8;

use crate::eventstream::buffer::{
    as_slice, be16, be32, bytes_in, checksum, crc32, empty, put_slice, put_u16, put_u32, put_u8,
    with_capacity,
};
use crate::json::{compact, members_view, Json, JsonValue};
use crate::utf8::lemma_utf8_len;

pub mod buffer;
pub mod event;
pub mod laws;
pub mod testing;

verus! {

pub const CONTENT_TYPE: &'static str = "application/vnd.amazon.eventstream";

pub const JSON: &'static str = "application/json";

pub const AMZ_JSON_1_0: &'static str = "application/x-amz-json-1.0";

/// Header value type tag for a UTF-8 string.
pub const HEADER_TYPE_STRING: u8 = 7;

// ── Model ────────────────────────────────────────────────────────────────────

/// One header on the wire: length and bytes of the name, the type tag, length and bytes of the
/// value.
pub open spec fn header_bytes(name: Seq<char>, value: Seq<char>) -> Seq<u8> {
    seq![encode_utf8(name).len() as u8] + encode_utf8(name) + seq![HEADER_TYPE_STRING] + be16(
        encode_utf8(value).len(),
    ) + encode_utf8(value)
}

/// The headers on the wire, one after another.
pub open spec fn block(headers: Seq<(Seq<char>, Seq<char>)>) -> Seq<u8>
    decreases headers.len(),
{
    if headers.len() == 0 {
        seq![]
    } else {
        block(headers.drop_last()) + header_bytes(headers.last().0, headers.last().1)
    }
}

/// The two lengths that open a frame.
pub open spec fn lengths(headers: nat, payload: nat) -> Seq<u8> {
    be32((16 + headers + payload) as nat) + be32(headers)
}

/// Everything of a frame but its last checksum.
pub open spec fn unsealed(headers: Seq<u8>, payload: Seq<u8>) -> Seq<u8> {
    lengths(headers.len(), payload.len()) + be32(
        checksum(lengths(headers.len(), payload.len())) as nat,
    ) + headers + payload
}

/// A header block and a payload in their envelope.
#[verifier::opaque]
pub open spec fn envelope(headers: Seq<u8>, payload: Seq<u8>) -> Seq<u8> {
    unsealed(headers, payload) + be32(checksum(unsealed(headers, payload)) as nat)
}

/// The headers of an event.
pub open spec fn event_headers(event_type: Seq<char>, content_type: Seq<char>) -> Seq<
    (Seq<char>, Seq<char>),
> {
    seq![
        (":message-type"@, "event"@),
        (":event-type"@, event_type),
        (":content-type"@, content_type),
    ]
}

/// The headers of an exception.
pub open spec fn exception_headers(code: Seq<char>) -> Seq<(Seq<char>, Seq<char>)> {
    seq![(":message-type"@, "exception"@), (":exception-type"@, code), (":content-type"@, JSON@)]
}

/// A frame that carries an event.
pub open spec fn event_frame(
    event_type: Seq<char>,
    payload: Seq<u8>,
    content_type: Seq<char>,
) -> Seq<u8> {
    envelope(block(event_headers(event_type, content_type)), payload)
}

/// A frame whose payload is a JSON value.
pub open spec fn event_json(event_type: Seq<char>, payload: Json) -> Seq<u8> {
    event_frame(event_type, encode_utf8(compact(payload)), JSON@)
}

/// A frame that carries an exception.
pub open spec fn exception_frame(code: Seq<char>, message: Seq<char>) -> Seq<u8> {
    envelope(block(exception_headers(code)), encode_utf8(compact(single("message"@, message))))
}

/// A name that fits the length byte of a header.
pub open spec fn name_fits(name: Seq<char>) -> bool {
    encode_utf8(name).len() <= 0xff
}

/// A value that fits the length field of a header.
pub open spec fn value_fits(value: Seq<char>) -> bool {
    encode_utf8(value).len() <= 0xffff
}

/// The size of a payload that a buffer can take next to three headers of any size.
pub open spec fn payload_fits(payload: Seq<u8>) -> bool {
    payload.len() <= isize::MAX - 0x10_0000
}

// ── Encoder ──────────────────────────────────────────────────────────────────

/// Append one header.
fn encode_header(out: &mut BytesMut, name: &str, value: &str)
    requires
        name_fits(name@),
        value_fits(value@),
        bytes_in(old(out)).len() <= 0x3_0000,
    ensures
        bytes_in(final(out)) == bytes_in(old(out)) + header_bytes(name@, value@),
{
    let name = name.as_bytes();
    let value = value.as_bytes();
    let ghost before = bytes_in(old(out));
    put_u8(out, name.len() as u8);
    put_slice(out, name);
    put_u8(out, HEADER_TYPE_STRING);
    put_u16(out, value.len() as u16);
    put_slice(out, value);
    assert(bytes_in(out) =~= before + (seq![name@.len() as u8] + name@ + seq![
        HEADER_TYPE_STRING,
    ] + be16(value@.len()) + value@));
}

/// Wrap an already-encoded header block and payload in the prelude/CRC envelope.
fn assemble(headers: &[u8], payload: &[u8]) -> (frame: Vec<u8>)
    requires
        headers@.len() <= 0x4_0000,
        payload_fits(payload@),
    ensures
        frame@ == envelope(headers@, payload@),
{
    let headers_len: usize = headers.len();
    let total_len: usize = 4 + 4 + 4 + headers_len + payload.len() + 4;

    let mut buf = with_capacity(total_len);
    put_u32(&mut buf, (total_len as u64 % 0x1_0000_0000) as u32);
    put_u32(&mut buf, headers_len as u32);
    proof {
        lemma_be32_wraps(total_len as nat);
        assert(bytes_in(&buf) =~= lengths(headers@.len(), payload@.len()));
    }
    let prelude_crc = crc32(as_slice(&buf));
    put_u32(&mut buf, prelude_crc);
    put_slice(&mut buf, headers);
    put_slice(&mut buf, payload);
    assert(bytes_in(&buf) =~= unsealed(headers@, payload@));

    proof {
        reveal(envelope);
    }
    let message_crc = crc32(as_slice(&buf));
    put_u32(&mut buf, message_crc);

    slice_to_vec(as_slice(&buf))
}

/// The four bytes of a number say nothing of what lies above 32 bits.
proof fn lemma_be32_wraps(n: nat)
    ensures
        be32((n % 0x1_0000_0000) as nat) == be32(n),
{
    lemma_byte_wraps(n as int, 0x1_00, 0x100_0000);
    lemma_byte_wraps(n as int, 0x1_0000, 0x1_0000);
    lemma_byte_wraps(n as int, 0x100_0000, 0x100);
    lemma_byte_wraps(n as int, 0x1_0000_0000, 1);
}

/// A byte of a number, counted from below, is the same byte of what is left of it below 32 bits.
proof fn lemma_byte_wraps(n: int, above: int, unit: int)
    requires
        0 <= n,
        0 < unit,
        0 < above,
        unit * above == 0x1_0000_0000,
        above % 0x100 == 0,
    ensures
        (n % 0x1_0000_0000) / unit % 0x100 == n / unit % 0x100,
{
    vstd::arithmetic::div_mod::lemma_mod_breakdown(n, unit, above);
    vstd::arithmetic::div_mod::lemma_part_bound2(n, unit, above);
    let m = n % 0x1_0000_0000;
    let q = (n / unit) % above;
    assert(m == unit * q + n % unit);
    assert(unit * q == q * unit) by (nonlinear_arith);
    vstd::arithmetic::div_mod::lemma_fundamental_div_mod_converse(
        m,
        unit,
        q,
        n % unit,
    );
    vstd::arithmetic::div_mod::lemma_mod_mod((n / unit), 0x100, above / 0x100);
}

/// The three headers of a frame, encoded.
fn headers_of(kind: &str, subtype_header: &str, subtype: &str, content_type: &str) -> (headers:
    BytesMut)
    requires
        kind@.len() <= 63,
        subtype_header@.len() <= 63,
        value_fits(subtype@),
        value_fits(content_type@),
    ensures
        bytes_in(&headers) == block(
            seq![
                (":message-type"@, kind@),
                (subtype_header@, subtype@),
                (":content-type"@, content_type@),
            ],
        ),
        bytes_in(&headers).len() <= 0x4_0000,
{
    proof {
        reveal_strlit(":message-type");
        reveal_strlit(":content-type");
        lemma_utf8_len(":message-type"@);
        lemma_utf8_len(":content-type"@);
        lemma_utf8_len(kind@);
        lemma_utf8_len(subtype_header@);
    }
    let mut headers = empty();
    encode_header(&mut headers, ":message-type", kind);
    encode_header(&mut headers, subtype_header, subtype);
    encode_header(&mut headers, ":content-type", content_type);
    proof {
        let all = seq![
            (":message-type"@, kind@),
            (subtype_header@, subtype@),
            (":content-type"@, content_type@),
        ];
        assert(all.drop_last().drop_last().drop_last() =~= Seq::empty());
        assert(all.drop_last().drop_last().last() == all[0]);
        assert(all.drop_last().last() == all[1]);
        reveal_with_fuel(block, 4);
        assert(bytes_in(&headers) =~= block(all));
    }
    headers
}

/// Build one frame. `payload` is the already-serialized JSON body.
///
/// The three `:`-prefixed system headers are mandatory: a Smithy decoder errors out without them
/// even though the payload would parse fine.
pub fn frame(event_type: &str, payload: &[u8], content_type: &str) -> (frame: Vec<u8>)
    requires
        value_fits(event_type@),
        value_fits(content_type@),
        payload_fits(payload@),
    ensures
        frame@ == event_frame(event_type@, payload@, content_type@),
{
    proof {
        reveal_strlit("event");
        reveal_strlit(":event-type");
    }
    let headers = headers_of("event", ":event-type", event_type, content_type);
    assemble(as_slice(&headers), payload)
}

/// Frame carrying a JSON payload.
pub fn json_frame(event_type: &str, payload: &JsonValue) -> (frame: Vec<u8>)
    requires
        value_fits(event_type@),
        payload_fits(encode_utf8(compact(payload@))),
    ensures
        frame@ == event_json(event_type@, payload@),
{
    proof {
        reveal_strlit("application/json");
        lemma_utf8_len(JSON@);
    }
    let body = payload.to_text();
    self::frame(event_type, body.as_str().as_bytes(), JSON)
}

/// An object with one member, a text.
pub open spec fn single(name: Seq<char>, value: Seq<char>) -> Json {
    Json::Object(seq![(name, Json::Text(value))])
}

/// An object with one member, a text.
fn single_text(name: &str, value: &str) -> (r: JsonValue)
    ensures
        r@ == single(name@, value@),
{
    let members = vec![(name.to_string(), JsonValue::Text(value.to_string()))];
    proof {
        reveal_with_fuel(members_view, 2);
        assert(members_view(members, 1) =~= seq![(name@, Json::Text(value@))]);
    }
    JsonValue::Object(members)
}

/// Every stream opens with this frame; a client expects it first.
pub fn initial_response(conversation_id: &str) -> (frame: Vec<u8>)
    requires
        payload_fits(encode_utf8(compact(single("conversationId"@, conversation_id@)))),
    ensures
        frame@ == event_frame(
            "initial-response"@,
            encode_utf8(compact(single("conversationId"@, conversation_id@))),
            AMZ_JSON_1_0@,
        ),
{
    proof {
        reveal_strlit("initial-response");
        reveal_strlit("application/x-amz-json-1.0");
        lemma_utf8_len("initial-response"@);
        lemma_utf8_len(AMZ_JSON_1_0@);
    }
    let body = single_text("conversationId", conversation_id).to_text();
    self::frame("initial-response", body.as_str().as_bytes(), AMZ_JSON_1_0)
}

/// Signal a mid-stream failure.
///
/// A raw JSON error object in the binary stream would fail the client's prelude-CRC check and
/// surface as a decode error rather than the actual problem. A framed `exception` message is
/// what a decoder dispatches on.
pub fn error_frame(code: &str, message: &str) -> (frame: Vec<u8>)
    requires
        value_fits(code@),
        payload_fits(encode_utf8(compact(single("message"@, message@)))),
    ensures
        frame@ == exception_frame(code@, message@),
{
    proof {
        reveal_strlit("exception");
        reveal_strlit(":exception-type");
        reveal_strlit("application/json");
        lemma_utf8_len(JSON@);
    }
    let body = single_text("message", message).to_text();
    let headers = headers_of("exception", ":exception-type", code, JSON);
    assemble(as_slice(&headers), body.as_str().as_bytes())
}

} // verus!
