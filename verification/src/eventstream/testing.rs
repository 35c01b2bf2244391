//! A decoder that follows the wire format and shares nothing with the encoder but the checksum.

use vstd::prelude::*;
use vstd::slice::{slice_subrange, slice_to_vec};
use vstd::string::*;

use crate::eventstream::buffer::{checksum, crc32};
use crate::eventstream::HEADER_TYPE_STRING;
use crate::text::{decimal, numeral, same};
use crate::utf8::{from_utf8_lossy, utf8_lossy};

verus! {

// ── Model ────────────────────────────────────────────────────────────────────

/// The headers of a frame, in the order of the wire.
pub type HeaderSeq = Seq<(Seq<char>, Seq<char>)>;

/// What decoding the front of a stream comes to.
pub ghost enum Decoded {
    /// A frame, and how many bytes it takes.
    Frame { headers: HeaderSeq, payload: Seq<u8>, len: nat },
    /// A frame that is refused, and why.
    Bad(Seq<char>),
}

/// What reading a header block comes to.
pub ghost enum Headers {
    List(HeaderSeq),
    Bad(Seq<char>),
}

/// The number that two bytes hold, the high one first.
pub open spec fn u16_at(buf: Seq<u8>, i: int) -> nat {
    (buf[i] * 0x100 + buf[i + 1]) as nat
}

/// The number that four bytes hold, the highest first.
#[verifier::opaque]
pub open spec fn u32_at(buf: Seq<u8>, i: int) -> nat {
    (buf[i] * 0x100_0000 + buf[i + 1] * 0x1_0000 + buf[i + 2] * 0x100 + buf[i + 3]) as nat
}

/// A header of this name is in the list.
pub open spec fn has_header(headers: HeaderSeq, name: Seq<char>) -> bool {
    exists|i: int| 0 <= i < headers.len() && (#[trigger] headers[i]).0 == name
}

/// The value of the header of this name.
pub open spec fn header(headers: HeaderSeq, name: Seq<char>) -> Option<Seq<char>>
    decreases headers.len(),
{
    if headers.len() == 0 {
        None
    } else if headers[0].0 == name {
        Some(headers[0].1)
    } else {
        header(headers.skip(1), name)
    }
}

/// Read headers from `cur` on until `end` is reached; `seen` are those read so far.
pub open spec fn read_headers(buf: Seq<u8>, cur: int, end: int, seen: HeaderSeq) -> Headers
    decreases buf.len() - cur,
{
    if cur >= end {
        Headers::List(seen)
    } else if !(0 <= cur < buf.len()) || cur + 1 + buf[cur] >= buf.len() {
        Headers::Bad("a header points past the end of the bytes"@)
    } else {
        let kind_at = cur + 1 + buf[cur];
        let value_at = kind_at + 3;
        let name = utf8_lossy(buf.subrange(cur + 1, kind_at));
        if buf[kind_at] != HEADER_TYPE_STRING {
            Headers::Bad(
                "header "@ + name + " has non-string type "@ + decimal(buf[kind_at] as nat),
            )
        } else if value_at > buf.len() || value_at + u16_at(buf, kind_at + 1) > buf.len() {
            Headers::Bad("a header points past the end of the bytes"@)
        } else {
            let next = value_at + u16_at(buf, kind_at + 1);
            let value = utf8_lossy(buf.subrange(value_at, next));
            if has_header(seen, name) {
                Headers::Bad("duplicate header "@ + name)
            } else {
                read_headers(buf, next, end, seen.push((name, value)))
            }
        }
    }
}

/// What decoding the front of a stream comes to: the lengths are checked, then both checksums,
/// then the headers are read.
pub open spec fn decoded(buf: Seq<u8>) -> Decoded {
    if buf.len() < 16 {
        Decoded::Bad("frame shorter than the 16-byte minimum: "@ + decimal(buf.len()))
    } else {
        let total = u32_at(buf, 0);
        let headers_len = u32_at(buf, 4);
        if total > buf.len() {
            Decoded::Bad(
                "totalLen "@ + decimal(total) + " exceeds the "@ + decimal(buf.len())
                    + " bytes available"@,
            )
        } else if headers_len + 16 > total {
            Decoded::Bad(
                "headersLen "@ + decimal(headers_len) + " does not fit in totalLen "@ + decimal(
                    total,
                ),
            )
        } else if u32_at(buf, 8) != checksum(buf.take(8)) {
            Decoded::Bad("prelude CRC mismatch"@)
        } else if u32_at(buf, total - 4) != checksum(buf.take(total - 4)) {
            Decoded::Bad("message CRC mismatch"@)
        } else {
            match read_headers(buf, 12, 12 + headers_len as int, seq![]) {
                Headers::List(headers) => Decoded::Frame {
                    headers,
                    payload: buf.subrange(12 + headers_len as int, total - 4),
                    len: total,
                },
                Headers::Bad(why) => Decoded::Bad(why),
            }
        }
    }
}

/// The frames of a whole stream, where every one of them decodes.
pub open spec fn stream_frames(buf: Seq<u8>) -> Option<Seq<(HeaderSeq, Seq<u8>)>>
    decreases buf.len(),
{
    if buf.len() == 0 {
        Some(seq![])
    } else {
        match decoded(buf) {
            Decoded::Frame { headers, payload, len } => match stream_frames(buf.skip(len as int)) {
                Some(rest) => Some(seq![(headers, payload)] + rest),
                None => None,
            },
            _ => None,
        }
    }
}

/// The type of the event or exception that the headers announce, if any.
pub open spec fn announced_type(headers: HeaderSeq) -> Seq<char> {
    match header(headers, ":event-type"@) {
        Some(t) => t,
        None => match header(headers, ":exception-type"@) {
            Some(t) => t,
            None => seq![],
        },
    }
}

/// The kind of message that the headers announce, if any.
pub open spec fn announced_kind(headers: HeaderSeq) -> Seq<char> {
    match header(headers, ":message-type"@) {
        Some(t) => t,
        None => seq![],
    }
}

// ── Frames ───────────────────────────────────────────────────────────────────

/// A decoded frame. No two headers have the same name.
#[derive(Debug, Clone)]
pub struct DecodedFrame {
    pub headers: Vec<(String, String)>,
    pub payload: Vec<u8>,
}

/// The headers that a list of strings holds.
pub open spec fn header_seq(headers: Seq<(String, String)>) -> HeaderSeq {
    headers.map_values(|h: (String, String)| (h.0@, h.1@))
}

impl View for DecodedFrame {
    type V = (HeaderSeq, Seq<u8>);

    open spec fn view(&self) -> (HeaderSeq, Seq<u8>) {
        (header_seq(self.headers@), self.payload@)
    }
}

/// The value of the header of this name.
fn find_header<'a>(headers: &'a [(String, String)], name: &str) -> (r: Option<&'a String>)
    ensures
        match r {
            Some(v) => header(header_seq(headers@), name@) == Some(v@),
            None => header(header_seq(headers@), name@) is None,
        },
{
    let mut i: usize = 0;
    assert(header_seq(headers@).skip(0) =~= header_seq(headers@));
    while i < headers.len()
        invariant
            i <= headers@.len(),
            header(header_seq(headers@), name@) == header(
                header_seq(headers@).skip(i as int),
                name@,
            ),
        decreases headers@.len() - i,
    {
        assert(header_seq(headers@).skip(i as int)[0] == header_seq(headers@)[i as int]);
        assert(header_seq(headers@).skip(i as int).skip(1) =~= header_seq(headers@).skip(i + 1));
        if same(headers[i].0.as_str(), name) {
            return Some(&headers[i].1);
        }
        i += 1;
    }
    None
}

impl DecodedFrame {
    /// The type of the event or exception, empty where the headers name none.
    pub fn event_type(&self) -> (r: &str)
        ensures
            r@ == announced_type(self@.0),
    {
        match find_header(self.headers.as_slice(), ":event-type") {
            Some(t) => t.as_str(),
            None => match find_header(self.headers.as_slice(), ":exception-type") {
                Some(t) => t.as_str(),
                None => {
                    proof {
                        reveal_strlit("");
                        assert(""@ =~= Seq::empty());
                    }
                    ""
                },
            },
        }
    }

    /// The kind of message, empty where the headers name none.
    pub fn message_type(&self) -> (r: &str)
        ensures
            r@ == announced_kind(self@.0),
    {
        match find_header(self.headers.as_slice(), ":message-type") {
            Some(t) => t.as_str(),
            None => {
                proof {
                    reveal_strlit("");
                    assert(""@ =~= Seq::empty());
                }
                ""
            },
        }
    }

    /// The payload read as JSON, null where it is none.
    pub fn json(&self) -> (r: serde_json::Value)
        ensures
            reads_as(self@.1, r),
    {
        match parse_json(self.payload.as_slice()) {
            Some(value) => value,
            None => null(),
        }
    }
}

/// A JSON value of the `serde_json` crate.
#[verifier::external_type_specification]
#[verifier::external_body]
pub struct ExValue(serde_json::Value);

/// What `serde_json` reads bytes as, if they hold a value.
pub uninterp spec fn json_value(bytes: Seq<u8>) -> Option<serde_json::Value>;

/// Whether a value is the JSON null.
pub uninterp spec fn is_null(value: &serde_json::Value) -> bool;

/// What bytes are read as: the JSON value that they hold, null where they hold none.
pub open spec fn reads_as(bytes: Seq<u8>, value: serde_json::Value) -> bool {
    match json_value(bytes) {
        Some(held) => value == held,
        None => is_null(&value),
    }
}

/// `serde_json::from_slice`: the JSON value that bytes hold, if they hold one. The value depends on
/// the bytes alone; it is named and not described.
#[verifier::external_body]
fn parse_json(bytes: &[u8]) -> (r: Option<serde_json::Value>)
    ensures
        r == json_value(bytes@),
{
    serde_json::from_slice(bytes).ok()
}

/// `serde_json::Value::Null`: the JSON null.
#[verifier::external_body]
fn null() -> (r: serde_json::Value)
    ensures
        is_null(&r),
{
    serde_json::Value::Null
}

// ── Decoder ──────────────────────────────────────────────────────────────────

/// The number that two bytes hold, the high one first.
fn read_u16(buf: &[u8], i: usize) -> (n: usize)
    requires
        i + 2 <= buf@.len(),
    ensures
        n == u16_at(buf@, i as int),
{
    buf[i] as usize * 0x100 + buf[i + 1] as usize
}

/// The number that four bytes hold, the highest first.
fn read_u32(buf: &[u8], i: usize) -> (n: u32)
    requires
        i + 4 <= buf@.len(),
    ensures
        n == u32_at(buf@, i as int),
{
    proof {
        reveal(u32_at);
    }
    buf[i] as u32 * 0x100_0000 + buf[i + 1] as u32 * 0x1_0000 + buf[i + 2] as u32 * 0x100 + buf[i
        + 3] as u32
}

/// Read the headers that stand between index 12 and `end`.
fn headers_in(buf: &[u8], end: usize) -> (r: Result<Vec<(String, String)>, String>)
    requires
        12 <= end <= buf@.len(),
    ensures
        match r {
            Ok(headers) => read_headers(buf@, 12, end as int, seq![]) == Headers::List(
                header_seq(headers@),
            ),
            Err(why) => read_headers(buf@, 12, end as int, seq![]) == Headers::Bad(why@),
        },
{
    let mut headers: Vec<(String, String)> = Vec::new();
    let mut cur: usize = 12;
    assert(header_seq(headers@) =~= seq![]);
    let size: usize = buf.len();
    while cur < end
        invariant
            end <= buf@.len(),
            size == buf@.len(),
            cur <= size,
            read_headers(buf@, 12, end as int, seq![]) == read_headers(
                buf@,
                cur as int,
                end as int,
                header_seq(headers@),
            ),
        decreases size - cur,
    {
        let name_len: usize = buf[cur] as usize;
        if name_len >= size - cur - 1 {
            return Err("a header points past the end of the bytes".to_string());
        }
        let kind_at: usize = cur + 1 + name_len;
        let name = from_utf8_lossy(slice_subrange(buf, cur + 1, kind_at));
        if buf[kind_at] != HEADER_TYPE_STRING {
            let kind = numeral(buf[kind_at] as u64);
            let mut why = "header ".to_string();
            why.push_str(name.as_str());
            why.push_str(" has non-string type ");
            why.push_str(kind.as_str());
            return Err(why);
        }
        if 3 > size - kind_at {
            return Err("a header points past the end of the bytes".to_string());
        }
        let value_at: usize = kind_at + 3;
        let value_len: usize = read_u16(buf, kind_at + 1);
        if value_len > size - value_at {
            return Err("a header points past the end of the bytes".to_string());
        }
        let value = from_utf8_lossy(slice_subrange(buf, value_at, value_at + value_len));
        let known = find_header(headers.as_slice(), name.as_str()).is_some();
        proof {
            lemma_has_header(header_seq(headers@), name@);
        }
        if known {
            let mut why = "duplicate header ".to_string();
            why.push_str(name.as_str());
            return Err(why);
        }
        let ghost before = headers@;
        headers.push((name, value));
        assert(header_seq(headers@) =~= header_seq(before).push((name@, value@)));
        cur = value_at + value_len;
    }
    Ok(headers)
}

/// A header is in the list exactly where its value can be found.
proof fn lemma_has_header(headers: HeaderSeq, name: Seq<char>)
    ensures
        has_header(headers, name) <==> header(headers, name) is Some,
    decreases headers.len(),
{
    if headers.len() > 0 {
        let rest = headers.skip(1);
        lemma_has_header(rest, name);
        if has_header(rest, name) {
            let i = choose|i: int| 0 <= i < rest.len() && (#[trigger] rest[i]).0 == name;
            assert(headers[i + 1].0 == name);
        }
        if has_header(headers, name) && headers[0].0 != name {
            let i = choose|i: int| 0 <= i < headers.len() && (#[trigger] headers[i]).0 == name;
            assert(rest[i - 1].0 == name);
        }
    }
}

/// Decode one frame, validating both checksums. Returns the frame and its total length, or the
/// reason for which the frame is refused.
pub fn decode_frame(buf: &[u8]) -> (r: Result<(DecodedFrame, usize), String>)
    ensures
        match r {
            Ok((frame, len)) => decoded(buf@) == (Decoded::Frame {
                headers: frame@.0,
                payload: frame@.1,
                len: len as nat,
            }),
            Err(why) => decoded(buf@) == Decoded::Bad(why@),
        },
{
    let size: usize = buf.len();
    let size_text = numeral(size as u64);
    if size < 16 {
        let mut why = "frame shorter than the 16-byte minimum: ".to_string();
        why.push_str(size_text.as_str());
        return Err(why);
    }
    let total: u32 = read_u32(buf, 0);
    let headers_len: u32 = read_u32(buf, 4);
    let prelude_crc: u32 = read_u32(buf, 8);
    let total_text = numeral(total as u64);
    if total as u64 > size as u64 {
        let mut why = "totalLen ".to_string();
        why.push_str(total_text.as_str());
        why.push_str(" exceeds the ");
        why.push_str(size_text.as_str());
        why.push_str(" bytes available");
        return Err(why);
    }
    if total < 16 || headers_len > total - 16 {
        let mut why = "headersLen ".to_string();
        why.push_str(numeral(headers_len as u64).as_str());
        why.push_str(" does not fit in totalLen ");
        why.push_str(total_text.as_str());
        return Err(why);
    }
    let total_len: usize = total as usize;
    let headers_end: usize = 12 + headers_len as usize;
    assert(slice_subrange_is_take(buf@, 8));
    if prelude_crc != crc32(slice_subrange(buf, 0, 8)) {
        return Err("prelude CRC mismatch".to_string());
    }
    let message_crc: u32 = read_u32(buf, total_len - 4);
    assert(slice_subrange_is_take(buf@, total_len - 4));
    if message_crc != crc32(slice_subrange(buf, 0, total_len - 4)) {
        return Err("message CRC mismatch".to_string());
    }
    match headers_in(buf, headers_end) {
        Ok(headers) => {
            let payload = slice_to_vec(slice_subrange(buf, headers_end, total_len - 4));
            Ok((DecodedFrame { headers, payload }, total_len))
        },
        Err(why) => Err(why),
    }
}

/// A subrange that starts at the front is a prefix.
spec fn slice_subrange_is_take(buf: Seq<u8>, n: int) -> bool {
    buf.subrange(0, n) =~= buf.take(n)
}

/// What the frames of a list hold.
pub open spec fn frame_seq(frames: Seq<DecodedFrame>) -> Seq<(HeaderSeq, Seq<u8>)> {
    frames.map_values(|f: DecodedFrame| f@)
}

/// Decode a whole stream, as long as its frames are well formed. Gives the frames and whether
/// the stream is used up.
fn read_stream(buf: &[u8]) -> (r: (Vec<DecodedFrame>, bool))
    ensures
        r.1 <==> stream_frames(buf@) is Some,
        r.1 ==> stream_frames(buf@) == Some(frame_seq(r.0@)),
{
    let mut out: Vec<DecodedFrame> = Vec::new();
    let mut at: usize = 0;
    assert(buf@.skip(0) =~= buf@);
    while at < buf.len()
        invariant
            at <= buf@.len(),
            stream_frames(buf@) == match stream_frames(buf@.skip(at as int)) {
                Some(rest) => Some(frame_seq(out@) + rest),
                None => None,
            },
        decreases buf@.len() - at,
    {
        let rest = slice_subrange(buf, at, buf.len());
        assert(rest@ =~= buf@.skip(at as int));
        match decode_frame(rest) {
            Ok((frame, len)) => {
                let ghost before = out@;
                let ghost item = frame@;
                out.push(frame);
                proof {
                    assert(rest@.skip(len as int) =~= buf@.skip(at + len));
                    assert(frame_seq(out@) =~= frame_seq(before).push(item));
                    if let Some(tail) = stream_frames(buf@.skip(at + len)) {
                        assert(frame_seq(before) + (seq![item] + tail) =~= frame_seq(out@) + tail);
                    }
                }
                at += len;
            },
            Err(_) => {
                return (out, false);
            },
        }
    }
    assert(frame_seq(out@) + seq![] =~= frame_seq(out@));
    (out, true)
}

/// Decode a whole stream of well-formed frames.
pub fn decode_stream(buf: &[u8]) -> (r: Vec<DecodedFrame>)
    requires
        stream_frames(buf@) is Some,
    ensures
        stream_frames(buf@) == Some(frame_seq(r@)),
{
    read_stream(buf).0
}

/// Decode a whole stream, and give nothing where one of its frames is malformed.
pub fn try_decode_stream(buf: &[u8]) -> (r: Option<Vec<DecodedFrame>>)
    ensures
        match r {
            Some(frames) => stream_frames(buf@) == Some(frame_seq(frames@)),
            None => stream_frames(buf@) is None,
        },
{
    if read_stream(buf).1 {
        Some(decode_stream(buf))
    } else {
        None
    }
}

/// Events tell what frames hold: the type of each event, and its payload read as JSON.
pub open spec fn tell(
    events: Seq<(String, serde_json::Value)>,
    frames: Seq<(HeaderSeq, Seq<u8>)>,
) -> bool {
    events.len() == frames.len() && forall|i: int|
        0 <= i < frames.len() ==> (#[trigger] events[i]).0@ == announced_type(frames[i].0)
            && reads_as(frames[i].1, events[i].1)
}

/// Decode a whole stream of well-formed frames into the types of the events and their payloads
/// as JSON.
pub fn decode_all(buf: &[u8]) -> (r: Vec<(String, serde_json::Value)>)
    requires
        stream_frames(buf@) is Some,
    ensures
        tell(r@, stream_frames(buf@)->0),
{
    let frames = decode_stream(buf);
    let mut out: Vec<(String, serde_json::Value)> = Vec::new();
    let mut i: usize = 0;
    while i < frames.len()
        invariant
            i <= frames@.len(),
            out@.len() == i,
            forall|j: int|
                0 <= j < i ==> (#[trigger] out@[j]).0@ == announced_type(frames@[j]@.0)
                    && reads_as(frames@[j]@.1, out@[j].1),
        decreases frames@.len() - i,
    {
        let event_type = frames[i].event_type().to_string();
        let value = frames[i].json();
        out.push((event_type, value));
        i += 1;
    }
    out
}

/// Decode a whole stream into the types of the events and their payloads as JSON, and give
/// nothing where one of its frames is malformed.
pub fn try_decode_all(buf: &[u8]) -> (r: Option<Vec<(String, serde_json::Value)>>)
    ensures
        match r {
            Some(events) => stream_frames(buf@) is Some && tell(
                events@,
                stream_frames(buf@)->0,
            ),
            None => stream_frames(buf@) is None,
        },
{
    if read_stream(buf).1 {
        Some(decode_all(buf))
    } else {
        None
    }
}

} // verus!
