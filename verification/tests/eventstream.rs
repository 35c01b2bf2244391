use nine_rai::eventstream::event;
use nine_rai::eventstream::testing::{
    decode_all, decode_frame, decode_stream, try_decode_all, try_decode_stream,
};
use nine_rai::eventstream::{
    error_frame, frame, initial_response, json_frame, AMZ_JSON_1_0, CONTENT_TYPE, JSON,
};
use nine_rai::json::JsonValue;

fn decode(buf: &[u8]) -> (String, Vec<u8>) {
    let (frame, len) = decode_frame(buf).expect("frame must decode");
    assert_eq!(len, buf.len(), "totalLen must cover the whole frame");
    (frame.event_type().to_string(), frame.payload)
}

#[test]
fn frame_roundtrips_through_a_spec_decoder() {
    let f = frame(event::ASSISTANT_RESPONSE, br#"{"content":"hi"}"#, JSON);
    let (event_type, payload) = decode(&f);
    assert_eq!(event_type, event::ASSISTANT_RESPONSE);
    assert_eq!(payload, br#"{"content":"hi"}"#);
}

#[test]
fn initial_response_carries_the_amz_json_content_type() {
    let f = initial_response("");
    let (event_type, payload) = decode(&f);
    assert_eq!(event_type, "initial-response");
    assert!(String::from_utf8_lossy(&payload).contains("conversationId"));
    assert!(
        f.windows(AMZ_JSON_1_0.len())
            .any(|w| w == AMZ_JSON_1_0.as_bytes()),
        "must advertise x-amz-json-1.0"
    );
}

#[test]
fn empty_payload_is_still_a_valid_frame() {
    let f = frame(event::MESSAGE_STOP, b"{}", JSON);
    let (event_type, payload) = decode(&f);
    assert_eq!(event_type, event::MESSAGE_STOP);
    assert_eq!(payload, b"{}");
}

#[test]
fn error_frame_is_framed_as_an_exception_not_raw_json() {
    let f = error_frame("UpstreamError", "provider returned 429");
    let decoded = decode_stream(&f);
    assert_eq!(decoded.len(), 1);
    assert_eq!(decoded[0].message_type(), "exception");
    assert_eq!(decoded[0].event_type(), "UpstreamError");
    assert_eq!(decoded[0].json()["message"], "provider returned 429");
}

#[test]
fn concatenated_frames_decode_back_in_order() {
    let mut stream = Vec::new();
    stream.extend(initial_response(""));
    stream.extend(frame(
        event::ASSISTANT_RESPONSE,
        br#"{"content":"a"}"#,
        JSON,
    ));
    stream.extend(frame(event::MESSAGE_STOP, b"{}", JSON));

    let kinds: Vec<String> = decode_stream(&stream)
        .iter()
        .map(|f| f.event_type().to_string())
        .collect();
    assert_eq!(
        kinds,
        [
            "initial-response",
            event::ASSISTANT_RESPONSE,
            event::MESSAGE_STOP
        ]
    );
}

#[test]
fn a_corrupted_byte_is_rejected_by_the_crc_check() {
    let mut f = frame(event::ASSISTANT_RESPONSE, br#"{"content":"a"}"#, JSON);
    let last = f.len() - 5;
    f[last] ^= 0xff;
    assert!(decode_frame(&f).is_err());
}

#[test]
fn a_frame_has_the_bytes_of_the_wire_format() {
    let f = frame("e", b"p", "c");
    let mut headers: Vec<u8> = Vec::new();
    for (name, value) in [(":message-type", "event"), (":event-type", "e"), (":content-type", "c")] {
        headers.push(name.len() as u8);
        headers.extend(name.as_bytes());
        headers.push(7);
        headers.extend((value.len() as u16).to_be_bytes());
        headers.extend(value.as_bytes());
    }
    let total = 16 + headers.len() + 1;
    let mut want: Vec<u8> = Vec::new();
    want.extend((total as u32).to_be_bytes());
    want.extend((headers.len() as u32).to_be_bytes());
    want.extend(crc32fast::hash(&want.clone()).to_be_bytes());
    want.extend(&headers);
    want.push(b'p');
    want.extend(crc32fast::hash(&want.clone()).to_be_bytes());
    assert_eq!(f, want);
}

#[test]
fn every_flaw_of_a_frame_is_named() {
    let good = frame("e", b"p", "c");
    assert_eq!(
        decode_frame(&good[..5]).unwrap_err(),
        "frame shorter than the 16-byte minimum: 5"
    );
    assert_eq!(
        decode_frame(&good[..good.len() - 1]).unwrap_err(),
        format!("totalLen {} exceeds the {} bytes available", good.len(), good.len() - 1)
    );
    let mut long_headers = good.clone();
    long_headers[4] = 1;
    assert_eq!(
        decode_frame(&long_headers).unwrap_err(),
        format!(
            "headersLen {} does not fit in totalLen {}",
            16_777_216 + good.len() - 17,
            good.len()
        )
    );
    let mut prelude = good.clone();
    prelude[8] ^= 1;
    assert_eq!(decode_frame(&prelude).unwrap_err(), "prelude CRC mismatch");
    let mut message = good.clone();
    let last = message.len() - 1;
    message[last] ^= 1;
    assert_eq!(decode_frame(&message).unwrap_err(), "message CRC mismatch");
}

/// A frame around the given header block, with both checksums in order.
fn sealed(headers: &[u8]) -> Vec<u8> {
    let mut out: Vec<u8> = Vec::new();
    out.extend((16 + headers.len() as u32).to_be_bytes());
    out.extend((headers.len() as u32).to_be_bytes());
    out.extend(crc32fast::hash(&out.clone()).to_be_bytes());
    out.extend(headers);
    out.extend(crc32fast::hash(&out.clone()).to_be_bytes());
    out
}

#[test]
fn headers_must_be_strings_and_different() {
    assert_eq!(
        decode_frame(&sealed(b"\x01a\x06\x00\x00")).unwrap_err(),
        "header a has non-string type 6"
    );
    assert_eq!(
        decode_frame(&sealed(b"\x01a\x07\x00\x01x\x01a\x07\x00\x01y")).unwrap_err(),
        "duplicate header a"
    );
    let (ok, _) = decode_frame(&sealed(b"\x01a\x07\x00\x01x\x01b\x07\x00\x01y")).unwrap();
    assert_eq!(ok.headers.len(), 2);
    assert_eq!(ok.event_type(), "");
    assert_eq!(ok.message_type(), "");
}

#[test]
fn a_malformed_frame_is_an_error() {
    let past_the_end = "a header points past the end of the bytes";
    for block in [&b"\xffa\x07\x00\x00"[..], b"\x01a\x07\xff\xff", b"\x08"] {
        assert_eq!(decode_frame(&sealed(block)).unwrap_err(), past_the_end);
        assert!(try_decode_stream(&sealed(block)).is_none());
    }
    assert_eq!(
        decode_frame(&[0u8; 16]).unwrap_err(),
        "headersLen 0 does not fit in totalLen 0"
    );
    assert!(decode_frame(&[]).is_err());
    assert!(try_decode_all(&[1, 2, 3]).is_none());
    let good = frame("e", b"{\"a\":[1]}", "c");
    let (decoded, len) = decode_frame(&good).unwrap();
    assert_eq!(len, good.len());
    assert_eq!(decoded.json()["a"][0], 1);
    assert_eq!(try_decode_stream(&good).unwrap().len(), 1);
    assert_eq!(try_decode_all(&good).unwrap()[0].0, "e");
    assert_eq!(decode_all(&good)[0].1["a"][0], 1);
    assert!(decode_all(&frame("e", b"{", "c"))[0].1.is_null());
}

#[test]
fn a_payload_that_is_no_json_reads_as_null() {
    let f = frame("e", b"\x00not json", "c");
    let (decoded, _) = decode_frame(&f).unwrap();
    assert!(decoded.json().is_null());
}

#[test]
fn header_bytes_that_are_not_utf8_are_repaired() {
    let (decoded, _) = decode_frame(&sealed(b"\x01a\x07\x00\x01\xff")).unwrap();
    assert_eq!(decoded.headers[0].1, "\u{fffd}");
}

#[test]
fn json_values_are_written_as_serde_json_writes_them() {
    let value = JsonValue::Object(vec![
        ("a\"\\".to_string(), JsonValue::Null),
        (
            "b".to_string(),
            JsonValue::Array(vec![
                JsonValue::Bool(true),
                JsonValue::Bool(false),
                JsonValue::Number("-1.5e3".to_string()),
            ]),
        ),
        ("c".to_string(), JsonValue::Object(Vec::new())),
        (
            "d".to_string(),
            JsonValue::Text("\u{0}\u{8}\t\n\u{b}\u{c}\r\u{1f} \u{7f}é\u{1f600}/".to_string()),
        ),
    ]);
    let text = value.to_text();
    assert_eq!(
        text,
        "{\"a\\\"\\\\\":null,\"b\":[true,false,-1.5e3],\"c\":{},\"d\":\"\\u0000\\b\\t\\n\\u000b\\f\\r\\u001f \u{7f}é\u{1f600}/\"}"
    );
    let parsed: serde_json::Value = serde_json::from_str(&text).unwrap();
    assert_eq!(parsed["d"], "\u{0}\u{8}\t\n\u{b}\u{c}\r\u{1f} \u{7f}é\u{1f600}/");
    assert_eq!(value.clone().to_text(), text);

    let f = json_frame("e", &value);
    let (decoded, _) = decode_frame(&f).unwrap();
    assert_eq!(decoded.payload, text.as_bytes());
    assert_eq!(CONTENT_TYPE, "application/vnd.amazon.eventstream");
}
