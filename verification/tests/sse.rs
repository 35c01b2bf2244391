use nine_rai::translate::sse::SseReader;

#[test]
fn reads_complete_lines_and_skips_non_data() {
    let mut r = SseReader::new();
    let got = r.push(b": comment\ndata: {\"a\":1}\n\ndata: [DONE]\n");
    assert_eq!(got, vec![r#"{"a":1}"#]);
}

#[test]
fn carries_a_partial_line_across_reads() {
    let mut r = SseReader::new();
    assert!(r.push(b"data: {\"a\":").is_empty());
    assert_eq!(r.push(b"1}\n"), vec![r#"{"a":1}"#]);
}

#[test]
fn tolerates_crlf_framing() {
    let mut r = SseReader::new();
    assert_eq!(r.push(b"data: x\r\n"), vec!["x"]);
}

#[test]
fn emits_a_trailing_unterminated_line_on_flush() {
    let mut r = SseReader::new();
    assert!(r.push(b"data: tail").is_empty());
    assert_eq!(r.flush().as_deref(), Some("tail"));
}

#[test]
fn survives_a_multibyte_char_split_across_reads() {
    let text = "data: \"chào\"\n";
    let bytes = text.as_bytes();
    // Cut inside the two-byte 'à'.
    let cut = text.find('à').unwrap() + 1;
    let mut r = SseReader::new();
    assert!(r.push(&bytes[..cut]).is_empty());
    assert_eq!(r.push(&bytes[cut..]), vec!["\"chào\""]);
}

/// Comments, blank lines, multibyte UTF-8, the end mark, and a trailing line without a newline.
const TRANSCRIPT: &[u8] =
    b": comment\ndata: {\"a\":1}\n\ndata: \"ch\xc3\xa0o\"\r\ndata: [DONE]\ndata: tail";

fn run_all(chunks: &[&[u8]]) -> Vec<String> {
    let mut reader = SseReader::new();
    let mut out = Vec::new();
    for chunk in chunks {
        out.extend(reader.push(chunk));
    }
    out.extend(reader.flush());
    out
}

#[test]
fn arbitrary_chunking_preserves_payloads() {
    let whole = run_all(&[TRANSCRIPT]);
    assert_eq!(whole, vec!["{\"a\":1}", "\"chào\"", "tail"]);
    for a in 0..=TRANSCRIPT.len() {
        for b in a..=TRANSCRIPT.len() {
            let cut = [&TRANSCRIPT[..a], &TRANSCRIPT[a..b], &TRANSCRIPT[b..]];
            assert_eq!(run_all(&cut), whole, "cut at {a} and {b}");
        }
    }
}

#[test]
fn bytes_that_are_not_utf8_are_repaired() {
    let mut r = SseReader::new();
    assert_eq!(r.push(b"data: a\xffb\n"), vec!["a\u{fffd}b"]);
}

#[test]
fn only_the_data_field_carries_a_payload() {
    let mut r = SseReader::new();
    assert_eq!(
        r.push(b"event: message\nid: 1\n  data:padded  \ndata:\ndata\n"),
        vec!["padded"]
    );
    assert_eq!(r.flush(), None);
}
