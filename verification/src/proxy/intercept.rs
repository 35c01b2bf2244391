//! The interception path: what of the provider's answer goes to the client, as an AWS EventStream.

use vstd::prelude::*;
use vstd::string::*;
use vstd::utf8::encode_utf8;

use crate::eventstream;
use crate::eventstream::laws::{
    law_event_headers_name_the_event, law_exception_headers_name_the_code,
    law_two_frames_decode_in_order, length_fits,
};
use crate::eventstream::testing::stream_frames;
use crate::eventstream::{
    event_frame, event_headers, exception_frame, exception_headers, payload_fits, single,
    AMZ_JSON_1_0,
};
use crate::json::compact;
use crate::translate::response::{
    all_fit, frame_seq, frames_of, fresh, on_chunk, on_end, Session, StreamState,
};
use crate::text::texts;
use crate::translate::sse::{line_payload, read_lines, SseReader};
use crate::types::openai;
use crate::utf8::lemma_utf8_len;

verus! {

/// Depth of the frame channel between the upstream reader and the response body.
pub const CHANNEL_DEPTH: usize = 32;

/// The code under which a failure of the provider is reported.
pub const UPSTREAM_ERROR: &'static str = "UpstreamError";

/// The payload of the frame that opens a stream.
pub open spec fn opening_payload(conversation: Seq<char>) -> Seq<u8> {
    encode_utf8(compact(single("conversationId"@, conversation)))
}

/// The payload of the frame that reports a failure.
pub open spec fn failure_payload(error: Seq<char>) -> Seq<u8> {
    encode_utf8(compact(single("message"@, error)))
}

/// The conversation that a request names, empty where it names none.
pub open spec fn conversation_of(id: Option<&str>) -> Seq<char> {
    match id {
        Some(c) => c@,
        None => seq![],
    }
}

/// The frame that reports a failure in the middle of an answer.
pub fn failed_midway(error: &str) -> (frame: Vec<u8>)
    requires
        payload_fits(failure_payload(error@)),
    ensures
        frame@ == exception_frame(UPSTREAM_ERROR@, error@),
{
    proof {
        reveal_strlit("UpstreamError");
        lemma_utf8_len(UPSTREAM_ERROR@);
    }
    eventstream::error_frame(UPSTREAM_ERROR, error)
}

/// The whole answer where the provider refused the request: a well-formed stream that opens and
/// carries an exception, rather than raw bytes that would fail the client's checksum.
pub fn failed_start(conversation_id: Option<&str>, error: &str) -> (body: Vec<u8>)
    requires
        payload_fits(opening_payload(conversation_of(conversation_id))),
        payload_fits(failure_payload(error@)),
    ensures
        body@ == event_frame(
            "initial-response"@,
            opening_payload(conversation_of(conversation_id)),
            AMZ_JSON_1_0@,
        ) + exception_frame(UPSTREAM_ERROR@, error@),
{
    let mut body = match conversation_id {
        Some(c) => eventstream::initial_response(c),
        None => {
            proof {
                reveal_strlit("");
                assert(""@ =~= Seq::empty());
            }
            eventstream::initial_response("")
        },
    };
    let mut failure = failed_midway(error);
    body.append(&mut failure);
    body
}

/// Relays one answer: bytes of the provider's stream come in, frames go out.
pub struct Relay {
    reader: SseReader,
    state: StreamState,
}

impl Relay {
    /// The bytes of the line that is not complete yet.
    pub closed spec fn pending(&self) -> Seq<u8> {
        self.reader@
    }

    /// Where the translated stream stands.
    pub closed spec fn session(&self) -> Session {
        self.state@
    }

    pub fn new(model: &str, conversation_id: Option<&str>) -> (r: Self)
        ensures
            r.pending() == Seq::<u8>::empty(),
            r.session() == fresh(model@, conversation_of(conversation_id)),
    {
        Relay { reader: SseReader::new(), state: StreamState::new(model, conversation_id) }
    }

    /// The payloads that the bytes complete. Each is a chunk to be parsed and fed.
    pub fn read(&mut self, bytes: &[u8]) -> (payloads: Vec<String>)
        ensures
            (texts(payloads@), final(self).pending()) == read_lines(
                old(self).pending() + bytes@,
            ),
            final(self).session() == old(self).session(),
    {
        self.reader.push(bytes)
    }

    /// The payload of the last line, where the provider's stream ends without a line break.
    pub fn read_rest(&mut self) -> (payload: Option<String>)
        ensures
            match payload {
                Some(p) => line_payload(old(self).pending()) == Some(p@),
                None => line_payload(old(self).pending()) is None,
            },
            final(self).pending() == Seq::<u8>::empty(),
            final(self).session() == old(self).session(),
    {
        self.reader.flush()
    }

    /// The frames for one payload. One that is not a chunk is skipped rather than ending the whole
    /// stream.
    pub fn feed(&mut self, chunk: Option<&openai::StreamChunk>) -> (frames: Vec<Vec<u8>>)
        requires
            chunk is Some ==> all_fit(on_chunk(old(self).session(), *chunk->0).1),
        ensures
            final(self).pending() == old(self).pending(),
            match chunk {
                Some(c) => final(self).session() == on_chunk(old(self).session(), *c).0
                    && frame_seq(frames@) == frames_of(on_chunk(old(self).session(), *c).1),
                None => final(self).session() == old(self).session() && frames@.len() == 0,
            },
    {
        match chunk {
            Some(c) => self.state.on_chunk(c),
            None => Vec::new(),
        }
    }

    /// The frames that end the stream.
    pub fn finish(&mut self) -> (frames: Vec<Vec<u8>>)
        requires
            all_fit(on_end(old(self).session()).1),
        ensures
            frame_seq(frames@) == frames_of(on_end(old(self).session()).1),
            final(self).session() == on_end(old(self).session()).0,
    {
        self.state.finish()
    }
}

// ── Laws ─────────────────────────────────────────────────────────────────────

/// The answer to a request that the provider refused decodes as two frames: the one that opens the
/// stream, and an exception with the provider's own words.
pub proof fn law_refusal_is_a_well_formed_stream(conversation: Seq<char>, error: Seq<char>)
    requires
        length_fits(
            event_headers("initial-response"@, AMZ_JSON_1_0@),
            opening_payload(conversation),
        ),
        length_fits(exception_headers(UPSTREAM_ERROR@), failure_payload(error)),
    ensures
        stream_frames(
            event_frame("initial-response"@, opening_payload(conversation), AMZ_JSON_1_0@)
                + exception_frame(UPSTREAM_ERROR@, error),
        ) == Some(
            seq![
                (
                    event_headers("initial-response"@, AMZ_JSON_1_0@),
                    opening_payload(conversation),
                ),
                (exception_headers(UPSTREAM_ERROR@), failure_payload(error)),
            ],
        ),
{
    reveal_strlit("initial-response");
    reveal_strlit("application/x-amz-json-1.0");
    reveal_strlit("UpstreamError");
    lemma_utf8_len("initial-response"@);
    lemma_utf8_len(AMZ_JSON_1_0@);
    lemma_utf8_len(UPSTREAM_ERROR@);
    law_event_headers_name_the_event("initial-response"@, AMZ_JSON_1_0@);
    law_exception_headers_name_the_code(UPSTREAM_ERROR@);
    law_two_frames_decode_in_order(
        (event_headers("initial-response"@, AMZ_JSON_1_0@), opening_payload(conversation)),
        (exception_headers(UPSTREAM_ERROR@), failure_payload(error)),
    );
}

} // verus!
