//! What the calls of the translation come to, one by one and one after another.

use vstd::prelude::*;
use vstd::string::*;

use crate::error::Error;
use crate::json::JsonValue;
use crate::proxy::intercept::{conversation_of, Relay};
use crate::text::{lower, texts};
use crate::translate::closing::names_model;
use crate::translate::fidelity::law_conversations_are_told_in_order;
use crate::translate::request::{
    arguments_string, assistant_turn, conversation_turns, convert_assistant_message,
    convert_user_message, extract_tools, image_mime, to_chat_request, user_turns,
};
use crate::translate::response::{
    chain, close_tools, drained, frame_seq, frames_of, fresh, on_choice, on_choices, on_chunk,
    on_content, on_end, on_reasoning, on_tool_calls, report_usage, Event, Session, StreamState,
};
use crate::translate::sse::{
    lemma_read_concat, read_chunks, read_lines, stream_payloads, SseReader,
};
use crate::translate::stream::{fed, stream_events};
use crate::translate::thinking;
use crate::translate::thinking::{
    answers, close_after, first_from, flushed, held, holdback, law_only_the_tags_vanish,
    lemma_first, lemma_holdback, lemma_patterns, lemma_scan_concat, patterns, reads_as, scan,
    split_stream, thoughts, Block, Ending, Split, Tag, ThinkingSplitter,
};
use crate::types::cw;
use crate::types::openai;
use crate::types::openai::{offer_seq, turn_seq, ChatMessage, ChatRequest, Tool};

verus! {

// ── Requests ─────────────────────────────────────────────────────────────────

/// A request asks for the model that was given, streamed and with usage; it offers the tools of the
/// conversation, to be chosen from freely, and holds its messages; and it is refused only where there
/// are none.
pub proof fn law_requests_ask_for_what_was_given(
    req: &cw::Request,
    model: &str,
    r: Result<ChatRequest, Error>,
    tools: Vec<Tool>,
)
    requires
        call_ensures(to_chat_request, (req, model), r),
        call_ensures(extract_tools, (&req.conversation_state,), tools),
    ensures
        r is Ok <==> conversation_turns(req.conversation_state).len() > 0,
        r is Ok ==> {
            let chat = r->Ok_0;
            &&& chat.model@ == model@
            &&& chat.stream
            &&& chat.stream_options is Some && chat.stream_options->0.include_usage
            &&& turn_seq(chat.messages@) == conversation_turns(req.conversation_state)
            &&& offer_seq(chat.tools@) == offer_seq(tools@)
            &&& chat.tool_choice is Some <==> chat.tools@.len() > 0
            &&& chat.tool_choice is Some ==> chat.tool_choice->0@ == "auto"@
        },
        r is Err ==> r->Err_0 is Translate,
{
}

/// The messages of a request are in the order of the turns: those of a conversation that goes on
/// from another come after the other's.
pub proof fn law_messages_are_in_the_order_of_the_turns(
    first: &cw::Request,
    rest: &cw::Request,
    whole: &cw::Request,
    model: &str,
    a: ChatRequest,
    b: ChatRequest,
    c: Result<ChatRequest, Error>,
)
    requires
        first.conversation_state.current_message is None,
        whole.conversation_state.history@ == first.conversation_state.history@
            + rest.conversation_state.history@,
        whole.conversation_state.current_message == rest.conversation_state.current_message,
        call_ensures(to_chat_request, (first, model), Ok::<ChatRequest, Error>(a)),
        call_ensures(to_chat_request, (rest, model), Ok::<ChatRequest, Error>(b)),
        call_ensures(to_chat_request, (whole, model), c),
    ensures
        c is Ok,
        turn_seq(c->Ok_0.messages@) == turn_seq(a.messages@) + turn_seq(b.messages@),
{
    law_conversations_are_told_in_order(
        first.conversation_state,
        rest.conversation_state,
        whole.conversation_state,
    );
}

/// A turn is put behind what is there, and takes nothing of it away.
pub proof fn law_turns_are_appended(
    msg: &cw::UserInputMessage,
    out: &mut Vec<ChatMessage>,
    reply: &cw::AssistantResponseMessage,
    m: ChatMessage,
)
    requires
        call_ensures(convert_user_message, (msg, out), ()),
        call_ensures(convert_assistant_message, (reply,), m),
    ensures
        turn_seq(final(out)@) == turn_seq(old(out)@) + user_turns(*msg),
        m@ == assistant_turn(*reply),
{
}

/// Formats are told whatever the case of their letters, and arguments are handed over as they are.
pub proof fn law_formats_and_arguments_are_handed_over(
    a: &str,
    b: &str,
    x: Option<&'static str>,
    y: Option<&'static str>,
    text: String,
    value: JsonValue,
    said: String,
    null: String,
    none: String,
)
    requires
        call_ensures(image_mime, (a,), x),
        call_ensures(image_mime, (b,), y),
        value == JsonValue::Text(text),
        call_ensures(arguments_string, (Some(&value),), said),
        call_ensures(arguments_string, (Some(&JsonValue::Null),), null),
        call_ensures(arguments_string, (None::<&JsonValue>,), none),
    ensures
        lower(a@) == lower(b@) ==> (x is Some <==> y is Some) && (x is Some ==> x->0@ == y->0@),
        a@ == "png"@ ==> x is Some && x->0@ == "image/png"@,
        a@ == "jpeg"@ || a@ == "jpg"@ ==> x is Some && x->0@ == "image/jpeg"@,
        a@ == "gif"@ ==> x is Some && x->0@ == "image/gif"@,
        a@ == "webp"@ ==> x is Some && x->0@ == "image/webp"@,
        said@ == text@,
        null@ == "{}"@,
        none@ == "{}"@,
{
    reveal_strlit("png");
    reveal_strlit("jpeg");
    reveal_strlit("jpg");
    reveal_strlit("gif");
    reveal_strlit("webp");
    assert(lower("png"@) =~= "png"@);
    assert(lower("jpeg"@) =~= "jpeg"@);
    assert(lower("jpg"@) =~= "jpg"@);
    assert(lower("gif"@) =~= "gif"@);
    assert(lower("webp"@) =~= "webp"@);
    assert("jpg"@[0] != "png"@[0]);
    assert("gif"@[0] != "png"@[0]);
    assert("gif"@[0] != "jpg"@[0]);
    assert("webp"@[0] != "jpeg"@[0]);
}

// ── Thinking ─────────────────────────────────────────────────────────────────

/// A whole stream that is pushed and flushed comes out as its blocks have it.
pub proof fn law_pushed_streams_come_out_by_their_blocks(
    made: ThinkingSplitter,
    pushed: &mut ThinkingSplitter,
    stream: &str,
    first: Split,
    drained: &mut ThinkingSplitter,
    last: Split,
    blocks: Seq<Block>,
    ending: Ending,
)
    requires
        call_ensures(ThinkingSplitter::new, (), made),
        old(pushed).held_text() == made.held_text(),
        old(pushed).open_block() == made.open_block(),
        call_ensures(ThinkingSplitter::push, (pushed, stream), first),
        call_ensures(ThinkingSplitter::flush, (drained,), last),
        reads_as(stream@, blocks, ending),
    ensures
        old(drained).held_text() == final(pushed).held_text() && old(drained).open_block() == final(pushed).open_block() ==> {
            &&& first.reasoning@ + last.reasoning@ == thoughts(blocks, ending)
            &&& first.text@ + last.text@ == answers(blocks, ending)
            &&& final(drained).held_text().len() == 0
            &&& final(drained).open_block() is None
        },
{
    lemma_one_push(stream@);
    law_only_the_tags_vanish(seq![stream@], blocks, ending);
    assert(Seq::<char>::empty() + stream@ =~= stream@);
}

proof fn lemma_one_push(s: Seq<char>)
    ensures
        thinking::whole(seq![s]) == s,
        split_stream(seq![s]) == {
            let a = scan(s, None);
            let tail = flushed(a.pending, a.close);
            (a.reasoning + tail.0, a.text + tail.1)
        },
{
    let one = seq![s];
    reveal_with_fuel(thinking::whole, 2);
    reveal_with_fuel(thinking::fed, 2);
    assert(one.drop_last() =~= seq![]);
    assert(Seq::<char>::empty() + s =~= s);
    let a = scan(s, None);
    assert(Seq::<char>::empty() + a.reasoning =~= a.reasoning);
    assert(Seq::<char>::empty() + a.text =~= a.text);
}

/// Two pushes come to what one push of both deltas comes to.
pub proof fn law_deltas_can_be_cut_anywhere(
    one: &mut ThinkingSplitter,
    two: &mut ThinkingSplitter,
    both: &mut ThinkingSplitter,
    a: &str,
    b: &str,
    ab: &str,
    x: Split,
    y: Split,
    xy: Split,
)
    requires
        ab@ == a@ + b@,
        old(both).held_text() == old(one).held_text(),
        old(both).open_block() == old(one).open_block(),
        call_ensures(ThinkingSplitter::push, (one, a), x),
        call_ensures(ThinkingSplitter::push, (two, b), y),
        call_ensures(ThinkingSplitter::push, (both, ab), xy),
    ensures
        old(two).held_text() == final(one).held_text() && old(two).open_block() == final(one).open_block() ==> {
            &&& xy.reasoning@ == x.reasoning@ + y.reasoning@
            &&& xy.text@ == x.text@ + y.text@
            &&& final(both).held_text() == final(two).held_text()
            &&& final(both).open_block() == final(two).open_block()
        },
{
    let front = old(one).held_text();
    lemma_scan_concat(front + a@, b@, old(one).open_block());
    assert(front + a@ + b@ =~= front + ab@);
}

/// Nothing is held back but what may still grow into a tag that matters here.
pub proof fn law_only_beginnings_of_tags_are_held(
    s: &mut ThinkingSplitter,
    input: &str,
    out: Split,
)
    requires
        call_ensures(ThinkingSplitter::push, (s, input), out),
    ensures
        final(s).held_text().len() > 0 ==> match final(s).open_block() {
            Some(tag) => begins(final(s).held_text(), tag.closing()),
            None => begins(final(s).held_text(), Tag::Thinking.opening()) || begins(
                final(s).held_text(),
                Tag::Think.opening(),
            ),
        },
{
    lemma_held(old(s).held_text() + input@, old(s).open_block());
}

/// A text is the beginning of a tag and not the whole of it, whatever the case of its letters.
pub open spec fn begins(text: Seq<char>, tag: Seq<char>) -> bool {
    text.len() < tag.len() && forall|i: int|
        0 <= i < text.len() ==> #[trigger] lower(text)[i] == tag[i]
}

proof fn lemma_held(s: Seq<char>, close: Option<Tag>)
    ensures
        ({
            let r = scan(s, close);
            r.pending.len() > 0 ==> exists|k: int|
                0 <= k < patterns(r.close).len() && begins(
                    r.pending,
                    #[trigger] patterns(r.close)[k],
                )
        }),
    decreases s.len(),
{
    let pats = patterns(close);
    lemma_patterns(close);
    lemma_first(lower(s), pats, 0);
    match first_from(lower(s), pats, 0) {
        Some((i, k)) => {
            lemma_held(s.skip(i + pats[k].len()), close_after(close, k));
        },
        None => {
            lemma_holdback(lower(s), pats, s.len() as int);
            let n = holdback(lower(s), pats);
            if n > 0 {
                assert(held(lower(s), pats, n));
                let k = choose|k: int|
                    0 <= k < pats.len() && 0 < n <= s.len() && n < (#[trigger] pats[k]).len()
                        && lower(s).skip(s.len() - n) == pats[k].take(n);
                let pending = s.skip(s.len() - n);
                assert forall|i: int| 0 <= i < n implies #[trigger] lower(pending)[i]
                    == pats[k][i] by {
                    assert(lower(s).skip(s.len() - n)[i] == lower(s)[s.len() - n + i]);
                    assert(pats[k].take(n)[i] == pats[k][i]);
                }
                assert(begins(pending, pats[k]));
            }
        },
    }
}

// ── Reading ──────────────────────────────────────────────────────────────────

/// A whole stream that is pushed and flushed gives the payloads of its lines, the last one included.
pub proof fn law_pushed_lines_are_read(
    made: SseReader,
    pushed: &mut SseReader,
    bytes: &[u8],
    first: Vec<String>,
    drained: &mut SseReader,
    last: Option<String>,
)
    requires
        call_ensures(SseReader::new, (), made),
        old(pushed)@ == made@,
        call_ensures(SseReader::push, (pushed, bytes), first),
        call_ensures(SseReader::flush, (drained,), last),
    ensures
        old(drained)@ == final(pushed)@ ==> {
            &&& final(drained)@.len() == 0
            &&& stream_payloads(seq![bytes@]) == texts(first@) + match last {
                Some(p) => seq![p@],
                None => seq![],
            }
        },
{
    let one = seq![bytes@];
    reveal_with_fuel(read_chunks, 2);
    assert(one.drop_last() =~= seq![]);
    assert(Seq::<u8>::empty() + bytes@ =~= bytes@);
    let none: Seq<Seq<char>> = seq![];
    assert(none + read_lines(bytes@).0 =~= read_lines(bytes@).0);
}

/// Two pushes come to what one push of both parts comes to, wherever the cut falls.
pub proof fn law_bytes_can_be_cut_anywhere(
    one: &mut SseReader,
    two: &mut SseReader,
    both: &mut SseReader,
    a: &[u8],
    b: &[u8],
    ab: &[u8],
    x: Vec<String>,
    y: Vec<String>,
    xy: Vec<String>,
)
    requires
        ab@ == a@ + b@,
        old(both)@ == old(one)@,
        call_ensures(SseReader::push, (one, a), x),
        call_ensures(SseReader::push, (two, b), y),
        call_ensures(SseReader::push, (both, ab), xy),
    ensures
        old(two)@ == final(one)@ ==> texts(xy@) == texts(x@) + texts(y@) && final(both)@ == final(two)@,
{
    lemma_read_concat(old(one)@ + a@, b@);
    assert(old(one)@ + a@ + b@ =~= old(one)@ + ab@);
}

// ── Streams ──────────────────────────────────────────────────────────────────

/// A stream begins with nothing said, and says of each chunk, and of the end, what the stream as a
/// whole says of it.
pub proof fn law_streams_are_sent_chunk_by_chunk(
    model: &str,
    conversation: Option<&str>,
    made: StreamState,
    state: &mut StreamState,
    chunks: Seq<openai::StreamChunk>,
    n: nat,
    frames: Vec<Vec<u8>>,
)
    requires
        call_ensures(StreamState::new, (model, conversation), made),
        n < chunks.len(),
        old(state)@ == fed(made@, chunks, n).0,
        call_ensures(StreamState::on_chunk, (state, &chunks[n as int]), frames),
    ensures
        made@.model == model@,
        made@.conversation == conversation_of(conversation),
        made@ == fresh(model@, conversation_of(conversation)),
        final(state)@ == fed(made@, chunks, n + 1).0,
        frames_of(fed(made@, chunks, n + 1).1) == frames_of(fed(made@, chunks, n).1) + frame_seq(
            frames@,
        ),
{
    let a = fed(made@, chunks, n);
    let b = on_chunk(a.0, chunks[n as int]);
    assert(frames_of(a.1 + b.1) =~= frames_of(a.1) + frames_of(b.1));
}

/// The end sends the rest of what the stream as a whole says.
pub proof fn law_the_end_sends_the_rest(
    s: Session,
    chunks: Seq<openai::StreamChunk>,
    state: &mut StreamState,
    frames: Vec<Vec<u8>>,
)
    requires
        old(state)@ == fed(s, chunks, chunks.len()).0,
        call_ensures(StreamState::finish, (state,), frames),
    ensures
        frames_of(stream_events(s, chunks)) == frames_of(fed(s, chunks, chunks.len()).1)
            + frame_seq(frames@),
{
    let a = fed(s, chunks, chunks.len());
    let b = on_end(a.0);
    assert(frames_of(a.1 + b.1) =~= frames_of(a.1) + frames_of(b.1));
}

/// What is sent is not taken back: the events of the first chunks are the first events.
pub proof fn law_what_is_sent_stays_sent(
    s: Session,
    chunks: Seq<openai::StreamChunk>,
    m: nat,
    n: nat,
)
    requires
        m <= n,
        n <= chunks.len(),
    ensures
        fed(s, chunks, m).1.is_prefix_of(fed(s, chunks, n).1),
        fed(s, chunks, n).1.is_prefix_of(stream_events(s, chunks)),
{
    lemma_sent_first(s, chunks, m, n);
    lemma_sent_first(s, chunks, n, chunks.len());
    let all = fed(s, chunks, chunks.len()).1;
    let here = fed(s, chunks, n).1;
    assert(here =~= stream_events(s, chunks).take(here.len() as int)) by {
        assert(all.take(here.len() as int) =~= stream_events(s, chunks).take(here.len() as int));
    }
}

proof fn lemma_sent_first(s: Session, chunks: Seq<openai::StreamChunk>, m: nat, n: nat)
    requires
        m <= n,
    ensures
        fed(s, chunks, m).1.is_prefix_of(fed(s, chunks, n).1),
    decreases n - m,
{
    let first = fed(s, chunks, m).1;
    let b = fed(s, chunks, n).1;
    if m < n {
        lemma_sent_first(s, chunks, m, (n - 1) as nat);
        let a = fed(s, chunks, (n - 1) as nat).1;
        assert(a.take(first.len() as int) =~= b.take(first.len() as int));
    } else {
        assert(first.take(first.len() as int) =~= first);
    }
}

/// Where an event stands within what a choice sends.
pub open spec fn rank(e: Event) -> int {
    match e {
        Event::Initial { .. } => 0,
        Event::ToolStart { .. } => 1,
        Event::ToolInput { .. } => 1,
        Event::Reasoning { .. } => 2,
        Event::Answer { .. } => 3,
        Event::ToolStop { .. } => 4,
        Event::Usage { .. } => 5,
        Event::Stop => 6,
    }
}

/// Events whose ranks lie in a range and do not go down.
pub open spec fn ranked(events: Seq<Event>, low: int, high: int) -> bool {
    &&& forall|i: int| 0 <= i < events.len() ==> low <= rank(#[trigger] events[i]) <= high
    &&& forall|i: int, j: int|
        0 <= i < j < events.len() ==> rank(#[trigger] events[i]) <= rank(#[trigger] events[j])
}

/// A choice sends its calls first, then reasoning, then its part of the answer.
pub proof fn law_a_choice_is_told_in_order(s: Session, choice: openai::Choice)
    requires
        s.opened,
    ensures
        ranked(on_choice(s, choice).1, 1, 3),
{
    let tcs = choice.delta.tool_calls@;
    lemma_calls_ranked(s, tcs, tcs.len());
    let a = on_tool_calls(s, tcs, tcs.len());
    let b = on_reasoning(a.0, choice.delta.reasoning_content);
    let c = on_content(b.0, choice.delta.content);
    assert(ranked(b.1, 2, 2));
    assert(ranked(c.1, 2, 3));
    assert(on_choice(s, choice).1 =~= a.1 + b.1 + c.1);
}

proof fn lemma_calls_ranked(s: Session, tcs: Seq<openai::ToolCallDelta>, n: nat)
    requires
        s.opened,
    ensures
        ranked(on_tool_calls(s, tcs, n).1, 1, 1),
        on_tool_calls(s, tcs, n).0.opened,
    decreases n,
{
    if n > 0 {
        lemma_calls_ranked(s, tcs, (n - 1) as nat);
    }
}

/// The choices of a chunk are told one after another, each from where the last one left off.
pub proof fn law_choices_are_told_in_order(
    s: Session,
    first: Seq<openai::Choice>,
    rest: Seq<openai::Choice>,
)
    ensures
        ({
            let a = on_choices(s, first, first.len());
            let b = on_choices(a.0, rest, rest.len());
            on_choices(s, first + rest, (first.len() + rest.len()) as nat) == chain(a, b)
        }),
        forall|choice: openai::Choice| #[trigger]
            on_choice(s, choice).1 == on_choices(s, seq![choice], 1).1,
        forall|choice: openai::Choice| #[trigger]
            on_choice(s, choice).0 == on_choices(s, seq![choice], 1).0,
{
    assert forall|choice: openai::Choice| true implies #[trigger] on_choice(s, choice).1
        == on_choices(s, seq![choice], 1).1 && on_choice(s, choice).0 == on_choices(
        s,
        seq![choice],
        1,
    ).0 by {
        reveal_with_fuel(on_choices, 2);
        let one = on_choice(s, choice);
        assert(Seq::<Event>::empty() + one.1 =~= one.1);
    }
    lemma_choices_concat(s, first, rest, rest.len());
}

proof fn lemma_choices_concat(
    s: Session,
    first: Seq<openai::Choice>,
    rest: Seq<openai::Choice>,
    n: nat,
)
    requires
        n <= rest.len(),
    ensures
        ({
            let a = on_choices(s, first, first.len());
            on_choices(s, first + rest, (first.len() + n) as nat) == chain(
                a,
                on_choices(a.0, rest, n),
            )
        }),
    decreases n,
{
    let a = on_choices(s, first, first.len());
    if n == 0 {
        lemma_choices_agree(s, first, first + rest, first.len());
        assert(a.1 + Seq::<Event>::empty() =~= a.1);
    } else {
        lemma_choices_concat(s, first, rest, (n - 1) as nat);
        let b = on_choices(a.0, rest, (n - 1) as nat);
        let c = on_choice(b.0, rest[n - 1]);
        assert((first + rest)[first.len() + n - 1] == rest[n - 1]);
        assert((a.1 + b.1) + c.1 =~= a.1 + (b.1 + c.1));
    }
}

proof fn lemma_choices_agree(
    s: Session,
    one: Seq<openai::Choice>,
    other: Seq<openai::Choice>,
    n: nat,
)
    requires
        n <= one.len(),
        n <= other.len(),
        forall|i: int| 0 <= i < n ==> one[i] == other[i],
    ensures
        on_choices(s, one, n) == on_choices(s, other, n),
    decreases n,
{
    if n > 0 {
        lemma_choices_agree(s, one, other, (n - 1) as nat);
    }
}

/// The end sends what is held, reasoning before answer, then closes the calls, tells the usage and
/// stops.
pub proof fn law_the_end_is_told_in_order(s: Session)
    requires
        s.opened,
    ensures
        ranked(on_end(s).1, 2, 6),
        on_end(s).1.len() > 0,
        on_end(s).1.last() is Stop,
{
    let a = drained(s);
    assert(ranked(a.1, 2, 3));
    let b = if a.0.called {
        close_tools(a.0, a.0.tools.len())
    } else {
        (a.0, seq![])
    };
    lemma_stops_ranked(a.0, a.0.tools.len());
    assert(ranked(b.1, 4, 4));
    assert(ranked(a.1 + b.1, 2, 4));
    let c = report_usage(b.0);
    assert(ranked(c.1, 5, 5));
    assert(ranked(a.1 + b.1 + c.1, 2, 5));
    let none: Seq<Event> = seq![];
    assert(a.1 + none =~= a.1);
    assert(on_end(s).1 =~= (a.1 + b.1 + c.1).push(Event::Stop));
}

proof fn lemma_stops_ranked(s: Session, n: nat)
    requires
        s.opened,
    ensures
        ranked(close_tools(s, n).1, 4, 4),
        close_tools(s, n).0 == s,
    decreases n,
{
    if n > 0 {
        lemma_stops_ranked(s, (n - 1) as nat);
    }
}

/// The relay reads as a reader does and sends as a stream does; what is no chunk is passed over.
pub proof fn law_relays_read_and_send(
    model: &str,
    conversation: Option<&str>,
    made: Relay,
    reading: &mut Relay,
    bytes: &[u8],
    payloads: Vec<String>,
    reader: &mut SseReader,
    lines: Vec<String>,
    feeding: &mut Relay,
    chunk: &openai::StreamChunk,
    frames: Vec<Vec<u8>>,
    passing: &mut Relay,
    none: Vec<Vec<u8>>,
    ending: &mut Relay,
    rest: Vec<Vec<u8>>,
)
    requires
        call_ensures(Relay::new, (model, conversation), made),
        call_ensures(Relay::read, (reading, bytes), payloads),
        old(reader)@ == old(reading).pending(),
        call_ensures(SseReader::push, (reader, bytes), lines),
        call_ensures(Relay::feed, (feeding, Some(chunk)), frames),
        call_ensures(Relay::feed, (passing, None), none),
        call_ensures(Relay::finish, (ending,), rest),
    ensures
        made.pending().len() == 0,
        made.session() == fresh(model@, conversation_of(conversation)),
        texts(payloads@) == texts(lines@),
        final(reading).pending() == final(reader)@,
        final(reading).session() == old(reading).session(),
        final(feeding).session() == on_chunk(old(feeding).session(), *chunk).0,
        frame_seq(frames@) == frames_of(on_chunk(old(feeding).session(), *chunk).1),
        final(feeding).pending() == old(feeding).pending(),
        none@.len() == 0,
        final(passing).session() == old(passing).session(),
        final(passing).pending() == old(passing).pending(),
        frame_seq(rest@) == frames_of(on_end(old(ending).session()).1),
{
}

/// The last line counts though nothing ends it, and a finish reason can be asked for.
pub proof fn law_the_last_line_counts(
    relay: &mut Relay,
    payload: Option<String>,
    reader: &mut SseReader,
    last: Option<String>,
    state: &StreamState,
    seen: bool,
)
    requires
        call_ensures(Relay::read_rest, (relay,), payload),
        old(reader)@ == old(relay).pending(),
        call_ensures(SseReader::flush, (reader,), last),
        call_ensures(StreamState::saw_finish, (state,), seen),
    ensures
        payload is Some <==> last is Some,
        payload is Some ==> payload->0@ == last->0@,
        final(relay).pending().len() == 0,
        final(relay).session() == old(relay).session(),
        seen == state@.finished,
{
}

/// Texts and reasoning name the model that is known when they are sent.
pub proof fn law_texts_name_the_model_of_the_moment(s: Session, choice: openai::Choice)
    ensures
        forall|i: int|
            0 <= i < on_choice(s, choice).1.len() ==> names_model(
                #[trigger] on_choice(s, choice).1[i],
                s.model,
            ),
        forall|i: int|
            0 <= i < on_end(s).1.len() ==> names_model(#[trigger] on_end(s).1[i], s.model),
{
    let tcs = choice.delta.tool_calls@;
    lemma_calls_name_nothing(s, tcs, tcs.len());
    let a = drained(s);
    lemma_stops_name_nothing(a.0, a.0.tools.len());
    let b = if a.0.called {
        chain(a, close_tools(a.0, a.0.tools.len()))
    } else {
        a
    };
    assert forall|i: int| 0 <= i < b.1.len() implies names_model(#[trigger] b.1[i], s.model) by {
        if i >= a.1.len() {
            assert(b.1[i] == close_tools(a.0, a.0.tools.len()).1[i - a.1.len()]);
        }
    }
}

proof fn lemma_calls_name_nothing(s: Session, tcs: Seq<openai::ToolCallDelta>, n: nat)
    ensures
        on_tool_calls(s, tcs, n).0.model == s.model,
        forall|i: int|
            0 <= i < on_tool_calls(s, tcs, n).1.len() ==> names_model(
                #[trigger] on_tool_calls(s, tcs, n).1[i],
                s.model,
            ),
    decreases n,
{
    if n > 0 {
        lemma_calls_name_nothing(s, tcs, (n - 1) as nat);
    }
}

proof fn lemma_stops_name_nothing(s: Session, n: nat)
    ensures
        forall|i: int|
            0 <= i < close_tools(s, n).1.len() ==> names_model(
                #[trigger] close_tools(s, n).1[i],
                s.model,
            ),
    decreases n,
{
    if n > 0 {
        lemma_stops_name_nothing(s, (n - 1) as nat);
        let a = close_tools(s, (n - 1) as nat);
        let all = close_tools(s, n).1;
        assert forall|i: int| 0 <= i < all.len() implies names_model(#[trigger] all[i], s.model) by {
            if i < a.1.len() {
                assert(all[i] == a.1[i]);
            }
        }
    }
}

/// Frames are seen one by one, in order.
pub proof fn law_frames_are_seen_in_order(frames: Seq<Vec<u8>>, i: int)
    ensures
        frame_seq(frames).len() == frames.len(),
        0 <= i < frames.len() ==> frame_seq(frames)[i] == frames[i]@,
{
}

/// What became unambiguous is nothing where it is neither reasoning nor text.
pub proof fn law_nothing_split_is_empty(none: Split, out: Split, b: bool)
    requires
        call_ensures(Split::default, (), none),
        call_ensures(Split::is_empty, (&out,), b),
    ensures
        none.reasoning@.len() == 0 && none.text@.len() == 0,
        b <==> out.reasoning@.len() + out.text@.len() == 0,
{
}

} // verus!
