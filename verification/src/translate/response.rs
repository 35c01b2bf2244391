//! OpenAI stream chunks -> AWS EventStream frames.

use vstd::prelude::*;
use vstd::string::*;
use vstd::utf8::encode_utf8;

use crate::eventstream;
use crate::eventstream::event;
use crate::eventstream::{event_frame, event_json, payload_fits, single, value_fits, AMZ_JSON_1_0};
use crate::json::{compact, members_view, value_view, Json, JsonValue};
use crate::text::{decimal, numeral};
use crate::translate::thinking::{flushed, scan, Tag, ThinkingSplitter};
use crate::types::openai;
use crate::utf8::lemma_utf8_len;

verus! {

// ── Events ───────────────────────────────────────────────────────────────────

/// What a frame tells the client.
pub ghost enum Event {
    /// The stream opens.
    Initial { conversation: Seq<char> },
    /// A stretch of reasoning.
    Reasoning { text: Seq<char>, model: Seq<char> },
    /// A stretch of the answer.
    Answer { text: Seq<char>, model: Seq<char> },
    /// A tool is called.
    ToolStart { name: Seq<char>, id: Seq<char> },
    /// A fragment of a call's arguments.
    ToolInput { input: Seq<char>, name: Seq<char>, id: Seq<char> },
    /// A call's arguments are complete.
    ToolStop { name: Seq<char>, id: Seq<char> },
    /// What the answer cost.
    Usage { prompt: u64, completion: u64 },
    /// The stream ends.
    Stop,
}

/// The payload of a stretch of text.
pub open spec fn content_json(text: Seq<char>, model: Seq<char>) -> Json {
    Json::Object(seq![("content"@, Json::Text(text)), ("modelId"@, Json::Text(model))])
}

/// The payload of a frame, with its members in the order of the wire.
pub open spec fn payload_of(e: Event) -> Json {
    match e {
        Event::Initial { conversation } => single("conversationId"@, conversation),
        Event::Reasoning { text, model } => content_json(text, model),
        Event::Answer { text, model } => content_json(text, model),
        Event::ToolStart { name, id } => Json::Object(
            seq![("name"@, Json::Text(name)), ("toolUseId"@, Json::Text(id))],
        ),
        Event::ToolInput { input, name, id } => Json::Object(
            seq![
                ("input"@, Json::Text(input)),
                ("name"@, Json::Text(name)),
                ("toolUseId"@, Json::Text(id)),
            ],
        ),
        Event::ToolStop { name, id } => Json::Object(
            seq![
                ("name"@, Json::Text(name)),
                ("stop"@, Json::Bool(true)),
                ("toolUseId"@, Json::Text(id)),
            ],
        ),
        Event::Usage { prompt, completion } => Json::Object(
            seq![
                ("inputTokens"@, Json::Number(decimal(prompt as nat))),
                ("outputTokens"@, Json::Number(decimal(completion as nat))),
            ],
        ),
        Event::Stop => Json::Object(seq![]),
    }
}

/// The name under which a frame is dispatched.
pub open spec fn kind_of(e: Event) -> Seq<char> {
    match e {
        Event::Initial { .. } => "initial-response"@,
        Event::Reasoning { .. } => event::REASONING_CONTENT@,
        Event::Answer { .. } => event::ASSISTANT_RESPONSE@,
        Event::ToolStart { .. } => event::TOOL_USE@,
        Event::ToolInput { .. } => event::TOOL_USE@,
        Event::ToolStop { .. } => event::TOOL_USE@,
        Event::Usage { .. } => event::USAGE@,
        Event::Stop => event::MESSAGE_STOP@,
    }
}

/// The frame of an event.
pub open spec fn frame_of(e: Event) -> Seq<u8> {
    if e is Initial {
        event_frame(kind_of(e), encode_utf8(compact(payload_of(e))), AMZ_JSON_1_0@)
    } else {
        event_json(kind_of(e), payload_of(e))
    }
}

/// The frames of events.
pub open spec fn frames_of(events: Seq<Event>) -> Seq<Seq<u8>> {
    events.map_values(|e: Event| frame_of(e))
}

/// The frames that a list of byte vectors holds.
pub open spec fn frame_seq(frames: Seq<Vec<u8>>) -> Seq<Seq<u8>> {
    frames.map_values(|f: Vec<u8>| f@)
}

/// Events whose payloads a buffer can take.
pub open spec fn all_fit(events: Seq<Event>) -> bool {
    forall|i: int|
        0 <= i < events.len() ==> payload_fits(
            encode_utf8(compact(payload_of(#[trigger] events[i]))),
        )
}

// ── The stream ───────────────────────────────────────────────────────────────

/// What is known of a tool call.
pub ghost struct Known {
    pub index: usize,
    pub id: Seq<char>,
    pub name: Seq<char>,
}

/// Where a stream stands. The calls are in the order of their indices.
pub ghost struct Session {
    pub model: Seq<char>,
    pub conversation: Seq<char>,
    pub tools: Seq<Known>,
    pub called: bool,
    pub usage: Option<(u64, u64)>,
    pub held: Seq<char>,
    pub block: Option<Tag>,
    pub opened: bool,
    pub finished: bool,
}

/// A stream that has moved on, and the events that it sent meanwhile.
pub type Moved = (Session, Seq<Event>);

/// One move after another.
pub open spec fn chain(a: Moved, b: Moved) -> Moved {
    (b.0, a.1 + b.1)
}

/// What is known of the call with this index.
pub open spec fn known(tools: Seq<Known>, index: usize) -> Known
    decreases tools.len(),
{
    if tools.len() == 0 {
        Known { index, id: seq![], name: seq![] }
    } else if tools[0].index == index {
        tools[0]
    } else {
        known(tools.skip(1), index)
    }
}

/// The calls with one of them entered or replaced, at the place that its index has.
pub open spec fn place(tools: Seq<Known>, k: Known) -> Seq<Known>
    decreases tools.len(),
{
    if tools.len() == 0 || k.index < tools[0].index {
        seq![k] + tools
    } else if k.index == tools[0].index {
        seq![k] + tools.skip(1)
    } else {
        seq![tools[0]] + place(tools.skip(1), k)
    }
}

/// An event is sent; the first one is preceded by the opening of the stream.
pub open spec fn send(s: Session, e: Event) -> Moved {
    if s.opened {
        (s, seq![e])
    } else {
        (
            Session { opened: true, ..s },
            seq![Event::Initial { conversation: s.conversation }, e],
        )
    }
}

/// A stretch of reasoning is sent, unless it is empty.
pub open spec fn send_reasoning(s: Session, text: Seq<char>) -> Moved {
    if text.len() == 0 {
        (s, seq![])
    } else {
        send(s, Event::Reasoning { text, model: s.model })
    }
}

/// A stretch of the answer is sent, unless it is empty.
pub open spec fn send_answer(s: Session, text: Seq<char>) -> Moved {
    if text.len() == 0 {
        (s, seq![])
    } else {
        send(s, Event::Answer { text, model: s.model })
    }
}

/// A stretch of text is sent on one of the two channels.
pub open spec fn send_content(s: Session, reasoning: bool, text: Seq<char>) -> Moved {
    if reasoning {
        send_reasoning(s, text)
    } else {
        send_answer(s, text)
    }
}

/// A call is noted, with its id where it has none yet.
pub open spec fn noted(s: Session, tc: openai::ToolCallDelta) -> Session {
    let k = known(s.tools, tc.index);
    Session {
        called: true,
        tools: match tc.id {
            Some(id) => place(
                s.tools,
                Known {
                    id: if k.id.len() == 0 {
                        id@
                    } else {
                        k.id
                    },
                    ..k
                },
            ),
            None => s.tools,
        },
        ..s
    }
}

/// The name that a delta brings.
pub open spec fn name_in(tc: openai::ToolCallDelta) -> Option<Seq<char>> {
    match tc.function {
        Some(f) => match f.name {
            Some(n) => Some(n@),
            None => None,
        },
        None => None,
    }
}

/// The fragment of arguments that a delta brings.
pub open spec fn arguments_in(tc: openai::ToolCallDelta) -> Seq<char> {
    match tc.function {
        Some(f) => match f.arguments {
            Some(a) => a@,
            None => seq![],
        },
        None => seq![],
    }
}

/// A call without a name takes the one that comes, and is announced.
pub open spec fn on_name(s: Session, tc: openai::ToolCallDelta) -> Moved {
    let k = known(s.tools, tc.index);
    match name_in(tc) {
        Some(name) => if k.name.len() == 0 {
            send(
                Session { tools: place(s.tools, Known { name, ..k }), ..s },
                Event::ToolStart { name, id: k.id },
            )
        } else {
            (s, seq![])
        },
        None => (s, seq![]),
    }
}

/// A fragment of arguments is passed on as it comes.
pub open spec fn on_arguments(s: Session, tc: openai::ToolCallDelta) -> Moved {
    let k = known(s.tools, tc.index);
    if arguments_in(tc).len() == 0 {
        (s, seq![])
    } else {
        send(s, Event::ToolInput { input: arguments_in(tc), name: k.name, id: k.id })
    }
}

/// One delta of a tool call.
pub open spec fn on_tool_call(s: Session, tc: openai::ToolCallDelta) -> Moved {
    let a = on_name(noted(s, tc), tc);
    chain(a, on_arguments(a.0, tc))
}

/// The first `n` deltas of tool calls.
pub open spec fn on_tool_calls(s: Session, tcs: Seq<openai::ToolCallDelta>, n: nat) -> Moved
    decreases n,
{
    if n == 0 {
        (s, seq![])
    } else {
        let a = on_tool_calls(s, tcs, (n - 1) as nat);
        chain(a, on_tool_call(a.0, tcs[n - 1]))
    }
}

/// Native reasoning goes to the reasoning channel.
pub open spec fn on_reasoning(s: Session, text: Option<String>) -> Moved {
    match text {
        Some(t) => send_reasoning(s, t@),
        None => (s, seq![]),
    }
}

/// Content is split: thinking blocks go to the reasoning channel, the rest is the answer.
pub open spec fn on_content(s: Session, text: Option<String>) -> Moved {
    match text {
        Some(t) => {
            let split = scan(s.held + t@, s.block);
            let a = send_reasoning(
                Session { held: split.pending, block: split.close, ..s },
                split.reasoning,
            );
            chain(a, send_answer(a.0, split.text))
        },
        None => (s, seq![]),
    }
}

/// One choice: tool calls, reasoning, content. A finish reason is noted and does not close the
/// stream.
pub open spec fn on_choice(s: Session, choice: openai::Choice) -> Moved {
    let a = on_tool_calls(s, choice.delta.tool_calls@, choice.delta.tool_calls@.len());
    let b = chain(a, on_reasoning(a.0, choice.delta.reasoning_content));
    let c = chain(b, on_content(b.0, choice.delta.content));
    (Session { finished: c.0.finished || choice.finish_reason is Some, ..c.0 }, c.1)
}

/// The first `n` choices of a chunk.
pub open spec fn on_choices(s: Session, choices: Seq<openai::Choice>, n: nat) -> Moved
    decreases n,
{
    if n == 0 {
        (s, seq![])
    } else {
        let a = on_choices(s, choices, (n - 1) as nat);
        chain(a, on_choice(a.0, choices[n - 1]))
    }
}

/// What a chunk says of the whole answer: its model, where none is known, and its usage.
pub open spec fn informed(s: Session, chunk: openai::StreamChunk) -> Session {
    Session {
        model: if s.model.len() == 0 && chunk.model is Some {
            chunk.model->0@
        } else {
            s.model
        },
        usage: match chunk.usage {
            Some(u) => Some((u.prompt_tokens, u.completion_tokens)),
            None => s.usage,
        },
        ..s
    }
}

/// One chunk.
pub open spec fn on_chunk(s: Session, chunk: openai::StreamChunk) -> Moved {
    on_choices(informed(s, chunk), chunk.choices@, chunk.choices@.len())
}

/// What is still held is sent.
pub open spec fn drained(s: Session) -> Moved {
    let tail = flushed(s.held, s.block);
    let a = send_reasoning(Session { held: seq![], block: None, ..s }, tail.0);
    chain(a, send_answer(a.0, tail.1))
}

/// The first `n` calls are closed.
pub open spec fn close_tools(s: Session, n: nat) -> Moved
    decreases n,
{
    if n == 0 {
        (s, seq![])
    } else {
        let a = close_tools(s, (n - 1) as nat);
        chain(a, send(a.0, Event::ToolStop { name: s.tools[n - 1].name, id: s.tools[n - 1].id }))
    }
}

/// The usage is reported.
pub open spec fn report_usage(s: Session) -> Moved {
    match s.usage {
        Some((prompt, completion)) => send(s, Event::Usage { prompt, completion }),
        None => (s, seq![]),
    }
}

/// The end of the stream: what is held, the calls, the usage, and the stop.
pub open spec fn on_end(s: Session) -> Moved {
    let a = drained(s);
    let b = if a.0.called {
        chain(a, close_tools(a.0, a.0.tools.len()))
    } else {
        a
    };
    let c = chain(b, report_usage(b.0));
    chain(c, send(c.0, Event::Stop))
}

// ── Payloads ─────────────────────────────────────────────────────────────────

/// A member whose value is a text.
fn text_member(name: &str, value: &str) -> (m: (String, JsonValue))
    ensures
        m.0@ == name@,
        value_view(m.1) == Json::Text(value@),
{
    (name.to_string(), JsonValue::Text(value.to_string()))
}

/// A member whose value is a number.
fn number_member(name: &str, value: u64) -> (m: (String, JsonValue))
    ensures
        m.0@ == name@,
        value_view(m.1) == Json::Number(decimal(value as nat)),
{
    (name.to_string(), JsonValue::Number(numeral(value)))
}

/// An object with two members.
fn object2(a: (String, JsonValue), b: (String, JsonValue)) -> (r: JsonValue)
    ensures
        r@ == Json::Object(seq![(a.0@, a.1@), (b.0@, b.1@)]),
{
    let members = vec![a, b];
    proof {
        reveal_with_fuel(members_view, 3);
        assert(members_view(members, 2) =~= seq![(a.0@, a.1@), (b.0@, b.1@)]);
    }
    JsonValue::Object(members)
}

/// An object with three members.
fn object3(a: (String, JsonValue), b: (String, JsonValue), c: (String, JsonValue)) -> (r:
    JsonValue)
    ensures
        r@ == Json::Object(seq![(a.0@, a.1@), (b.0@, b.1@), (c.0@, c.1@)]),
{
    let members = vec![a, b, c];
    proof {
        reveal_with_fuel(members_view, 4);
        assert(members_view(members, 3) =~= seq![(a.0@, a.1@), (b.0@, b.1@), (c.0@, c.1@)]);
    }
    JsonValue::Object(members)
}

/// The names of the events fit a header.
proof fn lemma_kinds_fit(e: Event)
    ensures
        value_fits(kind_of(e)),
{
    reveal_strlit("initial-response");
    reveal_strlit("assistantResponseEvent");
    reveal_strlit("reasoningContentEvent");
    reveal_strlit("toolUseEvent");
    reveal_strlit("usageEvent");
    reveal_strlit("messageStopEvent");
    lemma_utf8_len(kind_of(e));
}

/// What fits as a whole fits in its parts.
proof fn lemma_all_fit(a: Seq<Event>, b: Seq<Event>)
    requires
        all_fit(a + b),
    ensures
        all_fit(a),
        all_fit(b),
{
    assert forall|i: int| 0 <= i < a.len() implies payload_fits(
        encode_utf8(compact(payload_of(#[trigger] a[i]))),
    ) by {
        assert((a + b)[i] == a[i]);
    }
    assert forall|i: int| 0 <= i < b.len() implies payload_fits(
        encode_utf8(compact(payload_of(#[trigger] b[i]))),
    ) by {
        assert((a + b)[a.len() + i] == b[i]);
    }
}

/// The frames of events that follow each other.
proof fn lemma_frames_concat(a: Seq<Event>, b: Seq<Event>)
    ensures
        frames_of(a + b) == frames_of(a) + frames_of(b),
{
    assert(frames_of(a + b) =~= frames_of(a) + frames_of(b));
}

/// Frames that follow frames.
proof fn lemma_appended(f: Seq<Seq<u8>>, a: Seq<Event>, b: Seq<Event>)
    ensures
        f + frames_of(a) + frames_of(b) == f + frames_of(a + b),
{
    lemma_frames_concat(a, b);
    assert(f + frames_of(a) + frames_of(b) =~= f + (frames_of(a) + frames_of(b)));
}

// ── The translator ───────────────────────────────────────────────────────────

/// What is known of a tool call.
#[derive(Debug)]
struct ToolMeta {
    index: usize,
    id: String,
    name: String,
}

impl ToolMeta {
    spec fn known(&self) -> Known {
        Known { index: self.index, id: self.id@, name: self.name@ }
    }
}

/// What is known of the calls in a list.
spec fn known_seq(tools: Seq<ToolMeta>) -> Seq<Known> {
    tools.map_values(|t: ToolMeta| t.known())
}

/// Turns the chunks of one answer into frames.
pub struct StreamState {
    model_id: String,
    /// Echoed in the frame that opens the stream.
    conversation_id: String,
    /// In the order of the delta index, so that terminal frames come in numeric order.
    tools: Vec<ToolMeta>,
    has_tool_calls: bool,
    usage: Option<openai::Usage>,
    thinking: ThinkingSplitter,
    initial_sent: bool,
    finished: bool,
}

impl View for StreamState {
    type V = Session;

    closed spec fn view(&self) -> Session {
        Session {
            model: self.model_id@,
            conversation: self.conversation_id@,
            tools: known_seq(self.tools@),
            called: self.has_tool_calls,
            usage: match self.usage {
                Some(u) => Some((u.prompt_tokens, u.completion_tokens)),
                None => None,
            },
            held: self.thinking.held_text(),
            block: self.thinking.open_block(),
            opened: self.initial_sent,
            finished: self.finished,
        }
    }
}

/// The stream before its first chunk.
pub open spec fn fresh(model: Seq<char>, conversation: Seq<char>) -> Session {
    Session {
        model,
        conversation,
        tools: seq![],
        called: false,
        usage: None,
        held: seq![],
        block: None,
        opened: false,
        finished: false,
    }
}

/// Where in the list the call with this index stands or belongs.
fn position(tools: &Vec<ToolMeta>, index: usize) -> (i: usize)
    ensures
        i <= tools@.len(),
        forall|j: int| 0 <= j < i ==> (#[trigger] tools@[j]).index < index,
        i < tools@.len() ==> index <= tools@[i as int].index,
{
    let mut i: usize = 0;
    while i < tools.len() && tools[i].index < index
        invariant
            i <= tools@.len(),
            forall|j: int| 0 <= j < i ==> (#[trigger] tools@[j]).index < index,
        decreases tools@.len() - i,
    {
        i += 1;
    }
    i
}

/// Entering a call past the calls with lower indices.
proof fn lemma_place(tools: Seq<Known>, k: Known, i: int)
    requires
        0 <= i <= tools.len(),
        forall|j: int| 0 <= j < i ==> (#[trigger] tools[j]).index < k.index,
        i < tools.len() ==> k.index <= tools[i].index,
    ensures
        place(tools, k) == if i < tools.len() && tools[i].index == k.index {
            tools.update(i, k)
        } else {
            tools.insert(i, k)
        },
    decreases tools.len(),
{
    if i == 0 {
        if tools.len() > 0 && tools[0].index == k.index {
            assert(seq![k] + tools.skip(1) =~= tools.update(0, k));
        } else {
            assert(seq![k] + tools =~= tools.insert(0, k));
        }
    } else {
        assert(tools[0].index < k.index);
        let rest = tools.skip(1);
        assert forall|j: int| 0 <= j < i - 1 implies (#[trigger] rest[j]).index < k.index by {
            assert(tools[j + 1].index < k.index);
        }
        lemma_place(rest, k, i - 1);
        if i < tools.len() && tools[i].index == k.index {
            assert(seq![tools[0]] + rest.update(i - 1, k) =~= tools.update(i, k));
        } else {
            assert(seq![tools[0]] + rest.insert(i - 1, k) =~= tools.insert(i, k));
        }
    }
}

/// What is known of the call with this index.
fn lookup(tools: &Vec<ToolMeta>, index: usize) -> (k: ToolMeta)
    ensures
        k.known() == known(known_seq(tools@), index),
{
    let mut i: usize = 0;
    let ghost all = known_seq(tools@);
    assert(all.skip(0) =~= all);
    while i < tools.len()
        invariant
            i <= tools@.len(),
            all == known_seq(tools@),
            known(all, index) == known(all.skip(i as int), index),
        decreases tools@.len() - i,
    {
        assert(all.skip(i as int)[0] == tools@[i as int].known());
        assert(all.skip(i as int).skip(1) =~= all.skip(i + 1));
        if tools[i].index == index {
            return ToolMeta { index, id: tools[i].id.clone(), name: tools[i].name.clone() };
        }
        i += 1;
    }
    let k = ToolMeta { index, id: String::new(), name: String::new() };
    assert(k.known().id =~= seq![] && k.known().name =~= seq![]);
    k
}

/// Enter a call, or replace it, at the place that its index has.
fn enter(tools: &mut Vec<ToolMeta>, k: ToolMeta)
    ensures
        known_seq(final(tools)@) == place(known_seq(old(tools)@), k.known()),
{
    let i: usize = position(tools, k.index);
    let ghost before = known_seq(tools@);
    proof {
        assert forall|j: int| 0 <= j < i implies (#[trigger] before[j]).index < k.index by {
            assert(tools@[j].index < k.index);
        }
        lemma_place(before, k.known(), i as int);
    }
    let replaces = i < tools.len() && tools[i].index == k.index;
    let ghost entry = k.known();
    if replaces {
        tools.set(i, k);
        assert(known_seq(tools@) =~= before.update(i as int, entry));
    } else {
        tools.insert(i, k);
        assert(known_seq(tools@) =~= before.insert(i as int, entry));
    }
}

/// Calls in the strict order of their indices.
pub open spec fn sorted(tools: Seq<Known>) -> bool {
    forall|a: int, b: int|
        0 <= a < b < tools.len() ==> (#[trigger] tools[a]).index < (#[trigger] tools[b]).index
}

impl StreamState {
    /// `model_id` is echoed back to the IDE; seed it with the mapped model name.
    /// `conversation_id` should be the id from the incoming request, when present.
    pub fn new(model_id: &str, conversation_id: Option<&str>) -> (s: Self)
        ensures
            s@ == fresh(
                model_id@,
                match conversation_id {
                    Some(c) => c@,
                    None => seq![],
                },
            ),
    {
        let conversation_id = match conversation_id {
            Some(c) => c.to_string(),
            None => String::new(),
        };
        let s = StreamState {
            model_id: model_id.to_string(),
            conversation_id,
            tools: Vec::new(),
            has_tool_calls: false,
            usage: None,
            thinking: ThinkingSplitter::new(),
            initial_sent: false,
            finished: false,
        };
        assert(known_seq(s.tools@) =~= seq![]);
        s
    }

    /// Every stream opens with `initial-response`; it is sent lazily, so that it precedes real
    /// output.
    fn emit(&mut self, out: &mut Vec<Vec<u8>>, frame: Vec<u8>, Ghost(e): Ghost<Event>)
        requires
            all_fit(send(old(self)@, e).1),
            frame@ == frame_of(e),
        ensures
            final(self)@ == send(old(self)@, e).0,
            frame_seq(final(out)@) == frame_seq(old(out)@) + frames_of(send(old(self)@, e).1),
    {
        let ghost before = frame_seq(out@);
        let ghost s0 = self@;
        if !self.initial_sent {
            self.initial_sent = true;
            assert(send(s0, e).1[0] == (Event::Initial { conversation: s0.conversation }));
            out.push(eventstream::initial_response(self.conversation_id.as_str()));
            assert(self@ =~= send(s0, e).0);
        }
        out.push(frame);
        assert(frame_seq(out@) =~= before + frames_of(send(s0, e).1));
    }

    /// Send a stretch of text on one of the two channels, unless it is empty.
    fn emit_content(&mut self, out: &mut Vec<Vec<u8>>, reasoning: bool, text: &str)
        requires
            all_fit(send_content(old(self)@, reasoning, text@).1),
        ensures
            final(self)@ == send_content(old(self)@, reasoning, text@).0,
            frame_seq(final(out)@) == frame_seq(old(out)@) + frames_of(
                send_content(old(self)@, reasoning, text@).1,
            ),
    {
        let ghost s0 = self@;
        if text.is_empty() {
            assert(frame_seq(out@) =~= frame_seq(old(out)@) + frames_of(seq![]));
            return;
        }
        let ghost e = if reasoning {
            Event::Reasoning { text: text@, model: s0.model }
        } else {
            Event::Answer { text: text@, model: s0.model }
        };
        let payload = object2(
            text_member("content", text),
            text_member("modelId", self.model_id.as_str()),
        );
        proof {
            assert(payload@ == payload_of(e));
            assert(send(s0, e).1.last() == e);
            lemma_kinds_fit(e);
        }
        let kind = if reasoning {
            event::REASONING_CONTENT
        } else {
            event::ASSISTANT_RESPONSE
        };
        let frame = eventstream::json_frame(kind, &payload);
        self.emit(out, frame, Ghost(e));
    }

    /// Feed one delta of a tool call.
    fn feed_tool_call(&mut self, out: &mut Vec<Vec<u8>>, tc: &openai::ToolCallDelta)
        requires
            all_fit(on_tool_call(old(self)@, *tc).1),
        ensures
            final(self)@ == on_tool_call(old(self)@, *tc).0,
            frame_seq(final(out)@) == frame_seq(old(out)@) + frames_of(
                on_tool_call(old(self)@, *tc).1,
            ),
    {
        let ghost s0 = self@;
        let ghost f0 = frame_seq(out@);
        let ghost s1 = noted(s0, *tc);
        let ghost a = on_name(s1, *tc);
        let ghost b = on_arguments(a.0, *tc);
        proof {
            lemma_all_fit(a.1, b.1);
            lemma_frames_concat(a.1, b.1);
            assert(frames_of(seq![]) =~= seq![]);
        }
        self.has_tool_calls = true;
        match &tc.id {
            Some(id) => {
                let mut meta = lookup(&self.tools, tc.index);
                if meta.id.as_str().is_empty() {
                    meta.id = id.clone();
                }
                enter(&mut self.tools, meta);
            },
            None => {},
        }
        assert(self@ =~= s1);
        match &tc.function {
            Some(func) => {
                match &func.name {
                    Some(name) => {
                        let mut meta = lookup(&self.tools, tc.index);
                        if meta.name.as_str().is_empty() {
                            meta.name = name.clone();
                            let ghost e = Event::ToolStart { name: name@, id: meta.id@ };
                            let payload = object2(
                                text_member("name", meta.name.as_str()),
                                text_member("toolUseId", meta.id.as_str()),
                            );
                            let ghost k = meta.known();
                            enter(&mut self.tools, meta);
                            let ghost s2 = Session { tools: place(s1.tools, k), ..s1 };
                            proof {
                                assert(self@ =~= s2);
                                assert(payload@ == payload_of(e));
                                assert(a == send(s2, e));
                                assert(send(s2, e).1.last() == e);
                                lemma_kinds_fit(e);
                            }
                            let frame = eventstream::json_frame(event::TOOL_USE, &payload);
                            self.emit(out, frame, Ghost(e));
                        }
                    },
                    None => {},
                }
                assert(self@ == a.0);
                assert(frame_seq(out@) =~= f0 + frames_of(a.1));
                match &func.arguments {
                    Some(args) => {
                        if !args.as_str().is_empty() {
                            let meta = lookup(&self.tools, tc.index);
                            let ghost e = Event::ToolInput {
                                input: args@,
                                name: meta.name@,
                                id: meta.id@,
                            };
                            // Fragments are forwarded raw; the consumer concatenates, then parses.
                            let payload = object3(
                                text_member("input", args.as_str()),
                                text_member("name", meta.name.as_str()),
                                text_member("toolUseId", meta.id.as_str()),
                            );
                            proof {
                                assert(payload@ == payload_of(e));
                                assert(send(a.0, e).1.last() == e);
                                lemma_kinds_fit(e);
                            }
                            let frame = eventstream::json_frame(event::TOOL_USE, &payload);
                            self.emit(out, frame, Ghost(e));
                        }
                    },
                    None => {},
                }
            },
            None => {},
        }
        assert(frame_seq(out@) =~= f0 + (frames_of(a.1) + frames_of(b.1)));
    }

    /// Feed the deltas of tool calls.
    fn feed_tool_calls(&mut self, out: &mut Vec<Vec<u8>>, tcs: &Vec<openai::ToolCallDelta>)
        requires
            all_fit(on_tool_calls(old(self)@, tcs@, tcs@.len()).1),
        ensures
            final(self)@ == on_tool_calls(old(self)@, tcs@, tcs@.len()).0,
            frame_seq(final(out)@) == frame_seq(old(out)@) + frames_of(
                on_tool_calls(old(self)@, tcs@, tcs@.len()).1,
            ),
    {
        let ghost s0 = self@;
        let ghost f0 = frame_seq(out@);
        let mut i: usize = 0;
        assert(f0 + frames_of(seq![]) =~= f0);
        while i < tcs.len()
            invariant
                i <= tcs@.len(),
                all_fit(on_tool_calls(s0, tcs@, tcs@.len()).1),
                self@ == on_tool_calls(s0, tcs@, i as nat).0,
                frame_seq(out@) == f0 + frames_of(on_tool_calls(s0, tcs@, i as nat).1),
            decreases tcs@.len() - i,
        {
            let ghost before = on_tool_calls(s0, tcs@, i as nat);
            let ghost step = on_tool_call(before.0, tcs@[i as int]);
            proof {
                lemma_tool_calls_fit(s0, tcs@, (i + 1) as nat, tcs@.len());
                lemma_all_fit(before.1, step.1);
                lemma_appended(f0, before.1, step.1);
            }
            self.feed_tool_call(out, &tcs[i]);
            i += 1;
        }
    }

    /// Feed a delta of the content.
    fn feed_content(&mut self, out: &mut Vec<Vec<u8>>, content: &Option<String>)
        requires
            all_fit(on_content(old(self)@, *content).1),
        ensures
            final(self)@ == on_content(old(self)@, *content).0,
            frame_seq(final(out)@) == frame_seq(old(out)@) + frames_of(
                on_content(old(self)@, *content).1,
            ),
    {
        let ghost s0 = self@;
        let ghost f0 = frame_seq(out@);
        match content {
            Some(content) => {
                let split = self.thinking.push(content.as_str());
                let ghost s1 = Session {
                    held: self.thinking.held_text(),
                    block: self.thinking.open_block(),
                    ..s0
                };
                let ghost a = send_reasoning(s1, split.reasoning@);
                let ghost b = send_answer(a.0, split.text@);
                proof {
                    assert(self@ =~= s1);
                    lemma_all_fit(a.1, b.1);
                    lemma_appended(f0, a.1, b.1);
                }
                self.emit_content(out, true, split.reasoning.as_str());
                self.emit_content(out, false, split.text.as_str());
            },
            None => {
                assert(f0 + frames_of(seq![]) =~= f0);
            },
        }
    }

    /// Feed one choice of a chunk.
    fn feed_choice(&mut self, out: &mut Vec<Vec<u8>>, choice: &openai::Choice)
        requires
            all_fit(on_choice(old(self)@, *choice).1),
        ensures
            final(self)@ == on_choice(old(self)@, *choice).0,
            frame_seq(final(out)@) == frame_seq(old(out)@) + frames_of(
                on_choice(old(self)@, *choice).1,
            ),
    {
        let ghost s0 = self@;
        let ghost f0 = frame_seq(out@);
        let ghost tcs = choice.delta.tool_calls@;
        let ghost a = on_tool_calls(s0, tcs, tcs.len());
        let ghost r = on_reasoning(a.0, choice.delta.reasoning_content);
        let ghost c = on_content(r.0, choice.delta.content);
        proof {
            lemma_all_fit(a.1 + r.1, c.1);
            lemma_all_fit(a.1, r.1);
            lemma_appended(f0, a.1, r.1);
            lemma_appended(f0, a.1 + r.1, c.1);
        }
        self.feed_tool_calls(out, &choice.delta.tool_calls);
        let ghost f1 = frame_seq(out@);
        match &choice.delta.reasoning_content {
            Some(reasoning) => {
                self.emit_content(out, true, reasoning.as_str());
            },
            None => {
                assert(f1 + frames_of(seq![]) =~= f1);
            },
        }
        self.feed_content(out, &choice.delta.content);
        let ghost s3 = self@;
        if choice.finish_reason.is_some() {
            // The stream stays open: providers routinely send usage in a later chunk.
            self.finished = true;
        }
        assert(self@ =~= Session {
            finished: s3.finished || choice.finish_reason is Some,
            ..s3
        });
    }

    /// Feed one parsed chunk.
    pub fn on_chunk(&mut self, chunk: &openai::StreamChunk) -> (out: Vec<Vec<u8>>)
        requires
            all_fit(on_chunk(old(self)@, *chunk).1),
        ensures
            final(self)@ == on_chunk(old(self)@, *chunk).0,
            frame_seq(out@) == frames_of(on_chunk(old(self)@, *chunk).1),
    {
        let ghost s0 = informed(self@, *chunk);
        let mut out: Vec<Vec<u8>> = Vec::new();
        if self.model_id.as_str().is_empty() {
            match &chunk.model {
                Some(m) => {
                    self.model_id = m.clone();
                },
                None => {},
            }
        }
        match chunk.usage {
            Some(usage) => {
                self.usage = Some(usage);
            },
            None => {},
        }
        assert(self@ =~= s0);
        let ghost choices = chunk.choices@;
        let mut i: usize = 0;
        assert(frame_seq(out@) =~= frames_of(seq![]));
        while i < chunk.choices.len()
            invariant
                i <= choices.len(),
                choices == chunk.choices@,
                all_fit(on_choices(s0, choices, choices.len()).1),
                self@ == on_choices(s0, choices, i as nat).0,
                frame_seq(out@) == frames_of(on_choices(s0, choices, i as nat).1),
            decreases choices.len() - i,
        {
            let ghost before = on_choices(s0, choices, i as nat);
            let ghost step = on_choice(before.0, choices[i as int]);
            proof {
                lemma_choices_fit(s0, choices, (i + 1) as nat, choices.len());
                lemma_all_fit(before.1, step.1);
                lemma_frames_concat(before.1, step.1);
            }
            self.feed_choice(&mut out, &chunk.choices[i]);
            i += 1;
        }
        out
    }

    /// Send what is still held.
    fn drain(&mut self, out: &mut Vec<Vec<u8>>)
        requires
            all_fit(drained(old(self)@).1),
        ensures
            final(self)@ == drained(old(self)@).0,
            frame_seq(final(out)@) == frame_seq(old(out)@) + frames_of(drained(old(self)@).1),
    {
        let ghost s0 = self@;
        let ghost f0 = frame_seq(out@);
        let tail = self.thinking.flush();
        let ghost s1 = Session { held: seq![], block: None, ..s0 };
        let ghost a = send_reasoning(s1, tail.reasoning@);
        let ghost b = send_answer(a.0, tail.text@);
        proof {
            assert(self@ =~= s1);
            lemma_all_fit(a.1, b.1);
            lemma_appended(f0, a.1, b.1);
        }
        self.emit_content(out, true, tail.reasoning.as_str());
        self.emit_content(out, false, tail.text.as_str());
    }

    /// Close the tool calls, in the order of their indices.
    fn stop_tools(&mut self, out: &mut Vec<Vec<u8>>)
        requires
            all_fit(close_tools(old(self)@, old(self)@.tools.len()).1),
        ensures
            final(self)@ == close_tools(old(self)@, old(self)@.tools.len()).0,
            frame_seq(final(out)@) == frame_seq(old(out)@) + frames_of(
                close_tools(old(self)@, old(self)@.tools.len()).1,
            ),
    {
        let ghost s0 = self@;
        let ghost f0 = frame_seq(out@);
        let mut i: usize = 0;
        assert(f0 + frames_of(seq![]) =~= f0);
        while i < self.tools.len()
            invariant
                i <= self@.tools.len(),
                self@.tools == s0.tools,
                all_fit(close_tools(s0, s0.tools.len()).1),
                self@ == close_tools(s0, i as nat).0,
                frame_seq(out@) == f0 + frames_of(close_tools(s0, i as nat).1),
            decreases s0.tools.len() - i,
        {
            let ghost before = close_tools(s0, i as nat);
            let ghost k = s0.tools[i as int];
            let ghost e = Event::ToolStop { name: k.name, id: k.id };
            let ghost step = send(before.0, e);
            assert(self.tools@[i as int].known() == k);
            let payload = object3(
                text_member("name", self.tools[i].name.as_str()),
                ("stop".to_string(), JsonValue::Bool(true)),
                text_member("toolUseId", self.tools[i].id.as_str()),
            );
            proof {
                lemma_stops_fit(s0, (i + 1) as nat, s0.tools.len());
                lemma_all_fit(before.1, step.1);
                lemma_appended(f0, before.1, step.1);
                assert(payload@ == payload_of(e));
                assert(step.1.last() == e);
                lemma_kinds_fit(e);
            }
            let frame = eventstream::json_frame(event::TOOL_USE, &payload);
            self.emit(out, frame, Ghost(e));
            i += 1;
        }
    }

    /// Report the usage, where it is known.
    fn tell_usage(&mut self, out: &mut Vec<Vec<u8>>)
        requires
            all_fit(report_usage(old(self)@).1),
        ensures
            final(self)@ == report_usage(old(self)@).0,
            frame_seq(final(out)@) == frame_seq(old(out)@) + frames_of(report_usage(old(self)@).1),
    {
        let ghost s0 = self@;
        match self.usage {
            Some(usage) => {
                let ghost e = Event::Usage {
                    prompt: usage.prompt_tokens,
                    completion: usage.completion_tokens,
                };
                let payload = object2(
                    number_member("inputTokens", usage.prompt_tokens),
                    number_member("outputTokens", usage.completion_tokens),
                );
                proof {
                    assert(payload@ == payload_of(e));
                    assert(send(s0, e).1.last() == e);
                    lemma_kinds_fit(e);
                }
                let frame = eventstream::json_frame(event::USAGE, &payload);
                self.emit(out, frame, Ghost(e));
            },
            None => {
                assert(frame_seq(out@) + frames_of(seq![]) =~= frame_seq(out@));
            },
        }
    }

    /// Close the stream. Must be called exactly once, at end of the upstream byte stream.
    pub fn finish(&mut self) -> (out: Vec<Vec<u8>>)
        requires
            all_fit(on_end(old(self)@).1),
        ensures
            final(self)@ == on_end(old(self)@).0,
            frame_seq(out@) == frames_of(on_end(old(self)@).1),
    {
        let ghost s0 = self@;
        let mut out: Vec<Vec<u8>> = Vec::new();
        let ghost a = drained(s0);
        let ghost t = if a.0.called {
            close_tools(a.0, a.0.tools.len())
        } else {
            (a.0, seq![])
        };
        let ghost u = report_usage(t.0);
        let ghost e = Event::Stop;
        let ghost z = send(u.0, e);
        let ghost none = frame_seq(out@);
        proof {
            assert(none =~= seq![]);
            assert(a.1 + seq![] =~= a.1);
            assert(on_end(s0).1 == a.1 + t.1 + u.1 + z.1);
            lemma_all_fit(a.1 + t.1 + u.1, z.1);
            lemma_all_fit(a.1 + t.1, u.1);
            lemma_all_fit(a.1, t.1);
            lemma_appended(none, a.1, t.1);
            lemma_appended(none, a.1 + t.1, u.1);
            lemma_appended(none, a.1 + t.1 + u.1, z.1);
        }
        self.drain(&mut out);
        if self.has_tool_calls {
            self.stop_tools(&mut out);
        } else {
            assert(none + frames_of(a.1) + frames_of(seq![]) =~= none + frames_of(a.1));
        }
        self.tell_usage(&mut out);
        let nothing: Vec<(String, JsonValue)> = Vec::new();
        let payload = JsonValue::Object(nothing);
        proof {
            assert(members_view(nothing, 0) =~= seq![]);
            assert(payload@ == payload_of(e));
            assert(z.1.last() == e);
            lemma_kinds_fit(e);
        }
        let stop = eventstream::json_frame(event::MESSAGE_STOP, &payload);
        self.emit(&mut out, stop, Ghost(e));
        assert(none + frames_of(on_end(s0).1) =~= frames_of(on_end(s0).1));
        out
    }

    /// Whether the upstream signalled `finish_reason` before the stream ended.
    pub fn saw_finish(&self) -> (b: bool)
        ensures
            b == self@.finished,
    {
        self.finished
    }
}

/// Where all the deltas fit, the first ones do.
proof fn lemma_tool_calls_fit(s: Session, tcs: Seq<openai::ToolCallDelta>, i: nat, n: nat)
    requires
        i <= n,
        all_fit(on_tool_calls(s, tcs, n).1),
    ensures
        all_fit(on_tool_calls(s, tcs, i).1),
    decreases n,
{
    if i < n {
        let a = on_tool_calls(s, tcs, (n - 1) as nat);
        lemma_all_fit(a.1, on_tool_call(a.0, tcs[n - 1]).1);
        lemma_tool_calls_fit(s, tcs, i, (n - 1) as nat);
    }
}

/// Where all the closing frames fit, the first ones do.
proof fn lemma_stops_fit(s: Session, i: nat, n: nat)
    requires
        i <= n,
        all_fit(close_tools(s, n).1),
    ensures
        all_fit(close_tools(s, i).1),
    decreases n,
{
    if i < n {
        let a = close_tools(s, (n - 1) as nat);
        let k = s.tools[n - 1];
        lemma_all_fit(a.1, send(a.0, Event::ToolStop { name: k.name, id: k.id }).1);
        lemma_stops_fit(s, i, (n - 1) as nat);
    }
}

/// Where all the choices fit, the first ones do.
proof fn lemma_choices_fit(s: Session, choices: Seq<openai::Choice>, i: nat, n: nat)
    requires
        i <= n,
        all_fit(on_choices(s, choices, n).1),
    ensures
        all_fit(on_choices(s, choices, i).1),
    decreases n,
{
    if i < n {
        let a = on_choices(s, choices, (n - 1) as nat);
        lemma_all_fit(a.1, on_choice(a.0, choices[n - 1]).1);
        lemma_choices_fit(s, choices, i, (n - 1) as nat);
    }
}

} // verus!
