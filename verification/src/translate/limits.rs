//! Chunks that a machine can hold give rise to frames that it can hold.

use vstd::prelude::*;
use vstd::string::*;
use vstd::utf8::encode_utf8;

use crate::eventstream::payload_fits;
use crate::json::{compact, compact_members, escaped, escaped_char, quoted, Json};
use crate::text::decimal;
use crate::translate::response::{
    all_fit, chain, close_tools, drained, fresh, informed, known, noted, on_arguments, on_choice,
    on_choices, on_chunk, on_content, on_end, on_name, on_reasoning, on_tool_call, on_tool_calls,
    payload_of, place, report_usage, send, send_answer, send_reasoning, Event, Known, Moved,
    Session,
};
use crate::translate::response::{arguments_in, name_in};
use crate::translate::thinking;
use crate::types::openai;
use crate::utf8::lemma_utf8_len;

verus! {

// ── Sizes ────────────────────────────────────────────────────────────────────

/// The length of a text that a frame can carry with room to spare.
pub open spec fn limit() -> int {
    isize::MAX as int / 100
}

/// A text that a frame can carry.
pub open spec fn small(s: Seq<char>) -> bool {
    s.len() <= limit()
}

/// A text that a frame can carry, by its bytes.
pub open spec fn light(s: Seq<char>) -> bool {
    encode_utf8(s).len() <= limit()
}

/// An optional text that a frame can carry, by its bytes.
pub open spec fn small_option(o: Option<String>) -> bool {
    o is Some ==> light(o->0@)
}

/// A delta of a tool call whose texts frames can carry.
pub open spec fn small_delta(tc: openai::ToolCallDelta) -> bool {
    &&& small_option(tc.id)
    &&& tc.function is Some ==> small_option(tc.function->0.name) && small_option(
        tc.function->0.arguments,
    )
}

/// A choice whose texts frames can carry.
pub open spec fn small_choice(choice: openai::Choice) -> bool {
    &&& small_option(choice.delta.content)
    &&& small_option(choice.delta.reasoning_content)
    &&& forall|i: int|
        0 <= i < choice.delta.tool_calls@.len() ==> small_delta(
            #[trigger] choice.delta.tool_calls@[i],
        )
}

/// A chunk whose texts frames can carry.
pub open spec fn small_chunk(chunk: openai::StreamChunk) -> bool {
    &&& small_option(chunk.model)
    &&& forall|i: int|
        0 <= i < chunk.choices@.len() ==> small_choice(#[trigger] chunk.choices@[i])
}

/// A call whose texts a frame can carry.
pub open spec fn small_known(k: Known) -> bool {
    small(k.id) && small(k.name)
}

/// A stream that keeps nothing but what frames can carry.
pub open spec fn small_session(s: Session) -> bool {
    &&& small(s.model)
    &&& small(s.conversation)
    &&& forall|i: int| 0 <= i < s.tools.len() ==> small_known(#[trigger] s.tools[i])
    &&& s.held.len() <= 10
}

/// A text that is at most a little longer than a small one.
spec fn smallish(s: Seq<char>) -> bool {
    s.len() <= limit() + 10
}

/// An event whose texts a frame can carry.
spec fn small_event(e: Event) -> bool {
    match e {
        Event::Initial { conversation } => smallish(conversation),
        Event::Reasoning { text, model } => smallish(text) && smallish(model),
        Event::Answer { text, model } => smallish(text) && smallish(model),
        Event::ToolStart { name, id } => smallish(name) && smallish(id),
        Event::ToolInput { input, name, id } => smallish(input) && smallish(name) && smallish(id),
        Event::ToolStop { name, id } => smallish(name) && smallish(id),
        Event::Usage { .. } => true,
        Event::Stop => true,
    }
}

/// A move that leaves the stream small and sends small events.
spec fn small_move(m: Moved) -> bool {
    small_session(m.0) && forall|i: int| 0 <= i < m.1.len() ==> small_event(#[trigger] m.1[i])
}

proof fn lemma_escaped_len(s: Seq<char>)
    ensures
        escaped(s).len() <= 6 * s.len(),
    decreases s.len(),
{
    if s.len() > 0 {
        lemma_escaped_len(s.drop_last());
        assert(escaped_char(s.last()).len() <= 6);
    }
}

proof fn lemma_decimal_len(n: nat, places: nat)
    requires
        places > 0,
        n < pow10(places),
    ensures
        decimal(n).len() <= places,
    decreases places,
{
    reveal_with_fuel(pow10, 2);
    if n >= 10 {
        assert(places > 1);
        lemma_decimal_len(n / 10, (places - 1) as nat);
    }
}

/// A power of ten.
spec fn pow10(n: nat) -> nat
    decreases n,
{
    if n == 0 {
        1
    } else {
        10 * pow10((n - 1) as nat)
    }
}

/// The length of one member of an object.
proof fn lemma_member_len(name: Seq<char>, v: Json, m: int)
    requires
        name.len() <= 20,
        match v {
            Json::Text(t) => t.len() <= m,
            Json::Number(t) => t.len() <= 20,
            Json::Bool(_) => true,
            _ => false,
        },
        m >= 0,
    ensures
        quoted(name).len() + 1 + compact(v).len() <= 6 * m + 200,
{
    lemma_escaped_len(name);
    if let Json::Text(t) = v {
        lemma_escaped_len(t);
    }
}

/// The length of an object with up to three members.
proof fn lemma_object_len(members: Seq<(Seq<char>, Json)>, m: int)
    requires
        members.len() <= 3,
        m >= 0,
        forall|i: int|
            0 <= i < members.len() ==> (#[trigger] members[i]).0.len() <= 20 && match members[i].1 {
                Json::Text(t) => t.len() <= m,
                Json::Number(t) => t.len() <= 20,
                Json::Bool(_) => true,
                _ => false,
            },
    ensures
        compact(Json::Object(members)).len() <= 18 * m + 700,
{
    reveal_with_fuel(compact_members, 4);
    let n = members.len();
    if n > 0 {
        lemma_member_len(members[0].0, members[0].1, m);
    }
    if n > 1 {
        lemma_member_len(members[1].0, members[1].1, m);
    }
    if n > 2 {
        lemma_member_len(members[2].0, members[2].1, m);
    }
    assert(compact_members(members, 0).len() == 0);
    if n > 0 {
        assert(compact_members(members, 1).len() <= 6 * m + 201);
    }
    if n > 1 {
        assert(compact_members(members, 2).len() <= 12 * m + 402);
    }
    if n > 2 {
        assert(compact_members(members, 3).len() <= 18 * m + 603);
    }
}

/// A small event fits a frame.
proof fn lemma_small_event_fits(e: Event)
    requires
        small_event(e),
    ensures
        payload_fits(encode_utf8(compact(payload_of(e)))),
{
    reveal_strlit("conversationId");
    reveal_strlit("content");
    reveal_strlit("modelId");
    reveal_strlit("name");
    reveal_strlit("toolUseId");
    reveal_strlit("input");
    reveal_strlit("stop");
    reveal_strlit("inputTokens");
    reveal_strlit("outputTokens");
    if let Event::Usage { prompt, completion } = e {
        assert(pow10(20) > u64::MAX) by {
            reveal_with_fuel(pow10, 21);
        }
        lemma_decimal_len(prompt as nat, 20);
        lemma_decimal_len(completion as nat, 20);
    }
    let p = payload_of(e);
    lemma_object_len(p->Object_0, limit() + 10);
    lemma_utf8_len(compact(p));
}

/// Small events fit.
proof fn lemma_small_events_fit(events: Seq<Event>)
    requires
        forall|i: int| 0 <= i < events.len() ==> small_event(#[trigger] events[i]),
    ensures
        all_fit(events),
{
    assert forall|i: int| 0 <= i < events.len() implies payload_fits(
        encode_utf8(compact(payload_of(#[trigger] events[i]))),
    ) by {
        lemma_small_event_fits(events[i]);
    }
}

// ── Moves ────────────────────────────────────────────────────────────────────

proof fn lemma_small_chain(a: Moved, b: Moved)
    requires
        small_move(a),
        small_move(b),
    ensures
        small_move(chain(a, b)),
{
    let c = a.1 + b.1;
    assert forall|i: int| 0 <= i < c.len() implies small_event(#[trigger] c[i]) by {
        if i < a.1.len() {
            assert(c[i] == a.1[i]);
        } else {
            assert(c[i] == b.1[i - a.1.len()]);
        }
    }
}

proof fn lemma_small_send(s: Session, e: Event)
    requires
        small_session(s),
        small_event(e),
    ensures
        small_move(send(s, e)),
{
}

proof fn lemma_small_known(tools: Seq<Known>, index: usize)
    requires
        forall|i: int| 0 <= i < tools.len() ==> small_known(#[trigger] tools[i]),
    ensures
        small_known(known(tools, index)),
    decreases tools.len(),
{
    if tools.len() > 0 && tools[0].index != index {
        lemma_small_known(tools.skip(1), index);
    }
}

proof fn lemma_small_place(tools: Seq<Known>, k: Known)
    requires
        forall|i: int| 0 <= i < tools.len() ==> small_known(#[trigger] tools[i]),
        small_known(k),
    ensures
        forall|i: int|
            0 <= i < place(tools, k).len() ==> small_known(#[trigger] place(tools, k)[i]),
    decreases tools.len(),
{
    let p = place(tools, k);
    if tools.len() > 0 && k.index > tools[0].index {
        let rest = tools.skip(1);
        assert forall|i: int| 0 <= i < rest.len() implies small_known(#[trigger] rest[i]) by {
            assert(small_known(tools[i + 1]));
        }
        lemma_small_place(rest, k);
        assert forall|i: int| 0 <= i < p.len() implies small_known(#[trigger] p[i]) by {
            if i > 0 {
                assert(p[i] == place(rest, k)[i - 1]);
            }
        }
    } else {
        let same_index = tools.len() > 0 && k.index == tools[0].index;
        assert forall|i: int| 0 <= i < p.len() implies small_known(#[trigger] p[i]) by {
            if i > 0 {
                if same_index {
                    assert(p[i] == tools[i]);
                } else {
                    assert(p[i] == tools[i - 1]);
                }
            }
        }
    }
}

proof fn lemma_small_tool_call(s: Session, tc: openai::ToolCallDelta)
    requires
        small_session(s),
        small_delta(tc),
    ensures
        small_move(on_tool_call(s, tc)),
{
    let k = known(s.tools, tc.index);
    lemma_small_known(s.tools, tc.index);
    if let Some(id) = tc.id {
        lemma_utf8_len(id@);
        lemma_small_place(
            s.tools,
            Known {
                id: if k.id.len() == 0 {
                    id@
                } else {
                    k.id
                },
                ..k
            },
        );
    }
    let s1 = noted(s, tc);
    assert(small_session(s1));
    let k1 = known(s1.tools, tc.index);
    lemma_small_known(s1.tools, tc.index);
    let a = on_name(s1, tc);
    lemma_utf8_len(arguments_in(tc));
    if let Some(name) = name_in(tc) {
        lemma_utf8_len(name);
        let placed = Known { name, ..k1 };
        lemma_small_place(s1.tools, placed);
        lemma_small_send(
            Session { tools: place(s1.tools, placed), ..s1 },
            Event::ToolStart { name, id: k1.id },
        );
    }
    assert(small_move(a));
    let k2 = known(a.0.tools, tc.index);
    lemma_small_known(a.0.tools, tc.index);
    let b = on_arguments(a.0, tc);
    lemma_small_send(
        a.0,
        Event::ToolInput { input: arguments_in(tc), name: k2.name, id: k2.id },
    );
    lemma_small_chain(a, b);
}

proof fn lemma_small_tool_calls(s: Session, tcs: Seq<openai::ToolCallDelta>, n: nat)
    requires
        small_session(s),
        n <= tcs.len(),
        forall|i: int| 0 <= i < tcs.len() ==> small_delta(#[trigger] tcs[i]),
    ensures
        small_move(on_tool_calls(s, tcs, n)),
    decreases n,
{
    if n > 0 {
        let a = on_tool_calls(s, tcs, (n - 1) as nat);
        lemma_small_tool_calls(s, tcs, (n - 1) as nat);
        lemma_small_tool_call(a.0, tcs[n - 1]);
        lemma_small_chain(a, on_tool_call(a.0, tcs[n - 1]));
    }
}

/// Reasoning and answer, one after the other.
proof fn lemma_small_both(s: Session, reasoning: Seq<char>, text: Seq<char>)
    requires
        small_session(s),
        smallish(reasoning),
        smallish(text),
    ensures
        ({
            let a = send_reasoning(s, reasoning);
            small_move(a) && small_move(chain(a, send_answer(a.0, text)))
        }),
{
    let a = send_reasoning(s, reasoning);
    lemma_small_send(s, Event::Reasoning { text: reasoning, model: s.model });
    let b = send_answer(a.0, text);
    lemma_small_send(a.0, Event::Answer { text, model: a.0.model });
    lemma_small_chain(a, b);
}

proof fn lemma_small_choice(s: Session, choice: openai::Choice)
    requires
        small_session(s),
        small_choice(choice),
    ensures
        small_move(on_choice(s, choice)),
{
    let tcs = choice.delta.tool_calls@;
    let a = on_tool_calls(s, tcs, tcs.len());
    lemma_small_tool_calls(s, tcs, tcs.len());
    let r = on_reasoning(a.0, choice.delta.reasoning_content);
    if let Some(t) = choice.delta.reasoning_content {
        lemma_utf8_len(t@);
        lemma_small_both(a.0, t@, seq![]);
    }
    let ar = chain(a, r);
    lemma_small_chain(a, r);
    let c = on_content(ar.0, choice.delta.content);
    if let Some(t) = choice.delta.content {
        lemma_utf8_len(t@);
        let split = thinking::scan(ar.0.held + t@, ar.0.block);
        thinking::law_splitting_makes_nothing_up(ar.0.held + t@, ar.0.block);
        lemma_small_both(
            Session { held: split.pending, block: split.close, ..ar.0 },
            split.reasoning,
            split.text,
        );
    }
    lemma_small_chain(ar, c);
    assert(small_move(chain(ar, c)));
}

proof fn lemma_small_choices(s: Session, choices: Seq<openai::Choice>, n: nat)
    requires
        small_session(s),
        n <= choices.len(),
        forall|i: int| 0 <= i < choices.len() ==> small_choice(#[trigger] choices[i]),
    ensures
        small_move(on_choices(s, choices, n)),
    decreases n,
{
    if n > 0 {
        let a = on_choices(s, choices, (n - 1) as nat);
        lemma_small_choices(s, choices, (n - 1) as nat);
        lemma_small_choice(a.0, choices[n - 1]);
        lemma_small_chain(a, on_choice(a.0, choices[n - 1]));
    }
}

proof fn lemma_small_close_tools(s: Session, n: nat)
    requires
        small_session(s),
        n <= s.tools.len(),
    ensures
        small_move(close_tools(s, n)),
    decreases n,
{
    if n > 0 {
        let a = close_tools(s, (n - 1) as nat);
        let k = s.tools[n - 1];
        lemma_small_close_tools(s, (n - 1) as nat);
        assert(small_known(k));
        let e = Event::ToolStop { name: k.name, id: k.id };
        lemma_small_send(a.0, e);
        lemma_small_chain(a, send(a.0, e));
    }
}

// ── Laws ─────────────────────────────────────────────────────────────────────

/// A stream starts small where the texts that it is given are.
pub proof fn law_fresh_streams_are_small(model: Seq<char>, conversation: Seq<char>)
    requires
        light(model),
        light(conversation),
    ensures
        small_session(fresh(model, conversation)),
{
    lemma_utf8_len(model);
    lemma_utf8_len(conversation);
}

/// A small chunk fits a small stream, which stays small.
pub proof fn law_small_chunks_fit(s: Session, chunk: openai::StreamChunk)
    requires
        small_session(s),
        small_chunk(chunk),
    ensures
        all_fit(on_chunk(s, chunk).1),
        small_session(on_chunk(s, chunk).0),
{
    if let Some(m) = chunk.model {
        lemma_utf8_len(m@);
    }
    lemma_small_choices(informed(s, chunk), chunk.choices@, chunk.choices@.len());
    lemma_small_events_fit(on_chunk(s, chunk).1);
}

/// The end of a small stream fits.
pub proof fn law_small_streams_end(s: Session)
    requires
        small_session(s),
    ensures
        all_fit(on_end(s).1),
{
    let tail = thinking::flushed(s.held, s.block);
    let a = drained(s);
    lemma_small_both(Session { held: seq![], block: None, ..s }, tail.0, tail.1);
    let b = if a.0.called {
        chain(a, close_tools(a.0, a.0.tools.len()))
    } else {
        a
    };
    lemma_small_close_tools(a.0, a.0.tools.len());
    lemma_small_chain(a, close_tools(a.0, a.0.tools.len()));
    let u = report_usage(b.0);
    if let Some((prompt, completion)) = b.0.usage {
        lemma_small_send(b.0, Event::Usage { prompt, completion });
    }
    let c = chain(b, u);
    lemma_small_chain(b, u);
    lemma_small_send(c.0, Event::Stop);
    lemma_small_chain(c, send(c.0, Event::Stop));
    lemma_small_events_fit(on_end(s).1);
}

// ── Checks ───────────────────────────────────────────────────────────────────

/// Whether a text is short enough, by its bytes.
pub fn is_small(s: &str) -> (b: bool)
    ensures
        b == light(s@),
        b ==> small(s@),
{
    proof {
        lemma_utf8_len(s@);
    }
    s.as_bytes().len() <= (isize::MAX as usize) / 100
}

/// Whether an optional text is short enough.
fn is_small_option(o: &Option<String>) -> (b: bool)
    ensures
        b == small_option(*o),
{
    match o {
        Some(s) => is_small(s.as_str()),
        None => true,
    }
}

/// Whether the texts of a choice are short enough.
fn is_small_choice(choice: &openai::Choice) -> (b: bool)
    ensures
        b == small_choice(*choice),
{
    if !is_small_option(&choice.delta.content) || !is_small_option(
        &choice.delta.reasoning_content,
    ) {
        return false;
    }
    let mut i: usize = 0;
    while i < choice.delta.tool_calls.len()
        invariant
            i <= choice.delta.tool_calls@.len(),
            forall|j: int| 0 <= j < i ==> small_delta(#[trigger] choice.delta.tool_calls@[j]),
        decreases choice.delta.tool_calls@.len() - i,
    {
        let tc = &choice.delta.tool_calls[i];
        if !is_small_option(&tc.id) {
            return false;
        }
        match &tc.function {
            Some(f) => {
                if !is_small_option(&f.name) || !is_small_option(&f.arguments) {
                    return false;
                }
            },
            None => {},
        }
        assert(small_delta(choice.delta.tool_calls@[i as int]));
        i += 1;
    }
    true
}

/// Whether the texts of a chunk are short enough for the frames that carry them. They are, but on a
/// machine whose memory could hold more.
pub fn is_small_chunk(chunk: &openai::StreamChunk) -> (b: bool)
    ensures
        b == small_chunk(*chunk),
{
    if !is_small_option(&chunk.model) {
        return false;
    }
    let mut i: usize = 0;
    while i < chunk.choices.len()
        invariant
            i <= chunk.choices@.len(),
            forall|j: int| 0 <= j < i ==> small_choice(#[trigger] chunk.choices@[j]),
        decreases chunk.choices@.len() - i,
    {
        if !is_small_choice(&chunk.choices[i]) {
            return false;
        }
        i += 1;
    }
    true
}

/// A text is small by its bytes, and a chunk where all of its texts are.
pub proof fn law_small_is_by_the_byte(s: &str, b: bool, chunk: &openai::StreamChunk, c: bool)
    requires
        call_ensures(is_small, (s,), b),
        call_ensures(is_small_chunk, (chunk,), c),
    ensures
        b <==> encode_utf8(s@).len() <= isize::MAX as int / 100,
        c ==> chunk.model is Some ==> encode_utf8(chunk.model->0@).len() <= isize::MAX as int / 100,
        c ==> forall|i: int|
            0 <= i < chunk.choices@.len() ==> small_choice(#[trigger] chunk.choices@[i]),
        !c ==> !small_option(chunk.model) || exists|i: int|
            0 <= i < chunk.choices@.len() && !small_choice(#[trigger] chunk.choices@[i]),
{
}

} // verus!
