//! What holds of every translated stream, from its first frame to its last.

use vstd::prelude::*;
use vstd::string::*;
use vstd::utf8::encode_utf8;

use crate::eventstream::laws::{
    law_event_headers_name_the_event, law_frames_decode_in_order, length_fits, on_the_wire,
    well_formed_headers,
};
use crate::eventstream::testing::{announced_type, stream_frames, HeaderSeq};
use crate::eventstream::{block, envelope, event_headers, AMZ_JSON_1_0, JSON};
use crate::json::compact;
use crate::translate::response::{
    arguments_in, chain, close_tools, drained, frame_of, frames_of, fresh, informed, kind_of, known,
    name_in, noted, on_arguments, on_choice, on_choices, on_chunk, on_content, on_end, on_name,
    on_reasoning, on_tool_call, on_tool_calls, payload_of, place, report_usage, send, send_answer,
    send_reasoning, sorted, Event, Known, Moved, Session,
};
use crate::translate::thinking;
use crate::types::openai;
use crate::utf8::lemma_utf8_len;

verus! {

// ── Whole streams ────────────────────────────────────────────────────────────

/// A stream that was fed the first `n` chunks.
pub open spec fn fed(s: Session, chunks: Seq<openai::StreamChunk>, n: nat) -> Moved
    decreases n,
{
    if n == 0 {
        (s, seq![])
    } else {
        let a = fed(s, chunks, (n - 1) as nat);
        chain(a, on_chunk(a.0, chunks[n - 1]))
    }
}

/// Everything that a stream sends: what its chunks give rise to, and its end.
pub open spec fn stream_events(s: Session, chunks: Seq<openai::StreamChunk>) -> Seq<Event> {
    let a = fed(s, chunks, chunks.len());
    chain(a, on_end(a.0)).1
}

/// The usage that was reported last among the first `n` chunks.
pub open spec fn last_usage(chunks: Seq<openai::StreamChunk>, n: nat) -> Option<(u64, u64)>
    decreases n,
{
    if n == 0 {
        None
    } else {
        match chunks[n - 1].usage {
            Some(u) => Some((u.prompt_tokens, u.completion_tokens)),
            None => last_usage(chunks, (n - 1) as nat),
        }
    }
}

/// The stretches of the answer, one directly after another.
pub open spec fn answers(events: Seq<Event>) -> Seq<char>
    decreases events.len(),
{
    if events.len() == 0 {
        seq![]
    } else {
        answers(events.drop_last()) + match events.last() {
            Event::Answer { text, .. } => text,
            _ => seq![],
        }
    }
}

/// The stretches of reasoning, one directly after another.
pub open spec fn thoughts(events: Seq<Event>) -> Seq<char>
    decreases events.len(),
{
    if events.len() == 0 {
        seq![]
    } else {
        thoughts(events.drop_last()) + match events.last() {
            Event::Reasoning { text, .. } => text,
            _ => seq![],
        }
    }
}

/// The deltas of content among the first `n` choices.
pub open spec fn choice_contents(choices: Seq<openai::Choice>, n: nat) -> Seq<Seq<char>>
    decreases n,
{
    if n == 0 {
        seq![]
    } else {
        let before = choice_contents(choices, (n - 1) as nat);
        match choices[n - 1].delta.content {
            Some(t) => before.push(t@),
            None => before,
        }
    }
}

/// The deltas of content among the first `n` chunks.
pub open spec fn contents(chunks: Seq<openai::StreamChunk>, n: nat) -> Seq<Seq<char>>
    decreases n,
{
    if n == 0 {
        seq![]
    } else {
        contents(chunks, (n - 1) as nat) + choice_contents(
            chunks[n - 1].choices@,
            chunks[n - 1].choices@.len(),
        )
    }
}

/// No choice among the first `n` chunks brings reasoning of its own.
pub open spec fn no_native_reasoning(chunks: Seq<openai::StreamChunk>, n: nat) -> bool {
    forall|i: int, j: int|
        0 <= i < n && 0 <= j < chunks[i].choices@.len() ==> (
        #[trigger] chunks[i].choices@[j]).delta.reasoning_content is None
}

// ── Moves ────────────────────────────────────────────────────────────────────

/// An event that may come before the end of a stream.
spec fn early(e: Event) -> bool {
    !(e is Initial) && !(e is Stop) && !(e is ToolStop) && !(e is Usage)
}

/// An event of a stream that is open.
spec fn later(e: Event) -> bool {
    !(e is Initial) && !(e is Stop)
}

/// The opening comes first and only where the stream was not open.
spec fn opening_first(s: Session, m: Moved) -> bool {
    &&& m.0.conversation == s.conversation
    &&& s.opened ==> m.0.opened && forall|i: int| 0 <= i < m.1.len() ==> later(#[trigger] m.1[i])
    &&& !s.opened ==> {
        &&& m.0.opened == (m.1.len() > 0)
        &&& m.1.len() > 0 ==> m.1[0] == (Event::Initial { conversation: s.conversation })
        &&& forall|i: int| 0 < i < m.1.len() ==> later(#[trigger] m.1[i])
    }
}

/// What every move before the end of a stream keeps.
spec fn sound(s: Session, m: Moved) -> bool {
    &&& opening_first(s, m)
    &&& m.0.usage == s.usage
    &&& forall|i: int| 0 <= i < m.1.len() ==> early(#[trigger] m.1[i]) || m.1[i] is Initial
}

/// What a move that concerns no content keeps.
spec fn quiet(s: Session, m: Moved) -> bool {
    &&& m.0.held == s.held
    &&& m.0.block == s.block
    &&& answers(m.1) == Seq::<char>::empty()
}

proof fn lemma_opening_chain(s: Session, a: Moved, b: Moved)
    requires
        opening_first(s, a),
        opening_first(a.0, b),
    ensures
        opening_first(s, chain(a, b)),
{
    let c = a.1 + b.1;
    assert forall|i: int| 0 <= i < c.len() && (s.opened || i > 0) implies later(#[trigger] c[i]) by {
        if i < a.1.len() {
            assert(c[i] == a.1[i]);
        } else {
            assert(c[i] == b.1[i - a.1.len()]);
        }
    }
}

proof fn lemma_sound_chain(s: Session, a: Moved, b: Moved)
    requires
        sound(s, a),
        sound(a.0, b),
    ensures
        sound(s, chain(a, b)),
{
    lemma_opening_chain(s, a, b);
    let c = a.1 + b.1;
    assert forall|i: int| 0 <= i < c.len() implies early(#[trigger] c[i]) || c[i] is Initial by {
        if i < a.1.len() {
            assert(c[i] == a.1[i]);
        } else {
            assert(c[i] == b.1[i - a.1.len()]);
        }
    }
}

proof fn lemma_answers_concat(a: Seq<Event>, b: Seq<Event>)
    ensures
        answers(a + b) == answers(a) + answers(b),
    decreases b.len(),
{
    if b.len() == 0 {
        assert(a + b =~= a);
        assert(answers(a) + answers(b) =~= answers(a));
    } else {
        assert((a + b).drop_last() =~= a + b.drop_last());
        lemma_answers_concat(a, b.drop_last());
        assert(answers(a + b) =~= answers(a) + answers(b));
    }
}

proof fn lemma_thoughts_concat(a: Seq<Event>, b: Seq<Event>)
    ensures
        thoughts(a + b) == thoughts(a) + thoughts(b),
    decreases b.len(),
{
    if b.len() == 0 {
        assert(a + b =~= a);
        assert(thoughts(a) + thoughts(b) =~= thoughts(a));
    } else {
        assert((a + b).drop_last() =~= a + b.drop_last());
        lemma_thoughts_concat(a, b.drop_last());
        assert(thoughts(a + b) =~= thoughts(a) + thoughts(b));
    }
}

/// What one event adds to the texts.
proof fn lemma_send(s: Session, e: Event)
    requires
        !(e is Initial),
    ensures
        !(e is Stop) ==> opening_first(s, send(s, e)),
        early(e) ==> sound(s, send(s, e)),
        answers(send(s, e).1) == match e {
            Event::Answer { text, .. } => text,
            _ => seq![],
        },
        thoughts(send(s, e).1) == match e {
            Event::Reasoning { text, .. } => text,
            _ => seq![],
        },
        send(s, e).1.last() == e,
        send(s, e).1.len() > 0,
        send(s, e).0.opened,
{
    reveal_with_fuel(answers, 3);
    reveal_with_fuel(thoughts, 3);
    let m = send(s, e).1;
    let nothing: Seq<char> = seq![];
    if s.opened {
        assert(m.drop_last() =~= seq![]);
        assert(answers(m) =~= match e {
            Event::Answer { text, .. } => text,
            _ => seq![],
        });
        assert(thoughts(m) =~= match e {
            Event::Reasoning { text, .. } => text,
            _ => seq![],
        });
    } else {
        assert(m.drop_last() =~= seq![Event::Initial { conversation: s.conversation }]);
        assert(m.drop_last().drop_last() =~= seq![]);
        assert(answers(m) =~= match e {
            Event::Answer { text, .. } => text,
            _ => seq![],
        });
        assert(thoughts(m) =~= match e {
            Event::Reasoning { text, .. } => text,
            _ => seq![],
        });
    }
}

/// Entering a call keeps the calls in order.
pub proof fn law_place_keeps_order(tools: Seq<Known>, k: Known)
    requires
        sorted(tools),
    ensures
        sorted(place(tools, k)),
        forall|i: int|
            0 <= i < place(tools, k).len() ==> (#[trigger] place(tools, k)[i]) == k || exists|j: int|
                0 <= j < tools.len() && tools[j] == place(tools, k)[i],
        known(place(tools, k), k.index) == k,
    decreases tools.len(),
{
    let p = place(tools, k);
    if tools.len() == 0 || k.index < tools[0].index {
        assert forall|a: int, b: int| 0 <= a < b < p.len() implies (#[trigger] p[a]).index < (
        #[trigger] p[b]).index by {
            if a > 0 {
                assert(tools[a - 1].index < tools[b - 1].index);
            } else if b > 1 {
                assert(tools[0].index < tools[b - 1].index);
            }
        }
        assert forall|i: int| 0 <= i < p.len() implies (#[trigger] p[i]) == k || exists|j: int|
            0 <= j < tools.len() && tools[j] == p[i] by {
            if i > 0 {
                assert(tools[i - 1] == p[i]);
            }
        }
    } else if k.index == tools[0].index {
        assert forall|a: int, b: int| 0 <= a < b < p.len() implies (#[trigger] p[a]).index < (
        #[trigger] p[b]).index by {
            assert(tools[a].index < tools[b].index);
        }
        assert forall|i: int| 0 <= i < p.len() implies (#[trigger] p[i]) == k || exists|j: int|
            0 <= j < tools.len() && tools[j] == p[i] by {
            if i > 0 {
                assert(tools[i] == p[i]);
            }
        }
    } else {
        let rest = tools.skip(1);
        assert(sorted(rest)) by {
            assert forall|a: int, b: int| 0 <= a < b < rest.len() implies (#[trigger] rest[a]).index
                < (#[trigger] rest[b]).index by {
                assert(tools[a + 1].index < tools[b + 1].index);
            }
        }
        law_place_keeps_order(rest, k);
        let q = place(rest, k);
        assert forall|i: int| 0 <= i < q.len() implies tools[0].index < (#[trigger] q[i]).index by {
            if q[i] != k {
                let j = choose|j: int| 0 <= j < rest.len() && rest[j] == q[i];
                assert(tools[0].index < tools[j + 1].index);
            }
        }
        assert forall|a: int, b: int| 0 <= a < b < p.len() implies (#[trigger] p[a]).index < (
        #[trigger] p[b]).index by {
            if a > 0 {
                assert(q[a - 1].index < q[b - 1].index);
            } else {
                assert(tools[0].index < q[b - 1].index);
            }
        }
        assert forall|i: int| 0 <= i < p.len() implies (#[trigger] p[i]) == k || exists|j: int|
            0 <= j < tools.len() && tools[j] == p[i] by {
            if i == 0 {
                assert(tools[0] == p[0]);
            } else {
                assert(p[i] == q[i - 1]);
                if q[i - 1] != k {
                    let j = choose|j: int| 0 <= j < rest.len() && rest[j] == q[i - 1];
                    assert(tools[j + 1] == p[i]);
                }
            }
        }
        assert(p.skip(1) =~= q);
    }
}

proof fn lemma_nothing(s: Session)
    ensures
        sound(s, (s, seq![])),
        quiet(s, (s, seq![])),
        thoughts(seq![]) == Seq::<char>::empty(),
{
}

proof fn lemma_tool_call(s: Session, tc: openai::ToolCallDelta)
    ensures
        sound(s, on_tool_call(s, tc)),
        quiet(s, on_tool_call(s, tc)),
        thoughts(on_tool_call(s, tc).1) == Seq::<char>::empty(),
{
    let s1 = noted(s, tc);
    let a = on_name(s1, tc);
    lemma_nothing(s1);
    let k1 = known(s1.tools, tc.index);
    if let Some(name) = name_in(tc) {
        let s2 = Session { tools: place(s1.tools, Known { name, ..k1 }), ..s1 };
        lemma_send(s2, Event::ToolStart { name, id: k1.id });
    }
    assert(sound(s, a));
    let b = on_arguments(a.0, tc);
    let k2 = known(a.0.tools, tc.index);
    lemma_nothing(a.0);
    lemma_send(
        a.0,
        Event::ToolInput {
            input: arguments_in(tc),
            name: k2.name,
            id: k2.id,
        },
    );
    lemma_sound_chain(s, a, b);
    lemma_answers_concat(a.1, b.1);
    lemma_thoughts_concat(a.1, b.1);
    assert(answers(a.1 + b.1) =~= seq![]);
    assert(thoughts(a.1 + b.1) =~= seq![]);
}

proof fn lemma_tool_calls(s: Session, tcs: Seq<openai::ToolCallDelta>, n: nat)
    ensures
        sound(s, on_tool_calls(s, tcs, n)),
        quiet(s, on_tool_calls(s, tcs, n)),
        thoughts(on_tool_calls(s, tcs, n).1) == Seq::<char>::empty(),
    decreases n,
{
    lemma_nothing(s);
    if n > 0 {
        let a = on_tool_calls(s, tcs, (n - 1) as nat);
        let b = on_tool_call(a.0, tcs[n - 1]);
        lemma_tool_calls(s, tcs, (n - 1) as nat);
        lemma_tool_call(a.0, tcs[n - 1]);
        lemma_sound_chain(s, a, b);
        lemma_answers_concat(a.1, b.1);
        lemma_thoughts_concat(a.1, b.1);
        assert(answers(a.1 + b.1) =~= seq![]);
        assert(thoughts(a.1 + b.1) =~= seq![]);
    }
}

proof fn lemma_reasoning(s: Session, text: Seq<char>)
    ensures
        sound(s, send_reasoning(s, text)),
        quiet(s, send_reasoning(s, text)),
        thoughts(send_reasoning(s, text).1) == text,
{
    lemma_nothing(s);
    lemma_send(s, Event::Reasoning { text, model: s.model });
    if text.len() == 0 {
        assert(text =~= seq![]);
    }
}

proof fn lemma_answer(s: Session, text: Seq<char>)
    ensures
        sound(s, send_answer(s, text)),
        send_answer(s, text).0.held == s.held,
        send_answer(s, text).0.block == s.block,
        answers(send_answer(s, text).1) == text,
        thoughts(send_answer(s, text).1) == Seq::<char>::empty(),
{
    lemma_nothing(s);
    lemma_send(s, Event::Answer { text, model: s.model });
    if text.len() == 0 {
        assert(text =~= seq![]);
    }
}

/// What reasoning and answer, sent one after the other, come to.
proof fn lemma_both(s: Session, reasoning: Seq<char>, text: Seq<char>)
    ensures
        ({
            let a = send_reasoning(s, reasoning);
            let m = chain(a, send_answer(a.0, text));
            &&& sound(s, m)
            &&& m.0.held == s.held
            &&& m.0.block == s.block
            &&& answers(m.1) == text
            &&& thoughts(m.1) == reasoning
            &&& m.0 == (Session { opened: m.0.opened, ..s })
        }),
{
    let a = send_reasoning(s, reasoning);
    let b = send_answer(a.0, text);
    lemma_reasoning(s, reasoning);
    lemma_answer(a.0, text);
    lemma_sound_chain(s, a, b);
    lemma_answers_concat(a.1, b.1);
    lemma_thoughts_concat(a.1, b.1);
    assert(answers(a.1 + b.1) =~= text);
    assert(thoughts(a.1 + b.1) =~= reasoning);
}

/// What one choice says, whatever it brings.
pub(crate) proof fn lemma_choice_thoughts(s: Session, choice: openai::Choice)
    ensures
        ({
            let m = on_choice(s, choice);
            let own = match choice.delta.reasoning_content {
                Some(t) => t@,
                None => seq![],
            };
            match choice.delta.content {
                Some(t) => {
                    let split = thinking::scan(s.held + t@, s.block);
                    &&& m.0.held == split.pending
                    &&& m.0.block == split.close
                    &&& answers(m.1) == split.text
                    &&& thoughts(m.1) == own + split.reasoning
                },
                None => {
                    &&& m.0.held == s.held
                    &&& m.0.block == s.block
                    &&& answers(m.1) == Seq::<char>::empty()
                    &&& thoughts(m.1) == own
                },
            }
        }),
{
    lemma_choice(s, choice);
    let tcs = choice.delta.tool_calls@;
    let a = on_tool_calls(s, tcs, tcs.len());
    lemma_tool_calls(s, tcs, tcs.len());
    let r = on_reasoning(a.0, choice.delta.reasoning_content);
    lemma_nothing(a.0);
    if let Some(t) = choice.delta.reasoning_content {
        lemma_reasoning(a.0, t@);
    }
    let ar = chain(a, r);
    lemma_thoughts_concat(a.1, r.1);
    let c = on_content(ar.0, choice.delta.content);
    lemma_nothing(ar.0);
    if let Some(t) = choice.delta.content {
        let split = thinking::scan(s.held + t@, s.block);
        lemma_both(
            Session { held: split.pending, block: split.close, ..ar.0 },
            split.reasoning,
            split.text,
        );
    }
    lemma_thoughts_concat(ar.1, c.1);
    let m = on_choice(s, choice);
    let own = match choice.delta.reasoning_content {
        Some(t) => t@,
        None => seq![],
    };
    assert(m.1 == ar.1 + c.1);
    assert(thoughts(ar.1) =~= own);
    assert(choice.delta.content is None ==> thoughts(m.1) =~= own);
}

/// What one choice does to the texts.
proof fn lemma_choice(s: Session, choice: openai::Choice)
    ensures
        ({
            let m = on_choice(s, choice);
            &&& sound(s, m)
            &&& match choice.delta.content {
                Some(t) => {
                    let split = thinking::scan(s.held + t@, s.block);
                    &&& m.0.held == split.pending
                    &&& m.0.block == split.close
                    &&& answers(m.1) == split.text
                    &&& choice.delta.reasoning_content is None ==> thoughts(m.1) == split.reasoning
                },
                None => {
                    &&& quiet(s, m)
                    &&& choice.delta.reasoning_content is None ==> thoughts(m.1) == Seq::<
                        char,
                    >::empty()
                },
            }
        }),
{
    let tcs = choice.delta.tool_calls@;
    let a = on_tool_calls(s, tcs, tcs.len());
    lemma_tool_calls(s, tcs, tcs.len());
    let r = on_reasoning(a.0, choice.delta.reasoning_content);
    lemma_nothing(a.0);
    if let Some(t) = choice.delta.reasoning_content {
        lemma_reasoning(a.0, t@);
    }
    let ar = chain(a, r);
    lemma_sound_chain(s, a, r);
    lemma_answers_concat(a.1, r.1);
    lemma_thoughts_concat(a.1, r.1);
    let c = on_content(ar.0, choice.delta.content);
    lemma_nothing(ar.0);
    if let Some(t) = choice.delta.content {
        let split = thinking::scan(s.held + t@, s.block);
        let s1 = Session { held: split.pending, block: split.close, ..ar.0 };
        lemma_both(s1, split.reasoning, split.text);
        assert(sound(ar.0, c));
    }
    lemma_sound_chain(s, ar, c);
    lemma_answers_concat(ar.1, c.1);
    lemma_thoughts_concat(ar.1, c.1);
    let m = on_choice(s, choice);
    assert(m.1 == ar.1 + c.1);
    assert(answers(a.1) + answers(r.1) =~= seq![]);
    assert(answers(m.1) =~= answers(c.1));
    if choice.delta.reasoning_content is None {
        assert(thoughts(a.1) + thoughts(r.1) =~= seq![]);
        assert(thoughts(m.1) =~= thoughts(c.1));
    }
    assert(sound(s, (c.0, m.1)));
    assert(sound(s, m));
}

proof fn lemma_choices_sound(s: Session, choices: Seq<openai::Choice>, n: nat)
    ensures
        sound(s, on_choices(s, choices, n)),
    decreases n,
{
    lemma_nothing(s);
    if n > 0 {
        let a = on_choices(s, choices, (n - 1) as nat);
        lemma_choices_sound(s, choices, (n - 1) as nat);
        lemma_choice(a.0, choices[n - 1]);
        lemma_sound_chain(s, a, on_choice(a.0, choices[n - 1]));
    }
}

/// What holds of a stream before its end.
proof fn lemma_fed(s: Session, chunks: Seq<openai::StreamChunk>, n: nat)
    requires
        s.usage is None,
    ensures
        opening_first(s, fed(s, chunks, n)),
        fed(s, chunks, n).0.usage == last_usage(chunks, n),
        forall|i: int|
            0 <= i < fed(s, chunks, n).1.len() ==> early(#[trigger] fed(s, chunks, n).1[i])
                || fed(s, chunks, n).1[i] is Initial,
    decreases n,
{
    lemma_nothing(s);
    if n > 0 {
        let a = fed(s, chunks, (n - 1) as nat);
        let chunk = chunks[n - 1];
        let s1 = informed(a.0, chunk);
        let b = on_chunk(a.0, chunk);
        lemma_fed(s, chunks, (n - 1) as nat);
        lemma_choices_sound(s1, chunk.choices@, chunk.choices@.len());
        assert(opening_first(a.0, b));
        lemma_opening_chain(s, a, b);
        let c = a.1 + b.1;
        assert forall|i: int| 0 <= i < c.len() implies early(#[trigger] c[i]) || c[i] is Initial by {
            if i < a.1.len() {
                assert(c[i] == a.1[i]);
            } else {
                assert(c[i] == b.1[i - a.1.len()]);
            }
        }
    }
}

/// What closing the calls sends.
proof fn lemma_close_tools(s: Session, n: nat)
    requires
        n <= s.tools.len(),
    ensures
        opening_first(s, close_tools(s, n)),
        close_tools(s, n).0 == (Session { opened: close_tools(s, n).0.opened, ..s }),
        answers(close_tools(s, n).1) == Seq::<char>::empty(),
        thoughts(close_tools(s, n).1) == Seq::<char>::empty(),
    decreases n,
{
    lemma_nothing(s);
    if n > 0 {
        let a = close_tools(s, (n - 1) as nat);
        let k = s.tools[n - 1];
        let e = Event::ToolStop { name: k.name, id: k.id };
        let b = send(a.0, e);
        lemma_close_tools(s, (n - 1) as nat);
        lemma_send(a.0, e);
        lemma_opening_chain(s, a, b);
            lemma_answers_concat(a.1, b.1);
        lemma_thoughts_concat(a.1, b.1);
        assert(answers(a.1 + b.1) =~= seq![]);
        assert(thoughts(a.1 + b.1) =~= seq![]);
    }
}

/// The end of a stream, in its four parts.
proof fn lemma_end(s: Session)
    ensures
        ({
            let m = on_end(s);
            let tail = thinking::flushed(s.held, s.block);
            &&& m.1.len() > 0
            &&& m.1.last() is Stop
            &&& !s.opened ==> m.1.len() > 1 && m.1[0] == (Event::Initial {
                conversation: s.conversation,
            })
            &&& forall|i: int|
                0 <= i < m.1.len() - 1 && (s.opened || i > 0) ==> later(#[trigger] m.1[i])
            &&& match s.usage {
                Some((prompt, completion)) => m.1.len() > 1 && m.1[m.1.len() - 2] == (Event::Usage {
                    prompt,
                    completion,
                }),
                None => true,
            }
            &&& answers(m.1) == tail.1
            &&& thoughts(m.1) == tail.0
        }),
{
    let tail = thinking::flushed(s.held, s.block);
    let s1 = Session { held: seq![], block: None, ..s };
    let a = drained(s);
    lemma_both(s1, tail.0, tail.1);
    assert(opening_first(s, a));
    let t = if a.0.called {
        close_tools(a.0, a.0.tools.len())
    } else {
        (a.0, seq![])
    };
    lemma_nothing(a.0);
    lemma_close_tools(a.0, a.0.tools.len());
    let b = chain(a, t);
    assert(a.1 + seq![] =~= a.1);
    lemma_opening_chain(s, a, t);
    lemma_answers_concat(a.1, t.1);
    lemma_thoughts_concat(a.1, t.1);
    assert(answers(b.1) =~= tail.1);
    assert(thoughts(b.1) =~= tail.0);
    let u = report_usage(b.0);
    lemma_nothing(b.0);
    if let Some((prompt, completion)) = b.0.usage {
        lemma_send(b.0, Event::Usage { prompt, completion });
    }
    assert(opening_first(b.0, u));
    let c = chain(b, u);
    lemma_opening_chain(s, b, u);
    lemma_answers_concat(b.1, u.1);
    lemma_thoughts_concat(b.1, u.1);
    assert(answers(c.1) =~= tail.1);
    assert(thoughts(c.1) =~= tail.0);
    let z = send(c.0, Event::Stop);
    lemma_send(c.0, Event::Stop);
    lemma_answers_concat(c.1, z.1);
    lemma_thoughts_concat(c.1, z.1);
    let m = on_end(s);
    assert(m == chain(c, z));
    assert(answers(m.1) =~= tail.1);
    assert(thoughts(m.1) =~= tail.0);
    assert forall|i: int| 0 <= i < m.1.len() - 1 && (s.opened || i > 0) implies later(
        #[trigger] m.1[i],
    ) by {
        if i < c.1.len() {
            assert(m.1[i] == c.1[i]);
        }
    }
    if s.usage is Some {
        assert(c.0.opened);
        assert(u.1.last() == c.1.last());
        assert(m.1[m.1.len() - 2] == c.1.last());
    }
}

/// What the deltas of content have come to: the stream is where a splitter that was fed the same
/// deltas is, and has sent what it emitted.
spec fn in_step(s: Session, events: Seq<Event>, deltas: Seq<Seq<char>>) -> bool {
    let f = thinking::fed(deltas);
    &&& s.held == f.pending
    &&& s.block == f.close
    &&& answers(events) == f.text
}

proof fn lemma_choices_in_step(
    start: Seq<Event>,
    deltas: Seq<Seq<char>>,
    native: bool,
    s: Session,
    choices: Seq<openai::Choice>,
    n: nat,
)
    requires
        n <= choices.len(),
        in_step(s, start, deltas),
        native || thoughts(start) == thinking::fed(deltas).reasoning,
        native || forall|j: int|
            0 <= j < n ==> (#[trigger] choices[j]).delta.reasoning_content is None,
    ensures
        ({
            let m = on_choices(s, choices, n);
            let all = deltas + choice_contents(choices, n);
            &&& in_step(m.0, start + m.1, all)
            &&& native || thoughts(start + m.1) == thinking::fed(all).reasoning
        }),
    decreases n,
{
    if n == 0 {
        assert(start + seq![] =~= start);
        assert(deltas + seq![] =~= deltas);
    } else {
        lemma_choices_in_step(start, deltas, native, s, choices, (n - 1) as nat);
        let a = on_choices(s, choices, (n - 1) as nat);
        let before = deltas + choice_contents(choices, (n - 1) as nat);
        let choice = choices[n - 1];
        let b = on_choice(a.0, choice);
        lemma_choice(a.0, choice);
        assert(start + (a.1 + b.1) =~= (start + a.1) + b.1);
        lemma_answers_concat(start + a.1, b.1);
        lemma_thoughts_concat(start + a.1, b.1);
        let all = deltas + choice_contents(choices, n);
        match choice.delta.content {
            Some(t) => {
                assert(all =~= before.push(t@));
                assert(all.drop_last() =~= before);
            },
            None => {
                assert(all =~= before);
                assert(answers(start + a.1) + answers(b.1) =~= answers(start + a.1));
                assert(!native ==> thoughts(start + a.1) + thoughts(b.1) =~= thoughts(
                    start + a.1,
                ));
            },
        }
    }
}

proof fn lemma_fed_in_step(s: Session, native: bool, chunks: Seq<openai::StreamChunk>, n: nat)
    requires
        n <= chunks.len(),
        s.held == Seq::<char>::empty(),
        s.block is None,
        native || no_native_reasoning(chunks, n),
    ensures
        ({
            let m = fed(s, chunks, n);
            &&& in_step(m.0, m.1, contents(chunks, n))
            &&& native || thoughts(m.1) == thinking::fed(contents(chunks, n)).reasoning
        }),
    decreases n,
{
    if n > 0 {
        let a = fed(s, chunks, (n - 1) as nat);
        let chunk = chunks[n - 1];
        lemma_fed_in_step(s, native, chunks, (n - 1) as nat);
        assert(!native ==> forall|j: int|
            0 <= j < chunk.choices@.len() ==> (
            #[trigger] chunks[n - 1].choices@[j]).delta.reasoning_content is None);
        lemma_choices_in_step(
            a.1,
            contents(chunks, (n - 1) as nat),
            native,
            informed(a.0, chunk),
            chunk.choices@,
            chunk.choices@.len(),
        );
    }
}

// ── Laws ─────────────────────────────────────────────────────────────────────

/// Every stream, even an empty one, opens with the frame that names its conversation and ends
/// with the stop, and neither stands anywhere else.
pub proof fn law_stream_opens_and_stops_once(
    model: Seq<char>,
    conversation: Seq<char>,
    chunks: Seq<openai::StreamChunk>,
)
    ensures
        ({
            let all = stream_events(fresh(model, conversation), chunks);
            &&& all.len() >= 2
            &&& all[0] == (Event::Initial { conversation })
            &&& all.last() is Stop
            &&& forall|i: int| 0 < i < all.len() ==> !((#[trigger] all[i]) is Initial)
            &&& forall|i: int| 0 <= i < all.len() - 1 ==> !((#[trigger] all[i]) is Stop)
        }),
{
    let s = fresh(model, conversation);
    let a = fed(s, chunks, chunks.len());
    let z = on_end(a.0);
    lemma_fed(s, chunks, chunks.len());
    lemma_end(a.0);
    let all = stream_events(s, chunks);
    assert(all == a.1 + z.1);
    assert forall|i: int| 0 < i < all.len() - 1 implies later(#[trigger] all[i]) by {
        if i < a.1.len() {
            assert(all[i] == a.1[i]);
        } else {
            assert(all[i] == z.1[i - a.1.len()]);
        }
    }
    assert(all.last() == z.1.last());
    assert(all[0] == (Event::Initial { conversation })) by {
        if a.1.len() > 0 {
            assert(all[0] == a.1[0]);
        } else {
            assert(all[0] == z.1[0]);
        }
    }
    assert forall|i: int| 0 < i < all.len() implies !((#[trigger] all[i]) is Initial) by {
        if i < all.len() - 1 {
            assert(later(all[i]));
        }
    }
    assert forall|i: int| 0 <= i < all.len() - 1 implies !((#[trigger] all[i]) is Stop) by {
        if i > 0 {
            assert(later(all[i]));
        }
    }
}

/// The usage that was reported last, whether before or after a finish reason, is passed on right
/// before the stop.
pub proof fn law_last_usage_precedes_the_stop(
    model: Seq<char>,
    conversation: Seq<char>,
    chunks: Seq<openai::StreamChunk>,
)
    ensures
        match last_usage(chunks, chunks.len()) {
            Some((prompt, completion)) => {
                let all = stream_events(fresh(model, conversation), chunks);
                &&& all.len() >= 2
                &&& all[all.len() - 2] == (Event::Usage { prompt, completion })
                &&& all.last() is Stop
            },
            None => true,
        },
{
    let s = fresh(model, conversation);
    let a = fed(s, chunks, chunks.len());
    let z = on_end(a.0);
    lemma_fed(s, chunks, chunks.len());
    lemma_end(a.0);
    let all = stream_events(s, chunks);
    assert(all == a.1 + z.1);
    if last_usage(chunks, chunks.len()) is Some {
        assert(all[all.len() - 2] == z.1[z.1.len() - 2]);
        assert(all.last() == z.1.last());
    }
}

/// The answer that a client reads off the whole stream is the text that the splitter finds in the
/// deltas of content, and where the provider sends no reasoning of its own, the reasoning that a
/// client reads is what stands in thinking blocks.
pub proof fn law_thinking_is_routed_to_reasoning(
    model: Seq<char>,
    conversation: Seq<char>,
    chunks: Seq<openai::StreamChunk>,
)
    ensures
        ({
            let all = stream_events(fresh(model, conversation), chunks);
            let split = thinking::split_stream(contents(chunks, chunks.len()));
            &&& answers(all) == split.1
            &&& no_native_reasoning(chunks, chunks.len()) ==> thoughts(all) == split.0
        }),
{
    let s = fresh(model, conversation);
    let a = fed(s, chunks, chunks.len());
    let z = on_end(a.0);
    let native = !no_native_reasoning(chunks, chunks.len());
    lemma_fed_in_step(s, native, chunks, chunks.len());
    lemma_end(a.0);
    lemma_answers_concat(a.1, z.1);
    lemma_thoughts_concat(a.1, z.1);
}

/// The headers and the payload of an event's frame.
pub open spec fn contents_of(e: Event) -> (HeaderSeq, Seq<u8>) {
    (
        event_headers(
            kind_of(e),
            if e is Initial {
                AMZ_JSON_1_0@
            } else {
                JSON@
            },
        ),
        encode_utf8(compact(payload_of(e))),
    )
}

/// Frames on the wire, one after another.
pub open spec fn wire(frames: Seq<Seq<u8>>) -> Seq<u8>
    decreases frames.len(),
{
    if frames.len() == 0 {
        seq![]
    } else {
        frames[0] + wire(frames.skip(1))
    }
}

/// What a stream sends decodes back, frame by frame: the kind of each event, and its payload byte
/// for byte, as long as each frame has a length that 32 bits can hold.
pub proof fn law_streams_decode_back(events: Seq<Event>)
    requires
        forall|i: int|
            0 <= i < events.len() ==> length_fits(
                contents_of(#[trigger] events[i]).0,
                contents_of(events[i]).1,
            ),
    ensures
        stream_frames(wire(frames_of(events))) == Some(
            events.map_values(|e: Event| contents_of(e)),
        ),
        forall|i: int|
            0 <= i < events.len() ==> announced_type(contents_of(#[trigger] events[i]).0)
                == kind_of(events[i]),
{
    let frames = events.map_values(|e: Event| contents_of(e));
    assert forall|i: int| 0 <= i < frames.len() implies well_formed_headers(
        (#[trigger] frames[i]).0,
    ) && length_fits(frames[i].0, frames[i].1) by {
        lemma_names_its_kind(events[i]);
        assert(length_fits(contents_of(events[i]).0, contents_of(events[i]).1));
    }
    assert forall|i: int| 0 <= i < events.len() implies announced_type(
        contents_of(#[trigger] events[i]).0,
    ) == kind_of(events[i]) by {
        lemma_names_its_kind(events[i]);
    }
    law_frames_decode_in_order(frames);
    lemma_wire(events);
}

/// The headers of an event's frame are well formed and name its kind.
proof fn lemma_names_its_kind(e: Event)
    ensures
        well_formed_headers(contents_of(e).0),
        announced_type(contents_of(e).0) == kind_of(e),
{
    reveal_strlit("initial-response");
    reveal_strlit("assistantResponseEvent");
    reveal_strlit("reasoningContentEvent");
    reveal_strlit("toolUseEvent");
    reveal_strlit("usageEvent");
    reveal_strlit("messageStopEvent");
    reveal_strlit("application/x-amz-json-1.0");
    reveal_strlit("application/json");
    lemma_utf8_len(kind_of(e));
    lemma_utf8_len(AMZ_JSON_1_0@);
    lemma_utf8_len(JSON@);
    law_event_headers_name_the_event(
        kind_of(e),
        if e is Initial {
            AMZ_JSON_1_0@
        } else {
            JSON@
        },
    );
}

/// The frames of events stand on the wire as frames do.
proof fn lemma_wire(events: Seq<Event>)
    ensures
        wire(frames_of(events)) == on_the_wire(events.map_values(|e: Event| contents_of(e))),
    decreases events.len(),
{
    let frames = events.map_values(|e: Event| contents_of(e));
    if events.len() > 0 {
        let rest = events.skip(1);
        lemma_wire(rest);
        assert(frames_of(events).skip(1) =~= frames_of(rest));
        assert(frames.skip(1) =~= rest.map_values(|e: Event| contents_of(e)));
        let c = contents_of(events[0]);
        assert(frame_of(events[0]) == envelope(block(c.0), c.1));
    }
}

} // verus!
