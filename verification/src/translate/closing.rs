//! How a translated stream ends, and what its texts carry on the way there.

use vstd::prelude::*;

use crate::translate::response::{
    arguments_in, chain, close_tools, drained, fresh, informed, known, name_in, noted, on_arguments, on_choice,
    on_choices, on_chunk, on_content, on_end, on_name, on_reasoning, on_tool_call, on_tool_calls,
    place, report_usage, send, send_answer, send_reasoning, sorted, Event, Known, Moved, Session,
};
use crate::translate::stream::{fed, last_usage, law_place_keeps_order, stream_events};
use crate::translate::thinking;
use crate::types::openai;

verus! {

// ── Model ────────────────────────────────────────────────────────────────────

/// The deltas of tool calls among the first `n` choices.
pub open spec fn choice_calls(choices: Seq<openai::Choice>, n: nat) -> Seq<openai::ToolCallDelta>
    decreases n,
{
    if n == 0 {
        seq![]
    } else {
        choice_calls(choices, (n - 1) as nat) + choices[n - 1].delta.tool_calls@
    }
}

/// The deltas of tool calls among the first `n` chunks.
pub open spec fn calls(chunks: Seq<openai::StreamChunk>, n: nat) -> Seq<openai::ToolCallDelta>
    decreases n,
{
    if n == 0 {
        seq![]
    } else {
        calls(chunks, (n - 1) as nat) + choice_calls(
            chunks[n - 1].choices@,
            chunks[n - 1].choices@.len(),
        )
    }
}

/// A delta makes its call known: it brings an id or a name.
pub open spec fn introduces(tc: openai::ToolCallDelta) -> bool {
    tc.id is Some || name_in(tc) is Some
}

/// A call with this index was made known.
pub open spec fn introduced(calls: Seq<openai::ToolCallDelta>, index: usize) -> bool {
    exists|k: int|
        0 <= k < calls.len() && (#[trigger] calls[k]).index == index && introduces(calls[k])
}

/// The first id of a call that is not empty.
pub open spec fn first_id(calls: Seq<openai::ToolCallDelta>, index: usize) -> Seq<char>
    decreases calls.len(),
{
    if calls.len() == 0 {
        seq![]
    } else {
        let before = first_id(calls.drop_last(), index);
        if before.len() == 0 && calls.last().index == index && calls.last().id is Some {
            calls.last().id->0@
        } else {
            before
        }
    }
}

/// The first name of a call that is not empty.
pub open spec fn first_name(calls: Seq<openai::ToolCallDelta>, index: usize) -> Seq<char>
    decreases calls.len(),
{
    if calls.len() == 0 {
        seq![]
    } else {
        let before = first_name(calls.drop_last(), index);
        if before.len() == 0 && calls.last().index == index && name_in(calls.last()) is Some {
            name_in(calls.last())->0
        } else {
            before
        }
    }
}

/// An event that only the end of a stream sends.
pub open spec fn ends(e: Event) -> bool {
    e is ToolStop || e is Usage || e is Stop
}

/// The events that only the end of a stream sends, in order.
pub open spec fn closing(events: Seq<Event>) -> Seq<Event>
    decreases events.len(),
{
    if events.len() == 0 {
        seq![]
    } else if ends(events.last()) {
        closing(events.drop_last()).push(events.last())
    } else {
        closing(events.drop_last())
    }
}

/// The event that closes a call.
pub open spec fn closes_call(calls: Seq<openai::ToolCallDelta>, index: usize) -> Event {
    Event::ToolStop { name: first_name(calls, index), id: first_id(calls, index) }
}

/// The events that close calls.
pub open spec fn close_calls(calls: Seq<openai::ToolCallDelta>, indices: Seq<usize>) -> Seq<Event> {
    indices.map_values(|i: usize| closes_call(calls, i))
}

/// The event that reports usage, if any was reported.
pub open spec fn reports(usage: Option<(u64, u64)>) -> Seq<Event> {
    match usage {
        Some((prompt, completion)) => seq![Event::Usage { prompt, completion }],
        None => seq![],
    }
}

/// Numbers that ascend.
pub open spec fn ascending(v: Seq<usize>) -> bool {
    forall|i: int, j: int| 0 <= i < j < v.len() ==> v[i] < v[j]
}

/// A stretch of text or reasoning is not empty.
pub open spec fn says_something(e: Event) -> bool {
    match e {
        Event::Reasoning { text, .. } => text.len() > 0,
        Event::Answer { text, .. } => text.len() > 0,
        _ => true,
    }
}

/// A stretch of text or reasoning names this model.
pub open spec fn names_model(e: Event, model: Seq<char>) -> bool {
    match e {
        Event::Reasoning { model: m, .. } => m == model,
        Event::Answer { model: m, .. } => m == model,
        _ => true,
    }
}

// ── Texts ────────────────────────────────────────────────────────────────────

/// What every move before the end of a stream keeps.
spec fn steady(s: Session, m: Moved) -> bool {
    &&& m.0.model == s.model
    &&& m.0.usage == s.usage
    &&& forall|i: int| 0 <= i < m.1.len() ==> fits(#[trigger] m.1[i], s.model)
}

/// An event that may come before the end of a stream.
spec fn fits(e: Event, model: Seq<char>) -> bool {
    !ends(e) && says_something(e) && names_model(e, model)
}

proof fn lemma_steady_chain(s: Session, a: Moved, b: Moved)
    requires
        steady(s, a),
        steady(a.0, b),
    ensures
        steady(s, chain(a, b)),
{
    let c = a.1 + b.1;
    assert forall|i: int| 0 <= i < c.len() implies fits(#[trigger] c[i], s.model) by {
        if i < a.1.len() {
            assert(c[i] == a.1[i]);
        } else {
            assert(c[i] == b.1[i - a.1.len()]);
        }
    }
}

proof fn lemma_texts(s: Session, reasoning: Seq<char>, text: Seq<char>)
    ensures
        steady(s, send_reasoning(s, reasoning)),
        ({
            let a = send_reasoning(s, reasoning);
            steady(s, chain(a, send_answer(a.0, text)))
        }),
{
    let a = send_reasoning(s, reasoning);
    lemma_steady_chain(s, a, send_answer(a.0, text));
}

proof fn lemma_tool_calls_steady(s: Session, tcs: Seq<openai::ToolCallDelta>, n: nat)
    ensures
        steady(s, on_tool_calls(s, tcs, n)),
    decreases n,
{
    if n > 0 {
        let a = on_tool_calls(s, tcs, (n - 1) as nat);
        lemma_tool_calls_steady(s, tcs, (n - 1) as nat);
        let tc = tcs[n - 1];
        let s1 = noted(a.0, tc);
        let b = on_name(s1, tc);
        let c = on_arguments(b.0, tc);
        assert(steady(a.0, b));
        assert(steady(b.0, c));
        lemma_steady_chain(a.0, b, c);
        lemma_steady_chain(s, a, on_tool_call(a.0, tc));
    }
}

proof fn lemma_choices_steady(s: Session, choices: Seq<openai::Choice>, n: nat)
    ensures
        steady(s, on_choices(s, choices, n)),
    decreases n,
{
    if n > 0 {
        let before = on_choices(s, choices, (n - 1) as nat);
        lemma_choices_steady(s, choices, (n - 1) as nat);
        let s0 = before.0;
        let choice = choices[n - 1];
        let a = on_tool_calls(s0, choice.delta.tool_calls@, choice.delta.tool_calls@.len());
        lemma_tool_calls_steady(s0, choice.delta.tool_calls@, choice.delta.tool_calls@.len());
        let r = on_reasoning(a.0, choice.delta.reasoning_content);
        if let Some(t) = choice.delta.reasoning_content {
            lemma_texts(a.0, t@, seq![]);
        }
        assert(steady(a.0, r));
        let b = chain(a, r);
        lemma_steady_chain(s0, a, r);
        let c = on_content(b.0, choice.delta.content);
        if let Some(t) = choice.delta.content {
            let split = thinking::scan(b.0.held + t@, b.0.block);
            lemma_texts(
                Session { held: split.pending, block: split.close, ..b.0 },
                split.reasoning,
                split.text,
            );
        }
        assert(steady(b.0, c));
        lemma_steady_chain(s0, b, c);
        let d = on_choice(s0, choice);
        assert(d.1 == chain(b, c).1);
        assert(steady(s0, d));
        lemma_steady_chain(s, before, d);
    }
}

/// What holds of the events before the end.
proof fn lemma_fed_steady(s: Session, chunks: Seq<openai::StreamChunk>, n: nat)
    ensures
        s.usage is None ==> fed(s, chunks, n).0.usage == last_usage(chunks, n),
        s.model.len() > 0 ==> fed(s, chunks, n).0.model == s.model,
        forall|i: int|
            0 <= i < fed(s, chunks, n).1.len() ==> {
                let e = #[trigger] fed(s, chunks, n).1[i];
                !ends(e) && says_something(e) && (s.model.len() > 0 ==> names_model(e, s.model))
            },
    decreases n,
{
    if n > 0 {
        let a = fed(s, chunks, (n - 1) as nat);
        let chunk = chunks[n - 1];
        let s1 = informed(a.0, chunk);
        let b = on_chunk(a.0, chunk);
        lemma_fed_steady(s, chunks, (n - 1) as nat);
        lemma_choices_steady(s1, chunk.choices@, chunk.choices@.len());
        let c = fed(s, chunks, n).1;
        assert forall|i: int| 0 <= i < c.len() implies {
            let e = #[trigger] c[i];
            !ends(e) && says_something(e) && (s.model.len() > 0 ==> names_model(e, s.model))
        } by {
            if i < a.1.len() {
                assert(c[i] == a.1[i]);
            } else {
                assert(c[i] == b.1[i - a.1.len()]);
                assert(fits(b.1[i - a.1.len()], s1.model));
            }
        }
    }
}

// ── Calls ────────────────────────────────────────────────────────────────────

/// A call with this index is in the list.
spec fn lists(tools: Seq<Known>, index: usize) -> bool {
    exists|j: int| 0 <= j < tools.len() && (#[trigger] tools[j]).index == index
}

/// What entering a call does to the list.
proof fn lemma_place(tools: Seq<Known>, k: Known, index: usize)
    ensures
        lists(place(tools, k), index) <==> index == k.index || lists(tools, index),
        known(place(tools, k), index) == if index == k.index {
            k
        } else {
            known(tools, index)
        },
    decreases tools.len(),
{
    let p = place(tools, k);
    let rest = tools.skip(1);
    assert(tools.len() > 0 ==> tools =~= seq![tools[0]] + rest);
    if tools.len() == 0 || k.index < tools[0].index {
        lemma_lists_front(k, tools, index);
        assert(p.skip(1) =~= tools);
    } else if k.index == tools[0].index {
        lemma_lists_front(k, rest, index);
        lemma_lists_front(tools[0], rest, index);
        assert(p.skip(1) =~= rest);
    } else {
        lemma_place(rest, k, index);
        lemma_lists_front(tools[0], place(rest, k), index);
        lemma_lists_front(tools[0], rest, index);
        assert(p.skip(1) =~= place(rest, k));
    }
}

proof fn lemma_lists_front(k: Known, tools: Seq<Known>, index: usize)
    ensures
        lists(seq![k] + tools, index) <==> index == k.index || lists(tools, index),
{
    let p = seq![k] + tools;
    assert(p[0] == k);
    if lists(tools, index) {
        let j = choose|j: int| 0 <= j < tools.len() && (#[trigger] tools[j]).index == index;
        assert(p[j + 1] == tools[j]);
    }
    if lists(p, index) && index != k.index {
        let j = choose|j: int| 0 <= j < p.len() && (#[trigger] p[j]).index == index;
        assert(tools[j - 1] == p[j]);
    }
}

/// What is known of a call has its index, and is nothing where the call is not in the list.
proof fn lemma_known(tools: Seq<Known>, index: usize)
    ensures
        known(tools, index).index == index,
        !lists(tools, index) ==> known(tools, index).id.len() == 0 && known(
            tools,
            index,
        ).name.len() == 0,
    decreases tools.len(),
{
    if tools.len() > 0 {
        lemma_known(tools.skip(1), index);
        assert(tools =~= seq![tools[0]] + tools.skip(1));
        lemma_lists_front(tools[0], tools.skip(1), index);
    }
}

/// In a list that is in order, what is known of a call is its entry.
proof fn lemma_known_at(tools: Seq<Known>, j: int)
    requires
        sorted(tools),
        0 <= j < tools.len(),
    ensures
        known(tools, tools[j].index) == tools[j],
    decreases tools.len(),
{
    if j > 0 {
        let rest = tools.skip(1);
        assert(tools[0].index < tools[j].index);
        assert forall|a: int, b: int| 0 <= a < b < rest.len() implies (#[trigger] rest[a]).index < (
        #[trigger] rest[b]).index by {
            assert(tools[a + 1].index < tools[b + 1].index);
        }
        lemma_known_at(rest, j - 1);
        assert(rest[j - 1] == tools[j]);
    }
}

/// The session knows of the calls what their deltas told.
spec fn told(s: Session, calls: Seq<openai::ToolCallDelta>) -> bool {
    &&& sorted(s.tools)
    &&& calls.len() > 0 ==> s.called
    &&& forall|i: usize| #[trigger]
        lists(s.tools, i) <==> introduced(calls, i)
    &&& forall|i: usize|
        (#[trigger] known(s.tools, i)).id == first_id(calls, i) && known(s.tools, i).name
            == first_name(calls, i)
}

proof fn lemma_introduced(calls: Seq<openai::ToolCallDelta>, tc: openai::ToolCallDelta, i: usize)
    ensures
        introduced(calls.push(tc), i) <==> introduced(calls, i) || (tc.index == i && introduces(
            tc,
        )),
{
    let all = calls.push(tc);
    if introduced(calls, i) {
        let k = choose|k: int|
            0 <= k < calls.len() && (#[trigger] calls[k]).index == i && introduces(calls[k]);
        assert(all[k] == calls[k]);
    }
    if tc.index == i && introduces(tc) {
        assert(all[calls.len() as int] == tc);
    }
    if introduced(all, i) {
        let k = choose|k: int|
            0 <= k < all.len() && (#[trigger] all[k]).index == i && introduces(all[k]);
        if k < calls.len() {
            assert(calls[k] == all[k]);
        }
    }
}

/// One delta of a call adds what it tells.
proof fn lemma_call_told(
    s: Session,
    calls: Seq<openai::ToolCallDelta>,
    tc: openai::ToolCallDelta,
)
    requires
        told(s, calls),
    ensures
        told(on_tool_call(s, tc).0, calls.push(tc)),
{
    let all = calls.push(tc);
    assert(all.drop_last() =~= calls);
    assert(all.last() == tc);
    let k = known(s.tools, tc.index);
    lemma_known(s.tools, tc.index);
    let s1 = noted(s, tc);
    let noted_call = Known {
        id: if k.id.len() == 0 && tc.id is Some {
            tc.id->0@
        } else {
            k.id
        },
        ..k
    };
    if tc.id is Some {
        assert(s1.tools == place(s.tools, noted_call));
        law_place_keeps_order(s.tools, noted_call);
    }
    assert forall|i: usize| true implies {
        &&& #[trigger] lists(s1.tools, i) <==> lists(s.tools, i) || (tc.id is Some && i == tc.index)
        &&& known(s1.tools, i) == if i == tc.index && tc.id is Some {
            noted_call
        } else {
            known(s.tools, i)
        }
    } by {
        lemma_place(s.tools, noted_call, i);
    }
    assert(lists(s1.tools, tc.index) || !lists(s1.tools, tc.index));
    let k1 = known(s1.tools, tc.index);
    lemma_known(s1.tools, tc.index);
    let m = on_tool_call(s, tc);
    let s2 = m.0;
    let fresh_name = name_in(tc) is Some && k1.name.len() == 0;
    let named_call = Known { name: name_in(tc)->0, ..k1 };
    assert(s2.called);
    assert(s2.tools == if fresh_name {
        place(s1.tools, named_call)
    } else {
        s1.tools
    });
    if fresh_name {
        law_place_keeps_order(s1.tools, named_call);
    }
    assert forall|i: usize| #[trigger] lists(s2.tools, i) <==> introduced(all, i) by {
        lemma_place(s1.tools, named_call, i);
        lemma_introduced(calls, tc, i);
        assert(lists(s.tools, i) <==> introduced(calls, i));
        assert(lists(s1.tools, i) <==> lists(s.tools, i) || (tc.id is Some && i == tc.index));
    }
    assert forall|i: usize|
        (#[trigger] known(s2.tools, i)).id == first_id(all, i) && known(s2.tools, i).name
            == first_name(all, i) by {
        lemma_place(s1.tools, named_call, i);
        assert(lists(s1.tools, i) || !lists(s1.tools, i));
        assert(known(s.tools, i).id == first_id(calls, i));
        assert(known(s.tools, i).name == first_name(calls, i));
    }
}

proof fn lemma_calls_told(
    s: Session,
    calls: Seq<openai::ToolCallDelta>,
    tcs: Seq<openai::ToolCallDelta>,
    n: nat,
)
    requires
        n <= tcs.len(),
        told(s, calls),
    ensures
        told(on_tool_calls(s, tcs, n).0, calls + tcs.take(n as int)),
    decreases n,
{
    if n == 0 {
        assert(calls + tcs.take(0) =~= calls);
    } else {
        let a = on_tool_calls(s, tcs, (n - 1) as nat);
        let so_far = calls + tcs.take(n - 1);
        lemma_calls_told(s, calls, tcs, (n - 1) as nat);
        lemma_call_told(a.0, so_far, tcs[n - 1]);
        assert(calls + tcs.take(n as int) =~= so_far.push(tcs[n - 1]));
    }
}

proof fn lemma_choices_told(
    s: Session,
    before: Seq<openai::ToolCallDelta>,
    choices: Seq<openai::Choice>,
    n: nat,
)
    requires
        n <= choices.len(),
        told(s, before),
    ensures
        told(on_choices(s, choices, n).0, before + choice_calls(choices, n)),
    decreases n,
{
    if n == 0 {
        assert(before + choice_calls(choices, n) =~= before);
    } else {
        let a = on_choices(s, choices, (n - 1) as nat);
        let so_far = before + choice_calls(choices, (n - 1) as nat);
        lemma_choices_told(s, before, choices, (n - 1) as nat);
        let tcs = choices[n - 1].delta.tool_calls@;
        lemma_calls_told(a.0, so_far, tcs, tcs.len());
        assert(tcs.take(tcs.len() as int) =~= tcs);
        assert(before + choice_calls(choices, n) =~= so_far + tcs);
        let b = on_tool_calls(a.0, tcs, tcs.len());
        let c = on_choice(a.0, choices[n - 1]);
        assert(c.0.tools == b.0.tools);
        assert(c.0.called == b.0.called);
        assert(on_choices(s, choices, n).0 == c.0);
        assert(told(b.0, so_far + tcs));
    }
}

proof fn lemma_fed_told(s: Session, chunks: Seq<openai::StreamChunk>, n: nat)
    requires
        n <= chunks.len(),
        s.tools.len() == 0,
    ensures
        told(fed(s, chunks, n).0, calls(chunks, n)),
    decreases n,
{
    if n == 0 {
        assert forall|i: usize| #[trigger] lists(s.tools, i) <==> introduced(calls(chunks, 0), i) by {}
    } else {
        let a = fed(s, chunks, (n - 1) as nat);
        lemma_fed_told(s, chunks, (n - 1) as nat);
        let chunk = chunks[n - 1];
        let s1 = informed(a.0, chunk);
        let so_far = calls(chunks, (n - 1) as nat);
        assert(s1.tools == a.0.tools);
        assert(s1.called == a.0.called);
        assert(told(s1, so_far));
        lemma_choices_told(s1, so_far, chunk.choices@, chunk.choices@.len());
    }
}

// ── The end ──────────────────────────────────────────────────────────────────

proof fn lemma_closing_concat(a: Seq<Event>, b: Seq<Event>)
    ensures
        closing(a + b) == closing(a) + closing(b),
    decreases b.len(),
{
    if b.len() == 0 {
        assert(a + b =~= a);
        assert(closing(a) + closing(b) =~= closing(a));
    } else {
        assert((a + b).drop_last() =~= a + b.drop_last());
        assert((a + b).last() == b.last());
        lemma_closing_concat(a, b.drop_last());
        assert(closing(a + b) =~= closing(a) + closing(b));
    }
}

proof fn lemma_nothing_closes(events: Seq<Event>)
    requires
        forall|i: int| 0 <= i < events.len() ==> !ends(#[trigger] events[i]),
    ensures
        closing(events) == Seq::<Event>::empty(),
    decreases events.len(),
{
    if events.len() > 0 {
        let shorter = events.drop_last();
        assert forall|i: int| 0 <= i < shorter.len() implies !ends(#[trigger] shorter[i]) by {
            assert(shorter[i] == events[i]);
        }
        lemma_nothing_closes(shorter);
        assert(!ends(events[events.len() - 1]));
    }
}

proof fn lemma_send_closes(s: Session, e: Event)
    requires
        ends(e),
    ensures
        closing(send(s, e).1) == seq![e],
        send(s, e).0 == (Session { opened: true, ..s }),
{
    reveal_with_fuel(closing, 3);
    let m = send(s, e).1;
    if s.opened {
        assert(m.drop_last() =~= seq![]);
    } else {
        assert(m.drop_last() =~= seq![Event::Initial { conversation: s.conversation }]);
        assert(m.drop_last().drop_last() =~= seq![]);
    }
    assert(closing(m) =~= seq![e]);
}

/// The event that closes what is known of a call.
spec fn stop_of(k: Known) -> Event {
    Event::ToolStop { name: k.name, id: k.id }
}

proof fn lemma_close_tools(s: Session, n: nat)
    requires
        n <= s.tools.len(),
    ensures
        closing(close_tools(s, n).1) == s.tools.take(n as int).map_values(|k: Known| stop_of(k)),
        close_tools(s, n).0 == (Session { opened: close_tools(s, n).0.opened, ..s }),
    decreases n,
{
    if n == 0 {
        assert(s.tools.take(0).map_values(|k: Known| stop_of(k)) =~= seq![]);
    } else {
        let a = close_tools(s, (n - 1) as nat);
        lemma_close_tools(s, (n - 1) as nat);
        let e = stop_of(s.tools[n - 1]);
        lemma_send_closes(a.0, e);
        lemma_closing_concat(a.1, send(a.0, e).1);
        assert(s.tools.take(n as int).map_values(|k: Known| stop_of(k)) =~= s.tools.take(
            n - 1,
        ).map_values(|k: Known| stop_of(k)).push(e));
        assert(closing(close_tools(s, n).1) =~= s.tools.take(n as int).map_values(
            |k: Known| stop_of(k),
        ));
    }
}

proof fn lemma_end_closes(s: Session)
    requires
        s.tools.len() > 0 ==> s.called,
    ensures
        closing(on_end(s).1) == s.tools.map_values(|k: Known| stop_of(k)) + reports(s.usage)
            + seq![Event::Stop],
        forall|i: int|
            0 <= i < on_end(s).1.len() ==> says_something(#[trigger] on_end(s).1[i])
                && names_model(on_end(s).1[i], s.model),
{
    let tail = thinking::flushed(s.held, s.block);
    let s0 = Session { held: seq![], block: None, ..s };
    let a = drained(s);
    lemma_texts(s0, tail.0, tail.1);
    assert(steady(s0, a));
    lemma_nothing_closes(a.1);
    assert(a.0 == (Session { opened: a.0.opened, ..s0 }));
    let stops = s.tools.map_values(|k: Known| stop_of(k));
    let t = if a.0.called {
        close_tools(a.0, a.0.tools.len())
    } else {
        (a.0, seq![])
    };
    lemma_close_tools(a.0, a.0.tools.len());
    assert(a.0.tools.take(a.0.tools.len() as int) =~= s.tools);
    if !a.0.called {
        assert(stops =~= seq![]);
    }
    assert(closing(t.1) == stops);
    lemma_silent(a.0, a.0.tools.len());
    let b = chain(a, t);
    assert(a.1 + seq![] =~= a.1);
    lemma_closing_concat(a.1, t.1);
    assert(closing(b.1) =~= stops);
    let u = report_usage(b.0);
    if let Some((prompt, completion)) = s.usage {
        lemma_send_closes(b.0, Event::Usage { prompt, completion });
    }
    assert(closing(u.1) =~= reports(s.usage));
    let c = chain(b, u);
    lemma_closing_concat(b.1, u.1);
    let z = send(c.0, Event::Stop);
    lemma_send_closes(c.0, Event::Stop);
    lemma_closing_concat(c.1, z.1);
    let all = on_end(s).1;
    assert(all == c.1 + z.1);
    assert(closing(all) =~= stops + reports(s.usage) + seq![Event::Stop]);
    assert forall|i: int| 0 <= i < all.len() implies says_something(#[trigger] all[i])
        && names_model(all[i], s.model) by {
        if i < a.1.len() {
            assert(all[i] == a.1[i]);
            assert(fits(a.1[i], s0.model));
        } else if i < b.1.len() {
            assert(all[i] == t.1[i - a.1.len()]);
        } else if i < c.1.len() {
            assert(all[i] == u.1[i - b.1.len()]);
        } else {
            assert(all[i] == z.1[i - c.1.len()]);
        }
    }
}

/// Closing calls sends no text.
proof fn lemma_silent(s: Session, n: nat)
    ensures
        forall|i: int|
            0 <= i < close_tools(s, n).1.len() ==> !((#[trigger] close_tools(s, n).1[i]) is Answer)
                && !(close_tools(s, n).1[i] is Reasoning),
    decreases n,
{
    if n > 0 {
        lemma_silent(s, (n - 1) as nat);
    }
}

// ── Fragments ────────────────────────────────────────────────────────────────

/// The events that tell of calls while they are made, in order.
pub open spec fn call_events(events: Seq<Event>) -> Seq<Event>
    decreases events.len(),
{
    if events.len() == 0 {
        seq![]
    } else if events.last() is ToolStart || events.last() is ToolInput {
        call_events(events.drop_last()).push(events.last())
    } else {
        call_events(events.drop_last())
    }
}

/// What a delta tells of its call: its name, where the call has none yet, and a fragment of its
/// arguments, each under the first name and id of the call with the index of the delta.
pub open spec fn tells(
    before: Seq<openai::ToolCallDelta>,
    tc: openai::ToolCallDelta,
) -> Seq<Event> {
    let now = before.push(tc);
    let id = first_id(now, tc.index);
    let start = if tc.function is Some && tc.function->0.name is Some && first_name(
        before,
        tc.index,
    ).len() == 0 {
        seq![Event::ToolStart { name: tc.function->0.name->0@, id }]
    } else {
        seq![]
    };
    let input = if tc.function is Some && tc.function->0.arguments is Some
        && tc.function->0.arguments->0@.len() > 0 {
        seq![
            Event::ToolInput {
                input: tc.function->0.arguments->0@,
                name: first_name(now, tc.index),
                id,
            },
        ]
    } else {
        seq![]
    };
    start + input
}

/// What deltas tell of their calls, one after the other.
pub open spec fn told_of(calls: Seq<openai::ToolCallDelta>) -> Seq<Event>
    decreases calls.len(),
{
    if calls.len() == 0 {
        seq![]
    } else {
        told_of(calls.drop_last()) + tells(calls.drop_last(), calls.last())
    }
}

proof fn lemma_call_events_concat(a: Seq<Event>, b: Seq<Event>)
    ensures
        call_events(a + b) == call_events(a) + call_events(b),
    decreases b.len(),
{
    if b.len() == 0 {
        assert(a + b =~= a);
        assert(call_events(a) + call_events(b) =~= call_events(a));
    } else {
        assert((a + b).drop_last() =~= a + b.drop_last());
        assert((a + b).last() == b.last());
        lemma_call_events_concat(a, b.drop_last());
        assert(call_events(a + b) =~= call_events(a) + call_events(b));
    }
}

proof fn lemma_sent_event(s: Session, e: Event)
    ensures
        call_events(send(s, e).1) == if e is ToolStart || e is ToolInput {
            seq![e]
        } else {
            seq![]
        },
        send(s, e).0 == (Session { opened: true, ..s }),
        call_events(seq![]) == Seq::<Event>::empty(),
{
    reveal_with_fuel(call_events, 3);
    let m = send(s, e).1;
    if s.opened {
        assert(m.drop_last() =~= seq![]);
    } else {
        assert(m.drop_last() =~= seq![Event::Initial { conversation: s.conversation }]);
        assert(m.drop_last().drop_last() =~= seq![]);
    }
    assert(call_events(m) =~= if e is ToolStart || e is ToolInput {
        seq![e]
    } else {
        seq![]
    });
}

/// One delta of a call sends what it tells.
proof fn lemma_delta_tells(
    s: Session,
    calls: Seq<openai::ToolCallDelta>,
    tc: openai::ToolCallDelta,
)
    requires
        told(s, calls),
    ensures
        call_events(on_tool_call(s, tc).1) == tells(calls, tc),
{
    lemma_call_told(s, calls, tc);
    let all = calls.push(tc);
    let s1 = noted(s, tc);
    let k = known(s.tools, tc.index);
    let k1 = known(s1.tools, tc.index);
    lemma_known(s.tools, tc.index);
    lemma_known(s1.tools, tc.index);
    let noted_call = Known {
        id: if k.id.len() == 0 && tc.id is Some {
            tc.id->0@
        } else {
            k.id
        },
        ..k
    };
    lemma_place(s.tools, noted_call, tc.index);
    assert(k1.name == k.name);
    assert(k.name == first_name(calls, tc.index));
    let a = on_name(s1, tc);
    let b = on_arguments(a.0, tc);
    let k2 = known(a.0.tools, tc.index);
    if let Some(name) = name_in(tc) {
        let placed = Known { name, ..k1 };
        lemma_place(s1.tools, placed, tc.index);
        lemma_sent_event(
            Session { tools: place(s1.tools, placed), ..s1 },
            Event::ToolStart { name, id: k1.id },
        );
    }
    lemma_sent_event(a.0, Event::ToolInput { input: arguments_in(tc), name: k2.name, id: k2.id });
    assert(on_tool_call(s, tc).0.tools == a.0.tools);
    assert(k2.id == first_id(all, tc.index));
    assert(k2.name == first_name(all, tc.index));
    assert(k1.id == k2.id);
    lemma_call_events_concat(a.1, b.1);
    lemma_sent_event(s1, Event::Stop);
    assert(call_events(a.1 + b.1) =~= tells(calls, tc));
}

proof fn lemma_deltas_tell(
    s: Session,
    calls: Seq<openai::ToolCallDelta>,
    tcs: Seq<openai::ToolCallDelta>,
    n: nat,
)
    requires
        n <= tcs.len(),
        told(s, calls),
    ensures
        told_of(calls) + call_events(on_tool_calls(s, tcs, n).1) == told_of(
            calls + tcs.take(n as int),
        ),
    decreases n,
{
    lemma_sent_event(s, Event::Stop);
    if n == 0 {
        assert(calls + tcs.take(0) =~= calls);
        assert(told_of(calls) + seq![] =~= told_of(calls));
    } else {
        let a = on_tool_calls(s, tcs, (n - 1) as nat);
        let so_far = calls + tcs.take(n - 1);
        lemma_deltas_tell(s, calls, tcs, (n - 1) as nat);
        lemma_calls_told(s, calls, tcs, (n - 1) as nat);
        lemma_delta_tells(a.0, so_far, tcs[n - 1]);
        let b = on_tool_call(a.0, tcs[n - 1]);
        lemma_call_events_concat(a.1, b.1);
        let all = calls + tcs.take(n as int);
        assert(all =~= so_far.push(tcs[n - 1]));
        assert(all.drop_last() =~= so_far);
        assert(told_of(calls) + (call_events(a.1) + call_events(b.1)) =~= (told_of(calls)
            + call_events(a.1)) + call_events(b.1));
    }
}

/// Texts tell nothing of calls.
proof fn lemma_texts_tell_nothing(s: Session, reasoning: Seq<char>, text: Seq<char>)
    ensures
        call_events(send_reasoning(s, reasoning).1) == Seq::<Event>::empty(),
        ({
            let a = send_reasoning(s, reasoning);
            call_events(chain(a, send_answer(a.0, text)).1) == Seq::<Event>::empty()
        }),
{
    let a = send_reasoning(s, reasoning);
    let b = send_answer(a.0, text);
    lemma_sent_event(s, Event::Reasoning { text: reasoning, model: s.model });
    lemma_sent_event(a.0, Event::Answer { text, model: a.0.model });
    lemma_call_events_concat(a.1, b.1);
    assert(call_events(a.1 + b.1) =~= seq![]);
}

proof fn lemma_choices_tell(
    s: Session,
    before: Seq<openai::ToolCallDelta>,
    choices: Seq<openai::Choice>,
    n: nat,
)
    requires
        n <= choices.len(),
        told(s, before),
    ensures
        told_of(before) + call_events(on_choices(s, choices, n).1) == told_of(
            before + choice_calls(choices, n),
        ),
    decreases n,
{
    lemma_sent_event(s, Event::Stop);
    if n == 0 {
        assert(before + choice_calls(choices, n) =~= before);
        assert(told_of(before) + seq![] =~= told_of(before));
    } else {
        let p = on_choices(s, choices, (n - 1) as nat);
        let s0 = p.0;
        let so_far = before + choice_calls(choices, (n - 1) as nat);
        lemma_choices_tell(s, before, choices, (n - 1) as nat);
        lemma_choices_told(s, before, choices, (n - 1) as nat);
        let choice = choices[n - 1];
        let tcs = choice.delta.tool_calls@;
        lemma_deltas_tell(s0, so_far, tcs, tcs.len());
        assert(tcs.take(tcs.len() as int) =~= tcs);
        let a = on_tool_calls(s0, tcs, tcs.len());
        let r = on_reasoning(a.0, choice.delta.reasoning_content);
        if let Some(t) = choice.delta.reasoning_content {
            lemma_texts_tell_nothing(a.0, t@, seq![]);
        }
        lemma_call_events_concat(a.1, r.1);
        let b = chain(a, r);
        let c = on_content(b.0, choice.delta.content);
        if let Some(t) = choice.delta.content {
            let split = thinking::scan(b.0.held + t@, b.0.block);
            lemma_texts_tell_nothing(
                Session { held: split.pending, block: split.close, ..b.0 },
                split.reasoning,
                split.text,
            );
        }
        lemma_call_events_concat(b.1, c.1);
        let d = on_choice(s0, choice);
        assert(d.1 == b.1 + c.1);
        assert(call_events(d.1) =~= call_events(a.1));
        lemma_call_events_concat(p.1, d.1);
        assert(before + choice_calls(choices, n) =~= so_far + tcs);
        assert(told_of(before) + (call_events(p.1) + call_events(d.1)) =~= (told_of(before)
            + call_events(p.1)) + call_events(d.1));
    }
}

proof fn lemma_fed_tells(s: Session, chunks: Seq<openai::StreamChunk>, n: nat)
    requires
        n <= chunks.len(),
        s.tools.len() == 0,
    ensures
        call_events(fed(s, chunks, n).1) == told_of(calls(chunks, n)),
    decreases n,
{
    if n > 0 {
        let a = fed(s, chunks, (n - 1) as nat);
        lemma_fed_tells(s, chunks, (n - 1) as nat);
        lemma_fed_told(s, chunks, (n - 1) as nat);
        let chunk = chunks[n - 1];
        let s1 = informed(a.0, chunk);
        let so_far = calls(chunks, (n - 1) as nat);
        assert(told(s1, so_far));
        lemma_choices_tell(s1, so_far, chunk.choices@, chunk.choices@.len());
        lemma_call_events_concat(a.1, on_chunk(a.0, chunk).1);
    }
}

proof fn lemma_close_tools_tells(s: Session, n: nat)
    ensures
        call_events(close_tools(s, n).1) == Seq::<Event>::empty(),
    decreases n,
{
    if n > 0 {
        let a = close_tools(s, (n - 1) as nat);
        lemma_close_tools_tells(s, (n - 1) as nat);
        let e = Event::ToolStop { name: s.tools[n - 1].name, id: s.tools[n - 1].id };
        lemma_sent_event(a.0, e);
        lemma_call_events_concat(a.1, send(a.0, e).1);
        assert(call_events(close_tools(s, n).1) =~= seq![]);
    }
}

proof fn lemma_end_tells(s: Session)
    ensures
        call_events(on_end(s).1) == Seq::<Event>::empty(),
{
    let tail = thinking::flushed(s.held, s.block);
    let a = drained(s);
    lemma_texts_tell_nothing(Session { held: seq![], block: None, ..s }, tail.0, tail.1);
    let t = close_tools(a.0, a.0.tools.len());
    lemma_close_tools_tells(a.0, a.0.tools.len());
    lemma_call_events_concat(a.1, t.1);
    let b = if a.0.called {
        chain(a, t)
    } else {
        a
    };
    assert(call_events(b.1) =~= seq![]);
    let u = report_usage(b.0);
    lemma_sent_event(b.0, Event::Stop);
    if let Some((prompt, completion)) = b.0.usage {
        lemma_sent_event(b.0, Event::Usage { prompt, completion });
    }
    let c = chain(b, u);
    lemma_call_events_concat(b.1, u.1);
    let z = send(c.0, Event::Stop);
    lemma_sent_event(c.0, Event::Stop);
    lemma_call_events_concat(c.1, z.1);
    assert(call_events(on_end(s).1) =~= seq![]);
}

// ── Laws ─────────────────────────────────────────────────────────────────────

/// Calls are passed on as they are made, delta by delta: each is announced when its first name
/// comes, and every fragment of arguments goes to the call of its own delta's index, as it is. No
/// fragment is lost, repeated or attached to another call, however the calls interleave.
pub proof fn law_fragments_go_to_their_own_calls(
    model: Seq<char>,
    conversation: Seq<char>,
    chunks: Seq<openai::StreamChunk>,
)
    ensures
        call_events(stream_events(fresh(model, conversation), chunks)) == told_of(
            calls(chunks, chunks.len()),
        ),
        forall|n: nat|
            n <= chunks.len() ==> call_events(
                (#[trigger] fed(fresh(model, conversation), chunks, n)).1,
            ) == told_of(calls(chunks, n)),
{
    let s = fresh(model, conversation);
    assert forall|n: nat| n <= chunks.len() implies call_events((#[trigger] fed(s, chunks, n)).1)
        == told_of(calls(chunks, n)) by {
        lemma_fed_tells(s, chunks, n);
    }
    let a = fed(s, chunks, chunks.len());
    let z = on_end(a.0);
    lemma_fed_tells(s, chunks, chunks.len());
    lemma_end_tells(a.0);
    lemma_call_events_concat(a.1, z.1);
    assert(call_events(a.1 + z.1) =~= call_events(a.1));
}

/// The arguments of a call that is fed by deltas with its index, as a client joins them.
pub open spec fn joined_inputs(events: Seq<Event>, id: Seq<char>) -> Seq<char>
    decreases events.len(),
{
    if events.len() == 0 {
        seq![]
    } else {
        joined_inputs(events.drop_last(), id) + match events.last() {
            Event::ToolInput { input, id: to, .. } => if to == id {
                input
            } else {
                seq![]
            },
            _ => seq![],
        }
    }
}

/// The fragments of arguments that come for an index, joined.
pub open spec fn joined_fragments(calls: Seq<openai::ToolCallDelta>, index: usize) -> Seq<char>
    decreases calls.len(),
{
    if calls.len() == 0 {
        seq![]
    } else {
        joined_fragments(calls.drop_last(), index) + if calls.last().index == index
            && calls.last().function is Some && calls.last().function->0.arguments is Some {
            calls.last().function->0.arguments->0@
        } else {
            seq![]
        }
    }
}

/// The id of every call is known from its first delta on, and no two calls share one.
pub open spec fn ids_are_given(calls: Seq<openai::ToolCallDelta>) -> bool {
    forall|k: int, l: int|
        0 <= k < calls.len() && 0 <= l < calls.len() ==> (#[trigger] first_id(
            calls.take(k + 1),
            calls[k].index,
        ) == #[trigger] first_id(calls.take(l + 1), calls[l].index) <==> calls[k].index
            == calls[l].index)
}

/// A client that joins the fragments it gets for an id gets the arguments that the provider sent
/// for that call, character for character.
pub proof fn law_arguments_arrive_whole(calls: Seq<openai::ToolCallDelta>, k: int)
    requires
        ids_are_given(calls),
        0 <= k < calls.len(),
    ensures
        joined_inputs(told_of(calls), first_id(calls.take(k + 1), calls[k].index))
            == joined_fragments(calls, calls[k].index),
{
    lemma_arrive(calls, calls.len(), k);
    assert(calls.take(calls.len() as int) =~= calls);
}

proof fn lemma_joined_inputs_concat(a: Seq<Event>, b: Seq<Event>, id: Seq<char>)
    ensures
        joined_inputs(a + b, id) == joined_inputs(a, id) + joined_inputs(b, id),
    decreases b.len(),
{
    if b.len() == 0 {
        assert(a + b =~= a);
        assert(joined_inputs(a, id) + joined_inputs(b, id) =~= joined_inputs(a, id));
    } else {
        assert((a + b).drop_last() =~= a + b.drop_last());
        assert((a + b).last() == b.last());
        lemma_joined_inputs_concat(a, b.drop_last(), id);
        assert(joined_inputs(a + b, id) =~= joined_inputs(a, id) + joined_inputs(b, id));
    }
}

proof fn lemma_arrive(calls: Seq<openai::ToolCallDelta>, n: nat, k: int)
    requires
        ids_are_given(calls),
        0 <= k < calls.len(),
        n <= calls.len(),
    ensures
        joined_inputs(told_of(calls.take(n as int)), first_id(calls.take(k + 1), calls[k].index))
            == joined_fragments(calls.take(n as int), calls[k].index),
    decreases n,
{
    let index = calls[k].index;
    let id = first_id(calls.take(k + 1), index);
    let now = calls.take(n as int);
    if n > 0 {
        lemma_arrive(calls, (n - 1) as nat, k);
        let before = calls.take(n - 1);
        let tc = calls[n - 1];
        assert(now.drop_last() =~= before);
        assert(now =~= before.push(tc));
        let e = tells(before, tc);
        lemma_joined_inputs_concat(told_of(before), e, id);
        assert((first_id(calls.take((n - 1) + 1), calls[n - 1].index) == id) <==> (tc.index
            == index));
        reveal_with_fuel(joined_inputs, 3);
        let start = if tc.function is Some && tc.function->0.name is Some && first_name(
            before,
            tc.index,
        ).len() == 0 {
            seq![Event::ToolStart { name: tc.function->0.name->0@, id: first_id(now, tc.index) }]
        } else {
            seq![]
        };
        let input = e.skip(start.len() as int);
        assert(e =~= start + input);
        lemma_joined_inputs_concat(start, input, id);
        assert(start.len() > 0 ==> start.drop_last() =~= seq![]);
        assert(joined_inputs(start, id) =~= seq![]);
        assert(input.len() > 0 ==> input.drop_last() =~= seq![]);
        let fragment = if tc.index == index && tc.function is Some && tc.function->0.arguments
            is Some {
            tc.function->0.arguments->0@
        } else {
            seq![]
        };
        assert(joined_inputs(input, id) =~= fragment);
        assert(joined_inputs(e, id) =~= fragment);
    }
}

/// A stream closes every call that was ever made known, by an id or by a name, exactly once, in the
/// numeric order of the indices, each under its first name and id. Then it reports the usage that
/// came last, if any came, and then it stops. It does none of this before its end.
pub proof fn law_every_call_is_closed_once(
    model: Seq<char>,
    conversation: Seq<char>,
    chunks: Seq<openai::StreamChunk>,
)
    ensures
        ({
            let all = calls(chunks, chunks.len());
            exists|indices: Seq<usize>|
                {
                    &&& ascending(indices)
                    &&& forall|i: usize| #[trigger] indices.contains(i) <==> introduced(all, i)
                    &&& closing(stream_events(fresh(model, conversation), chunks))
                        == #[trigger] close_calls(all, indices) + reports(
                        last_usage(chunks, chunks.len()),
                    ) + seq![Event::Stop]
                }
        }),
        closing(fed(fresh(model, conversation), chunks, chunks.len()).1) == Seq::<Event>::empty(),
{
    let s = fresh(model, conversation);
    let n = chunks.len();
    let all = calls(chunks, n);
    let a = fed(s, chunks, n);
    let z = on_end(a.0);
    lemma_fed_told(s, chunks, n);
    lemma_fed_steady(s, chunks, n);
    lemma_nothing_closes(a.1);
    let tools = a.0.tools;
    if tools.len() > 0 {
        assert(lists(tools, tools[0].index));
        assert(introduced(all, tools[0].index));
    }
    lemma_end_closes(a.0);
    lemma_closing_concat(a.1, z.1);
    let indices = tools.map_values(|k: Known| k.index);
    assert forall|i: usize| #[trigger] indices.contains(i) <==> introduced(all, i) by {
        assert(lists(tools, i) <==> introduced(all, i));
        if lists(tools, i) {
            let j = choose|j: int| 0 <= j < tools.len() && (#[trigger] tools[j]).index == i;
            assert(indices[j] == i);
        }
        if indices.contains(i) {
            let j = choose|j: int| 0 <= j < indices.len() && indices[j] == i;
            assert(tools[j].index == i);
        }
    }
    let stops = tools.map_values(|k: Known| stop_of(k));
    assert(close_calls(all, indices) =~= stops) by {
        assert forall|j: int| 0 <= j < tools.len() implies #[trigger] close_calls(all, indices)[j]
            == stops[j] by {
            lemma_known_at(tools, j);
            assert(known(tools, tools[j].index).id == first_id(all, tools[j].index));
        }
    }
    assert(ascending(indices)) by {
        assert forall|i: int, j: int| 0 <= i < j < indices.len() implies indices[i]
            < indices[j] by {
            assert(tools[i].index < tools[j].index);
        }
    }
    assert(closing(a.1 + z.1) =~= closing(z.1));
}

/// No stretch of the answer or of the reasoning is empty, and each names the model that the stream
/// was made for.
pub proof fn law_texts_name_the_model(
    model: Seq<char>,
    conversation: Seq<char>,
    chunks: Seq<openai::StreamChunk>,
    i: int,
)
    requires
        0 <= i < stream_events(fresh(model, conversation), chunks).len(),
    ensures
        says_something(stream_events(fresh(model, conversation), chunks)[i]),
        model.len() > 0 ==> names_model(
            stream_events(fresh(model, conversation), chunks)[i],
            model,
        ),
{
    let s = fresh(model, conversation);
    let a = fed(s, chunks, chunks.len());
    let z = on_end(a.0);
    lemma_fed_steady(s, chunks, chunks.len());
    lemma_fed_told(s, chunks, chunks.len());
    let tools = a.0.tools;
    if tools.len() > 0 {
        assert(lists(tools, tools[0].index));
        assert(introduced(calls(chunks, chunks.len()), tools[0].index));
    }
    lemma_end_closes(a.0);
    let all = stream_events(s, chunks);
    assert(all == a.1 + z.1);
    if i < a.1.len() {
        assert(all[i] == a.1[i]);
    } else {
        assert(all[i] == z.1[i - a.1.len()]);
    }
}

} // verus!
