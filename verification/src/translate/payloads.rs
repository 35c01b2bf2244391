//! What the frames of a stream say: the name of each event, and the members of its payload.

use vstd::prelude::*;
use vstd::string::*;
use vstd::utf8::encode_utf8;

use crate::json::{compact, Json};
use crate::text::decimal;
use crate::translate::fidelity::{member, member_from};
use crate::translate::response::{
    frame_of, frames_of, fresh, informed, kind_of, on_choice, on_choices, on_chunk, on_tool_calls,
    payload_of, Event, Session,
};
use crate::translate::stream::{contents_of, fed};
use crate::translate::thinking;
use crate::types::openai;

verus! {

/// Every event goes under the name that a client dispatches it by.
pub proof fn law_events_go_under_their_names(e: Event)
    ensures
        match e {
            Event::Initial { .. } => kind_of(e) == "initial-response"@,
            Event::Reasoning { .. } => kind_of(e) == "reasoningContentEvent"@,
            Event::Answer { .. } => kind_of(e) == "assistantResponseEvent"@,
            Event::ToolStart { .. } => kind_of(e) == "toolUseEvent"@,
            Event::ToolInput { .. } => kind_of(e) == "toolUseEvent"@,
            Event::ToolStop { .. } => kind_of(e) == "toolUseEvent"@,
            Event::Usage { .. } => kind_of(e) == "usageEvent"@,
            Event::Stop => kind_of(e) == "messageStopEvent"@,
        },
        contents_of(e).0.len() == 3,
        contents_of(e).0[0] == (":message-type"@, "event"@),
        contents_of(e).0[1] == (":event-type"@, kind_of(e)),
        contents_of(e).0[2] == (
            ":content-type"@,
            if e is Initial {
                "application/x-amz-json-1.0"@
            } else {
                "application/json"@
            },
        ),
        contents_of(e).1 == encode_utf8(compact(payload_of(e))),
{
}

/// The payload of an event tells what the event is about, each thing under its own name, and
/// nothing besides.
pub proof fn law_payloads_tell_what_happened(e: Event)
    ensures
        payload_of(e) is Object,
        match e {
            Event::Initial { conversation } => {
                &&& payload_of(e)->Object_0.len() == 1
                &&& member(payload_of(e), "conversationId"@) == Some(Json::Text(conversation))
            },
            Event::Reasoning { text, model } => {
                &&& payload_of(e)->Object_0.len() == 2
                &&& member(payload_of(e), "content"@) == Some(Json::Text(text))
                &&& member(payload_of(e), "modelId"@) == Some(Json::Text(model))
            },
            Event::Answer { text, model } => {
                &&& payload_of(e)->Object_0.len() == 2
                &&& member(payload_of(e), "content"@) == Some(Json::Text(text))
                &&& member(payload_of(e), "modelId"@) == Some(Json::Text(model))
            },
            Event::ToolStart { name, id } => {
                &&& payload_of(e)->Object_0.len() == 2
                &&& member(payload_of(e), "name"@) == Some(Json::Text(name))
                &&& member(payload_of(e), "toolUseId"@) == Some(Json::Text(id))
            },
            Event::ToolInput { input, name, id } => {
                &&& payload_of(e)->Object_0.len() == 3
                &&& member(payload_of(e), "input"@) == Some(Json::Text(input))
                &&& member(payload_of(e), "name"@) == Some(Json::Text(name))
                &&& member(payload_of(e), "toolUseId"@) == Some(Json::Text(id))
            },
            Event::ToolStop { name, id } => {
                &&& payload_of(e)->Object_0.len() == 3
                &&& member(payload_of(e), "stop"@) == Some(Json::Bool(true))
                &&& member(payload_of(e), "name"@) == Some(Json::Text(name))
                &&& member(payload_of(e), "toolUseId"@) == Some(Json::Text(id))
            },
            Event::Usage { prompt, completion } => {
                &&& payload_of(e)->Object_0.len() == 2
                &&& member(payload_of(e), "inputTokens"@) == Some(
                    Json::Number(decimal(prompt as nat)),
                )
                &&& member(payload_of(e), "outputTokens"@) == Some(
                    Json::Number(decimal(completion as nat)),
                )
            },
            Event::Stop => payload_of(e)->Object_0.len() == 0,
        },
{
    reveal_with_fuel(member_from, 4);
    reveal_strlit("content");
    reveal_strlit("modelId");
    reveal_strlit("name");
    reveal_strlit("toolUseId");
    reveal_strlit("input");
    reveal_strlit("stop");
    reveal_strlit("inputTokens");
    reveal_strlit("outputTokens");
    assert("content"@[0] != "modelId"@[0]);
    assert("name"@.len() != "toolUseId"@.len());
    assert("name"@.len() != "input"@.len());
    assert("input"@.len() != "toolUseId"@.len());
    assert("stop"@[0] != "name"@[0]);
    assert("stop"@.len() != "toolUseId"@.len());
    assert("inputTokens"@.len() != "outputTokens"@.len());
}

/// A stream sends its frames in the order of its events, one for each.
pub proof fn law_each_event_is_one_frame(events: Seq<Event>, i: int)
    requires
        0 <= i < events.len(),
    ensures
        frames_of(events).len() == events.len(),
        frames_of(events)[i] == frame_of(events[i]),
{
}

// ── Reasoning ────────────────────────────────────────────────────────────────

/// What a choice brings of reasoning of its own.
pub open spec fn native(choice: openai::Choice) -> Seq<char> {
    match choice.delta.reasoning_content {
        Some(t) => t@,
        None => seq![],
    }
}

/// What a choice says of reasoning, after the splitter was fed these deltas: its own, then what the
/// splitter finds in its content.
pub open spec fn reasons(deltas: Seq<Seq<char>>, choice: openai::Choice) -> Seq<char> {
    native(choice) + match choice.delta.content {
        Some(t) => thinking::fed(deltas.push(t@)).reasoning.skip(
            thinking::fed(deltas).reasoning.len() as int,
        ),
        None => seq![],
    }
}

/// The deltas of content after a choice.
pub open spec fn fed_by(deltas: Seq<Seq<char>>, choice: openai::Choice) -> Seq<Seq<char>> {
    match choice.delta.content {
        Some(t) => deltas.push(t@),
        None => deltas,
    }
}

/// One choice sends its own reasoning first, then what stands in thinking blocks of its content, and
/// then what stands outside of them, each word for word.
pub proof fn law_a_choice_says_what_it_brings(s: Session, choice: openai::Choice, deltas: Seq<Seq<char>>)
    requires
        s.held == thinking::fed(deltas).pending,
        s.block == thinking::fed(deltas).close,
    ensures
        ({
            let m = on_choice(s, choice);
            let before = thinking::fed(deltas);
            let after = thinking::fed(fed_by(deltas, choice));
            &&& crate::translate::stream::thoughts(m.1) == reasons(deltas, choice)
            &&& crate::translate::stream::answers(m.1) == after.text.skip(before.text.len() as int)
            &&& m.0.held == after.pending
            &&& m.0.block == after.close
        }),
{
    crate::translate::stream::lemma_choice_thoughts(s, choice);
    let before = thinking::fed(deltas);
    match choice.delta.content {
        Some(t) => {
            let all = deltas.push(t@);
            assert(all.drop_last() =~= deltas);
            assert(all.last() == t@);
            let split = thinking::scan(s.held + t@, s.block);
            let after = thinking::fed(all);
            assert(after == thinking::after(before, split));
            assert(after.reasoning.skip(before.reasoning.len() as int) =~= split.reasoning);
            assert(after.text.skip(before.text.len() as int) =~= split.text);
        },
        None => {
            assert(before.text.skip(before.text.len() as int) =~= seq![]);
            assert(reasons(deltas, choice) =~= native(choice));
        },
    }
}

// ── What is learned on the way ───────────────────────────────────────────────

/// A finish reason has come.
pub open spec fn finishes(chunk: openai::StreamChunk) -> bool {
    exists|j: int|
        0 <= j < chunk.choices@.len() && (#[trigger] chunk.choices@[j]).finish_reason is Some
}

proof fn lemma_choices_finish(s: Session, choices: Seq<openai::Choice>, n: nat)
    requires
        n <= choices.len(),
    ensures
        on_choices(s, choices, n).0.finished == (s.finished || exists|j: int|
            0 <= j < n && (#[trigger] choices[j]).finish_reason is Some),
        on_choices(s, choices, n).0.model == s.model,
    decreases n,
{
    if n > 0 {
        lemma_choices_finish(s, choices, (n - 1) as nat);
        let a = on_choices(s, choices, (n - 1) as nat);
        let choice = choices[n - 1];
        let tcs = choice.delta.tool_calls@;
        lemma_calls_keep(a.0, tcs, tcs.len());
        assert(on_choice(a.0, choice).0.finished == (a.0.finished || choice.finish_reason is Some));
    }
}

proof fn lemma_calls_keep(s: Session, tcs: Seq<openai::ToolCallDelta>, n: nat)
    ensures
        on_tool_calls(s, tcs, n).0.finished == s.finished,
        on_tool_calls(s, tcs, n).0.model == s.model,
    decreases n,
{
    if n > 0 {
        lemma_calls_keep(s, tcs, (n - 1) as nat);
    }
}

/// Whether the provider gave a finish reason is remembered: it is seen from the first chunk that
/// brings one on, and not before.
pub proof fn law_a_finish_reason_is_seen(
    model: Seq<char>,
    conversation: Seq<char>,
    chunks: Seq<openai::StreamChunk>,
    n: nat,
)
    requires
        n <= chunks.len(),
    ensures
        fed(fresh(model, conversation), chunks, n).0.finished <==> exists|i: int|
            0 <= i < n && finishes(#[trigger] chunks[i]),
    decreases n,
{
    if n > 0 {
        law_a_finish_reason_is_seen(model, conversation, chunks, (n - 1) as nat);
        let a = fed(fresh(model, conversation), chunks, (n - 1) as nat);
        let chunk = chunks[n - 1];
        lemma_choices_finish(informed(a.0, chunk), chunk.choices@, chunk.choices@.len());
    }
}

/// A stream that was made for no model takes the first name of one that comes, and keeps it; one
/// that was made for a model keeps that.
pub proof fn law_the_model_is_learned_once(s: Session, chunk: openai::StreamChunk)
    ensures
        s.model.len() > 0 || chunk.model is None ==> on_chunk(s, chunk).0.model == s.model,
        s.model.len() == 0 && chunk.model is Some ==> on_chunk(s, chunk).0.model
            == chunk.model->0@,
{
    lemma_choices_finish(informed(s, chunk), chunk.choices@, chunk.choices@.len());
}

/// The members of a payload stand in the order of their names.
pub proof fn law_members_stand_in_order(e: Event)
    ensures
        ({
            let m = payload_of(e)->Object_0;
            match e {
                Event::Reasoning { .. } => m[0].0 == "content"@ && m[1].0 == "modelId"@,
                Event::Answer { .. } => m[0].0 == "content"@ && m[1].0 == "modelId"@,
                Event::ToolStart { .. } => m[0].0 == "name"@ && m[1].0 == "toolUseId"@,
                Event::ToolInput { .. } => m[0].0 == "input"@ && m[1].0 == "name"@ && m[2].0
                    == "toolUseId"@,
                Event::ToolStop { .. } => m[0].0 == "name"@ && m[1].0 == "stop"@ && m[2].0
                    == "toolUseId"@,
                Event::Usage { .. } => m[0].0 == "inputTokens"@ && m[1].0 == "outputTokens"@,
                _ => true,
            }
        }),
{
}

} // verus!
