//! CodeWhisperer conversation state -> OpenAI chat-completions request.
//!
//! The IDE never sends a `system` role: its system prompt is prefixed into the first user turn's
//! text, so it arrives here as ordinary user content and is forwarded verbatim.

use vstd::prelude::*;
use vstd::string::*;

use crate::error::Error;
use crate::json::{compact, items_view, members_view, value_view, Json, JsonValue};
use crate::text::{
    chars_of, decimal, join, joined, lower, lower_chars, numeral, same, text_of, texts, trim,
    trimmed,
};
use crate::types::{cw, openai};
use crate::types::openai::{
    call_seq, offer_seq, part_seq, text_turn, turn_seq, Body, Call, Offer, Part, Role, Turn,
};

verus! {

// ── Model ────────────────────────────────────────────────────────────────────

/// An optional text, empty where there is none.
pub open spec fn text_or_empty(o: Option<String>) -> Seq<char> {
    match o {
        Some(s) => s@,
        None => seq![],
    }
}

/// The MIME type of an image format, whatever the case of its letters.
pub open spec fn mime_of(format: Seq<char>) -> Option<Seq<char>> {
    let f = lower(format);
    if f == "png"@ {
        Some("image/png"@)
    } else if f == "jpeg"@ || f == "jpg"@ {
        Some("image/jpeg"@)
    } else if f == "gif"@ {
        Some("image/gif"@)
    } else if f == "webp"@ {
        Some("image/webp"@)
    } else {
        None
    }
}

/// The arguments of a call as a string: nothing and null are an empty object, a string is taken
/// as it is, anything else is written out.
pub open spec fn arguments_of(input: Option<JsonValue>) -> Seq<char> {
    match input {
        None => "{}"@,
        Some(JsonValue::Null) => "{}"@,
        Some(JsonValue::Text(s)) => s@,
        Some(v) => compact(v@),
    }
}

/// The texts among the first `n` blocks of a tool result.
pub open spec fn block_texts(blocks: Seq<cw::ToolResultBlock>, n: nat) -> Seq<Seq<char>>
    decreases n,
{
    if n == 0 {
        seq![]
    } else {
        let before = block_texts(blocks, (n - 1) as nat);
        match blocks[n - 1].text {
            Some(t) => before.push(t@),
            None => before,
        }
    }
}

/// The message of one tool result: its texts, one per line, marked where the tool failed.
pub open spec fn result_turn(result: cw::ToolResult) -> Turn {
    let text = join(block_texts(result.content@, result.content@.len()), "\n"@);
    let failed = match result.status {
        Some(s) => s@ == "error"@,
        None => false,
    };
    Turn {
        role: Role::Tool,
        content: Some(
            Body::Text(
                if failed {
                    "[tool error] "@ + text
                } else {
                    text
                },
            ),
        ),
        tool_call_id: Some(text_or_empty(result.tool_use_id)),
        tool_calls: seq![],
    }
}

/// The data URL of an image that can be inlined.
pub open spec fn image_part(image: cw::Image) -> Option<Part> {
    match (image.format, image.source) {
        (Some(format), Some(source)) => match (mime_of(format@), source.bytes) {
            (Some(mime), Some(bytes)) => if bytes@.len() == 0 {
                None
            } else {
                Some(Part::Image("data:"@ + mime + ";base64,"@ + bytes@))
            },
            _ => None,
        },
        _ => None,
    }
}

/// The images among the first `n` that can be inlined.
pub open spec fn image_parts(images: Seq<cw::Image>, n: nat) -> Seq<Part>
    decreases n,
{
    if n == 0 {
        seq![]
    } else {
        let before = image_parts(images, (n - 1) as nat);
        match image_part(images[n - 1]) {
            Some(p) => before.push(p),
            None => before,
        }
    }
}

/// The tool results that a user's turn brings.
pub open spec fn results_of(msg: cw::UserInputMessage) -> Seq<cw::ToolResult> {
    match msg.user_input_message_context {
        Some(ctx) => ctx.tool_results@,
        None => seq![],
    }
}

/// What a user's turn says itself, after its tool results: text and images where there is an
/// image, else the text alone; nothing where there is no text and a tool result says it all. The
/// text is taken over as it is; one that is all white space says nothing.
pub open spec fn own_turn(msg: cw::UserInputMessage) -> Seq<Turn> {
    let text = text_or_empty(msg.content);
    let says = trim(text).len() > 0;
    let images = image_parts(msg.images@, msg.images@.len());
    if images.len() > 0 {
        let parts = if says {
            seq![Part::Text(text)] + images
        } else {
            images
        };
        seq![
            Turn {
                role: Role::User,
                content: Some(Body::Parts(parts)),
                tool_call_id: None,
                tool_calls: seq![],
            },
        ]
    } else if says || results_of(msg).len() == 0 {
        seq![text_turn(Role::User, text)]
    } else {
        seq![]
    }
}

/// A user's turn: one message for each tool result, then what the turn says itself.
pub open spec fn user_turns(msg: cw::UserInputMessage) -> Seq<Turn> {
    results_of(msg).map_values(|r: cw::ToolResult| result_turn(r)) + own_turn(msg)
}

/// The call that a tool use stands for; one without an id is numbered by its place.
pub open spec fn call_of(i: int, tool_use: cw::ToolUse) -> Call {
    Call {
        id: match tool_use.tool_use_id {
            Some(id) => id@,
            None => "call_"@ + decimal(i as nat),
        },
        kind: "function"@,
        name: text_or_empty(tool_use.name),
        arguments: arguments_of(tool_use.input),
    }
}

/// An assistant's turn: its text, or its tool calls with the text beside them if there is any.
pub open spec fn assistant_turn(msg: cw::AssistantResponseMessage) -> Turn {
    let text = text_or_empty(msg.content);
    if msg.tool_uses@.len() == 0 {
        text_turn(Role::Assistant, text)
    } else {
        Turn {
            role: Role::Assistant,
            content: if text.len() > 0 {
                Some(Body::Text(text))
            } else {
                None
            },
            tool_call_id: None,
            tool_calls: msg.tool_uses@.map(|i: int, t: cw::ToolUse| call_of(i, t)),
        }
    }
}

/// What one slot of the history becomes.
pub open spec fn history_turns(item: cw::Message) -> Seq<Turn> {
    match (item.user_input_message, item.assistant_response_message) {
        (Some(user), _) => user_turns(user),
        (None, Some(assistant)) => seq![assistant_turn(assistant)],
        (None, None) => seq![],
    }
}

/// What the first `n` slots of the history become.
pub open spec fn past_turns(history: Seq<cw::Message>, n: nat) -> Seq<Turn>
    decreases n,
{
    if n == 0 {
        seq![]
    } else {
        past_turns(history, (n - 1) as nat) + history_turns(history[n - 1])
    }
}

/// The messages of a conversation: its history, then the current turn.
pub open spec fn conversation_turns(state: cw::ConversationState) -> Seq<Turn> {
    let history = state.history@;
    past_turns(history, history.len()) + match state.current() {
        Some(msg) => user_turns(msg),
        None => seq![],
    }
}

/// The tools that a turn declares.
pub open spec fn declared(msg: Option<cw::UserInputMessage>) -> Seq<cw::ToolSlot> {
    match msg {
        Some(m) => match m.user_input_message_context {
            Some(ctx) => ctx.tools@,
            None => seq![],
        },
        None => seq![],
    }
}

/// The tools of the first turn, from the `i`-th on, that declares any.
pub open spec fn declared_in(history: Seq<cw::Message>, i: nat) -> Seq<cw::ToolSlot>
    decreases history.len() - i,
{
    if i >= history.len() {
        seq![]
    } else if declared(history[i as int].user_input_message).len() > 0 {
        declared(history[i as int].user_input_message)
    } else {
        declared_in(history, i + 1)
    }
}

/// The tools of a conversation live on the current turn, or on the first turn of the history
/// that declared any.
pub open spec fn tool_slots(state: cw::ConversationState) -> Seq<cw::ToolSlot> {
    if declared(state.current()).len() > 0 {
        declared(state.current())
    } else {
        declared_in(state.history@, 0)
    }
}

/// The schema of a tool that declares none: an object without members.
pub open spec fn empty_schema() -> Json {
    Json::Object(
        seq![
            ("properties"@, Json::Object(seq![])),
            ("required"@, Json::Array(seq![])),
            ("type"@, Json::Text("object"@)),
        ],
    )
}

/// What a tool specification offers to the model.
pub open spec fn offer_of(spec_: cw::ToolSpecification) -> Offer {
    let name = text_or_empty(spec_.name);
    Offer {
        kind: "function"@,
        name,
        description: match spec_.description {
            Some(d) => d@,
            None => "Tool: "@ + name,
        },
        parameters: match spec_.input_schema {
            Some(schema) => match schema.json {
                Some(v) => v@,
                None => empty_schema(),
            },
            None => empty_schema(),
        },
    }
}

/// What the first `n` slots offer; a slot without a specification offers nothing.
pub open spec fn offers(slots: Seq<cw::ToolSlot>, n: nat) -> Seq<Offer>
    decreases n,
{
    if n == 0 {
        seq![]
    } else {
        let before = offers(slots, (n - 1) as nat);
        match slots[n - 1].specification() {
            Some(s) => before.push(offer_of(s)),
            None => before,
        }
    }
}

/// The tools that a conversation offers to the model.
pub open spec fn conversation_offers(state: cw::ConversationState) -> Seq<Offer> {
    offers(tool_slots(state), tool_slots(state).len())
}

// ── Laws ─────────────────────────────────────────────────────────────────────

/// A user's turn always says something: first every tool result, as messages of the tool, then
/// at most one message of the user.
pub proof fn law_tool_results_come_first(msg: cw::UserInputMessage)
    ensures
        user_turns(msg).len() > 0,
        results_of(msg).len() <= user_turns(msg).len() <= results_of(msg).len() + 1,
        forall|i: int|
            0 <= i < user_turns(msg).len() ==> (#[trigger] user_turns(msg)[i]).role == if i
                < results_of(msg).len() {
                Role::Tool
            } else {
                Role::User
            },
{
}

/// What the user says is forwarded verbatim, white space around it included.
pub proof fn law_user_text_is_verbatim(msg: cw::UserInputMessage)
    requires
        trim(text_or_empty(msg.content)).len() > 0,
    ensures
        user_turns(msg).len() == results_of(msg).len() + 1,
        match user_turns(msg).last().content {
            Some(Body::Text(text)) => text == text_or_empty(msg.content),
            Some(Body::Parts(parts)) => parts.len() > 0 && parts[0] == Part::Text(
                text_or_empty(msg.content),
            ),
            None => false,
        },
{
}

/// A turn that carries nothing but tool results gives no empty message of the user.
pub proof fn law_no_empty_message_beside_tool_results(msg: cw::UserInputMessage)
    requires
        results_of(msg).len() > 0,
        trim(text_or_empty(msg.content)).len() == 0,
        image_parts(msg.images@, msg.images@.len()).len() == 0,
    ensures
        user_turns(msg).len() == results_of(msg).len(),
{
}

/// A conversation has no messages exactly where it has no current turn and nothing but empty
/// slots in its history.
pub proof fn law_only_an_empty_conversation_has_no_messages(state: cw::ConversationState)
    ensures
        conversation_turns(state).len() == 0 <==> {
            &&& state.current() is None
            &&& forall|i: int|
                0 <= i < state.history@.len() ==> (#[trigger] state.history@[i]).user_input_message
                    is None && state.history@[i].assistant_response_message is None
        },
{
    let h = state.history@;
    lemma_past(h, h.len());
    if let Some(msg) = state.current() {
        law_tool_results_come_first(msg);
    }
}

proof fn lemma_past(history: Seq<cw::Message>, n: nat)
    requires
        n <= history.len(),
    ensures
        past_turns(history, n).len() == 0 <==> forall|i: int|
            0 <= i < n ==> (#[trigger] history[i]).user_input_message is None
                && history[i].assistant_response_message is None,
    decreases n,
{
    if n > 0 {
        lemma_past(history, (n - 1) as nat);
        let item = history[n - 1];
        if let Some(msg) = item.user_input_message {
            law_tool_results_come_first(msg);
        }
    }
}

// ── Conversion ───────────────────────────────────────────────────────────────

/// Image formats that may be inlined, mapped to the MIME type for the data URL.
pub fn image_mime(format: &str) -> (r: Option<&'static str>)
    ensures
        match r {
            Some(m) => mime_of(format@) == Some(m@),
            None => mime_of(format@) is None,
        },
{
    let chars = chars_of(format);
    let lowered = text_of(lower_chars(chars.as_slice()).as_slice());
    let f = lowered.as_str();
    if same(f, "png") {
        Some("image/png")
    } else if same(f, "jpeg") || same(f, "jpg") {
        Some("image/jpeg")
    } else if same(f, "gif") {
        Some("image/gif")
    } else if same(f, "webp") {
        Some("image/webp")
    } else {
        None
    }
}

/// The IDE carries tool input as parsed JSON; upstream it has to be a string.
pub fn arguments_string(input: Option<&JsonValue>) -> (r: String)
    ensures
        r@ == arguments_of(
            match input {
                Some(v) => Some(*v),
                None => None,
            },
        ),
{
    match input {
        None => "{}".to_string(),
        Some(JsonValue::Null) => "{}".to_string(),
        Some(JsonValue::Text(s)) => s.clone(),
        Some(v) => v.to_text(),
    }
}

/// An optional text, empty where there is none.
fn or_empty(o: &Option<String>) -> (r: String)
    ensures
        r@ == text_or_empty(*o),
{
    match o {
        Some(s) => s.clone(),
        None => {
            let r = String::new();
            assert(r@ =~= seq![]);
            r
        },
    }
}

/// The message of one tool result.
fn convert_tool_result(result: &cw::ToolResult) -> (m: openai::ChatMessage)
    ensures
        m@ == result_turn(*result),
{
    let mut lines: Vec<String> = Vec::new();
    let mut i: usize = 0;
    assert(texts(lines@) =~= seq![]);
    while i < result.content.len()
        invariant
            i <= result.content@.len(),
            texts(lines@) == block_texts(result.content@, i as nat),
        decreases result.content@.len() - i,
    {
        let ghost before = lines@;
        match &result.content[i].text {
            Some(t) => {
                lines.push(t.clone());
                assert(texts(lines@) =~= texts(before).push(t@));
            },
            None => {},
        }
        i += 1;
    }
    let mut text = joined(lines.as_slice(), "\n");
    let failed = match &result.status {
        Some(s) => same(s.as_str(), "error"),
        None => false,
    };
    if failed {
        let mut marked = "[tool error] ".to_string();
        marked.push_str(text.as_str());
        text = marked;
    }
    let tool_calls: Vec<openai::ToolCall> = Vec::new();
    assert(call_seq(tool_calls@) =~= seq![]);
    openai::ChatMessage {
        role: openai::Role::Tool,
        content: Some(openai::Content::Text(text)),
        tool_call_id: Some(or_empty(&result.tool_use_id)),
        tool_calls,
    }
}

/// The data URL of an image that can be inlined.
fn convert_image(image: &cw::Image) -> (r: Option<openai::ContentPart>)
    ensures
        match r {
            Some(p) => image_part(*image) == Some(p@),
            None => image_part(*image) is None,
        },
{
    let format = match &image.format {
        Some(f) => f,
        None => {
            return None;
        },
    };
    let source = match &image.source {
        Some(s) => s,
        None => {
            return None;
        },
    };
    let mime = match image_mime(format.as_str()) {
        Some(m) => m,
        None => {
            return None;
        },
    };
    let bytes = match &source.bytes {
        Some(b) => b,
        None => {
            return None;
        },
    };
    if bytes.as_str().is_empty() {
        return None;
    }
    let mut url = "data:".to_string();
    url.push_str(mime);
    url.push_str(";base64,");
    url.push_str(bytes.as_str());
    Some(openai::ContentPart::ImageUrl { image_url: openai::ImageUrl { url } })
}

/// One user turn fans out to several messages: every tool result becomes its own message with
/// the role of a tool, and only then comes the message with text and images.
pub fn convert_user_message(msg: &cw::UserInputMessage, out: &mut Vec<openai::ChatMessage>)
    ensures
        turn_seq(final(out)@) == turn_seq(old(out)@) + user_turns(*msg),
{
    let ghost start = turn_seq(out@);
    let mut n_results: usize = 0;
    let ghost results = results_of(*msg);
    let ghost result_turns = results.map_values(|r: cw::ToolResult| result_turn(r));
    assert(start + result_turns.take(0) =~= start);
    match &msg.user_input_message_context {
        Some(ctx) => {
            while n_results < ctx.tool_results.len()
                invariant
                    results == ctx.tool_results@,
                    n_results <= results.len(),
                    result_turns == results.map_values(|r: cw::ToolResult| result_turn(r)),
                    turn_seq(out@) == start + result_turns.take(n_results as int),
                decreases results.len() - n_results,
            {
                let m = convert_tool_result(&ctx.tool_results[n_results]);
                let ghost before = out@;
                out.push(m);
                n_results += 1;
                assert(turn_seq(out@) =~= turn_seq(before).push(m@));
                assert(start + result_turns.take(n_results as int) =~= (start
                    + result_turns.take(n_results - 1)).push(result_turns[n_results - 1]));
            }
        },
        None => {},
    }
    assert(n_results == results.len());
    assert(result_turns.take(n_results as int) =~= result_turns);
    let ghost said = out@;

    let text = or_empty(&msg.content);
    let says = !trimmed(text.as_str()).as_str().is_empty();

    let mut images: Vec<openai::ContentPart> = Vec::new();
    let mut i: usize = 0;
    assert(part_seq(images@) =~= seq![]);
    while i < msg.images.len()
        invariant
            i <= msg.images@.len(),
            part_seq(images@) == image_parts(msg.images@, i as nat),
        decreases msg.images@.len() - i,
    {
        let ghost before = images@;
        match convert_image(&msg.images[i]) {
            Some(p) => {
                images.push(p);
                assert(part_seq(images@) =~= part_seq(before).push(p@));
            },
            None => {},
        }
        i += 1;
    }

    if images.len() > 0 {
        let ghost image_views = part_seq(images@);
        let mut parts: Vec<openai::ContentPart> = Vec::new();
        let ghost text_view = text@;
        if says {
            parts.push(openai::ContentPart::Text { text });
        }
        let ghost head = parts@;
        let ghost tail = images@;
        parts.append(&mut images);
        let tool_calls: Vec<openai::ToolCall> = Vec::new();
        proof {
            assert(call_seq(tool_calls@) =~= seq![]);
            assert(part_seq(parts@) =~= part_seq(head) + part_seq(tail));
            assert(part_seq(head) + part_seq(tail) =~= if says {
                seq![Part::Text(text_view)] + image_views
            } else {
                image_views
            });
        }
        let m = openai::ChatMessage {
            role: openai::Role::User,
            content: Some(openai::Content::Parts(parts)),
            tool_call_id: None,
            tool_calls,
        };
        out.push(m);
        assert(turn_seq(out@) =~= turn_seq(said).push(m@));
        assert(turn_seq(out@) =~= start + user_turns(*msg));
        return;
    }
    // A turn that carries nothing but tool results must not emit an empty user message.
    if says || n_results == 0 {
        let m = openai::ChatMessage::text(openai::Role::User, text);
        out.push(m);
        assert(turn_seq(out@) =~= turn_seq(said).push(m@));
    }
    assert(turn_seq(out@) =~= start + user_turns(*msg));
}

/// The call that a tool use stands for.
fn convert_tool_use(i: usize, tool_use: &cw::ToolUse) -> (c: openai::ToolCall)
    ensures
        c@ == call_of(i as int, *tool_use),
{
    let id = match &tool_use.tool_use_id {
        Some(id) => id.clone(),
        None => {
            let mut id = "call_".to_string();
            id.push_str(numeral(i as u64).as_str());
            id
        },
    };
    openai::ToolCall {
        id,
        kind: "function",
        function: openai::FunctionCall {
            name: or_empty(&tool_use.name),
            arguments: arguments_string(tool_use.input.as_ref()),
        },
    }
}

/// An assistant turn becomes one message, with its tool calls if it made any.
pub fn convert_assistant_message(msg: &cw::AssistantResponseMessage) -> (m: openai::ChatMessage)
    ensures
        m@ == assistant_turn(*msg),
{
    let text = or_empty(&msg.content);
    if msg.tool_uses.len() == 0 {
        return openai::ChatMessage::text(openai::Role::Assistant, text);
    }
    let mut tool_calls: Vec<openai::ToolCall> = Vec::new();
    let ghost all = msg.tool_uses@.map(|i: int, t: cw::ToolUse| call_of(i, t));
    let mut i: usize = 0;
    assert(call_seq(tool_calls@) =~= all.take(0));
    while i < msg.tool_uses.len()
        invariant
            i <= msg.tool_uses@.len(),
            all == msg.tool_uses@.map(|i: int, t: cw::ToolUse| call_of(i, t)),
            call_seq(tool_calls@) == all.take(i as int),
        decreases msg.tool_uses@.len() - i,
    {
        let ghost before = tool_calls@;
        let call = convert_tool_use(i, &msg.tool_uses[i]);
        tool_calls.push(call);
        i += 1;
        assert(call_seq(tool_calls@) =~= call_seq(before).push(call@));
        assert(all.take(i as int) =~= all.take(i - 1).push(all[i - 1]));
    }
    assert(all.take(i as int) =~= all);
    let content = if text.as_str().is_empty() {
        None
    } else {
        Some(openai::Content::Text(text))
    };
    openai::ChatMessage { role: openai::Role::Assistant, content, tool_call_id: None, tool_calls }
}

/// The tools that a turn declares.
fn declared_slots(msg: &Option<cw::UserInputMessage>) -> (r: Option<&Vec<cw::ToolSlot>>)
    ensures
        match r {
            Some(slots) => slots@ == declared(*msg) && slots@.len() > 0,
            None => declared(*msg).len() == 0,
        },
{
    match msg {
        Some(m) => match &m.user_input_message_context {
            Some(ctx) => if ctx.tools.len() > 0 {
                Some(&ctx.tools)
            } else {
                None
            },
            None => None,
        },
        None => None,
    }
}

/// The tools of a conversation.
fn find_slots(state: &cw::ConversationState) -> (r: Option<&Vec<cw::ToolSlot>>)
    ensures
        match r {
            Some(slots) => slots@ == tool_slots(*state),
            None => tool_slots(*state).len() == 0,
        },
{
    match &state.current_message {
        Some(m) => match declared_slots(&m.user_input_message) {
            Some(slots) => {
                return Some(slots);
            },
            None => {},
        },
        None => {},
    }
    let mut i: usize = 0;
    while i < state.history.len()
        invariant
            i <= state.history@.len(),
            declared_in(state.history@, 0) == declared_in(state.history@, i as nat),
            tool_slots(*state) == declared_in(state.history@, 0),
        decreases state.history@.len() - i,
    {
        match declared_slots(&state.history[i].user_input_message) {
            Some(slots) => {
                return Some(slots);
            },
            None => {},
        }
        i += 1;
    }
    None
}

/// The schema of a tool that declares none.
fn default_schema() -> (r: JsonValue)
    ensures
        r@ == empty_schema(),
{
    let no_members: Vec<(String, JsonValue)> = Vec::new();
    let no_items: Vec<JsonValue> = Vec::new();
    let members = vec![
        ("properties".to_string(), JsonValue::Object(no_members)),
        ("required".to_string(), JsonValue::Array(no_items)),
        ("type".to_string(), JsonValue::Text("object".to_string())),
    ];
    proof {
        reveal_with_fuel(members_view, 4);
        reveal_with_fuel(value_view, 3);
        reveal_with_fuel(items_view, 2);
        assert(value_view(members@[0].1) == Json::Object(seq![]));
        assert(value_view(members@[1].1) == Json::Array(seq![]));
        assert(value_view(members@[2].1) == Json::Text("object"@));
        assert(members_view(members, 3) =~= seq![
            ("properties"@, Json::Object(seq![])),
            ("required"@, Json::Array(seq![])),
            ("type"@, Json::Text("object"@)),
        ]);
    }
    JsonValue::Object(members)
}

/// What a tool specification offers to the model.
fn convert_tool(specification: &cw::ToolSpecification) -> (t: openai::Tool)
    ensures
        t@ == offer_of(*specification),
{
    let name = or_empty(&specification.name);
    let description = match &specification.description {
        Some(d) => d.clone(),
        None => {
            let mut d = "Tool: ".to_string();
            d.push_str(name.as_str());
            d
        },
    };
    let parameters = match &specification.input_schema {
        Some(schema) => match &schema.json {
            Some(v) => v.copy(),
            None => default_schema(),
        },
        None => default_schema(),
    };
    openai::Tool { kind: "function", function: openai::Function { name, description, parameters } }
}

/// Tools live on the current turn, or on the first history turn that declared them.
pub fn extract_tools(state: &cw::ConversationState) -> (tools: Vec<openai::Tool>)
    ensures
        offer_seq(tools@) == conversation_offers(*state),
{
    let mut tools: Vec<openai::Tool> = Vec::new();
    assert(offer_seq(tools@) =~= seq![]);
    let slots = match find_slots(state) {
        Some(slots) => slots,
        None => {
            return tools;
        },
    };
    let mut i: usize = 0;
    while i < slots.len()
        invariant
            i <= slots@.len(),
            offer_seq(tools@) == offers(slots@, i as nat),
        decreases slots@.len() - i,
    {
        let ghost before = tools@;
        match slots[i].spec() {
            Some(specification) => {
                let tool = convert_tool(specification);
                tools.push(tool);
                assert(offer_seq(tools@) =~= offer_seq(before).push(tool@));
            },
            None => {},
        }
        i += 1;
    }
    tools
}

/// Build the upstream request. `model` is the already-mapped provider model, not the one that
/// the IDE asked for.
pub fn to_chat_request(req: &cw::Request, model: &str) -> (r: Result<openai::ChatRequest, Error>)
    ensures
        match r {
            Ok(chat) => {
                &&& conversation_turns(req.conversation_state).len() > 0
                &&& chat.model@ == model@
                &&& turn_seq(chat.messages@) == conversation_turns(req.conversation_state)
                &&& chat.stream
                &&& chat.stream_options == Some(openai::StreamOptions { include_usage: true })
                &&& offer_seq(chat.tools@) == conversation_offers(req.conversation_state)
                &&& match chat.tool_choice {
                    Some(choice) => chat.tools@.len() > 0 && choice@ == "auto"@,
                    None => chat.tools@.len() == 0,
                }
            },
            Err(e) => {
                &&& conversation_turns(req.conversation_state).len() == 0
                &&& e is Translate
                &&& e->Translate_0@ == "conversation produced no messages"@
            },
        },
{
    let state = &req.conversation_state;
    let mut messages: Vec<openai::ChatMessage> = Vec::new();
    let mut i: usize = 0;
    assert(turn_seq(messages@) =~= seq![]);
    while i < state.history.len()
        invariant
            i <= state.history@.len(),
            turn_seq(messages@) == past_turns(state.history@, i as nat),
        decreases state.history@.len() - i,
    {
        let item = &state.history[i];
        let ghost before = messages@;
        match &item.user_input_message {
            Some(user) => {
                convert_user_message(user, &mut messages);
            },
            None => match &item.assistant_response_message {
                Some(assistant) => {
                    let m = convert_assistant_message(assistant);
                    messages.push(m);
                    assert(turn_seq(messages@) =~= turn_seq(before) + seq![m@]);
                },
                None => {
                    assert(turn_seq(before) + seq![] =~= turn_seq(before));
                },
            },
        }
        i += 1;
    }
    let ghost past = turn_seq(messages@);
    assert(past + seq![] =~= past);
    match &state.current_message {
        Some(m) => match &m.user_input_message {
            Some(current) => {
                convert_user_message(current, &mut messages);
            },
            None => {},
        },
        None => {},
    }
    if messages.len() == 0 {
        return Err(Error::Translate("conversation produced no messages".to_string()));
    }
    let tools = extract_tools(state);
    let tool_choice = if tools.len() > 0 {
        Some("auto")
    } else {
        None
    };
    Ok(
        openai::ChatRequest {
            model: model.to_string(),
            messages,
            stream: true,
            stream_options: Some(openai::StreamOptions { include_usage: true }),
            tools,
            tool_choice,
        },
    )
}

} // verus!
