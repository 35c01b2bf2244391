//! What a chat request keeps of the conversation that it was made from: every turn, every call and
//! every tool, in order and word for word.

use vstd::prelude::*;
use vstd::string::*;

use crate::json::{compact, Json, JsonValue};
use crate::text::{lower, trim};
use crate::translate::request::{
    arguments_of, assistant_turn, block_texts, conversation_offers, conversation_turns, declared,
    declared_in, history_turns, image_part, image_parts, mime_of, offer_of, offers, past_turns,
    result_turn, user_turns,
};
use crate::types::cw;
use crate::types::openai::{
    offer_seq, turn_seq, Body, Call, ChatMessage, Content, ContentPart, Offer, Part, Role, Tool,
    Turn,
};

verus! {

// ── Order of the turns ───────────────────────────────────────────────────────

/// What the first `n` slots become depends on these slots alone.
proof fn lemma_past_prefix(a: Seq<cw::Message>, b: Seq<cw::Message>, n: nat)
    requires
        n <= a.len(),
        n <= b.len(),
        forall|i: int| 0 <= i < n ==> a[i] == #[trigger] b[i],
    ensures
        past_turns(a, n) == past_turns(b, n),
    decreases n,
{
    if n > 0 {
        lemma_past_prefix(a, b, (n - 1) as nat);
        assert(a[n - 1] == b[n - 1]);
    }
}

proof fn lemma_past_concat(a: Seq<cw::Message>, b: Seq<cw::Message>, n: nat)
    requires
        n <= b.len(),
    ensures
        past_turns(a + b, a.len() + n) == past_turns(a, a.len()) + past_turns(b, n),
    decreases n,
{
    if n == 0 {
        lemma_past_prefix(a + b, a, a.len());
        assert(past_turns(a, a.len()) + past_turns(b, 0) =~= past_turns(a, a.len()));
    } else {
        lemma_past_concat(a, b, (n - 1) as nat);
        assert((a + b)[a.len() + n - 1] == b[n - 1]);
        assert(past_turns(a + b, a.len() + n) =~= past_turns(a, a.len()) + past_turns(b, n));
    }
}

/// The past is told oldest turn first: what comes of two stretches of history is what comes of the
/// first, followed by what comes of the second.
pub proof fn law_history_is_told_in_order(a: Seq<cw::Message>, b: Seq<cw::Message>)
    ensures
        past_turns(a + b, (a + b).len()) == past_turns(a, a.len()) + past_turns(b, b.len()),
{
    lemma_past_concat(a, b, b.len());
}

/// A slot of the history is told by what its own turn says: nothing for an empty slot, the turn of
/// the user, or the one message of the assistant.
pub proof fn law_a_slot_is_told_by_its_own_turn(item: cw::Message)
    ensures
        match (item.user_input_message, item.assistant_response_message) {
            (Some(user), _) => past_turns(seq![item], 1) == user_turns(user),
            (None, Some(assistant)) => past_turns(seq![item], 1) == seq![
                assistant_turn(assistant),
            ],
            (None, None) => past_turns(seq![item], 1) == Seq::<Turn>::empty(),
        },
{
    reveal_with_fuel(past_turns, 2);
    let past = past_turns(seq![item], 1);
    assert(past =~= history_turns(item));
}

/// A conversation is told in the order of its turns, and the current one comes last: cut it after
/// any turn of its history, and its messages are those of the first part followed by those of the
/// rest.
pub proof fn law_conversations_are_told_in_order(
    first: cw::ConversationState,
    rest: cw::ConversationState,
    whole: cw::ConversationState,
)
    requires
        first.current_message is None,
        whole.history@ == first.history@ + rest.history@,
        whole.current_message == rest.current_message,
    ensures
        conversation_turns(whole) == conversation_turns(first) + conversation_turns(rest),
{
    law_history_is_told_in_order(first.history@, rest.history@);
    assert(conversation_turns(whole) =~= conversation_turns(first) + conversation_turns(rest));
}

/// A conversation of one turn is told by that turn, whether it is the current one or past.
pub proof fn law_a_single_turn_is_told_alike(
    past: cw::ConversationState,
    present: cw::ConversationState,
    msg: cw::UserInputMessage,
)
    requires
        past.current_message is None,
        past.history@.len() == 1,
        past.history@[0].user_input_message == Some(msg),
        present.history@.len() == 0,
        present.current_message is Some,
        present.current_message->0.user_input_message == Some(msg),
    ensures
        conversation_turns(past) == user_turns(msg),
        conversation_turns(present) == user_turns(msg),
{
    law_a_slot_is_told_by_its_own_turn(past.history@[0]);
    assert(past.history@ =~= seq![past.history@[0]]);
    assert(conversation_turns(past) =~= user_turns(msg));
    assert(conversation_turns(present) =~= user_turns(msg));
}

/// Of two slots, every message of the earlier one stands before every message of the later one.
pub proof fn law_earlier_slots_speak_first(history: Seq<cw::Message>, i: int, j: int)
    requires
        0 <= i < j < history.len(),
    ensures
        ({
            let all = past_turns(history, history.len());
            let a = past_turns(history.take(i), i as nat).len() as int;
            let b = past_turns(history.take(j), j as nat).len() as int;
            let m = past_turns(seq![history[i]], 1);
            let n = past_turns(seq![history[j]], 1);
            &&& a + m.len() <= b
            &&& b + n.len() <= all.len()
            &&& all.subrange(a, a + m.len()) == m
            &&& all.subrange(b, b + n.len()) == n
        }),
{
    let h = history;
    let one = seq![h[i]];
    let two = seq![h[j]];
    let mid = h.subrange(i + 1, j);
    let end = h.skip(j + 1);
    law_history_is_told_in_order(h.take(i), one);
    law_history_is_told_in_order(h.take(i) + one, mid);
    law_history_is_told_in_order(h.take(j), two);
    law_history_is_told_in_order(h.take(j) + two, end);
    assert(h.take(i) + one + mid =~= h.take(j));
    assert(h.take(j) + two + end =~= h);
    let all = past_turns(h, h.len());
    let a = past_turns(h.take(i), i as nat).len() as int;
    let b = past_turns(h.take(j), j as nat).len() as int;
    let m = past_turns(one, 1);
    let n = past_turns(two, 1);
    assert(all.subrange(a, a + m.len()) =~= m);
    assert(all.subrange(b, b + n.len()) =~= n);
}

// ── The user's turn ──────────────────────────────────────────────────────────

/// Each tool result of a turn is answered for under its own id, in order, whatever the others are.
pub proof fn law_results_go_under_their_own_ids(msg: cw::UserInputMessage, i: int)
    requires
        msg.user_input_message_context is Some,
        0 <= i < msg.user_input_message_context->0.tool_results@.len(),
    ensures
        ({
            let result = msg.user_input_message_context->0.tool_results@[i];
            let turn = user_turns(msg)[i];
            &&& i < user_turns(msg).len()
            &&& turn == result_turn(result)
            &&& turn.role == Role::Tool
            &&& turn.tool_calls.len() == 0
            &&& turn.tool_call_id == Some(
                match result.tool_use_id {
                    Some(id) => id@,
                    None => Seq::<char>::empty(),
                },
            )
            &&& turn.content is Some && turn.content->0 is Text
        }),
{
}

/// The text of a message, where it is nothing but text.
pub open spec fn said(turn: Turn) -> Seq<char> {
    match turn.content {
        Some(Body::Text(text)) => text,
        _ => seq![],
    }
}

proof fn lemma_block_texts(a: Seq<cw::ToolResultBlock>, b: Seq<cw::ToolResultBlock>, n: nat)
    requires
        n <= a.len(),
        n <= b.len(),
        forall|i: int| 0 <= i < n ==> a[i] == #[trigger] b[i],
    ensures
        block_texts(a, n) == block_texts(b, n),
    decreases n,
{
    if n > 0 {
        lemma_block_texts(a, b, (n - 1) as nat);
        assert(a[n - 1] == b[n - 1]);
    }
}

/// The result of a tool that did not fail is said word for word, each text of it on a line of its
/// own: one more text comes after a line break, and a block without a text changes nothing.
pub proof fn law_results_are_said_text_by_text(
    before: cw::ToolResult,
    after: cw::ToolResult,
    block: cw::ToolResultBlock,
)
    requires
        after.content@ == before.content@.push(block),
        before.status == after.status,
        after.status is None || after.status->0@ != "error"@,
    ensures
        block.text is None ==> said(result_turn(after)) == said(result_turn(before)),
        block.text is Some && (exists|i: int|
            0 <= i < before.content@.len() && (#[trigger] before.content@[i]).text is Some) ==> said(
            result_turn(after),
        ) == said(result_turn(before)) + seq!['\n'] + block.text->0@,
        block.text is Some && (forall|i: int|
            0 <= i < before.content@.len() ==> (#[trigger] before.content@[i]).text is None)
            ==> said(result_turn(after)) == block.text->0@ && said(result_turn(before)) == Seq::<
            char,
        >::empty(),
{
    let a = before.content@;
    let b = after.content@;
    lemma_block_texts(b, a, a.len());
    assert(b[a.len() as int] == block);
    lemma_some_text(a, a.len());
    reveal_strlit("\n");
    assert("\n"@ =~= seq!['\n']);
    let t = block_texts(a, a.len());
    if block.text is Some {
        let u = t.push(block.text->0@);
        assert(u.drop_last() =~= t);
        crate::text::law_joining_appends(t, block.text->0@, "\n"@);
    }
    crate::text::law_joining_nothing("\n"@);
}

proof fn lemma_some_text(blocks: Seq<cw::ToolResultBlock>, n: nat)
    requires
        n <= blocks.len(),
    ensures
        block_texts(blocks, n).len() > 0 <==> exists|i: int|
            0 <= i < n && (#[trigger] blocks[i]).text is Some,
    decreases n,
{
    if n > 0 {
        lemma_some_text(blocks, (n - 1) as nat);
        if blocks[n - 1].text is None {
            assert(block_texts(blocks, n) == block_texts(blocks, (n - 1) as nat));
        }
    }
}

/// A tool that failed is told apart by a mark in front of what it said, and by nothing else.
pub proof fn law_failed_results_are_marked(failed: cw::ToolResult, other: cw::ToolResult)
    requires
        failed.status is Some && failed.status->0@ == "error"@,
        other.status is None || other.status->0@ != "error"@,
        failed.content@ == other.content@,
        failed.tool_use_id == other.tool_use_id,
    ensures
        said(result_turn(failed)) == "[tool error] "@ + said(result_turn(other)),
        result_turn(failed).tool_call_id == result_turn(other).tool_call_id,
{
}

/// A turn that shows no image is told in text, and one that does shows every image that can be
/// shown, after the text.
pub proof fn law_the_user_is_quoted(msg: cw::UserInputMessage)
    requires
        msg.content is Some,
        trim(msg.content->0@).len() > 0,
    ensures
        user_turns(msg).len() > 0,
        user_turns(msg).last().role == Role::User,
        user_turns(msg).last().tool_call_id is None,
        user_turns(msg).last().tool_calls.len() == 0,
        user_turns(msg).last().content is Some,
        match user_turns(msg).last().content->0 {
            Body::Text(text) => text == msg.content->0@ && forall|i: int|
                0 <= i < msg.images@.len() ==> image_part(#[trigger] msg.images@[i]) is None,
            Body::Parts(parts) => parts == seq![Part::Text(msg.content->0@)] + image_parts(
                msg.images@,
                msg.images@.len(),
            ),
        },
{
    lemma_no_images(msg.images@, msg.images@.len());
}

/// A turn that is an image and nothing else shows it and says nothing.
pub proof fn law_images_can_stand_alone(msg: cw::UserInputMessage)
    requires
        msg.content is None || trim(msg.content->0@).len() == 0,
        exists|i: int| 0 <= i < msg.images@.len() && image_part(#[trigger] msg.images@[i]) is Some,
    ensures
        user_turns(msg).last().role == Role::User,
        user_turns(msg).last().content == Some(
            Body::Parts(image_parts(msg.images@, msg.images@.len())),
        ),
{
    lemma_no_images(msg.images@, msg.images@.len());
    crate::text::law_nothing_trims_to_nothing();
}

proof fn lemma_no_images(images: Seq<cw::Image>, n: nat)
    requires
        n <= images.len(),
    ensures
        image_parts(images, n).len() == 0 <==> forall|i: int|
            0 <= i < n ==> image_part(#[trigger] images[i]) is None,
    decreases n,
{
    if n > 0 {
        lemma_no_images(images, (n - 1) as nat);
    }
}

proof fn lemma_images_concat(a: Seq<cw::Image>, b: Seq<cw::Image>, n: nat)
    requires
        n <= b.len(),
    ensures
        image_parts(a + b, a.len() + n) == image_parts(a, a.len()) + image_parts(b, n),
    decreases n,
{
    if n == 0 {
        lemma_images_prefix(a + b, a, a.len());
        assert(image_parts(a, a.len()) + image_parts(b, 0) =~= image_parts(a, a.len()));
    } else {
        lemma_images_concat(a, b, (n - 1) as nat);
        assert((a + b)[a.len() + n - 1] == b[n - 1]);
        assert(image_parts(a + b, a.len() + n) =~= image_parts(a, a.len()) + image_parts(b, n));
    }
}

proof fn lemma_images_prefix(a: Seq<cw::Image>, b: Seq<cw::Image>, n: nat)
    requires
        n <= a.len(),
        n <= b.len(),
        forall|i: int| 0 <= i < n ==> a[i] == #[trigger] b[i],
    ensures
        image_parts(a, n) == image_parts(b, n),
    decreases n,
{
    if n > 0 {
        lemma_images_prefix(a, b, (n - 1) as nat);
        assert(a[n - 1] == b[n - 1]);
    }
}

/// Images are shown in the order in which they come.
pub proof fn law_images_keep_their_order(a: Seq<cw::Image>, b: Seq<cw::Image>)
    ensures
        image_parts(a + b, (a + b).len()) == image_parts(a, a.len()) + image_parts(b, b.len()),
        forall|image: cw::Image|
            #![trigger image_part(image)]
            image_parts(seq![image], 1) == match image_part(image) {
                Some(p) => seq![p],
                None => Seq::<Part>::empty(),
            },
{
    lemma_images_concat(a, b, b.len());
    reveal_with_fuel(image_parts, 2);
    assert forall|image: cw::Image|
        #![trigger image_part(image)]
        image_parts(seq![image], 1) == match image_part(image) {
            Some(p) => seq![p],
            None => Seq::<Part>::empty(),
        } by {
        if let Some(p) = image_part(image) {
            assert(image_parts(seq![image], 1) =~= seq![p]);
        }
    }
}

/// An image is shown as it came, under the type of its format: the URL ends in the very bytes of
/// the image, and a picture in one of the known formats is never lost.
pub proof fn law_images_are_shown_as_they_came(image: cw::Image)
    ensures
        image_part(image) is Some ==> {
            let url = image_part(image)->0->Image_0;
            let bytes = image.source->0.bytes->0@;
            let mime = mime_of(image.format->0@)->0;
            &&& image_part(image)->0 is Image
            &&& image.source is Some && image.source->0.bytes is Some
            &&& bytes.len() > 0
            &&& url.len() == 5 + mime.len() + 8 + bytes.len()
            &&& url.skip(url.len() - bytes.len()) == bytes
            &&& "data:"@.is_prefix_of(url)
            &&& url.subrange(5, 5 + mime.len() as int) == mime
            &&& url.subrange(5 + mime.len() as int, 13 + mime.len() as int) == ";base64,"@
        },
        image.format is Some && image.source is Some && image.source->0.bytes is Some
            && image.source->0.bytes->0@.len() > 0 && mime_of(image.format->0@) is Some
            ==> image_part(image) is Some,
{
    reveal_strlit("data:");
    reveal_strlit(";base64,");
    if let Some(Part::Image(url)) = image_part(image) {
        let bytes = image.source->0.bytes->0@;
        let mime = mime_of(image.format->0@)->0;
        assert(url.skip(url.len() - bytes.len()) =~= bytes);
        assert(url.subrange(5, 5 + mime.len() as int) =~= mime);
        assert(url.subrange(5 + mime.len() as int, 13 + mime.len() as int) =~= ";base64,"@);
        assert("data:"@ =~= url.take(5));
    }
}

/// The type of a format is the format itself below `image/`, written in lower case, but for the
/// short name of JPEG.
pub proof fn law_formats_name_their_types(format: Seq<char>)
    ensures
        mime_of(format) is Some <==> (lower(format) == "png"@ || lower(format) == "jpeg"@ || lower(
            format,
        ) == "jpg"@ || lower(format) == "gif"@ || lower(format) == "webp"@),
        mime_of(format) is Some && lower(format) != "jpg"@ ==> mime_of(format)->0 == "image/"@
            + lower(format),
        lower(format) == "jpg"@ ==> mime_of(format) == mime_of("jpeg"@),
{
    reveal_strlit("png");
    reveal_strlit("jpeg");
    reveal_strlit("jpg");
    reveal_strlit("gif");
    reveal_strlit("webp");
    reveal_strlit("image/");
    reveal_strlit("image/png");
    reveal_strlit("image/jpeg");
    reveal_strlit("image/gif");
    reveal_strlit("image/webp");
    assert("image/"@ + "png"@ =~= "image/png"@);
    assert("image/"@ + "jpeg"@ =~= "image/jpeg"@);
    assert("image/"@ + "gif"@ =~= "image/gif"@);
    assert("image/"@ + "webp"@ =~= "image/webp"@);
    assert(lower("jpeg"@) =~= "jpeg"@);
    assert("jpeg"@.len() != "png"@.len());
    assert("jpg"@[0] != "png"@[0]);
    assert("gif"@[0] != "png"@[0]);
    assert("gif"@[0] != "jpg"@[0]);
    assert("webp"@[0] != "jpeg"@[0]);
}

// ── The assistant's turn ─────────────────────────────────────────────────────

/// What the assistant said is quoted, and each of its calls is kept, in order, under its own id and
/// name.
pub proof fn law_the_assistant_is_quoted(msg: cw::AssistantResponseMessage)
    ensures
        ({
            let turn = assistant_turn(msg);
            let uses = msg.tool_uses@;
            &&& turn.role == Role::Assistant
            &&& turn.tool_call_id is None
            &&& turn.tool_calls.len() == uses.len()
            &&& msg.content is Some && msg.content->0@.len() > 0 ==> turn.content == Some(
                Body::Text(msg.content->0@),
            )
            &&& (msg.content is None || msg.content->0@.len() == 0) ==> turn.content == if uses.len()
                == 0 {
                Some(Body::Text(Seq::<char>::empty()))
            } else {
                None
            }
            &&& forall|i: int|
                0 <= i < uses.len() ==> {
                    let call = #[trigger] turn.tool_calls[i];
                    &&& uses[i].tool_use_id is Some ==> call.id == uses[i].tool_use_id->0@
                    &&& uses[i].name is Some ==> call.name == uses[i].name->0@
                    &&& uses[i].name is None ==> call.name == Seq::<char>::empty()
                    &&& call.kind == "function"@
                    &&& call.arguments == arguments_of(uses[i].input)
                }
        }),
{
    let turn = assistant_turn(msg);
    if msg.content is Some && msg.content->0@.len() == 0 {
        assert(msg.content->0@ =~= seq![]);
    }
}

/// The ids that are made up for calls without one are all different.
pub proof fn law_made_up_ids_differ(msg: cw::AssistantResponseMessage, i: int, j: int)
    requires
        0 <= i < j < msg.tool_uses@.len(),
        msg.tool_uses@[i].tool_use_id is None,
        msg.tool_uses@[j].tool_use_id is None,
    ensures
        assistant_turn(msg).tool_calls[i].id != assistant_turn(msg).tool_calls[j].id,
        "call_"@.is_prefix_of(assistant_turn(msg).tool_calls[i].id),
        crate::text::digits_value(assistant_turn(msg).tool_calls[i].id.skip(5)) == i,
{
    reveal_strlit("call_");
    let a = assistant_turn(msg).tool_calls[i].id;
    let b = assistant_turn(msg).tool_calls[j].id;
    let x = crate::text::decimal(i as nat);
    let y = crate::text::decimal(j as nat);
    assert(a.skip(5) =~= x);
    assert(b.skip(5) =~= y);
    assert("call_"@ =~= a.take(5));
    crate::text::law_numerals_read_back(i as nat);
    crate::text::law_numerals_read_back(j as nat);
}

/// The arguments of a call are the input that it was made with: a text as it is, any other value
/// written out, and an empty object where there is none.
pub proof fn law_arguments_are_the_input(input: JsonValue)
    ensures
        arguments_of(None) == "{}"@,
        match input {
            JsonValue::Null => arguments_of(Some(input)) == arguments_of(None),
            JsonValue::Text(s) => arguments_of(Some(input)) == s@,
            _ => arguments_of(Some(input)) == compact(input@),
        },
{
}

// ── Tools ────────────────────────────────────────────────────────────────────

proof fn lemma_offers_prefix(a: Seq<cw::ToolSlot>, b: Seq<cw::ToolSlot>, n: nat)
    requires
        n <= a.len(),
        n <= b.len(),
        forall|i: int| 0 <= i < n ==> a[i] == #[trigger] b[i],
    ensures
        offers(a, n) == offers(b, n),
    decreases n,
{
    if n > 0 {
        lemma_offers_prefix(a, b, (n - 1) as nat);
        assert(a[n - 1] == b[n - 1]);
    }
}

proof fn lemma_offers_concat(a: Seq<cw::ToolSlot>, b: Seq<cw::ToolSlot>, n: nat)
    requires
        n <= b.len(),
    ensures
        offers(a + b, a.len() + n) == offers(a, a.len()) + offers(b, n),
    decreases n,
{
    if n == 0 {
        lemma_offers_prefix(a + b, a, a.len());
        assert(offers(a, a.len()) + offers(b, 0) =~= offers(a, a.len()));
    } else {
        lemma_offers_concat(a, b, (n - 1) as nat);
        assert((a + b)[a.len() + n - 1] == b[n - 1]);
        assert(offers(a + b, a.len() + n) =~= offers(a, a.len()) + offers(b, n));
    }
}

/// Tools are offered in the order in which they are declared, each slot for itself: the wrapped
/// specification, else the bare one, else nothing.
pub proof fn law_tools_are_offered_in_order(a: Seq<cw::ToolSlot>, b: Seq<cw::ToolSlot>)
    ensures
        offers(a + b, (a + b).len()) == offers(a, a.len()) + offers(b, b.len()),
        forall|slot: cw::ToolSlot|
            #![trigger slot.specification()]
            offers(seq![slot], 1) == match (slot.tool_specification, slot.bare) {
                (Some(wrapped), _) => seq![offer_of(wrapped)],
                (None, Some(bare)) => seq![offer_of(bare)],
                (None, None) => Seq::<Offer>::empty(),
            },
{
    lemma_offers_concat(a, b, b.len());
    reveal_with_fuel(offers, 2);
    assert forall|slot: cw::ToolSlot|
        #![trigger slot.specification()]
        offers(seq![slot], 1) == match (slot.tool_specification, slot.bare) {
            (Some(wrapped), _) => seq![offer_of(wrapped)],
            (None, Some(bare)) => seq![offer_of(bare)],
            (None, None) => Seq::<Offer>::empty(),
        } by {
        if let Some(s) = slot.specification() {
            assert(offers(seq![slot], 1) =~= seq![offer_of(s)]);
        }
    }
}

/// A tool is offered under its own name, with its own description and schema.
pub proof fn law_offers_are_what_was_specified(tool: cw::ToolSpecification)
    ensures
        offer_of(tool).kind == "function"@,
        tool.name is Some ==> offer_of(tool).name == tool.name->0@,
        tool.name is None ==> offer_of(tool).name == Seq::<char>::empty(),
        tool.description is Some ==> offer_of(tool).description == tool.description->0@,
        tool.description is None ==> offer_of(tool).description == "Tool: "@ + offer_of(tool).name,
        tool.input_schema is Some && tool.input_schema->0.json is Some ==> offer_of(tool).parameters
            == tool.input_schema->0.json->0@,
        (tool.input_schema is None || tool.input_schema->0.json is None) ==> {
            let p = offer_of(tool).parameters;
            &&& p is Object
            &&& member(p, "type"@) == Some(Json::Text("object"@))
            &&& member(p, "properties"@) == Some(Json::Object(seq![]))
            &&& member(p, "required"@) == Some(Json::Array(seq![]))
            &&& p->Object_0.len() == 3
            &&& p->Object_0[0].0 == "properties"@
            &&& p->Object_0[1].0 == "required"@
            &&& p->Object_0[2].0 == "type"@
        },
{
    reveal_strlit("type");
    reveal_strlit("properties");
    reveal_strlit("required");
    reveal_with_fuel(member_from, 4);
    assert("type"@.len() != "required"@.len());
    assert("type"@.len() != "properties"@.len());
    assert("properties"@.len() != "required"@.len());
}

/// The value of the first member of this name, from the `i`-th on.
pub open spec fn member_from(members: Seq<(Seq<char>, Json)>, name: Seq<char>, i: int) -> Option<Json>
    decreases members.len() - i,
{
    if i < 0 || i >= members.len() {
        None
    } else if members[i].0 == name {
        Some(members[i].1)
    } else {
        member_from(members, name, i + 1)
    }
}

/// The value of a member of an object.
pub open spec fn member(value: Json, name: Seq<char>) -> Option<Json> {
    match value {
        Json::Object(members) => member_from(members, name, 0),
        _ => None,
    }
}

/// The tools that a message declares.
pub open spec fn brings(msg: Option<cw::UserInputMessage>) -> Seq<cw::ToolSlot> {
    if msg is Some && msg->0.user_input_message_context is Some {
        msg->0.user_input_message_context->0.tools@
    } else {
        seq![]
    }
}

/// The tools of the current turn are the ones that are offered; where it declares none, those of
/// the earliest turn that declares any; and where no turn does, none.
pub proof fn law_tools_come_from_one_turn(state: cw::ConversationState)
    ensures
        ({
            let now = match state.current_message {
                Some(m) => brings(m.user_input_message),
                None => seq![],
            };
            let past = |i: int| brings(state.history@[i].user_input_message);
            &&& now.len() > 0 ==> conversation_offers(state) == offers(now, now.len())
            &&& now.len() == 0 ==> forall|i: int|
                0 <= i < state.history@.len() && (#[trigger] past(i)).len() > 0 && (forall|j: int|
                    0 <= j < i ==> (#[trigger] past(j)).len() == 0) ==> conversation_offers(state)
                    == offers(past(i), past(i).len())
            &&& now.len() == 0 && (forall|i: int|
                0 <= i < state.history@.len() ==> (#[trigger] past(i)).len() == 0)
                ==> conversation_offers(state) == Seq::<Offer>::empty()
        }),
{
    let now = match state.current_message {
        Some(m) => brings(m.user_input_message),
        None => seq![],
    };
    let past = |i: int| brings(state.history@[i].user_input_message);
    assert(now == declared(state.current()));
    assert forall|i: int| 0 <= i < state.history@.len() implies #[trigger] past(i) == declared(
        state.history@[i].user_input_message,
    ) by {}
    assert forall|i: int|
        now.len() == 0 && 0 <= i < state.history@.len() && (#[trigger] past(i)).len() > 0 && (
        forall|j: int| 0 <= j < i ==> (#[trigger] past(j)).len() == 0) implies conversation_offers(
        state,
    ) == offers(past(i), past(i).len()) by {
        assert forall|j: int| 0 <= j < i implies brings(
            (#[trigger] state.history@[j]).user_input_message,
        ).len() == 0 by {
            assert(past(j).len() == 0);
        }
        lemma_declared_at(state.history@, 0, i as nat);
    }
    if now.len() == 0 && (forall|i: int|
        0 <= i < state.history@.len() ==> (#[trigger] past(i)).len() == 0) {
        assert forall|j: int| 0 <= j < state.history@.len() implies brings(
            (#[trigger] state.history@[j]).user_input_message,
        ).len() == 0 by {
            assert(past(j).len() == 0);
        }
        lemma_declared_nowhere(state.history@, 0);
        assert(conversation_offers(state) =~= seq![]);
    }
}

proof fn lemma_declared_at(history: Seq<cw::Message>, from: nat, i: nat)
    requires
        from <= i < history.len(),
        brings(history[i as int].user_input_message).len() > 0,
        forall|j: int|
            from <= j < i ==> brings((#[trigger] history[j]).user_input_message).len() == 0,
    ensures
        declared_in(history, from) == brings(history[i as int].user_input_message),
    decreases i - from,
{
    if from < i {
        assert(brings(history[from as int].user_input_message).len() == 0);
        lemma_declared_at(history, from + 1, i);
    }
}

proof fn lemma_declared_nowhere(history: Seq<cw::Message>, from: nat)
    requires
        forall|j: int|
            from <= j < history.len() ==> brings((#[trigger] history[j]).user_input_message).len()
                == 0,
    ensures
        declared_in(history, from).len() == 0,
    decreases history.len() - from,
{
    if from < history.len() {
        assert(brings(history[from as int].user_input_message).len() == 0);
        lemma_declared_nowhere(history, from + 1);
    }
}

// ── Views ────────────────────────────────────────────────────────────────────

/// Messages and tools are seen one by one, in order.
pub proof fn law_messages_are_seen_in_order(messages: Seq<ChatMessage>, tools: Seq<Tool>, i: int)
    ensures
        turn_seq(messages).len() == messages.len(),
        0 <= i < messages.len() ==> turn_seq(messages)[i] == messages[i]@,
        offer_seq(tools).len() == tools.len(),
        0 <= i < tools.len() ==> offer_seq(tools)[i] == tools[i]@,
{
}

/// A turn of nothing at all is still told, as it is.
pub proof fn law_blank_turns_are_told(msg: cw::UserInputMessage)
    requires
        msg.user_input_message_context is None
            || msg.user_input_message_context->0.tool_results@.len() == 0,
        msg.content is None || trim(msg.content->0@).len() == 0,
        forall|i: int|
            0 <= i < msg.images@.len() ==> image_part(#[trigger] msg.images@[i]) is None,
    ensures
        user_turns(msg).len() == 1,
        user_turns(msg)[0].role == Role::User,
        user_turns(msg)[0].content == Some(
            Body::Text(
                match msg.content {
                    Some(text) => text@,
                    None => Seq::<char>::empty(),
                },
            ),
        ),
{
    lemma_no_images(msg.images@, msg.images@.len());
}

/// What is said of a message and of a tool is what they hold, field by field.
pub proof fn law_messages_are_seen_as_they_are(m: ChatMessage, tool: Tool)
    ensures
        m@.role == m.role,
        m@.content is Some <==> m.content is Some,
        m.content is Some ==> match m.content->0 {
            Content::Text(text) => m@.content->0 == Body::Text(text@),
            Content::Parts(parts) => {
                &&& m@.content->0 is Parts
                &&& m@.content->0->Parts_0.len() == parts@.len()
                &&& forall|i: int|
                    0 <= i < parts@.len() ==> #[trigger] m@.content->0->Parts_0[i] == match parts@[i] {
                        ContentPart::Text { text } => Part::Text(text@),
                        ContentPart::ImageUrl { image_url } => Part::Image(image_url.url@),
                    }
            },
        },
        m@.tool_call_id is Some <==> m.tool_call_id is Some,
        m.tool_call_id is Some ==> m@.tool_call_id->0 == m.tool_call_id->0@,
        m@.tool_calls.len() == m.tool_calls@.len(),
        forall|i: int|
            0 <= i < m.tool_calls@.len() ==> (#[trigger] m@.tool_calls[i]) == (Call {
                id: m.tool_calls@[i].id@,
                kind: m.tool_calls@[i].kind@,
                name: m.tool_calls@[i].function.name@,
                arguments: m.tool_calls@[i].function.arguments@,
            }),
        tool@ == (Offer {
            kind: tool.kind@,
            name: tool.function.name@,
            description: tool.function.description@,
            parameters: tool.function.parameters@,
        }),
{
}

} // verus!
