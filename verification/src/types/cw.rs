//! A conversation as the IDE sends it.

use vstd::prelude::*;

use crate::json::JsonValue;

verus! {

#[derive(Debug, Clone)]
pub struct Request {
    pub conversation_state: ConversationState,
}

#[derive(Debug, Clone, Default)]
pub struct ConversationState {
    pub conversation_id: Option<String>,
    pub current_message: Option<Message>,
    pub history: Vec<Message>,
}

/// A history slot holds exactly one of the two, never both.
#[derive(Debug, Clone, Default)]
pub struct Message {
    pub user_input_message: Option<UserInputMessage>,
    pub assistant_response_message: Option<AssistantResponseMessage>,
}

#[derive(Debug, Clone, Default)]
pub struct UserInputMessage {
    pub content: Option<String>,
    pub model_id: Option<String>,
    pub images: Vec<Image>,
    pub user_input_message_context: Option<UserInputMessageContext>,
}

#[derive(Debug, Clone, Default)]
pub struct UserInputMessageContext {
    pub tool_results: Vec<ToolResult>,
    pub tools: Vec<ToolSlot>,
}

#[derive(Debug, Clone, Default)]
pub struct ToolResult {
    pub tool_use_id: Option<String>,
    pub content: Vec<ToolResultBlock>,
    /// `"success"` / `"error"`, kept so that an errored result can be told from a successful one.
    pub status: Option<String>,
}

#[derive(Debug, Clone, Default)]
pub struct ToolResultBlock {
    pub text: Option<String>,
}

/// The IDE wraps specs in `{toolSpecification: ...}`, but older builds send them bare.
#[derive(Debug, Clone, Default)]
pub struct ToolSlot {
    pub tool_specification: Option<ToolSpecification>,
    pub bare: Option<ToolSpecification>,
}

impl ToolSlot {
    /// The specification, wrapped or bare; the wrapped one counts where both are there.
    pub open spec fn specification(&self) -> Option<ToolSpecification> {
        if self.tool_specification is Some {
            self.tool_specification
        } else {
            self.bare
        }
    }

    /// The specification, wrapped or bare; the wrapped one counts where both are there.
    pub fn spec(&self) -> (r: Option<&ToolSpecification>)
        ensures
            match r {
                Some(s) => self.specification() == Some(*s),
                None => self.specification() is None,
            },
    {
        match &self.tool_specification {
            Some(s) => Some(s),
            None => self.bare.as_ref(),
        }
    }
}

#[derive(Debug, Clone, Default)]
pub struct ToolSpecification {
    pub name: Option<String>,
    pub description: Option<String>,
    pub input_schema: Option<InputSchema>,
}

#[derive(Debug, Clone, Default)]
pub struct InputSchema {
    pub json: Option<JsonValue>,
}

#[derive(Debug, Clone, Default)]
pub struct Image {
    pub format: Option<String>,
    pub source: Option<ImageSource>,
}

#[derive(Debug, Clone, Default)]
pub struct ImageSource {
    pub bytes: Option<String>,
}

#[derive(Debug, Clone, Default)]
pub struct AssistantResponseMessage {
    pub content: Option<String>,
    pub tool_uses: Vec<ToolUse>,
}

#[derive(Debug, Clone, Default)]
pub struct ToolUse {
    pub tool_use_id: Option<String>,
    pub name: Option<String>,
    /// A JSON value here; upstream it has to be written out as a string.
    pub input: Option<JsonValue>,
}

impl ConversationState {
    /// The user's turn that the conversation has come to.
    pub open spec fn current(&self) -> Option<UserInputMessage> {
        match self.current_message {
            Some(m) => m.user_input_message,
            None => None,
        }
    }
}

impl Request {
    /// The model that the current turn asks for.
    pub open spec fn asked_model(&self) -> Option<Seq<char>> {
        match self.conversation_state.current() {
            Some(m) => match m.model_id {
                Some(id) => Some(id@),
                None => None,
            },
            None => None,
        }
    }

    /// The model that the IDE asked for, used as the alias-mapping key.
    pub fn model_id(&self) -> (r: Option<&str>)
        ensures
            match r {
                Some(id) => self.asked_model() == Some(id@),
                None => self.asked_model() is None,
            },
    {
        match &self.conversation_state.current_message {
            Some(m) => match &m.user_input_message {
                Some(u) => match &u.model_id {
                    Some(id) => Some(id.as_str()),
                    None => None,
                },
                None => None,
            },
            None => None,
        }
    }
}

// ── Laws ─────────────────────────────────────────────────────────────────────

/// A tool that is wrapped is taken from its wrapping, and one that is not as it stands.
pub proof fn law_tools_are_unwrapped(slot: &ToolSlot, r: Option<&ToolSpecification>)
    requires
        call_ensures(ToolSlot::spec, (slot,), r),
    ensures
        slot.tool_specification is Some ==> r is Some && *r->0 == slot.tool_specification->0,
        slot.tool_specification is None && slot.bare is Some ==> r is Some && *r->0
            == slot.bare->0,
        slot.tool_specification is None && slot.bare is None ==> r is None,
{
}

/// The model that is asked for is the one that the current message names.
pub proof fn law_the_current_message_names_the_model(req: &Request, r: Option<&str>)
    requires
        call_ensures(Request::model_id, (req,), r),
    ensures
        match req.conversation_state.current_message {
            Some(slot) => match slot.user_input_message {
                Some(m) => match m.model_id {
                    Some(id) => r is Some && r->0@ == id@,
                    None => r is None,
                },
                None => r is None,
            },
            None => r is None,
        },
{
}

} // verus!
