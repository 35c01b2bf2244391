//! The chat-completions request, and the chunks of its streamed answer.

use vstd::prelude::*;

use crate::json::{Json, JsonValue};

verus! {

// ── Model ────────────────────────────────────────────────────────────────────

/// One part of a message's content.
pub ghost enum Part {
    Text(Seq<char>),
    Image(Seq<char>),
}

/// The content of a message.
pub ghost enum Body {
    Text(Seq<char>),
    Parts(Seq<Part>),
}

/// A tool call of an assistant's message.
pub ghost struct Call {
    pub id: Seq<char>,
    pub kind: Seq<char>,
    pub name: Seq<char>,
    pub arguments: Seq<char>,
}

/// A message.
pub ghost struct Turn {
    pub role: Role,
    pub content: Option<Body>,
    pub tool_call_id: Option<Seq<char>>,
    pub tool_calls: Seq<Call>,
}

/// A tool that is offered to the model.
pub ghost struct Offer {
    pub kind: Seq<char>,
    pub name: Seq<char>,
    pub description: Seq<char>,
    pub parameters: Json,
}

// ── Request ──────────────────────────────────────────────────────────────────

#[derive(Debug, Clone)]
pub struct ChatRequest {
    pub model: String,
    pub messages: Vec<ChatMessage>,
    pub stream: bool,
    /// OpenAI-compatible servers omit `usage` from streams unless explicitly asked. Providers
    /// that don't know the field ignore it.
    pub stream_options: Option<StreamOptions>,
    pub tools: Vec<Tool>,
    pub tool_choice: Option<&'static str>,
}

#[derive(Debug, Clone, Copy)]
pub struct StreamOptions {
    pub include_usage: bool,
}

#[derive(Debug, Clone)]
pub struct ChatMessage {
    pub role: Role,
    /// `None` is a meaningful value for an assistant turn that is pure tool calls.
    pub content: Option<Content>,
    pub tool_call_id: Option<String>,
    pub tool_calls: Vec<ToolCall>,
}

#[derive(Debug, Clone, Copy, PartialEq, Eq, Structural)]
pub enum Role {
    User,
    Assistant,
    Tool,
}

#[derive(Debug, Clone)]
pub enum Content {
    Text(String),
    Parts(Vec<ContentPart>),
}

#[derive(Debug, Clone)]
pub enum ContentPart {
    Text { text: String },
    ImageUrl { image_url: ImageUrl },
}

#[derive(Debug, Clone)]
pub struct ImageUrl {
    pub url: String,
}

#[derive(Debug, Clone)]
pub struct Tool {
    pub kind: &'static str,
    pub function: Function,
}

#[derive(Debug, Clone)]
pub struct Function {
    pub name: String,
    pub description: String,
    pub parameters: JsonValue,
}

#[derive(Debug, Clone)]
pub struct ToolCall {
    pub id: String,
    pub kind: &'static str,
    pub function: FunctionCall,
}

#[derive(Debug, Clone)]
pub struct FunctionCall {
    pub name: String,
    /// Always a JSON *string*, never an object.
    pub arguments: String,
}

impl View for ContentPart {
    type V = Part;

    open spec fn view(&self) -> Part {
        match *self {
            ContentPart::Text { text } => Part::Text(text@),
            ContentPart::ImageUrl { image_url } => Part::Image(image_url.url@),
        }
    }
}

/// The parts that a list holds.
pub open spec fn part_seq(parts: Seq<ContentPart>) -> Seq<Part> {
    parts.map_values(|p: ContentPart| p@)
}

impl View for Content {
    type V = Body;

    open spec fn view(&self) -> Body {
        match *self {
            Content::Text(text) => Body::Text(text@),
            Content::Parts(parts) => Body::Parts(part_seq(parts@)),
        }
    }
}

impl View for ToolCall {
    type V = Call;

    open spec fn view(&self) -> Call {
        Call {
            id: self.id@,
            kind: self.kind@,
            name: self.function.name@,
            arguments: self.function.arguments@,
        }
    }
}

/// The calls that a list holds.
pub open spec fn call_seq(calls: Seq<ToolCall>) -> Seq<Call> {
    calls.map_values(|c: ToolCall| c@)
}

impl View for ChatMessage {
    type V = Turn;

    open spec fn view(&self) -> Turn {
        Turn {
            role: self.role,
            content: match self.content {
                Some(c) => Some(c@),
                None => None,
            },
            tool_call_id: match self.tool_call_id {
                Some(id) => Some(id@),
                None => None,
            },
            tool_calls: call_seq(self.tool_calls@),
        }
    }
}

/// The messages that a list holds.
pub open spec fn turn_seq(messages: Seq<ChatMessage>) -> Seq<Turn> {
    messages.map_values(|m: ChatMessage| m@)
}

impl View for Tool {
    type V = Offer;

    open spec fn view(&self) -> Offer {
        Offer {
            kind: self.kind@,
            name: self.function.name@,
            description: self.function.description@,
            parameters: self.function.parameters@,
        }
    }
}

/// The tools that a list holds.
pub open spec fn offer_seq(tools: Seq<Tool>) -> Seq<Offer> {
    tools.map_values(|t: Tool| t@)
}

/// A message that is nothing but text.
pub open spec fn text_turn(role: Role, text: Seq<char>) -> Turn {
    Turn { role, content: Some(Body::Text(text)), tool_call_id: None, tool_calls: seq![] }
}

impl ChatMessage {
    /// A message that is nothing but text.
    pub fn text(role: Role, content: String) -> (m: Self)
        ensures
            m@ == text_turn(role, content@),
    {
        let tool_calls: Vec<ToolCall> = Vec::new();
        assert(call_seq(tool_calls@) =~= seq![]);
        ChatMessage { role, content: Some(Content::Text(content)), tool_call_id: None, tool_calls }
    }
}

// ── Streamed answer ──────────────────────────────────────────────────────────

#[derive(Debug, Clone, Default)]
pub struct StreamChunk {
    pub model: Option<String>,
    pub choices: Vec<Choice>,
    pub usage: Option<Usage>,
}

#[derive(Debug, Clone, Default)]
pub struct Choice {
    pub delta: Delta,
    pub finish_reason: Option<String>,
}

#[derive(Debug, Clone, Default)]
pub struct Delta {
    pub content: Option<String>,
    pub reasoning_content: Option<String>,
    pub tool_calls: Vec<ToolCallDelta>,
}

#[derive(Debug, Clone, Default)]
pub struct ToolCallDelta {
    pub index: usize,
    pub id: Option<String>,
    pub function: Option<FunctionCallDelta>,
}

#[derive(Debug, Clone, Default)]
pub struct FunctionCallDelta {
    pub name: Option<String>,
    /// A partial fragment of the JSON arguments string.
    pub arguments: Option<String>,
}

#[derive(Debug, Clone, Copy, Default)]
pub struct Usage {
    pub prompt_tokens: u64,
    pub completion_tokens: u64,
}

// ── Laws ─────────────────────────────────────────────────────────────────────

/// A message of nothing but text says that text under its role.
pub proof fn law_text_is_said_under_its_role(role: Role, content: String, m: ChatMessage)
    requires
        call_ensures(ChatMessage::text, (role, content), m),
    ensures
        m@.role == role,
        m@.content == Some(Body::Text(content@)),
        m@.tool_call_id is None,
        m@.tool_calls.len() == 0,
{
}

} // verus!
