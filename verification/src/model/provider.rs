//! Requests to and answers from model providers.
use vstd::prelude::*;
use crate::json::{Json, JsonTree};
use crate::text::opt_string;

verus! {

/// What a provider can do.
#[derive(Clone, Copy, Debug, PartialEq, Eq, Structural)]
pub struct ProviderCapabilities {
    pub native_tool_calling: bool,
    pub vision: bool,
    pub streaming: bool,
}

/// A tool that the model may call.
#[derive(Debug)]
pub struct ToolSpec {
    pub name: String,
    pub description: String,
    pub parameters: Json,
}

/// A call of a tool that the model asks for.
#[derive(Clone, Debug)]
pub struct ToolCall {
    pub id: String,
    pub name: String,
    pub arguments: Json,
}

pub struct ToolCallView {
    pub id: Seq<char>,
    pub name: Seq<char>,
    pub arguments: JsonTree,
}

impl View for ToolCall {
    type V = ToolCallView;

    open spec fn view(&self) -> ToolCallView {
        ToolCallView { id: self.id@, name: self.name@, arguments: self.arguments@ }
    }
}

pub open spec fn tool_call_views(s: Seq<ToolCall>) -> Seq<ToolCallView> {
    Seq::new(s.len(), |i: int| s[i]@)
}

/// Token counts of one answer.
#[derive(Clone, Copy, Debug, PartialEq, Eq, Structural)]
pub struct Usage {
    pub prompt_tokens: u32,
    pub completion_tokens: u32,
    pub total_tokens: u32,
}

/// An image that accompanies a message.
#[derive(Clone, Debug, PartialEq)]
pub struct ImageData {
    pub media_type: String,
    pub data_base64: String,
}

/// One turn of a conversation.
#[derive(Clone, Debug)]
pub struct ChatMessage {
    pub role: String,
    pub content: String,
    pub tool_calls: Vec<ToolCall>,
    pub tool_call_id: Option<String>,
    pub images: Vec<ImageData>,
}

impl ChatMessage {
    /// A plain turn.
    pub fn new(role: &str, content: &str) -> (r: ChatMessage)
        ensures
            r.role@ == role@,
            r.content@ == content@,
            r.tool_calls@.len() == 0,
            r.tool_call_id is None,
            r.images@.len() == 0,
    {
        ChatMessage {
            role: role.to_owned(),
            content: content.to_owned(),
            tool_calls: Vec::new(),
            tool_call_id: None,
            images: Vec::new(),
        }
    }

    /// A user turn with images.
    pub fn user_with_images(content: &str, images: Vec<ImageData>) -> (r: ChatMessage)
        ensures
            r.role@ == "user"@,
            r.content@ == content@,
            r.tool_calls@.len() == 0,
            r.tool_call_id is None,
            r.images == images,
    {
        ChatMessage {
            role: "user".to_owned(),
            content: content.to_owned(),
            tool_calls: Vec::new(),
            tool_call_id: None,
            images,
        }
    }

    /// An assistant turn that calls tools.
    pub fn assistant_tool_calls(content: &str, calls: Vec<ToolCall>) -> (r: ChatMessage)
        ensures
            r.role@ == "assistant"@,
            r.content@ == content@,
            r.tool_calls == calls,
            r.tool_call_id is None,
            r.images@.len() == 0,
    {
        ChatMessage {
            role: "assistant".to_owned(),
            content: content.to_owned(),
            tool_calls: calls,
            tool_call_id: None,
            images: Vec::new(),
        }
    }

    /// The result of a tool call.
    pub fn tool_result(tool_call_id: &str, content: &str) -> (r: ChatMessage)
        ensures
            r.role@ == "tool"@,
            r.content@ == content@,
            r.tool_calls@.len() == 0,
            opt_string(r.tool_call_id) == Some(tool_call_id@),
            r.images@.len() == 0,
    {
        ChatMessage {
            role: "tool".to_owned(),
            content: content.to_owned(),
            tool_calls: Vec::new(),
            tool_call_id: Some(tool_call_id.to_owned()),
            images: Vec::new(),
        }
    }
}

/// What is asked of a provider.
#[derive(Clone, Debug)]
pub struct ChatRequest<'a> {
    pub messages: &'a [ChatMessage],
    pub system: Option<&'a str>,
}

/// What a provider answers.
#[derive(Clone, Debug)]
pub struct ChatResponse {
    pub content: String,
    pub reasoning_content: Option<String>,
    pub tool_calls: Vec<ToolCall>,
    pub usage: Option<Usage>,
}

pub struct ResponseView {
    pub content: Seq<char>,
    pub reasoning_content: Option<Seq<char>>,
    pub tool_calls: Seq<ToolCallView>,
    pub usage: Option<Usage>,
}

impl View for ChatResponse {
    type V = ResponseView;

    open spec fn view(&self) -> ResponseView {
        ResponseView {
            content: self.content@,
            reasoning_content: opt_string(self.reasoning_content),
            tool_calls: tool_call_views(self.tool_calls@),
            usage: self.usage,
        }
    }
}

} // verus!
