//! Typed messages decoded from content frames.

use vstd::prelude::*;

use crate::json::JsonValue;

verus! {

/// Text content block.
#[derive(Debug)]
pub struct TextBlock {
    pub text: String,
}

/// Thinking content block.
#[derive(Debug)]
pub struct ThinkingBlock {
    pub thinking: String,
    pub signature: String,
}

/// Tool use content block describing a requested tool invocation.
#[derive(Debug)]
pub struct ToolUseBlock {
    pub id: String,
    pub name: String,
    /// The tool input object.
    pub input: JsonValue,
}

/// Tool result block returned from a tool invocation.
#[derive(Debug)]
pub struct ToolResultBlock {
    pub tool_use_id: String,
    pub content: Option<JsonValue>,
    pub is_error: Option<bool>,
}

/// Union of all content blocks.
#[derive(Debug)]
pub enum ContentBlock {
    Text(TextBlock),
    Thinking(ThinkingBlock),
    ToolUse(ToolUseBlock),
    ToolResult(ToolResultBlock),
}

/// Content of a user message: plain text or a list of blocks.
#[derive(Debug)]
pub enum UserMessageContent {
    Text(String),
    Blocks(Vec<ContentBlock>),
}

/// User message emitted by the child.
#[derive(Debug)]
pub struct UserMessage {
    pub content: UserMessageContent,
    pub parent_tool_use_id: Option<String>,
}

/// Assistant message emitted by the child.
#[derive(Debug)]
pub struct AssistantMessage {
    pub content: Vec<ContentBlock>,
    pub model: String,
    pub parent_tool_use_id: Option<String>,
}

/// System message carrying metadata; `data` is the whole frame.
#[derive(Debug)]
pub struct SystemMessage {
    pub subtype: String,
    pub data: JsonValue,
}

/// Result message summarising a completed run.
#[derive(Debug)]
pub struct ResultMessage {
    pub subtype: String,
    pub duration_ms: i64,
    pub duration_api_ms: i64,
    pub is_error: bool,
    pub num_turns: i64,
    pub session_id: String,
    /// The reported cost, kept as the number value from the wire.
    pub total_cost_usd: Option<JsonValue>,
    pub usage: Option<JsonValue>,
    pub result: Option<String>,
}

/// Stream event carrying a partial update.
#[derive(Debug)]
pub struct StreamEvent {
    pub uuid: String,
    pub session_id: String,
    pub event: JsonValue,
    pub parent_tool_use_id: Option<String>,
}

/// Union of all content messages.
#[derive(Debug)]
pub enum Message {
    User(UserMessage),
    Assistant(AssistantMessage),
    System(SystemMessage),
    Result(ResultMessage),
    StreamEvent(StreamEvent),
}

} // verus!
