//! Provider-neutral values exchanged with the assistant service.

use serde_json::Value;
use vstd::prelude::*;
use vstd::string::StringExecFns;

use crate::agent::error::Error;
use crate::text::{chars_of, trim, trim_range};

verus! {

#[verifier::external_type_specification]
#[verifier::external_body]
pub struct ExValue(Value);

/// `Clone` of `serde_json::Value`; nothing is claimed of the copy.
pub assume_specification[ <Value as Clone>::clone ](value: &Value) -> Value;

/// Whether a JSON value is an object.
pub uninterp spec fn json_is_object(value: Value) -> bool;

/// Whether a JSON value is an object: `serde_json::Value::is_object`, a
/// test of the value's variant alone.
#[verifier::external_body]
fn is_json_object(value: &Value) -> (r: bool)
    ensures
        r == json_is_object(*value),
{
    value.is_object()
}

/// Finite resource limits applied while accumulating a streamed completion.
///
/// All string limits are measured in UTF-8 bytes. Tool argument limits measure
/// the raw streamed JSON fragments before parsing.
#[derive(Clone, Copy, Debug, PartialEq, Eq)]
pub struct CompletionLimits {
    pub max_assistant_text_bytes: usize,
    pub max_tool_calls: usize,
    pub max_tool_argument_bytes: usize,
    pub max_total_tool_argument_bytes: usize,
    pub max_tool_call_id_bytes: usize,
    pub max_tool_name_bytes: usize,
}

impl Default for CompletionLimits {
    fn default() -> (limits: Self)
        ensures
            limits.max_assistant_text_bytes == 1024 * 1024,
            limits.max_tool_calls == 128,
            limits.max_tool_argument_bytes == 1024 * 1024,
            limits.max_total_tool_argument_bytes == 4 * 1024 * 1024,
            limits.max_tool_call_id_bytes == 4 * 1024,
            limits.max_tool_name_bytes == 4 * 1024,
    {
        CompletionLimits {
            max_assistant_text_bytes: 1024 * 1024,
            max_tool_calls: 128,
            max_tool_argument_bytes: 1024 * 1024,
            max_total_tool_argument_bytes: 4 * 1024 * 1024,
            max_tool_call_id_bytes: 4 * 1024,
            max_tool_name_bytes: 4 * 1024,
        }
    }
}

/// Token accounting reported by the service.
#[derive(Clone, Copy, Debug, Default, PartialEq, Eq)]
pub struct Usage {
    pub prompt_tokens: u64,
    pub completion_tokens: u64,
    pub total_tokens: u64,
}

/// Why the service stopped generating.
#[derive(Clone, Debug, PartialEq, Eq)]
pub enum FinishReason {
    Stop,
    ToolCalls,
    Length,
    ContentFilter,
    Other(String),
}

/// Individual events produced by a streaming chat request.
#[derive(Clone, Debug, PartialEq)]
#[non_exhaustive]
pub enum ChatEvent {
    TextDelta(String),
    ToolCallDelta {
        index: usize,
        id: Option<String>,
        name: Option<String>,
        arguments_delta: Option<String>,
    },
    Usage(Usage),
    FinishReason(FinishReason),
    Done,
}

/// Output returned by a tool executor.
#[derive(Clone, Debug, PartialEq, Eq)]
pub struct ToolOutput {
    pub content: String,
}

impl ToolOutput {
    pub fn new(content: String) -> (output: Self)
        ensures
            output.content@ == content@,
    {
        ToolOutput { content }
    }
}

/// A completed tool call requested by the assistant.
#[derive(Clone, Debug, PartialEq)]
pub struct ToolCall {
    pub id: String,
    pub name: String,
    /// Parsed only after the streamed call has completed.
    pub arguments: Value,
}

/// A typed chat message.
#[derive(Clone, Debug, PartialEq)]
pub enum ChatMessage {
    System { content: String },
    User { content: String },
    Assistant { content: Option<String>, tool_calls: Vec<ToolCall> },
    Tool { tool_call_id: String, content: String },
}

impl ChatMessage {
    pub fn system(content: String) -> (message: Self)
        ensures
            message == (ChatMessage::System { content }),
    {
        ChatMessage::System { content }
    }

    pub fn user(content: String) -> (message: Self)
        ensures
            message == (ChatMessage::User { content }),
    {
        ChatMessage::User { content }
    }

    pub fn tool(tool_call_id: String, content: String) -> (message: Self)
        ensures
            message == (ChatMessage::Tool { tool_call_id, content }),
    {
        ChatMessage::Tool { tool_call_id, content }
    }
}

/// A function tool declared to the assistant, with a JSON-Schema parameter
/// description.
#[derive(Clone, Debug, PartialEq)]
pub struct FunctionTool {
    pub name: String,
    pub description: Option<String>,
    pub parameters: Value,
    /// Whether execution can mutate user or external state.
    pub mutating: bool,
}

impl FunctionTool {
    /// Declares a non-mutating tool without description. The name must not
    /// be blank, and the parameters must be a JSON object, as `serde_json`
    /// judges it.
    pub fn new(name: String, parameters: Value) -> (r: Result<Self, Error>)
        ensures
            trim(name@).len() == 0 ==> (r matches Err(Error::InvalidConfiguration(m)) && m@
                == "tool name must not be empty"@),
            trim(name@).len() != 0 && json_is_object(parameters) ==> (r matches Ok(tool) && tool.name
                == name && tool.description is None && tool.parameters == parameters && !tool.mutating),
            trim(name@).len() != 0 && !json_is_object(parameters) ==> (r matches Err(
                Error::InvalidConfiguration(m),
            ) && m@ == "tool parameters must be a JSON Schema object"@),
    {
        let chars = chars_of(name.as_str());
        let (start, end) = trim_range(&chars);
        if start == end {
            return Err(Error::InvalidConfiguration(String::from_str("tool name must not be empty")));
        }
        if !is_json_object(&parameters) {
            return Err(
                Error::InvalidConfiguration(
                    String::from_str("tool parameters must be a JSON Schema object"),
                ),
            );
        }
        Ok(FunctionTool { name, description: None, parameters, mutating: false })
    }

    pub fn with_description(self, description: String) -> (tool: Self)
        ensures
            tool == (FunctionTool { description: Some(description), ..self }),
    {
        FunctionTool { description: Some(description), ..self }
    }

    pub fn mutating(self, mutating: bool) -> (tool: Self)
        ensures
            tool == (FunctionTool { mutating, ..self }),
    {
        FunctionTool { mutating, ..self }
    }
}

/// A chat request. The default model is `auto`.
#[derive(Clone, Debug, PartialEq)]
pub struct ChatRequest {
    pub model: String,
    pub messages: Vec<ChatMessage>,
    pub tools: Vec<FunctionTool>,
}

impl ChatRequest {
    pub fn new(messages: Vec<ChatMessage>) -> (request: Self)
        ensures
            request.model@ == "auto"@,
            request.messages == messages,
            request.tools@.len() == 0,
    {
        ChatRequest { model: String::from_str("auto"), messages, tools: Vec::new() }
    }

    pub fn with_model(self, model: String) -> (request: Self)
        ensures
            request == (ChatRequest { model, ..self }),
    {
        ChatRequest { model, ..self }
    }

    pub fn with_tools(self, tools: Vec<FunctionTool>) -> (request: Self)
        ensures
            request == (ChatRequest { tools, ..self }),
    {
        ChatRequest { tools, ..self }
    }
}

/// A fully accumulated assistant response.
#[derive(Clone, Debug, PartialEq)]
pub struct AssistantResponse {
    pub content: Option<String>,
    pub tool_calls: Vec<ToolCall>,
    pub usage: Option<Usage>,
    pub finish_reason: Option<FinishReason>,
}

/// Settings of the agent loop: the model to ask, the tools it may call,
/// and how many rounds of tool calls one run may take.
#[derive(Clone, Debug)]
pub struct AgentSessionConfig {
    pub model: String,
    pub tools: Vec<FunctionTool>,
    pub max_tool_rounds: usize,
}

impl Default for AgentSessionConfig {
    fn default() -> (config: Self)
        ensures
            config.model@ == "auto"@,
            config.tools@.len() == 0,
            config.max_tool_rounds == 8,
    {
        AgentSessionConfig { model: String::from_str("auto"), tools: Vec::new(), max_tool_rounds: 8 }
    }
}

} // verus!
