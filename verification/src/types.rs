//! The chat API's data: messages, tool calls, tool definitions and the
//! deltas of a streamed reply, each with the mathematical view that the
//! contracts speak of.

use vstd::prelude::*;

verus! {

// ---------------------------------------------------------------------------
// Tool calls and messages
// ---------------------------------------------------------------------------

/// The function named by a tool call, with its JSON-encoded arguments.
#[derive(Debug, Clone)]
pub struct FunctionCall {
    pub name: String,
    pub arguments: String,
}

/// A tool call requested by the model.
#[derive(Debug, Clone)]
pub struct ToolCall {
    pub id: String,
    pub kind: String,
    pub function: FunctionCall,
}

/// View of a tool call.
pub struct ToolCallV {
    pub id: Seq<char>,
    pub kind: Seq<char>,
    pub name: Seq<char>,
    pub arguments: Seq<char>,
}

impl DeepView for ToolCall {
    type V = ToolCallV;

    open spec fn deep_view(&self) -> ToolCallV {
        ToolCallV {
            id: self.id@,
            kind: self.kind@,
            name: self.function.name@,
            arguments: self.function.arguments@,
        }
    }
}

impl ToolCall {
    /// A field-by-field copy.
    pub fn duplicate(&self) -> (r: ToolCall)
        ensures
            r.deep_view() == self.deep_view(),
    {
        ToolCall {
            id: self.id.clone(),
            kind: self.kind.clone(),
            function: FunctionCall {
                name: self.function.name.clone(),
                arguments: self.function.arguments.clone(),
            },
        }
    }
}

/// One message of the conversation.
#[derive(Debug, Clone)]
pub struct Message {
    pub role: String,
    pub content: Option<String>,
    pub tool_calls: Option<Vec<ToolCall>>,
    pub tool_call_id: Option<String>,
}

/// View of a message.
pub struct MessageV {
    pub role: Seq<char>,
    pub content: Option<Seq<char>>,
    pub tool_calls: Option<Seq<ToolCallV>>,
    pub tool_call_id: Option<Seq<char>>,
}

impl DeepView for Message {
    type V = MessageV;

    open spec fn deep_view(&self) -> MessageV {
        MessageV {
            role: self.role@,
            content: self.content.deep_view(),
            tool_calls: self.tool_calls.deep_view(),
            tool_call_id: self.tool_call_id.deep_view(),
        }
    }
}

/// A copy of a list of tool calls.
pub fn duplicate_calls(calls: &Vec<ToolCall>) -> (r: Vec<ToolCall>)
    ensures
        r.deep_view() == calls.deep_view(),
{
    let mut r: Vec<ToolCall> = Vec::new();
    let n = calls.len();
    let mut i: usize = 0;
    while i < n
        invariant
            n == calls@.len(),
            i <= n,
            r.deep_view() =~= calls.deep_view().take(i as int),
        decreases n - i,
    {
        let ghost before = r.deep_view();
        let c = calls[i].duplicate();
        r.push(c);
        assert(r.deep_view() =~= before.push(c.deep_view()));
        assert(calls.deep_view().take(i + 1) =~= calls.deep_view().take(i as int).push(
            calls.deep_view()[i as int],
        ));
        i = i + 1;
    }
    assert(calls.deep_view().take(n as int) =~= calls.deep_view());
    r
}

/// A copy of an optional string.
pub fn duplicate_text(t: &Option<String>) -> (r: Option<String>)
    ensures
        r.deep_view() == t.deep_view(),
{
    match t {
        Some(s) => Some(s.clone()),
        None => None,
    }
}

impl Message {
    /// A field-by-field copy.
    pub fn duplicate(&self) -> (r: Message)
        ensures
            r.deep_view() == self.deep_view(),
    {
        Message {
            role: self.role.clone(),
            content: duplicate_text(&self.content),
            tool_calls: match &self.tool_calls {
                Some(calls) => Some(duplicate_calls(calls)),
                None => None,
            },
            tool_call_id: duplicate_text(&self.tool_call_id),
        }
    }

    /// A system message.
    pub fn system(content: &str) -> (m: Message)
        ensures
            m.deep_view() == (MessageV {
                role: "system"@,
                content: Some(content@),
                tool_calls: None,
                tool_call_id: None,
            }),
    {
        Message {
            role: String::from_str("system"),
            content: Some(String::from_str(content)),
            tool_calls: None,
            tool_call_id: None,
        }
    }

    /// A user message.
    pub fn user(content: &str) -> (m: Message)
        ensures
            m.deep_view() == (MessageV {
                role: "user"@,
                content: Some(content@),
                tool_calls: None,
                tool_call_id: None,
            }),
    {
        Message {
            role: String::from_str("user"),
            content: Some(String::from_str(content)),
            tool_calls: None,
            tool_call_id: None,
        }
    }

    /// An assistant message with the given text and tool calls.
    pub fn assistant(content: Option<String>, tool_calls: Option<Vec<ToolCall>>) -> (m: Message)
        ensures
            m.role@ == "assistant"@,
            m.content == content,
            m.tool_calls == tool_calls,
            m.tool_call_id is None,
    {
        Message { role: String::from_str("assistant"), content, tool_calls, tool_call_id: None }
    }

    /// The result of the tool call `tool_call_id`.
    pub fn tool_result(tool_call_id: &str, content: &str) -> (m: Message)
        ensures
            m.deep_view() == (MessageV {
                role: "tool"@,
                content: Some(content@),
                tool_calls: None,
                tool_call_id: Some(tool_call_id@),
            }),
    {
        Message {
            role: String::from_str("tool"),
            content: Some(String::from_str(content)),
            tool_calls: None,
            tool_call_id: Some(String::from_str(tool_call_id)),
        }
    }
}

// ---------------------------------------------------------------------------
// Tool definitions
// ---------------------------------------------------------------------------

/// One parameter of a tool: its name, JSON type and description.
#[derive(Debug, Clone)]
pub struct ParamSpec {
    pub name: String,
    pub kind: String,
    pub description: String,
}

/// The JSON schema of a tool's parameters: an object with these
/// properties, of which `required` must be given.
#[derive(Debug, Clone)]
pub struct ParamSchema {
    pub properties: Vec<ParamSpec>,
    pub required: Vec<String>,
}

/// A function that the model may call.
#[derive(Debug, Clone)]
pub struct FunctionDef {
    pub name: String,
    pub description: String,
    pub parameters: ParamSchema,
}

/// A tool offered to the model.
#[derive(Debug, Clone)]
pub struct ToolDef {
    pub kind: String,
    pub function: FunctionDef,
}

// ---------------------------------------------------------------------------
// Streamed replies
// ---------------------------------------------------------------------------

/// Token counts that a provider reports.
#[derive(Debug, Clone, Copy, PartialEq, Eq)]
pub struct Usage {
    pub prompt_tokens: u64,
    pub completion_tokens: u64,
    pub total_tokens: u64,
}

/// The function part of a streamed tool-call delta.
#[derive(Debug, Clone)]
pub struct DeltaFunction {
    pub name: Option<String>,
    pub arguments: Option<String>,
}

/// A fragment of the tool call at position `index`.
#[derive(Debug, Clone)]
pub struct DeltaToolCall {
    pub index: usize,
    pub id: Option<String>,
    pub kind: Option<String>,
    pub function: Option<DeltaFunction>,
}

/// View of a tool-call delta.
pub struct DeltaV {
    pub index: nat,
    pub id: Option<Seq<char>>,
    pub name: Option<Seq<char>>,
    pub arguments: Option<Seq<char>>,
}

impl DeepView for DeltaToolCall {
    type V = DeltaV;

    open spec fn deep_view(&self) -> DeltaV {
        DeltaV {
            index: self.index as nat,
            id: self.id.deep_view(),
            name: match self.function {
                Some(f) => f.name.deep_view(),
                None => None,
            },
            arguments: match self.function {
                Some(f) => f.arguments.deep_view(),
                None => None,
            },
        }
    }
}

/// The change that one streamed chunk makes to a reply.
#[derive(Debug, Clone)]
pub struct Delta {
    pub role: Option<String>,
    pub content: Option<String>,
    pub tool_calls: Option<Vec<DeltaToolCall>>,
}

/// One choice of a streamed chunk.
#[derive(Debug, Clone)]
pub struct StreamChoice {
    pub delta: Delta,
    pub finish_reason: Option<String>,
}

/// One streamed chunk of a reply.
#[derive(Debug, Clone)]
pub struct StreamChunk {
    pub choices: Vec<StreamChoice>,
    pub usage: Option<Usage>,
}

/// One choice of a complete (non-streamed) reply.
#[derive(Debug, Clone)]
pub struct Choice {
    pub message: Message,
    pub finish_reason: Option<String>,
}

/// A complete (non-streamed) reply.
#[derive(Debug, Clone)]
pub struct ChatResponse {
    pub choices: Vec<Choice>,
}

} // verus!
