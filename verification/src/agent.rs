//! The conversation of one session: its system prompt, message history,
//! compaction, and the bookkeeping of a user turn.

use vstd::prelude::*;
use crate::client::LlmClient;
use crate::text::push_str;
use crate::tools::{tool_catalog, tool_definitions};
use crate::types::{duplicate_calls, Message, MessageV, ToolCall, ToolCallV, ToolDef};

verus! {

broadcast use vstd::string::group_string_axioms;

/// The instructions every session starts with.
pub const SYSTEM_PROMPT: &'static str = r#"You are a skilled software engineer with direct access to tools. You MUST use your tools to accomplish tasks — never just describe what you would do.

CRITICAL RULES:
- ALWAYS call tools to take action. Do NOT respond with only text when the user asks you to do something.
- Act immediately. Do not ask for permission or confirmation — just do the work.
- You can call multiple tools in a single response.

Workflow:
1. Use list_dir and read_file to understand the codebase.
2. Use edit_file to create new files (set old_string to empty) or make targeted edits.
3. Use grep to search across files.
4. Use bash to run builds, tests, git commands, install dependencies, etc.
5. After making changes, verify by reading files back or running tests.

Tool tips:
- edit_file with empty old_string creates a new file (parent dirs are created automatically).
- edit_file with a non-empty old_string replaces that exact match. Provide enough context for a unique match.
- bash runs in the working directory. Use it for anything the other tools don't cover.
- Be concise in text responses. Let your tool calls do the talking."#;

/// What separates the instructions from a project's own rules.
pub const RULES_HEADING: &'static str = "\n\n---\nProject rules (from STRAP.md):\n\n";

/// The message that stands for the messages dropped by compaction.
pub const COMPACT_NOTICE: &'static str =
    "[Earlier conversation was compacted to save context. Continue from the most recent messages.]";

/// The system prompt: the instructions, followed by the project's rules
/// when it has any.
pub open spec fn system_prompt_text(rules: Option<Seq<char>>) -> Seq<char> {
    match rules {
        Some(r) => SYSTEM_PROMPT@ + RULES_HEADING@ + r,
        None => SYSTEM_PROMPT@,
    }
}

/// The system prompt for a project whose rules (its `STRAP.md`) are
/// `rules`.
pub fn build_system_prompt(rules: Option<&str>) -> (p: String)
    ensures
        p@ == system_prompt_text(match rules {
            Some(r) => Some(r@),
            None => None,
        }),
{
    let mut p = String::from_str(SYSTEM_PROMPT);
    if let Some(r) = rules {
        push_str(&mut p, RULES_HEADING);
        push_str(&mut p, r);
    }
    p
}

/// The notice that replaces compacted messages.
pub open spec fn notice() -> MessageV {
    MessageV { role: "user"@, content: Some(COMPACT_NOTICE@), tool_calls: None, tool_call_id: None }
}

/// The history after compaction to `k` recent messages: unchanged when it
/// has at most `k + 1` messages; otherwise the first message, the notice,
/// and the last `k` messages.
pub open spec fn compacted(ms: Seq<MessageV>, k: nat) -> Seq<MessageV> {
    if ms.len() <= k + 1 {
        ms
    } else {
        seq![ms[0], notice()] + ms.skip(ms.len() - k)
    }
}

/// A coding agent's session: the endpoint, the history, the tools offered,
/// the working directory, and how many model replies one turn may take.
pub struct Agent {
    pub client: LlmClient,
    pub messages: Vec<Message>,
    pub tools: Vec<ToolDef>,
    pub workdir: String,
    pub max_turns: usize,
}

impl Agent {
    /// A session whose history holds only the system prompt built from
    /// `rules`, offering every tool, with up to 50 replies per turn.
    pub fn new(client: LlmClient, workdir: String, rules: Option<&str>) -> (a: Agent)
        ensures
            a.messages.deep_view() == seq![
                MessageV {
                    role: "system"@,
                    content: Some(system_prompt_text(match rules {
                        Some(r) => Some(r@),
                        None => None,
                    })),
                    tool_calls: None,
                    tool_call_id: None,
                },
            ],
            a.tools.deep_view() == tool_catalog(),
            a.workdir == workdir,
            a.client == client,
            a.max_turns == 50,
    {
        let prompt = build_system_prompt(rules);
        let m = Message::system(prompt.as_str());
        let mut messages: Vec<Message> = Vec::new();
        messages.push(m);
        assert(messages.deep_view() =~= seq![m.deep_view()]);
        Agent { client, messages, tools: tool_definitions(), workdir, max_turns: 50 }
    }

    /// Drops older messages so that at most `keep_last` recent ones remain
    /// after the system prompt and a notice (`compacted`).
    pub fn compact(&mut self, keep_last: usize)
        requires
            keep_last < usize::MAX,
        ensures
            final(self).messages.deep_view() == compacted(
                old(self).messages.deep_view(),
                keep_last as nat,
            ),
            final(self).client == old(self).client,
            final(self).tools == old(self).tools,
            final(self).workdir == old(self).workdir,
            final(self).max_turns == old(self).max_turns,
    {
        let len = self.messages.len();
        if len <= keep_last + 1 {
            return;
        }
        let ghost ms = self.messages.deep_view();
        let system = self.messages[0].duplicate();
        let mut tail = self.messages.split_off(len - keep_last);
        assert(tail.deep_view() =~= ms.skip(len - keep_last));
        self.messages.clear();
        self.messages.push(system);
        let n = Message::user(COMPACT_NOTICE);
        self.messages.push(n);
        self.messages.append(&mut tail);
        assert(self.messages.deep_view() =~= seq![ms[0], notice()] + ms.skip(len - keep_last));
    }

    /// The history.
    pub fn messages(&self) -> (r: &Vec<Message>)
        ensures
            r == &self.messages,
    {
        &self.messages
    }

    /// The number of messages in the history.
    pub fn message_count(&self) -> (n: usize)
        ensures
            n == self.messages@.len(),
    {
        self.messages.len()
    }

    /// Starts a turn: the user's input joins the history, and the model is
    /// asked for a reply unless no reply is allowed at all.
    pub fn begin_turn(&mut self, user_input: &str) -> (s: TurnStep)
        ensures
            final(self).messages.deep_view() == old(self).messages.deep_view().push(
                MessageV {
                    role: "user"@,
                    content: Some(user_input@),
                    tool_calls: None,
                    tool_call_id: None,
                },
            ),
            s is AskModel <==> old(self).max_turns > 0,
            s is AskModel || s is Finish,
            unchanged_settings(*old(self), *final(self)),
    {
        let m = Message::user(user_input);
        let ghost before = self.messages.deep_view();
        self.messages.push(m);
        assert(self.messages.deep_view() =~= before.push(m.deep_view()));
        if self.max_turns > 0 {
            TurnStep::AskModel
        } else {
            TurnStep::Finish
        }
    }

    /// Takes the model's reply into the history and decides what comes
    /// next: the tool calls it asks for, when it asks for any (even an empty
    /// list), otherwise the end of the turn.
    pub fn after_reply(&mut self, reply: Message) -> (s: TurnStep)
        ensures
            final(self).messages.deep_view() == old(self).messages.deep_view().push(
                reply.deep_view(),
            ),
            match reply.tool_calls {
                Some(cs) => s matches TurnStep::RunTools(v) && v.deep_view() == cs.deep_view(),
                None => s is Finish,
            },
            unchanged_settings(*old(self), *final(self)),
    {
        let step = match &reply.tool_calls {
            Some(c) => TurnStep::RunTools(duplicate_calls(c)),
            None => TurnStep::Finish,
        };
        let ghost before = self.messages.deep_view();
        let ghost rv = reply.deep_view();
        self.messages.push(reply);
        assert(self.messages.deep_view() =~= before.push(rv));
        step
    }

    /// Takes the results of the tool calls of round `turn` (counting from
    /// 0) into the history, one tool message per call in call order, and
    /// decides whether the model is asked again: only while fewer than
    /// `max_turns` rounds have run.
    pub fn after_tools(&mut self, calls: &Vec<ToolCall>, results: &Vec<String>, turn: usize) -> (s: TurnStep)
        requires
            calls@.len() == results@.len(),
        ensures
            final(self).messages.deep_view() == old(self).messages.deep_view() + tool_results(
                calls.deep_view(),
                results.deep_view(),
            ),
            s is AskModel <==> turn + 1 < old(self).max_turns,
            s is AskModel || s is Finish,
            unchanged_settings(*old(self), *final(self)),
    {
        let n = calls.len();
        let ghost base = self.messages.deep_view();
        let mut i: usize = 0;
        while i < n
            invariant
                n == calls@.len(),
                n == results@.len(),
                i <= n,
                self.messages.deep_view() == base + tool_results(
                    calls.deep_view(),
                    results.deep_view(),
                ).take(i as int),
                unchanged_settings(*old(self), *self),
            decreases n - i,
        {
            let m = Message::tool_result(calls[i].id.as_str(), results[i].as_str());
            let ghost before = self.messages.deep_view();
            self.messages.push(m);
            assert(self.messages.deep_view() =~= before.push(m.deep_view()));
            assert(calls.deep_view()[i as int] == calls[i as int].deep_view());
            assert(results.deep_view()[i as int] == results[i as int]@);
            assert(tool_results(calls.deep_view(), results.deep_view()).take(i + 1)
                =~= tool_results(calls.deep_view(), results.deep_view()).take(i as int).push(
                m.deep_view(),
            ));
            i = i + 1;
        }
        assert(tool_results(calls.deep_view(), results.deep_view()).take(n as int)
            =~= tool_results(calls.deep_view(), results.deep_view()));
        if self.max_turns > 0 && turn < self.max_turns - 1 {
            TurnStep::AskModel
        } else {
            TurnStep::Finish
        }
    }
}

/// What a turn does next.
pub enum TurnStep {
    /// Ask the model for its next reply.
    AskModel,
    /// Carry out these tool calls, then report their results.
    RunTools(Vec<ToolCall>),
    /// The turn is over.
    Finish,
}

/// The tool messages that report `results[i]` for `calls[i]`, in order.
pub open spec fn tool_results(calls: Seq<ToolCallV>, results: Seq<Seq<char>>) -> Seq<MessageV> {
    Seq::new(
        calls.len(),
        |i: int|
            MessageV {
                role: "tool"@,
                content: Some(results[i]),
                tool_calls: None,
                tool_call_id: Some(calls[i].id),
            },
    )
}

/// The session's settings are as they were: endpoint, tools, working
/// directory and the limit of model replies per turn.
pub open spec fn unchanged_settings(a: Agent, b: Agent) -> bool {
    &&& b.client == a.client
    &&& b.tools == a.tools
    &&& b.workdir == a.workdir
    &&& b.max_turns == a.max_turns
}

/// Compacting twice to the same size is compacting once.
pub proof fn lemma_compact_idempotent(ms: Seq<MessageV>, k: nat)
    ensures
        compacted(compacted(ms, k), k) == compacted(ms, k),
{
    if ms.len() > k + 1 {
        let c = compacted(ms, k);
        assert(c.len() == k + 2);
        assert(c.skip(c.len() - k) =~= ms.skip(ms.len() - k));
        assert(seq![c[0], notice()] + c.skip(c.len() - k) =~= c);
    }
}

/// Compaction keeps the first message and the last `k` messages, and
/// leaves at most `k + 2`.
pub proof fn lemma_compact_keeps(ms: Seq<MessageV>, k: nat)
    requires
        ms.len() > 0,
    ensures
        compacted(ms, k)[0] == ms[0],
        compacted(ms, k).len() == if ms.len() <= k + 1 {
            ms.len()
        } else {
            k + 2
        },
        forall|j: int|
            0 <= j < k && j < ms.len() - 1 ==> #[trigger] compacted(ms, k)[compacted(ms, k).len()
                - 1 - j] == ms[ms.len() - 1 - j],
{
}

} // verus!
