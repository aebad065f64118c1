//! Assembly of a streamed chat reply: framing of server-sent-event lines,
//! accumulation of content and tool-call deltas, and the final message.

use vstd::prelude::*;
use crate::text::{
    chars_of, dec, has_prefix, index_of, lemma_index_of, lemma_index_of_bound, matches_at, push_dec,
    same_chars, string_of, trim, trim_slice,
};
use crate::types::{
    DeltaToolCall, DeltaV, FunctionCall, Message, StreamChoice, StreamChunk, ToolCall, ToolCallV, Usage,
};

verus! {

broadcast use vstd::string::group_string_axioms;

// ---------------------------------------------------------------------------
// Specifications
// ---------------------------------------------------------------------------

/// The placeholder that stands at a tool-call position before any delta
/// for it has arrived.
pub open spec fn filler() -> ToolCallV {
    ToolCallV { id: seq![], kind: "function"@, name: seq![], arguments: seq![] }
}

/// `calls` extended with placeholders to at least `n` entries.
pub open spec fn grow(calls: Seq<ToolCallV>, n: nat) -> Seq<ToolCallV> {
    if calls.len() >= n {
        calls
    } else {
        calls + Seq::new((n - calls.len()) as nat, |i: int| filler())
    }
}

/// A tool call after one delta: the id is replaced when given, the name
/// when given and non-empty, and the argument text is extended.
pub open spec fn merge_delta(c: ToolCallV, d: DeltaV) -> ToolCallV {
    ToolCallV {
        id: match d.id {
            Some(id) => id,
            None => c.id,
        },
        kind: c.kind,
        name: match d.name {
            Some(n) => if n.len() > 0 {
                n
            } else {
                c.name
            },
            None => c.name,
        },
        arguments: match d.arguments {
            Some(a) => c.arguments + a,
            None => c.arguments,
        },
    }
}

/// The accumulated tool calls after the delta `d`.
pub open spec fn apply_delta(calls: Seq<ToolCallV>, d: DeltaV) -> Seq<ToolCallV> {
    let g = grow(calls, d.index + 1);
    g.update(d.index as int, merge_delta(g[d.index as int], d))
}

/// The accumulated tool calls after the deltas `ds`, in order.
pub open spec fn apply_deltas(calls: Seq<ToolCallV>, ds: Seq<DeltaV>) -> Seq<ToolCallV>
    decreases ds.len(),
{
    if ds.len() == 0 {
        calls
    } else {
        apply_delta(apply_deltas(calls, ds.drop_last()), ds.last())
    }
}

/// The content text that the choices of a chunk carry, in order.
pub open spec fn chunk_text(choices: Seq<StreamChoice>) -> Seq<char>
    decreases choices.len(),
{
    if choices.len() == 0 {
        seq![]
    } else {
        chunk_text(choices.drop_last()) + match choices.last().delta.content {
            Some(c) => c@,
            None => seq![],
        }
    }
}

/// The tool-call deltas that the choices of a chunk carry, in order.
pub open spec fn chunk_deltas(choices: Seq<StreamChoice>) -> Seq<DeltaV>
    decreases choices.len(),
{
    if choices.len() == 0 {
        seq![]
    } else {
        chunk_deltas(choices.drop_last()) + match choices.last().delta.tool_calls {
            Some(tcs) => tcs.deep_view(),
            None => seq![],
        }
    }
}

/// The content of the last choice that carries content.
pub open spec fn last_token(choices: Seq<StreamChoice>) -> Option<Seq<char>>
    decreases choices.len(),
{
    if choices.len() == 0 {
        None
    } else {
        match choices.last().delta.content {
            Some(c) => Some(c@),
            None => last_token(choices.drop_last()),
        }
    }
}

/// Some choice carries tool-call deltas.
pub open spec fn has_tool_deltas(choices: Seq<StreamChoice>) -> bool {
    exists|i: int| 0 <= i < choices.len() && (#[trigger] choices[i]).delta.tool_calls is Some
}

/// Every delta of the chunk names a position below `usize::MAX`.
pub open spec fn indices_bounded(choices: Seq<StreamChoice>) -> bool {
    forall|i: int|
        0 <= i < choices.len() ==> match (#[trigger] choices[i]).delta.tool_calls {
            Some(tcs) => forall|j: int| 0 <= j < tcs@.len() ==> (#[trigger] tcs@[j]).index < usize::MAX,
            None => true,
        }
}

/// The tool calls of a finished reply: entries without a name are
/// placeholders and are dropped, and an entry without an id at position `i`
/// gets the id `call_i`.
pub open spec fn finish_calls(calls: Seq<ToolCallV>) -> Seq<ToolCallV>
    decreases calls.len(),
{
    if calls.len() == 0 {
        seq![]
    } else {
        let prev = finish_calls(calls.drop_last());
        let c = calls.last();
        if c.name.len() > 0 {
            prev.push(with_fallback_id(c, (calls.len() - 1) as nat))
        } else {
            prev
        }
    }
}

/// `c`, with the id `call_i` when it has none.
pub open spec fn with_fallback_id(c: ToolCallV, i: nat) -> ToolCallV {
    if c.id.len() == 0 {
        ToolCallV { id: "call_"@ + dec(i), ..c }
    } else {
        c
    }
}

/// What one line of the event stream is.
pub enum SseLine {
    /// A blank line, a comment, or a field other than `data`.
    Ignored,
    /// The `[DONE]` sentinel.
    Done,
    /// The payload of a `data:` line.
    Data(String),
}

/// Classification of a line: trimmed, blank lines and `:` comments are
/// ignored, as is every line that does not start with `data: `; the
/// trimmed payload `[DONE]` ends the stream.
pub open spec fn sse_line_kind(line: Seq<char>) -> Option<Option<Seq<char>>> {
    let t = trim(line);
    if t.len() == 0 || t[0] == ':' || !has_prefix(t, "data: "@) {
        None
    } else if trim(t.skip(6)) == "[DONE]"@ {
        Some(None)
    } else {
        Some(Some(trim(t.skip(6))))
    }
}

/// What processing a line did.
#[derive(Debug, PartialEq)]
pub enum SseEvent {
    /// A content token to display.
    ContentToken(String),
    /// A tool-call delta was accumulated.
    ToolCallDelta,
    /// Nothing actionable.
    Ignored,
    /// The stream signalled completion.
    Done,
}

// ---------------------------------------------------------------------------
// Framing
// ---------------------------------------------------------------------------

/// Classifies one line of the event stream (the framing part of
/// `process_sse_line`).
pub fn classify_sse_line(line: &str) -> (r: SseLine)
    ensures
        match r {
            SseLine::Ignored => sse_line_kind(line@) is None,
            SseLine::Done => sse_line_kind(line@) == Some(None::<Seq<char>>),
            SseLine::Data(d) => sse_line_kind(line@) == Some(Some(d@)),
        },
{
    let all = chars_of(line);
    let t = trim_slice(all.as_slice());
    if t.len() == 0 || t[0] == ':' {
        return SseLine::Ignored;
    }
    let prefix = chars_of("data: ");
    proof {
        reveal_strlit("data: ");
    }
    if !matches_at(t, 0, prefix.as_slice()) {
        assert(t@.skip(0) == t@);
        return SseLine::Ignored;
    }
    assert(t@.skip(0) == t@);
    assert(prefix@.len() == 6);
    let data = trim_slice(&t[6..t.len()]);
    assert(t@.subrange(6, t@.len() as int) == t@.skip(6));
    let done = chars_of("[DONE]");
    if same_chars(data, done.as_slice()) {
        SseLine::Done
    } else {
        SseLine::Data(string_of(data))
    }
}

// ---------------------------------------------------------------------------
// The assembler
// ---------------------------------------------------------------------------

/// Accumulates streamed deltas into a complete assistant message.
pub struct StreamAssembler {
    pub content: String,
    pub tool_calls: Vec<ToolCall>,
    pub usage: Option<Usage>,
}

/// A placeholder tool call.
fn filler_call() -> (c: ToolCall)
    ensures
        c.deep_view() == filler(),
{
    ToolCall {
        id: String::new(),
        kind: String::from_str("function"),
        function: FunctionCall { name: String::new(), arguments: String::new() },
    }
}

impl StreamAssembler {
    /// An assembler with nothing accumulated.
    pub fn new() -> (a: StreamAssembler)
        ensures
            a.content@ == Seq::<char>::empty(),
            a.tool_calls@.len() == 0,
            a.usage is None,
    {
        StreamAssembler { content: String::new(), tool_calls: Vec::new(), usage: None }
    }

    /// Applies one tool-call delta to the accumulated calls.
    pub fn apply_tool_call_delta(&mut self, delta: &DeltaToolCall)
        requires
            delta.index < usize::MAX,
        ensures
            final(self).tool_calls.deep_view() == apply_delta(
                old(self).tool_calls.deep_view(),
                delta.deep_view(),
            ),
            final(self).content == old(self).content,
            final(self).usage == old(self).usage,
    {
        let idx = delta.index;
        let ghost calls0 = old(self).tool_calls.deep_view();
        while self.tool_calls.len() <= idx
            invariant
                idx < usize::MAX,
                calls0.len() <= self.tool_calls@.len(),
                self.tool_calls@.len() <= calls0.len() || self.tool_calls@.len() <= idx + 1,
                self.tool_calls.deep_view() =~= grow(calls0, self.tool_calls@.len() as nat),
                self.content == old(self).content,
                self.usage == old(self).usage,
            decreases idx + 1 - self.tool_calls@.len(),
        {
            let ghost before = self.tool_calls.deep_view();
            let f = filler_call();
            self.tool_calls.push(f);
            assert(self.tool_calls.deep_view() =~= before.push(filler()));
            assert(grow(calls0, self.tool_calls@.len() as nat) =~= grow(
                calls0,
                (self.tool_calls@.len() - 1) as nat,
            ).push(filler()));
        }
        assert(self.tool_calls.deep_view() =~= grow(calls0, (idx + 1) as nat));
        let mut tc = self.tool_calls[idx].duplicate();
        if let Some(id) = &delta.id {
            tc.id = id.clone();
        }
        if let Some(f) = &delta.function {
            if let Some(name) = &f.name {
                if !name.as_str().is_empty() {
                    tc.function.name = name.clone();
                }
            }
            if let Some(args) = &f.arguments {
                tc.function.arguments.append(args.as_str());
            }
        }
        let ghost before = self.tool_calls.deep_view();
        self.tool_calls.set(idx, tc);
        assert(self.tool_calls.deep_view() =~= before.update(idx as int, tc.deep_view()));
    }

    /// Applies one decoded chunk (the accumulation part of
    /// `process_sse_line`): the usage report when present, the content of
    /// every choice, and every tool-call delta, in order.
    pub fn apply_chunk(&mut self, chunk: &StreamChunk) -> (ev: SseEvent)
        requires
            indices_bounded(chunk.choices@),
        ensures
            final(self).content@ == old(self).content@ + chunk_text(chunk.choices@),
            final(self).tool_calls.deep_view() == apply_deltas(
                old(self).tool_calls.deep_view(),
                chunk_deltas(chunk.choices@),
            ),
            final(self).usage == (match chunk.usage {
                Some(u) => Some(u),
                None => old(self).usage,
            }),
            match ev {
                SseEvent::ContentToken(t) => last_token(chunk.choices@) == Some(t@),
                SseEvent::ToolCallDelta => last_token(chunk.choices@) is None && has_tool_deltas(
                    chunk.choices@,
                ),
                SseEvent::Ignored => last_token(chunk.choices@) is None && !has_tool_deltas(
                    chunk.choices@,
                ),
                SseEvent::Done => false,
            },
    {
        if let Some(u) = chunk.usage {
            self.usage = Some(u);
        }
        let n = chunk.choices.len();
        let mut token: Option<String> = None;
        let mut got_tool = false;
        let mut i: usize = 0;
        while i < n
            invariant
                n == chunk.choices@.len(),
                i <= n,
                indices_bounded(chunk.choices@),
                self.content@ == old(self).content@ + chunk_text(chunk.choices@.take(i as int)),
                self.tool_calls.deep_view() == apply_deltas(
                    old(self).tool_calls.deep_view(),
                    chunk_deltas(chunk.choices@.take(i as int)),
                ),
                self.usage == (match chunk.usage {
                    Some(u) => Some(u),
                    None => old(self).usage,
                }),
                token.deep_view() == last_token(chunk.choices@.take(i as int)),
                got_tool == has_tool_deltas(chunk.choices@.take(i as int)),
            decreases n - i,
        {
            let choice = &chunk.choices[i];
            let ghost pre = chunk.choices@.take(i as int);
            let ghost cur = chunk.choices@.take(i + 1);
            assert(cur.drop_last() == pre);
            assert(cur.last() == *choice);
            if let Some(c) = &choice.delta.content {
                self.content.append(c.as_str());
                token = Some(c.clone());
            }
            if let Some(tcs) = &choice.delta.tool_calls {
                let m = tcs.len();
                let mut j: usize = 0;
                let ghost base = self.tool_calls.deep_view();
                let ghost content_now = self.content;
                let ghost usage_now = self.usage;
                assert(chunk.choices@[i as int] == *choice);
                while j < m
                    invariant
                        m == tcs@.len(),
                        j <= m,
                        indices_bounded(chunk.choices@),
                        i < n,
                        n == chunk.choices@.len(),
                        chunk.choices@[i as int].delta.tool_calls == Some(*tcs),
                        self.tool_calls.deep_view() == apply_deltas(
                            base,
                            tcs.deep_view().take(j as int),
                        ),
                        self.content == content_now,
                        self.usage == usage_now,
                    decreases m - j,
                {
                    assert(match chunk.choices@[i as int].delta.tool_calls {
                        Some(t) => forall|k: int| 0 <= k < t@.len() ==> (#[trigger] t@[k]).index < usize::MAX,
                        None => true,
                    });
                    assert(tcs@[j as int].index < usize::MAX);
                    self.apply_tool_call_delta(&tcs[j]);
                    assert(tcs.deep_view().take(j + 1).drop_last() == tcs.deep_view().take(
                        j as int,
                    ));
                    j = j + 1;
                }
                assert(tcs.deep_view().take(m as int) == tcs.deep_view());
                proof {
                    lemma_apply_deltas_concat(
                        old(self).tool_calls.deep_view(),
                        chunk_deltas(pre),
                        tcs.deep_view(),
                    );
                }
                got_tool = true;
            }
            assert(has_tool_deltas(cur) == (has_tool_deltas(pre) || choice.delta.tool_calls is Some)) by {
                if choice.delta.tool_calls is Some {
                    assert(cur[i as int] == *choice);
                }
                if has_tool_deltas(cur) && choice.delta.tool_calls is None {
                    let k = choose|k: int| 0 <= k < cur.len() && (#[trigger] cur[k]).delta.tool_calls is Some;
                    assert(pre[k] == cur[k]);
                }
                if has_tool_deltas(pre) {
                    let k = choose|k: int| 0 <= k < pre.len() && (#[trigger] pre[k]).delta.tool_calls is Some;
                    assert(pre[k] == cur[k]);
                }
            }
            i = i + 1;
        }
        assert(chunk.choices@.take(n as int) == chunk.choices@);
        match token {
            Some(t) => SseEvent::ContentToken(t),
            None => if got_tool {
                SseEvent::ToolCallDelta
            } else {
                SseEvent::Ignored
            },
        }
    }
}

impl StreamAssembler {
    /// The final assistant message and the last usage report: the text
    /// when any was streamed, and the tool calls as `finish_calls` gives
    /// them when any remain.
    pub fn finish(self) -> (r: (Message, Option<Usage>))
        ensures
            r.0.role@ == "assistant"@,
            r.0.content.deep_view() == (if self.content@.len() == 0 {
                None
            } else {
                Some(self.content@)
            }),
            r.0.tool_calls.deep_view() == (if finish_calls(self.tool_calls.deep_view()).len() == 0 {
                None
            } else {
                Some(finish_calls(self.tool_calls.deep_view()))
            }),
            r.0.tool_call_id is None,
            r.1 == self.usage,
    {
        let content = if self.content.as_str().is_empty() {
            None
        } else {
            Some(self.content)
        };
        let calls = &self.tool_calls;
        let n = calls.len();
        let mut valid: Vec<ToolCall> = Vec::new();
        let mut i: usize = 0;
        while i < n
            invariant
                n == calls@.len(),
                i <= n,
                valid.deep_view() == finish_calls(calls.deep_view().take(i as int)),
            decreases n - i,
        {
            let ghost cur = calls.deep_view().take(i + 1);
            assert(cur.drop_last() == calls.deep_view().take(i as int));
            assert(cur.last() == calls[i as int].deep_view());
            let tc = &calls[i];
            if !tc.function.name.as_str().is_empty() {
                let mut c = tc.duplicate();
                if c.id.as_str().is_empty() {
                    let mut id = String::from_str("call_");
                    push_dec(&mut id, i as u64);
                    c.id = id;
                }
                let ghost before = valid.deep_view();
                valid.push(c);
                assert(valid.deep_view() =~= before.push(c.deep_view()));
            }
            i = i + 1;
        }
        assert(calls.deep_view().take(n as int) == calls.deep_view());
        let tool_calls = if valid.len() == 0 {
            None
        } else {
            Some(valid)
        };
        (Message::assistant(content, tool_calls), self.usage)
    }
}

/// Every tool call of a finished reply has an id and a name.
pub proof fn lemma_finished_calls_complete(calls: Seq<ToolCallV>)
    ensures
        forall|k: int|
            0 <= k < finish_calls(calls).len() ==> {
                let c = #[trigger] finish_calls(calls)[k];
                &&& c.id.len() > 0
                &&& c.name.len() > 0
            },
        finish_calls(calls).len() <= calls.len(),
    decreases calls.len(),
{
    if calls.len() > 0 {
        lemma_finished_calls_complete(calls.drop_last());
        let c = calls.last();
        if c.id.len() == 0 {
            let i = (calls.len() - 1) as nat;
            assert(("call_"@ + dec(i)).len() >= dec(i).len());
            lemma_dec_nonempty(i);
        }
    }
}

/// Number of calls of `calls` that have a name.
pub open spec fn count_named(calls: Seq<ToolCallV>) -> nat
    decreases calls.len(),
{
    if calls.len() == 0 {
        0
    } else {
        count_named(calls.drop_last()) + if calls.last().name.len() > 0 {
            1nat
        } else {
            0nat
        }
    }
}

/// The finished call that stands for the accumulated call `c` at position
/// `i` keeps its kind, name and argument text; only an empty id becomes
/// `call_i`.
pub open spec fn kept_call(f: ToolCallV, c: ToolCallV, i: nat) -> bool {
    &&& f.kind == c.kind
    &&& f.name == c.name
    &&& f.arguments == c.arguments
    &&& f.id == (if c.id.len() == 0 {
        "call_"@ + dec(i)
    } else {
        c.id
    })
}

/// A finished reply keeps exactly the named calls, in order, each as it
/// was accumulated: the call at position `i` becomes the
/// `count_named(calls[..i])`-th finished call, with its kind, name and
/// arguments unchanged and only an empty id replaced by `call_i`.
pub proof fn lemma_finish_keeps_calls(calls: Seq<ToolCallV>)
    ensures
        finish_calls(calls).len() == count_named(calls),
        forall|i: int|
            0 <= i < calls.len() && (#[trigger] calls[i]).name.len() > 0 ==> count_named(
                calls.take(i),
            ) < finish_calls(calls).len() && kept_call(
                finish_calls(calls)[count_named(calls.take(i)) as int],
                calls[i],
                i as nat,
            ),
    decreases calls.len(),
{
    if calls.len() > 0 {
        let pre = calls.drop_last();
        lemma_finish_keeps_calls(pre);
        let n = calls.len() - 1;
        assert(calls.take(n) =~= pre);
        assert forall|i: int|
            0 <= i < calls.len() && (#[trigger] calls[i]).name.len() > 0 implies count_named(
                calls.take(i),
            ) < finish_calls(calls).len() && kept_call(
                finish_calls(calls)[count_named(calls.take(i)) as int],
                calls[i],
                i as nat,
            ) by {
            if i < n {
                assert(calls.take(i) =~= pre.take(i));
                assert(pre[i] == calls[i]);
            }
        }
    }
}

proof fn lemma_dec_nonempty(n: nat)
    ensures
        dec(n).len() > 0,
    decreases n,
{
    if n >= 10 {
        lemma_dec_nonempty(n / 10);
    }
}

// ---------------------------------------------------------------------------
// The line buffer of a stream
// ---------------------------------------------------------------------------

/// Removes the first complete line (up to the first `\n`) from `buf` and
/// returns it without its `\n`; `None`, leaving `buf` alone, when no
/// complete line is buffered.
pub fn take_line(buf: &mut String) -> (r: Option<String>)
    ensures
        match index_of(old(buf)@, '\n') {
            Some(i) => r matches Some(l) && l@ == old(buf)@.take(i as int) && final(buf)@
                == old(buf)@.skip((i + 1) as int),
            None => r is None && final(buf)@ == old(buf)@,
        },
{
    let cs = chars_of(buf.as_str());
    let n = cs.len();
    let mut i: usize = 0;
    while i < n && cs[i] != '\n'
        invariant
            n == cs@.len(),
            i <= n,
            forall|j: int| 0 <= j < i ==> cs@[j] != '\n',
        decreases n - i,
    {
        i = i + 1;
    }
    proof {
        lemma_index_of(cs@, '\n', i as int);
    }
    if i < n {
        let line = string_of(&cs[0..i]);
        *buf = string_of(&cs[i + 1..n]);
        assert(cs@.subrange(i + 1, n as int) == cs@.skip(i + 1));
        Some(line)
    } else {
        None
    }
}

/// A line removed by `take_line` and the rest of the buffer make up the
/// buffer again: `old == line + "\n" + rest`.
pub proof fn lemma_take_line_restores(buf: Seq<char>)
    ensures
        index_of(buf, '\n') matches Some(i) ==> buf == buf.take(i as int) + seq!['\n'] + buf.skip(
            (i + 1) as int,
        ),
{
    lemma_index_of_bound(buf, '\n');
    if let Some(i) = index_of(buf, '\n') {
        assert(buf =~= buf.take(i as int) + seq!['\n'] + buf.skip((i + 1) as int));
    }
}

// ---------------------------------------------------------------------------
// Endpoint settings
// ---------------------------------------------------------------------------

/// `s` without any trailing `c` (`str::trim_end_matches(c)`).
pub open spec fn trim_end_char(s: Seq<char>, c: char) -> Seq<char>
    decreases s.len(),
{
    if s.len() > 0 && s.last() == c {
        trim_end_char(s.drop_last(), c)
    } else {
        s
    }
}

/// The settings of an OpenAI-compatible endpoint.
pub struct LlmClient {
    pub base_url: String,
    pub api_key: String,
    pub model: String,
}

impl LlmClient {
    /// Settings for `base_url`, whose trailing slashes are dropped.
    pub fn new(base_url: &str, api_key: &str, model: &str) -> (c: LlmClient)
        ensures
            c.base_url@ == trim_end_char(base_url@, '/'),
            c.api_key@ == api_key@,
            c.model@ == model@,
    {
        let cs = chars_of(base_url);
        let mut k = cs.len();
        assert(cs@.take(k as int) == cs@);
        while k > 0 && cs[k - 1] == '/'
            invariant
                k <= cs@.len(),
                trim_end_char(cs@, '/') == trim_end_char(cs@.take(k as int), '/'),
            decreases k,
        {
            assert(cs@.take(k as int).drop_last() == cs@.take(k - 1));
            k = k - 1;
        }
        LlmClient {
            base_url: string_of(&cs[0..k]),
            api_key: String::from_str(api_key),
            model: String::from_str(model),
        }
    }

    /// The URL of the chat-completions endpoint.
    pub fn completions_url(&self) -> (u: String)
        ensures
            u@ == self.base_url@ + "/chat/completions"@,
    {
        let mut u = self.base_url.clone();
        u.append("/chat/completions");
        u
    }
}

/// Applying deltas one list after another is applying their concatenation.
pub proof fn lemma_apply_deltas_concat(calls: Seq<ToolCallV>, a: Seq<DeltaV>, b: Seq<DeltaV>)
    ensures
        apply_deltas(apply_deltas(calls, a), b) == apply_deltas(calls, a + b),
    decreases b.len(),
{
    if b.len() == 0 {
        assert(a + b == a);
    } else {
        lemma_apply_deltas_concat(calls, a, b.drop_last());
        assert((a + b).drop_last() == a + b.drop_last());
        assert((a + b).last() == b.last());
    }
}

/// Argument text streamed in two pieces for the same call is the text
/// streamed in one piece: a delta carrying only `a`, then one carrying only
/// `b`, leave the calls as one delta carrying `a + b` does.
pub proof fn lemma_split_arguments(calls: Seq<ToolCallV>, index: nat, a: Seq<char>, b: Seq<char>)
    ensures
        apply_delta(
            apply_delta(calls, DeltaV { index, id: None, name: None, arguments: Some(a) }),
            DeltaV { index, id: None, name: None, arguments: Some(b) },
        ) == apply_delta(calls, DeltaV { index, id: None, name: None, arguments: Some(a + b) }),
{
    let d1 = DeltaV { index, id: None, name: None, arguments: Some(a) };
    let d2 = DeltaV { index, id: None, name: None, arguments: Some(b) };
    let d = DeltaV { index, id: None, name: None, arguments: Some(a + b) };
    let g = grow(calls, index + 1);
    let once = apply_delta(calls, d1);
    assert(once.len() == g.len());
    assert(grow(once, index + 1) == once);
    let c = g[index as int];
    assert(merge_delta(merge_delta(c, d1), d2).arguments =~= c.arguments + (a + b));
    assert(merge_delta(merge_delta(c, d1), d2) == merge_delta(c, d));
    assert(apply_delta(once, d2) =~= apply_delta(calls, d));
}

} // verus!
