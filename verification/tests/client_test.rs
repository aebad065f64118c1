use strap_in::client::{classify_sse_line, take_line, LlmClient, SseEvent, SseLine, StreamAssembler};
use strap_in::types::{
    Delta, DeltaFunction, DeltaToolCall, FunctionCall, StreamChoice, StreamChunk, ToolCall, Usage,
};

fn call(id: &str, name: &str, arguments: &str) -> ToolCall {
    ToolCall {
        id: id.to_string(),
        kind: "function".to_string(),
        function: FunctionCall { name: name.to_string(), arguments: arguments.to_string() },
    }
}

fn delta(
    index: usize,
    id: Option<&str>,
    name: Option<&str>,
    arguments: Option<&str>,
) -> DeltaToolCall {
    DeltaToolCall {
        index,
        id: id.map(|s| s.to_string()),
        kind: None,
        function: Some(DeltaFunction {
            name: name.map(|s| s.to_string()),
            arguments: arguments.map(|s| s.to_string()),
        }),
    }
}

fn content_chunk(text: &str) -> StreamChunk {
    StreamChunk {
        choices: vec![StreamChoice {
            delta: Delta { role: None, content: Some(text.to_string()), tool_calls: None },
            finish_reason: None,
        }],
        usage: None,
    }
}

fn tool_chunk(d: DeltaToolCall) -> StreamChunk {
    StreamChunk {
        choices: vec![StreamChoice {
            delta: Delta { role: None, content: None, tool_calls: Some(vec![d]) },
            finish_reason: None,
        }],
        usage: None,
    }
}

/// The payload of a data line, as the stream loop hands it to the decoder.
fn payload(line: &str) -> String {
    match classify_sse_line(line) {
        SseLine::Data(d) => d,
        _ => panic!("expected a data line"),
    }
}

// ── StreamAssembler ──

#[test]
fn assembler_new_is_empty() {
    let a = StreamAssembler::new();
    assert!(a.content.is_empty());
    assert!(a.tool_calls.is_empty());
}

#[test]
fn assembler_finish_empty_produces_none_fields() {
    let a = StreamAssembler::new();
    let (msg, _usage) = a.finish();
    assert_eq!(msg.role, "assistant");
    assert!(msg.content.is_none());
    assert!(msg.tool_calls.is_none());
}

#[test]
fn assembler_finish_with_content() {
    let mut a = StreamAssembler::new();
    a.content = "hello world".into();
    let (msg, _usage) = a.finish();
    assert_eq!(msg.content.unwrap(), "hello world");
    assert!(msg.tool_calls.is_none());
}

#[test]
fn assembler_finish_with_tool_calls() {
    let mut a = StreamAssembler::new();
    a.tool_calls.push(call("tc_1", "read_file", r#"{"path":"test.rs"}"#));
    let (msg, _usage) = a.finish();
    assert!(msg.content.is_none());
    let tcs = msg.tool_calls.unwrap();
    assert_eq!(tcs.len(), 1);
    assert_eq!(tcs[0].function.name, "read_file");
}

// ── Event-stream lines ──

#[test]
fn sse_ignores_empty_line() {
    assert!(matches!(classify_sse_line(""), SseLine::Ignored));
    assert!(matches!(classify_sse_line("   "), SseLine::Ignored));
}

#[test]
fn sse_ignores_comment_line() {
    assert!(matches!(classify_sse_line(": keep-alive"), SseLine::Ignored));
}

#[test]
fn sse_ignores_non_data_line() {
    assert!(matches!(classify_sse_line("event: message"), SseLine::Ignored));
}

#[test]
fn sse_detects_done() {
    assert!(matches!(classify_sse_line("data: [DONE]"), SseLine::Done));
}

#[test]
fn sse_done_with_surrounding_blanks() {
    assert!(matches!(classify_sse_line("  data:   [DONE]  \r"), SseLine::Done));
}

#[test]
fn sse_data_payload_is_trimmed() {
    let line = r#"data: {"choices":[{"delta":{"content":"Hello"},"finish_reason":null}]}"#;
    assert_eq!(payload(line), r#"{"choices":[{"delta":{"content":"Hello"},"finish_reason":null}]}"#);
    assert_eq!(payload("data:  {x}  "), "{x}");
}

#[test]
fn sse_processes_content_delta() {
    let mut a = StreamAssembler::new();
    let result = a.apply_chunk(&content_chunk("Hello"));
    assert_eq!(result, SseEvent::ContentToken("Hello".into()));
    assert_eq!(a.content, "Hello");
}

#[test]
fn sse_accumulates_multiple_content_deltas() {
    let mut a = StreamAssembler::new();
    a.apply_chunk(&content_chunk("Hello"));
    a.apply_chunk(&content_chunk(" world"));
    assert_eq!(a.content, "Hello world");
}

#[test]
fn sse_processes_tool_call_delta_with_id_and_name() {
    let mut a = StreamAssembler::new();
    let d = DeltaToolCall {
        index: 0,
        id: Some("call_123".into()),
        kind: Some("function".into()),
        function: Some(DeltaFunction { name: Some("read_file".into()), arguments: Some("".into()) }),
    };
    let result = a.apply_chunk(&tool_chunk(d));
    assert_eq!(result, SseEvent::ToolCallDelta);
    assert_eq!(a.tool_calls.len(), 1);
    assert_eq!(a.tool_calls[0].id, "call_123");
    assert_eq!(a.tool_calls[0].function.name, "read_file");
}

#[test]
fn sse_accumulates_tool_call_arguments_across_deltas() {
    let mut a = StreamAssembler::new();
    a.apply_chunk(&tool_chunk(delta(0, Some("call_1"), Some("read_file"), Some("{\"pa"))));
    a.apply_chunk(&tool_chunk(delta(0, None, None, Some("th\":\"test.rs\"}"))));
    assert_eq!(a.tool_calls.len(), 1);
    assert_eq!(a.tool_calls[0].function.arguments, r#"{"path":"test.rs"}"#);
}

#[test]
fn sse_handles_multiple_concurrent_tool_calls() {
    let mut a = StreamAssembler::new();
    a.apply_chunk(&tool_chunk(delta(0, Some("call_1"), Some("read_file"), Some("{}"))));
    a.apply_chunk(&tool_chunk(delta(1, Some("call_2"), Some("list_dir"), Some("{}"))));
    assert_eq!(a.tool_calls.len(), 2);
    assert_eq!(a.tool_calls[0].function.name, "read_file");
    assert_eq!(a.tool_calls[1].function.name, "list_dir");
}

#[test]
fn sse_handles_empty_choices() {
    let mut a = StreamAssembler::new();
    let chunk = StreamChunk { choices: vec![], usage: None };
    assert_eq!(a.apply_chunk(&chunk), SseEvent::Ignored);
}

#[test]
fn sse_handles_delta_with_role_only() {
    let mut a = StreamAssembler::new();
    let chunk = StreamChunk {
        choices: vec![StreamChoice {
            delta: Delta { role: Some("assistant".into()), content: None, tool_calls: None },
            finish_reason: None,
        }],
        usage: None,
    };
    assert_eq!(a.apply_chunk(&chunk), SseEvent::Ignored);
}

#[test]
fn chunk_reports_last_token_of_several_choices() {
    let mut a = StreamAssembler::new();
    let chunk = StreamChunk {
        choices: vec![
            StreamChoice {
                delta: Delta { role: None, content: Some("ab".into()), tool_calls: None },
                finish_reason: None,
            },
            StreamChoice {
                delta: Delta { role: None, content: Some("cd".into()), tool_calls: None },
                finish_reason: None,
            },
        ],
        usage: None,
    };
    assert_eq!(a.apply_chunk(&chunk), SseEvent::ContentToken("cd".into()));
    assert_eq!(a.content, "abcd");
}

#[test]
fn chunk_usage_is_kept_until_replaced() {
    let mut a = StreamAssembler::new();
    let u = Usage { prompt_tokens: 10, completion_tokens: 5, total_tokens: 15 };
    a.apply_chunk(&StreamChunk { choices: vec![], usage: Some(u) });
    a.apply_chunk(&content_chunk("x"));
    let (_msg, usage) = a.finish();
    let usage = usage.unwrap();
    assert_eq!(usage.prompt_tokens, 10);
    assert_eq!(usage.completion_tokens, 5);
    assert_eq!(usage.total_tokens, 15);
}

// ── apply_tool_call_delta ──

#[test]
fn delta_creates_new_entry_at_index() {
    let mut a = StreamAssembler::new();
    let d = DeltaToolCall {
        index: 0,
        id: Some("tc_1".into()),
        kind: Some("function".into()),
        function: Some(DeltaFunction { name: Some("bash".into()), arguments: Some("{".into()) }),
    };
    a.apply_tool_call_delta(&d);
    assert_eq!(a.tool_calls.len(), 1);
    assert_eq!(a.tool_calls[0].id, "tc_1");
    assert_eq!(a.tool_calls[0].function.name, "bash");
    assert_eq!(a.tool_calls[0].function.arguments, "{");
}

#[test]
fn delta_extends_vec_for_sparse_index() {
    let mut a = StreamAssembler::new();
    a.apply_tool_call_delta(&delta(2, Some("tc_3"), Some("grep"), None));
    assert_eq!(a.tool_calls.len(), 3);
    assert_eq!(a.tool_calls[2].function.name, "grep");
    assert!(a.tool_calls[0].id.is_empty());
    assert!(a.tool_calls[1].id.is_empty());
}

#[test]
fn delta_appends_arguments_incrementally() {
    let mut a = StreamAssembler::new();
    a.apply_tool_call_delta(&delta(0, Some("tc_1"), Some("edit_file"), Some(r#"{"path":"#)));
    a.apply_tool_call_delta(&delta(0, None, None, Some(r#""x.rs"}"#)));
    assert_eq!(a.tool_calls[0].function.arguments, r#"{"path":"x.rs"}"#);
}

#[test]
fn delta_with_all_none_fields() {
    let mut a = StreamAssembler::new();
    a.tool_calls.push(call("tc_1", "bash", "{}"));
    let d = DeltaToolCall { index: 0, id: None, kind: None, function: None };
    a.apply_tool_call_delta(&d);
    assert_eq!(a.tool_calls[0].id, "tc_1");
    assert_eq!(a.tool_calls[0].function.name, "bash");
}

#[test]
fn delta_with_empty_name_keeps_existing_name() {
    let mut a = StreamAssembler::new();
    a.apply_tool_call_delta(&delta(0, None, Some("bash"), None));
    a.apply_tool_call_delta(&delta(0, None, Some(""), Some("{}")));
    assert_eq!(a.tool_calls[0].function.name, "bash");
    assert_eq!(a.tool_calls[0].function.arguments, "{}");
}

// ── LlmClient ──

#[test]
fn client_strips_trailing_slash_from_url() {
    let c = LlmClient::new("https://api.example.com/v1/", "key", "model");
    assert_eq!(c.base_url, "https://api.example.com/v1");
}

#[test]
fn client_preserves_url_without_trailing_slash() {
    let c = LlmClient::new("https://api.example.com/v1", "key", "model");
    assert_eq!(c.base_url, "https://api.example.com/v1");
}

#[test]
fn client_stores_api_key_and_model() {
    let c = LlmClient::new("http://localhost:11434/v1", "test-key", "llama3");
    assert_eq!(c.api_key, "test-key");
    assert_eq!(c.model, "llama3");
}

#[test]
fn client_strips_every_trailing_slash() {
    let c = LlmClient::new("http://h/v1///", "k", "m");
    assert_eq!(c.base_url, "http://h/v1");
    assert_eq!(c.completions_url(), "http://h/v1/chat/completions");
}

// ── finish ──

#[test]
fn finish_filters_out_filler_entries_with_empty_name() {
    let mut a = StreamAssembler::new();
    a.apply_tool_call_delta(&delta(2, Some("tc_3"), Some("grep"), Some("{}")));
    assert_eq!(a.tool_calls.len(), 3);
    let (msg, _usage) = a.finish();
    let tcs = msg.tool_calls.unwrap();
    assert_eq!(tcs.len(), 1);
    assert_eq!(tcs[0].function.name, "grep");
    assert_eq!(tcs[0].id, "tc_3");
}

#[test]
fn finish_generates_fallback_id_when_missing() {
    let mut a = StreamAssembler::new();
    a.tool_calls.push(call("", "read_file", r#"{"path":"test.rs"}"#));
    let (msg, _usage) = a.finish();
    let tcs = msg.tool_calls.unwrap();
    assert_eq!(tcs.len(), 1);
    assert_eq!(tcs[0].id, "call_0");
    assert_eq!(tcs[0].function.name, "read_file");
}

#[test]
fn finish_preserves_existing_ids() {
    let mut a = StreamAssembler::new();
    a.tool_calls.push(call("real_id_123", "bash", "{}"));
    let (msg, _usage) = a.finish();
    let tcs = msg.tool_calls.unwrap();
    assert_eq!(tcs[0].id, "real_id_123");
}

#[test]
fn finish_filters_all_empty_returns_none() {
    let mut a = StreamAssembler::new();
    a.tool_calls.push(call("", "", ""));
    let (msg, _usage) = a.finish();
    assert!(msg.tool_calls.is_none());
}

#[test]
fn finish_mixed_valid_and_filler() {
    let mut a = StreamAssembler::new();
    a.tool_calls.push(call("tc_1", "read_file", "{}"));
    a.tool_calls.push(call("", "", ""));
    a.tool_calls.push(call("tc_3", "bash", "{}"));
    let (msg, _usage) = a.finish();
    let tcs = msg.tool_calls.unwrap();
    assert_eq!(tcs.len(), 2);
    assert_eq!(tcs[0].function.name, "read_file");
    assert_eq!(tcs[1].function.name, "bash");
}

#[test]
fn finish_generates_sequential_fallback_ids() {
    let mut a = StreamAssembler::new();
    for i in 0..3 {
        a.tool_calls.push(call("", &format!("tool_{i}"), "{}"));
    }
    let (msg, _usage) = a.finish();
    let tcs = msg.tool_calls.unwrap();
    assert_eq!(tcs[0].id, "call_0");
    assert_eq!(tcs[1].id, "call_1");
    assert_eq!(tcs[2].id, "call_2");
}

#[test]
fn finish_fallback_id_uses_position_before_filtering() {
    let mut a = StreamAssembler::new();
    a.tool_calls.push(call("", "", ""));
    a.tool_calls.push(call("", "", ""));
    a.tool_calls.push(call("", "bash", ""));
    let (msg, _usage) = a.finish();
    let tcs = msg.tool_calls.unwrap();
    assert_eq!(tcs.len(), 1);
    assert_eq!(tcs[0].id, "call_2");
}

#[test]
fn finish_drops_call_without_name_even_with_arguments() {
    let mut a = StreamAssembler::new();
    a.tool_calls.push(call("x", "", "{}"));
    a.tool_calls.push(call("", "bash", "{}"));
    let (msg, _usage) = a.finish();
    let tcs = msg.tool_calls.unwrap();
    assert_eq!(tcs.len(), 1);
    assert_eq!(tcs[0].id, "call_1");
}

// ── Line framing of the byte stream ──

#[test]
fn take_line_splits_at_first_newline() {
    let mut buf = String::from("data: a\ndata: b\npartial");
    assert_eq!(take_line(&mut buf).as_deref(), Some("data: a"));
    assert_eq!(buf, "data: b\npartial");
    assert_eq!(take_line(&mut buf).as_deref(), Some("data: b"));
    assert_eq!(buf, "partial");
    assert!(take_line(&mut buf).is_none());
    assert_eq!(buf, "partial");
}
