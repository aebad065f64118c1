use strap_in::agent::{build_system_prompt, Agent, TurnStep, COMPACT_NOTICE, SYSTEM_PROMPT};
use strap_in::client::LlmClient;
use strap_in::types::{FunctionCall, Message, ToolCall};

fn make_agent() -> Agent {
    let client = LlmClient::new("http://localhost:0/v1", "test-key", "test-model");
    Agent::new(client, "/tmp".to_string(), None)
}

#[test]
fn agent_new_starts_with_system_prompt() {
    let agent = make_agent();
    assert_eq!(agent.messages().len(), 1);
    assert_eq!(agent.messages()[0].role, "system");
    assert!(agent.messages()[0].content.as_ref().unwrap().contains("software engineer"));
}

#[test]
fn agent_new_has_six_tools() {
    let agent = make_agent();
    assert_eq!(agent.tools.len(), 6);
}

#[test]
fn agent_new_has_max_turns_50() {
    let agent = make_agent();
    assert_eq!(agent.max_turns, 50);
}

#[test]
fn compact_noop_when_few_messages() {
    let mut agent = make_agent();
    agent.compact(10);
    assert_eq!(agent.message_count(), 1);
    assert_eq!(agent.messages()[0].role, "system");
}

#[test]
fn compact_noop_at_boundary() {
    let mut agent = make_agent();
    for i in 0..5 {
        agent.messages.push(Message::user(&format!("msg {i}")));
    }
    agent.compact(5);
    assert_eq!(agent.message_count(), 6);
}

#[test]
fn compact_keeps_system_and_last_n() {
    let mut agent = make_agent();
    for i in 0..20 {
        agent.messages.push(Message::user(&format!("msg {i}")));
    }
    agent.compact(5);
    assert_eq!(agent.message_count(), 7);
    assert_eq!(agent.messages()[0].role, "system");
    assert_eq!(agent.messages()[1].role, "user");
    assert!(agent.messages()[1].content.as_ref().unwrap().contains("compacted"));
}

#[test]
fn compact_preserves_system_prompt_content() {
    let mut agent = make_agent();
    let system_before = agent.messages()[0].content.clone();
    for i in 0..20 {
        agent.messages.push(Message::user(&format!("msg {i}")));
    }
    agent.compact(3);
    assert_eq!(agent.messages()[0].content, system_before);
}

#[test]
fn compact_preserves_most_recent_messages() {
    let mut agent = make_agent();
    for i in 0..10 {
        agent.messages.push(Message::user(&format!("msg {i}")));
    }
    agent.compact(3);
    let msgs = agent.messages();
    let last3: Vec<&str> =
        msgs[msgs.len() - 3..].iter().map(|m| m.content.as_ref().unwrap().as_str()).collect();
    assert_eq!(last3, vec!["msg 7", "msg 8", "msg 9"]);
}

#[test]
fn compact_with_keep_last_zero() {
    let mut agent = make_agent();
    for i in 0..5 {
        agent.messages.push(Message::user(&format!("msg {i}")));
    }
    agent.compact(0);
    assert_eq!(agent.message_count(), 2);
    assert_eq!(agent.messages()[0].role, "system");
    assert!(agent.messages()[1].content.as_ref().unwrap().contains("compacted"));
}

#[test]
fn compact_with_mixed_message_types() {
    let mut agent = make_agent();
    agent.messages.push(Message::user("question"));
    agent.messages.push(Message::assistant(Some("answer".into()), None));
    agent.messages.push(Message::user("follow up"));
    agent.messages.push(Message::assistant(
        None,
        Some(vec![ToolCall {
            id: "tc_1".into(),
            kind: "function".into(),
            function: FunctionCall { name: "bash".into(), arguments: "{}".into() },
        }]),
    ));
    agent.messages.push(Message::tool_result("tc_1", "output"));
    agent.messages.push(Message::assistant(Some("done".into()), None));
    agent.compact(2);
    assert_eq!(agent.message_count(), 4);
    let msgs = agent.messages();
    assert_eq!(msgs[3].content.as_ref().unwrap(), "done");
}

#[test]
fn compact_twice_is_idempotent_when_small() {
    let mut agent = make_agent();
    for i in 0..3 {
        agent.messages.push(Message::user(&format!("msg {i}")));
    }
    agent.compact(5);
    let count_after_first = agent.message_count();
    agent.compact(5);
    assert_eq!(agent.message_count(), count_after_first);
}

#[test]
fn compact_twice_is_idempotent_when_large() {
    let mut agent = make_agent();
    for i in 0..9 {
        agent.messages.push(Message::user(&format!("msg {i}")));
    }
    agent.compact(2);
    let first: Vec<Option<String>> = agent.messages().iter().map(|m| m.content.clone()).collect();
    agent.compact(2);
    let second: Vec<Option<String>> = agent.messages().iter().map(|m| m.content.clone()).collect();
    assert_eq!(first, second);
    assert_eq!(second[1].as_deref(), Some(COMPACT_NOTICE));
}

#[test]
fn build_system_prompt_without_strap_md() {
    let prompt = build_system_prompt(None);
    assert!(prompt.contains("software engineer"));
    assert!(!prompt.contains("STRAP.md"));
}

#[test]
fn build_system_prompt_with_strap_md() {
    let prompt = build_system_prompt(Some("# Custom rules\nAlways test."));
    assert!(prompt.contains("software engineer"));
    assert!(prompt.contains("STRAP.md"));
    assert!(prompt.contains("Always test."));
    assert_eq!(
        prompt,
        format!("{SYSTEM_PROMPT}\n\n---\nProject rules (from STRAP.md):\n\n# Custom rules\nAlways test.")
    );
}

#[test]
fn agent_with_strap_md_includes_rules_in_prompt() {
    let client = LlmClient::new("http://localhost:0/v1", "test-key", "test-model");
    let agent = Agent::new(client, "/tmp".to_string(), Some("# My rules\nNo dead code."));
    assert!(agent.messages()[0].content.as_ref().unwrap().contains("No dead code."));
}

#[test]
fn turn_records_messages_in_order() {
    let mut agent = make_agent();
    assert!(matches!(agent.begin_turn("list files"), TurnStep::AskModel));
    let reply = Message::assistant(
        None,
        Some(vec![ToolCall {
            id: "c1".into(),
            kind: "function".into(),
            function: FunctionCall { name: "list_dir".into(), arguments: "{}".into() },
        }]),
    );
    let calls = match agent.after_reply(reply) {
        TurnStep::RunTools(calls) => calls,
        _ => panic!("expected tool calls"),
    };
    assert_eq!(calls.len(), 1);
    assert_eq!(calls[0].id, "c1");
    assert!(matches!(agent.after_tools(&calls, &vec!["a.txt".to_string()], 0), TurnStep::AskModel));
    let done = agent.after_reply(Message::assistant(Some("Here.".into()), None));
    assert!(matches!(done, TurnStep::Finish));
    let msgs = agent.messages();
    assert_eq!(msgs.len(), 5);
    assert_eq!(msgs[1].role, "user");
    assert_eq!(msgs[2].role, "assistant");
    assert_eq!(msgs[3].role, "tool");
    assert_eq!(msgs[3].tool_call_id.as_deref(), Some("c1"));
    assert_eq!(msgs[3].content.as_deref(), Some("a.txt"));
    assert_eq!(msgs[4].content.as_deref(), Some("Here."));
}

#[test]
fn tool_results_are_recorded_in_call_order() {
    let mut agent = make_agent();
    agent.begin_turn("go");
    let call = |id: &str| ToolCall {
        id: id.into(),
        kind: "function".into(),
        function: FunctionCall { name: "bash".into(), arguments: "{}".into() },
    };
    let calls = vec![call("a"), call("b")];
    agent.after_tools(&calls, &vec!["ra".to_string(), "rb".to_string()], 0);
    let msgs = agent.messages();
    assert_eq!(msgs[2].tool_call_id.as_deref(), Some("a"));
    assert_eq!(msgs[2].content.as_deref(), Some("ra"));
    assert_eq!(msgs[3].tool_call_id.as_deref(), Some("b"));
    assert_eq!(msgs[3].content.as_deref(), Some("rb"));
}

#[test]
fn turn_stops_after_max_turns_rounds() {
    let mut agent = make_agent();
    agent.begin_turn("go");
    let none: Vec<ToolCall> = vec![];
    assert!(matches!(agent.after_tools(&none, &vec![], 48), TurnStep::AskModel));
    assert!(matches!(agent.after_tools(&none, &vec![], 49), TurnStep::Finish));
    agent.max_turns = 0;
    assert!(matches!(agent.begin_turn("again"), TurnStep::Finish));
}

#[test]
fn empty_tool_call_list_still_runs_tools() {
    let mut agent = make_agent();
    agent.begin_turn("go");
    let step = agent.after_reply(Message::assistant(None, Some(vec![])));
    assert!(matches!(step, TurnStep::RunTools(ref c) if c.is_empty()));
}
