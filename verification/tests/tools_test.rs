use strap_in::tools::{
    apply_edit, bash_output, created_message, edited_message, format_tavily_results, grep_output,
    io_error_message, listing, number_lines, plan_execution, plan_tool_call, read_file_output,
    resolve_path, resolve_path_pub, tool_definitions, ArgEntry, ArgValue, DirEntry, SearchData,
    SearchResult, ToolAction, ToolArgs,
};
use strap_in::types::{FunctionCall, ToolCall};

fn args(items: &[(&str, &str)]) -> ToolArgs {
    ToolArgs {
        entries: items
            .iter()
            .map(|(k, v)| ArgEntry { key: k.to_string(), value: ArgValue::Text(v.to_string()) })
            .collect(),
    }
}

fn call(name: &str, arguments: &str) -> ToolCall {
    ToolCall {
        id: "tc_1".into(),
        kind: "function".into(),
        function: FunctionCall { name: name.into(), arguments: arguments.into() },
    }
}

fn reply(a: ToolAction) -> String {
    match a {
        ToolAction::Reply(t) => t,
        other => panic!("expected a reply, got {other:?}"),
    }
}

fn dir(name: &str, is_dir: bool) -> DirEntry {
    DirEntry { name: name.into(), is_dir }
}

fn result(title: Option<&str>, url: Option<&str>, content: Option<&str>) -> SearchResult {
    SearchResult {
        title: title.map(|s| s.to_string()),
        url: url.map(|s| s.to_string()),
        content: content.map(|s| s.to_string()),
    }
}

// ── tool_definitions ──

#[test]
fn tool_definitions_returns_six_tools() {
    assert_eq!(tool_definitions().len(), 6);
}

#[test]
fn tool_definitions_names_are_correct() {
    let defs = tool_definitions();
    let names: Vec<&str> = defs.iter().map(|t| t.function.name.as_str()).collect();
    assert_eq!(names, vec!["read_file", "list_dir", "edit_file", "grep", "bash", "web_search"]);
}

#[test]
fn tool_definitions_all_have_function_type() {
    for def in tool_definitions() {
        assert_eq!(def.kind, "function");
    }
}

#[test]
fn tool_definitions_all_have_descriptions() {
    for def in tool_definitions() {
        assert!(!def.function.description.is_empty());
    }
}

#[test]
fn tool_definitions_parameters_are_objects() {
    for def in tool_definitions() {
        for p in &def.function.parameters.properties {
            assert!(!p.name.is_empty());
            assert!(p.kind == "string" || p.kind == "integer");
        }
        for r in &def.function.parameters.required {
            assert!(def.function.parameters.properties.iter().any(|p| &p.name == r));
        }
    }
}

#[test]
fn tool_definitions_required_parameters() {
    let defs = tool_definitions();
    let req: Vec<Vec<&str>> = defs
        .iter()
        .map(|d| d.function.parameters.required.iter().map(|s| s.as_str()).collect())
        .collect();
    assert_eq!(req[0], vec!["path"]);
    assert!(req[1].is_empty());
    assert_eq!(req[2], vec!["path", "old_string", "new_string"]);
    assert_eq!(req[3], vec!["pattern"]);
    assert_eq!(req[4], vec!["command"]);
    assert_eq!(req[5], vec!["query"]);
    assert_eq!(defs[5].function.parameters.properties[1].kind, "integer");
}

// ── resolve_path ──

#[test]
fn resolve_path_relative() {
    let p = resolve_path_pub("src/main.rs", "/home/user/project");
    assert_eq!(p, "/home/user/project/src/main.rs");
}

#[test]
fn resolve_path_absolute() {
    let p = resolve_path_pub("/etc/passwd", "/home/user/project");
    assert_eq!(p, "/etc/passwd");
}

#[test]
fn resolve_path_workdir_with_trailing_slash() {
    assert_eq!(resolve_path("a.txt", "/w/"), "/w/a.txt");
    assert_eq!(resolve_path("a.txt", ""), "a.txt");
}

// ── Dispatch ──

#[test]
fn execute_dispatches_read_file() {
    let a = plan_execution(&call("read_file", r#"{"path":"dispatch.txt"}"#), "/w");
    assert!(matches!(a, ToolAction::ReadFile { ref path } if path == "/w/dispatch.txt"));
}

#[test]
fn execute_dispatches_list_dir() {
    let a = plan_execution(&call("list_dir", "{}"), "/w");
    assert!(matches!(a, ToolAction::ListDir { ref path } if path == "/w"));
}

#[test]
fn execute_dispatches_edit_file() {
    let a = plan_execution(
        &call("edit_file", r#"{"path":"new.txt","old_string":"","new_string":"created"}"#),
        "/w",
    );
    assert!(matches!(
        a,
        ToolAction::CreateFile { ref path, ref content } if path == "/w/new.txt" && content == "created"
    ));
}

#[test]
fn execute_dispatches_bash() {
    let a = plan_execution(&call("bash", r#"{"command":"echo dispatch_test"}"#), "/w");
    assert!(matches!(a, ToolAction::Bash { ref command } if command == "echo dispatch_test"));
}

#[test]
fn execute_unknown_tool() {
    let a = plan_execution(&call("unknown_tool", "{}"), "/w");
    assert!(reply(a).contains("Unknown tool: unknown_tool"));
}

#[test]
fn execute_handles_invalid_json_arguments() {
    let a = plan_execution(&call("read_file", "not json"), "/w");
    assert!(reply(a).contains("Error parsing arguments"));
}

#[test]
fn execute_treats_non_object_arguments_as_empty() {
    let a = plan_execution(&call("bash", "[1,2]"), "/w");
    assert_eq!(reply(a), "Error: missing 'command' parameter");
}

#[test]
fn execute_reads_numeric_max_results() {
    let a = plan_execution(&call("web_search", r#"{"query":"rust","max_results":50}"#), "/w");
    assert!(matches!(a, ToolAction::WebSearch { ref query, max_results: 10 } if query == "rust"));
    let a = plan_execution(&call("web_search", r#"{"query":"rust","max_results":0}"#), "/w");
    assert!(matches!(a, ToolAction::WebSearch { max_results: 1, .. }));
    let a = plan_execution(&call("web_search", r#"{"query":"rust","max_results":"3"}"#), "/w");
    assert!(matches!(a, ToolAction::WebSearch { max_results: 5, .. }));
}

#[test]
fn read_file_missing_path_param() {
    let a = plan_tool_call("read_file", &args(&[]), "/w");
    assert!(reply(a).contains("missing 'path'"));
}

#[test]
fn edit_file_missing_path() {
    let a = plan_tool_call("edit_file", &args(&[("old_string", "a"), ("new_string", "b")]), "/w");
    assert!(reply(a).contains("missing 'path'"));
}

#[test]
fn edit_file_plans_replacement() {
    let a = plan_tool_call(
        "edit_file",
        &args(&[("path", "f.txt"), ("old_string", "a"), ("new_string", "b")]),
        "/w",
    );
    assert!(matches!(
        a,
        ToolAction::EditFile { ref path, ref old, ref new } if path == "/w/f.txt" && old == "a" && new == "b"
    ));
}

#[test]
fn grep_missing_pattern() {
    let a = plan_tool_call("grep", &args(&[]), "/w");
    assert!(reply(a).contains("missing 'pattern'"));
}

#[test]
fn grep_with_glob_filter() {
    let a = plan_tool_call("grep", &args(&[("pattern", "target"), ("glob", "*.rs")]), "/w");
    match a {
        ToolAction::Grep { args } => {
            assert_eq!(args, vec!["-n", "-i", "--no-heading", "-g", "*.rs", "--", "target", "/w"]);
        }
        other => panic!("expected grep, got {other:?}"),
    }
}

#[test]
fn grep_in_subdirectory() {
    let a = plan_tool_call("grep", &args(&[("pattern", "search_target"), ("path", "src")]), "/w");
    match a {
        ToolAction::Grep { args } => {
            assert_eq!(args, vec!["-n", "-i", "--no-heading", "--", "search_target", "/w/src"]);
        }
        other => panic!("expected grep, got {other:?}"),
    }
}

#[test]
fn bash_missing_command() {
    let a = plan_tool_call("bash", &args(&[]), "/w");
    assert!(reply(a).contains("missing 'command'"));
}

#[test]
fn web_search_missing_query() {
    let a = plan_tool_call("web_search", &args(&[]), "/w");
    assert!(reply(a).contains("missing 'query'"));
}

#[test]
fn web_search_empty_query() {
    let a = plan_tool_call("web_search", &args(&[("query", "   ")]), "/w");
    assert!(reply(a).contains("missing 'query'"));
}

#[test]
fn args_lookup_takes_first_matching_key() {
    let a = ToolArgs {
        entries: vec![
            ArgEntry { key: "n".into(), value: ArgValue::Count(3) },
            ArgEntry { key: "n".into(), value: ArgValue::Count(4) },
            ArgEntry { key: "s".into(), value: ArgValue::Other },
        ],
    };
    assert_eq!(a.count("n"), Some(3));
    assert_eq!(a.text("n"), None);
    assert_eq!(a.text("s"), None);
    assert_eq!(a.count("missing"), None);
}

// ── read_file ──

#[test]
fn read_file_returns_numbered_lines() {
    let result = read_file_output("line one\nline two\nline three");
    assert!(result.contains("   1\tline one"));
    assert!(result.contains("   2\tline two"));
    assert!(result.contains("   3\tline three"));
}

#[test]
fn read_file_handles_empty_file() {
    let result = read_file_output("");
    assert!(result.is_empty() || result.trim().is_empty());
}

#[test]
fn read_file_handles_unicode() {
    let result = read_file_output("日本語テスト\némojis 🎉");
    assert!(result.contains("日本語テスト"));
    assert!(result.contains("🎉"));
}

#[test]
fn read_file_truncates_large_content() {
    let big = "x".repeat(200_000);
    let result = read_file_output(&big);
    assert!(result.contains("[truncated at 100KB]"));
    assert!(result.len() < 110_000);
    assert_eq!(result.len(), 100_000 + "\n... [truncated at 100KB]".len());
}

#[test]
fn number_lines_exact() {
    assert_eq!(number_lines("a\r\nb\n\nc\n"), "   1\ta\n   2\tb\n   3\t\n   4\tc\n");
    let many: String = (0..10_001).map(|_| "x\n").collect();
    assert!(number_lines(&many).ends_with("10001\tx\n"));
}

#[test]
fn read_file_error_on_missing_file() {
    let result = io_error_message("reading", "/w/nonexistent.txt", "No such file or directory");
    assert!(result.starts_with("Error reading"));
    assert_eq!(result, "Error reading /w/nonexistent.txt: No such file or directory");
}

// ── list_dir ──

#[test]
fn list_dir_shows_files_and_dirs() {
    let result = listing(&vec![dir("file.txt", false), dir("subdir", true)]);
    assert!(result.contains("file.txt"));
    assert!(result.contains("subdir/"));
}

#[test]
fn list_dir_skips_hidden_files() {
    let result = listing(&vec![dir(".hidden", false), dir("visible.txt", false)]);
    assert!(!result.contains(".hidden"));
    assert!(result.contains("visible.txt"));
}

#[test]
fn list_dir_sorted_output() {
    let result =
        listing(&vec![dir("zebra.txt", false), dir("alpha.txt", false), dir("middle.txt", false)]);
    let lines: Vec<&str> = result.lines().collect();
    assert_eq!(lines, vec!["alpha.txt", "middle.txt", "zebra.txt"]);
}

#[test]
fn list_dir_empty_directory() {
    assert!(listing(&vec![]).is_empty());
}

#[test]
fn list_dir_sorts_bytewise_after_suffix() {
    let result = listing(&vec![dir("b", false), dir("a", true), dir("B", false), dir("a.txt", false)]);
    assert_eq!(result, "B\na.txt\na/\nb");
}

// ── edit_file ──

#[test]
fn edit_file_creates_new_file() {
    assert_eq!(created_message("/w/new.txt"), "Created /w/new.txt");
}

#[test]
fn edit_file_replaces_exact_match() {
    let r = apply_edit("foo bar baz", "bar", "qux", "/w/test.txt").unwrap();
    assert_eq!(r, "foo qux baz");
}

#[test]
fn edit_file_replaces_multiline_match() {
    let r = apply_edit("line1\nline2\nline3", "line1\nline2", "replaced", "/w/test.txt").unwrap();
    assert_eq!(r, "replaced\nline3");
}

#[test]
fn edit_file_errors_when_not_found() {
    let e = apply_edit("hello world", "nonexistent string", "x", "/w/test.txt").unwrap_err();
    assert!(e.contains("not found"));
    assert_eq!(e, "Error: old_string not found in /w/test.txt. Make sure it matches exactly.");
}

#[test]
fn edit_file_errors_on_multiple_matches() {
    let e = apply_edit("aaa bbb aaa", "aaa", "ccc", "/w/test.txt").unwrap_err();
    assert!(e.contains("found 2 times"));
    assert_eq!(
        e,
        "Error: old_string found 2 times in /w/test.txt. Provide more context for a unique match."
    );
}

#[test]
fn edit_file_counts_overlapping_matches_apart() {
    let e = apply_edit("aaaa", "aa", "b", "p").unwrap_err();
    assert!(e.contains("found 2 times"));
}

#[test]
fn edit_file_reports_bytes_written() {
    let r = edited_message("/w/test.txt", "new content here");
    assert!(r.contains("bytes written"));
    assert_eq!(r, "Edited /w/test.txt (16 bytes written)");
    assert_eq!(edited_message("p", "é"), "Edited p (2 bytes written)");
}

// ── grep and bash ──

#[test]
fn grep_no_matches() {
    assert_eq!(grep_output(""), "No matches found.");
}

#[test]
fn grep_finds_matching_lines() {
    assert_eq!(grep_output("a.rs:1:fn main() {}\n"), "a.rs:1:fn main() {}\n");
}

#[test]
fn grep_truncates_long_output() {
    let out = "y".repeat(60_000);
    let r = grep_output(&out);
    assert_eq!(r.len(), 50_000 + "\n... [truncated]".len());
    assert!(r.ends_with("\n... [truncated]"));
}

#[test]
fn bash_captures_stdout_and_stderr() {
    let r = bash_output("out\n", "err\n", Some(0));
    assert!(r.contains("out"));
    assert!(r.contains("[stderr] err"));
    assert_eq!(r, "out\n\n[stderr] err\n");
}

#[test]
fn bash_reports_nonzero_exit_code() {
    let r = bash_output("", "", Some(42));
    assert!(r.contains("[exit code: 42]"));
    assert_eq!(r, "\n[exit code: 42]");
    assert_eq!(bash_output("x", "", None), "x\n[exit code: -1]");
}

#[test]
fn bash_no_output_returns_placeholder() {
    assert_eq!(bash_output("", "", Some(0)), "(no output)");
}

#[test]
fn bash_stderr_only() {
    assert_eq!(bash_output("", "oops", Some(0)), "[stderr] oops");
}

// ── web_search ──

#[test]
fn format_tavily_includes_summary() {
    let data = SearchData {
        answer: Some("Rust is a systems programming language.".into()),
        results: Some(vec![]),
    };
    assert!(format_tavily_results(&data).contains("Summary: Rust is a systems"));
}

#[test]
fn format_tavily_lists_results() {
    let data = SearchData {
        answer: Some("".into()),
        results: Some(vec![
            result(
                Some("Rust Book"),
                Some("https://doc.rust-lang.org/book/"),
                Some("The Rust Programming Language."),
            ),
            result(
                Some("Async Book"),
                Some("https://rust-lang.github.io/async-book/"),
                Some("Async Rust guide."),
            ),
        ]),
    };
    let out = format_tavily_results(&data);
    assert!(out.contains("[1] Rust Book"));
    assert!(out.contains("https://doc.rust-lang.org/book/"));
    assert!(out.contains("[2] Async Book"));
    assert!(!out.contains("Summary:"));
    assert_eq!(
        out,
        "[1] Rust Book\n    https://doc.rust-lang.org/book/\n    The Rust Programming Language.\n\n\
         [2] Async Book\n    https://rust-lang.github.io/async-book/\n    Async Rust guide.\n\n"
    );
}

#[test]
fn format_tavily_empty_returns_no_results() {
    let data = SearchData { answer: Some("".into()), results: Some(vec![]) };
    assert_eq!(format_tavily_results(&data), "No results.");
}

#[test]
fn format_tavily_handles_missing_fields() {
    let data = SearchData {
        answer: None,
        results: Some(vec![result(None, Some("https://example.com"), None)]),
    };
    let out = format_tavily_results(&data);
    assert!(out.contains("(no title)"));
    assert!(out.contains("https://example.com"));
}

#[test]
fn format_tavily_truncates_large_output() {
    let big = "x".repeat(60_000);
    let data = SearchData {
        answer: Some("".into()),
        results: Some(vec![result(Some("t"), Some("u"), Some(&big))]),
    };
    let out = format_tavily_results(&data);
    assert!(out.len() <= 50_100);
    assert!(out.ends_with("[truncated]"));
}
