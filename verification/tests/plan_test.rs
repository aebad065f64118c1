use strap_in::plan::{
    history_entry_at, history_text, parse_plan, split_numbered_line, PlanBoard, PlanEvent,
    PlanTask, TaskStatus, TASKS_HEADER,
};

/// A clock reading, in milliseconds since the epoch, for the board tests.
const CLOCK: i64 = 1_713_360_000_000;

fn texts(items: &[&str]) -> Vec<String> {
    items.iter().map(|s| s.to_string()).collect()
}

/// The history file after appending what `history_text` gives to `existing`.
fn history_file(board: &PlanBoard, request: &str, existing: Option<&str>) -> Option<String> {
    let tasks = board.snapshot();
    let added = history_text(&tasks, "2024-04-17 13:20:00 UTC", request, existing.is_some())?;
    Some(format!("{}{}", existing.unwrap_or(""), added))
}

// ── parse_plan ──

#[test]
fn parse_plan_dot_format() {
    let text = "Here is my plan:\n1. Read the file\n2. Edit the code\n3. Run tests";
    let steps = parse_plan(text).unwrap();
    assert_eq!(steps, vec!["Read the file", "Edit the code", "Run tests"]);
}

#[test]
fn parse_plan_paren_format() {
    let text = "1) First step\n2) Second step";
    let steps = parse_plan(text).unwrap();
    assert_eq!(steps, vec!["First step", "Second step"]);
}

#[test]
fn parse_plan_colon_format() {
    let text = "1: Alpha\n2: Beta\n3: Gamma";
    let steps = parse_plan(text).unwrap();
    assert_eq!(steps, vec!["Alpha", "Beta", "Gamma"]);
}

#[test]
fn parse_plan_ignores_preamble() {
    let text = "I'll work through this step by step:\n\n1. Explore the codebase\n2. Write tests\n3. Implement feature\n\nLet's begin.";
    let steps = parse_plan(text).unwrap();
    assert_eq!(steps.len(), 3);
    assert_eq!(steps[0], "Explore the codebase");
}

#[test]
fn parse_plan_returns_none_for_single_step() {
    assert!(parse_plan("1. Only one step").is_none());
}

#[test]
fn parse_plan_returns_none_for_no_steps() {
    assert!(parse_plan("Just some regular text without any numbered list.").is_none());
}

#[test]
fn parse_plan_skips_non_consecutive() {
    assert!(parse_plan("1. First\n3. Third\n5. Fifth").is_none());
}

#[test]
fn parse_plan_handles_indented_lines() {
    let steps = parse_plan("  1. Step one\n  2. Step two").unwrap();
    assert_eq!(steps, vec!["Step one", "Step two"]);
}

#[test]
fn parse_plan_with_bold_markdown() {
    let text =
        "1. **RED** Write a failing test\n2. **GREEN** Make it pass\n3. **REFACTOR** Clean up";
    let steps = parse_plan(text).unwrap();
    assert_eq!(steps[0], "**RED** Write a failing test");
}

#[test]
fn parse_plan_stops_at_first_gap_in_numbering() {
    let steps = parse_plan("1. a\n2. b\n4. d\n3. c").unwrap();
    assert_eq!(steps, vec!["a", "b", "c"]);
}

#[test]
fn parse_plan_must_start_at_one() {
    assert!(parse_plan("2. a\n3. b").is_none());
}

#[test]
fn parse_plan_handles_crlf_lines() {
    let steps = parse_plan("1. a\r\n2. b\r\n").unwrap();
    assert_eq!(steps, vec!["a", "b"]);
}

// ── split_numbered_line ──

#[test]
fn split_numbered_line_basic() {
    let (num, rest) = split_numbered_line("1. Hello").unwrap();
    assert_eq!(num, "1");
    assert_eq!(rest, "Hello");
}

#[test]
fn split_numbered_line_multi_digit() {
    let (num, rest) = split_numbered_line("12. Twelfth step").unwrap();
    assert_eq!(num, "12");
    assert_eq!(rest, "Twelfth step");
}

#[test]
fn split_numbered_line_no_separator() {
    assert!(split_numbered_line("1 Hello").is_none());
}

#[test]
fn split_numbered_line_no_text_after() {
    assert!(split_numbered_line("1.").is_none());
}

#[test]
fn split_numbered_line_empty() {
    assert!(split_numbered_line("").is_none());
}

#[test]
fn split_numbered_line_no_digits() {
    assert!(split_numbered_line("abc. def").is_none());
}

#[test]
fn split_numbered_line_spaces_after_separator_are_optional() {
    assert_eq!(split_numbered_line("1.Hello"), Some(("1", "Hello")));
    let (num, rest) = split_numbered_line("3)   spaced out").unwrap();
    assert_eq!(num, "3");
    assert_eq!(rest, "spaced out");
}

// ── PlanBoard ──

#[test]
fn board_starts_empty() {
    let board = PlanBoard::new();
    assert!(board.snapshot().is_empty());
}

#[test]
fn board_set_plan_creates_tasks() {
    let mut board = PlanBoard::new();
    board.set_plan(texts(&["Step A", "Step B"]));
    let tasks = board.snapshot();
    assert_eq!(tasks.len(), 2);
    assert_eq!(tasks[0].text, "Step A");
    assert_eq!(tasks[0].status, TaskStatus::Planned);
    assert_eq!(tasks[1].text, "Step B");
}

#[test]
fn board_advance_moves_first_to_in_progress() {
    let mut board = PlanBoard::new();
    board.set_plan(texts(&["A", "B", "C"]));
    board.advance(CLOCK);
    let tasks = board.snapshot();
    assert_eq!(tasks[0].status, TaskStatus::InProgress);
    assert_eq!(tasks[1].status, TaskStatus::Planned);
    assert_eq!(tasks[2].status, TaskStatus::Planned);
}

#[test]
fn board_advance_twice_completes_first_starts_second() {
    let mut board = PlanBoard::new();
    board.set_plan(texts(&["A", "B", "C"]));
    board.advance(CLOCK);
    board.advance(CLOCK);
    let tasks = board.snapshot();
    assert_eq!(tasks[0].status, TaskStatus::Done);
    assert_eq!(tasks[1].status, TaskStatus::InProgress);
    assert_eq!(tasks[2].status, TaskStatus::Planned);
}

#[test]
fn board_complete_current_marks_done() {
    let mut board = PlanBoard::new();
    board.set_plan(texts(&["A", "B"]));
    board.advance(CLOCK);
    board.complete_current(CLOCK + 500);
    let tasks = board.snapshot();
    assert_eq!(tasks[0].status, TaskStatus::Done);
    assert_eq!(tasks[1].status, TaskStatus::Planned);
}

#[test]
fn board_update_activity_sets_text() {
    let mut board = PlanBoard::new();
    board.set_plan(texts(&["A"]));
    board.advance(CLOCK);
    board.update_activity("reading src/main.rs");
    let tasks = board.snapshot();
    assert_eq!(tasks[0].activity.as_deref(), Some("reading src/main.rs"));
}

#[test]
fn board_update_activity_without_current_step_is_ignored() {
    let mut board = PlanBoard::new();
    board.set_plan(texts(&["A"]));
    assert!(board.update_activity("idle").is_none());
    assert!(board.snapshot()[0].activity.is_none());
}

#[test]
fn board_advance_past_end_is_noop() {
    let mut board = PlanBoard::new();
    board.set_plan(texts(&["A"]));
    board.advance(CLOCK);
    board.advance(CLOCK);
    let tasks = board.snapshot();
    assert_eq!(tasks[0].status, TaskStatus::Done);
}

#[test]
fn board_reset_clears_everything() {
    let mut board = PlanBoard::new();
    board.set_plan(texts(&["A", "B"]));
    board.advance(CLOCK);
    board.reset();
    assert!(board.snapshot().is_empty());
}

#[test]
fn board_broadcast_sends_events() {
    let mut board = PlanBoard::new();
    let event = board.set_plan(texts(&["X", "Y"]));
    assert!(matches!(event, PlanEvent::PlanCreated { tasks } if tasks.len() == 2));
}

#[test]
fn board_advance_broadcasts_two_events() {
    let mut board = PlanBoard::new();
    board.set_plan(texts(&["A", "B"]));
    let events = board.advance(CLOCK);
    assert!(matches!(
        events[0],
        PlanEvent::TaskUpdate { id: 0, status: TaskStatus::InProgress, .. }
    ));
    let events = board.advance(CLOCK);
    assert_eq!(events.len(), 2);
    assert!(matches!(events[0], PlanEvent::TaskUpdate { id: 0, status: TaskStatus::Done, .. }));
    assert!(matches!(
        events[1],
        PlanEvent::TaskUpdate { id: 1, status: TaskStatus::InProgress, .. }
    ));
}

#[test]
fn board_advance_records_the_given_time() {
    let mut board = PlanBoard::new();
    board.set_plan(texts(&["A", "B"]));
    board.advance(1000);
    board.advance(4500);
    let tasks = board.snapshot();
    assert_eq!(tasks[0].started_at, Some(1000));
    assert_eq!(tasks[0].completed_at, Some(4500));
    assert_eq!(tasks[1].started_at, Some(4500));
    assert_eq!(tasks[1].completed_at, None);
}

#[test]
fn board_finishing_a_step_clears_its_activity() {
    let mut board = PlanBoard::new();
    board.set_plan(texts(&["A", "B"]));
    board.advance(1);
    board.update_activity("busy");
    board.complete_current(2);
    let tasks = board.snapshot();
    assert!(tasks[0].activity.is_none());
    assert_eq!(tasks[0].completed_at, Some(2));
}

#[test]
fn board_finishing_a_step_leaves_no_current_step() {
    let mut board = PlanBoard::new();
    board.set_plan(texts(&["A", "B"]));
    board.advance(1);
    board.complete_current(2);
    assert!(board.complete_current(3).is_none());
    assert_eq!(board.snapshot()[0].completed_at, Some(2));
    assert!(board.update_activity("late").is_none());
    assert!(board.snapshot()[0].activity.is_none());
    let events = board.advance(4);
    assert_eq!(events.len(), 1);
    assert!(matches!(events[0], PlanEvent::TaskUpdate { id: 1, status: TaskStatus::InProgress, .. }));
    let tasks = board.snapshot();
    assert_eq!(tasks[0].completed_at, Some(2));
    assert_eq!(tasks[1].status, TaskStatus::InProgress);
}

// ── History ──

#[test]
fn write_history_creates_file_with_header_when_missing() {
    let mut board = PlanBoard::new();
    board.set_plan(texts(&["First", "Second"]));
    board.advance(CLOCK);
    board.advance(CLOCK);
    board.complete_current(CLOCK + 500);
    let content = history_file(&board, "Make a thing", None).unwrap();
    assert!(content.starts_with("# Tasks"));
    assert!(content.contains("strap-in automatically appends"));
    assert!(content.contains("**Request:** Make a thing"));
    assert!(content.contains("- [x] First"));
    assert!(content.contains("- [x] Second"));
    assert!(content.contains("2/2 complete"));
}

#[test]
fn write_history_appends_to_existing_file() {
    let mut board = PlanBoard::new();
    board.set_plan(texts(&["Added", "Later"]));
    board.advance(CLOCK);
    board.advance(CLOCK);
    board.complete_current(CLOCK + 500);
    let content =
        history_file(&board, "New request", Some("# Tasks\n\nExisting stuff\n")).unwrap();
    assert!(content.contains("Existing stuff"));
    assert!(content.contains("**Request:** New request"));
    assert!(content.contains("- [x] Added"));
    assert_eq!(content.matches("# Tasks\n").count(), 1);
}

#[test]
fn write_history_skips_only_when_board_is_empty() {
    let board = PlanBoard::new();
    assert!(history_file(&board, "Nothing happened", None).is_none());
}

#[test]
fn write_history_includes_planned_tasks() {
    let mut board = PlanBoard::new();
    board.set_plan(texts(&["Planned A", "Planned B"]));
    let content = history_file(&board, "Planning only", None).unwrap();
    assert!(content.contains("**Request:** Planning only"));
    assert!(content.contains("- [ ] Planned A"));
    assert!(content.contains("- [ ] Planned B"));
    assert!(content.contains("0/2 complete"));
    assert!(!content.contains("- [x]"));
}

#[test]
fn write_history_mixes_done_and_planned() {
    let mut board = PlanBoard::new();
    board.set_plan(texts(&["First", "Second", "Third"]));
    board.advance(CLOCK);
    board.complete_current(CLOCK + 500);
    let content = history_file(&board, "Partial work", None).unwrap();
    assert!(content.contains("- [x] First"));
    assert!(content.contains("- [ ] Second"));
    assert!(content.contains("- [ ] Third"));
    assert!(content.contains("1/3 complete"));
}

#[test]
fn write_history_marks_in_progress_with_note() {
    let mut board = PlanBoard::new();
    board.set_plan(texts(&["Running", "Queued"]));
    board.advance(CLOCK);
    let content = history_file(&board, "Mid-flight", None).unwrap();
    assert!(content.contains("- [ ] Running _(in progress)_"));
    assert!(content.contains("- [ ] Queued\n"));
    assert!(content.contains("0/2 complete"));
}

#[test]
fn write_history_preserves_task_order() {
    let mut board = PlanBoard::new();
    board.set_plan(texts(&["Alpha", "Bravo", "Charlie"]));
    let content = history_file(&board, "Ordering test", None).unwrap();
    let a = content.find("Alpha").unwrap();
    let b = content.find("Bravo").unwrap();
    let c = content.find("Charlie").unwrap();
    assert!(a < b && b < c, "tasks should appear in plan order");
}

#[test]
fn write_history_flattens_multiline_request() {
    let mut board = PlanBoard::new();
    board.set_plan(texts(&["Step"]));
    board.advance(CLOCK);
    board.complete_current(CLOCK + 500);
    let content = history_file(&board, "Line one\nLine two\nLine three", None).unwrap();
    assert!(content.contains("**Request:** Line one Line two Line three"));
}

#[test]
fn write_history_contains_utc_timestamp_format() {
    let mut board = PlanBoard::new();
    board.set_plan(texts(&["x"]));
    board.advance(CLOCK);
    board.complete_current(CLOCK + 500);
    let content = history_file(&board, "r", None).unwrap();
    assert!(content.contains("\n## 2024-04-17 13:20:00 UTC — 1/1 complete\n"));
    let re = content
        .lines()
        .any(|l| l.starts_with("## ") && l.contains(" UTC") && l.contains("1/1 complete"));
    assert!(re, "expected a ## <timestamp> UTC — N/M complete heading, got:\n{content}");
}

#[test]
fn history_entry_exact_text() {
    let tasks = vec![
        PlanTask {
            id: 0,
            text: "Slow".into(),
            status: TaskStatus::Done,
            activity: None,
            started_at: Some(0),
            completed_at: Some(125_900),
        },
        PlanTask {
            id: 1,
            text: "Quick".into(),
            status: TaskStatus::Done,
            activity: None,
            started_at: Some(1_000),
            completed_at: Some(8_999),
        },
        PlanTask {
            id: 2,
            text: "Now".into(),
            status: TaskStatus::InProgress,
            activity: Some("x".into()),
            started_at: Some(9_000),
            completed_at: None,
        },
    ];
    let entry = history_entry_at(&tasks, "2024-01-02 03:04:05 UTC", "  fix\nit  ");
    assert_eq!(
        entry,
        "\n## 2024-01-02 03:04:05 UTC — 2/3 complete\n\n**Request:** fix it\n\n\
         - [x] Slow _2m5s_\n- [x] Quick _7s_\n- [ ] Now _(in progress)_\n\n---\n"
    );
}

#[test]
fn history_header_starts_new_file() {
    let mut board = PlanBoard::new();
    board.set_plan(texts(&["a"]));
    let content = history_file(&board, "q", None).unwrap();
    assert!(content.starts_with(TASKS_HEADER));
    let appended = history_file(&board, "q", Some("")).unwrap();
    assert!(appended.starts_with("\n## "));
}

#[test]
fn advance_sets_started_at_timestamp() {
    let mut board = PlanBoard::new();
    board.set_plan(texts(&["A", "B"]));
    board.advance(CLOCK);
    let tasks = board.snapshot();
    assert!(tasks[0].started_at.is_some(), "in-progress task should have started_at");
    assert!(tasks[0].completed_at.is_none());
    assert!(tasks[1].started_at.is_none());
}

#[test]
fn advance_sets_completed_at_on_done() {
    let mut board = PlanBoard::new();
    board.set_plan(texts(&["A", "B"]));
    board.advance(CLOCK);
    board.advance(CLOCK + 1_000);
    let tasks = board.snapshot();
    assert!(tasks[0].started_at.is_some());
    assert!(tasks[0].completed_at.is_some());
    assert!(
        tasks[0].completed_at.unwrap() >= tasks[0].started_at.unwrap(),
        "completed_at should be >= started_at"
    );
    assert!(tasks[1].started_at.is_some());
    assert!(tasks[1].completed_at.is_none());
}

#[test]
fn complete_current_sets_completed_at() {
    let mut board = PlanBoard::new();
    board.set_plan(texts(&["A"]));
    board.advance(CLOCK);
    board.complete_current(CLOCK + 500);
    let tasks = board.snapshot();
    assert!(tasks[0].completed_at.is_some());
}

#[test]
fn update_usage_accumulates() {
    let mut board = PlanBoard::new();
    board.update_usage(100, 50);
    board.update_usage(200, 75);
    let (prompt, completion) = board.usage();
    assert_eq!(prompt, 300);
    assert_eq!(completion, 125);
}

#[test]
fn usage_broadcasts_event() {
    let mut board = PlanBoard::new();
    let event = board.update_usage(100, 50);
    assert!(matches!(
        event,
        PlanEvent::UsageUpdate { prompt_tokens: 100, completion_tokens: 50 }
    ));
}

#[test]
fn usage_event_reports_totals() {
    let mut board = PlanBoard::new();
    board.update_usage(100, 50);
    let event = board.update_usage(1, 2);
    assert!(matches!(
        event,
        PlanEvent::UsageUpdate { prompt_tokens: 101, completion_tokens: 52 }
    ));
}

#[test]
fn reset_preserves_usage() {
    let mut board = PlanBoard::new();
    board.update_usage(500, 200);
    board.reset();
    let (prompt, completion) = board.usage();
    assert_eq!(prompt, 500);
    assert_eq!(completion, 200);
}
