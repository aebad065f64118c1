use strap_in::spinner::{spinner_line, Style, ToolProgress};

#[test]
fn braille_has_10_frames() {
    assert_eq!(Style::Braille.frames().len(), 10);
}

#[test]
fn dots_has_7_frames() {
    assert_eq!(Style::Dots.frames().len(), 7);
}

#[test]
fn bounce_has_8_frames() {
    assert_eq!(Style::Bounce.frames().len(), 8);
}

#[test]
fn intervals_are_reasonable() {
    assert!(Style::Braille.interval_ms() > 0 && Style::Braille.interval_ms() < 200);
    assert!(Style::Dots.interval_ms() > 0 && Style::Dots.interval_ms() < 500);
    assert!(Style::Bounce.interval_ms() > 0 && Style::Bounce.interval_ms() < 200);
}

#[test]
fn intervals_exact() {
    assert_eq!(Style::Braille.interval_ms(), 80);
    assert_eq!(Style::Dots.interval_ms(), 300);
    assert_eq!(Style::Bounce.interval_ms(), 120);
}

#[test]
fn frames_exact() {
    assert_eq!(Style::Braille.frames()[0], "⠋");
    assert_eq!(Style::Braille.frames()[9], "⠏");
    assert_eq!(Style::Dots.frames()[3], "...");
    assert_eq!(Style::Bounce.frames()[4], "∙∙∙∙●");
}

#[test]
fn spinner_line_cycles_through_frames() {
    assert_eq!(spinner_line(Style::Braille, 0, "testing"), "\r\x1b[90m  ⠋ testing\x1b[0m\x1b[K");
    assert_eq!(spinner_line(Style::Braille, 11, "x"), "\r\x1b[90m  ⠙ x\x1b[0m\x1b[K");
    assert_eq!(spinner_line(Style::Dots, 7, "y"), "\r\x1b[90m      y\x1b[0m\x1b[K");
}

#[test]
fn tool_progress_tracks_completion() {
    let mut prog = ToolProgress::new(3);
    prog.tick();
    assert_eq!(prog.completed(), 1);
    prog.tick();
    assert_eq!(prog.completed(), 2);
    prog.tick();
    assert_eq!(prog.completed(), 3);
}

#[test]
fn tool_progress_single_tool() {
    let mut prog = ToolProgress::new(1);
    let bar = prog.tick();
    assert_eq!(prog.completed(), 1);
    assert_eq!(bar, "█".repeat(20));
}

#[test]
fn tool_progress_bar_fills_in_proportion() {
    let mut prog = ToolProgress::new(3);
    let bar = prog.tick();
    assert_eq!(bar, format!("{}{}", "█".repeat(6), "░".repeat(14)));
    let bar = prog.tick();
    assert_eq!(bar, format!("{}{}", "█".repeat(13), "░".repeat(7)));
    assert_eq!(prog.total(), 3);
}
