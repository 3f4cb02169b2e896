//! What is shown of tool calls.
use tau::display::{
    build_delegate_progress_display, error_chip_text, error_display, shell_command_args, success_display, text_stats,
    ToolDisplayStats, ToolDisplayStatus,
};

#[test]
fn progress_display_includes_delegate_input_stats() {
    let input_stats = ToolDisplayStats { matches: None, lines: Some(2), bytes: Some(12) };
    let display = build_delegate_progress_display("audit", input_stats);

    assert_eq!(display.args, "[audit]");
    assert_eq!(display.stats, input_stats);
    assert_eq!(display.status, ToolDisplayStatus::InProgress);
}

#[test]
fn shell_command_args_middle_shortens_long_first_line() {
    assert_eq!(
        shell_command_args("printf 1234567890123456789012345678901234567890\nprintf ignored"),
        "printf 1234567890123┄12345678901234567890"
    );
}

#[test]
fn shell_command_args_keeps_short_first_line() {
    assert_eq!(shell_command_args("printf 1234567890123"), "printf 1234567890123");
}

#[test]
fn texts_are_measured() {
    assert_eq!(text_stats("αβ\nγ"), ToolDisplayStats { matches: None, lines: Some(2), bytes: Some(7) });
    assert_eq!(text_stats(""), ToolDisplayStats { matches: None, lines: None, bytes: None });
}

#[test]
fn outcomes_are_shown() {
    let good = success_display("notes");
    assert_eq!(good.args, "notes");
    assert_eq!(good.status, ToolDisplayStatus::Success);

    let bad = error_display("notes", "unknown skill: notes");
    assert_eq!(bad.args, "notes");
    assert_eq!(bad.status, ToolDisplayStatus::Error);
    assert_eq!(bad.status_text, error_chip_text("unknown skill: notes"));
}
