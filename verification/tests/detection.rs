use claude_tmux::detection::{
    detect_static_status, detect_status, has_input_field, is_working_screen,
};
use claude_tmux::session::ClaudeCodeStatus;

#[test]
fn test_working() {
    // Border directly above prompt
    let content = "* (ctrl+c to interrupt)\n─────\n❯ hello";
    assert_eq!(detect_status(content), ClaudeCodeStatus::Working);
}

#[test]
fn test_idle() {
    // Border directly above prompt
    let content = "● Done\n─────\n❯ hello";
    assert_eq!(detect_status(content), ClaudeCodeStatus::Idle);
}

#[test]
fn test_no_border_above_prompt() {
    // Border exists but not directly above prompt - should be unknown
    let content = "─────\nsome text\n❯ hello";
    assert_eq!(detect_status(content), ClaudeCodeStatus::Unknown);
}

#[test]
fn test_waiting_input() {
    let content = "Delete files? [y/n]";
    assert_eq!(detect_status(content), ClaudeCodeStatus::WaitingInput);
}

#[test]
fn test_unknown() {
    let content = "random stuff";
    assert_eq!(detect_status(content), ClaudeCodeStatus::Unknown);
}

// A thinking screen: no interrupt hint, only the effort suffix.
const THINKING_EFFORT: &str =
    "✶ Computing… (24s · thinking more with xhigh effort)\n─────\n❯ ";
// A generation screen with the "esc to interrupt" hint.
const WORKING_ESC: &str =
    "✻ Cogitating… (12s · ↓ 1.2k tokens · esc to interrupt)\n─────\n❯ ";

#[test]
fn test_thinking_effort_is_working() {
    assert_eq!(detect_status(THINKING_EFFORT), ClaudeCodeStatus::Working);
}

#[test]
fn test_esc_interrupt_is_working() {
    assert_eq!(detect_status(WORKING_ESC), ClaudeCodeStatus::Working);
}

#[test]
fn test_static_status_recognizes_working() {
    assert_eq!(detect_static_status(THINKING_EFFORT), ClaudeCodeStatus::Working);
    assert_eq!(detect_static_status(WORKING_ESC), ClaudeCodeStatus::Working);
}

#[test]
fn test_static_status_still_idle_when_truly_idle() {
    // A genuinely idle screen (prompt + border, no working markers).
    let idle = "● Done\n─────\n❯ ";
    assert_eq!(detect_static_status(idle), ClaudeCodeStatus::Idle);
}

#[test]
fn a_question_goes_before_everything() {
    let screen = format!("Overwrite? [Y/n]\n{}", WORKING_ESC);
    assert_eq!(detect_status(&screen), ClaudeCodeStatus::WaitingInput);
}

#[test]
fn the_static_status_is_the_status() {
    for screen in [THINKING_EFFORT, WORKING_ESC, "", "─\n❯", "❯", "[y/n]"] {
        assert_eq!(detect_static_status(screen), detect_status(screen));
    }
}

#[test]
fn working_marks() {
    assert!(is_working_screen("press x to interrupt"));
    assert!(is_working_screen("(low effort)"));
    assert!(!is_working_screen("effort"));
    assert!(!is_working_screen(""));
}

#[test]
fn input_fields() {
    assert!(has_input_field("──\n❯"));
    assert!(has_input_field("a\r\n──\r\n❯ b\r\nc"));
    assert!(!has_input_field("❯\n──"));
    assert!(!has_input_field("─❯"));
    assert!(!has_input_field("──\n\n❯"));
    assert!(!has_input_field(""));
}

#[test]
fn marks_are_seen_inside_other_text() {
    let inner = "to interrupt";
    let screen = format!("above\n{}\nbelow", inner);
    assert_eq!(detect_status(&screen), ClaudeCodeStatus::Working);
}
