use sfctl_ai::ack::{approval_prompt, is_approval, proceed_question_text};
use sfctl_ai::ai::decline_message;
use sfctl_ai::text::trim_text;

#[test]
fn only_yes_and_y_approve() {
    assert!(is_approval("yes"));
    assert!(is_approval("y"));
    assert!(is_approval("YES"));
    assert!(is_approval("Y"));
    assert!(is_approval("YeS"));
    assert!(is_approval("  yes \n"));
}

#[test]
fn everything_else_declines() {
    assert!(!is_approval(""));
    assert!(!is_approval("   "));
    assert!(!is_approval("no"));
    assert!(!is_approval("yess"));
    assert!(!is_approval("ye"));
    assert!(!is_approval("y e s"));
    assert!(!is_approval("sí"));
}

#[test]
fn prompt_and_question_text() {
    assert_eq!(
        approval_prompt("Remove-Item x"),
        "You are about to run the command: Remove-Item x"
    );
    assert_eq!(proceed_question_text(), "Do you want to proceed? (yes/no)");
}

#[test]
fn decline_note_names_the_command() {
    assert_eq!(
        decline_message("Stop-Service s"),
        "User declined to run the command: Stop-Service s"
    );
}

#[test]
fn trimming_matches_rust() {
    assert_eq!(trim_text("  a b \t\n"), "a b");
    assert_eq!(trim_text(""), "");
    assert_eq!(trim_text(" \u{a0} x \u{3000}"), "x");
}
