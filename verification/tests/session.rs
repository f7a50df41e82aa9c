use sfctl_ai::pwsh::{
    clean_output, collect_output, finish_output, is_sentinel_line, marker_text, prepare_command,
    strip_comments, wrap_command, ShellResult,
};

const MARKER: &str = "___COMMAND_END___";

#[test]
fn prepared_command_exact_frame() {
    let framed = prepare_command("Get-Process");
    assert_eq!(
        framed,
        "Invoke-Command -ScriptBlock { try { Get-Process } catch { Write-Output $_.Exception.Message } }; Write-Output '___COMMAND_END___'\n"
    );
}

#[test]
fn comment_lines_are_stripped() {
    assert_eq!(strip_comments("Get-One\n# a comment\nGet-Two"), "Get-One\nGet-Two");
    assert_eq!(strip_comments("   # indented comment\nGet-It"), "Get-It");
    assert_eq!(strip_comments("# only a comment"), "");
    assert_eq!(strip_comments("Get-One\r\nGet-Two\r\n"), "Get-One\nGet-Two");
    assert_eq!(strip_comments("Get-It # trailing text stays"), "Get-It # trailing text stays");
}

#[test]
fn sentinel_requires_full_line_match() {
    assert!(is_sentinel_line(MARKER));
    assert!(is_sentinel_line("___COMMAND_END___\n"));
    assert!(is_sentinel_line("___COMMAND_END___ \r\n"));
    // The sentinel as a substring of a longer line must not end collection.
    assert!(!is_sentinel_line("prefix ___COMMAND_END___"));
    assert!(!is_sentinel_line("___COMMAND_END___ suffix"));
    assert!(!is_sentinel_line("echo '___COMMAND_END___'"));
    assert!(!is_sentinel_line(""));
}

#[test]
fn collection_stops_at_sentinel_line() {
    let lines = vec![
        String::from("a\n"),
        String::from("b\n"),
        String::from("___COMMAND_END___\n"),
        String::from("never read\n"),
    ];
    let (collected, saw) = collect_output(&lines);
    assert!(saw);
    assert_eq!(collected, "a\nb\n");
}

#[test]
fn collection_keeps_lines_containing_sentinel_text() {
    let lines = vec![
        String::from("around ___COMMAND_END___ here\n"),
        String::from("___COMMAND_END___\n"),
    ];
    let (collected, saw) = collect_output(&lines);
    assert!(saw);
    assert_eq!(collected, "around ___COMMAND_END___ here\n");
}

#[test]
fn collection_without_sentinel_reports_truncation() {
    let lines = vec![String::from("partial\n")];
    let (collected, saw) = collect_output(&lines);
    assert!(!saw);
    assert_eq!(collected, "partial\n");
    match finish_output(&collected, &wrap_command("x"), saw) {
        ShellResult::Truncated(s) => assert_eq!(s, "partial"),
        ShellResult::Complete(_) => panic!("expected a truncated result"),
    }
}

#[test]
fn round_trip_removes_echo_and_sentinel() {
    let wrapped = prepare_command("emit literal text X");
    let mut echoed = wrapped.trim_end().to_string();
    echoed.push('\n');
    let lines = vec![echoed, String::from("X\n"), format!("{}\n", marker_text())];
    let (collected, saw) = collect_output(&lines);
    assert!(saw);
    match finish_output(&collected, &wrapped, saw) {
        ShellResult::Complete(s) => assert_eq!(s, "X"),
        ShellResult::Truncated(_) => panic!("expected a complete result"),
    }
}

#[test]
fn clean_output_without_echo_just_trims() {
    let wrapped = wrap_command("Get-Process");
    assert_eq!(clean_output("  plain output \n", &wrapped), "plain output");
}
