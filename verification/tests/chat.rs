use sfctl_ai::ai::{accept_stream_event, ChatState, Role, StreamEvent, TurnError};

fn fresh() -> ChatState {
    ChatState::new("You are a careful shell assistant.")
}

#[test]
fn new_chat_holds_only_the_system_prompt() {
    let chat = fresh();
    assert_eq!(chat.transcript.len(), 1);
    assert_eq!(chat.transcript[0].role, Role::System);
    assert_eq!(chat.transcript[0].content, "You are a careful shell assistant.");
    assert!(!chat.has_pending_commands());
}

#[test]
fn empty_operator_input_is_not_accepted() {
    let mut chat = fresh();
    assert!(!chat.accept_user_input(""));
    assert_eq!(chat.transcript.len(), 1);
    assert!(chat.accept_user_input("list the nodes"));
    assert_eq!(chat.transcript.len(), 2);
    assert_eq!(chat.transcript[1].role, Role::User);
    assert_eq!(chat.transcript[1].content, "list the nodes");
}

#[test]
fn empty_turn_is_fatal_for_the_turn() {
    let mut chat = fresh();
    match chat.ingest_turn("") {
        Err(TurnError::EmptyTurn) => {}
        _ => panic!("an empty turn must be reported, not passed over"),
    }
    assert_eq!(chat.transcript.len(), 1);
    assert!(!chat.has_pending_commands());
}

#[test]
fn turn_text_splits_into_commands_and_display() {
    let mut chat = fresh();
    let turn = "```text\nRunning a check.\n```\n```tool_code\nGet-Process\n```\n```tool_code\nNew-Item foo\n```";
    let display = chat.ingest_turn(turn).expect("turn holds text");
    assert_eq!(display, "Running a check.");
    assert!(chat.has_pending_commands());

    let (code, need_ack) = chat.next_command().expect("first command queued");
    assert_eq!(code, "Get-Process");
    assert!(!need_ack, "a read-only command skips confirmation");

    let (code, need_ack) = chat.next_command().expect("second command queued");
    assert_eq!(code, "New-Item foo");
    assert!(need_ack, "a mutating command requires confirmation");

    assert!(chat.next_command().is_none());
}

#[test]
fn results_queue_is_fifo() {
    let mut chat = fresh();
    let turn = "```tool_code\nc-one\n```\n```tool_code\nc-two\n```\n```tool_code\nc-three\n```";
    chat.ingest_turn(turn).expect("turn holds commands");
    let mut i = 0;
    while let Some((code, _)) = chat.next_command() {
        i += 1;
        if i == 2 {
            chat.record_decline(code, String::from("not today"));
        } else {
            chat.record_execution(code, format!("r{}", i));
        }
    }
    assert_eq!(chat.pending_results.len(), 3);
    assert_eq!(chat.pending_results[0].0, "c-one");
    assert_eq!(chat.pending_results[0].1, "r1");
    assert_eq!(chat.pending_results[1].0, "c-two");
    assert_eq!(
        chat.pending_results[1].1,
        "User declined to run the command: c-two"
    );
    assert_eq!(chat.pending_results[2].0, "c-three");
    assert_eq!(chat.pending_results[2].1, "r3");
}

#[test]
fn decline_with_reason_queues_exactly_one_of_each() {
    let mut chat = fresh();
    chat.record_decline(String::from("New-Item foo"), String::from("too risky"));
    assert_eq!(chat.pending_results.len(), 1);
    assert_eq!(chat.pending_results[0].0, "New-Item foo");
    assert_eq!(
        chat.pending_results[0].1,
        "User declined to run the command: New-Item foo"
    );
    assert_eq!(chat.pending_user_input.len(), 1);
    assert_eq!(chat.pending_user_input[0], "too risky");
}

#[test]
fn decline_with_empty_reason_queues_no_user_input() {
    let mut chat = fresh();
    chat.record_decline(String::from("New-Item foo"), String::new());
    assert_eq!(chat.pending_results.len(), 1);
    assert_eq!(chat.pending_user_input.len(), 0);
}

#[test]
fn folding_results_reports_in_order_then_reasons() {
    let mut chat = fresh();
    chat.record_execution(String::from("Get-One"), String::from("out-one"));
    chat.record_decline(String::from("New-Two"), String::from("because"));
    chat.fold_results();
    assert_eq!(chat.pending_results.len(), 0);
    assert_eq!(chat.pending_user_input.len(), 0);
    assert_eq!(chat.transcript.len(), 4);
    assert_eq!(chat.transcript[1].role, Role::System);
    assert_eq!(
        chat.transcript[1].content,
        "Tool call: ```\nGet-One\n```\nTool response: ```\nout-one\n```"
    );
    assert_eq!(chat.transcript[2].role, Role::System);
    assert_eq!(
        chat.transcript[2].content,
        "Tool call: ```\nNew-Two\n```\nTool response: ```\nUser declined to run the command: New-Two\n```"
    );
    assert_eq!(chat.transcript[3].role, Role::User);
    assert_eq!(chat.transcript[3].content, "because");
}

#[test]
fn completion_note_is_appended_verbatim() {
    let mut chat = fresh();
    chat.append_completion_note();
    assert_eq!(chat.transcript.len(), 2);
    assert_eq!(chat.transcript[1].role, Role::System);
    assert_eq!(
        chat.transcript[1].content,
        "All commands executed. Please give the final response if any."
    );
}

#[test]
fn stream_events_fold_into_turn_text() {
    let mut buf = String::new();
    assert!(accept_stream_event(&mut buf, &StreamEvent::Start).is_ok());
    assert!(accept_stream_event(&mut buf, &StreamEvent::Chunk(String::from("Hello "))).is_ok());
    assert!(
        accept_stream_event(&mut buf, &StreamEvent::ReasoningChunk(String::from("hmm"))).is_ok()
    );
    assert!(accept_stream_event(&mut buf, &StreamEvent::Chunk(String::from("world"))).is_ok());
    assert!(accept_stream_event(&mut buf, &StreamEvent::End).is_ok());
    assert_eq!(buf, "Hello world");
}

#[test]
fn tool_call_chunk_is_a_protocol_violation() {
    let mut buf = String::from("so far");
    match accept_stream_event(&mut buf, &StreamEvent::ToolCallChunk) {
        Err(TurnError::ToolCallUnsupported) => {}
        _ => panic!("a structured tool call must fail the turn"),
    }
    assert_eq!(buf, "so far");
}
