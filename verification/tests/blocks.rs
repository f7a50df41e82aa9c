use sfctl_ai::model::{extract_blocks, extract_code_blocks, extract_json_blocks, extract_text_blocks};

#[test]
fn test_extract_code_blocks() {
    let mycode = r#"
        ```text
        This is a text block.
        ```


        ```tool_code
        let x = 42;
        ```
        ```tool_code
        let y = 100;
        ```
        ```text
        This is another text block.
        ```"#;
    let code_blocks = extract_code_blocks(&mycode);
    assert_eq!(code_blocks.len(), 2, "Expected two code blocks");
    assert_eq!(code_blocks[0], "let x = 42;", "Code block content mismatch");
    assert_eq!(
        code_blocks[1], "let y = 100;",
        "Code block content mismatch"
    );
    let text_blocks = extract_text_blocks(&mycode);
    assert_eq!(text_blocks.len(), 2, "Expected two text blocks");
    assert_eq!(
        text_blocks[0], "This is a text block.",
        "Text block content mismatch"
    );
    assert_eq!(
        text_blocks[1], "This is another text block.",
        "Text block content mismatch"
    );
}

#[test]
fn extraction_scenario_text_then_two_commands() {
    let input = "```text\nprose for the operator\n```\n```tool_code\nGet-One\n```\n```tool_code\nGet-Two\n```";
    let commands = extract_blocks(input, "tool_code");
    assert_eq!(commands.len(), 2);
    assert_eq!(commands[0], "Get-One");
    assert_eq!(commands[1], "Get-Two");
    let texts = extract_blocks(input, "text");
    assert_eq!(texts.len(), 1);
    assert_eq!(texts[0], "prose for the operator");
}

#[test]
fn dangling_open_fence_is_discarded() {
    let blocks = extract_blocks("before ```tool_code\nno closing fence here", "tool_code");
    assert_eq!(blocks.len(), 0);
    let blocks = extract_blocks("```tool_code\nkept\n```\n```tool_code\ndangling", "tool_code");
    assert_eq!(blocks.len(), 1);
    assert_eq!(blocks[0], "kept");
}

#[test]
fn extraction_on_empty_and_plain_input() {
    assert_eq!(extract_blocks("", "tool_code").len(), 0);
    assert_eq!(extract_blocks("no fences at all", "tool_code").len(), 0);
}

#[test]
fn extract_json_blocks_in_order() {
    let input = r#"test string
    with multiple lines
    ```json
    { "reason": "reason for using this command", "command": "pwsh command" }
    ```
    ```json
    { "thoughts": "test thoughts", "answer": "test answer" }
    ```"#;
    let blocks = extract_json_blocks(input);
    assert_eq!(blocks.len(), 2);
    assert_eq!(
        blocks[0],
        r#"{ "reason": "reason for using this command", "command": "pwsh command" }"#
    );
    assert_eq!(
        blocks[1],
        r#"{ "thoughts": "test thoughts", "answer": "test answer" }"#
    );
}

#[test]
fn reextracting_rewrapped_blocks_yields_same_blocks() {
    let input = "```tool_code\nGet-One\n```\nnoise\n```tool_code\nGet-Two | Sort\n```";
    let first = extract_blocks(input, "tool_code");
    let mut rewrapped = String::new();
    for b in &first {
        rewrapped.push_str("```tool_code");
        rewrapped.push_str(b);
        rewrapped.push_str("```");
    }
    let second = extract_blocks(&rewrapped, "tool_code");
    assert_eq!(first, second);
}
