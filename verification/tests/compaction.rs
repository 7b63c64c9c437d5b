use kumo::compaction::{cutoff, render, threshold, total_bytes, DEFAULT_THRESHOLD_BYTES};
use kumo::provider::{Message, ToolCall};

#[test]
fn threshold_scales_with_context_window() {
    assert_eq!(threshold(Some(1000)), 2000);
    assert_eq!(threshold(None), DEFAULT_THRESHOLD_BYTES);
}

#[test]
fn cutoff_preserves_six_recent_messages() {
    assert_eq!(cutoff(&vec![Message::user("x"); 6]), None);
    assert_eq!(cutoff(&vec![Message::user("x"); 10]), Some(4));
}

#[test]
fn cutoff_does_not_split_tool_requests_from_results() {
    let mut messages = vec![Message::user("old"); 3];
    messages.push(Message::tool_request(
        "",
        vec![ToolCall {
            id: "1".into(),
            name: "read_file".into(),
            arguments: "{}".into(),
        }],
    ));
    messages.push(Message::tool_result("1", "body"));
    messages.extend(vec![Message::assistant("recent"); 5]);

    assert_eq!(cutoff(&messages), Some(3));
}

#[test]
fn counts_and_renders_tool_calls() {
    let messages = vec![Message::tool_request(
        "",
        vec![ToolCall {
            id: "1".into(),
            name: "read_file".into(),
            arguments: "{}".into(),
        }],
    )];
    assert_eq!(total_bytes(&messages), 2);
    assert!(render(&messages).contains("called tools: read_file"));
}
