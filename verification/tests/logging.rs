use kumo::logging::info;

#[test]
fn multiline_messages_are_kept_on_one_log_line() {
    let message = "first\nsecond".replace('\n', " | ");
    assert_eq!(message, "first | second");
    let line = info("2026-01-02T03:04:05Z", "test", "first\nsecond");
    assert!(line.ends_with("first | second"), "{line}");
    assert!(!line.contains('\n'));
}
