use kumo::commands::{CommandSet, ShadowedCommand};
use kumo::provider::{Message, Usage};
use kumo::replies::{
    commands_message, delete_session, forget_command, format_timestamp, memory_message,
    render_memory_snapshot, resume_session, sessions_message, truncate,
};
use kumo::storage::{Database, MemoryEntry};

#[test]
fn truncate_appends_ellipsis_only_when_needed() {
    assert_eq!(truncate("hello", 10), "hello");
    assert_eq!(truncate("hello world", 5), "hello\u{2026}");
}

#[test]
fn format_timestamp_renders_a_readable_date() {
    // 2024-01-15T10:30:00Z
    assert_eq!(format_timestamp(1_705_314_600), "2024-01-15 10:30");
}

#[test]
fn sessions_message_reports_no_sessions_when_chat_is_empty() {
    let mut database = Database::new();
    assert_eq!(
        sessions_message(&database, 42).unwrap(),
        "No saved sessions yet."
    );
}

#[test]
fn sessions_message_marks_the_active_session() {
    let mut database = Database::new();
    let id = database
        .save_turn(
            42,
            "model-a",
            &vec![
                Message::user("hi"),
                Message::assistant("hello"),
            ],
            &Usage::default(),
            "stop",
        )
        .unwrap();

    let response = sessions_message(&database, 42).unwrap();

    assert!(response.contains(&id[..8]));
    assert!(
        response.contains('*'),
        "the only session should be marked active"
    );
}

#[test]
fn resume_session_reports_usage_on_an_empty_argument() {
    let mut database = Database::new();
    let response = resume_session(&mut database, 42, "");
    assert!(response.starts_with("Usage:"));
}

#[test]
fn resume_session_reports_no_match_for_an_unknown_prefix() {
    let mut database = Database::new();
    let response = resume_session(&mut database, 42, "nope");
    assert!(response.contains("No session matches"));
}

#[test]
fn resume_session_switches_the_active_session() {
    let mut database = Database::new();
    let first = database
        .save_turn(
            42,
            "model-a",
            &vec![
                Message::user("first"),
                Message::assistant("a"),
            ],
            &Usage::default(),
            "stop",
        )
        .unwrap();
    database.clear_active_session(42);
    database.save_turn(
        42,
        "model-a",
        &vec![
            Message::user("second"),
            Message::assistant("a"),
        ],
        &Usage::default(),
        "stop",
    )
    .unwrap();

    let response = resume_session(&mut database, 42, &first[..8]);

    assert!(response.contains(&first[..8]));
    assert_eq!(
        database
            .active_session(42)
            .unwrap()
            .unwrap()
            .id,
        first
    );
}

#[test]
fn delete_session_reports_usage_on_an_empty_argument() {
    let mut database = Database::new();
    let response = delete_session(&mut database, 42, "");
    assert!(response.starts_with("Usage:"));
}

#[test]
fn delete_session_removes_a_resolved_session() {
    let mut database = Database::new();
    let id = database
        .save_turn(
            42,
            "model-a",
            &vec![
                Message::user("hi"),
                Message::assistant("hello"),
            ],
            &Usage::default(),
            "stop",
        )
        .unwrap();

    let response = delete_session(&mut database, 42, &id[..8]);

    assert!(response.contains(&id[..8]));
    assert!(database.list_sessions(42).is_empty());
}

#[test]
fn render_memory_snapshot_is_empty_with_no_entries() {
    assert_eq!(render_memory_snapshot(&Vec::new()), "");
}

#[test]
fn render_memory_snapshot_lists_every_fact() {
    let entries = vec![
        MemoryEntry {
            id: 1,
            content: "The user is a researcher.".to_owned(),
        },
        MemoryEntry {
            id: 2,
            content: "Prefers concise answers.".to_owned(),
        },
    ];

    let rendered = render_memory_snapshot(&entries);

    assert!(rendered.contains("The user is a researcher."));
    assert!(rendered.contains("Prefers concise answers."));
}

#[test]
fn memory_message_reports_nothing_remembered_when_empty() {
    let mut database = Database::new();
    assert_eq!(
        memory_message(&database),
        "Nothing remembered yet."
    );
}

#[test]
fn memory_message_lists_stored_facts() {
    let mut database = Database::new();
    database.remember("The user is a researcher.").unwrap();

    let response = memory_message(&database);

    assert!(response.contains("The user is a researcher."));
}

#[test]
fn forget_command_reports_usage_on_an_empty_argument() {
    let mut database = Database::new();
    let response = forget_command(&mut database, "");
    assert!(response.starts_with("Usage:"));
}

#[test]
fn forget_command_all_clears_every_fact() {
    let mut database = Database::new();
    database.remember("one").unwrap();
    database.remember("two").unwrap();

    let response = forget_command(&mut database, "all");

    assert!(response.contains('2'));
    assert!(database.list_memory().is_empty());
}

#[test]
fn forget_command_removes_a_matched_fact() {
    let mut database = Database::new();
    database.remember("The user is a researcher.").unwrap();

    let response = forget_command(&mut database, "researcher");

    assert!(response.contains("Forgot"));
    assert!(database.list_memory().is_empty());
}

#[test]
fn forget_command_reports_no_match_without_erroring() {
    let mut database = Database::new();
    let response = forget_command(&mut database, "nonexistent");
    assert!(
        response.contains("No remembered fact contains"),
        "{response}"
    );
}

#[test]
fn forget_command_names_the_facts_an_ambiguous_text_matched() {
    let mut database = Database::new();
    database.remember("The user likes tea.").unwrap();
    database.remember("The user likes coffee.").unwrap();

    let response = forget_command(&mut database, "The user likes");

    assert!(
        response.contains("matches 2 remembered facts"),
        "{response}"
    );
    assert!(response.contains("The user likes tea."), "{response}");
    assert!(response.contains("The user likes coffee."), "{response}");
    // Nothing is removed while the text is ambiguous.
    assert_eq!(database.list_memory().len(), 2);
}

/// A template named after a built-in never runs, so `/commands` has to say so by name rather
/// than listing it as if it worked or omitting it as if it were not there.
#[test]
fn commands_message_names_a_template_shadowed_by_a_builtin() {
    let set = CommandSet {
        templates: Vec::new(),
        shadowed: vec![ShadowedCommand {
            name: "status".to_owned(),
            path: "/home/owner/.kumo/commands/status.md".to_owned(),
            file_name: Some("status.md".to_owned()),
        }],
    };

    let message = commands_message(&set);

    assert!(message.contains("status.md"), "{message}");
    assert!(message.contains("/status"), "{message}");
    assert!(message.contains("Rename"), "{message}");
}
