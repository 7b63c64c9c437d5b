use kumo::agent::{
    failure_kind, finish_turn, turn_failure_report, FailureKind, Research, ResearchProgress, Turn,
    TurnFailure, TOOL_ROUND_LIMIT_FINISH_REASON,
};
use kumo::provider::{ChatResponse, Message, ToolCall, Usage};
use kumo::storage::Database;
use kumo::tools::{ToolRegistry, ToolStep};

#[test]
fn a_finished_turn_records_the_prompt_then_the_tool_trail_then_the_answer() {
    let mut turn = Turn::start(
        "model-a",
        "system",
        Vec::new(),
        Message::user("what is in the log?"),
    );
    turn.trail.push(Message::tool_result("call-1", "42 errors"));
    let turn = finish_turn(
        turn,
        "There are 42 errors.".to_owned(),
        TOOL_ROUND_LIMIT_FINISH_REASON.to_owned(),
    );

    assert_eq!(turn.record.len(), 3);
    assert_eq!(turn.record[0].content, "what is in the log?");
    assert_eq!(turn.record[1].content, "42 errors");
    assert_eq!(turn.record[2].content, "There are 42 errors.");
    assert_eq!(turn.answer, "There are 42 errors.");
    // A turn cut short by the round cap stays distinguishable once stored.
    assert_eq!(turn.finish_reason, "tool_round_limit");
}

#[test]
fn readonly_subagent_uses_isolated_provider_and_read_tools() {
    let mut database = Database::new();
    let tools = ToolRegistry::new("/work".to_owned(), Vec::new(), "UTC".to_owned());
    let first = ChatResponse {
        content: String::new(),
        tool_calls: vec![ToolCall {
            id: "read-1".to_owned(),
            name: "read_file".to_owned(),
            arguments: r#"{"path":"note.txt"}"#.to_owned(),
        }],
        usage: Usage {
            prompt_tokens: 2,
            completion_tokens: 1,
            total_tokens: 3,
        },
        finish_reason: "tool_calls".to_owned(),
    };
    let second = ChatResponse {
        content: "The note contains an important detail.".to_owned(),
        tool_calls: Vec::new(),
        usage: Usage {
            prompt_tokens: 3,
            completion_tokens: 1,
            total_tokens: 4,
        },
        finish_reason: "stop".to_owned(),
    };

    let research = Research::start(r#"{"task":"Inspect note.txt"}"#).unwrap();
    let mut research = match research.on_response(first) {
        ResearchProgress::CallTools(research) => research,
        other => panic!("the file has to be read first: {other:?}"),
    };
    let call = research.next_call().unwrap().clone();
    assert!(tools.refuse_read_only(&call.name).is_none());
    match tools.dispatch(&mut database, 42, &call) {
        ToolStep::ReadFile(path) => assert_eq!(path, "note.txt"),
        other => panic!("not a read: {other:?}"),
    }
    research.on_output("important detail");
    assert!(research.next_call().is_none());
    assert_eq!(research.messages.last().unwrap().content, "important detail");
    match research.on_response(second) {
        ResearchProgress::Answered { answer, usage } => {
            assert!(answer.contains("important detail"));
            assert_eq!(usage.total_tokens, 7);
        }
        other => panic!("no answer: {other:?}"),
    }
}

/// Each class of failure has to describe itself, rather than send the owner to check a service
/// that is fine while the real fault goes unnamed.
#[test]
fn a_failed_turn_is_reported_as_the_thing_that_actually_failed() {
    let report = |kind| {
        let failure = TurnFailure::new(kind, "underlying detail".to_owned());
        turn_failure_report(failure_kind(&Some(failure)), "ref12345")
    };

    let provider = report(FailureKind::Provider);
    let tool = report(FailureKind::Tool);
    let storage = report(FailureKind::Storage);
    let telegram = report(FailureKind::Telegram);

    assert!(provider.contains("model provider"), "{provider}");
    assert!(tool.contains("tool"), "{tool}");
    assert!(storage.contains("database"), "{storage}");
    assert!(telegram.contains("message"), "{telegram}");
    for other in [&tool, &storage, &telegram] {
        assert!(
            !other.contains("model provider"),
            "a non-provider failure must not blame the provider: {other}"
        );
    }
    for report in [&provider, &tool, &storage, &telegram] {
        assert!(report.contains("ref12345"), "{report}");
    }
}

/// A failure that nothing classified is Kumo's problem until proven otherwise: it must not fall
/// back to blaming the provider.
#[test]
fn an_unclassified_failure_is_reported_as_internal_not_as_the_provider() {
    assert_eq!(failure_kind(&None), FailureKind::Internal);
    let report = turn_failure_report(failure_kind(&None), "ref00001");
    assert!(report.contains("internal error"), "{report}");
    assert!(!report.contains("model provider"), "{report}");
}

#[test]
fn a_classified_failure_keeps_its_class_under_added_context() {
    let mut failure = TurnFailure::new(FailureKind::Storage, "database is locked".to_owned());

    failure.reason = format!("while recording an audit event: {}", failure.reason);

    assert_eq!(failure_kind(&Some(failure)), FailureKind::Storage);
}

/// The report is the only thing the owner sees, and a Telegram chat is not a log: it must carry
/// the reference id and nothing from the error itself.
#[test]
fn a_failure_report_never_leaks_paths_or_secrets() {
    let error = TurnFailure::new(
        FailureKind::Provider,
        "POST https://api.example.com/v1/chat failed: 401 for key sk-live-abc123 \
         (config C:\\Users\\owner\\AppData\\Roaming\\kumo\\kumo.toml)"
            .to_owned(),
    );

    let report = turn_failure_report(failure_kind(&Some(error)), "ref99999");

    for secret in ["sk-live-abc123", "kumo.toml", "api.example.com", "401"] {
        assert!(!report.contains(secret), "leaked {secret}: {report}");
    }
    assert!(report.contains("ref99999"), "{report}");
}
