use kumo::agent::{
    plan_call, settle_approval, ApprovalOutcome, CallPlan, Progress, Research, ResearchProgress,
    Turn, MAX_RESEARCH_ROUNDS, MAX_TOOL_ROUNDS,
};
use kumo::chunks::message_chunks;
use kumo::commands::{list, TemplateFile};
use kumo::compaction::{cutoff, message_budget, KEEP_RECENT};
use kumo::config::{Config, McpServerConfig, ProviderConfig, TelegramConfig};
use kumo::gateway::{route, stored_file_name, upload_file_name, Route};
use kumo::json::{parse, Json};
use kumo::logging::{error, info, warn};
use kumo::markdown::to_telegram_markdown_v2;
use kumo::mcp::{extract_media, offered_tool, render_result};
use kumo::onboarding::{install_first, install_named, keep_previous};
use kumo::prompts::{
    approval_buttons, parse_approval_callback, parse_question_callback, question_buttons,
};
use kumo::provider::{ChatResponse, Message, Role, ToolCall, Usage};
use kumo::replies::start_new;
use kumo::scheduler::skip_stale_tasks;
use kumo::settings::{set_context_window, Edit};
use kumo::storage::tasks::next_occurrence;
use kumo::storage::{Database, TaskStatus};
use kumo::table::Table;
use kumo::text::{decimal_u64, parse_u64};
use kumo::tools::facts::MAX_MEMORY_BYTES;
use kumo::tools::output::truncate_utf8;
use kumo::tools::workspace::list_entries;
use kumo::tools::{
    job_result, BackgroundOutcome, ProcessOutput, ToolRegistry, ToolStep,
};

fn call(id: &str, name: &str, arguments: &str) -> ToolCall {
    ToolCall {
        id: id.to_owned(),
        name: name.to_owned(),
        arguments: arguments.to_owned(),
    }
}

fn asks(calls: Vec<ToolCall>) -> ChatResponse {
    ChatResponse {
        content: String::new(),
        tool_calls: calls,
        usage: Usage::default(),
        finish_reason: "tool_calls".to_owned(),
    }
}

fn says(text: &str) -> ChatResponse {
    ChatResponse {
        content: text.to_owned(),
        tool_calls: Vec::new(),
        usage: Usage::default(),
        finish_reason: "stop".to_owned(),
    }
}

fn registry() -> ToolRegistry {
    ToolRegistry::new("/work".to_owned(), Vec::new(), "UTC".to_owned())
}

fn provider(host: &str) -> ProviderConfig {
    ProviderConfig {
        base_url: format!("https://api.{host}.com/v1"),
        api_key: String::new(),
        active_model: "m".to_owned(),
        models: vec!["m".to_owned()],
        context_window: None,
        context_windows: Table::new(),
    }
}

fn config() -> Config {
    Config {
        telegram: TelegramConfig {
            bot_token: "t".to_owned(),
            bot_username: "b".to_owned(),
            owner_user_id: 1,
        },
        provider: None,
        providers: Table::new(),
        active_provider: None,
        tools: None,
        timezone: None,
        mcp: Table::new(),
    }
}

#[test]
fn a_turn_keeps_requests_and_results_together() {
    let mut database = Database::new();
    let turn = Turn::start("m", "s", Vec::new(), Message::user("hi"));
    let mut turn = match turn.on_response(asks(vec![
        call("1", "remember", "{}"),
        call("2", "forget", "{}"),
    ])) {
        Progress::CallTools(turn) => turn,
        other => panic!("{other:?}"),
    };
    assert_eq!(turn.next_call().unwrap().id, "1");
    turn.on_output(&mut database, 5, 42, "one".to_owned()).unwrap();
    assert_eq!(turn.next_call().unwrap().id, "2");
    let report = turn
        .on_output(&mut database, 6, 42, "Error: two".to_owned())
        .unwrap();
    assert!(report.failed);
    assert!(turn.next_call().is_none());
    let done = match turn.on_response(says("done")) {
        Progress::Finished(done) => done,
        other => panic!("{other:?}"),
    };
    let roles: Vec<Role> = done.record.iter().map(|message| message.role).collect();
    assert_eq!(
        roles,
        vec![
            Role::User,
            Role::Assistant,
            Role::Tool,
            Role::Tool,
            Role::Assistant
        ]
    );
    assert_eq!(done.record[2].tool_call_id.as_deref(), Some("1"));
    assert_eq!(done.record[3].tool_call_id.as_deref(), Some("2"));
    assert_eq!(done.record[4].content, "done");
    let events = database.list_audit_events(42, 10).unwrap();
    assert_eq!(events.len(), 2);
    assert_eq!(events[0].outcome, "failed");
    assert_eq!(events[1].outcome, "completed");
}

#[test]
fn a_turn_ends_after_its_rounds() {
    let mut database = Database::new();
    let mut turn = Turn::start("m", "s", Vec::new(), Message::user("hi"));
    for _ in 0..MAX_TOOL_ROUNDS {
        assert!(turn.with_tools());
        turn = match turn.on_response(asks(vec![call("1", "remember", "{}")])) {
            Progress::CallTools(turn) => turn,
            other => panic!("{other:?}"),
        };
        turn.on_output(&mut database, 5, 42, "ok".to_owned()).unwrap();
    }
    assert!(!turn.with_tools());
    match turn.on_response(asks(vec![call("1", "remember", "{}")])) {
        Progress::Failed(failure) => assert!(failure.message().contains("8-round"), "{failure:?}"),
        other => panic!("{other:?}"),
    }
}

#[test]
fn an_investigation_ends_after_its_rounds() {
    let mut research = Research::start(r#"{"task":"look"}"#).unwrap();
    for _ in 0..MAX_RESEARCH_ROUNDS {
        assert!(research.with_tools());
        research = match research.on_response(asks(vec![call("1", "read_file", "{}")])) {
            ResearchProgress::CallTools(research) => research,
            other => panic!("{other:?}"),
        };
        research.on_output("ok");
    }
    assert!(!research.with_tools());
    match research.on_response(asks(vec![call("1", "read_file", "{}")])) {
        ResearchProgress::Failed(reason) => assert!(reason.contains("exhausted"), "{reason}"),
        other => panic!("{other:?}"),
    }
}

#[test]
fn a_gated_call_runs_only_with_consent() {
    let mut database = Database::new();
    let tools = registry();
    let command = call("1", "run_command", r#"{"command":"ls"}"#);
    match plan_call(&tools, &mut database, 5, 42, &command).unwrap() {
        CallPlan::Approve(preview) => assert_eq!(preview, "Command: ls"),
        other => panic!("{other:?}"),
    }
    assert!(!settle_approval(&mut database, 5, 42, "run_command", ApprovalOutcome::Deny).unwrap());
    assert!(settle_approval(&mut database, 5, 42, "run_command", ApprovalOutcome::AllowOnce)
        .unwrap());
    assert!(matches!(
        plan_call(&tools, &mut database, 5, 42, &command).unwrap(),
        CallPlan::Approve(_)
    ));
    assert!(settle_approval(&mut database, 5, 42, "run_command", ApprovalOutcome::AlwaysAllow)
        .unwrap());
    assert!(matches!(
        plan_call(&tools, &mut database, 5, 42, &command).unwrap(),
        CallPlan::Run
    ));
    // Another chat was granted nothing.
    assert!(matches!(
        plan_call(&tools, &mut database, 5, 99, &command).unwrap(),
        CallPlan::Approve(_)
    ));
}

#[test]
fn a_fence_line_never_pushes_a_chunk_over_the_limit() {
    let message = format!("{}\n```rust\ncode\n```\n", "x".repeat(22));
    for limit in 20..40 {
        let chunks = message_chunks(&message, limit);
        for chunk in &chunks {
            assert!(chunk.chars().count() <= limit, "{limit}: {chunk:?}");
            assert_eq!(chunk.matches("```").count() % 2, 0, "{limit}: {chunk:?}");
        }
        assert!(chunks.iter().any(|chunk| chunk.contains("code")));
    }
}

#[test]
fn a_builtin_is_reported_or_a_template_loaded_never_both() {
    let file = |name: &str| TemplateFile {
        file_name: name.to_owned(),
        path: format!("/t/{name}"),
        content: "body".to_owned(),
    };
    let set = list(
        &vec![file("model.md"), file("b.md"), file("notes.txt")],
        &vec![file("a.md")],
    );
    let names: Vec<&str> = set.templates.iter().map(|t| t.name.as_str()).collect();
    assert_eq!(names, vec!["a", "b"]);
    assert_eq!(set.shadowed.len(), 1);
    assert_eq!(set.shadowed[0].path, "/t/model.md");
}

#[test]
fn a_workspace_template_wins_over_the_owners() {
    let file = |name: &str, content: &str| TemplateFile {
        file_name: name.to_owned(),
        path: format!("/t/{name}"),
        content: content.to_owned(),
    };
    let set = list(
        &vec![file("a.md", "mine"), file("b.md", "mine")],
        &vec![file("a.md", "theirs"), file("b.md", "  ")],
    );
    let bodies: Vec<&str> = set.templates.iter().map(|t| t.body.as_str()).collect();
    assert_eq!(bodies, vec!["theirs", "mine"]);
}

#[test]
fn a_template_of_another_name_is_reached() {
    assert!(matches!(route("/models-2 x"), Route::Template));
    assert!(matches!(route("/newer"), Route::Template));
    assert!(matches!(route("/rtk2"), Route::Template));
    assert!(matches!(route("/rtk on"), Route::SetRtk(_)));
}

#[test]
fn a_prefix_reaches_only_the_chats_own_session() {
    let mut database = Database::new();
    let turn = vec![Message::user("hi")];
    let usage = Usage::default();
    for (id, chat) in [("abc1", 42), ("abc2", 7), ("abd3", 42)] {
        database.clear_active_session(chat);
        database
            .save_turn_at(id, 5, chat, "m", &turn, &usage, "stop")
            .unwrap();
    }
    assert_eq!(database.find_session_by_prefix(42, "abc").as_deref(), Some("abc1"));
    assert_eq!(database.find_session_by_prefix(7, "ab").as_deref(), Some("abc2"));
    assert_eq!(database.find_session_by_prefix(42, "ab"), None);
}

#[test]
fn a_servers_tool_never_has_the_name_of_an_own_one() {
    let server = McpServerConfig {
        command: "s".to_owned(),
        args: Vec::new(),
        trusted: true,
        trusted_tools: Vec::new(),
    };
    let tool = offered_tool("run", &server, "command", &None, Json::object());
    assert_eq!(tool.name, "run__command");
    let tools = ToolRegistry::new("/work".to_owned(), vec![tool], "UTC".to_owned());
    assert!(tools.requires_confirmation("run_command"));
    assert!(!tools.requires_confirmation("run__command"));
}

#[test]
fn tools_of_different_servers_have_different_names() {
    let server = McpServerConfig {
        command: "run".to_owned(),
        args: Vec::new(),
        trusted: false,
        trusted_tools: Vec::new(),
    };
    let offered = |name: &str, tool: &str| {
        offered_tool(name, &server, tool, &None, Json::object()).name
    };
    assert_eq!(offered("a", "b_c"), "a__b_c");
    assert_eq!(offered("a_b", "c"), "a_b__c");
    assert_ne!(offered("a", "b_c"), offered("a_b", "c"));
    // A server whose own name holds the separator can collide with another.
    assert_eq!(offered("a", "b__c"), offered("a__b", "c"));
}

#[test]
fn a_new_conversation_asks_again() {
    let mut database = Database::new();
    let tools = registry();
    let command = call("1", "run_command", r#"{"command":"ls"}"#);
    for chat in [42, 99] {
        settle_approval(&mut database, 5, chat, "run_command", ApprovalOutcome::AlwaysAllow)
            .unwrap();
    }
    start_new(&mut database, 42);
    assert!(matches!(
        plan_call(&tools, &mut database, 5, 42, &command).unwrap(),
        CallPlan::Approve(_)
    ));
    assert!(matches!(
        plan_call(&tools, &mut database, 5, 99, &command).unwrap(),
        CallPlan::Run
    ));
}

#[test]
fn what_a_button_carries_fits() {
    let nonce = "0123456789abcdef0123456789abcdef";
    let options: Vec<String> = vec!["an option".repeat(20); 4];
    for button in approval_buttons(nonce) {
        assert!(button.data.len() <= 64);
    }
    for button in question_buttons(nonce, &options) {
        assert!(button.data.len() <= 64);
    }
}

#[test]
fn history_gets_what_a_request_has_left() {
    assert_eq!(message_budget(Some(100_000), 50_000), 150_000);
    assert_eq!(message_budget(Some(100_000), 199_999), 8_192);
}

#[test]
fn what_is_kept_never_starts_with_a_result() {
    let mut messages = vec![Message::user("old"), Message::assistant("old")];
    messages.push(Message::tool_request("", vec![call("1", "remember", "{}")]));
    messages.push(Message::tool_result("1", "a"));
    for _ in 0..KEEP_RECENT - 1 {
        messages.push(Message::tool_result("1", "b"));
    }
    let at = cutoff(&messages).unwrap();
    assert_eq!(at, 2);
    assert_eq!(messages[at].role, Role::Assistant);
}

#[test]
fn an_edit_reaches_the_provider_in_use() {
    let mut config = config();
    config.providers.insert("a".to_owned(), provider("a"));
    config.providers.insert("b".to_owned(), provider("b"));
    config.active_provider = Some("b".to_owned());
    config.provider_mut().unwrap().active_model = "new".to_owned();
    assert_eq!(config.provider().unwrap().active_model, "new");
    assert_eq!(config.providers.get("a").unwrap().active_model, "m");
}

#[test]
fn an_upload_name_holds_no_directory() {
    assert_eq!(upload_file_name(Some("sales.csv")), "sales.csv");
    assert_eq!(upload_file_name(None), "upload.bin");
    assert_eq!(stored_file_name("1f", "sales.csv"), "1f-sales.csv");
    assert_eq!(stored_file_name("", ".."), "-..");
}

#[test]
fn an_event_stays_on_its_line() {
    assert_eq!(info("T", "c", "a\nb"), "[T] [INFO] [c] a | b");
    assert_eq!(warn("T", "c", "a"), "[T] [WARN] [c] a");
    assert_eq!(
        error("T", "c", "ctx", "x\ny"),
        "[T] [ERROR] [c] ctx | cause=x | y"
    );
}

#[test]
fn converted_text_leaves_nothing_open() {
    assert_eq!(to_telegram_markdown_v2("**open"), "\\*\\*open");
    assert_eq!(to_telegram_markdown_v2("`open"), "\\`open");
    assert_eq!(to_telegram_markdown_v2("[a](b"), "\\[a\\]\\(b");
    assert_eq!(to_telegram_markdown_v2("a.b"), "a\\.b");
}

#[test]
fn images_are_split_off_again() {
    let value = parse(
        r#"{"content":[{"type":"text","text":"t"},
            {"type":"image","mimeType":"image/png","data":"AQID"}],"isError":true}"#,
    )
    .unwrap();
    let (text, images) = extract_media(render_result(&value));
    assert_eq!(text, "Error: t");
    assert_eq!(images.len(), 1);
    assert_eq!(images[0].data, vec![1, 2, 3]);
    assert_eq!(extract_media("plain".to_owned()).0, "plain");
}

#[test]
fn a_second_provider_does_not_cost_the_first() {
    let mut config = config();
    assert!(install_first(&mut config, provider("groq")).is_none());
    let second = install_first(&mut config, provider("groq")).unwrap();
    assert_eq!(keep_previous(&mut config).as_deref(), Some("groq"));
    install_named(&mut config, " groq-2 ", second);
    assert!(config.provider.is_none());
    assert_eq!(config.providers.len(), 2);
    assert_eq!(config.active_provider_name().as_deref(), Some("groq-2"));
    assert!(config.providers.contains("groq"));
}

#[test]
fn buttons_mean_what_they_say() {
    let outcomes: Vec<ApprovalOutcome> = approval_buttons("n:1")
        .iter()
        .map(|button| {
            let decision = parse_approval_callback(&button.data).unwrap();
            assert_eq!(decision.nonce, "n:1");
            decision.outcome
        })
        .collect();
    assert_eq!(
        outcomes,
        vec![
            ApprovalOutcome::AllowOnce,
            ApprovalOutcome::AlwaysAllow,
            ApprovalOutcome::Deny
        ]
    );
    let options = vec!["yes".to_owned(), "no".to_owned()];
    for (position, button) in question_buttons("n1", &options).iter().enumerate() {
        let answer = parse_question_callback(&button.data).unwrap();
        assert_eq!(answer.nonce, "n1");
        assert_eq!(answer.option_index, position);
        assert_eq!(button.label, options[position]);
    }
}

#[test]
fn a_role_is_read_back_from_its_name() {
    for message in [
        Message::system("a"),
        Message::user("a"),
        Message::assistant("a"),
        Message::tool_result("1", "a"),
    ] {
        let stored =
            Message::from_stored(message.role_name(), "a".to_owned(), Vec::new(), None).unwrap();
        assert_eq!(stored.role, message.role);
    }
    assert!(Message::from_stored("robot", String::new(), Vec::new(), None)
        .unwrap_err()
        .contains("robot"));
}

#[test]
fn whoever_is_told_of_a_skipped_reminder_is_told_the_truth() {
    let mut database = Database::new();
    database.create_scheduled_task(42, "once", 0, None).unwrap();
    database
        .create_scheduled_task(42, "hourly", 0, Some(3_600))
        .unwrap();
    let notices = skip_stale_tasks(&mut database, 10_000, "UTC");
    assert_eq!(notices.len(), 2);
    assert!(notices[0].text.contains("will not run at all"), "{notices:?}");
    assert!(
        notices[1].text.contains("Next run: 1970-01-01 03:00 UTC"),
        "{notices:?}"
    );
    assert_eq!(database.list_scheduled_tasks(42)[0].run_at, 10_800);
}

#[test]
fn a_typed_window_wins() {
    let mut config = config();
    let mut reported = provider("a");
    reported.context_windows.insert("m".to_owned(), 8_000);
    config.provider = Some(reported);
    match set_context_window(&mut config, "128,000") {
        Edit::Changed { saved, .. } => assert!(saved.contains("128000"), "{saved}"),
        other => panic!("{other:?}"),
    }
    assert_eq!(
        config.provider().unwrap().active_context_window(),
        Some(128_000)
    );
}

#[test]
fn pruning_spares_other_chats_and_running_commands() {
    let mut database = Database::new();
    let other = database.create_command_job(7, "true", "/", 1).unwrap();
    database
        .complete_command_job(&other, "failed", "", Some(1))
        .unwrap();
    let running = database.create_command_job(42, "sleep", "/", 2).unwrap();
    for pid in 0..102 {
        let id = database.create_command_job(42, "true", "/", pid).unwrap();
        database
            .complete_command_job(&id, "completed", "", Some(0))
            .unwrap();
    }
    assert!(database.find_command_job(7, &other).is_some());
    assert_eq!(
        database.find_command_job(42, &running).unwrap().status,
        "running"
    );
    assert_eq!(database.list_command_jobs(42, 500).unwrap().len(), 101);
}

#[test]
fn a_saved_turn_is_read_back_and_other_chats_do_not_see_it() {
    let mut database = Database::new();
    let turn = |text: &str| vec![Message::user(text), Message::assistant("ok")];
    let usage = Usage::default();
    database
        .save_turn(42, "m", &turn("first"), &usage, "stop")
        .unwrap();
    database
        .save_turn(7, "m", &turn("other"), &usage, "stop")
        .unwrap();
    database
        .save_turn(42, "m", &turn("second"), &usage, "stop")
        .unwrap();
    let texts: Vec<String> = database
        .load_active_history(42)
        .messages
        .into_iter()
        .map(|message| message.content)
        .collect();
    assert_eq!(texts, vec!["first", "ok", "second", "ok"]);
    assert_eq!(database.load_active_history(7).messages.len(), 2);
    assert!(database.load_active_history(1).messages.is_empty());
}

#[test]
fn a_rescheduled_reminder_keeps_its_phase() {
    for (start, interval, now) in [(0, 3_600, 10_000), (-50, 7, 1), (9, 10, 9)] {
        let (next, skipped) = next_occurrence(start, interval, now);
        assert_eq!((next - start) % interval, 0);
        assert!(next >= now);
        assert_eq!((next - start) / interval, skipped);
    }
}

#[test]
fn a_finished_reminder_stays_finished() {
    let mut database = Database::new();
    for status in ["completed", "failed", "cancelled", "expired"] {
        let id = database.create_scheduled_task(42, "x", 0, None).unwrap();
        database.complete_scheduled_task(&id, status).unwrap();
    }
    database.expire_stale_scheduled_tasks(10_000, 60);
    assert!(database.claim_due_scheduled_tasks(10_000).is_empty());
    assert_eq!(database.reset_stuck_running_tasks(), 0);
    let statuses: Vec<TaskStatus> = database.tasks.iter().map(|row| row.status).collect();
    assert_eq!(
        statuses,
        vec![
            TaskStatus::Completed,
            TaskStatus::Failed,
            TaskStatus::Cancelled,
            TaskStatus::Expired
        ]
    );
}

#[test]
fn numbers_read_back() {
    for n in [0, 7, 10, 1_000_000, u64::MAX] {
        assert_eq!(parse_u64(&decimal_u64(n)), Some(n));
    }
    assert_eq!(parse_u64("18446744073709551616"), None);
    assert_eq!(parse_u64(""), None);
    assert_eq!(parse_u64("+5"), Some(5));
}

#[test]
fn a_recorded_status_is_one_that_is_known() {
    let output = |code| ProcessOutput {
        code,
        stdout: b"out".to_vec(),
        stderr: Vec::new(),
    };
    let ends = vec![
        BackgroundOutcome::Finished(output(Some(0))),
        BackgroundOutcome::Finished(output(Some(3))),
        BackgroundOutcome::Finished(output(None)),
        BackgroundOutcome::Failed("gone".to_owned()),
        BackgroundOutcome::TimedOut {
            killed: Some(false),
            drained: None,
        },
    ];
    let statuses: Vec<String> = ends
        .into_iter()
        .map(|end| job_result(9, end).status)
        .collect();
    assert_eq!(
        statuses,
        vec!["completed", "failed", "failed", "failed", "timed_out"]
    );
    let mut database = Database::new();
    for status in statuses {
        let id = database.create_command_job(42, "x", "/", 1).unwrap();
        assert!(database.complete_command_job(&id, &status, "", None).unwrap());
    }
}

#[test]
fn the_sub_agent_only_looks() {
    let tools = registry();
    let mut database = Database::new();
    let names: Vec<String> = tools
        .read_only_definitions()
        .into_iter()
        .map(|definition| definition.name)
        .collect();
    assert_eq!(names, vec!["read_file", "list_directory"]);
    for name in names {
        assert!(tools.refuse_read_only(&name).is_none());
        let step = tools.dispatch(&mut database, 42, &call("1", &name, r#"{"command":"ls"}"#));
        assert!(matches!(step, ToolStep::Reply(_)), "{step:?}");
    }
}

#[test]
fn memory_stays_within_its_cap() {
    let tools = registry();
    let mut database = Database::new();
    let fact = |length: usize| {
        call(
            "1",
            "remember",
            &kumo::json::print(&Json::object().with("fact", Json::text(&"x".repeat(length)))),
        )
    };
    tools.dispatch(&mut database, 42, &fact(MAX_MEMORY_BYTES - 1));
    assert_eq!(database.total_memory_bytes(), MAX_MEMORY_BYTES - 1);
    tools.dispatch(&mut database, 42, &fact(2));
    assert_eq!(database.total_memory_bytes(), MAX_MEMORY_BYTES - 1);
    tools.dispatch(&mut database, 42, &fact(1));
    assert_eq!(database.total_memory_bytes(), MAX_MEMORY_BYTES);
}

#[test]
fn a_cut_text_keeps_what_fits() {
    assert_eq!(
        truncate_utf8("aé日b".to_owned(), 4),
        "aé\n... output truncated"
    );
    assert_eq!(truncate_utf8("aé".to_owned(), 3), "aé");
}

#[test]
fn a_listing_is_in_order() {
    let entries = vec![
        ("b".to_owned(), false),
        ("a".to_owned(), true),
        ("B".to_owned(), false),
    ];
    assert_eq!(list_entries(&entries), "B\na/\nb");
    let many: Vec<(String, bool)> = (0..201).map(|i| (format!("{i:03}"), false)).collect();
    assert!(list_entries(&many).ends_with("199\n... entry limit reached"));
}
