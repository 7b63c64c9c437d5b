use kumo::agent::{not_saved_report, system_prompt, FailureKind, Progress, Research, Turn};
use kumo::cli::{
    conclusion, doctor_checks, needs_onboarding, parse_command, print_check, status_config,
    status_head, status_storage, Command, ConfigFinding, Findings,
};
use kumo::clock::{is_earlier, nanos_from, Instant};
use kumo::compaction::{
    compaction_due, folded, message_budget, render_first, request_overhead, summary_messages,
    threshold, total_bytes, DEFAULT_THRESHOLD_BYTES, MIN_MESSAGE_BUDGET,
};
use kumo::config::{path, Config, ProviderConfig, TelegramConfig, ToolsConfig};
use kumo::daemon::{
    already_running, find_running_instance, recorded_pid, running_pid, stop_step, ProcessInfo, StopStep,
};
use kumo::gateway::{
    check_document_size, check_download, check_extension, check_photo, classify, is_sendable,
    photo_message, progress_finished, progress_started, route, stop_job_call, upload_instruction,
    Incoming, Route,
};
use kumo::json::{parse, print, Json};
use kumo::mcp::{call_arguments, connected_status, failed_status, offered_tool, render_result_text};
use kumo::onboarding::{
    is_pairing, new_config, new_provider, pairing_link, suggest_provider_name, suggested_for,
    unique_provider_name,
};
use kumo::prompts::{
    approval_prompt, question_reply, read_question, read_tap, QuestionEnd, Tap,
    MAX_APPROVAL_PREVIEW_CHARS,
};
use kumo::provider::{
    offered_models, request_json, summary_text, ChatResponse, ImageAttachment, ListedModel,
    Message, ModelInfo, ToolCall, ToolDefinition, Usage,
};
use kumo::replies::{
    audit_message, cancel_reminder, edit_memory_command, jobs_message, reminders_message,
    reset_workspace, resets_workspace, set_workspace, start_new, status_message,
    workspace_message, StatusFacts,
};
use kumo::scheduler::{finished_jobs, run_notice, settle_notice, settle_task};
use kumo::settings::{
    edit_reply, models_message, providers_message, refresh_models, set_context_window, set_rtk,
    switch_model, switch_provider, Edit,
};
use kumo::storage::{
    data_dir, migrations_from, Database, History, MemoryMatch, StorageError, CURRENT_VERSION,
};
use kumo::table::Table;
use kumo::text::trimmed;
use kumo::tools::arguments::{parse_command_arguments, parse_job_id};
use kumo::tools::output::{format_command_output, shorten, ProcessOutput};
use kumo::tools::processes::{any_alive, descendants};
use kumo::tools::reminders::schedule_task_at;
use kumo::tools::workspace::{check_file, check_inside, check_relative};
use kumo::tools::{
    finish_stop, reply_to_command, reply_to_delegation, rewritten, RunOutcome, ToolRegistry,
    ToolStep,
};
use kumo::wire::{error_message, read_chat, read_models, rejection};

fn config() -> Config {
    new_config(TelegramConfig {
        bot_token: "t".to_owned(),
        bot_username: "bot".to_owned(),
        owner_user_id: 1,
    })
}

fn provider(host: &str) -> ProviderConfig {
    new_provider(
        &format!("https://{host}/v1"),
        "",
        0,
        vec![
            ModelInfo {
                id: "a".to_owned(),
                context_window: Some(9_000),
            },
            ModelInfo {
                id: "b".to_owned(),
                context_window: None,
            },
        ],
    )
}

fn words(words: &[&str]) -> Vec<String> {
    words.iter().map(|word| (*word).to_owned()).collect()
}

fn call(name: &str, arguments: &str) -> ToolCall {
    ToolCall {
        id: "1".to_owned(),
        name: name.to_owned(),
        arguments: arguments.to_owned(),
    }
}

fn finished(code: Option<i32>, stdout: &[u8], stderr: &[u8]) -> ProcessOutput {
    ProcessOutput {
        code,
        stdout: stdout.to_vec(),
        stderr: stderr.to_vec(),
    }
}

#[test]
fn commands_of_the_program() {
    for (word, command) in [
        ("run", Command::Run),
        ("start", Command::Start),
        ("stop", Command::Stop),
        ("restart", Command::Restart),
        ("onboard", Command::Onboard),
        ("status", Command::Status),
        ("doctor", Command::Doctor),
        ("enable", Command::Enable),
        ("disable", Command::Disable),
        ("-h", Command::Help),
        ("-V", Command::Version),
    ] {
        assert_eq!(parse_command(&words(&[word])), Ok(command));
    }
    assert_eq!(parse_command(&Vec::new()), Ok(Command::Run));
    assert!(parse_command(&words(&["run", "now"])).is_err());
}

#[test]
fn onboarding_is_needed_until_everything_is_there() {
    assert!(needs_onboarding(false, None));
    let mut config = config();
    assert!(needs_onboarding(false, Some(&config)));
    config.provider = Some(provider("a"));
    config.tools = Some(ToolsConfig {
        workspace: "/w".to_owned(),
        rtk: false,
        background_max_secs: None,
    });
    assert!(needs_onboarding(false, Some(&config)));
    config.timezone = Some("UTC".to_owned());
    assert!(!needs_onboarding(false, Some(&config)));
    assert!(needs_onboarding(true, Some(&config)));
}

#[test]
fn status_lines() {
    let head = status_head("1.2.3", Some(9)).join("\n");
    assert!(head.contains("Kumo v1.2.3"), "{head}");
    assert!(head.contains("pid 9"), "{head}");
    let mut config = config();
    config.providers.insert("x".to_owned(), provider("x"));
    config.providers.insert("y".to_owned(), provider("y"));
    let lines = status_config("/c/kumo.toml", &config).join("\n");
    assert!(lines.contains("Provider:  x: a (https://x/v1)"), "{lines}");
    assert!(lines.contains("2 configured"), "{lines}");
    assert!(lines.contains("MCP:       none configured"), "{lines}");
    let summary = Database::new().storage_summary();
    let storage = status_storage("/d/kumo.db", &summary);
    assert_eq!(storage[0], "Database:  /d/kumo.db");
    assert_eq!(storage[1], "Sessions:  0");
}

#[test]
fn the_doctor_counts_what_failed() {
    let findings = |config| Findings {
        config,
        provider_error: None,
        workspace_exists: true,
        rtk_available: true,
        servers: Vec::new(),
        kamui_available: false,
        database_error: None,
    };
    let checks = doctor_checks(&findings(ConfigFinding::Missing));
    assert!(print_check(&checks[0]).starts_with("  \u{2717} "));
    assert_eq!(conclusion(&checks), Err("1 check(s) failed".to_owned()));

    let mut config = config();
    config.provider = Some(provider("a"));
    config.tools = Some(ToolsConfig {
        workspace: "/w".to_owned(),
        rtk: true,
        background_max_secs: None,
    });
    let checks = doctor_checks(&findings(ConfigFinding::Loaded(config)));
    assert_eq!(conclusion(&checks), Ok("All checks passed.".to_owned()));
    let mut broken = findings(ConfigFinding::Invalid("bad".to_owned()));
    broken.database_error = Some("locked".to_owned());
    assert_eq!(
        conclusion(&doctor_checks(&broken)),
        Err("2 check(s) failed".to_owned())
    );
}

#[test]
fn budgets() {
    assert_eq!(threshold(Some(u64::MAX)), usize::MAX / 2);
    assert_eq!(
        message_budget(None, 1_000),
        DEFAULT_THRESHOLD_BYTES - 1_000
    );
    assert_eq!(message_budget(None, usize::MAX), MIN_MESSAGE_BUDGET);
    let image = ImageAttachment {
        media_type: "image/png".to_owned(),
        data: "AAAA".to_owned(),
    };
    let with_image = vec![Message::user_with_images("é", vec![image])];
    assert_eq!(total_bytes(&with_image), 6);
    assert_eq!(
        request_overhead("abc", "de", 10, &Some("f".to_owned())),
        16
    );
    let long = vec![Message::user(&"x".repeat(20_000)); 10];
    assert_eq!(compaction_due(&long, None, 0), Some(4));
    assert_eq!(compaction_due(&long, Some(1_000_000), 0), None);
    assert!(render_first(&long, 0).is_empty());
    let history = History {
        messages: long,
        summary: None,
    };
    let history = folded(history, "s".to_owned(), 4);
    assert_eq!(history.messages.len(), 6);
    assert_eq!(history.summary.as_deref(), Some("s"));
    let request = summary_messages(None, "r");
    assert_eq!(request.len(), 2);
    assert!(request[1].content.contains("(none yet)"));
}

#[test]
fn where_things_are() {
    assert_eq!(path(Some("/c")).unwrap(), ["/c", "kumo", "kumo.toml"]);
    assert!(path(None).unwrap_err().contains("config directory"));
    assert_eq!(data_dir(Some("/d"), None).unwrap(), ["/d"]);
    assert_eq!(data_dir(None, Some("/l")).unwrap(), ["/l", "kumo"]);
    assert!(data_dir(None, None).is_err());
}

#[test]
fn an_unknown_timezone_is_utc() {
    let mut config = config();
    config.timezone = Some("Nowhere/Land".to_owned());
    assert_eq!(config.timezone(), "UTC");
    config.timezone = Some("Europe/Berlin".to_owned());
    assert_eq!(config.timezone(), "Europe/Berlin");
}

#[test]
fn a_stale_pid_file_is_dropped() {
    let process = |pid, exe: Option<&str>| ProcessInfo {
        pid,
        exe: exe.map(str::to_owned),
    };
    let table = vec![
        process(1, None),
        process(5, Some("/bin/kumo")),
        process(6, Some("/bin/kumo")),
    ];
    assert_eq!(recorded_pid(" 12\n"), Some(12));
    assert_eq!(recorded_pid("x"), None);
    assert_eq!(find_running_instance(&table, 5, Some("/bin/kumo")), Some(6));
    assert_eq!(find_running_instance(&table, 5, None), None);
    let running = running_pid(Some("99"), &table, 6, Some("/bin/kumo"));
    assert_eq!(running.pid, Some(5));
    assert!(running.stale_file);
    let running = running_pid(Some("1"), &table, 6, Some("/bin/kumo"));
    assert_eq!(running.pid, Some(1));
    assert!(!running.stale_file);
    assert!(already_running(7).contains("(pid 7)"));
}

#[test]
fn messages_are_sorted() {
    assert!(matches!(
        classify(Some(2), 1, false, false, Some("/new"), false),
        Incoming::Ignored
    ));
    assert!(matches!(
        classify(None, 1, true, false, None, false),
        Incoming::Ignored
    ));
    match classify(Some(1), 1, false, false, Some("/new"), true) {
        Incoming::Answer(text) => assert_eq!(text, "/new"),
        other => panic!("{other:?}"),
    }
    assert!(matches!(
        classify(Some(1), 1, true, false, None, true),
        Incoming::Photo
    ));
    assert!(matches!(
        classify(Some(1), 1, false, true, None, false),
        Incoming::Document
    ));
    match route("/jobs stop  abc ") {
        Route::StopJob(id) => assert_eq!(id, "abc"),
        other => panic!("{other:?}"),
    }
    assert!(matches!(route("/memory edit x"), Route::EditMemory(_)));
    assert!(matches!(route("/models refresh"), Route::RefreshModels));
    assert!(matches!(route("/unknown"), Route::Template));
    assert!(matches!(route("hello"), Route::Prompt));
    assert_eq!(
        stop_job_call("a\"b").arguments,
        r#"{"id":"a\"b"}"#
    );
}

#[test]
fn uploads_are_checked() {
    assert!(check_photo(5_242_880).is_ok());
    assert!(check_photo(5_242_881).unwrap_err().contains("5242881 bytes"));
    assert!(check_document_size(20_971_521).is_err());
    assert!(check_download(20_971_520).is_ok());
    assert!(check_extension("a.XLSX").is_ok());
    assert!(check_extension("a.exe").is_err());
    assert!(check_extension("csv").is_err());
    assert_eq!(upload_instruction("plot it"), "plot it");
    assert!(upload_instruction("").contains("Inspect its columns"));
    let photo = photo_message("hi", &vec![1, 2, 3]);
    assert_eq!(photo.images[0].media_type, "image/jpeg");
    assert_eq!(photo.images[0].data, "AQID");
    assert!(is_sendable("image/png"));
    assert!(!is_sendable("audio/mp3"));
}

#[test]
fn progress_lines() {
    assert!(progress_started("mcp__draw_it").contains("draw it"));
    let done = progress_finished("run_command", false, "1.5");
    assert!(done.contains("run command") && done.contains("1.5"), "{done}");
    assert_ne!(done, progress_finished("run_command", true, "1.5"));
}

#[test]
fn json_is_read_and_written() {
    assert!(parse("{").is_none());
    let value = parse(r#"{"b": [1, true, null], "a": "é"}"#).unwrap();
    assert_eq!(value.text_field("a").unwrap(), "é");
    assert_eq!(value.field("b").unwrap().as_items().unwrap().len(), 3);
    assert_eq!(
        print(&Json::object().with("k", Json::array().item(Json::text("v\n")))),
        "{\"k\":[\"v\\n\"]}"
    );
}

#[test]
fn servers_are_described() {
    let server = kumo::config::McpServerConfig {
        command: "s".to_owned(),
        args: Vec::new(),
        trusted: false,
        trusted_tools: vec!["get".to_owned()],
    };
    let get = offered_tool("srv", &server, "get", &None, Json::object());
    let put = offered_tool("srv", &server, "put", &None, Json::object());
    assert_eq!(get.name, "srv__get");
    assert!(!get.requires_confirmation);
    assert!(put.requires_confirmation);
    assert_eq!(put.preview(" {} "), "MCP put {}");
    let status = connected_status("srv", &vec![get, put]);
    assert_eq!(status.trust_label(), " [1 trusted]");
    assert_eq!(failed_status("srv", "gone").error.as_deref(), Some("gone"));
    assert_eq!(
        kumo::cli::describe_server(&failed_status("srv", "gone")),
        "srv: failed (gone)"
    );
    assert_eq!(render_result_text("not json"), "null");
    assert_eq!(
        call_arguments("not json").unwrap_err(),
        "tool arguments were not valid JSON: expected ident at line 1 column 2"
    );
    assert!(call_arguments("[1]").unwrap().is_none());
    assert!(call_arguments(r#"{"a":1}"#).unwrap().is_some());
}

#[test]
fn providers_get_names() {
    assert_eq!(suggest_provider_name("https://api.groq.com/openai/v1"), "groq");
    assert_eq!(suggest_provider_name("http://localhost:8080/v1"), "localhost");
    assert_eq!(suggest_provider_name(""), "provider");
    let mut providers = Table::new();
    assert_eq!(unique_provider_name("a", &providers), "a");
    providers.insert("a".to_owned(), provider("a"));
    providers.insert("a-2".to_owned(), provider("a"));
    assert_eq!(unique_provider_name("a", &providers), "a-3");
    let mut config = config();
    config.providers = providers;
    assert_eq!(suggested_for(&config, "https://a.io"), "a-3");
    assert_eq!(pairing_link("bot", "n"), "https://t.me/bot?start=kumo_n");
    assert!(is_pairing(true, Some("/start kumo_n"), "n"));
    assert!(!is_pairing(false, Some("/start kumo_n"), "n"));
    assert!(!is_pairing(true, Some("/start kumo_m"), "n"));
}

#[test]
fn prompts_are_read_and_shown() {
    let long = "x".repeat(MAX_APPROVAL_PREVIEW_CHARS + 1);
    assert!(approval_prompt(&long).contains("... approval preview truncated"));
    assert!(!approval_prompt("ls").contains("truncated"));
    let question =
        read_question(r#"{"question":"which?","options":["a","b","c","d","e"]}"#).unwrap();
    assert_eq!(question.options.len(), 4);
    assert!(read_question(r#"{"question":" "}"#)
        .unwrap_err()
        .contains("non-empty"));
    assert_eq!(
        read_question("no").unwrap_err(),
        "Error: invalid ask_user arguments: expected ident at line 1 column 2"
    );
    assert_eq!(read_question("{}").unwrap_err(), "Error: invalid ask_user arguments");
    assert_eq!(
        question_reply(QuestionEnd::TimedOut),
        "The user did not answer in time."
    );
    assert_eq!(question_reply(QuestionEnd::Dropped), "The user did not answer.");
    assert!(matches!(
        read_tap(2, 1, Some("approval:n:allow")),
        Tap::Ignored
    ));
    assert!(matches!(
        read_tap(1, 1, Some("approval:n:allow")),
        Tap::Approval(_)
    ));
    assert!(matches!(read_tap(1, 1, Some("question:n:0")), Tap::Question(_)));
    assert!(matches!(read_tap(1, 1, None), Tap::Ignored));
}

#[test]
fn replies_of_the_provider() {
    let reply = read_chat(
        r#"{"choices":[{"message":{"content":null,"tool_calls":[
            {"id":"c","function":{"name":"f","arguments":"{}"}}]},"finish_reason":"tool_calls"}],
            "usage":{"prompt_tokens":3,"total_tokens":5}}"#,
    )
    .unwrap();
    assert_eq!(reply.content, "");
    assert_eq!(reply.tool_calls[0].name, "f");
    assert_eq!(reply.finish_reason, "tool_calls");
    assert_eq!(
        reply.usage,
        Usage {
            prompt_tokens: 3,
            completion_tokens: 0,
            total_tokens: 5
        }
    );
    assert_eq!(
        read_chat(r#"{"choices":[]}"#).unwrap_err(),
        "provider returned no choices"
    );
    assert_eq!(
        read_chat("nothing").unwrap_err(),
        "provider returned an invalid chat response: expected ident at line 1 column 2"
    );
    for invalid in [
        r#"{"choices":[{"message":{"content":7}}]}"#,
        r#"{"choices":[{"message":{"content":"x"},"finish_reason":null}]}"#,
        r#"{"choices":[{"message":7}]}"#,
        r#"{"choices":[],"usage":null}"#,
    ] {
        assert_eq!(
            read_chat(invalid).unwrap_err(),
            "provider returned an invalid chat response"
        );
    }
    for invalid in [
        r#"{"data":[{"id":1}]}"#,
        r#"{"data":[{"id":"a","context_window":-1}]}"#,
    ] {
        assert_eq!(
            read_models(invalid).unwrap_err(),
            "provider returned an invalid models response"
        );
    }
    assert!(read_models("{").unwrap_err().contains("EOF while parsing"));
    assert_eq!(error_message("plain"), "plain");
    assert_eq!(
        rejection("401 Unauthorized", r#"{"error":{"message":"bad"}}"#),
        "provider returned 401 Unauthorized: bad"
    );
    assert!(offered_models(Vec::new()).is_err());
    let listed = vec![ListedModel {
        id: "a".to_owned(),
        context_window: None,
        context_length: Some(5),
    }];
    assert_eq!(offered_models(listed).unwrap()[0].context_window, Some(5));
    assert!(summary_text("  ".to_owned()).is_err());
    assert_eq!(summary_text("s".to_owned()).unwrap(), "s");
}

#[test]
fn a_request_carries_the_model_the_messages_and_the_tools() {
    let messages = vec![Message::user("hi")];
    let bare = print(&request_json("m", &messages, &Vec::new()));
    assert_eq!(
        bare,
        r#"{"messages":[{"content":"hi","role":"user"}],"model":"m","tools":[]}"#
    );
    let tool = ToolDefinition {
        name: "f".to_owned(),
        description: "d".to_owned(),
        parameters: Json::object(),
    };
    assert_eq!(tool.payload_bytes(), 4);
    let request = request_json("m", &messages, &vec![tool]);
    assert_eq!(request.field("tools").unwrap().as_items().unwrap().len(), 1);
}

#[test]
fn chat_commands_answer() {
    let mut database = Database::new();
    assert!(start_new(&mut database, 42).contains("no active conversation"));
    database
        .save_turn(42, "m", &vec![Message::user("hi")], &Usage::default(), "stop")
        .unwrap();
    let facts = StatusFacts {
        model: "m".to_owned(),
        provider: Some("p".to_owned()),
        context_window: None,
        workspace: "/w".to_owned(),
        rtk: true,
        servers: Vec::new(),
        database: "/d".to_owned(),
    };
    let status = status_message(&database, 42, &facts).unwrap();
    assert!(status.starts_with("Model: m (p)\nContext window: default\n"), "{status}");
    assert!(status.contains("Messages: 1\nRequests: 1\n"), "{status}");
    assert!(status.ends_with("MCP:\nnone\nDatabase: /d"), "{status}");
    assert!(start_new(&mut database, 42).contains("Started a new conversation"));

    database.remember("old fact").unwrap();
    assert!(edit_memory_command(&mut database, "1 new fact").contains('1'));
    assert_eq!(database.list_memory()[0].content, "new fact");
    assert!(edit_memory_command(&mut database, "x y").contains("must be a number"));
    assert!(edit_memory_command(&mut database, "x").contains("Usage"));
    assert!(edit_memory_command(&mut database, "#9 y").contains("#9 does not exist"));

    assert!(resets_workspace("RESET"));
    let reply = set_workspace(&mut database, 42, "x", None);
    assert_eq!(reply, "Workspace does not exist: x");
    let reply = set_workspace(&mut database, 42, "x", Some(("/x".to_owned(), false)));
    assert_eq!(reply, "Workspace is not a directory: /x");
    set_workspace(&mut database, 42, "x", Some(("/x".to_owned(), true)));
    assert_eq!(database.workspace_for_chat(42).as_deref(), Some("/x"));
    assert!(workspace_message(&database, 42, "/x").contains("/x"));
    reset_workspace(&mut database, 42, "/w");
    assert!(database.workspace_for_chat(42).is_none());

    assert!(!audit_message(&database, 42).is_empty());
    database.record_audit_event(42, "e", Some("t"), None, "o").unwrap();
    assert!(audit_message(&database, 42).contains('t'));
    assert!(!jobs_message(&database, 42).is_empty());
    let none = reminders_message(&database, "UTC", 42);
    let id = database
        .create_scheduled_task(42, "ping", 1_700_000_000, Some(60))
        .unwrap();
    let some = reminders_message(&database, "Asia/Jakarta", 42);
    assert_ne!(none, some);
    assert!(some.contains("2023-11-15 05:13"), "{some}");
    assert!(cancel_reminder(&mut database, 42, "zzz").contains("zzz"));
    assert!(cancel_reminder(&mut database, 42, &id[..8]).contains(&id[..8]));
}

#[test]
fn reports_and_prompts_of_the_agent() {
    assert!(not_saved_report("r1").contains("reference r1"));
    assert_eq!(FailureKind::Telegram.as_str(), "telegram");
    let prompt = system_prompt(0, "UTC", "facts", &Some("sum".to_owned()));
    assert!(
        prompt.contains("Current date and time: 1970-01-01 00:00:00 +00:00 (UTC)."),
        "{prompt}"
    );
    assert!(prompt.contains("\n\nfacts\n\nSummary of the earlier conversation:\n\nsum"));
    let turn = Turn::start("m", "s", Vec::new(), Message::user("hi"));
    let empty = ChatResponse {
        content: " \n".to_owned(),
        tool_calls: Vec::new(),
        usage: Usage::default(),
        finish_reason: "stop".to_owned(),
    };
    match turn.on_response(empty) {
        Progress::Failed(failure) => assert_eq!(
            failure.message(),
            "provider failure: provider returned an empty response"
        ),
        other => panic!("{other:?}"),
    }
    assert!(Research::start(r#"{"task":" "}"#).is_err());
    assert!(Research::start("no").is_err());
}

#[test]
fn finished_commands_are_reported_until_delivered() {
    let mut database = Database::new();
    let id = database.create_command_job(42, "ls", "/", 1).unwrap();
    assert!(finished_jobs(&database).is_empty());
    database
        .complete_command_job(&id, "completed", "exit code: 0", Some(0))
        .unwrap();
    assert!(!database
        .complete_command_job(&id, "failed", "", None)
        .unwrap());
    let notices = finished_jobs(&database);
    assert_eq!(notices.len(), 1);
    assert!(notices[0].messages[0].starts_with("Background command finished:\n"));
    settle_notice(&mut database, &id, false);
    assert_eq!(finished_jobs(&database).len(), 1);
    settle_notice(&mut database, &id, true);
    assert!(finished_jobs(&database).is_empty());

    let running = database.create_command_job(42, "ls", "/", 1).unwrap();
    assert_eq!(database.fail_interrupted_command_jobs(), 1);
    assert!(!database.cancel_command_job(&running));
}

#[test]
fn a_reminder_that_fails_is_over() {
    let mut database = Database::new();
    let id = database
        .create_scheduled_task(42, "ping", 0, Some(600))
        .unwrap();
    let task = database.claim_due_scheduled_tasks(10).remove(0);
    assert!(run_notice(&database, &task, &None).is_none());
    settle_task(&mut database, &task, &None);
    assert_eq!(database.list_scheduled_tasks(42)[0].run_at, 600);
    let task = database.claim_due_scheduled_tasks(700).remove(0);
    assert_eq!(task.id, id);
    let error = Some("boom".to_owned());
    let notice = run_notice(&database, &task, &error).unwrap();
    settle_task(&mut database, &task, &error);
    assert!(notice.text.contains("Error: boom"), "{notice:?}");
    assert!(notice.text.contains("will not be retried"), "{notice:?}");
    assert!(database.list_scheduled_tasks(42).is_empty());
}

#[test]
fn settings_are_edited() {
    let mut config = config();
    assert!(matches!(set_rtk(&mut config, "maybe"), Edit::Rejected(_)));
    assert!(matches!(switch_model(&mut config, "a"), Edit::Rejected(_)));
    assert!(matches!(
        switch_provider(&mut config, "x"),
        Edit::Rejected(_)
    ));
    config.provider = Some(provider("x"));
    assert!(matches!(switch_model(&mut config, "zzz"), Edit::Rejected(_)));
    let edit = switch_model(&mut config, "b");
    assert_eq!(edit_reply(edit, true), "Switched to b.");
    assert_eq!(config.provider().unwrap().active_model, "b");
    assert!(matches!(
        set_context_window(&mut config, "many"),
        Edit::Rejected(_)
    ));
    assert!(matches!(
        set_context_window(&mut config, "3_999"),
        Edit::Rejected(_)
    ));
    let listing = vec![ModelInfo {
        id: "c".to_owned(),
        context_window: None,
    }];
    let reply = edit_reply(refresh_models(&mut config, listing), false);
    assert!(reply.contains("1 model(s)"), "{reply}");
    assert!(reply.contains("no longer offered"), "{reply}");
    assert!(reply.contains("could not save"), "{reply}");
    assert!(models_message(&config).contains('c'));
    assert!(!providers_message(&config).is_empty());
}

#[test]
fn storage_refuses_what_does_not_fit() {
    assert_eq!(migrations_from(0).unwrap().len() as i64, CURRENT_VERSION);
    assert!(migrations_from(CURRENT_VERSION).unwrap().is_empty());
    let mut database = Database::new();
    let big = Usage {
        prompt_tokens: u64::MAX,
        completion_tokens: 0,
        total_tokens: 0,
    };
    let turn = vec![Message::user("hi")];
    assert_eq!(
        database.save_turn(42, "m", &turn, &big, "stop"),
        Err(StorageError::TokenCount)
    );
    assert_eq!(
        database.compact_active_session(42, "s", 1),
        Err(StorageError::NoActiveSession)
    );
    let id = database
        .save_turn(42, "m", &turn, &Usage::default(), "stop")
        .unwrap();
    assert_eq!(
        database.compact_active_session(42, "s", 0),
        Err(StorageError::NothingToSummarize)
    );
    assert_eq!(
        database.compact_active_session(42, "s", 2),
        Err(StorageError::TooFewMessages)
    );
    assert_eq!(
        database.set_active_session(42, "nope"),
        Err(StorageError::UnknownSession)
    );
    assert_eq!(
        database.complete_command_job("x", "odd", "", None),
        Ok(false)
    );
    let job = database.create_command_job(42, "ls", "/", 1).unwrap();
    assert_eq!(
        database.complete_command_job(&job, "odd", "", None),
        Err(StorageError::InvalidStatus)
    );
    let task = database.create_scheduled_task(42, "x", 0, None).unwrap();
    assert_eq!(
        database.insert_scheduled_task(&task, 42, "x", 0, None),
        Err(StorageError::DuplicateId)
    );
    assert_eq!(
        database.complete_scheduled_task(&task, "odd"),
        Err(StorageError::InvalidStatus)
    );
    database.memory.next_id = i64::MAX;
    assert_eq!(database.remember("x"), Err(StorageError::Full));
    assert_eq!(database.forget("x"), MemoryMatch::NoMatch);
    assert!(!StorageError::Full.message().is_empty());
    assert!(database.find_session_by_prefix(42, &id.to_uppercase()[..8]).is_some());
    assert_eq!(
        database.list_audit_events(42, usize::MAX).unwrap_err(),
        StorageError::Limit
    );
}

#[test]
fn tool_arguments_are_read() {
    let arguments = parse_command_arguments(r#"{"command":" ls "}"#).unwrap();
    assert!(!arguments.background);
    assert!(parse_command_arguments(r#"{"command":" "}"#).is_err());
    assert!(parse_command_arguments(r#"{"command":"ls","background":"yes"}"#).is_err());
    assert_eq!(parse_job_id(r#"{"id":" ab "}"#).unwrap(), "ab");
    assert!(parse_job_id("{}").is_err());
    assert_eq!(check_relative(true).unwrap_err(), "path must be relative to the workspace");
    assert!(check_relative(false).is_ok());
    let parts = |names: &[&str]| names.iter().map(|name| name.to_string()).collect::<Vec<_>>();
    let root = parts(&["C:", "\\", "w"]);
    assert!(check_inside(&parts(&["C:", "\\", "w", "a.txt"]), &root).is_ok());
    assert!(check_inside(&root, &root).is_ok());
    assert!(check_inside(&parts(&["C:", "\\", "w2", "a.txt"]), &root).is_err());
    assert!(check_inside(&parts(&["C:", "\\"]), &root).is_err());
    assert!(check_file("x", false, 0).unwrap_err().contains("not a file"));
    assert!(check_file("x", true, 65_537).unwrap_err().contains("64 KiB"));
}

#[test]
fn reminders_are_bounded() {
    let now = Instant {
        seconds: 1_700_000_000,
        nanos: 0,
    };
    let set = |database: &mut Database, id: &str, run_at: &str| {
        let value = Json::object()
            .with("prompt", Json::text("ping"))
            .with("run_at", Json::text(run_at));
        schedule_task_at(database, "UTC", id, now, 42, &Ok(value))
    };
    let mut database = Database::new();
    assert!(set(&mut database, "a", "2023-11-14T22:13:19Z").is_err());
    assert!(set(&mut database, "a", "2024-11-14T22:13:20Z").is_ok());
    assert!(set(&mut database, "b", "2024-11-14T22:13:21Z").is_err());
    assert!(set(&mut database, "b", "2023-11-14T23:13:19+01:00").is_err());
    let reply = set(&mut database, "c-long-id-x", "2023-11-14T23:13:21+01:00").unwrap();
    assert!(reply.contains("2023-11-14 22:13 UTC (UTC)"), "{reply}");
    assert_eq!(database.list_scheduled_tasks(42)[0].run_at, 1_700_000_001);
}

#[test]
fn ends_of_commands() {
    assert_eq!(
        format_command_output(&finished(Some(0), b"out", b"err\xff")),
        "exit code: 0\nstdout:\nout\nstderr:\nerr\u{fffd}"
    );
    assert!(reply_to_command(&RunOutcome::TimedOut)
        .unwrap()
        .contains("timed out after 30 seconds"));
    assert!(reply_to_command(&RunOutcome::Failed("no".to_owned()))
        .unwrap_err()
        .contains("failed to run the command: no"));
    assert!(reply_to_delegation(&RunOutcome::TimedOut)
        .unwrap()
        .contains("kamui timed out after 300 seconds"));
    assert_eq!(rewritten("ls", None), "ls");
    assert_eq!(
        rewritten("ls", Some(&finished(Some(0), b" rtk ls\n", b""))),
        "rtk ls"
    );
    assert_eq!(
        rewritten("ls", Some(&finished(Some(1), b"rtk ls", b""))),
        "ls"
    );
    let mut database = Database::new();
    let id = database.create_command_job(42, "ls", "/", 7).unwrap();
    assert!(finish_stop(&mut database, 1, &id, 7, Some(false))
        .unwrap_err()
        .contains("could not stop process 7"));
    assert!(finish_stop(&mut database, 1, &id, 7, None)
        .unwrap()
        .contains("already exited"));
    let table = vec![(7, None), (8, Some(7)), (9, Some(8)), (10, Some(1))];
    let mut tree = descendants(&table, 7);
    tree.sort();
    assert_eq!(tree, vec![8, 9]);
    assert!(any_alive(&vec![1, 9], 7, &tree));
    assert!(!any_alive(&vec![1, 10], 7, &tree));
}

#[test]
fn unknown_tools_are_refused() {
    let mut database = Database::new();
    let tools = ToolRegistry::new("/w".to_owned(), Vec::new(), "UTC".to_owned());
    match tools.dispatch(&mut database, 42, &call("fly", "{}")) {
        ToolStep::Reply(text) => assert_eq!(text, "Error: unknown tool 'fly'"),
        other => panic!("{other:?}"),
    }
    let has_kamui = |tools: &ToolRegistry| {
        tools
            .definitions()
            .iter()
            .any(|definition| definition.name == "delegate_to_kamui")
    };
    assert!(!has_kamui(&tools));
    assert!(has_kamui(&tools.with_coding_agent(true)));
}

#[test]
fn exactly_unicode_white_space_is_trimmed() {
    let mut trimmed_away: Vec<u32> = Vec::new();
    for code in 0..=0x10ffff_u32 {
        if let Some(c) = char::from_u32(code) {
            if trimmed(&c.to_string()).is_empty() {
                trimmed_away.push(code);
            }
        }
    }
    let mut expected: Vec<u32> = (0x09..=0x0d).collect();
    expected.extend([0x20, 0x85, 0xa0, 0x1680]);
    expected.extend(0x2000..=0x200a);
    expected.extend([0x2028, 0x2029, 0x202f, 0x205f, 0x3000]);
    assert_eq!(trimmed_away, expected);
}

#[test]
fn a_short_id_is_its_first_eight_bytes() {
    assert_eq!(shorten("0123456789"), "01234567");
    assert_eq!(shorten("éééééééé"), "éééé");
    // A character that byte eight falls into is left out.
    assert_eq!(shorten("a日日日"), "a日日");
    assert_eq!(shorten("abc"), "abc");
}

#[test]
fn stopping_waits_ten_seconds_at_most() {
    assert_eq!(stop_step(200, false), StopStep::Stopped);
    assert_eq!(stop_step(9_999, true), StopStep::Wait);
    assert_eq!(stop_step(10_000, true), StopStep::Kill);
    assert_eq!(stop_step(10_000, false), StopStep::Stopped);
}

#[test]
fn a_leap_second_lies_before_the_second_behind_it() {
    let at = |seconds: i64, nanos: u32| Instant { seconds, nanos };
    let leap = at(1_483_228_799, 1_500_000_000);
    assert!(is_earlier(leap, at(1_483_228_800, 200_000_000)));
    assert!(is_earlier(at(1_483_228_799, 999_999_999), leap));
    assert!(!is_earlier(leap, leap));

    // The same as `chrono` counts.
    let date = |at: Instant| chrono::DateTime::from_timestamp(at.seconds, at.nanos).unwrap();
    let points = [
        leap,
        at(1_483_228_799, 0),
        at(1_483_228_800, 200_000_000),
        at(1_483_228_739, 1_250_000_000),
        at(1_483_142_399, 1_000_000_000),
        at(1_483_300_000, 7),
        at(-1, 999_999_999),
        at(-86_401, 1_100_000_000),
    ];
    for from in points {
        for to in points {
            let counted = date(to).signed_duration_since(date(from));
            let nanos = i128::from(counted.num_seconds()) * 1_000_000_000
                + i128::from(counted.subsec_nanos());
            assert_eq!(nanos_from(from, to), nanos, "{from:?} {to:?}");
            assert_eq!(is_earlier(from, to), date(from) < date(to), "{from:?} {to:?}");
        }
    }
}
