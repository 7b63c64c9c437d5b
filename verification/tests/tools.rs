use kumo::json::{print, Json};
use kumo::provider::ToolCall;
use kumo::storage::Database;
use kumo::tools::arguments::parse_task;
use kumo::tools::facts::MAX_MEMORY_BYTES;
use kumo::tools::output::{
    ambiguous_memory_error, format_background_timeout, summarize_kamui_output, truncate_utf8,
    ProcessOutput, MAX_AMBIGUOUS_FACT_CHARS, MAX_COMMAND_OUTPUT,
};
use kumo::tools::reminders::MAX_PENDING_TASKS;
use kumo::tools::workspace::{check_file, check_inside, check_relative, list_entries};
use kumo::tools::{
    background_started, finish_stop, job_result, reply_to_command, tell, BackgroundOutcome,
    ExternalTool, RunOutcome, ToolRegistry, ToolStep, BACKGROUND_MAX,
};

fn registry(extra: Vec<ExternalTool>) -> ToolRegistry {
    ToolRegistry::new("/work".to_owned(), extra, "UTC".to_owned())
}

fn call(name: &str, arguments: &str) -> ToolCall {
    ToolCall {
        id: "1".into(),
        name: name.into(),
        arguments: arguments.into(),
    }
}

fn object(fields: &[(&str, &str)]) -> String {
    let mut json = Json::object();
    for (key, value) in fields {
        json = json.with(key, Json::text(value));
    }
    print(&json)
}

/// The answer of a tool that needs nothing from the host.
fn answer(tools: &ToolRegistry, database: &mut Database, chat: i64, call: &ToolCall) -> String {
    match tools.dispatch(database, chat, call) {
        ToolStep::Reply(text) => text,
        other => panic!("not answered at once: {other:?}"),
    }
}

fn output(code: i32, stdout: &str, stderr: &str) -> ProcessOutput {
    ProcessOutput {
        code: Some(code),
        stdout: stdout.as_bytes().to_vec(),
        stderr: stderr.as_bytes().to_vec(),
    }
}

fn parts(names: &[&str]) -> Vec<String> {
    names.iter().map(|name| name.to_string()).collect()
}

#[test]
fn reads_and_lists_workspace_content() {
    let mut database = Database::new();
    let tools = registry(Vec::new());

    match tools.dispatch(
        &mut database,
        42,
        &call("read_file", r#"{"path":"hello.txt"}"#),
    ) {
        ToolStep::ReadFile(path) => {
            assert_eq!(path, "hello.txt");
            assert!(check_relative(false).is_ok());
            assert!(check_inside(&parts(&["/", "work", "hello.txt"]), &parts(&["/", "work"])).is_ok());
            assert!(check_file(&path, true, 5).is_ok());
        }
        other => panic!("not a read: {other:?}"),
    }
    match tools.dispatch(&mut database, 42, &call("list_directory", r#"{"path":"."}"#)) {
        ToolStep::ListDirectory(path) => assert_eq!(path, "."),
        other => panic!("not a listing: {other:?}"),
    }
    assert!(list_entries(&vec![("hello.txt".to_owned(), false)]).contains("hello.txt"));
}

#[test]
fn uses_a_chat_specific_workspace_override() {
    let mut database = Database::new();
    database.set_workspace_for_chat(42, "/elsewhere");
    let tools = registry(Vec::new());

    assert_eq!(tools.root_for(&database, 42), "/elsewhere");
    assert_eq!(tools.root_for(&database, 99), "/work");
}

#[test]
fn read_only_dispatch_rejects_commands() {
    let tools = registry(Vec::new());
    let output = tools.refuse_read_only("run_command").unwrap();
    assert!(output.contains("not available to the read-only sub-agent"));
}

#[test]
fn background_command_finishes_and_persists_output() {
    let mut database = Database::new();
    let tools = registry(Vec::new());
    match tools.dispatch(
        &mut database,
        42,
        &call(
            "run_command",
            r#"{"command":"printf background-ok","background":true}"#,
        ),
    ) {
        ToolStep::RunCommand(arguments) => {
            assert_eq!(arguments.command, "printf background-ok");
            assert!(arguments.background);
        }
        other => panic!("not a command: {other:?}"),
    }
    let id = database
        .create_command_job(42, "printf background-ok", "/work", 123)
        .unwrap();
    assert!(background_started(&id, 123).contains("background job started"));

    let result = job_result(
        1800,
        BackgroundOutcome::Finished(output(0, "background-ok", "")),
    );
    database
        .complete_command_job(&id, &result.status, &result.output, result.exit_code)
        .unwrap();
    let job = database.list_command_jobs(42, 1).unwrap()[0].clone();
    assert_eq!(job.status, "completed");
    assert!(job.output.unwrap().contains("background-ok"));
}

#[test]
fn stop_command_cancels_a_running_background_job() {
    let mut database = Database::new();
    let tools = registry(Vec::new());
    let id = database
        .create_command_job(42, "sleep 5", "/work", 123)
        .unwrap();
    let (id, pid) = match tools.dispatch(
        &mut database,
        42,
        &call("stop_command", &object(&[("id", &id[..8])])),
    ) {
        ToolStep::StopJob { id, pid } => (id, pid),
        other => panic!("nothing to stop: {other:?}"),
    };
    assert_eq!(pid, 123);
    let output = tell(finish_stop(&mut database, 1000, &id, pid, Some(true)));
    assert!(output.contains("stopped background job"));
    let job = database.find_command_job(42, &id[..8]).unwrap();
    assert_eq!(job.status, "cancelled");
}

/// A job that runs past the ceiling gets a status of its own, and never `cancelled`: the owner
/// did not stop it, and running out of time is not the same as exiting non-zero.
#[test]
fn background_job_is_terminated_when_it_exceeds_the_ceiling() {
    let mut database = Database::new();
    let tools = registry(Vec::new()).with_background_max(1);
    let id = database
        .create_command_job(42, "sleep 20", "/work", 123)
        .unwrap();

    let result = job_result(
        tools.background_max,
        BackgroundOutcome::TimedOut {
            killed: Some(true),
            drained: None,
        },
    );
    database
        .complete_command_job(&id, &result.status, &result.output, result.exit_code)
        .unwrap();
    let job = database.list_command_jobs(42, 1).unwrap()[0].clone();

    assert_eq!(job.status, "timed_out");
    let output = job.output.expect("a terminated job records why it ended");
    assert!(
        output.contains("exceeded the 1-second limit and was terminated"),
        "the row has to say what happened, got: {output}"
    );
    assert!(
        !output.contains("still alive after the kill"),
        "the process tree was not confirmed gone: {output}"
    );
}

/// A job that reaches the ceiling still gets to keep what it printed on the way there.
#[test]
fn a_terminated_job_keeps_the_output_it_produced() {
    let result = job_result(
        1,
        BackgroundOutcome::TimedOut {
            killed: Some(true),
            drained: Some(output(0, "before-the-ceiling", "")),
        },
    );
    let output = result.output;
    assert!(output.contains("was terminated"), "got: {output}");
    assert!(output.contains("before-the-ceiling"), "got: {output}");
}

/// The default is the whole guarantee for a gateway that never exits, so it is worth pinning:
/// a silent change to it would only show up as a runaway nobody collected.
#[test]
fn background_ceiling_defaults_to_half_an_hour() {
    assert_eq!(BACKGROUND_MAX, 1800);
    let tools = registry(Vec::new());
    assert_eq!(tools.background_max, BACKGROUND_MAX);

    // The model is told the bound exists, so it does not reach for `background: true` as a way
    // around every limit.
    let run_command = tools
        .definitions()
        .into_iter()
        .find(|definition| definition.name == "run_command")
        .expect("run_command is always defined");
    let background = run_command
        .parameters
        .field("properties")
        .unwrap()
        .field("background")
        .unwrap()
        .text_field("description")
        .unwrap();
    assert!(
        background.contains("terminated if it is still running after 1800 seconds"),
        "got: {background}"
    );
}

#[test]
fn a_timed_out_job_reports_an_unconfirmed_kill() {
    let confirmed = format_background_timeout(1800, Some(true), None);
    assert!(confirmed.contains("exceeded the 1800-second limit and was terminated"));
    assert!(!confirmed.contains("still alive after the kill"));

    // Already gone by the time the ceiling fired: nothing to warn about.
    let vanished = format_background_timeout(1800, None, None);
    assert!(!vanished.contains("still alive after the kill"));

    // Confirmation gave up with something still running — the one case the owner has to act on.
    let survived = format_background_timeout(1800, Some(false), None);
    assert!(survived.contains("still alive after the kill"));
}

#[test]
fn rejects_paths_outside_workspace() {
    let mut database = Database::new();
    let tools = registry(Vec::new());
    match tools.dispatch(
        &mut database,
        42,
        &call("read_file", r#"{"path":"../kumo-outside.txt"}"#),
    ) {
        ToolStep::ReadFile(path) => assert_eq!(path, "../kumo-outside.txt"),
        other => panic!("not a read: {other:?}"),
    }
    let output = check_inside(&parts(&["/", "kumo-outside.txt"]), &parts(&["/", "work"])).unwrap_err();
    assert!(output.contains("escapes the configured workspace"));
}

#[test]
fn runs_commands_in_workspace() {
    let mut database = Database::new();
    let tools = registry(Vec::new());
    match tools.dispatch(
        &mut database,
        42,
        &call("run_command", r#"{"command":"cat hello.txt"}"#),
    ) {
        ToolStep::RunCommand(arguments) => {
            assert_eq!(arguments.command, "cat hello.txt");
            assert!(!arguments.background);
        }
        other => panic!("not a command: {other:?}"),
    }
    let output = tell(reply_to_command(&RunOutcome::Finished(output(
        0, "hello", "",
    ))));

    assert!(output.starts_with("exit code: 0"));
    assert!(output.contains("hello"));
}

#[test]
fn truncates_command_output_on_utf8_boundaries() {
    let value = format!("{}é", "a".repeat(MAX_COMMAND_OUTPUT));
    let output = truncate_utf8(value, MAX_COMMAND_OUTPUT + 1);

    assert!(output.ends_with("... output truncated"));
    assert!(output.is_char_boundary(MAX_COMMAND_OUTPUT));
}

#[test]
fn routes_external_tools_through_shared_policy() {
    let mut database = Database::new();
    let tools = registry(vec![ExternalTool {
        name: "fake__ping".into(),
        description: "Fake".into(),
        parameters: Json::object(),
        requires_confirmation: true,
        label: "Fake".into(),
    }]);
    let call = call("fake__ping", "{}");

    assert!(
        tools
            .definitions()
            .iter()
            .any(|tool| tool.name == call.name)
    );
    assert!(tools.requires_confirmation(&call.name));
    assert_eq!(tools.preview(&call).as_deref(), Some("Fake {}"));
    match tools.dispatch(&mut database, 42, &call) {
        ToolStep::External(position) => assert_eq!(position, 0),
        other => panic!("not routed: {other:?}"),
    }
}


#[test]
fn parse_task_rejects_empty_or_blank_input() {
    assert!(parse_task(r#"{"task":""}"#).is_err());
    assert!(parse_task(r#"{"task":"   "}"#).is_err());
    assert!(parse_task("not json").is_err());
}

#[test]
fn parse_task_trims_and_returns_the_task() {
    assert_eq!(
        parse_task(r#"{"task":"  add a test  "}"#).unwrap(),
        "add a test"
    );
}

#[test]
fn delegate_to_kamui_always_requires_confirmation() {
    let tools = registry(Vec::new());
    assert!(tools.requires_confirmation("delegate_to_kamui"));
}

#[test]
fn delegate_to_kamui_preview_shows_the_task() {
    let tools = registry(Vec::new());
    let call = call("delegate_to_kamui", r#"{"task":"fix the failing test"}"#);

    assert_eq!(
        tools.preview(&call).as_deref(),
        Some("Kamui task: fix the failing test")
    );
}

#[test]
fn delegate_to_kamui_rejects_a_blank_task_before_spawning_kamui() {
    let mut database = Database::new();
    // Whether `kamui` is actually installed on the machine running the suite varies, so this
    // only exercises the argument-validation path shared with parse_task, which runs before
    // any process is spawned and is deterministic either way.
    let tools = registry(Vec::new());
    let call = call("delegate_to_kamui", r#"{"task":""}"#);

    assert!(answer(&tools, &mut database, 42, &call).starts_with("Error:"));
}

#[test]
fn schedule_task_never_requires_confirmation() {
    let tools = registry(Vec::new());
    assert!(!tools.requires_confirmation("schedule_task"));
}

fn schedule_call(prompt: &str, run_at: &str, repeat: Option<i64>) -> ToolCall {
    let mut arguments = Json::object()
        .with("prompt", Json::text(prompt))
        .with("run_at", Json::text(run_at));
    if let Some(repeat) = repeat {
        arguments = arguments.with("repeat_interval_seconds", Json::Number(repeat.to_string()));
    }
    call("schedule_task", &print(&arguments))
}

fn soon() -> String {
    (chrono::Utc::now() + chrono::Duration::hours(1)).to_rfc3339()
}

#[test]
fn a_reminder_can_be_listed_and_cancelled_by_the_model() {
    let mut database = Database::new();
    let tools = registry(Vec::new());
    answer(&tools, &mut database, 42, &schedule_call("ping", &soon(), Some(3600)));

    let listed = answer(&tools, &mut database, 42, &call("list_scheduled_tasks", "{}"));
    assert!(listed.contains("ping"), "{listed}");
    assert!(listed.contains("repeats every 3600s"), "{listed}");

    let id = listed.split(':').next().unwrap().to_owned();
    let cancelled = answer(&tools, &mut database, 42, &call("cancel_scheduled_task", &object(&[("id", &id)])));
    assert!(cancelled.starts_with("cancelled"), "{cancelled}");

    let after = answer(&tools, &mut database, 42, &call("list_scheduled_tasks", "{}"));
    assert_eq!(after, "no pending scheduled tasks");
}

#[test]
fn cancelling_is_scoped_to_the_asking_chat() {
    let mut database = Database::new();
    let tools = registry(Vec::new());
    answer(&tools, &mut database, 42, &schedule_call("mine", &soon(), None));

    // Another chat must not see it, nor be able to cancel it by guessing a prefix.
    let listed = answer(&tools, &mut database, 99, &call("list_scheduled_tasks", "{}"));
    assert_eq!(listed, "no pending scheduled tasks");
}

#[test]
fn a_per_minute_repeat_is_refused() {
    let mut database = Database::new();
    let tools = registry(Vec::new());

    let output = answer(&tools, &mut database, 42, &schedule_call("spam", &soon(), Some(60)));

    assert!(output.starts_with("Error:"), "{output}");
    assert!(output.contains("at least 300 seconds"), "{output}");
}

#[test]
fn a_chat_cannot_pile_up_unbounded_pending_tasks() {
    let mut database = Database::new();
    let tools = registry(Vec::new());
    for _ in 0..MAX_PENDING_TASKS {
        let output = answer(&tools, &mut database, 42, &schedule_call("ping", &soon(), None));
        assert!(output.starts_with("scheduled"), "{output}");
    }

    let output = answer(&tools, &mut database, 42, &schedule_call("one too many", &soon(), None));
    assert!(output.starts_with("Error:"), "{output}");
    assert!(output.contains("cancel_scheduled_task"), "{output}");
}

#[test]
fn schedule_task_rejects_an_invalid_timestamp() {
    let mut database = Database::new();
    let tools = registry(Vec::new());
    let call = call("schedule_task", r#"{"prompt":"ping","run_at":"not a date"}"#);

    assert!(answer(&tools, &mut database, 42, &call).starts_with("Error:"));
}

#[test]
fn schedule_task_rejects_a_time_in_the_past() {
    let mut database = Database::new();
    let tools = registry(Vec::new());
    let call = call("schedule_task", r#"{"prompt":"ping","run_at":"2000-01-01T00:00:00+00:00"}"#);

    let output = answer(&tools, &mut database, 42, &call);
    assert!(output.starts_with("Error:"), "{output}");
    assert!(output.contains("past"));
}

#[test]
fn schedule_task_rejects_a_time_too_far_in_the_future() {
    let mut database = Database::new();
    let tools = registry(Vec::new());
    let call = call("schedule_task", r#"{"prompt":"ping","run_at":"2099-01-01T00:00:00+00:00"}"#);

    let output = answer(&tools, &mut database, 42, &call);
    assert!(output.starts_with("Error:"), "{output}");
}

#[test]
fn schedule_task_persists_a_valid_future_task() {
    let mut database = Database::new();
    let tools = registry(Vec::new());
    let next_year = chrono::Utc::now() + chrono::Duration::days(30);
    let run_at = next_year.to_rfc3339();
    let call = call("schedule_task", &object(&[("prompt", "check the weather"), ("run_at", &run_at)]));

    let output = answer(&tools, &mut database, 42, &call);
    assert!(output.starts_with("scheduled ("), "{output}");

    let due = database
        .claim_due_scheduled_tasks(next_year.timestamp() + 1);
    assert_eq!(due.len(), 1);
    assert_eq!(due[0].prompt, "check the weather");
    assert_eq!(due[0].telegram_chat_id, 42);
}

#[test]
fn schedule_task_persists_a_repeat_interval() {
    let mut database = Database::new();
    let tools = registry(Vec::new());
    let next_year = chrono::Utc::now() + chrono::Duration::days(30);
    let call = schedule_call("daily standup reminder", &next_year.to_rfc3339(), Some(86400));

    let output = answer(&tools, &mut database, 42, &call);
    assert!(output.contains("repeating every 86400 seconds"), "{output}");

    let due = database
        .claim_due_scheduled_tasks(next_year.timestamp() + 1);
    assert_eq!(due[0].repeat_interval_seconds, Some(86400));
}

#[test]
fn schedule_task_rejects_a_repeat_interval_below_the_minimum() {
    let mut database = Database::new();
    let tools = registry(Vec::new());
    let next_year = chrono::Utc::now() + chrono::Duration::days(30);
    let call = schedule_call("spam every second", &next_year.to_rfc3339(), Some(1));

    let output = answer(&tools, &mut database, 42, &call);
    assert!(output.starts_with("Error:"), "{output}");
}

#[test]
fn memory_tools_never_require_confirmation() {
    let tools = registry(Vec::new());
    assert!(!tools.requires_confirmation("remember"));
    assert!(!tools.requires_confirmation("update_memory"));
    assert!(!tools.requires_confirmation("forget"));
}

#[test]
fn remember_persists_a_fact() {
    let mut database = Database::new();
    let tools = registry(Vec::new());

    let output = answer(&tools, &mut database, 42, &call(
                "remember",
                &object(&[("fact", "The user is a researcher.")]),
            ));

    assert!(output.starts_with("remembered:"), "{output}");
    let entries = database.list_memory();
    assert_eq!(entries.len(), 1);
    assert_eq!(entries[0].content, "The user is a researcher.");
}

#[test]
fn remember_rejects_a_blank_fact() {
    let mut database = Database::new();
    let tools = registry(Vec::new());
    let output = answer(&tools, &mut database, 42, &call("remember", &object(&[("fact", "  ")])));
    assert!(output.starts_with("Error:"), "{output}");
}

#[test]
fn remember_refuses_once_the_memory_cap_is_reached() {
    let mut database = Database::new();
    let tools = registry(Vec::new());
    database
        .remember(&"x".repeat(MAX_MEMORY_BYTES as usize))
        .unwrap();

    let output = answer(&tools, &mut database, 42, &call("remember", &object(&[("fact", "one more")])));

    assert!(
        output.starts_with("Error:") && output.contains("full"),
        "{output}"
    );
}

#[test]
fn update_memory_replaces_a_matched_fact() {
    let mut database = Database::new();
    let tools = registry(Vec::new());
    database
        .remember("The user is a researcher.")
        .unwrap();

    let output = answer(&tools, &mut database, 42, &call(
                "update_memory",
                &object(&[("matching", "is a researcher"), ("fact", "is a software engineer.")]),
            ));

    assert!(output.starts_with("updated memory"), "{output}");
    let entries = database.list_memory();
    assert_eq!(entries[0].content, "is a software engineer.");
}

#[test]
fn update_memory_reports_an_error_when_nothing_matches() {
    let mut database = Database::new();
    let tools = registry(Vec::new());
    let output = answer(&tools, &mut database, 42, &call(
                "update_memory",
                &object(&[("matching", "nonexistent"), ("fact", "x")]),
            ));
    assert!(output.starts_with("Error:"), "{output}");
}

#[test]
fn update_memory_names_the_facts_an_ambiguous_substring_matched() {
    let mut database = Database::new();
    let tools = registry(Vec::new());
    database.remember("The user likes tea.").unwrap();
    database.remember("The user likes coffee.").unwrap();

    let output = answer(&tools, &mut database, 42, &call(
                "update_memory",
                &object(&[("matching", "The user likes"), ("fact", "x")]),
            ));

    assert!(output.starts_with("Error:"), "{output}");
    assert!(output.contains("The user likes tea."), "{output}");
    assert!(output.contains("The user likes coffee."), "{output}");
    // The model needs enough to retry, and neither entry may be modified meanwhile.
    assert_eq!(database.list_memory().len(), 2);
}

#[test]
fn an_ambiguous_match_lists_a_bounded_number_of_facts() {
    let entries: Vec<String> = (0..9).map(|index| format!("fact number {index}")).collect();

    let message = ambiguous_memory_error("fact", &entries);

    assert!(message.contains("matches 9 remembered facts"), "{message}");
    assert!(message.contains("fact number 4"), "{message}");
    assert!(!message.contains("fact number 5"), "{message}");
    assert!(message.contains("...and 4 more"), "{message}");
}

#[test]
fn a_long_fact_is_truncated_in_an_ambiguous_match() {
    let long = "x".repeat(MAX_AMBIGUOUS_FACT_CHARS + 50);

    let message = ambiguous_memory_error("x", &vec![long, "short".to_owned()]);

    assert!(message.contains(&format!("{}...", "x".repeat(MAX_AMBIGUOUS_FACT_CHARS))));
    assert!(!message.contains(&"x".repeat(MAX_AMBIGUOUS_FACT_CHARS + 1)));
}

#[test]
fn forget_removes_a_matched_fact() {
    let mut database = Database::new();
    let tools = registry(Vec::new());
    database
        .remember("The user is a researcher.")
        .unwrap();

    let output = answer(&tools, &mut database, 42, &call("forget", &object(&[("matching", "researcher")])));

    assert!(output.starts_with("forgot"), "{output}");
    assert!(database.list_memory().is_empty());
}

#[test]
fn forget_reports_an_error_when_nothing_matches() {
    let mut database = Database::new();
    let tools = registry(Vec::new());
    let output = answer(&tools, &mut database, 42, &call("forget", &object(&[("matching", "nonexistent")])));
    assert!(output.starts_with("Error:"), "{output}");
}

#[test]
fn summarizes_a_clean_run_with_no_tool_calls_as_just_the_answer() {
    let output = output(0, "\nThe answer is 42.", "");
    assert_eq!(summarize_kamui_output(&output), "The answer is 42.");
}

#[test]
fn summarizes_a_clean_run_with_tool_calls() {
    let stdout =
        "  \u{2192} read_file(src/main.rs)\n    ok (120 chars)\n\nDone reading the file.";
    let output = output(0, stdout, "");
    let summary = summarize_kamui_output(&output);
    assert!(
        summary.starts_with("(1 tool call(s), 0 error(s))\n"),
        "{summary}"
    );
    assert!(summary.ends_with("Done reading the file."), "{summary}");
}

#[test]
fn summarizes_a_run_with_a_tool_error() {
    let stdout = "  \u{2192} run_command(false)\n    ! exit code 1\n\nThe command failed.";
    let output = output(0, stdout, "");
    let summary = summarize_kamui_output(&output);
    assert!(
        summary.starts_with("(1 tool call(s), 1 error(s))\n"),
        "{summary}"
    );
}

#[test]
fn summarizes_a_nonzero_exit() {
    let output = output(1, "  \u{2192} run_command(false)\n    ! exit code 1", "");
    let summary = summarize_kamui_output(&output);
    assert!(
        summary.starts_with("(kamui exited with code 1, 1 tool call(s))\n"),
        "{summary}"
    );
    assert!(summary.contains("Error: kamui produced no answer."));
}

#[test]
fn falls_back_to_stderr_when_there_is_no_answer() {
    let output = output(1, "", "panicked at src/main.rs:1");
    let summary = summarize_kamui_output(&output);
    assert!(summary.contains("Error: kamui produced no answer."));
    assert!(summary.contains("panicked at src/main.rs:1"));
}
