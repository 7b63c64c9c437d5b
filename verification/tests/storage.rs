use kumo::provider::{Message, ToolCall, Usage};
use kumo::storage::memory::MemoryMatch;
use kumo::storage::tasks::{next_occurrence, StaleTaskOutcome};
use kumo::storage::{migrations_from, Database};

#[test]
fn creates_sessions_lazily_and_persists_whole_turns() {
    let mut database = Database::new();
    assert!(database.active_session(42).unwrap().is_none());

    database
        .save_turn(
            42,
            "model-a",
            &vec![
                Message::user("read it"),
                Message::tool_request(
                    "",
                    vec![ToolCall {
                        id: "c1".into(),
                        name: "read_file".into(),
                        arguments: r#"{"path":"a.txt"}"#.into(),
                    }],
                ),
                Message::tool_result("c1", "body"),
                Message::assistant("done"),
            ],
            &Usage {
                prompt_tokens: 4,
                completion_tokens: 2,
                total_tokens: 6,
            },
            "stop",
        )
        .unwrap();

    let session = database.active_session(42).unwrap().unwrap();
    assert_eq!(session.message_count, 4);
    assert_eq!(session.request_count, 1);
    assert_eq!(session.total_tokens, 6);
    let messages = database.load_active_history(42).messages;
    assert_eq!(messages[1].tool_calls[0].name, "read_file");
    assert_eq!(messages[2].tool_call_id.as_deref(), Some("c1"));
    assert!(
        messages
            .iter()
            .all(|message| message.role_name() != "system")
    );
}

#[test]
fn new_chat_clears_mapping_without_deleting_history() {
    let mut database = Database::new();
    let first = database
        .save_turn(
            42,
            "model-a",
            &vec![Message::user("first"), Message::assistant("answer")],
            &Usage::default(),
            "stop",
        )
        .unwrap();
    assert!(database.clear_active_session(42));
    assert!(
        database
            .load_active_history(42)
            .messages
            .is_empty()
    );
    let second = database
        .save_turn(
            42,
            "model-a",
            &vec![Message::user("second"), Message::assistant("answer")],
            &Usage::default(),
            "stop",
        )
        .unwrap();

    assert_ne!(first, second);
    let old_count = database.conversations.messages.iter().filter(|row| row.session_id == first).count();
    assert_eq!(old_count, 2);
}

#[test]
fn list_sessions_returns_only_completed_sessions_newest_first_and_scoped_to_chat() {
    let mut database = Database::new();
    let first = database
        .save_turn(
            42,
            "model-a",
            &vec![Message::user("first"), Message::assistant("answer")],
            &Usage::default(),
            "stop",
        )
        .unwrap();
    database.clear_active_session(42);
    let second = database
        .save_turn(
            42,
            "model-a",
            &vec![Message::user("second"), Message::assistant("answer")],
            &Usage::default(),
            "stop",
        )
        .unwrap();
    // A session for a different chat must never leak into chat 42's list.
    database
        .save_turn(
            99,
            "model-a",
            &vec![Message::user("other chat"), Message::assistant("answer")],
            &Usage::default(),
            "stop",
        )
        .unwrap();

    let sessions = database.list_sessions(42);

    assert_eq!(sessions.len(), 2);
    assert_eq!(
        sessions[0].id, second,
        "newest session should be listed first"
    );
    assert_eq!(sessions[1].id, first);
    assert!(sessions.iter().all(|session| session.message_count == 2));
}

#[test]
fn find_session_by_prefix_resolves_an_unambiguous_prefix_scoped_to_chat() {
    let mut database = Database::new();
    let id = database
        .save_turn(
            42,
            "model-a",
            &vec![Message::user("hi"), Message::assistant("hello")],
            &Usage::default(),
            "stop",
        )
        .unwrap();

    assert_eq!(
        database.find_session_by_prefix(42, &id[..8]),
        Some(id.clone())
    );
    // Same prefix, wrong chat: must not resolve.
    assert_eq!(database.find_session_by_prefix(99, &id[..8]), None);
    assert_eq!(database.find_session_by_prefix(42, "nope"), None);
}

#[test]
fn resume_switches_the_active_session_without_deleting_the_previous_one() {
    let mut database = Database::new();
    let first = database
        .save_turn(
            42,
            "model-a",
            &vec![Message::user("first"), Message::assistant("answer")],
            &Usage::default(),
            "stop",
        )
        .unwrap();
    database.clear_active_session(42);
    database
        .save_turn(
            42,
            "model-a",
            &vec![Message::user("second"), Message::assistant("answer")],
            &Usage::default(),
            "stop",
        )
        .unwrap();

    database.set_active_session(42, &first).unwrap();

    assert_eq!(database.active_session(42).unwrap().unwrap().id, first);
    assert_eq!(database.list_sessions(42).len(), 2);
}

#[test]
fn delete_session_removes_it_and_its_messages() {
    let mut database = Database::new();
    let id = database
        .save_turn(
            42,
            "model-a",
            &vec![Message::user("hi"), Message::assistant("hello")],
            &Usage::default(),
            "stop",
        )
        .unwrap();

    database.delete_session(&id);

    assert!(database.list_sessions(42).is_empty());
    assert!(database.active_session(42).unwrap().is_none());
    let message_count = database.conversations.messages.iter().filter(|row| row.session_id == id).count();
    assert_eq!(message_count, 0);
}

#[test]
fn remember_and_list_memory_round_trip_in_insertion_order() {
    let mut database = Database::new();
    database.remember("The user is a researcher.").unwrap();
    database.remember("Prefers concise answers.").unwrap();

    let entries = database.list_memory();

    assert_eq!(entries.len(), 2);
    assert_eq!(entries[0].content, "The user is a researcher.");
    assert_eq!(entries[1].content, "Prefers concise answers.");
}

#[test]
fn total_memory_bytes_sums_all_entries() {
    let mut database = Database::new();
    database.remember("abc").unwrap();
    database.remember("de").unwrap();

    assert_eq!(database.total_memory_bytes(), 5);
}

#[test]
fn update_memory_replaces_an_unambiguous_match() {
    let mut database = Database::new();
    database.remember("The user is a researcher.").unwrap();

    let updated = database
        .update_memory("is a researcher", "is a software engineer.");

    assert!(matches!(updated, MemoryMatch::One(_)));
    let entries = database.list_memory();
    assert_eq!(entries.len(), 1);
    assert_eq!(entries[0].content, "is a software engineer.");
}

#[test]
fn update_memory_distinguishes_no_match_from_an_ambiguous_one() {
    let mut database = Database::new();
    database.remember("The user likes tea.").unwrap();
    database.remember("The user likes coffee.").unwrap();

    assert_eq!(
        database.update_memory("nonexistent", "x"),
        MemoryMatch::NoMatch
    );
    // Both entries contain "The user likes", so this is ambiguous — and the caller is told
    // which entries it collided with, not merely that it failed.
    assert_eq!(
        database.update_memory("The user likes", "x"),
        MemoryMatch::Ambiguous(vec![
            "The user likes tea.".to_owned(),
            "The user likes coffee.".to_owned(),
        ])
    );
    // Neither original entry should have been touched.
    let entries = database.list_memory();
    assert_eq!(entries.len(), 2);
}

#[test]
fn forget_removes_an_unambiguous_match() {
    let mut database = Database::new();
    database.remember("The user is a researcher.").unwrap();
    database.remember("The user likes tea.").unwrap();

    assert!(matches!(
        database.forget("researcher"),
        MemoryMatch::One(_)
    ));

    let entries = database.list_memory();
    assert_eq!(entries.len(), 1);
    assert_eq!(entries[0].content, "The user likes tea.");
}

#[test]
fn forget_distinguishes_no_match_from_an_ambiguous_one() {
    let mut database = Database::new();
    database.remember("The user likes tea.").unwrap();
    database.remember("The user likes coffee.").unwrap();

    assert_eq!(database.forget("nonexistent"), MemoryMatch::NoMatch);
    assert_eq!(
        database.forget("The user likes"),
        MemoryMatch::Ambiguous(vec![
            "The user likes tea.".to_owned(),
            "The user likes coffee.".to_owned(),
        ])
    );
    assert_eq!(database.list_memory().len(), 2);
}

#[test]
fn clear_memory_removes_every_entry_and_reports_the_count() {
    let mut database = Database::new();
    database.remember("one").unwrap();
    database.remember("two").unwrap();

    assert_eq!(database.clear_memory(), 2);
    assert!(database.list_memory().is_empty());
}

#[test]
fn memory_matching_is_case_insensitive_and_escapes_like_wildcards() {
    let mut database = Database::new();
    database.remember("100% sure about this_thing").unwrap();

    // '%' and '_' are SQL LIKE wildcards; a literal search for them must not match everything.
    assert_eq!(database.forget("50%"), MemoryMatch::NoMatch);
    assert!(matches!(
        database.forget("100% SURE"),
        MemoryMatch::One(_)
    ));
}

#[test]
fn rejects_future_database_versions() {
    let error = match migrations_from(99) {
        Ok(_) => panic!("future database version should be rejected"),
        Err(error) => error,
    };
    assert!(error.contains("newer"));
}

#[test]
fn compaction_persists_summary_and_keeps_full_history() {
    let mut database = Database::new();
    let messages = (0..8)
        .map(|index| Message::user(&format!("message {index}")))
        .collect::<Vec<_>>();
    database
        .save_turn(42, "model", &messages, &Usage::default(), "stop")
        .unwrap();

    database.compact_active_session(42, "summary", 2).unwrap();

    let history = database.load_active_history(42);
    assert_eq!(history.summary.as_deref(), Some("summary"));
    assert_eq!(history.messages.len(), 6);
    let full_count = database.conversations.messages.len();
    assert_eq!(full_count, 8);
}

#[test]
fn claim_due_scheduled_tasks_returns_only_pending_tasks_at_or_before_now() {
    let mut database = Database::new();
    let past = database
        .create_scheduled_task(42, "check the weather", 100, None)
        .unwrap();
    let future = database
        .create_scheduled_task(42, "check it later", 1_000_000, None)
        .unwrap();

    let due = database.claim_due_scheduled_tasks(500);

    assert_eq!(due.len(), 1);
    assert_eq!(due[0].id, past);
    assert_eq!(due[0].prompt, "check the weather");
    assert_ne!(due[0].id, future);
}

#[test]
fn claiming_a_task_prevents_it_being_claimed_again() {
    let mut database = Database::new();
    database
        .create_scheduled_task(42, "ping me", 100, None)
        .unwrap();

    let first_claim = database.claim_due_scheduled_tasks(500);
    let second_claim = database.claim_due_scheduled_tasks(500);

    assert_eq!(first_claim.len(), 1);
    assert!(
        second_claim.is_empty(),
        "a claimed (running) task must not be claimed a second time"
    );
}

#[test]
fn completed_tasks_are_not_returned_as_due_again() {
    let mut database = Database::new();
    let id = database
        .create_scheduled_task(42, "ping me", 100, None)
        .unwrap();

    database.complete_scheduled_task(&id, "completed").unwrap();

    assert!(database.claim_due_scheduled_tasks(500).is_empty());
}

#[test]
fn expire_stale_scheduled_tasks_skips_tasks_past_the_grace_period() {
    let mut database = Database::new();
    let stale = database
        .create_scheduled_task(42, "long overdue", 100, None)
        .unwrap();
    let fresh = database
        .create_scheduled_task(42, "just due", 950, None)
        .unwrap();

    // now=1000, stale_after=100: "long overdue" (run_at=100) is 900s late, past the grace
    // period; "just due" (run_at=950) is only 50s late, still within it.
    let expired = database.expire_stale_scheduled_tasks(1000, 100);

    assert_eq!(expired.len(), 1);
    assert_eq!(expired[0].task.id, stale);
    assert_ne!(expired[0].task.id, fresh);
    assert!(matches!(expired[0].outcome, StaleTaskOutcome::Expired));
}

#[test]
fn an_expired_task_is_never_claimed() {
    let mut database = Database::new();
    database
        .create_scheduled_task(42, "long overdue", 100, None)
        .unwrap();

    database.expire_stale_scheduled_tasks(1000, 100);

    assert!(database.claim_due_scheduled_tasks(1000).is_empty());
}

#[test]
fn a_stale_recurring_task_is_rescheduled_instead_of_expired() {
    let mut database = Database::new();
    // Hourly from t=0; Kumo comes back at t=10_000, so the occurrence is ~2.8 hours late.
    let id = database
        .create_scheduled_task(42, "hourly check", 0, Some(3_600))
        .unwrap();

    let stale = database
        .expire_stale_scheduled_tasks(10_000, 3_600);

    assert_eq!(stale.len(), 1);
    match stale[0].outcome {
        StaleTaskOutcome::Rescheduled {
            skipped,
            next_run_at,
        } => {
            assert_eq!(
                skipped, 3,
                "the occurrences at 0, 3600 and 7200 were missed"
            );
            assert_eq!(next_run_at, 10_800);
        }
        StaleTaskOutcome::Expired => {
            panic!("a missed occurrence must not end a recurring task")
        }
    }
    let pending = database.list_scheduled_tasks(42);
    assert_eq!(pending.len(), 1, "the task is still pending, not expired");
    assert_eq!(pending[0].id, id);
    assert_eq!(pending[0].run_at, 10_800, "and has a future occurrence");
}

#[test]
fn a_rescheduled_stale_task_does_not_fire_in_the_same_poll() {
    let mut database = Database::new();
    database
        .create_scheduled_task(42, "hourly check", 0, Some(3_600))
        .unwrap();

    database
        .expire_stale_scheduled_tasks(10_000, 3_600);

    assert!(
        database
            .claim_due_scheduled_tasks(10_000)
            .is_empty(),
        "skipping a missed occurrence must not make the task immediately due"
    );
    assert_eq!(database.claim_due_scheduled_tasks(10_800).len(), 1);
}

#[test]
fn a_rescheduled_task_keeps_its_original_time_of_day() {
    let mut database = Database::new();
    let nine_am = 9 * 3_600;
    database
        .create_scheduled_task(42, "morning check-in", nine_am, Some(86_400))
        .unwrap();

    // Back online at noon two days later.
    let stale = database
        .expire_stale_scheduled_tasks(2 * 86_400 + 12 * 3_600, 3_600);

    match stale[0].outcome {
        StaleTaskOutcome::Rescheduled {
            skipped,
            next_run_at,
        } => {
            assert_eq!(skipped, 3);
            assert_eq!(
                next_run_at,
                3 * 86_400 + nine_am,
                "the next 09:00, not 24 hours from now"
            );
        }
        StaleTaskOutcome::Expired => panic!("a daily reminder must survive a missed day"),
    }
}

#[test]
fn a_stale_sweep_expires_the_one_shot_and_keeps_the_recurring_one() {
    let mut database = Database::new();
    let once = database
        .create_scheduled_task(42, "call the dentist", 0, None)
        .unwrap();
    let daily = database
        .create_scheduled_task(42, "take medication", 0, Some(86_400))
        .unwrap();

    let stale = database
        .expire_stale_scheduled_tasks(10_000, 3_600);

    assert_eq!(stale.len(), 2);
    let pending = database.list_scheduled_tasks(42);
    assert_eq!(pending.len(), 1, "only the recurring task survives");
    assert_eq!(pending[0].id, daily);
    assert!(
        database
            .claim_due_scheduled_tasks(10 * 86_400)
            .iter()
            .all(|task| task.id != once),
        "an expired one-shot task must never run"
    );
}

#[test]
fn expiring_stale_tasks_does_not_revive_a_cancelled_recurring_task() {
    let mut database = Database::new();
    let id = database
        .create_scheduled_task(42, "weekly report", 0, Some(604_800))
        .unwrap();
    assert!(database.cancel_scheduled_task(42, &id[..8]));

    let stale = database
        .expire_stale_scheduled_tasks(10_000, 3_600);

    assert!(stale.is_empty(), "a cancelled task is over, not stale");
    assert!(database.list_scheduled_tasks(42).is_empty());
    assert!(
        database
            .claim_due_scheduled_tasks(10 * 604_800)
            .is_empty(),
        "cancelled must stay cancelled"
    );
}

#[test]
fn a_recurring_task_with_a_non_positive_interval_expires_instead_of_dividing_by_zero() {
    let mut database = Database::new();
    // `schedule_task` enforces MIN_REPEAT_INTERVAL, so a zero interval can only come from a
    // hand-edited database. It must not panic and must not reschedule onto its own timestamp.
    database
        .create_scheduled_task(42, "corrupt row", 0, Some(0))
        .unwrap();

    let stale = database
        .expire_stale_scheduled_tasks(10_000, 3_600);

    assert!(matches!(stale[0].outcome, StaleTaskOutcome::Expired));
    assert!(database.list_scheduled_tasks(42).is_empty());
}

#[test]
fn the_next_occurrence_is_the_first_one_not_in_the_past() {
    // Two whole intervals behind plus a remainder: the third occurrence is the next one.
    assert_eq!(next_occurrence(0, 3_600, 10_000), (10_800, 3));
    // Exactly on an occurrence: that one is due now, not missed, so it is kept.
    assert_eq!(next_occurrence(0, 3_600, 7_200), (7_200, 2));
    // A single second past an occurrence still costs a whole interval.
    assert_eq!(next_occurrence(0, 3_600, 3_601), (7_200, 2));
}

#[test]
fn reset_stuck_running_tasks_returns_running_tasks_to_pending() {
    let mut database = Database::new();
    database
        .create_scheduled_task(42, "ping me", 100, None)
        .unwrap();
    database.claim_due_scheduled_tasks(500);

    let reset_count = database.reset_stuck_running_tasks();

    assert_eq!(reset_count, 1);
    // Now pending again, so it can be claimed once more.
    assert_eq!(database.claim_due_scheduled_tasks(500).len(), 1);
}

#[test]
fn reset_stuck_running_tasks_leaves_completed_tasks_alone() {
    let mut database = Database::new();
    let id = database
        .create_scheduled_task(42, "ping me", 100, None)
        .unwrap();
    database.claim_due_scheduled_tasks(500);
    database.complete_scheduled_task(&id, "completed").unwrap();

    assert_eq!(database.reset_stuck_running_tasks(), 0);
}

#[test]
fn storage_summary_counts_sessions_pending_tasks_and_memory() {
    let mut database = Database::new();
    database
        .save_turn(
            42,
            "model",
            &vec![Message::user("hi")],
            &Usage::default(),
            "stop",
        )
        .unwrap();
    // An untouched session (no messages saved yet) must not be counted.
    database
        .create_scheduled_task(42, "ping me", 100, None)
        .unwrap();
    database.remember("a fact").unwrap();

    let summary = database.storage_summary();

    assert_eq!(summary.session_count, 1);
    assert_eq!(summary.pending_scheduled_tasks, 1);
    assert_eq!(summary.memory_entries, 1);
}

#[test]
fn storage_summary_excludes_completed_scheduled_tasks() {
    let mut database = Database::new();
    let id = database
        .create_scheduled_task(42, "ping me", 100, None)
        .unwrap();
    database.complete_scheduled_task(&id, "completed").unwrap();

    assert_eq!(
        database.storage_summary().pending_scheduled_tasks,
        0
    );
}

#[test]
fn completing_a_recurring_task_reschedules_it_instead_of_finishing_it() {
    let mut database = Database::new();
    let id = database
        .create_scheduled_task(42, "daily reminder", 1000, Some(86400))
        .unwrap();

    database.complete_scheduled_task(&id, "completed").unwrap();

    let tasks = database.list_scheduled_tasks(42);
    assert_eq!(
        tasks.len(),
        1,
        "a recurring task stays pending, not completed"
    );
    assert_eq!(tasks[0].run_at, 1000 + 86400);
    assert_eq!(tasks[0].repeat_interval_seconds, Some(86400));
}

#[test]
fn a_recurring_task_that_fails_is_marked_failed_not_rescheduled() {
    let mut database = Database::new();
    let id = database
        .create_scheduled_task(42, "daily reminder", 1000, Some(86400))
        .unwrap();

    database.complete_scheduled_task(&id, "failed").unwrap();

    assert!(database.list_scheduled_tasks(42).is_empty());
}

#[test]
fn a_one_shot_task_that_completes_is_not_rescheduled() {
    let mut database = Database::new();
    let id = database
        .create_scheduled_task(42, "one-off", 1000, None)
        .unwrap();

    database.complete_scheduled_task(&id, "completed").unwrap();

    assert!(database.list_scheduled_tasks(42).is_empty());
}

#[test]
fn list_scheduled_tasks_is_scoped_to_chat_and_sorted_by_run_at() {
    let mut database = Database::new();
    database
        .create_scheduled_task(42, "later", 2000, None)
        .unwrap();
    database
        .create_scheduled_task(42, "sooner", 1000, None)
        .unwrap();
    database
        .create_scheduled_task(99, "other chat", 500, None)
        .unwrap();

    let tasks = database.list_scheduled_tasks(42);

    assert_eq!(tasks.len(), 2);
    assert_eq!(tasks[0].prompt, "sooner");
    assert_eq!(tasks[1].prompt, "later");
}

#[test]
fn cancel_scheduled_task_is_scoped_to_chat() {
    let mut database = Database::new();
    let id = database
        .create_scheduled_task(42, "ping me", 1000, None)
        .unwrap();

    // A different chat guessing the same ID prefix must not be able to cancel it.
    assert!(!database.cancel_scheduled_task(99, &id[..8]));
    assert!(database.cancel_scheduled_task(42, &id[..8]));
    assert!(database.list_scheduled_tasks(42).is_empty());
}

#[test]
fn cancel_scheduled_task_reports_no_match_for_an_unknown_prefix() {
    let mut database = Database::new();
    assert!(!database.cancel_scheduled_task(42, "nonexistent"));
}

#[test]
fn always_allow_grants_and_clears_per_chat() {
    let mut database = Database::new();
    assert!(!database.is_tool_always_allowed(42, "run_command"));

    database.always_allow_tool(42, "run_command");
    assert!(database.is_tool_always_allowed(42, "run_command"));
    // Scoped per chat: a different chat's grant is independent.
    assert!(!database.is_tool_always_allowed(99, "run_command"));

    database.clear_always_allowed(42);
    assert!(!database.is_tool_always_allowed(42, "run_command"));
}

#[test]
fn always_allow_tool_is_idempotent() {
    let mut database = Database::new();
    database.always_allow_tool(42, "run_command");
    database.always_allow_tool(42, "run_command");
    assert!(database.is_tool_always_allowed(42, "run_command"));
}

#[test]
fn memory_can_be_updated_and_deleted_by_stable_id() {
    let mut database = Database::new();
    let id = database.remember("old fact").unwrap();

    assert!(database.update_memory_by_id(id, "new fact"));
    let entries = database.list_memory();
    assert_eq!(entries[0].id, id);
    assert_eq!(entries[0].content, "new fact");
    assert!(database.forget_memory_by_id(id));
    assert!(!database.forget_memory_by_id(id));
}

#[test]
fn workspace_overrides_are_scoped_to_chat_and_resettable() {
    let mut database = Database::new();
    let path = "/tmp/project-a";

    database.set_workspace_for_chat(42, path);
    assert_eq!(database.workspace_for_chat(42), Some(path.to_owned()));
    assert_eq!(database.workspace_for_chat(99), None);
    assert!(database.clear_workspace_for_chat(42));
    assert_eq!(database.workspace_for_chat(42), None);
}

#[test]
fn audit_events_survive_session_deletion() {
    let mut database = Database::new();
    let session_id = database
        .save_turn(
            42,
            "model-a",
            &vec![Message::user("run it"), Message::assistant("done")],
            &Usage::default(),
            "stop",
        )
        .unwrap();
    database
        .record_audit_event(
            42,
            "tool_request",
            Some("run_command"),
            Some(r#"{"command":"cargo test"}"#),
            "requested",
        )
        .unwrap();

    database.delete_session(&session_id);

    let events = database.list_audit_events(42, 20).unwrap();
    assert_eq!(events.len(), 1);
    assert_eq!(events[0].tool_name.as_deref(), Some("run_command"));
    assert_eq!(events[0].outcome, "requested");
}

#[test]
fn command_job_lifecycle_is_scoped_and_persistent() {
    let mut database = Database::new();
    let id = database
        .create_command_job(42, "cargo test", "/tmp/project", 123)
        .unwrap();
    assert!(database.find_command_job(99, &id[..8]).is_none());
    assert_eq!(
        database.list_command_jobs(42, 10).unwrap()[0].status,
        "running"
    );

    assert!(
        database
            .complete_command_job(&id, "completed", "exit code: 0", Some(0))
            .unwrap()
    );
    let job = database.find_command_job(42, &id[..8]).unwrap();
    assert_eq!(job.status, "completed");
    assert_eq!(job.exit_code, Some(0));
    assert_eq!(database.unnotified_command_jobs().len(), 1);
    database.mark_command_job_notified(&id);
    assert!(database.unnotified_command_jobs().is_empty());
}

#[test]
fn command_jobs_keep_only_the_latest_hundred_terminal_rows_per_chat() {
    let mut database = Database::new();
    for pid in 1..=101 {
        let id = database
            .create_command_job(42, "true", "/tmp", pid)
            .unwrap();
        database
            .complete_command_job(&id, "completed", "exit code: 0", Some(0))
            .unwrap();
    }
    assert_eq!(database.list_command_jobs(42, 200).unwrap().len(), 100);
}
