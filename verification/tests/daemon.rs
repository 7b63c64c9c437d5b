use kumo::daemon::{finish_shutdown, running_pid};
use kumo::storage::Database;

/// A task that is let finish leaves no row `running`: only a hard crash, or a task that would not
/// end, does.
#[test]
fn shutdown_waits_for_an_in_flight_scheduled_task() {
    let mut database = Database::new();
    let id = database.create_scheduled_task(42, "ping", 0, None).unwrap();
    let claimed = database.claim_due_scheduled_tasks(1);
    assert_eq!(claimed.len(), 1, "the fixture has to leave a running row");
    database.complete_scheduled_task(&id, "completed").unwrap();

    let shutdown = finish_shutdown(&mut database, true);

    assert!(
        shutdown.idle,
        "shutdown must wait for the task, not abort it"
    );
    assert_eq!(
        shutdown.recovered, 0,
        "a task allowed to finish needs no recovery"
    );
    assert_eq!(
        database.reset_stuck_running_tasks(),
        0,
        "no row may be left running by a graceful shutdown"
    );
}

/// What a task that will not finish leaves behind is put back to `pending` at shutdown rather
/// than being discovered as a stale `running` row on the next start.
#[test]
fn shutdown_gives_up_on_a_stuck_task_and_marks_its_row() {
    let mut database = Database::new();
    database.create_scheduled_task(42, "ping", 0, None).unwrap();
    database.claim_due_scheduled_tasks(1);

    let shutdown = finish_shutdown(&mut database, false);

    assert!(
        !shutdown.idle,
        "the stuck task should have timed out the wait"
    );
    assert_eq!(shutdown.recovered, 1, "the abandoned row has to be marked");
    assert_eq!(
        database.reset_stuck_running_tasks(),
        0,
        "nothing may be left running"
    );
    // Put back to pending, so the task is not lost: it is due again immediately.
    assert_eq!(database.list_scheduled_tasks(42).len(), 1);
}

#[test]
fn running_pid_returns_none_when_no_pid_file_exists() {
    assert_eq!(running_pid(None, &Vec::new(), 1, Some("/usr/bin/kumo")).pid, None);
}
