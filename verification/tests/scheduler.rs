use kumo::scheduler::{recurrence_note, stale_notice};
use kumo::storage::{ScheduledTask, StaleScheduledTask, StaleTaskOutcome};

fn task(repeat_interval_seconds: Option<i64>) -> ScheduledTask {
    ScheduledTask {
        id: "8be7f7aa-1111-2222-3333-444444444444".to_owned(),
        telegram_chat_id: 42,
        prompt: "ping".to_owned(),
        run_at: 0,
        repeat_interval_seconds,
    }
}

#[test]
fn a_one_shot_reminder_carries_no_note() {
    assert!(recurrence_note(&task(None)).is_none());
}

#[test]
fn a_recurring_reminder_says_how_to_stop_itself() {
    let note = recurrence_note(&task(Some(86_400))).unwrap();

    assert!(note.contains("Repeats every 1 day(s)"), "{note}");
    // The id has to be the short form /reminders cancel accepts.
    assert!(note.contains("/reminders cancel 8be7f7aa"), "{note}");
}

#[test]
fn a_stale_one_shot_notice_says_the_task_is_over() {
    let notice = stale_notice(
        &StaleScheduledTask {
            task: task(None),
            outcome: StaleTaskOutcome::Expired,
        },
        "UTC",
    );

    assert!(notice.contains("was skipped"), "{notice}");
    assert!(notice.contains("will not run at all"), "{notice}");
    assert!(
        !notice.contains("/reminders cancel"),
        "there is nothing left to cancel: {notice}"
    );
}

#[test]
fn a_stale_recurring_notice_says_when_it_will_next_run() {
    let notice = stale_notice(
        &StaleScheduledTask {
            task: task(Some(86_400)),
            outcome: StaleTaskOutcome::Rescheduled {
                skipped: 2,
                next_run_at: 1_700_000_000,
            },
        },
        "UTC",
    );

    assert!(notice.contains("2 occurrences were skipped"), "{notice}");
    assert!(
        notice.contains("Next run: 2023-11-14 22:13 UTC"),
        "{notice}"
    );
    // The escape hatch travels with the interruption, as it does on a delivery.
    assert!(notice.contains("/reminders cancel 8be7f7aa"), "{notice}");
    assert!(
        !notice.contains("will not run"),
        "a recurring task is not over: {notice}"
    );
}

#[test]
fn a_single_skipped_occurrence_reads_as_one() {
    let notice = stale_notice(
        &StaleScheduledTask {
            task: task(Some(86_400)),
            outcome: StaleTaskOutcome::Rescheduled {
                skipped: 1,
                next_run_at: 1_700_000_000,
            },
        },
        "UTC",
    );

    assert!(notice.contains("1 occurrence was skipped"), "{notice}");
}

#[test]
fn an_interval_is_described_in_its_largest_whole_unit() {
    let hourly = recurrence_note(&task(Some(3_600))).unwrap();
    let minutes = recurrence_note(&task(Some(300))).unwrap();
    let odd = recurrence_note(&task(Some(90))).unwrap();

    assert!(hourly.contains("1 hour(s)"), "{hourly}");
    assert!(minutes.contains("5 minute(s)"), "{minutes}");
    assert!(odd.contains("90 second(s)"), "{odd}");
}
