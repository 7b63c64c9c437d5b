//! What a poll of the scheduler does: tell chats of finished background commands, skip reminders
//! that missed their window, and run those that are due.
use vstd::prelude::*;
use vstd::string::*;

use crate::chunks::{
    bodies, law_chunks_keep_text, message_chunks, piece_texts, pieces_of, Piece,
};
use crate::clock::{shown, MINUTES_WITH_ZONE};
use crate::storage::jobs::{told, unreported_jobs, JobView};
use crate::storage::tasks::{
    agenda, law_sweeps_report_all_they_touch, settled, stale_at, stale_outcome, swept, with_outcomes, StaleView, TaskRowView,
    TaskStatus, TaskView,
};
use crate::storage::{Database, ScheduledTask, StaleScheduledTask, StaleTaskOutcome};
use crate::text::{
    contains, decimal, decimal_i64, decimal_u64, ends_in, in_turn, lemma_ends_in,
    lemma_in_turn_contains, lemma_one, lemma_starts, lemma_three, lemma_two, occurs_at, opt_view,
    seq_view, signed_decimal, texts,
};
use crate::tools::output::{format_job, job_text, short_id, shorten};
use crate::tools::reminders::{show_or, shown_or};

verus! {

/// How often to check for due tasks, in seconds. Scheduled tasks are a personal-assistant feature,
/// not a precision timer.
pub const POLL_INTERVAL: u64 = 30;

/// A task more than this many seconds past its time (e.g. Kumo was offline) is skipped instead of
/// run, since a reminder this late is unlikely to still be useful.
pub const STALE_AFTER: i64 = 3600;

/// The most characters that one message to a chat may hold.
pub const MESSAGE_LIMIT: usize = 4000;

/// What a chat is told of a finished background command, message by message.
#[derive(Debug)]
pub struct JobNotice {
    pub id: String,
    pub chat: i64,
    pub messages: Vec<String>,
}

/// What a chat is told.
#[derive(Debug)]
pub struct Notice {
    pub chat: i64,
    pub text: String,
}

pub open spec fn job_notice_texts(job: JobView) -> Seq<Seq<char>> {
    piece_texts(
        pieces_of("Background command finished:\n"@ + job_text(job), MESSAGE_LIMIT as int),
    )
}

/// Whether a notice is the one for a finished command.
pub open spec fn tells_of_job(notice: JobNotice, job: JobView) -> bool {
    notice.id@ == job.id && notice.chat == job.chat && texts(notice.messages@) == job_notice_texts(
        job,
    )
}

/// What chats have to be told of background commands that finished, in the order they finished.
pub fn finished_jobs(database: &Database) -> (r: Vec<JobNotice>)
    ensures
        r@.len() == unreported_jobs(database.job_rows()).len(),
        forall|i: int|
            0 <= i < r@.len() ==> tells_of_job(
                #[trigger] r@[i],
                unreported_jobs(database.job_rows())[i],
            ),
{
    let jobs = database.unnotified_command_jobs();
    let ghost all = unreported_jobs(database.job_rows());
    assert(seq_view(jobs@).len() == jobs@.len());
    let mut r: Vec<JobNotice> = Vec::new();
    let mut i: usize = 0;
    while i < jobs.len()
        invariant
            i <= jobs@.len(),
            seq_view(jobs@) == all,
            r@.len() == i,
            forall|k: int| 0 <= k < i ==> tells_of_job(#[trigger] r@[k], all[k]),
        decreases jobs@.len() - i,
    {
        assert(jobs@[i as int]@ == all[i as int]);
        let mut message = "Background command finished:\n".to_owned();
        message.push_str(format_job(&jobs[i]).as_str());
        r.push(
            JobNotice {
                id: jobs[i].id.clone(),
                chat: jobs[i].telegram_chat_id,
                messages: message_chunks(message.as_str(), MESSAGE_LIMIT),
            },
        );
        i = i + 1;
    }
    r
}

/// Records that a chat was told of a finished command; a notice that could not be delivered is
/// tried again at the next poll.
pub fn settle_notice(database: &mut Database, id: &str, delivered: bool)
    requires
        old(database).wf(),
    ensures
        final(database).wf(),
        *final(database) == (Database { jobs: final(database).jobs, ..*old(database) }),
        !delivered ==> *final(database) == *old(database),
        delivered ==> final(database).job_rows() == old(database).job_rows().map_values(told(id@)),
{
    if delivered {
        database.mark_command_job_notified(id);
    }
}

/// How many seconds, whatever the sign.
pub open spec fn magnitude(seconds: i64) -> int {
    if seconds < 0 {
        -seconds
    } else {
        seconds as int
    }
}

/// An interval in the largest unit that it is a whole number of.
pub open spec fn interval_text(seconds: i64) -> Seq<char> {
    let m = magnitude(seconds);
    let sign: Seq<char> = if seconds < 0 {
        seq!['-']
    } else {
        seq![]
    };
    if m % 86400 == 0 {
        sign + decimal((m / 86400) as nat) + " day(s)"@
    } else if m % 3600 == 0 {
        sign + decimal((m / 3600) as nat) + " hour(s)"@
    } else if m % 60 == 0 {
        sign + decimal((m / 60) as nat) + " minute(s)"@
    } else {
        sign + decimal(m as nat) + " second(s)"@
    }
}

fn describe_interval(seconds: i64) -> (r: String)
    ensures
        r@ == interval_text(seconds),
{
    let m: u64 = if seconds == i64::MIN {
        9223372036854775808u64
    } else if seconds < 0 {
        (-seconds) as u64
    } else {
        seconds as u64
    };
    let mut r = String::new();
    if seconds < 0 {
        r.push('-');
    }
    assert(r@ =~= if seconds < 0 {
        seq!['-']
    } else {
        seq![]
    });
    if m % 86400 == 0 {
        r.push_str(decimal_u64(m / 86400).as_str());
        r.push_str(" day(s)");
    } else if m % 3600 == 0 {
        r.push_str(decimal_u64(m / 3600).as_str());
        r.push_str(" hour(s)");
    } else if m % 60 == 0 {
        r.push_str(decimal_u64(m / 60).as_str());
        r.push_str(" minute(s)");
    } else {
        r.push_str(decimal_u64(m).as_str());
        r.push_str(" second(s)");
    }
    r
}

pub open spec fn recurrence_text(task: TaskView) -> Option<Seq<char>> {
    match task.repeat {
        Some(interval) => Some(
            "Repeats every "@ + interval_text(interval)
                + ". To stop it, send: /reminders cancel "@ + short_id(task.id),
        ),
        None => None,
    }
}

/// The line appended to a recurring reminder telling the reader how to stop it. A reminder that
/// turns out to be unwanted is discovered *by being delivered*, so the way out belongs in the
/// message doing the interrupting. One-shot tasks get nothing: there is nothing to stop.
pub fn recurrence_note(task: &ScheduledTask) -> (r: Option<String>)
    ensures
        opt_view(r) == recurrence_text(task@),
{
    match task.repeat_interval_seconds {
        Some(interval) => {
            let mut r = "Repeats every ".to_owned();
            r.push_str(describe_interval(interval).as_str());
            r.push_str(". To stop it, send: /reminders cancel ");
            r.push_str(shorten(task.id.as_str()).as_str());
            Some(r)
        },
        None => None,
    }
}

/// A unix timestamp rendered in the owner's configured timezone, the way `/reminders` renders one.
pub fn local_time(timestamp: i64, zone: &str) -> (r: String)
    ensures
        r@ == shown_or(timestamp, zone@, MINUTES_WITH_ZONE@, "an unknown time"@),
{
    show_or(timestamp, zone, MINUTES_WITH_ZONE, "an unknown time")
}

pub open spec fn skipped_text(skipped: i64) -> Seq<char> {
    if skipped == 1 {
        "1 occurrence was skipped"@
    } else {
        signed_decimal(skipped as int) + " occurrences were skipped"@
    }
}

pub open spec fn stale_text(entry: StaleView, zone: Seq<char>) -> Seq<char> {
    match entry.outcome {
        StaleTaskOutcome::Expired => {
            "\u{26a0}\u{fe0f} A scheduled task missed its time by more than an hour and was skipped: \""@
                + entry.task.prompt + "\"\nIt was a one-off, so it will not run at all."@
        },
        StaleTaskOutcome::Rescheduled { skipped, next_run_at } => {
            "\u{26a0}\u{fe0f} A recurring task missed its time by more than an hour, so "@
                + skipped_text(skipped) + ": \""@ + entry.task.prompt + "\"\nNext run: "@ + shown_or(
                next_run_at,
                zone,
                MINUTES_WITH_ZONE@,
                "an unknown time"@,
            ) + "."@ + (match recurrence_text(entry.task) {
                Some(note) => "\n"@ + note,
                None => seq![],
            })
        },
    }
}

/// The notice sent when a task's occurrence was missed by more than `STALE_AFTER`.
///
/// The two cases have to read differently. A one-shot task is over, and saying only "skipped"
/// leaves that unsaid. A recurring task is *not* over, so its notice names the occurrences that
/// were dropped, says when the next one is, and carries the same cancel line a delivery would.
pub fn stale_notice(entry: &StaleScheduledTask, zone: &str) -> (r: String)
    ensures
        r@ == stale_text(entry@, zone@),
{
    match entry.outcome {
        StaleTaskOutcome::Expired => {
            let mut r =
                "\u{26a0}\u{fe0f} A scheduled task missed its time by more than an hour and was skipped: \"".to_owned();
            r.push_str(entry.task.prompt.as_str());
            r.push_str("\"\nIt was a one-off, so it will not run at all.");
            r
        },
        StaleTaskOutcome::Rescheduled { skipped, next_run_at } => {
            let mut r =
                "\u{26a0}\u{fe0f} A recurring task missed its time by more than an hour, so ".to_owned();
            if skipped == 1 {
                r.push_str("1 occurrence was skipped");
            } else {
                r.push_str(decimal_i64(skipped).as_str());
                r.push_str(" occurrences were skipped");
            }
            r.push_str(": \"");
            r.push_str(entry.task.prompt.as_str());
            r.push_str("\"\nNext run: ");
            r.push_str(local_time(next_run_at, zone).as_str());
            r.push_str(".");
            if let Some(note) = recurrence_note(&entry.task) {
                r.push_str("\n");
                r.push_str(note.as_str());
            }
            assert(r@ =~= stale_text(entry@, zone@));
            r
        },
    }
}

/// The reminders that a poll at `now` finds stale, each with what becomes of it.
pub open spec fn stale_tasks(rows: Seq<TaskRowView>, now: i64) -> Seq<StaleView> {
    with_outcomes(agenda(rows, stale_at(now - STALE_AFTER)), now as int)
}

/// Skips the reminders that missed their window, and says what to tell the chats that own them,
/// soonest first.
pub fn skip_stale_tasks(database: &mut Database, now: i64, zone: &str) -> (r: Vec<Notice>)
    requires
        old(database).wf(),
        i64::MIN + STALE_AFTER <= now,
    ensures
        final(database).wf(),
        *final(database) == (Database { tasks: final(database).tasks, ..*old(database) }),
        final(database).task_rows() == old(database).task_rows().map_values(
            |row: TaskRowView| swept(row, now as int, now - STALE_AFTER),
        ),
        r@.len() == stale_tasks(old(database).task_rows(), now).len(),
        forall|i: int|
            0 <= i < r@.len() ==> (#[trigger] r@[i]).chat == stale_tasks(
                old(database).task_rows(),
                now,
            )[i].task.chat && r@[i].text@ == stale_text(
                stale_tasks(old(database).task_rows(), now)[i],
                zone@,
            ),
{
    let ghost all = stale_tasks(database.task_rows(), now);
    let stale = database.expire_stale_scheduled_tasks(now, STALE_AFTER);
    assert(seq_view(stale@).len() == stale@.len());
    let mut r: Vec<Notice> = Vec::new();
    let mut i: usize = 0;
    while i < stale.len()
        invariant
            i <= stale@.len(),
            seq_view(stale@) == all,
            r@.len() == i,
            forall|k: int|
                0 <= k < i ==> (#[trigger] r@[k]).chat == all[k].task.chat && r@[k].text@
                    == stale_text(all[k], zone@),
        decreases stale@.len() - i,
    {
        assert(stale@[i as int]@ == all[i as int]);
        r.push(
            Notice {
                chat: stale[i].task.telegram_chat_id,
                text: stale_notice(&stale[i], zone),
            },
        );
        i = i + 1;
    }
    r
}

pub open spec fn failure_text(task: TaskView, error: Seq<char>) -> Seq<char> {
    "\u{26a0}\u{fe0f} A scheduled task failed to run: \""@ + task.prompt + "\"\nError: "@ + error
        + (if task.repeat is Some {
        " This recurring reminder will not be retried automatically; reschedule it if needed."@
    } else {
        seq![]
    })
}

/// What a chat is told when one of its reminders failed to run.
pub fn failure_notice(task: &ScheduledTask, error: &str) -> (r: String)
    ensures
        r@ == failure_text(task@, error@),
{
    let mut r = "\u{26a0}\u{fe0f} A scheduled task failed to run: \"".to_owned();
    r.push_str(task.prompt.as_str());
    r.push_str("\"\nError: ");
    r.push_str(error);
    if task.repeat_interval_seconds.is_some() {
        r.push_str(
            " This recurring reminder will not be retried automatically; reschedule it if needed.",
        );
    }
    assert(r@ =~= failure_text(task@, error@));
    r
}

/// Why a run that cannot be put on the schedule again is recorded as failed.
pub const NO_NEXT_RUN: &'static str = "its next run is out of range";

/// Why a reminder that has run failed, `error` being what its run ended with, if it did not succeed.
pub open spec fn failure_of(
    database: Database,
    task: ScheduledTask,
    error: Option<Seq<char>>,
) -> Option<Seq<char>> {
    match error {
        Some(error) => Some(error),
        None => if database.next_run_fits(task.id@) {
            None
        } else {
            Some(NO_NEXT_RUN@)
        },
    }
}

fn find_failure(database: &Database, task: &ScheduledTask, error: &Option<String>) -> (r: Option<
    String,
>)
    requires
        database.wf(),
    ensures
        opt_view(r) == failure_of(*database, *task, opt_view(*error)),
{
    match error {
        Some(error) => Some(error.clone()),
        None => if database.can_complete(task.id.as_str()) {
            None
        } else {
            Some(NO_NEXT_RUN.to_owned())
        },
    }
}

/// What to tell the chat of a reminder that has run, before it is resolved: that it failed, if it
/// did.
pub fn run_notice(database: &Database, task: &ScheduledTask, error: &Option<String>) -> (r: Option<
    Notice,
>)
    requires
        database.wf(),
    ensures
        match failure_of(*database, *task, opt_view(*error)) {
            Some(error) => r is Some && r->0.chat == task.telegram_chat_id && r->0.text@
                == failure_text(task@, error),
            None => r is None,
        },
{
    match find_failure(database, task, error) {
        Some(error) => Some(
            Notice {
                chat: task.telegram_chat_id,
                text: failure_notice(task, error.as_str()),
            },
        ),
        None => None,
    }
}

/// Resolves a claimed reminder once it has run: `error` says why it failed, if it did. A recurring
/// reminder that ran is put on the schedule again; one that failed is over.
pub fn settle_task(database: &mut Database, task: &ScheduledTask, error: &Option<String>)
    requires
        old(database).wf(),
    ensures
        final(database).wf(),
        *final(database) == (Database { tasks: final(database).tasks, ..*old(database) }),
        final(database).task_rows() == old(database).task_rows().map_values(
            |row: TaskRowView|
                if row.task.id == task.id@ {
                    settled(
                        row,
                        if failure_of(*old(database), *task, opt_view(*error)) is Some {
                            TaskStatus::Failed
                        } else {
                            TaskStatus::Completed
                        },
                    )
                } else {
                    row
                },
        ),
{
    proof {
        lemma_statuses();
    }
    match find_failure(database, task, error) {
        Some(_) => {
            database.fail_scheduled_task(task.id.as_str());
        },
        None => {
            let ghost before = database.task_rows();
            let done = database.complete_scheduled_task(task.id.as_str(), "completed");
            assert(done is Ok);
            assert(database.task_rows() =~= before.map_values(
                |row: TaskRowView|
                    if row.task.id == task.id@ {
                        settled(row, TaskStatus::Completed)
                    } else {
                        row
                    },
            ));
        },
    }
}

proof fn lemma_statuses()
    ensures
        crate::storage::tasks::task_status_of("completed"@) == Some(TaskStatus::Completed),
{
    reveal_strlit("pending");
    reveal_strlit("running");
    reveal_strlit("completed");
    assert("pending"@.len() == 7 && "running"@.len() == 7 && "completed"@.len() == 9);
}

/// The heading that a reminder's answer is delivered under.
pub const DELIVERY_HEADING: &'static str = "\u{23f0} Scheduled task:";

/// Whoever is told that a reminder was skipped is told the truth: that it is over where it has
/// expired, and when it runs next where it has not.
pub proof fn law_stale_reminders_are_handled_as_told(row: TaskRowView, now: int, cutoff: int)
    requires
        stale_at(cutoff)(row),
    ensures
        match stale_outcome(row.task, now) {
            StaleTaskOutcome::Expired => swept(row, now, cutoff).status == TaskStatus::Expired,
            StaleTaskOutcome::Rescheduled { skipped, next_run_at } => {
                &&& swept(row, now, cutoff).status == TaskStatus::Pending
                &&& swept(row, now, cutoff).task.run_at == next_run_at
            },
        },
{
}

/// A gap is told in the largest unit that measures it without a rest, so that the number and the unit
/// together are the gap.
pub proof fn law_gaps_are_told_exactly(count: int)
    requires
        0 <= count,
        count * 86400 <= i64::MAX,
    ensures
        interval_text((count * 86400) as i64) == decimal(count as nat) + " day(s)"@,
        count % 24 != 0 ==> interval_text((count * 3600) as i64) == decimal(count as nat)
            + " hour(s)"@,
        count % 60 != 0 ==> interval_text((count * 60) as i64) == decimal(count as nat)
            + " minute(s)"@,
        count % 60 != 0 ==> interval_text(count as i64) == decimal(count as nat) + " second(s)"@,
{
    assert((count * 86400) / 86400 == count && (count * 86400) % 86400 == 0);
    assert((count * 3600) / 3600 == count && (count * 3600) % 3600 == 0);
    assert((count * 60) / 60 == count && (count * 60) % 60 == 0);
    if count % 24 != 0 {
        assert((count * 3600) % 86400 != 0) by {
            if (count * 3600) % 86400 == 0 {
                assert(count % 24 == 0);
            }
        }
    }
    if count % 60 != 0 {
        assert((count * 60) % 3600 != 0);
        assert((count * 60) % 86400 != 0);
        assert(count % 3600 != 0);
        assert(count % 86400 != 0);
    }
    let empty: Seq<char> = seq![];
    assert(empty + decimal(count as nat) =~= decimal(count as nat));
}

/// A repeating reminder is told with its gap and with the command that stops it, which names it; one
/// that does not repeat is told no such thing.
pub proof fn law_repeating_reminders_can_be_stopped(task: TaskView)
    ensures
        task.repeat is None <==> recurrence_text(task) is None,
        task.repeat matches Some(interval) ==> (recurrence_text(task) matches Some(text)
            && contains(text, interval_text(interval)) && ends_in(
            text,
            "/reminders cancel "@ + short_id(task.id),
        )),
{
    if let Some(interval) = task.repeat {
        let text = recurrence_text(task)->0;
        let middle = ". To stop it, send: /reminders cancel "@;
        lemma_one("Repeats every "@, interval_text(interval), middle + short_id(task.id));
        assert(text =~= "Repeats every "@ + interval_text(interval) + (middle + short_id(
            task.id,
        )));
        lemma_in_turn_contains(text, seq![interval_text(interval)], 0);
        reveal_strlit(". To stop it, send: /reminders cancel ");
        reveal_strlit("/reminders cancel ");
        reveal_strlit(". To stop it, send: ");
        assert(middle =~= ". To stop it, send: "@ + "/reminders cancel "@);
        let head = "Repeats every "@ + interval_text(interval) + ". To stop it, send: "@;
        lemma_ends_in(head, "/reminders cancel "@ + short_id(task.id));
        assert(text =~= head + ("/reminders cancel "@ + short_id(task.id)));
    }
}

/// A missed reminder is told with what it says; one that repeats also with how many times it was
/// missed and when it will run next, in the owner's zone.
pub proof fn law_missed_reminders_are_told(
    task: TaskView,
    skipped: i64,
    next_run_at: i64,
    zone: Seq<char>,
    time: Seq<char>,
)
    requires
        shown(next_run_at, zone, "%Y-%m-%d %H:%M %Z"@) == Some(time),
    ensures
        contains(
            stale_text((StaleView { task, outcome: StaleTaskOutcome::Expired }), zone),
            task.prompt,
        ),
        in_turn(
            stale_text(
                (StaleView {
                    task,
                    outcome: StaleTaskOutcome::Rescheduled { skipped, next_run_at },
                }),
                zone,
            ),
            seq![skipped_text(skipped), task.prompt, time],
        ),
        skipped != 1 ==> occurs_at(skipped_text(skipped), signed_decimal(skipped as int), 0),
        skipped_text(1) == "1 occurrence was skipped"@,
{
    let expired = StaleView { task, outcome: StaleTaskOutcome::Expired };
    let head = "\u{26a0}\u{fe0f} A scheduled task missed its time by more than an hour and was skipped: \""@;
    let foot = "\"\nIt was a one-off, so it will not run at all."@;
    lemma_one(head, task.prompt, foot);
    lemma_in_turn_contains(stale_text(expired, zone), seq![task.prompt], 0);
    let moved = StaleView {
        task,
        outcome: StaleTaskOutcome::Rescheduled { skipped, next_run_at },
    };
    let note = match recurrence_text(task) {
        Some(note) => "\n"@ + note,
        None => seq![],
    };
    let front = "\u{26a0}\u{fe0f} A recurring task missed its time by more than an hour, so "@;
    lemma_three(
        front,
        skipped_text(skipped),
        ": \""@,
        task.prompt,
        "\"\nNext run: "@,
        time,
        "."@ + note,
    );
    assert(stale_text(moved, zone) =~= front + skipped_text(skipped) + ": \""@ + task.prompt
        + "\"\nNext run: "@ + time + ("."@ + note));
    lemma_starts(signed_decimal(skipped as int), " occurrences were skipped"@);
}

/// A reminder that could not run is told with what it says and what went wrong.
pub proof fn law_failed_reminders_are_told(task: TaskView, error: Seq<char>)
    ensures
        in_turn(failure_text(task, error), seq![task.prompt, error]),
        task.repeat is None ==> ends_in(failure_text(task, error), error),
{
    let tail = if task.repeat is Some {
        " This recurring reminder will not be retried automatically; reschedule it if needed."@
    } else {
        seq![]
    };
    let front = "\u{26a0}\u{fe0f} A scheduled task failed to run: \""@;
    lemma_two(front, task.prompt, "\"\nError: "@, error, tail);
    if task.repeat is None {
        lemma_ends_in(front + task.prompt + "\"\nError: "@, error);
        assert(failure_text(task, error) =~= front + task.prompt + "\"\nError: "@ + error);
    }
}

/// What went wrong with a reminder is what its run reported, and else only that there is no next time
/// for it.
pub proof fn law_failures_are_what_was_reported(
    database: Database,
    task: ScheduledTask,
    error: Seq<char>,
)
    ensures
        failure_of(database, task, Some(error)) == Some(error),
        database.next_run_fits(task.id@) ==> failure_of(database, task, None) is None,
        !database.next_run_fits(task.id@) ==> failure_of(database, task, None) is Some,
{
}

/// A reminder counts as missed only when it waits and its time passed more than an hour ago, and
/// every such one counts.
pub proof fn law_an_hour_is_waited(rows: Seq<TaskRowView>, now: i64)
    requires
        i64::MIN + 3600 <= now,
    ensures
        forall|i: int|
            0 <= i < stale_tasks(rows, now).len() ==> (#[trigger] stale_tasks(
                rows,
                now,
            )[i]).task.run_at < now - 3600,
        forall|k: int|
            0 <= k < rows.len() && (#[trigger] rows[k]).status == TaskStatus::Pending
                && rows[k].task.run_at < now - 3600 ==> exists|i: int|
                0 <= i < stale_tasks(rows, now).len() && (#[trigger] stale_tasks(
                    rows,
                    now,
                )[i]).task == rows[k].task,
{
    law_sweeps_report_all_they_touch(rows, now, (now - 3600) as i64);
}

/// A finished command is told in full: put together again, apart from fences that had to be closed and
/// opened anew, the messages hold all that is told of the job.
pub proof fn law_finished_jobs_are_told_in_full(job: JobView)
    ensures
        exists|pieces: Seq<Piece>| #[trigger]
            piece_texts(pieces) == job_notice_texts(job) && ends_in(bodies(pieces), job_text(job)),
{
    let message = "Background command finished:\n"@ + job_text(job);
    let pieces = pieces_of(message, MESSAGE_LIMIT as int);
    law_chunks_keep_text(message, MESSAGE_LIMIT as int);
    lemma_ends_in("Background command finished:\n"@, job_text(job));
    assert(piece_texts(pieces) == job_notice_texts(job));
}

} // verus!
