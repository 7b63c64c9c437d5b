//! The tools for reminders: setting, listing and cancelling them.
use vstd::prelude::*;
use vstd::string::*;

use crate::clock::{
    elapsed, is_earlier, nanos_from, parse_rfc3339, precedes, rfc3339, show, shown, Instant, MINUTES,
    MINUTES_WITH_ZONE, SECOND,
};
use crate::json::{complain, read_view, with_reason, Json, JsonView};
use crate::order::{law_sole_is_unambiguous, sole};
use crate::storage::tasks::{
    agenda, called_off, has_task, pending_in, pending_named, TaskRowView, TaskStatus, TaskView,
};
use crate::storage::{Database, ScheduledTask, StorageError};
use crate::text::{
    contains, decimal, decimal_i64, decimal_usize, ends_in, in_turn, join, joined, lemma_ends_in,
    lemma_in_turn, lemma_in_turn_contains, lemma_in_turn_within, lemma_join_in_turn, lemma_one, lemma_starts, lemma_two,
    lower, occurs_at, parse_int, seq_view, signed_decimal, texts, trim, trimmed,
};
use crate::tools::arguments::{
    outcome, read_required_text, read_schedule_arguments, required_text, schedule_arguments,
    INVALID,
};
use crate::tools::output::{short_id, shorten};

verus! {

/// How far into the future a reminder may be set, in seconds: 366 days.
pub const MAX_SCHEDULE_HORIZON: i64 = 31622400;

/// The shortest allowed gap between runs of a recurring reminder, in seconds.
pub const MIN_REPEAT_INTERVAL: i64 = 300;

/// How many pending reminders one chat may hold.
pub const MAX_PENDING_TASKS: usize = 20;

/// What is wrong with a reminder, if anything: `pending` is how many the chat already has.
pub open spec fn schedule_error(
    prompt: Seq<char>,
    run_at: Seq<char>,
    interval: Option<i64>,
    now: Instant,
    pending: nat,
) -> Option<Seq<char>> {
    if trim(prompt).len() == 0 {
        Some("schedule_task requires a non-empty 'prompt' argument"@)
    } else {
        match rfc3339(run_at) {
            Err(reason) => Some(
                "run_at was not a valid RFC 3339 timestamp: "@ + run_at + ": "@ + reason,
            ),
            Ok(at) => if precedes(at, now) {
                Some("run_at ("@ + run_at + ") is in the past"@)
            } else if elapsed(now, at) > MAX_SCHEDULE_HORIZON * SECOND {
                Some("run_at is more than 366 days in the future; double-check the year"@)
            } else if interval is Some && interval->0 < MIN_REPEAT_INTERVAL {
                Some("repeat_interval_seconds must be at least 300 seconds"@)
            } else if pending >= MAX_PENDING_TASKS {
                Some(
                    "this chat already has "@ + decimal(pending)
                        + " pending scheduled tasks, which is the limit; cancel some with cancel_scheduled_task before adding another"@,
                )
            } else {
                None
            },
        }
    }
}

/// A point in time as it is shown to the user; `fallback` where it cannot be shown.
pub open spec fn shown_or(seconds: i64, zone: Seq<char>, format: Seq<char>, fallback: Seq<char>) -> Seq<
    char,
> {
    match shown(seconds, zone, format) {
        Some(text) => text,
        None => fallback,
    }
}

/// What is answered to a reminder that was set.
pub open spec fn scheduled_text(id: Seq<char>, at: i64, zone: Seq<char>, interval: Option<i64>) -> Seq<
    char,
> {
    "scheduled ("@ + short_id(id) + "): will run at "@ + shown_or(
        at,
        zone,
        MINUTES_WITH_ZONE@,
        "unknown time"@,
    ) + " ("@ + zone + ")"@ + (match interval {
        Some(seconds) => ", repeating every "@ + signed_decimal(seconds as int) + " seconds"@,
        None => seq![],
    })
}

/// The row that a new reminder is stored as.
pub open spec fn new_task(
    id: Seq<char>,
    chat: i64,
    prompt: Seq<char>,
    at: i64,
    interval: Option<i64>,
) -> TaskRowView {
    TaskRowView {
        task: TaskView { id, chat, prompt: trim(prompt), run_at: at, repeat: interval },
        status: TaskStatus::Pending,
    }
}

/// What setting a reminder does.
pub open spec fn schedule_done(
    before: Database,
    after: Database,
    zone: Seq<char>,
    fresh: Seq<char>,
    now: Instant,
    chat: i64,
    value: Result<JsonView, Seq<char>>,
    r: Result<Seq<char>, Seq<char>>,
) -> bool {
    let pending = agenda(before.task_rows(), pending_in(chat)).len();
    match schedule_arguments(value) {
        None => (r == Err::<Seq<char>, Seq<char>>(with_reason(INVALID@, value)))
            && after == before,
        Some((prompt, run_at, interval)) => match schedule_error(
            prompt,
            run_at,
            interval,
            now,
            pending,
        ) {
            Some(error) => (r == Err::<Seq<char>, Seq<char>>(error)) && after == before,
            None => if has_task(before.tasks@, fresh) {
                (r == Err::<Seq<char>, Seq<char>>(StorageError::DuplicateId.text())) && after == before
            } else {
                &&& (r == Ok::<Seq<char>, Seq<char>>(
                        scheduled_text(
                            fresh,
                            rfc3339(run_at)->Ok_0.seconds,
                            zone,
                            interval,
                        ),
                    ))
                &&& after.task_rows() == before.task_rows().push(
                    new_task(
                        fresh,
                        chat,
                        prompt,
                        rfc3339(run_at)->Ok_0.seconds,
                        interval,
                    ),
                )
            },
        },
    }
}

/// Sets a reminder at the time `now`, under the id `fresh_id`. Running it (and, for a recurring
/// one, rescheduling it after each run) is the scheduler's job; this only validates and stores the
/// request.
pub fn schedule_task_at(
    database: &mut Database,
    zone: &str,
    fresh_id: &str,
    now: Instant,
    chat_id: i64,
    value: &Result<Json, String>,
) -> (r: Result<String, String>)
    requires
        old(database).wf(),
    ensures
        final(database).wf(),
        *final(database) == (Database { tasks: final(database).tasks, ..*old(database) }),
        schedule_done(
            *old(database),
            *final(database),
            zone@,
            fresh_id@,
            now,
            chat_id,
            read_view(*value),
            outcome(r),
        ),
{
    let arguments = match read_schedule_arguments(value) {
        Some(arguments) => arguments,
        None => {
            return Err(complain(INVALID, value));
        },
    };
    let prompt = trimmed(arguments.prompt.as_str());
    if prompt.as_str().is_empty() {
        return Err("schedule_task requires a non-empty 'prompt' argument".to_owned());
    }
    let run_at = match parse_rfc3339(arguments.run_at.as_str()) {
        Ok(run_at) => run_at,
        Err(reason) => {
            let mut message = "run_at was not a valid RFC 3339 timestamp: ".to_owned();
            message.push_str(arguments.run_at.as_str());
            message.push_str(": ");
            message.push_str(reason.as_str());
            return Err(message);
        },
    };
    if is_earlier(run_at, now) {
        let mut message = "run_at (".to_owned();
        message.push_str(arguments.run_at.as_str());
        message.push_str(") is in the past");
        return Err(message);
    }
    if nanos_from(now, run_at) > MAX_SCHEDULE_HORIZON as i128 * SECOND as i128 {
        return Err(
            "run_at is more than 366 days in the future; double-check the year".to_owned(),
        );
    }
    if let Some(interval) = arguments.repeat_interval_seconds {
        if interval < MIN_REPEAT_INTERVAL {
            return Err("repeat_interval_seconds must be at least 300 seconds".to_owned());
        }
    }
    let tasks = database.list_scheduled_tasks(chat_id);
    assert(seq_view(tasks@).len() == tasks@.len());
    if tasks.len() >= MAX_PENDING_TASKS {
        let mut message = "this chat already has ".to_owned();
        message.push_str(decimal_usize(tasks.len()).as_str());
        message.push_str(
            " pending scheduled tasks, which is the limit; cancel some with cancel_scheduled_task before adding another",
        );
        return Err(message);
    }
    if let Err(error) = database.insert_scheduled_task(
        fresh_id,
        chat_id,
        prompt.as_str(),
        run_at.seconds,
        arguments.repeat_interval_seconds,
    ) {
        return Err(error.message());
    }
    let mut r = "scheduled (".to_owned();
    r.push_str(shorten(fresh_id).as_str());
    r.push_str("): will run at ");
    r.push_str(show_or(run_at.seconds, zone, MINUTES_WITH_ZONE, "unknown time").as_str());
    r.push_str(" (");
    r.push_str(zone);
    r.push_str(")");
    if let Some(interval) = arguments.repeat_interval_seconds {
        r.push_str(", repeating every ");
        r.push_str(decimal_i64(interval).as_str());
        r.push_str(" seconds");
    }
    assert(r@ =~= scheduled_text(
        fresh_id@,
        run_at.seconds,
        zone@,
        arguments.repeat_interval_seconds,
    ));
    Ok(r)
}

/// A point in time as it is shown to the user; `fallback` where it cannot be shown.
pub(crate) fn show_or(seconds: i64, zone: &str, format: &str, fallback: &str) -> (r: String)
    requires
        crate::clock::is_time_format(format@),
    ensures
        r@ == shown_or(seconds, zone@, format@, fallback@),
{
    match show(seconds, zone, format) {
        Some(text) => text,
        None => fallback.to_owned(),
    }
}

/// One pending reminder, with the id that cancels it.
pub open spec fn task_line(task: TaskView, zone: Seq<char>) -> Seq<char> {
    short_id(task.id) + ": \""@ + task.prompt + "\" at "@ + shown_or(
        task.run_at,
        zone,
        MINUTES@,
        "unknown time"@,
    ) + (match task.repeat {
        Some(interval) => ", repeats every "@ + signed_decimal(interval as int) + "s"@,
        None => seq![],
    })
}

pub open spec fn task_lines(tasks: Seq<TaskView>, zone: Seq<char>) -> Seq<Seq<char>> {
    Seq::new(tasks.len(), |i: int| task_line(tasks[i], zone))
}

/// What is answered to the question which reminders are pending.
pub open spec fn tasks_text(tasks: Seq<TaskView>, zone: Seq<char>) -> Seq<char> {
    if tasks.len() == 0 {
        "no pending scheduled tasks"@
    } else {
        join(task_lines(tasks, zone), "\n"@)
    }
}

fn describe_task(task: &ScheduledTask, zone: &str) -> (r: String)
    ensures
        r@ == task_line(task@, zone@),
{
    let mut r = shorten(task.id.as_str());
    r.push_str(": \"");
    r.push_str(task.prompt.as_str());
    r.push_str("\" at ");
    r.push_str(show_or(task.run_at, zone, MINUTES, "unknown time").as_str());
    if let Some(interval) = task.repeat_interval_seconds {
        r.push_str(", repeats every ");
        r.push_str(decimal_i64(interval).as_str());
        r.push_str("s");
    }
    assert(r@ =~= task_line(task@, zone@));
    r
}

/// The pending reminders of the chat, with the ids that cancel them.
pub fn list_scheduled_tasks(database: &Database, zone: &str, chat_id: i64) -> (r: String)
    ensures
        r@ == tasks_text(agenda(database.task_rows(), pending_in(chat_id)), zone@),
{
    let tasks = database.list_scheduled_tasks(chat_id);
    let ghost all = seq_view(tasks@);
    if tasks.len() == 0 {
        return "no pending scheduled tasks".to_owned();
    }
    let mut parts: Vec<String> = Vec::new();
    let mut i: usize = 0;
    while i < tasks.len()
        invariant
            i <= tasks@.len(),
            parts@.len() == i,
            forall|k: int| 0 <= k < i ==> (#[trigger] parts@[k])@ == task_line(tasks@[k]@, zone@),
        decreases tasks@.len() - i,
    {
        parts.push(describe_task(&tasks[i], zone));
        i = i + 1;
    }
    assert(texts(parts@) =~= task_lines(all, zone@));
    joined(&parts, "\n")
}

/// What is answered to the request to cancel the reminder `id`.
pub open spec fn cancel_text(id: Seq<char>, cancelled: bool) -> Result<Seq<char>, Seq<char>> {
    if cancelled {
        Ok("cancelled scheduled task "@ + id)
    } else {
        Err(
            "no pending scheduled task in this chat matches \""@ + id
                + "\"; call list_scheduled_tasks for the current ids"@,
        )
    }
}

/// What cancelling a reminder does.
pub open spec fn cancel_done(
    before: Database,
    after: Database,
    chat: i64,
    value: Result<JsonView, Seq<char>>,
    r: Result<Seq<char>, Seq<char>>,
) -> bool {
    let rows = before.task_rows();
    match required_text(
        value,
        "id"@,
        "cancel_scheduled_task requires a non-empty 'id' argument"@,
    ) {
        Err(error) => (r == Err::<Seq<char>, Seq<char>>(error)) && after == before,
        Ok(id) => match sole(rows, pending_named(chat, id)) {
            Some(i) => (r == cancel_text(id, true))
                && after.task_rows() == called_off(rows, i),
            None => (r == cancel_text(id, false)) && after == before,
        },
    }
}

/// Cancels a reminder of the chat.
pub fn cancel_scheduled_task(database: &mut Database, chat_id: i64, value: &Result<Json, String>) -> (r:
    Result<String, String>)
    requires
        old(database).wf(),
    ensures
        final(database).wf(),
        *final(database) == (Database { tasks: final(database).tasks, ..*old(database) }),
        cancel_done(*old(database), *final(database), chat_id, read_view(*value), outcome(r)),
{
    let id = match read_required_text(
        value,
        "id",
        "cancel_scheduled_task requires a non-empty 'id' argument",
    ) {
        Ok(id) => id,
        Err(error) => {
            return Err(error);
        },
    };
    if database.cancel_scheduled_task(chat_id, id.as_str()) {
        let mut r = "cancelled scheduled task ".to_owned();
        r.push_str(id.as_str());
        Ok(r)
    } else {
        let mut message = "no pending scheduled task in this chat matches \"".to_owned();
        message.push_str(id.as_str());
        message.push_str("\"; call list_scheduled_tasks for the current ids");
        Err(message)
    }
}

/// A reminder is set only for a time that is neither past nor too far ahead, repeats no more often
/// than allowed, and never beyond the number of reminders that a chat may hold.
pub proof fn law_accepted_reminders_are_within_bounds(
    prompt: Seq<char>,
    run_at: Seq<char>,
    interval: Option<i64>,
    now: Instant,
    pending: nat,
)
    requires
        schedule_error(prompt, run_at, interval, now, pending) is None,
    ensures
        rfc3339(run_at) is Ok,
        !precedes(rfc3339(run_at)->Ok_0, now),
        elapsed(now, rfc3339(run_at)->Ok_0) <= MAX_SCHEDULE_HORIZON * SECOND,
        interval is Some ==> interval->0 >= MIN_REPEAT_INTERVAL,
        pending + 1 <= MAX_PENDING_TASKS,
        trim(prompt).len() > 0,
{
}

/// A reminder is listed with the time it will run at, in the owner's zone: right behind the prompt
/// stands that time, for whatever zone is configured. In front of the prompt stands the start of
/// the id, and behind the time the gap of one that repeats.
pub proof fn law_listed_times_are_in_the_owners_zone(
    task: TaskView,
    zone: Seq<char>,
    time: Seq<char>,
)
    requires
        shown(task.run_at, zone, "%Y-%m-%d %H:%M"@) == Some(time),
    ensures
        occurs_at(task_line(task, zone), short_id(task.id), 0),
        exists|at: int| #[trigger]
            occurs_at(task_line(task, zone), task.prompt, at) && occurs_at(
                task_line(task, zone),
                "\" at "@ + time,
                at + task.prompt.len(),
            ),
        task.repeat is None ==> ends_in(task_line(task, zone), "\" at "@ + time),
        task.repeat matches Some(interval) ==> ends_in(
            task_line(task, zone),
            "\" at "@ + time + ", repeats every "@ + signed_decimal(interval as int) + "s"@,
        ),
{
    let line = task_line(task, zone);
    let front = short_id(task.id) + ": \""@;
    let moment = "\" at "@ + time;
    let back = match task.repeat {
        Some(interval) => ", repeats every "@ + signed_decimal(interval as int) + "s"@,
        None => seq![],
    };
    assert(line =~= front + task.prompt + moment + back);
    lemma_starts(short_id(task.id), ": \""@ + task.prompt + moment + back);
    assert(line =~= short_id(task.id) + (": \""@ + task.prompt + moment + back));
    let at = front.len() as int;
    assert(line.subrange(at, at + task.prompt.len()) =~= task.prompt);
    assert(line.subrange(
        at + task.prompt.len(),
        at + task.prompt.len() + moment.len(),
    ) =~= moment);
    assert(occurs_at(line, task.prompt, at));
    lemma_ends_in(front + task.prompt, moment + back);
    assert(line =~= front + task.prompt + (moment + back));
    match task.repeat {
        Some(interval) => {
            assert(moment + back =~= "\" at "@ + time + ", repeats every "@ + signed_decimal(
                interval as int,
            ) + "s"@);
        },
        None => {
            assert(moment + back =~= moment);
        },
    }
}

/// A listing shows every reminder on a line of its own, in the order of the agenda, and says so
/// where there is none.
pub proof fn law_every_reminder_is_listed(tasks: Seq<TaskView>, zone: Seq<char>)
    ensures
        task_lines(tasks, zone).len() == tasks.len(),
        tasks.len() > 0 ==> in_turn(tasks_text(tasks, zone), task_lines(tasks, zone)),
        forall|i: int|
            0 <= i < tasks.len() ==> in_turn(
                #[trigger] task_lines(tasks, zone)[i],
                seq![short_id(tasks[i].id), tasks[i].prompt],
            ),
        tasks.len() == 0 ==> tasks_text(tasks, zone) == "no pending scheduled tasks"@,
{
    lemma_join_in_turn(task_lines(tasks, zone), "\n"@);
    assert forall|i: int| 0 <= i < tasks.len() implies in_turn(
        #[trigger] task_lines(tasks, zone)[i],
        seq![short_id(tasks[i].id), tasks[i].prompt],
    ) by {
        let task = tasks[i];
        let line = task_line(task, zone);
        let empty: Seq<char> = seq![];
        let front = short_id(task.id) + ": \""@ + task.prompt;
        let back = line.skip(front.len() as int);
        lemma_two(empty, short_id(task.id), ": \""@, task.prompt, back);
        assert(line =~= empty + short_id(task.id) + ": \""@ + task.prompt + back);
    }
}

/// The confirmation of a reminder tells which one it is, when it will run in the owner's zone, the
/// zone itself, and the gap of one that repeats.
pub proof fn law_confirmations_tell_the_owners_time(
    id: Seq<char>,
    at: i64,
    zone: Seq<char>,
    interval: Option<i64>,
    time: Seq<char>,
)
    requires
        shown(at, zone, "%Y-%m-%d %H:%M %Z"@) == Some(time),
    ensures
        in_turn(
            scheduled_text(id, at, zone, interval),
            seq![short_id(id), time, zone] + (match interval {
                Some(seconds) => seq![signed_decimal(seconds as int)],
                None => seq![],
            }),
        ),
{
    let none: Seq<Seq<char>> = seq![];
    let empty: Seq<char> = seq![];
    let back = match interval {
        Some(seconds) => ", repeating every "@ + signed_decimal(seconds as int) + " seconds"@,
        None => empty,
    };
    let last = match interval {
        Some(seconds) => seq![signed_decimal(seconds as int)],
        None => none,
    };
    if let Some(seconds) = interval {
        lemma_one(", repeating every "@, signed_decimal(seconds as int), " seconds"@);
    }
    let tail = ")"@ + back;
    lemma_in_turn_within(")"@, back, empty, last);
    assert(")"@ + back + empty =~= tail);
    lemma_in_turn(" ("@, zone, tail, last);
    lemma_in_turn("): will run at "@, time, " ("@ + zone + tail, seq![zone] + last);
    let third = "): will run at "@ + time + (" ("@ + zone + tail);
    lemma_in_turn("scheduled ("@, short_id(id), third, seq![time] + (seq![zone] + last));
    assert("scheduled ("@ + short_id(id) + third =~= scheduled_text(id, at, zone, interval));
    assert(seq![short_id(id)] + (seq![time] + (seq![zone] + last)) =~= seq![
        short_id(id),
        time,
        zone,
    ] + last);
}

/// A reminder that is set waits for its time: it joins those that were there, which stay as they
/// were, belongs to the chat that asked, says what was asked without the blanks around it, and runs
/// and repeats when that was asked for. Where setting it fails nothing changes.
pub proof fn law_set_reminders_wait_for_their_time(
    before: Database,
    after: Database,
    zone: Seq<char>,
    fresh: Seq<char>,
    now: Instant,
    chat: i64,
    value: JsonView,
    prompt: Seq<char>,
    run_at: Seq<char>,
    r: Result<Seq<char>, Seq<char>>,
)
    requires
        value is Object,
        value.field("prompt"@) == Some(JsonView::Text(prompt)),
        value.field("run_at"@) == Some(JsonView::Text(run_at)),
        schedule_done(before, after, zone, fresh, now, chat, Ok(value), r),
    ensures
        r is Err ==> after == before,
        r is Ok ==> {
            let rows = after.task_rows();
            &&& rows.len() == before.task_rows().len() + 1
            &&& rows.drop_last() == before.task_rows()
            &&& rows.last().status == TaskStatus::Pending
            &&& rows.last().task.id == fresh
            &&& rows.last().task.chat == chat
            &&& rows.last().task.prompt == trim(prompt)
            &&& rfc3339(run_at) matches Ok(at) && rows.last().task.run_at == at.seconds
            &&& value.field("repeat_interval_seconds"@) is None ==> rows.last().task.repeat is None
            &&& value.field("repeat_interval_seconds"@) matches Some(JsonView::Number(text))
                ==> parse_int(text) == Some(rows.last().task.repeat->0 as int)
                && rows.last().task.repeat is Some
        },
{
    if r is Ok {
        assert(after.task_rows().drop_last() =~= before.task_rows());
    }
}

/// Whether of all rows just row `i` is taken back, and is the only one of the chat that waits under
/// an id with this start.
pub open spec fn takes_back(
    rows: Seq<TaskRowView>,
    after: Seq<TaskRowView>,
    chat: i64,
    prefix: Seq<char>,
    i: int,
) -> bool {
    &&& 0 <= i < rows.len()
    &&& rows[i].status == TaskStatus::Pending
    &&& rows[i].task.chat == chat
    &&& occurs_at(lower(rows[i].task.id), lower(prefix), 0)
    &&& after.len() == rows.len()
    &&& after[i].status == TaskStatus::Cancelled
    &&& after[i].task == rows[i].task
    &&& forall|k: int| 0 <= k < rows.len() && k != i ==> #[trigger] after[k] == rows[k]
    &&& forall|k: int|
        0 <= k < rows.len() && k != i && (#[trigger] rows[k]).status == TaskStatus::Pending
            && rows[k].task.chat == chat ==> !occurs_at(lower(rows[k].task.id), lower(prefix), 0)
}

/// Cancelling takes back one reminder of the chat that asked, the only one that waits under the
/// given start of an id, and changes nothing else; where there is no such one nothing changes.
pub proof fn law_cancelling_takes_back_one_reminder(
    before: Database,
    after: Database,
    chat: i64,
    value: JsonView,
    id: Seq<char>,
    r: Result<Seq<char>, Seq<char>>,
)
    requires
        value is Object,
        value.field("id"@) == Some(JsonView::Text(id)),
        cancel_done(before, after, chat, Ok(value), r),
    ensures
        r is Err ==> after == before,
        r is Ok ==> trim(id).len() > 0 && exists|i: int| #[trigger]
            takes_back(before.task_rows(), after.task_rows(), chat, trim(id), i),
        r matches Ok(text) ==> ends_in(text, trim(id)),
{
    let rows = before.task_rows();
    let meets = pending_named(chat, trim(id));
    law_sole_is_unambiguous(rows, meets);
    if r is Ok {
        let i = sole(rows, meets)->0;
        assert(meets(rows[i]));
        assert(rows[i].status == TaskStatus::Pending);
        lemma_ends_in("cancelled scheduled task "@, trim(id));
        assert forall|k: int|
            0 <= k < rows.len() && k != i && (#[trigger] rows[k]).status == TaskStatus::Pending
                && rows[k].task.chat == chat implies !occurs_at(lower(rows[k].task.id), lower(trim(id)), 0) by {
            assert(!meets(rows[k]));
        }
        assert(takes_back(rows, after.task_rows(), chat, trim(id), i));
    }
}

/// A reminder that asks for nothing out of bounds is set.
pub proof fn law_reminders_within_bounds_are_accepted(
    prompt: Seq<char>,
    run_at: Seq<char>,
    at: Instant,
    interval: Option<i64>,
    now: Instant,
    pending: nat,
)
    requires
        rfc3339(run_at) == Ok::<Instant, Seq<char>>(at),
    ensures
        schedule_error(prompt, run_at, interval, now, pending) is None <==> {
            &&& trim(prompt).len() > 0
            &&& !precedes(at, now)
            &&& elapsed(now, at) <= 366 * 24 * 60 * 60 * SECOND
            &&& interval matches Some(seconds) ==> seconds >= 300
            &&& pending < 20
        },
{
}

/// A reminder that cannot be set is told with what is wrong with it: the time that cannot be read or
/// has passed, or how many reminders wait already.
pub proof fn law_refused_reminders_are_told_why(
    prompt: Seq<char>,
    run_at: Seq<char>,
    interval: Option<i64>,
    now: Instant,
    pending: nat,
)
    requires
        trim(prompt).len() > 0,
    ensures
        rfc3339(run_at) matches Err(reason) ==> (schedule_error(
            prompt,
            run_at,
            interval,
            now,
            pending,
        ) matches Some(text) && in_turn(text, seq![run_at, reason])),
        rfc3339(run_at) matches Ok(at) && precedes(at, now) ==> (schedule_error(
            prompt,
            run_at,
            interval,
            now,
            pending,
        ) matches Some(text) && contains(text, run_at)),
{
    let empty: Seq<char> = seq![];
    if let Err(reason) = rfc3339(run_at) {
        let front = "run_at was not a valid RFC 3339 timestamp: "@;
        lemma_two(front, run_at, ": "@, reason, empty);
        assert(front + run_at + ": "@ + reason =~= front + run_at + ": "@ + reason + empty);
    }
    lemma_one("run_at ("@, run_at, ") is in the past"@);
    lemma_in_turn_contains("run_at ("@ + run_at + ") is in the past"@, seq![run_at], 0);
}

/// That nothing could be cancelled is told with the id that was given.
pub proof fn law_unknown_reminders_are_named(id: Seq<char>)
    ensures
        cancel_text(id, true) matches Ok(text) && ends_in(text, id),
        cancel_text(id, false) matches Err(text) && contains(text, id),
{
    lemma_ends_in("cancelled scheduled task "@, id);
    let front = "no pending scheduled task in this chat matches \""@;
    let back = "\"; call list_scheduled_tasks for the current ids"@;
    lemma_one(front, id, back);
    lemma_in_turn_contains(front + id + back, seq![id], 0);
}

} // verus!
