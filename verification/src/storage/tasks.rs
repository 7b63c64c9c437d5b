//! Reminders: prompts that run at a time, once or again and again.
use vstd::arithmetic::div_mod::lemma_fundamental_div_mod;
use vstd::prelude::*;
use vstd::string::*;

use crate::order::{
    as_ints, keys_as_ints, law_listings_hold_what_they_should, lemma_order_of_rows, lemma_positions, lemma_rows_at_positions, order,
    positions, rows_at, sole, sorted_by,
};
use crate::storage::{has_prefix, id_has_prefix, new_id, Database, StorageError};
use crate::text::{same, seq_view};

verus! {

#[derive(Clone, Copy, Debug, PartialEq, Eq, Structural)]
pub enum TaskStatus {
    Pending,
    /// Claimed by a poll, so that a restart does not dispatch it a second time.
    Running,
    Completed,
    Failed,
    Cancelled,
    /// Too far past its time to still be worth running; terminal.
    Expired,
}

#[derive(Debug)]
pub struct ScheduledTask {
    pub id: String,
    pub telegram_chat_id: i64,
    pub prompt: String,
    pub run_at: i64,
    /// `Some(seconds)` for a recurring task (rescheduled `run_at + seconds` after each run instead
    /// of being marked `completed`); `None` for a one-shot task.
    pub repeat_interval_seconds: Option<i64>,
}

/// A stored task.
#[derive(Debug)]
pub struct TaskRow {
    pub task: ScheduledTask,
    pub status: TaskStatus,
}

/// What `expire_stale_scheduled_tasks` did with a task that missed its window, so the caller can
/// tell the owner the truth about it: a one-shot task is over, a recurring one is not.
#[derive(Clone, Copy, Debug, PartialEq, Eq, Structural)]
pub enum StaleTaskOutcome {
    /// A one-shot task, now `expired`. That status is terminal: it will never run.
    Expired,
    /// A recurring task. The occurrences it slept through are skipped and the row stays `pending`
    /// with `run_at` moved to the first occurrence that is not in the past, so the schedule keeps
    /// its original phase (a 09:00 daily reminder stays at 09:00) instead of dying here.
    Rescheduled {
        /// How many occurrences were missed, counting the one that went stale.
        skipped: i64,
        /// The `run_at` the task now holds.
        next_run_at: i64,
    },
}

/// A task found past the staleness cutoff, paired with what was done about it. `task` carries the
/// row as it was read, so `task.run_at` is the *missed* occurrence, not the rescheduled one.
#[derive(Debug)]
pub struct StaleScheduledTask {
    pub task: ScheduledTask,
    pub outcome: StaleTaskOutcome,
}

#[verifier::ext_equal]
pub struct TaskView {
    pub id: Seq<char>,
    pub chat: i64,
    pub prompt: Seq<char>,
    pub run_at: i64,
    pub repeat: Option<i64>,
}

#[verifier::ext_equal]
pub struct TaskRowView {
    pub task: TaskView,
    pub status: TaskStatus,
}

#[verifier::ext_equal]
pub struct StaleView {
    pub task: TaskView,
    pub outcome: StaleTaskOutcome,
}

impl View for ScheduledTask {
    type V = TaskView;

    open spec fn view(&self) -> TaskView {
        TaskView {
            id: self.id@,
            chat: self.telegram_chat_id,
            prompt: self.prompt@,
            run_at: self.run_at,
            repeat: self.repeat_interval_seconds,
        }
    }
}

impl View for TaskRow {
    type V = TaskRowView;

    open spec fn view(&self) -> TaskRowView {
        TaskRowView { task: self.task@, status: self.status }
    }
}

impl View for StaleScheduledTask {
    type V = StaleView;

    open spec fn view(&self) -> StaleView {
        StaleView { task: self.task@, outcome: self.outcome }
    }
}

impl Clone for ScheduledTask {
    fn clone(&self) -> (r: Self)
        ensures
            r@ == self@,
    {
        ScheduledTask {
            id: self.id.clone(),
            telegram_chat_id: self.telegram_chat_id,
            prompt: self.prompt.clone(),
            run_at: self.run_at,
            repeat_interval_seconds: self.repeat_interval_seconds,
        }
    }
}

/// No two tasks have the same id.
pub open spec fn tasks_wf(rows: Seq<TaskRow>) -> bool {
    forall|i: int, j: int|
        0 <= i < j < rows.len() ==> (#[trigger] rows[i]).task.id@ != (#[trigger] rows[j]).task.id@
}

pub open spec fn has_task(rows: Seq<TaskRow>, id: Seq<char>) -> bool {
    exists|i: int| 0 <= i < rows.len() && (#[trigger] rows[i]).task.id@ == id
}

/// The status that is written as the given word.
pub open spec fn task_status_of(name: Seq<char>) -> Option<TaskStatus> {
    if name == "pending"@ {
        Some(TaskStatus::Pending)
    } else if name == "running"@ {
        Some(TaskStatus::Running)
    } else if name == "completed"@ {
        Some(TaskStatus::Completed)
    } else if name == "failed"@ {
        Some(TaskStatus::Failed)
    } else if name == "cancelled"@ {
        Some(TaskStatus::Cancelled)
    } else if name == "expired"@ {
        Some(TaskStatus::Expired)
    } else {
        None
    }
}

pub fn parse_task_status(name: &str) -> (r: Option<TaskStatus>)
    ensures
        r == task_status_of(name@),
{
    if same(name, "pending") {
        Some(TaskStatus::Pending)
    } else if same(name, "running") {
        Some(TaskStatus::Running)
    } else if same(name, "completed") {
        Some(TaskStatus::Completed)
    } else if same(name, "failed") {
        Some(TaskStatus::Failed)
    } else if same(name, "cancelled") {
        Some(TaskStatus::Cancelled)
    } else if same(name, "expired") {
        Some(TaskStatus::Expired)
    } else {
        None
    }
}

pub open spec fn clamp_i64(n: int) -> int {
    if n < i64::MIN {
        i64::MIN as int
    } else if n > i64::MAX {
        i64::MAX as int
    } else {
        n
    }
}

fn clamp(n: i128) -> (r: i64)
    ensures
        r == clamp_i64(n as int),
{
    if n < -9223372036854775808i128 {
        i64::MIN
    } else if n > 9223372036854775807i128 {
        i64::MAX
    } else {
        n as i64
    }
}

/// How far behind `now` the time `run_at` is.
pub open spec fn behind(run_at: int, now: int) -> int {
    if now <= run_at {
        0
    } else {
        clamp_i64(now - run_at)
    }
}

/// How many occurrences, counting the one at `run_at`, lie before the first that is not in the past.
pub open spec fn occurrences_skipped(run_at: int, interval: int, now: int) -> int {
    let missed = clamp_i64(behind(run_at, now) + interval - 1) / interval;
    if missed < 1 {
        1
    } else {
        missed
    }
}

pub open spec fn next_run(run_at: int, interval: int, now: int) -> int {
    clamp_i64(run_at + clamp_i64(occurrences_skipped(run_at, interval, now) * interval))
}

/// The first occurrence of a task repeating every `interval` seconds from `run_at` that is not in
/// the past, plus how many occurrences (counting the one at `run_at`) were missed getting there.
///
/// Whole multiples of `interval` are added rather than restarting the schedule at `now`, so a
/// reminder keeps the time of day it was set for. "Not in the past" is `>= now`, not `> now`: an
/// occurrence landing exactly on `now` is due, not missed.
pub fn next_occurrence(run_at: i64, interval: i64, now: i64) -> (r: (i64, i64))
    requires
        interval > 0,
    ensures
        r.0 == next_run(run_at as int, interval as int, now as int),
        r.1 == occurrences_skipped(run_at as int, interval as int, now as int),
{
    let gap: i64 = if now <= run_at {
        0
    } else {
        clamp(now as i128 - run_at as i128)
    };
    let padded: i64 = clamp(gap as i128 + interval as i128 - 1);
    let missed: i64 = padded / interval;
    let skipped: i64 = if missed < 1 {
        1
    } else {
        missed
    };
    proof {
        assert(0 < skipped <= 9223372036854775807);
        assert(0 < skipped * interval <= 9223372036854775807 * 9223372036854775807)
            by (nonlinear_arith)
            requires
                0 < skipped <= 9223372036854775807,
                0 < interval <= 9223372036854775807,
        ;
    }
    let advance: i64 = clamp(skipped as i128 * interval as i128);
    (clamp(run_at as i128 + advance as i128), skipped)
}

/// A rescheduled reminder keeps its phase, is not in the past, and no occurrence is passed over
/// that is not in the past (as long as the times fit into 64 bits).
pub proof fn law_next_occurrence(run_at: int, interval: int, now: int)
    requires
        0 < interval <= i64::MAX,
        i64::MIN <= run_at,
        run_at + interval <= i64::MAX,
        now - run_at + interval <= i64::MAX,
        now + interval <= i64::MAX,
    ensures
        next_run(run_at, interval, now) == run_at + occurrences_skipped(run_at, interval, now)
            * interval,
        occurrences_skipped(run_at, interval, now) >= 1,
        next_run(run_at, interval, now) >= now,
        occurrences_skipped(run_at, interval, now) > 1 ==> next_run(run_at, interval, now)
            - interval < now,
{
    let b = behind(run_at, now);
    let n = b + interval - 1;
    let q = n / interval;
    lemma_fundamental_div_mod(n, interval);
    assert(n == interval * q + n % interval);
    assert(0 <= n % interval < interval);
    let skipped = occurrences_skipped(run_at, interval, now);
    assert(skipped == if q < 1 {
        1
    } else {
        q
    });
    assert(interval * q == q * interval) by (nonlinear_arith);
    assert(q * interval >= b);
    if b > 0 {
        assert(q >= 1) by (nonlinear_arith)
            requires
                q * interval >= b,
                b > 0,
                interval > 0,
        ;
    } else {
        assert(q == 0) by (nonlinear_arith)
            requires
                n == interval * q + n % interval,
                n == interval - 1,
                0 <= n % interval < interval,
                interval > 0,
        ;
    }
    assert(skipped * interval == if q < 1 {
        interval
    } else {
        q * interval
    }) by (nonlinear_arith)
        requires
            skipped == if q < 1 {
                1
            } else {
                q
            },
    ;
}

/// The tasks once one of them was cancelled.
pub open spec fn called_off(rows: Seq<TaskRowView>, i: int) -> Seq<TaskRowView> {
    rows.update(i, TaskRowView { status: TaskStatus::Cancelled, ..rows[i] })
}

pub open spec fn is_pending(row: TaskRowView) -> bool {
    row.status == TaskStatus::Pending
}

/// A pending task of the chat.
pub open spec fn pending_in(chat: i64) -> spec_fn(TaskRowView) -> bool {
    |row: TaskRowView| is_pending(row) && row.task.chat == chat
}

/// A pending task of the chat whose id starts with `prefix`.
pub open spec fn pending_named(chat: i64, prefix: Seq<char>) -> spec_fn(TaskRowView) -> bool {
    |row: TaskRowView| is_pending(row) && row.task.chat == chat && has_prefix(row.task.id, prefix)
}

/// A pending task whose time came before `cutoff`.
pub open spec fn stale_at(cutoff: int) -> spec_fn(TaskRowView) -> bool {
    |row: TaskRowView| is_pending(row) && row.task.run_at < cutoff
}

/// A pending task whose time has come.
pub open spec fn due_at(now: int) -> spec_fn(TaskRowView) -> bool {
    |row: TaskRowView| is_pending(row) && row.task.run_at <= now
}

pub open spec fn run_time() -> spec_fn(TaskRowView) -> int {
    |row: TaskRowView| row.task.run_at as int
}

/// The tasks of rows.
pub open spec fn tasks_of(rows: Seq<TaskRowView>) -> Seq<TaskView> {
    Seq::new(rows.len(), |i: int| rows[i].task)
}

/// The tasks that meet a condition, soonest first.
pub open spec fn agenda(rows: Seq<TaskRowView>, meets: spec_fn(TaskRowView) -> bool) -> Seq<
    TaskView,
> {
    tasks_of(sorted_by(rows.filter(meets), run_time()))
}

/// What becomes of a task that missed its window.
pub open spec fn stale_outcome(task: TaskView, now: int) -> StaleTaskOutcome {
    if task.repeat is Some && task.repeat->0 > 0 {
        StaleTaskOutcome::Rescheduled {
            skipped: occurrences_skipped(task.run_at as int, task.repeat->0 as int, now) as i64,
            next_run_at: next_run(task.run_at as int, task.repeat->0 as int, now) as i64,
        }
    } else {
        StaleTaskOutcome::Expired
    }
}

/// A row after stale tasks have been dealt with.
pub open spec fn swept(row: TaskRowView, now: int, cutoff: int) -> TaskRowView {
    if stale_at(cutoff)(row) {
        match stale_outcome(row.task, now) {
            StaleTaskOutcome::Expired => TaskRowView { status: TaskStatus::Expired, ..row },
            StaleTaskOutcome::Rescheduled { skipped, next_run_at } => TaskRowView {
                task: TaskView { run_at: next_run_at, ..row.task },
                ..row
            },
        }
    } else {
        row
    }
}

pub open spec fn with_outcomes(tasks: Seq<TaskView>, now: int) -> Seq<StaleView> {
    Seq::new(tasks.len(), |i: int| StaleView { task: tasks[i], outcome: stale_outcome(tasks[i], now) })
}

/// A row after the due tasks have been claimed.
pub open spec fn claimed(row: TaskRowView, now: int) -> TaskRowView {
    if due_at(now)(row) {
        TaskRowView { status: TaskStatus::Running, ..row }
    } else {
        row
    }
}

/// A row after a restart: what was running runs again.
pub open spec fn unstuck(row: TaskRowView) -> TaskRowView {
    if row.status == TaskStatus::Running {
        TaskRowView { status: TaskStatus::Pending, ..row }
    } else {
        row
    }
}

/// A claimed row after its run ended with `status`.
pub open spec fn settled(row: TaskRowView, status: TaskStatus) -> TaskRowView {
    if status == TaskStatus::Completed && row.task.repeat is Some {
        TaskRowView {
            task: TaskView {
                run_at: (row.task.run_at + row.task.repeat->0) as i64,
                ..row.task
            },
            status: TaskStatus::Pending,
        }
    } else {
        TaskRowView { status, ..row }
    }
}

/// The tasks at the given positions, soonest first.
fn soonest_first(rows: &Vec<TaskRow>, at: &Vec<usize>) -> (r: Vec<ScheduledTask>)
    requires
        forall|i: int| 0 <= i < at@.len() ==> #[trigger] at@[i] < rows@.len(),
    ensures
        seq_view(r@) == tasks_of(
            sorted_by(rows_at(seq_view(rows@), as_ints(at@)), run_time()),
        ),
{
    let ghost picked = rows_at(seq_view(rows@), as_ints(at@));
    let mut keys: Vec<i64> = Vec::new();
    let mut i: usize = 0;
    while i < at.len()
        invariant
            i <= at@.len(),
            forall|k: int| 0 <= k < at@.len() ==> #[trigger] at@[k] < rows@.len(),
            keys@.len() == i,
            forall|k: int|
                0 <= k < i ==> #[trigger] keys@[k] == rows@[at@[k] as int].task.run_at,
        decreases at@.len() - i,
    {
        keys.push(rows[at[i]].task.run_at);
        i = i + 1;
    }
    let ranked = order(&keys);
    proof {
        lemma_order_of_rows(picked, run_time(), keys_as_ints(keys@));
    }
    let ghost ordered = sorted_by(picked, run_time());
    assert(ordered == rows_at(picked, as_ints(ranked@)));
    let mut r: Vec<ScheduledTask> = Vec::new();
    let mut j: usize = 0;
    while j < ranked.len()
        invariant
            j <= ranked@.len(),
            ranked@.len() == at@.len(),
            ordered == rows_at(picked, as_ints(ranked@)),
            picked == rows_at(seq_view(rows@), as_ints(at@)),
            forall|k: int| 0 <= k < at@.len() ==> #[trigger] at@[k] < rows@.len(),
            forall|k: int| 0 <= k < ranked@.len() ==> #[trigger] ranked@[k] < at@.len(),
            r@.len() == j,
            forall|k: int| 0 <= k < j ==> (#[trigger] r@[k])@ == ordered[k].task,
        decreases ranked@.len() - j,
    {
        assert(ranked@[j as int] < at@.len());
        assert(at@[ranked@[j as int] as int] < rows@.len());
        r.push(rows[at[ranked[j]]].task.clone());
        j = j + 1;
    }
    assert(seq_view(r@) =~= tasks_of(ordered));
    r
}

/// The tasks that meet a condition are those at its positions.
proof fn lemma_agenda(rows: Seq<TaskRowView>, meets: spec_fn(TaskRowView) -> bool, at: Seq<usize>)
    requires
        as_ints(at) == positions(rows, meets),
    ensures
        agenda(rows, meets) == tasks_of(sorted_by(rows_at(rows, as_ints(at)), run_time())),
        forall|i: int| 0 <= i < at.len() ==> #[trigger] at[i] < rows.len(),
{
    lemma_rows_at_positions(rows, meets);
    lemma_positions(rows, meets);
    assert forall|i: int| 0 <= i < at.len() implies #[trigger] at[i] < rows.len() by {
        assert(as_ints(at)[i] == at[i]);
    }
}

impl Database {
    /// The stored tasks, in the order they were created.
    pub open spec fn task_rows(&self) -> Seq<TaskRowView> {
        seq_view(self.tasks@)
    }

    fn task_position(&self, id: &str) -> (r: Option<usize>)
        ensures
            match r {
                Some(i) => i < self.tasks@.len() && self.tasks@[i as int].task.id@ == id@,
                None => !has_task(self.tasks@, id@),
            },
    {
        let mut i: usize = 0;
        while i < self.tasks.len()
            invariant
                i <= self.tasks@.len(),
                forall|k: int| 0 <= k < i ==> (#[trigger] self.tasks@[k]).task.id@ != id@,
            decreases self.tasks@.len() - i,
        {
            if same(self.tasks[i].task.id.as_str(), id) {
                return Some(i);
            }
            i = i + 1;
        }
        None
    }

    /// Stores a new pending task under the given id.
    pub fn insert_scheduled_task(
        &mut self,
        id: &str,
        chat_id: i64,
        prompt: &str,
        run_at: i64,
        repeat_interval_seconds: Option<i64>,
    ) -> (r: Result<(), StorageError>)
        requires
            old(self).wf(),
        ensures
            final(self).wf(),
            *final(self) == (Database { tasks: final(self).tasks, ..*old(self) }),
            match r {
                Ok(_) => !has_task(old(self).tasks@, id@) && final(self).task_rows() == old(
                    self,
                ).task_rows().push(
                    TaskRowView {
                        task: TaskView {
                            id: id@,
                            chat: chat_id,
                            prompt: prompt@,
                            run_at,
                            repeat: repeat_interval_seconds,
                        },
                        status: TaskStatus::Pending,
                    },
                ),
                Err(error) => error == StorageError::DuplicateId && has_task(
                    old(self).tasks@,
                    id@,
                ) && *final(self) == *old(self),
            },
    {
        if self.task_position(id).is_some() {
            return Err(StorageError::DuplicateId);
        }
        let ghost before = self.tasks@;
        let row = TaskRow {
            task: ScheduledTask {
                id: id.to_owned(),
                telegram_chat_id: chat_id,
                prompt: prompt.to_owned(),
                run_at,
                repeat_interval_seconds,
            },
            status: TaskStatus::Pending,
        };
        self.tasks.push(row);
        assert(self.task_rows() =~= seq_view(before).push(row@));
        assert(tasks_wf(self.tasks@)) by {
            assert forall|i: int, j: int| 0 <= i < j < self.tasks@.len() implies (
            #[trigger] self.tasks@[i]).task.id@ != (#[trigger] self.tasks@[j]).task.id@ by {
                if j == before.len() {
                    assert(before[i].task.id@ != id@);
                } else {
                    assert(before[i].task.id@ != before[j].task.id@);
                }
            }
        }
        Ok(())
    }

    /// Schedules a prompt to run against `chat_id`'s agent loop at `run_at` (unix seconds).
    /// `repeat_interval_seconds` makes it recurring: each run reschedules `run_at + interval`
    /// instead of the task finishing, rather than a one-shot task's `completed`/`failed`.
    pub fn create_scheduled_task(
        &mut self,
        chat_id: i64,
        prompt: &str,
        run_at: i64,
        repeat_interval_seconds: Option<i64>,
    ) -> (r: Result<String, StorageError>)
        requires
            old(self).wf(),
        ensures
            final(self).wf(),
            *final(self) == (Database { tasks: final(self).tasks, ..*old(self) }),
            match r {
                Ok(id) => !has_task(old(self).tasks@, id@) && id@.len() == 36
                    && final(self).task_rows() == old(self).task_rows().push(
                    TaskRowView {
                        task: TaskView {
                            id: id@,
                            chat: chat_id,
                            prompt: prompt@,
                            run_at,
                            repeat: repeat_interval_seconds,
                        },
                        status: TaskStatus::Pending,
                    },
                ),
                Err(error) => {
                    &&& error == StorageError::DuplicateId
                    &&& *final(self) == *old(self)
                    &&& exists|id: Seq<char>| id.len() == 36 && #[trigger] has_task(old(self).tasks@, id)
                },
            },
    {
        let id = new_id();
        match self.insert_scheduled_task(
            id.as_str(),
            chat_id,
            prompt,
            run_at,
            repeat_interval_seconds,
        ) {
            Ok(_) => Ok(id),
            Err(error) => Err(error),
        }
    }

    /// Every task still pending for `chat_id`, soonest first, for `/reminders`.
    pub fn list_scheduled_tasks(&self, chat_id: i64) -> (r: Vec<ScheduledTask>)
        ensures
            seq_view(r@) == agenda(self.task_rows(), pending_in(chat_id)),
    {
        let ghost rows = self.task_rows();
        let ghost meets = pending_in(chat_id);
        let mut at: Vec<usize> = Vec::new();
        let mut i: usize = 0;
        assert(as_ints(at@) =~= positions(rows.take(0), meets));
        while i < self.tasks.len()
            invariant
                i <= self.tasks@.len(),
                rows == self.task_rows(),
                meets == pending_in(chat_id),
                as_ints(at@) == positions(rows.take(i as int), meets),
            decreases self.tasks@.len() - i,
        {
            let ghost earlier = at@;
            assert(rows.take(i + 1).drop_last() =~= rows.take(i as int));
            assert(rows.take(i + 1).last() == self.tasks@[i as int]@);
            if self.tasks[i].status == TaskStatus::Pending && self.tasks[i].task.telegram_chat_id
                == chat_id {
                at.push(i);
                assert(as_ints(at@) =~= as_ints(earlier).push(i as int));
            }
            i = i + 1;
        }
        assert(rows.take(i as int) =~= rows);
        proof {
            lemma_agenda(rows, meets, at@);
        }
        soonest_first(&self.tasks, &at)
    }

    /// Cancels a pending task scoped to `chat_id` (so one chat cannot cancel another's reminder by
    /// guessing an ID prefix), resolved the same unambiguous-prefix way sessions are. Returns
    /// `false` for no match or an ambiguous prefix.
    pub fn cancel_scheduled_task(&mut self, chat_id: i64, id_prefix: &str) -> (r: bool)
        requires
            old(self).wf(),
        ensures
            final(self).wf(),
            *final(self) == (Database { tasks: final(self).tasks, ..*old(self) }),
            match sole(old(self).task_rows(), pending_named(chat_id, id_prefix@)) {
                Some(i) => r && final(self).task_rows() == called_off(old(self).task_rows(), i),
                None => !r && *final(self) == *old(self),
            },
    {
        let ghost rows = self.task_rows();
        let ghost meets = pending_named(chat_id, id_prefix@);
        let mut at: Vec<usize> = Vec::new();
        let mut i: usize = 0;
        assert(as_ints(at@) =~= positions(rows.take(0), meets));
        while i < self.tasks.len()
            invariant
                i <= self.tasks@.len(),
                *self == *old(self),
                rows == self.task_rows(),
                meets == pending_named(chat_id, id_prefix@),
                as_ints(at@) == positions(rows.take(i as int), meets),
            decreases self.tasks@.len() - i,
        {
            let ghost earlier = at@;
            assert(rows.take(i + 1).drop_last() =~= rows.take(i as int));
            assert(rows.take(i + 1).last() == self.tasks@[i as int]@);
            if self.tasks[i].status == TaskStatus::Pending && self.tasks[i].task.telegram_chat_id
                == chat_id && id_has_prefix(self.tasks[i].task.id.as_str(), id_prefix) {
                at.push(i);
                assert(as_ints(at@) =~= as_ints(earlier).push(i as int));
            }
            i = i + 1;
        }
        assert(rows.take(i as int) =~= rows);
        if at.len() != 1 {
            return false;
        }
        proof {
            lemma_positions(rows, meets);
            assert(as_ints(at@)[0] == at@[0]);
        }
        let position = at[0];
        self.tasks[position].status = TaskStatus::Cancelled;
        assert(self.task_rows() =~= rows.update(
            position as int,
            TaskRowView { status: TaskStatus::Cancelled, ..rows[position as int] },
        ));
        assert(tasks_wf(self.tasks@)) by {
            assert(forall|k: int|
                0 <= k < self.tasks@.len() ==> (#[trigger] self.tasks@[k]).task.id
                    == old(self).tasks@[k].task.id);
        }
        true
    }

    /// Deals with `pending` tasks more than `stale_after` seconds past their `run_at` instead of
    /// dispatching them, and returns what happened to each (so the caller can tell the user their
    /// reminder was skipped rather than silently dropping it).
    ///
    /// Running a reminder hours after it was wanted is worse than not running it, so the missed
    /// *occurrence* is always skipped. What that means depends on the task: a one-shot task has
    /// nothing left and is marked `expired`, which is terminal. A recurring task's missed
    /// occurrence is not its whole life, so it stays `pending` and `run_at` moves forward by whole
    /// intervals to the first occurrence that is not in the past.
    pub fn expire_stale_scheduled_tasks(&mut self, now: i64, stale_after: i64) -> (r: Vec<
        StaleScheduledTask,
    >)
        requires
            old(self).wf(),
            i64::MIN <= now - stale_after <= i64::MAX,
        ensures
            final(self).wf(),
            *final(self) == (Database { tasks: final(self).tasks, ..*old(self) }),
            seq_view(r@) == with_outcomes(
                agenda(old(self).task_rows(), stale_at(now - stale_after)),
                now as int,
            ),
            final(self).task_rows() == old(self).task_rows().map_values(
                |row: TaskRowView| swept(row, now as int, now - stale_after),
            ),
    {
        let cutoff: i64 = now - stale_after;
        let ghost rows = self.task_rows();
        let ghost meets = stale_at(cutoff as int);
        let ghost sweep = |row: TaskRowView| swept(row, now as int, cutoff as int);
        let mut at: Vec<usize> = Vec::new();
        let mut i: usize = 0;
        assert(as_ints(at@) =~= positions(rows.take(0), meets));
        while i < self.tasks.len()
            invariant
                i <= self.tasks@.len(),
                *self == *old(self),
                rows == self.task_rows(),
                meets == stale_at(cutoff as int),
                as_ints(at@) == positions(rows.take(i as int), meets),
            decreases self.tasks@.len() - i,
        {
            let ghost earlier = at@;
            assert(rows.take(i + 1).drop_last() =~= rows.take(i as int));
            assert(rows.take(i + 1).last() == self.tasks@[i as int]@);
            if self.tasks[i].status == TaskStatus::Pending && self.tasks[i].task.run_at < cutoff {
                at.push(i);
                assert(as_ints(at@) =~= as_ints(earlier).push(i as int));
            }
            i = i + 1;
        }
        assert(rows.take(i as int) =~= rows);
        proof {
            lemma_agenda(rows, meets, at@);
        }
        let stale = soonest_first(&self.tasks, &at);
        let ghost missed = agenda(rows, meets);
        let mut handled: Vec<StaleScheduledTask> = Vec::new();
        let mut j: usize = 0;
        while j < stale.len()
            invariant
                j <= stale@.len(),
                seq_view(stale@) == missed,
                handled@.len() == j,
                forall|k: int|
                    0 <= k < j ==> (#[trigger] handled@[k])@ == (StaleView {
                        task: missed[k],
                        outcome: stale_outcome(missed[k], now as int),
                    }),
            decreases stale@.len() - j,
        {
            let task = stale[j].clone();
            assert(task@ == missed[j as int]);
            let outcome = outcome_of(&task, now);
            handled.push(StaleScheduledTask { task, outcome });
            j = j + 1;
        }
        assert(seq_view(handled@) =~= with_outcomes(missed, now as int));
        let mut n: usize = 0;
        while n < self.tasks.len()
            invariant
                n <= self.tasks@.len(),
                self.tasks@.len() == old(self).tasks@.len(),
                *self == (Database { tasks: self.tasks, ..*old(self) }),
                rows == old(self).task_rows(),
                sweep == (|row: TaskRowView| swept(row, now as int, cutoff as int)),
                forall|k: int|
                    0 <= k < n ==> (#[trigger] self.tasks@[k])@ == sweep(rows[k])
                        && self.tasks@[k].task.id@ == old(self).tasks@[k].task.id@,
                forall|k: int|
                    n <= k < self.tasks@.len() ==> #[trigger] self.tasks@[k] == old(
                        self,
                    ).tasks@[k],
            decreases self.tasks@.len() - n,
        {
            assert(rows[n as int] == self.tasks@[n as int]@);
            if self.tasks[n].status == TaskStatus::Pending && self.tasks[n].task.run_at < cutoff {
                match outcome_of(&self.tasks[n].task, now) {
                    StaleTaskOutcome::Expired => {
                        self.tasks[n].status = TaskStatus::Expired;
                    },
                    StaleTaskOutcome::Rescheduled { skipped: _, next_run_at } => {
                        self.tasks[n].task.run_at = next_run_at;
                    },
                }
            }
            n = n + 1;
        }
        assert(self.task_rows() =~= rows.map_values(sweep));
        assert(tasks_wf(self.tasks@)) by {
            assert forall|a: int, b: int| 0 <= a < b < self.tasks@.len() implies (
            #[trigger] self.tasks@[a]).task.id@ != (#[trigger] self.tasks@[b]).task.id@ by {
                assert(old(self).tasks@[a].task.id@ != old(self).tasks@[b].task.id@);
            }
        }
        handled
    }

    /// Atomically claims every `pending` task whose `run_at` has passed by moving it straight to
    /// `running` and returning it, oldest first. Claiming (rather than a plain read) means a crash
    /// mid-run leaves the task `running`, not `pending`, so a restart does not dispatch it a second
    /// time; `reset_stuck_running_tasks` is what recovers a task stuck there by a hard crash.
    pub fn claim_due_scheduled_tasks(&mut self, now: i64) -> (r: Vec<ScheduledTask>)
        requires
            old(self).wf(),
        ensures
            final(self).wf(),
            *final(self) == (Database { tasks: final(self).tasks, ..*old(self) }),
            seq_view(r@) == agenda(old(self).task_rows(), due_at(now as int)),
            final(self).task_rows() == old(self).task_rows().map_values(
                |row: TaskRowView| claimed(row, now as int),
            ),
    {
        let ghost rows = self.task_rows();
        let ghost meets = due_at(now as int);
        let ghost claim = |row: TaskRowView| claimed(row, now as int);
        let mut at: Vec<usize> = Vec::new();
        let mut i: usize = 0;
        assert(as_ints(at@) =~= positions(rows.take(0), meets));
        while i < self.tasks.len()
            invariant
                i <= self.tasks@.len(),
                *self == *old(self),
                rows == self.task_rows(),
                meets == due_at(now as int),
                as_ints(at@) == positions(rows.take(i as int), meets),
            decreases self.tasks@.len() - i,
        {
            let ghost earlier = at@;
            assert(rows.take(i + 1).drop_last() =~= rows.take(i as int));
            assert(rows.take(i + 1).last() == self.tasks@[i as int]@);
            if self.tasks[i].status == TaskStatus::Pending && self.tasks[i].task.run_at <= now {
                at.push(i);
                assert(as_ints(at@) =~= as_ints(earlier).push(i as int));
            }
            i = i + 1;
        }
        assert(rows.take(i as int) =~= rows);
        proof {
            lemma_agenda(rows, meets, at@);
        }
        let due = soonest_first(&self.tasks, &at);
        let mut n: usize = 0;
        while n < self.tasks.len()
            invariant
                n <= self.tasks@.len(),
                self.tasks@.len() == old(self).tasks@.len(),
                *self == (Database { tasks: self.tasks, ..*old(self) }),
                rows == old(self).task_rows(),
                claim == (|row: TaskRowView| claimed(row, now as int)),
                forall|k: int|
                    0 <= k < n ==> (#[trigger] self.tasks@[k])@ == claim(rows[k])
                        && self.tasks@[k].task.id@ == old(self).tasks@[k].task.id@,
                forall|k: int|
                    n <= k < self.tasks@.len() ==> #[trigger] self.tasks@[k] == old(
                        self,
                    ).tasks@[k],
            decreases self.tasks@.len() - n,
        {
            assert(rows[n as int] == self.tasks@[n as int]@);
            if self.tasks[n].status == TaskStatus::Pending && self.tasks[n].task.run_at <= now {
                self.tasks[n].status = TaskStatus::Running;
            }
            n = n + 1;
        }
        assert(self.task_rows() =~= rows.map_values(claim));
        assert(tasks_wf(self.tasks@)) by {
            assert forall|a: int, b: int| 0 <= a < b < self.tasks@.len() implies (
            #[trigger] self.tasks@[a]).task.id@ != (#[trigger] self.tasks@[b]).task.id@ by {
                assert(old(self).tasks@[a].task.id@ != old(self).tasks@[b].task.id@);
            }
        }
        due
    }

    /// On startup, any task still `running` was interrupted mid-execution by a crash or a hard
    /// kill. Resets it to `pending` so the scheduler picks it up again instead of losing it, and
    /// returns how many there were.
    pub fn reset_stuck_running_tasks(&mut self) -> (r: usize)
        requires
            old(self).wf(),
        ensures
            final(self).wf(),
            *final(self) == (Database { tasks: final(self).tasks, ..*old(self) }),
            final(self).task_rows() == old(self).task_rows().map_values(
                |row: TaskRowView| unstuck(row),
            ),
            r == positions(
                old(self).task_rows(),
                |row: TaskRowView| row.status == TaskStatus::Running,
            ).len(),
    {
        let ghost rows = self.task_rows();
        let ghost running = |row: TaskRowView| row.status == TaskStatus::Running;
        let ghost reset = |row: TaskRowView| unstuck(row);
        let mut count: usize = 0;
        let mut n: usize = 0;
        assert(rows.take(0) =~= seq![]);
        while n < self.tasks.len()
            invariant
                n <= self.tasks@.len(),
                self.tasks@.len() == old(self).tasks@.len(),
                *self == (Database { tasks: self.tasks, ..*old(self) }),
                rows == old(self).task_rows(),
                running == (|row: TaskRowView| row.status == TaskStatus::Running),
                reset == (|row: TaskRowView| unstuck(row)),
                count <= n,
                count == positions(rows.take(n as int), running).len(),
                forall|k: int|
                    0 <= k < n ==> (#[trigger] self.tasks@[k])@ == reset(rows[k])
                        && self.tasks@[k].task.id@ == old(self).tasks@[k].task.id@,
                forall|k: int|
                    n <= k < self.tasks@.len() ==> #[trigger] self.tasks@[k] == old(
                        self,
                    ).tasks@[k],
            decreases self.tasks@.len() - n,
        {
            assert(rows[n as int] == self.tasks@[n as int]@);
            assert(rows.take(n + 1).drop_last() =~= rows.take(n as int));
            assert(rows.take(n + 1).last() == rows[n as int]);
            if self.tasks[n].status == TaskStatus::Running {
                self.tasks[n].status = TaskStatus::Pending;
                count = count + 1;
            }
            n = n + 1;
        }
        assert(rows.take(n as int) =~= rows);
        assert(self.task_rows() =~= rows.map_values(reset));
        assert(tasks_wf(self.tasks@)) by {
            assert forall|a: int, b: int| 0 <= a < b < self.tasks@.len() implies (
            #[trigger] self.tasks@[a]).task.id@ != (#[trigger] self.tasks@[b]).task.id@ by {
                assert(old(self).tasks@[a].task.id@ != old(self).tasks@[b].task.id@);
            }
        }
        count
    }

    /// Whether the next occurrence of the task under `id` can be written down.
    pub open spec fn next_run_fits(&self, id: Seq<char>) -> bool {
        forall|i: int|
            0 <= i < self.tasks@.len() && (#[trigger] self.tasks@[i]).task.id@ == id
                && self.tasks@[i].task.repeat_interval_seconds is Some ==> i64::MIN
                <= self.tasks@[i].task.run_at + self.tasks@[i].task.repeat_interval_seconds->0
                <= i64::MAX
    }

    /// Whether the next occurrence of the task under `id` can be written down.
    pub fn can_complete(&self, id: &str) -> (r: bool)
        requires
            self.wf(),
        ensures
            r == self.next_run_fits(id@),
    {
        match self.task_position(id) {
            Some(i) => {
                assert forall|k: int|
                    0 <= k < self.tasks@.len() && (#[trigger] self.tasks@[k]).task.id@
                        == id@ implies k == i by {}
                match self.tasks[i].task.repeat_interval_seconds {
                    Some(interval) => self.tasks[i].task.run_at.checked_add(interval).is_some(),
                    None => true,
                }
            },
            None => true,
        }
    }

    /// Marks a task as failed, whether or not it recurs.
    pub fn fail_scheduled_task(&mut self, id: &str)
        requires
            old(self).wf(),
        ensures
            final(self).wf(),
            *final(self) == (Database { tasks: final(self).tasks, ..*old(self) }),
            final(self).task_rows() == old(self).task_rows().map_values(
                |row: TaskRowView|
                    if row.task.id == id@ {
                        settled(row, TaskStatus::Failed)
                    } else {
                        row
                    },
            ),
    {
        let ghost rows = self.task_rows();
        let ghost resolve = |row: TaskRowView|
            if row.task.id == id@ {
                settled(row, TaskStatus::Failed)
            } else {
                row
            };
        match self.task_position(id) {
            None => {
                assert forall|k: int| 0 <= k < rows.len() implies #[trigger] rows[k] == resolve(
                    rows[k],
                ) by {
                    assert(self.tasks@[k].task.id@ != id@);
                }
                assert(self.task_rows() =~= rows.map_values(resolve));
            },
            Some(i) => {
                self.tasks[i].status = TaskStatus::Failed;
                assert forall|k: int| 0 <= k < rows.len() implies #[trigger] self.task_rows()[k]
                    == resolve(rows[k]) by {
                    if k != i {
                        assert(old(self).tasks@[k].task.id@ != id@);
                    }
                }
                assert(self.task_rows() =~= rows.map_values(resolve));
                assert(tasks_wf(self.tasks@)) by {
                    assert(forall|k: int|
                        0 <= k < self.tasks@.len() ==> (#[trigger] self.tasks@[k]).task.id
                            == old(self).tasks@[k].task.id);
                }
            },
        }
    }

    /// Resolves a claimed task's outcome. A one-shot task simply gets `status`. A recurring task
    /// that ran successfully (`status` is `completed`) is instead put back to `pending` with
    /// `run_at` advanced by its interval, so the scheduler picks it up again next time rather than
    /// it ending here; a recurring task that *failed* still gets marked `failed` like a one-shot
    /// would: a failing recurring reminder should surface the error rather than silently keep
    /// retrying forever.
    pub fn complete_scheduled_task(&mut self, id: &str, status: &str) -> (r: Result<
        (),
        StorageError,
    >)
        requires
            old(self).wf(),
            old(self).next_run_fits(id@),
        ensures
            final(self).wf(),
            *final(self) == (Database { tasks: final(self).tasks, ..*old(self) }),
            r is Err == (has_task(old(self).tasks@, id@) && task_status_of(status@) is None),
            match r {
                Ok(_) => final(self).task_rows() == old(self).task_rows().map_values(
                    |row: TaskRowView|
                        if row.task.id == id@ {
                            settled(row, task_status_of(status@)->0)
                        } else {
                            row
                        },
                ),
                Err(error) => error == StorageError::InvalidStatus && *final(self) == *old(self),
            },
    {
        let ghost rows = self.task_rows();
        let ghost resolve = |row: TaskRowView|
            if row.task.id == id@ {
                settled(row, task_status_of(status@)->0)
            } else {
                row
            };
        match self.task_position(id) {
            None => {
                assert(self.task_rows() =~= rows.map_values(resolve)) by {
                    assert forall|k: int| 0 <= k < rows.len() implies rows[k] == resolve(
                        rows[k],
                    ) by {
                        assert(self.tasks@[k].task.id@ != id@);
                    }
                }
                Ok(())
            },
            Some(i) => {
                assert(has_task(self.tasks@, id@)) by {
                    assert(self.tasks@[i as int].task.id@ == id@);
                }
                let status = match parse_task_status(status) {
                    Some(status) => status,
                    None => {
                        return Err(StorageError::InvalidStatus);
                    },
                };
                let mut resolved = status;
                if status == TaskStatus::Completed {
                    if let Some(interval) = self.tasks[i].task.repeat_interval_seconds {
                        let next: i64 = self.tasks[i].task.run_at + interval;
                        self.tasks[i].task.run_at = next;
                        resolved = TaskStatus::Pending;
                    }
                }
                self.tasks[i].status = resolved;
                assert(self.task_rows() =~= rows.map_values(resolve)) by {
                    assert forall|k: int| 0 <= k < rows.len() implies #[trigger] self.task_rows()[k]
                        == resolve(rows[k]) by {
                        if k != i {
                            assert(old(self).tasks@[k].task.id@ != id@);
                        }
                    }
                }
                assert(tasks_wf(self.tasks@)) by {
                    assert(forall|k: int|
                        0 <= k < self.tasks@.len() ==> (#[trigger] self.tasks@[k]).task.id
                            == old(self).tasks@[k].task.id);
                }
                Ok(())
            },
        }
    }
}

fn outcome_of(task: &ScheduledTask, now: i64) -> (r: StaleTaskOutcome)
    ensures
        r == stale_outcome(task@, now as int),
{
    match task.repeat_interval_seconds {
        Some(interval) => {
            if interval > 0 {
                let (next_run_at, skipped) = next_occurrence(task.run_at, interval, now);
                StaleTaskOutcome::Rescheduled { skipped, next_run_at }
            } else {
                StaleTaskOutcome::Expired
            }
        },
        None => StaleTaskOutcome::Expired,
    }
}

/// Whether a task is over: nothing but a new task of its own brings it back.
pub open spec fn is_over(status: TaskStatus) -> bool {
    status == TaskStatus::Completed || status == TaskStatus::Failed || status
        == TaskStatus::Cancelled || status == TaskStatus::Expired
}

/// A task that is over stays over: neither a sweep for stale tasks, nor a poll, nor a restart
/// touches it.
pub proof fn law_nothing_revives_a_finished_task(row: TaskRowView, now: int, cutoff: int)
    requires
        is_over(row.status),
    ensures
        swept(row, now, cutoff) == row,
        claimed(row, now) == row,
        unstuck(row) == row,
{
}

/// A task that one poll has claimed is not claimed by the next.
pub proof fn law_no_task_is_claimed_twice(rows: Seq<TaskRowView>, now: int, later: int)
    requires
        now <= later,
    ensures
        forall|i: int|
            0 <= i < rows.len() && due_at(now)(#[trigger] rows[i]) ==> !due_at(later)(
                claimed(rows[i], now),
            ),
        agenda(rows.map_values(|row: TaskRowView| claimed(row, now)), due_at(now)).len() == 0,
{
    let claim = |row: TaskRowView| claimed(row, now);
    let after = rows.map_values(claim);
    lemma_positions(after, due_at(now));
    lemma_rows_at_positions(after, due_at(now));
    let at = positions(after, due_at(now));
    if at.len() > 0 {
        assert(due_at(now)(after[at[0]]));
        assert(after[at[0]] == claimed(rows[at[0]], now));
    }
    crate::order::law_sorted_by(after.filter(due_at(now)), run_time());
}

/// After a sweep a stale task either has expired or waits for an occurrence that is not in the
/// past, so that what it slept through does not fire in the same poll.
pub proof fn law_a_swept_task_is_not_overdue(row: TaskRowView, now: int, cutoff: int)
    requires
        stale_at(cutoff)(row),
        row.task.repeat is Some ==> {
            &&& row.task.run_at + row.task.repeat->0 <= i64::MAX
            &&& now - row.task.run_at + row.task.repeat->0 <= i64::MAX
            &&& now + row.task.repeat->0 <= i64::MAX
        },
    ensures
        swept(row, now, cutoff).status == TaskStatus::Expired || (swept(row, now, cutoff).status
            == TaskStatus::Pending && swept(row, now, cutoff).task.run_at >= now),
        swept(row, now, cutoff).status == TaskStatus::Expired <==> !(row.task.repeat is Some
            && row.task.repeat->0 > 0),
{
    if row.task.repeat is Some && row.task.repeat->0 > 0 {
        law_next_occurrence(row.task.run_at as int, row.task.repeat->0 as int, now);
    }
}

/// A restart makes what was interrupted due again: what a poll had claimed is claimed once more.
pub proof fn law_a_restart_recovers_claimed_tasks(row: TaskRowView, now: int)
    requires
        due_at(now)(row),
    ensures
        unstuck(claimed(row, now)) == row,
{
}

/// A chat's agenda lists its own reminders that wait, every one of them and nothing else, soonest
/// first.
pub proof fn law_an_agenda_is_complete_and_in_order(rows: Seq<TaskRowView>, chat: i64)
    ensures
        ({
            let listed = agenda(rows, pending_in(chat));
            &&& forall|i: int|
                0 <= i < listed.len() ==> (#[trigger] listed[i]).chat == chat && rows.contains(
                    TaskRowView { task: listed[i], status: TaskStatus::Pending },
                )
            &&& forall|k: int|
                0 <= k < rows.len() && (#[trigger] rows[k]).status == TaskStatus::Pending
                    && rows[k].task.chat == chat ==> listed.contains(rows[k].task)
            &&& forall|i: int, j: int|
                0 <= i < j < listed.len() ==> (#[trigger] listed[i]).run_at <= (
                #[trigger] listed[j]).run_at
        }),
{
    lemma_agenda_listing(rows, pending_in(chat));
    let listed = agenda(rows, pending_in(chat));
    assert forall|i: int| 0 <= i < listed.len() implies (#[trigger] listed[i]).chat == chat
        && rows.contains(TaskRowView { task: listed[i], status: TaskStatus::Pending }) by {
        assert(stems_from(rows, pending_in(chat), listed[i]));
        let row = choose|row: TaskRowView|
            row.task == listed[i] && #[trigger] rows.contains(row) && pending_in(chat)(row);
        assert(row == TaskRowView { task: listed[i], status: TaskStatus::Pending });
    }
    assert forall|k: int|
        0 <= k < rows.len() && (#[trigger] rows[k]).status == TaskStatus::Pending
            && rows[k].task.chat == chat implies listed.contains(rows[k].task) by {
        assert(pending_in(chat)(rows[k]));
    }
}

/// Whether one of the rows that meet a condition holds the task.
spec fn stems_from(
    rows: Seq<TaskRowView>,
    meets: spec_fn(TaskRowView) -> bool,
    task: TaskView,
) -> bool {
    exists|row: TaskRowView| row.task == task && #[trigger] rows.contains(row) && meets(row)
}

proof fn lemma_agenda_listing(rows: Seq<TaskRowView>, meets: spec_fn(TaskRowView) -> bool)
    ensures
        ({
            let listed = agenda(rows, meets);
            &&& forall|i: int|
                0 <= i < listed.len() ==> stems_from(rows, meets, #[trigger] listed[i])
            &&& forall|k: int|
                0 <= k < rows.len() && meets(#[trigger] rows[k]) ==> listed.contains(rows[k].task)
            &&& forall|i: int, j: int|
                0 <= i < j < listed.len() ==> (#[trigger] listed[i]).run_at <= (
                #[trigger] listed[j]).run_at
        }),
{
    law_listings_hold_what_they_should(rows, meets, run_time());
    let kept = sorted_by(rows.filter(meets), run_time());
    let listed = agenda(rows, meets);
    assert forall|i: int| 0 <= i < listed.len() implies stems_from(
        rows,
        meets,
        #[trigger] listed[i],
    ) by {
        assert(kept[i].task == listed[i] && rows.contains(kept[i]) && meets(kept[i]));
    }
    assert forall|k: int| 0 <= k < rows.len() && meets(#[trigger] rows[k]) implies listed.contains(
        rows[k].task,
    ) by {
        let i = choose|i: int| 0 <= i < kept.len() && kept[i] == rows[k];
        assert(listed[i] == rows[k].task);
    }
    assert forall|i: int, j: int| 0 <= i < j < listed.len() implies (#[trigger] listed[i]).run_at
        <= (#[trigger] listed[j]).run_at by {
        assert(run_time()(kept[i]) <= run_time()(kept[j]));
    }
}

/// A poll hands out the reminders that wait and whose time has come, of all chats, every one of them
/// and nothing else, soonest first; just these are running afterwards that were not before, and
/// nothing but their status changes.
pub proof fn law_polls_hand_out_what_is_due(rows: Seq<TaskRowView>, now: i64)
    ensures
        ({
            let handed = agenda(rows, due_at(now as int));
            &&& forall|i: int|
                0 <= i < handed.len() ==> (#[trigger] handed[i]).run_at <= now && rows.contains(
                    TaskRowView { task: handed[i], status: TaskStatus::Pending },
                )
            &&& forall|k: int|
                0 <= k < rows.len() && (#[trigger] rows[k]).status == TaskStatus::Pending
                    && rows[k].task.run_at <= now ==> handed.contains(rows[k].task)
            &&& forall|i: int, j: int|
                0 <= i < j < handed.len() ==> (#[trigger] handed[i]).run_at <= (
                #[trigger] handed[j]).run_at
            &&& forall|k: int|
                0 <= k < rows.len() ==> {
                    let after = claimed(#[trigger] rows[k], now as int);
                    &&& after.task == rows[k].task
                    &&& rows[k].status == TaskStatus::Pending && rows[k].task.run_at <= now
                        ==> after.status == TaskStatus::Running
                    &&& rows[k].status != TaskStatus::Pending || rows[k].task.run_at > now
                        ==> after == rows[k]
                }
        }),
{
    let meets = due_at(now as int);
    lemma_agenda_listing(rows, meets);
    let handed = agenda(rows, meets);
    assert forall|i: int| 0 <= i < handed.len() implies (#[trigger] handed[i]).run_at <= now
        && rows.contains(TaskRowView { task: handed[i], status: TaskStatus::Pending }) by {
        assert(stems_from(rows, meets, handed[i]));
        let row = choose|row: TaskRowView|
            row.task == handed[i] && #[trigger] rows.contains(row) && meets(row);
        assert(row == TaskRowView { task: handed[i], status: TaskStatus::Pending });
    }
    assert forall|k: int|
        0 <= k < rows.len() && (#[trigger] rows[k]).status == TaskStatus::Pending
            && rows[k].task.run_at <= now implies handed.contains(rows[k].task) by {
        assert(meets(rows[k]));
    }
}

/// A sweep touches only reminders that wait and whose window has passed: one that repeats waits for a
/// later occurrence, at a whole number of gaps behind the missed one, and one that does not expires.
/// What a reminder says and whose it is stays.
pub proof fn law_sweeps_touch_only_what_was_missed(row: TaskRowView, now: i64, cutoff: i64)
    ensures
        ({
            let after = swept(row, now as int, cutoff as int);
            let missed = row.status == TaskStatus::Pending && row.task.run_at < cutoff;
            &&& after.task.id == row.task.id
            &&& after.task.chat == row.task.chat
            &&& after.task.prompt == row.task.prompt
            &&& after.task.repeat == row.task.repeat
            &&& !missed ==> after == row
            &&& missed && row.task.repeat is None ==> after.status == TaskStatus::Expired
                && after.task == row.task
            &&& missed && row.task.repeat is Some && row.task.repeat->0 > 0 ==> after.status
                == TaskStatus::Pending
        }),
{
}

/// What a sweep reports of a reminder is what becomes of it.
pub proof fn law_sweeps_report_what_they_do(row: TaskRowView, now: i64, cutoff: i64)
    requires
        row.status == TaskStatus::Pending,
        row.task.run_at < cutoff,
    ensures
        stale_outcome(row.task, now as int) is Expired <==> swept(
            row,
            now as int,
            cutoff as int,
        ).status == TaskStatus::Expired,
        stale_outcome(row.task, now as int) matches StaleTaskOutcome::Rescheduled {
            skipped,
            next_run_at,
        } ==> swept(row, now as int, cutoff as int).task.run_at == next_run_at,
{
}

/// A sweep reports every reminder it touches, soonest first, and no other.
pub proof fn law_sweeps_report_all_they_touch(rows: Seq<TaskRowView>, now: i64, cutoff: i64)
    ensures
        ({
            let told = with_outcomes(agenda(rows, stale_at(cutoff as int)), now as int);
            &&& forall|i: int|
                0 <= i < told.len() ==> (#[trigger] told[i]).task.run_at < cutoff && rows.contains(
                    TaskRowView { task: told[i].task, status: TaskStatus::Pending },
                ) && told[i].outcome == stale_outcome(told[i].task, now as int)
            &&& forall|k: int|
                0 <= k < rows.len() && (#[trigger] rows[k]).status == TaskStatus::Pending
                    && rows[k].task.run_at < cutoff ==> exists|i: int|
                    0 <= i < told.len() && (#[trigger] told[i]).task == rows[k].task
        }),
{
    let meets = stale_at(cutoff as int);
    lemma_agenda_listing(rows, meets);
    let listed = agenda(rows, meets);
    let told = with_outcomes(listed, now as int);
    assert forall|i: int| 0 <= i < told.len() implies (#[trigger] told[i]).task.run_at < cutoff
        && rows.contains(TaskRowView { task: told[i].task, status: TaskStatus::Pending })
        && told[i].outcome == stale_outcome(told[i].task, now as int) by {
        assert(stems_from(rows, meets, listed[i]));
        let row = choose|row: TaskRowView|
            row.task == listed[i] && #[trigger] rows.contains(row) && meets(row);
        assert(row == TaskRowView { task: told[i].task, status: TaskStatus::Pending });
    }
    assert forall|k: int|
        0 <= k < rows.len() && (#[trigger] rows[k]).status == TaskStatus::Pending
            && rows[k].task.run_at < cutoff implies exists|i: int|
        0 <= i < told.len() && (#[trigger] told[i]).task == rows[k].task by {
        assert(meets(rows[k]));
        let i = choose|i: int| 0 <= i < listed.len() && listed[i] == rows[k].task;
        assert(told[i].task == rows[k].task);
    }
}

/// A reminder that ran well and repeats waits again, one gap later; every other one ends as it was
/// settled. What it says and whose it is stays.
pub proof fn law_repeating_reminders_wait_again(row: TaskRowView, status: TaskStatus)
    ensures
        settled(row, status).task.id == row.task.id,
        settled(row, status).task.chat == row.task.chat,
        settled(row, status).task.prompt == row.task.prompt,
        settled(row, status).task.repeat == row.task.repeat,
        status == TaskStatus::Completed && row.task.repeat is Some && i64::MIN <= row.task.run_at
            + row.task.repeat->0 <= i64::MAX ==> {
            &&& settled(row, status).status == TaskStatus::Pending
            &&& settled(row, status).task.run_at == row.task.run_at + row.task.repeat->0
        },
        status != TaskStatus::Completed || row.task.repeat is None ==> {
            &&& settled(row, status).status == status
            &&& settled(row, status).task == row.task
        },
{
}

/// A restart touches only what was running, and nothing but its status.
pub proof fn law_restarts_touch_only_what_was_running(row: TaskRowView)
    ensures
        unstuck(row).task == row.task,
        row.status == TaskStatus::Running ==> unstuck(row).status == TaskStatus::Pending,
        row.status != TaskStatus::Running ==> unstuck(row).status == row.status,
{
}

/// Each status has one name of its own.
pub proof fn law_statuses_are_told_apart(a: Seq<char>, b: Seq<char>)
    ensures
        task_status_of(a) is Some && task_status_of(a) == task_status_of(b) ==> a == b,
        task_status_of("pending"@) == Some(TaskStatus::Pending),
        task_status_of("running"@) == Some(TaskStatus::Running),
        task_status_of("completed"@) == Some(TaskStatus::Completed),
        task_status_of("failed"@) == Some(TaskStatus::Failed),
        task_status_of("cancelled"@) == Some(TaskStatus::Cancelled),
        task_status_of("expired"@) == Some(TaskStatus::Expired),
{
    reveal_strlit("pending");
    reveal_strlit("running");
    reveal_strlit("completed");
    reveal_strlit("failed");
    reveal_strlit("cancelled");
    reveal_strlit("expired");
    assert("pending"@[0] == 'p' && "running"@[0] == 'r' && "completed"@[0] == 'c' && "completed"@[1]
        == 'o' && "failed"@[0] == 'f' && "cancelled"@[0] == 'c' && "cancelled"@[1] == 'a'
        && "expired"@[0] == 'e');
}

/// Cancelling a task changes its status and nothing else, of it or of the others.
pub proof fn law_calling_off_changes_one_status(rows: Seq<TaskRowView>, i: int, k: int)
    requires
        0 <= i < rows.len(),
        0 <= k < rows.len(),
    ensures
        called_off(rows, i).len() == rows.len(),
        called_off(rows, i)[i].status == TaskStatus::Cancelled,
        called_off(rows, i)[i].task == rows[i].task,
        k != i ==> called_off(rows, i)[k] == rows[k],
{
}

} // verus!
