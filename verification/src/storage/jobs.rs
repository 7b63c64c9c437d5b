//! Background commands: what runs, what came of it, and who still has to be told.
use vstd::prelude::*;
use vstd::string::*;

use crate::order::{
    as_ints, keys_as_ints, law_listings_hold_what_they_should, law_sole_is_unambiguous,
    law_sorted_by, lemma_order_of_rows, lemma_positions, lemma_rows_at_positions, order, positions, rows_at, sole, sorted_by,
};
use crate::clock::unix_now;
use crate::storage::{has_prefix, id_has_prefix, new_id, Database, StorageError};
use crate::text::{clone_text, lower, occurs_at, opt_view, same, seq_view};

verus! {

/// How many finished commands are kept for each chat.
pub const KEPT_JOBS: usize = 100;

/// What is recorded of a command that a restart interrupted.
pub const INTERRUPTED: &'static str = "Kumo restarted while this command was running.";

#[derive(Clone, Copy, Debug, PartialEq, Eq, Structural)]
pub enum JobStatus {
    Running,
    Completed,
    Failed,
    Cancelled,
    /// Stopped because it ran longer than a background command may.
    TimedOut,
}

/// A background command, as it is reported.
#[derive(Debug)]
pub struct CommandJob {
    pub id: String,
    pub telegram_chat_id: i64,
    pub command: String,
    pub workspace: String,
    pub status: String,
    pub pid: Option<i64>,
    pub output: Option<String>,
    pub exit_code: Option<i64>,
    pub created_at: i64,
}

/// A stored background command.
#[derive(Debug)]
pub struct JobRow {
    pub id: String,
    pub telegram_chat_id: i64,
    pub command: String,
    pub workspace: String,
    pub status: JobStatus,
    pub pid: Option<i64>,
    pub output: Option<String>,
    pub exit_code: Option<i64>,
    pub notified: bool,
    pub created_at: i64,
    pub finished_at: Option<i64>,
}

#[verifier::ext_equal]
pub struct JobView {
    pub id: Seq<char>,
    pub chat: i64,
    pub command: Seq<char>,
    pub workspace: Seq<char>,
    pub status: Seq<char>,
    pub pid: Option<i64>,
    pub output: Option<Seq<char>>,
    pub exit_code: Option<i64>,
    pub created_at: i64,
}

#[verifier::ext_equal]
pub struct JobRowView {
    pub id: Seq<char>,
    pub chat: i64,
    pub command: Seq<char>,
    pub workspace: Seq<char>,
    pub status: JobStatus,
    pub pid: Option<i64>,
    pub output: Option<Seq<char>>,
    pub exit_code: Option<i64>,
    pub notified: bool,
    pub created_at: i64,
    pub finished_at: Option<i64>,
}

impl View for CommandJob {
    type V = JobView;

    open spec fn view(&self) -> JobView {
        JobView {
            id: self.id@,
            chat: self.telegram_chat_id,
            command: self.command@,
            workspace: self.workspace@,
            status: self.status@,
            pid: self.pid,
            output: opt_view(self.output),
            exit_code: self.exit_code,
            created_at: self.created_at,
        }
    }
}

impl View for JobRow {
    type V = JobRowView;

    open spec fn view(&self) -> JobRowView {
        JobRowView {
            id: self.id@,
            chat: self.telegram_chat_id,
            command: self.command@,
            workspace: self.workspace@,
            status: self.status,
            pid: self.pid,
            output: opt_view(self.output),
            exit_code: self.exit_code,
            notified: self.notified,
            created_at: self.created_at,
            finished_at: self.finished_at,
        }
    }
}

impl Clone for CommandJob {
    fn clone(&self) -> (r: Self)
        ensures
            r@ == self@,
    {
        CommandJob {
            id: self.id.clone(),
            telegram_chat_id: self.telegram_chat_id,
            command: self.command.clone(),
            workspace: self.workspace.clone(),
            status: self.status.clone(),
            pid: self.pid,
            output: clone_text(&self.output),
            exit_code: self.exit_code,
            created_at: self.created_at,
        }
    }
}

/// The word that a status is written as.
pub open spec fn job_status_text(status: JobStatus) -> Seq<char> {
    match status {
        JobStatus::Running => "running"@,
        JobStatus::Completed => "completed"@,
        JobStatus::Failed => "failed"@,
        JobStatus::Cancelled => "cancelled"@,
        JobStatus::TimedOut => "timed_out"@,
    }
}

/// The status that is written as the given word.
pub open spec fn job_status_of(name: Seq<char>) -> Option<JobStatus> {
    if name == "running"@ {
        Some(JobStatus::Running)
    } else if name == "completed"@ {
        Some(JobStatus::Completed)
    } else if name == "failed"@ {
        Some(JobStatus::Failed)
    } else if name == "cancelled"@ {
        Some(JobStatus::Cancelled)
    } else if name == "timed_out"@ {
        Some(JobStatus::TimedOut)
    } else {
        None
    }
}

pub fn parse_job_status(name: &str) -> (r: Option<JobStatus>)
    ensures
        r == job_status_of(name@),
{
    if same(name, "running") {
        Some(JobStatus::Running)
    } else if same(name, "completed") {
        Some(JobStatus::Completed)
    } else if same(name, "failed") {
        Some(JobStatus::Failed)
    } else if same(name, "cancelled") {
        Some(JobStatus::Cancelled)
    } else if same(name, "timed_out") {
        Some(JobStatus::TimedOut)
    } else {
        None
    }
}

impl JobStatus {
    /// The word that the status is written as.
    pub fn name(&self) -> (r: &'static str)
        ensures
            r@ == job_status_text(*self),
    {
        match self {
            JobStatus::Running => "running",
            JobStatus::Completed => "completed",
            JobStatus::Failed => "failed",
            JobStatus::Cancelled => "cancelled",
            JobStatus::TimedOut => "timed_out",
        }
    }
}

/// What is reported of a stored command.
pub open spec fn report_of(row: JobRowView) -> JobView {
    JobView {
        id: row.id,
        chat: row.chat,
        command: row.command,
        workspace: row.workspace,
        status: job_status_text(row.status),
        pid: row.pid,
        output: row.output,
        exit_code: row.exit_code,
        created_at: row.created_at,
    }
}

impl JobRow {
    /// What is reported of this command.
    pub fn report(&self) -> (r: CommandJob)
        ensures
            r@ == report_of(self@),
    {
        CommandJob {
            id: self.id.clone(),
            telegram_chat_id: self.telegram_chat_id,
            command: self.command.clone(),
            workspace: self.workspace.clone(),
            status: self.status.name().to_owned(),
            pid: self.pid,
            output: clone_text(&self.output),
            exit_code: self.exit_code,
            created_at: self.created_at,
        }
    }
}

/// No two commands have the same id.
pub open spec fn jobs_wf(rows: Seq<JobRow>) -> bool {
    forall|i: int, j: int|
        0 <= i < j < rows.len() ==> (#[trigger] rows[i]).id@ != (#[trigger] rows[j]).id@
}

pub open spec fn has_job(rows: Seq<JobRowView>, id: Seq<char>) -> bool {
    exists|i: int| 0 <= i < rows.len() && (#[trigger] rows[i]).id == id
}

pub open spec fn is_finished(row: JobRowView) -> bool {
    row.status != JobStatus::Running
}

/// Whether row `k` is a finished command of the chat that is newer than row `i`.
pub open spec fn is_newer(rows: Seq<JobRowView>, chat: i64, i: int, k: int) -> bool {
    &&& 0 <= k < rows.len()
    &&& rows[k].chat == chat
    &&& is_finished(rows[k])
    &&& rows[k].created_at > rows[i].created_at || (rows[k].created_at == rows[i].created_at && k
        > i)
}

/// The finished commands of the chat that are newer than row `i`.
pub open spec fn newer_than(rows: Seq<JobRowView>, chat: i64, i: int) -> Set<int> {
    Set::new(|k: int| is_newer(rows, chat, i, k))
}

/// Whether enough newer commands of the chat have finished that row `i` is no longer kept.
pub open spec fn is_outdated(rows: Seq<JobRowView>, chat: i64, i: int) -> bool {
    rows[i].chat == chat && is_finished(rows[i]) && newer_than(rows, chat, i).len() >= KEPT_JOBS
}

/// The first `n` rows without the outdated ones of the chat.
pub open spec fn pruned_to(rows: Seq<JobRowView>, chat: i64, n: int) -> Seq<JobRowView>
    decreases n,
{
    if n <= 0 {
        seq![]
    } else if is_outdated(rows, chat, n - 1) {
        pruned_to(rows, chat, n - 1)
    } else {
        pruned_to(rows, chat, n - 1).push(rows[n - 1])
    }
}

/// The rows without the outdated ones of the chat.
pub open spec fn pruned(rows: Seq<JobRowView>, chat: i64) -> Seq<JobRowView> {
    pruned_to(rows, chat, rows.len() as int)
}

/// A running command after it ended.
pub open spec fn ended(
    row: JobRowView,
    status: JobStatus,
    output: Seq<char>,
    exit_code: Option<i32>,
    now: i64,
) -> JobRowView {
    JobRowView {
        status,
        output: Some(output),
        exit_code: match exit_code {
            Some(code) => Some(code as i64),
            None => None,
        },
        finished_at: Some(now),
        ..row
    }
}

/// A running command after it was cancelled.
pub open spec fn cancelled(row: JobRowView, now: i64) -> JobRowView {
    JobRowView { status: JobStatus::Cancelled, finished_at: Some(now), ..row }
}

/// A command after a restart.
pub open spec fn interrupted(row: JobRowView, now: i64) -> JobRowView {
    if row.status == JobStatus::Running {
        JobRowView {
            status: JobStatus::Failed,
            output: Some(INTERRUPTED@),
            finished_at: Some(now),
            ..row
        }
    } else {
        row
    }
}

pub open spec fn job_in(chat: i64) -> spec_fn(JobRowView) -> bool {
    |row: JobRowView| row.chat == chat
}

pub open spec fn job_named(chat: i64, prefix: Seq<char>) -> spec_fn(JobRowView) -> bool {
    |row: JobRowView| row.chat == chat && has_prefix(row.id, prefix)
}

/// A finished command whose chat has not been told.
pub open spec fn unreported() -> spec_fn(JobRowView) -> bool {
    |row: JobRowView| !row.notified && is_finished(row)
}

/// A row once the chat has been told of the command under `id`.
pub open spec fn told(id: Seq<char>) -> spec_fn(JobRowView) -> JobRowView {
    |row: JobRowView|
        if row.id == id {
            JobRowView { notified: true, ..row }
        } else {
            row
        }
}

pub open spec fn start_time() -> spec_fn(JobRowView) -> int {
    |row: JobRowView| row.created_at as int
}

/// When a command finished; one without a time comes first.
pub open spec fn finish_time() -> spec_fn(JobRowView) -> int {
    |row: JobRowView|
        match row.finished_at {
            Some(time) => time as int,
            None => i64::MIN as int,
        }
}

pub open spec fn reports(rows: Seq<JobRowView>) -> Seq<JobView> {
    Seq::new(rows.len(), |i: int| report_of(rows[i]))
}

/// The chat's commands, the one started last first, at most `limit` of them.
pub open spec fn latest_jobs(rows: Seq<JobRowView>, chat: i64, limit: int) -> Seq<JobView> {
    let all = reports(sorted_by(rows.filter(job_in(chat)), start_time()).reverse());
    if all.len() <= limit {
        all
    } else {
        all.take(limit)
    }
}

/// The finished commands still to be reported, in the order they finished.
pub open spec fn unreported_jobs(rows: Seq<JobRowView>) -> Seq<JobView> {
    reports(sorted_by(rows.filter(unreported()), finish_time()))
}

/// The running command under `id`, by its position.
pub open spec fn is_running_at(rows: Seq<JobRowView>, id: Seq<char>, i: int) -> bool {
    0 <= i < rows.len() && rows[i].id == id && rows[i].status == JobStatus::Running
}

pub open spec fn is_running(rows: Seq<JobRowView>, id: Seq<char>) -> bool {
    exists|i: int| is_running_at(rows, id, i)
}

proof fn lemma_newer_finite(rows: Seq<JobRowView>, chat: i64, i: int, n: int)
    requires
        0 <= n <= rows.len(),
    ensures
        Set::new(|k: int| k < n && is_newer(rows, chat, i, k)).finite(),
        Set::new(|k: int| k < n && is_newer(rows, chat, i, k)).len() <= n,
        n > 0 && is_newer(rows, chat, i, n - 1) ==> Set::new(
            |k: int| k < n && is_newer(rows, chat, i, k),
        ).len() == Set::new(|k: int| k < n - 1 && is_newer(rows, chat, i, k)).len() + 1,
        n > 0 && !is_newer(rows, chat, i, n - 1) ==> Set::new(
            |k: int| k < n && is_newer(rows, chat, i, k),
        ).len() == Set::new(|k: int| k < n - 1 && is_newer(rows, chat, i, k)).len(),
    decreases n,
{
    let all = Set::new(|k: int| k < n && is_newer(rows, chat, i, k));
    if n == 0 {
        assert(all =~= Set::<int>::empty());
    } else {
        lemma_newer_finite(rows, chat, i, n - 1);
        let rest = Set::new(|k: int| k < n - 1 && is_newer(rows, chat, i, k));
        if is_newer(rows, chat, i, n - 1) {
            assert(all =~= rest.insert(n - 1));
        } else {
            assert(all =~= rest);
        }
    }
}

impl Database {
    pub open spec fn job_rows(&self) -> Seq<JobRowView> {
        seq_view(self.jobs@)
    }

    fn running_position(&self, id: &str) -> (r: Option<usize>)
        ensures
            match r {
                Some(i) => is_running_at(self.job_rows(), id@, i as int),
                None => !is_running(self.job_rows(), id@),
            },
    {
        let ghost rows = self.job_rows();
        let mut i: usize = 0;
        while i < self.jobs.len()
            invariant
                i <= self.jobs@.len(),
                rows == self.job_rows(),
                forall|k: int| 0 <= k < i ==> !#[trigger] is_running_at(rows, id@, k),
            decreases self.jobs@.len() - i,
        {
            assert(rows[i as int] == self.jobs@[i as int]@);
            if same(self.jobs[i].id.as_str(), id) && self.jobs[i].status == JobStatus::Running {
                assert(is_running_at(rows, id@, i as int));
                return Some(i);
            }
            i = i + 1;
        }
        None
    }

    /// How many finished commands of the chat are newer than the one at `i`.
    fn count_newer(&self, chat_id: i64, i: usize) -> (r: usize)
        requires
            i < self.jobs@.len(),
        ensures
            r == newer_than(self.job_rows(), chat_id, i as int).len(),
            newer_than(self.job_rows(), chat_id, i as int).finite(),
    {
        let ghost rows = self.job_rows();
        let mut count: usize = 0;
        let mut k: usize = 0;
        proof {
            lemma_newer_finite(rows, chat_id, i as int, 0);
        }
        while k < self.jobs.len()
            invariant
                k <= self.jobs@.len(),
                i < self.jobs@.len(),
                rows == self.job_rows(),
                count <= k,
                count == Set::new(
                    |n: int| n < k && is_newer(rows, chat_id, i as int, n),
                ).len(),
            decreases self.jobs@.len() - k,
        {
            proof {
                lemma_newer_finite(rows, chat_id, i as int, k + 1);
                assert(rows[k as int] == self.jobs@[k as int]@);
                assert(rows[i as int] == self.jobs@[i as int]@);
                let next = Set::new(|n: int| n < k + 1 && is_newer(rows, chat_id, i as int, n));
                assert(Set::new(|n: int| n < (k + 1) - 1 && is_newer(rows, chat_id, i as int, n))
                    =~= Set::new(|n: int| n < k && is_newer(rows, chat_id, i as int, n)));
            }
            if self.jobs[k].telegram_chat_id == chat_id && self.jobs[k].status
                != JobStatus::Running && (self.jobs[k].created_at > self.jobs[i].created_at
                || (self.jobs[k].created_at == self.jobs[i].created_at && k > i)) {
                count = count + 1;
            }
            k = k + 1;
            assert(Set::new(|n: int| n < k && is_newer(rows, chat_id, i as int, n)) =~= Set::new(
                |n: int| n < (k - 1) + 1 && is_newer(rows, chat_id, i as int, n),
            ));
        }
        proof {
            lemma_newer_finite(rows, chat_id, i as int, k as int);
            assert(newer_than(rows, chat_id, i as int) =~= Set::new(
                |n: int| n < k && is_newer(rows, chat_id, i as int, n),
            ));
        }
        count
    }

    /// Drops the chat's finished commands beyond the latest ones.
    fn prune_terminal_command_jobs(&mut self, chat_id: i64)
        requires
            old(self).wf(),
        ensures
            final(self).wf(),
            *final(self) == (Database { jobs: final(self).jobs, ..*old(self) }),
            final(self).job_rows() == pruned(old(self).job_rows(), chat_id),
    {
        let ghost rows = self.job_rows();
        let mut outdated: Vec<bool> = Vec::new();
        let mut i: usize = 0;
        while i < self.jobs.len()
            invariant
                i <= self.jobs@.len(),
                *self == *old(self),
                rows == self.job_rows(),
                outdated@.len() == i,
                forall|k: int| 0 <= k < i ==> #[trigger] outdated@[k] == is_outdated(rows, chat_id, k),
            decreases self.jobs@.len() - i,
        {
            assert(rows[i as int] == self.jobs@[i as int]@);
            let drop = self.jobs[i].telegram_chat_id == chat_id && self.jobs[i].status
                != JobStatus::Running && self.count_newer(chat_id, i) >= KEPT_JOBS;
            outdated.push(drop);
            i = i + 1;
        }
        let mut n: usize = self.jobs.len();
        proof {
            assert(seq_view(self.jobs@) =~= rows.take(n as int) + kept_from(rows, chat_id, n as int));
        }
        while n > 0
            invariant
                n <= rows.len(),
                outdated@.len() == rows.len(),
                *self == (Database { jobs: self.jobs, ..*old(self) }),
                forall|k: int|
                    0 <= k < rows.len() ==> #[trigger] outdated@[k] == is_outdated(rows, chat_id, k),
                jobs_wf(self.jobs@),
                seq_view(self.jobs@) == rows.take(n as int) + kept_from(rows, chat_id, n as int),
            decreases n,
        {
            let ghost before = self.jobs@;
            n = n - 1;
            assert(before.len() == seq_view(before).len());
            assert(seq_view(before).len() >= n + 1);
            assert(seq_view(before)[n as int] == rows[n as int]);
            if outdated[n] {
                self.jobs.remove(n);
                assert(self.jobs@ =~= before.remove(n as int));
                assert(seq_view(self.jobs@) =~= seq_view(before).remove(n as int));
                assert forall|a: int, b: int| 0 <= a < b < self.jobs@.len() implies (
                #[trigger] self.jobs@[a]).id@ != (#[trigger] self.jobs@[b]).id@ by {
                    let x = if a < n {
                        a
                    } else {
                        a + 1
                    };
                    let y = if b < n {
                        b
                    } else {
                        b + 1
                    };
                    assert(before[x].id@ != before[y].id@);
                }
            }
            assert(seq_view(self.jobs@) =~= rows.take(n as int) + kept_from(rows, chat_id, n as int));
        }
        proof {
            lemma_kept_from(rows, chat_id, 0);
            assert(seq_view(self.jobs@) =~= pruned(rows, chat_id));
        }
    }

    /// Stores a new running command under the given id, started at `now`.
    pub fn insert_command_job(
        &mut self,
        id: &str,
        now: i64,
        chat_id: i64,
        command: &str,
        workspace: &str,
        pid: u32,
    ) -> (r: Result<(), StorageError>)
        requires
            old(self).wf(),
        ensures
            final(self).wf(),
            *final(self) == (Database { jobs: final(self).jobs, ..*old(self) }),
            match r {
                Ok(_) => !has_job(old(self).job_rows(), id@) && final(self).job_rows() == old(
                    self,
                ).job_rows().push(new_job(id@, now, chat_id, command@, workspace@, pid)),
                Err(error) => error == StorageError::DuplicateId && has_job(
                    old(self).job_rows(),
                    id@,
                ) && *final(self) == *old(self),
            },
    {
        let ghost before = self.jobs@;
        let ghost rows = self.job_rows();
        let mut i: usize = 0;
        while i < self.jobs.len()
            invariant
                i <= self.jobs@.len(),
                *self == *old(self),
                old(self).wf(),
                rows == self.job_rows(),
                forall|k: int| 0 <= k < i ==> (#[trigger] rows[k]).id != id@,
            decreases self.jobs@.len() - i,
        {
            assert(rows[i as int] == self.jobs@[i as int]@);
            if same(self.jobs[i].id.as_str(), id) {
                return Err(StorageError::DuplicateId);
            }
            i = i + 1;
        }
        let row = JobRow {
            id: id.to_owned(),
            telegram_chat_id: chat_id,
            command: command.to_owned(),
            workspace: workspace.to_owned(),
            status: JobStatus::Running,
            pid: Some(pid as i64),
            output: None,
            exit_code: None,
            notified: false,
            created_at: now,
            finished_at: None,
        };
        self.jobs.push(row);
        assert(self.job_rows() =~= rows.push(row@));
        assert(row@ =~= new_job(id@, now, chat_id, command@, workspace@, pid));
        assert forall|a: int, b: int| 0 <= a < b < self.jobs@.len() implies (
        #[trigger] self.jobs@[a]).id@ != (#[trigger] self.jobs@[b]).id@ by {
            if b == before.len() {
                assert(rows[a].id != id@);
            } else {
                assert(before[a].id@ != before[b].id@);
            }
        }
        Ok(())
    }

    /// Stores a new running command and returns its id.
    pub fn create_command_job(
        &mut self,
        chat_id: i64,
        command: &str,
        workspace: &str,
        pid: u32,
    ) -> (r: Result<String, StorageError>)
        requires
            old(self).wf(),
        ensures
            final(self).wf(),
            *final(self) == (Database { jobs: final(self).jobs, ..*old(self) }),
            match r {
                Ok(id) => {
                    &&& id@.len() == 36
                    &&& !has_job(old(self).job_rows(), id@)
                    &&& exists|now: i64|
                        final(self).job_rows() == old(self).job_rows().push(
                            #[trigger] new_job(id@, now, chat_id, command@, workspace@, pid),
                        )
                },
                Err(error) => {
                    &&& error == StorageError::DuplicateId
                    &&& *final(self) == *old(self)
                    &&& exists|id: Seq<char>| id.len() == 36 && #[trigger] has_job(old(self).job_rows(), id)
                },
            },
    {
        let id = new_id();
        let now: i64 = unix_now();
        match self.insert_command_job(id.as_str(), now, chat_id, command, workspace, pid) {
            Ok(_) => {
                assert(self.job_rows() == old(self).job_rows().push(
                    new_job(id@, now, chat_id, command@, workspace@, pid),
                ));
                Ok(id)
            },
            Err(error) => Err(error),
        }
    }

    /// Records at `now` how a running command ended, and drops the chat's commands that are no
    /// longer kept. Returns whether the command was running.
    pub fn complete_command_job_at(
        &mut self,
        now: i64,
        id: &str,
        status: &str,
        output: &str,
        exit_code: Option<i32>,
    ) -> (r: Result<bool, StorageError>)
        requires
            old(self).wf(),
        ensures
            final(self).wf(),
            *final(self) == (Database { jobs: final(self).jobs, ..*old(self) }),
            match r {
                Ok(updated) => {
                    &&& updated == is_running(old(self).job_rows(), id@)
                    &&& updated ==> job_status_of(status@) is Some
                    &&& !updated ==> final(self).job_rows() == old(self).job_rows()
                    &&& forall|i: int| #[trigger]
                        is_running_at(old(self).job_rows(), id@, i) ==> final(self).job_rows()
                            == pruned(
                            old(self).job_rows().update(
                                i,
                                ended(
                                    old(self).job_rows()[i],
                                    job_status_of(status@)->0,
                                    output@,
                                    exit_code,
                                    now,
                                ),
                            ),
                            old(self).job_rows()[i].chat,
                        )
                },
                Err(error) => {
                    &&& error == StorageError::InvalidStatus
                    &&& is_running(old(self).job_rows(), id@)
                    &&& job_status_of(status@) is None
                    &&& *final(self) == *old(self)
                },
            },
    {
        let ghost rows = self.job_rows();
        match self.running_position(id) {
            Some(i) => {
                assert(is_running(rows, id@));
                let status = match parse_job_status(status) {
                    Some(status) => status,
                    None => {
                        return Err(StorageError::InvalidStatus);
                    },
                };
                let chat_id: i64 = self.jobs[i].telegram_chat_id;
                self.jobs[i].status = status;
                self.jobs[i].output = Some(output.to_owned());
                self.jobs[i].exit_code = match exit_code {
                    Some(code) => Some(code as i64),
                    None => None,
                };
                self.jobs[i].finished_at = Some(now);
                assert(self.job_rows() =~= rows.update(
                    i as int,
                    ended(rows[i as int], status, output@, exit_code, now),
                ));
                assert(jobs_wf(self.jobs@)) by {
                    assert(forall|k: int|
                        0 <= k < self.jobs@.len() ==> (#[trigger] self.jobs@[k]).id
                            == old(self).jobs@[k].id);
                }
                proof {
                    assert forall|k: int| #[trigger] is_running_at(rows, id@, k) implies k == i by {
                        assert(rows[k] == old(self).jobs@[k]@);
                        assert(rows[i as int] == old(self).jobs@[i as int]@);
                    }
                }
                self.prune_terminal_command_jobs(chat_id);
                Ok(true)
            },
            None => Ok(false),
        }
    }

    /// Records how a running command ended, and drops the chat's commands that are no longer kept.
    /// Returns whether the command was running.
    pub fn complete_command_job(
        &mut self,
        id: &str,
        status: &str,
        output: &str,
        exit_code: Option<i32>,
    ) -> (r: Result<bool, StorageError>)
        requires
            old(self).wf(),
        ensures
            final(self).wf(),
            *final(self) == (Database { jobs: final(self).jobs, ..*old(self) }),
            match r {
                Ok(updated) => {
                    &&& updated == is_running(old(self).job_rows(), id@)
                    &&& updated ==> job_status_of(status@) is Some
                    &&& !updated ==> final(self).job_rows() == old(self).job_rows()
                    &&& forall|i: int| #[trigger]
                        is_running_at(old(self).job_rows(), id@, i) ==> exists|now: i64|
                            final(self).job_rows() == pruned(
                                old(self).job_rows().update(
                                    i,
                                    #[trigger] ended(
                                        old(self).job_rows()[i],
                                        job_status_of(status@)->0,
                                        output@,
                                        exit_code,
                                        now,
                                    ),
                                ),
                                old(self).job_rows()[i].chat,
                            )
                },
                Err(error) => {
                    &&& error == StorageError::InvalidStatus
                    &&& is_running(old(self).job_rows(), id@)
                    &&& job_status_of(status@) is None
                    &&& *final(self) == *old(self)
                },
            },
    {
        let now: i64 = unix_now();
        self.complete_command_job_at(now, id, status, output, exit_code)
    }

    /// Records at `now` that a running command was cancelled. Returns whether it was running.
    pub fn cancel_command_job_at(&mut self, now: i64, id: &str) -> (r: bool)
        requires
            old(self).wf(),
        ensures
            final(self).wf(),
            *final(self) == (Database { jobs: final(self).jobs, ..*old(self) }),
            r == is_running(old(self).job_rows(), id@),
            !r ==> final(self).job_rows() == old(self).job_rows(),
            forall|i: int| #[trigger]
                is_running_at(old(self).job_rows(), id@, i) ==> final(self).job_rows() == pruned(
                    old(self).job_rows().update(i, cancelled(old(self).job_rows()[i], now)),
                    old(self).job_rows()[i].chat,
                ),
    {
        let ghost rows = self.job_rows();
        match self.running_position(id) {
            Some(i) => {
                let chat_id: i64 = self.jobs[i].telegram_chat_id;
                self.jobs[i].status = JobStatus::Cancelled;
                self.jobs[i].finished_at = Some(now);
                assert(self.job_rows() =~= rows.update(i as int, cancelled(rows[i as int], now)));
                assert(jobs_wf(self.jobs@)) by {
                    assert(forall|k: int|
                        0 <= k < self.jobs@.len() ==> (#[trigger] self.jobs@[k]).id
                            == old(self).jobs@[k].id);
                }
                proof {
                    assert forall|k: int| #[trigger] is_running_at(rows, id@, k) implies k == i by {
                        assert(rows[k] == old(self).jobs@[k]@);
                        assert(rows[i as int] == old(self).jobs@[i as int]@);
                    }
                }
                self.prune_terminal_command_jobs(chat_id);
                true
            },
            None => false,
        }
    }

    /// Records that a running command was cancelled. Returns whether it was running.
    pub fn cancel_command_job(&mut self, id: &str) -> (r: bool)
        requires
            old(self).wf(),
        ensures
            final(self).wf(),
            *final(self) == (Database { jobs: final(self).jobs, ..*old(self) }),
            r == is_running(old(self).job_rows(), id@),
            !r ==> final(self).job_rows() == old(self).job_rows(),
            forall|i: int| #[trigger]
                is_running_at(old(self).job_rows(), id@, i) ==> exists|now: i64|
                    final(self).job_rows() == pruned(
                        old(self).job_rows().update(
                            i,
                            #[trigger] cancelled(old(self).job_rows()[i], now),
                        ),
                        old(self).job_rows()[i].chat,
                    ),
    {
        let now: i64 = unix_now();
        self.cancel_command_job_at(now, id)
    }

    /// The rows at `at`, in ascending order of `keys`, as they are reported.
    fn ranked_reports(&self, at: &Vec<usize>, keys: &Vec<i64>, key: Ghost<
        spec_fn(JobRowView) -> int,
    >) -> (r: Vec<CommandJob>)
        requires
            keys@.len() == at@.len(),
            forall|k: int|
                0 <= k < at@.len() ==> #[trigger] at@[k] < self.jobs@.len() && keys@[k] == key@(
                    self.job_rows()[at@[k] as int],
                ),
        ensures
            seq_view(r@) == reports(
                sorted_by(rows_at(self.job_rows(), as_ints(at@)), key@),
            ),
    {
        let ghost rows = self.job_rows();
        let ghost picked = rows_at(rows, as_ints(at@));
        let ranked = order(keys);
        proof {
            assert forall|k: int| 0 <= k < picked.len() implies #[trigger] keys_as_ints(keys@)[k]
                == key@(picked[k]) by {
                assert(at@[k] < rows.len());
                assert(picked[k] == rows[at@[k] as int]);
            }
            lemma_order_of_rows(picked, key@, keys_as_ints(keys@));
        }
        let ghost sorted = sorted_by(picked, key@);
        let mut r: Vec<CommandJob> = Vec::new();
        let mut j: usize = 0;
        while j < ranked.len()
            invariant
                j <= ranked@.len(),
                ranked@.len() == at@.len(),
                rows == self.job_rows(),
                picked == rows_at(rows, as_ints(at@)),
                sorted == rows_at(picked, as_ints(ranked@)),
                forall|k: int| 0 <= k < at@.len() ==> #[trigger] at@[k] < self.jobs@.len(),
                forall|k: int| 0 <= k < ranked@.len() ==> #[trigger] ranked@[k] < at@.len(),
                r@.len() == j,
                forall|k: int| 0 <= k < j ==> (#[trigger] r@[k])@ == report_of(sorted[k]),
            decreases ranked@.len() - j,
        {
            assert(ranked@[j as int] < at@.len());
            assert(at@[ranked@[j as int] as int] < self.jobs@.len());
            r.push(self.jobs[at[ranked[j]]].report());
            j = j + 1;
        }
        assert(seq_view(r@) =~= reports(sorted));
        r
    }

    /// The chat's commands, the one started last first.
    pub fn list_command_jobs(&self, chat_id: i64, limit: usize) -> (r: Result<
        Vec<CommandJob>,
        StorageError,
    >)
        ensures
            match r {
                Ok(jobs) => limit <= i64::MAX && seq_view(jobs@) == latest_jobs(
                    self.job_rows(),
                    chat_id,
                    limit as int,
                ),
                Err(error) => limit > i64::MAX && error == StorageError::Limit,
            },
    {
        if limit as u64 > 9223372036854775807u64 {
            return Err(StorageError::Limit);
        }
        let ghost rows = self.job_rows();
        let ghost meets = job_in(chat_id);
        let mut at: Vec<usize> = Vec::new();
        let mut keys: Vec<i64> = Vec::new();
        let mut i: usize = 0;
        assert(as_ints(at@) =~= positions(rows.take(0), meets));
        while i < self.jobs.len()
            invariant
                i <= self.jobs@.len(),
                rows == self.job_rows(),
                meets == job_in(chat_id),
                as_ints(at@) == positions(rows.take(i as int), meets),
                keys@.len() == at@.len(),
                forall|k: int|
                    0 <= k < at@.len() ==> #[trigger] at@[k] < i && keys@[k]
                        == rows[at@[k] as int].created_at,
            decreases self.jobs@.len() - i,
        {
            let ghost earlier = at@;
            assert(rows.take(i + 1).drop_last() =~= rows.take(i as int));
            assert(rows.take(i + 1).last() == self.jobs@[i as int]@);
            if self.jobs[i].telegram_chat_id == chat_id {
                at.push(i);
                keys.push(self.jobs[i].created_at);
                assert(as_ints(at@) =~= as_ints(earlier).push(i as int));
            }
            i = i + 1;
        }
        assert(rows.take(i as int) =~= rows);
        proof {
            lemma_rows_at_positions(rows, meets);
        }
        let ascending = self.ranked_reports(&at, &keys, Ghost(start_time()));
        let ghost sorted = sorted_by(rows.filter(meets), start_time());
        assert(seq_view(ascending@) == reports(sorted));
        let ghost all = reports(sorted.reverse());
        assert(seq_view(ascending@).len() == reports(sorted).len());
        let mut r: Vec<CommandJob> = Vec::new();
        let mut n: usize = ascending.len();
        while n > 0 && r.len() < limit
            invariant
                n <= ascending@.len(),
                seq_view(ascending@) == reports(sorted),
                ascending@.len() == sorted.len(),
                all == reports(sorted.reverse()),
                r@.len() == ascending@.len() - n,
                r@.len() <= limit,
                forall|k: int| 0 <= k < r@.len() ==> (#[trigger] r@[k])@ == all[k],
            decreases n,
        {
            n = n - 1;
            assert(seq_view(ascending@)[n as int] == reports(sorted)[n as int]);
            r.push(ascending[n].clone());
        }
        assert(seq_view(ascending@).len() == sorted.len());
        assert(seq_view(r@) =~= latest_jobs(rows, chat_id, limit as int));
        Ok(r)
    }

    /// The chat's command whose id starts with `id_prefix`, if that is unambiguous.
    pub fn find_command_job(&self, chat_id: i64, id_prefix: &str) -> (r: Option<CommandJob>)
        ensures
            match sole(self.job_rows(), job_named(chat_id, id_prefix@)) {
                Some(i) => r is Some && r->0@ == report_of(self.job_rows()[i]),
                None => r is None,
            },
    {
        let ghost rows = self.job_rows();
        let ghost meets = job_named(chat_id, id_prefix@);
        let mut at: Vec<usize> = Vec::new();
        let mut i: usize = 0;
        assert(as_ints(at@) =~= positions(rows.take(0), meets));
        while i < self.jobs.len()
            invariant
                i <= self.jobs@.len(),
                rows == self.job_rows(),
                meets == job_named(chat_id, id_prefix@),
                as_ints(at@) == positions(rows.take(i as int), meets),
            decreases self.jobs@.len() - i,
        {
            let ghost earlier = at@;
            assert(rows.take(i + 1).drop_last() =~= rows.take(i as int));
            assert(rows.take(i + 1).last() == self.jobs@[i as int]@);
            if self.jobs[i].telegram_chat_id == chat_id && id_has_prefix(
                self.jobs[i].id.as_str(),
                id_prefix,
            ) {
                at.push(i);
                assert(as_ints(at@) =~= as_ints(earlier).push(i as int));
            }
            i = i + 1;
        }
        assert(rows.take(i as int) =~= rows);
        if at.len() != 1 {
            return None;
        }
        proof {
            lemma_positions(rows, meets);
            assert(as_ints(at@)[0] == at@[0]);
        }
        Some(self.jobs[at[0]].report())
    }

    /// The finished commands whose chats have not been told, in the order they finished.
    pub fn unnotified_command_jobs(&self) -> (r: Vec<CommandJob>)
        ensures
            seq_view(r@) == unreported_jobs(self.job_rows()),
    {
        let ghost rows = self.job_rows();
        let ghost meets = unreported();
        let mut at: Vec<usize> = Vec::new();
        let mut keys: Vec<i64> = Vec::new();
        let mut i: usize = 0;
        assert(as_ints(at@) =~= positions(rows.take(0), meets));
        while i < self.jobs.len()
            invariant
                i <= self.jobs@.len(),
                rows == self.job_rows(),
                meets == unreported(),
                as_ints(at@) == positions(rows.take(i as int), meets),
                keys@.len() == at@.len(),
                forall|k: int|
                    0 <= k < at@.len() ==> #[trigger] at@[k] < i && keys@[k] == finish_time()(
                        rows[at@[k] as int],
                    ),
            decreases self.jobs@.len() - i,
        {
            let ghost earlier = at@;
            assert(rows.take(i + 1).drop_last() =~= rows.take(i as int));
            assert(rows.take(i + 1).last() == self.jobs@[i as int]@);
            if !self.jobs[i].notified && self.jobs[i].status != JobStatus::Running {
                at.push(i);
                keys.push(
                    match self.jobs[i].finished_at {
                        Some(time) => time,
                        None => i64::MIN,
                    },
                );
                assert(as_ints(at@) =~= as_ints(earlier).push(i as int));
            }
            i = i + 1;
        }
        assert(rows.take(i as int) =~= rows);
        proof {
            lemma_rows_at_positions(rows, meets);
        }
        self.ranked_reports(&at, &keys, Ghost(finish_time()))
    }

    /// Records that the chat has been told of the command.
    pub fn mark_command_job_notified(&mut self, id: &str)
        requires
            old(self).wf(),
        ensures
            final(self).wf(),
            *final(self) == (Database { jobs: final(self).jobs, ..*old(self) }),
            final(self).job_rows() == old(self).job_rows().map_values(told(id@)),
    {
        let ghost rows = self.job_rows();
        let ghost mark = told(id@);
        let mut n: usize = 0;
        while n < self.jobs.len()
            invariant
                n <= self.jobs@.len(),
                self.jobs@.len() == old(self).jobs@.len(),
                *self == (Database { jobs: self.jobs, ..*old(self) }),
                rows == old(self).job_rows(),
                mark == told(id@),
                forall|k: int|
                    0 <= k < n ==> (#[trigger] self.jobs@[k])@ == mark(rows[k])
                        && self.jobs@[k].id@ == old(self).jobs@[k].id@,
                forall|k: int|
                    n <= k < self.jobs@.len() ==> #[trigger] self.jobs@[k] == old(self).jobs@[k],
            decreases self.jobs@.len() - n,
        {
            assert(rows[n as int] == self.jobs@[n as int]@);
            if same(self.jobs[n].id.as_str(), id) {
                self.jobs[n].notified = true;
            }
            n = n + 1;
        }
        assert(self.job_rows() =~= rows.map_values(mark));
        assert forall|a: int, b: int| 0 <= a < b < self.jobs@.len() implies (
        #[trigger] self.jobs@[a]).id@ != (#[trigger] self.jobs@[b]).id@ by {
            assert(old(self).jobs@[a].id@ != old(self).jobs@[b].id@);
        }
    }

    /// On startup at `now`, records every command still running as failed, since the restart
    /// interrupted it, and returns how many there were.
    pub fn fail_interrupted_command_jobs_at(&mut self, now: i64) -> (r: usize)
        requires
            old(self).wf(),
        ensures
            final(self).wf(),
            *final(self) == (Database { jobs: final(self).jobs, ..*old(self) }),
            final(self).job_rows() == old(self).job_rows().map_values(
                |row: JobRowView| interrupted(row, now),
            ),
            r == positions(
                old(self).job_rows(),
                |row: JobRowView| row.status == JobStatus::Running,
            ).len(),
    {
        let ghost rows = self.job_rows();
        let ghost running = |row: JobRowView| row.status == JobStatus::Running;
        let ghost fail = |row: JobRowView| interrupted(row, now);
        let mut count: usize = 0;
        let mut n: usize = 0;
        assert(rows.take(0) =~= seq![]);
        while n < self.jobs.len()
            invariant
                n <= self.jobs@.len(),
                self.jobs@.len() == old(self).jobs@.len(),
                *self == (Database { jobs: self.jobs, ..*old(self) }),
                rows == old(self).job_rows(),
                running == (|row: JobRowView| row.status == JobStatus::Running),
                fail == (|row: JobRowView| interrupted(row, now)),
                count <= n,
                count == positions(rows.take(n as int), running).len(),
                forall|k: int|
                    0 <= k < n ==> (#[trigger] self.jobs@[k])@ == fail(rows[k])
                        && self.jobs@[k].id@ == old(self).jobs@[k].id@,
                forall|k: int|
                    n <= k < self.jobs@.len() ==> #[trigger] self.jobs@[k] == old(self).jobs@[k],
            decreases self.jobs@.len() - n,
        {
            assert(rows[n as int] == self.jobs@[n as int]@);
            assert(rows.take(n + 1).drop_last() =~= rows.take(n as int));
            assert(rows.take(n + 1).last() == rows[n as int]);
            if self.jobs[n].status == JobStatus::Running {
                self.jobs[n].status = JobStatus::Failed;
                self.jobs[n].output = Some(INTERRUPTED.to_owned());
                self.jobs[n].finished_at = Some(now);
                count = count + 1;
            }
            n = n + 1;
        }
        assert(rows.take(n as int) =~= rows);
        assert(self.job_rows() =~= rows.map_values(fail));
        assert forall|a: int, b: int| 0 <= a < b < self.jobs@.len() implies (
        #[trigger] self.jobs@[a]).id@ != (#[trigger] self.jobs@[b]).id@ by {
            assert(old(self).jobs@[a].id@ != old(self).jobs@[b].id@);
        }
        count
    }

    /// On startup, records every command still running as failed, since the restart interrupted
    /// it, and returns how many there were.
    pub fn fail_interrupted_command_jobs(&mut self) -> (r: usize)
        requires
            old(self).wf(),
        ensures
            final(self).wf(),
            *final(self) == (Database { jobs: final(self).jobs, ..*old(self) }),
            exists|now: i64|
                final(self).job_rows() == old(self).job_rows().map_values(
                    #[trigger] interruption(now),
                ),
            r == positions(
                old(self).job_rows(),
                |row: JobRowView| row.status == JobStatus::Running,
            ).len(),
    {
        let now: i64 = unix_now();
        let r = self.fail_interrupted_command_jobs_at(now);
        assert(self.job_rows() =~= old(self).job_rows().map_values(interruption(now)));
        r
    }
}

pub open spec fn interruption(now: i64) -> spec_fn(JobRowView) -> JobRowView {
    |row: JobRowView| interrupted(row, now)
}

/// A command that was started at `now`.
pub open spec fn new_job(
    id: Seq<char>,
    now: i64,
    chat: i64,
    command: Seq<char>,
    workspace: Seq<char>,
    pid: u32,
) -> JobRowView {
    JobRowView {
        id,
        chat,
        command,
        workspace,
        status: JobStatus::Running,
        pid: Some(pid as i64),
        output: None,
        exit_code: None,
        notified: false,
        created_at: now,
        finished_at: None,
    }
}

/// The rows from `n` on without the outdated ones of the chat.
spec fn kept_from(rows: Seq<JobRowView>, chat: i64, n: int) -> Seq<JobRowView>
    decreases rows.len() - n,
{
    if n < 0 || n >= rows.len() {
        seq![]
    } else if is_outdated(rows, chat, n) {
        kept_from(rows, chat, n + 1)
    } else {
        seq![rows[n]] + kept_from(rows, chat, n + 1)
    }
}

proof fn lemma_kept_from(rows: Seq<JobRowView>, chat: i64, n: int)
    requires
        0 <= n <= rows.len(),
    ensures
        pruned_to(rows, chat, n) + kept_from(rows, chat, n) == pruned(rows, chat),
    decreases rows.len() - n,
{
    if n < rows.len() {
        lemma_kept_from(rows, chat, n + 1);
        assert(pruned_to(rows, chat, n) + kept_from(rows, chat, n) =~= pruned_to(
            rows,
            chat,
            n + 1,
        ) + kept_from(rows, chat, n + 1));
    } else {
        assert(pruned_to(rows, chat, n) + kept_from(rows, chat, n) =~= pruned(rows, chat));
    }
}

/// A finished command of the chat.
pub open spec fn finished_in(chat: i64) -> spec_fn(JobRowView) -> bool {
    |row: JobRowView| row.chat == chat && is_finished(row)
}

spec fn survivors(rows: Seq<JobRowView>, chat: i64, n: int) -> Set<int> {
    Set::new(
        |k: int| 0 <= k < n && finished_in(chat)(rows[k]) && !is_outdated(rows, chat, k),
    )
}

proof fn lemma_survivors(rows: Seq<JobRowView>, chat: i64, n: int)
    requires
        0 <= n <= rows.len(),
    ensures
        survivors(rows, chat, n).finite(),
        survivors(rows, chat, n).len() == pruned_to(rows, chat, n).filter(finished_in(chat)).len(),
    decreases n,
{
    reveal(Seq::filter);
    if n == 0 {
        assert(survivors(rows, chat, n) =~= Set::<int>::empty());
    } else {
        lemma_survivors(rows, chat, n - 1);
        let rest = survivors(rows, chat, n - 1);
        let all = survivors(rows, chat, n);
        let before = pruned_to(rows, chat, n - 1);
        if is_outdated(rows, chat, n - 1) {
            assert(all =~= rest);
        } else {
            assert(before.push(rows[n - 1]).drop_last() =~= before);
            if finished_in(chat)(rows[n - 1]) {
                assert(all =~= rest.insert(n - 1));
            } else {
                assert(all =~= rest);
            }
        }
    }
}

/// Of the surviving rows below `n`, if any, there is one that all others are newer than.
proof fn lemma_oldest(rows: Seq<JobRowView>, chat: i64, n: int) -> (oldest: int)
    requires
        0 <= n <= rows.len(),
    ensures
        survivors(rows, chat, n).len() > 0 ==> survivors(rows, chat, n).contains(oldest)
            && forall|k: int| #[trigger]
            survivors(rows, chat, n).contains(k) && k != oldest ==> is_newer(rows, chat, oldest, k),
    decreases n,
{
    lemma_survivors(rows, chat, n);
    if n == 0 {
        assert(survivors(rows, chat, n) =~= Set::<int>::empty());
        0
    } else {
        let rest = survivors(rows, chat, n - 1);
        let all = survivors(rows, chat, n);
        let m = lemma_oldest(rows, chat, n - 1);
        lemma_survivors(rows, chat, n - 1);
        if !all.contains(n - 1) {
            assert(all =~= rest);
            m
        } else if rest.len() == 0 {
            assert(rest =~= Set::<int>::empty());
            assert(all =~= set![n - 1]);
            n - 1
        } else {
            assert(all =~= rest.insert(n - 1));
            if rows[n - 1].created_at < rows[m].created_at {
                n - 1
            } else {
                m
            }
        }
    }
}

/// After a command of a chat has ended, at most the latest hundred finished commands of that chat
/// are kept.
pub proof fn law_old_jobs_are_dropped(rows: Seq<JobRowView>, chat: i64)
    ensures
        pruned(rows, chat).filter(finished_in(chat)).len() <= KEPT_JOBS,
{
    let n = rows.len() as int;
    lemma_survivors(rows, chat, n);
    let all = survivors(rows, chat, n);
    if all.len() > 0 {
        let m = lemma_oldest(rows, chat, n);
        lemma_newer_finite(rows, chat, m, n);
        let newer = newer_than(rows, chat, m);
        assert(newer =~= Set::new(|k: int| k < n && is_newer(rows, chat, m, k)));
        assert(all.remove(m).subset_of(newer));
        vstd::set_lib::lemma_len_subset(all.remove(m), newer);
        assert(newer.len() < KEPT_JOBS);
    }
}

/// Pruning one chat's commands drops no other chat's, and none that is still running.
pub proof fn law_pruning_spares_the_rest(rows: Seq<JobRowView>, chat: i64)
    ensures
        pruned(rows, chat).filter(|row: JobRowView| !finished_in(chat)(row)) == rows.filter(
            |row: JobRowView| !finished_in(chat)(row),
        ),
{
    let keep = |row: JobRowView| !finished_in(chat)(row);
    lemma_spared(rows, chat, rows.len() as int, keep);
    assert(rows.take(rows.len() as int) =~= rows);
}

proof fn lemma_spared(rows: Seq<JobRowView>, chat: i64, n: int, keep: spec_fn(JobRowView) -> bool)
    requires
        0 <= n <= rows.len(),
        keep == (|row: JobRowView| !finished_in(chat)(row)),
    ensures
        pruned_to(rows, chat, n).filter(keep) == rows.take(n).filter(keep),
    decreases n,
{
    reveal(Seq::filter);
    if n > 0 {
        lemma_spared(rows, chat, n - 1, keep);
        assert(rows.take(n).drop_last() =~= rows.take(n - 1));
        let before = pruned_to(rows, chat, n - 1);
        if !is_outdated(rows, chat, n - 1) {
            assert(before.push(rows[n - 1]).drop_last() =~= before);
        }
    } else {
        assert(pruned_to(rows, chat, n) =~= rows.take(n));
    }
}

/// A chat that has been told of a finished command is not told again.
pub proof fn law_no_chat_is_told_twice(rows: Seq<JobRowView>, id: Seq<char>)
    ensures
        forall|k: int|
            0 <= k < unreported_jobs(rows.map_values(told(id))).len() ==> (
            #[trigger] unreported_jobs(rows.map_values(told(id)))[k]).id != id,
{
    broadcast use vstd::seq_lib::group_to_multiset_ensures;

    let after = rows.map_values(told(id));
    let untold = after.filter(unreported());
    let listed = sorted_by(untold, finish_time());
    law_sorted_by(untold, finish_time());
    assert forall|k: int| 0 <= k < listed.len() implies (#[trigger] listed[k]).id != id by {
        assert(listed.contains(listed[k]));
        assert(listed.to_multiset().count(listed[k]) > 0);
        assert(untold.contains(listed[k]));
        after.lemma_filter_contains_rev(unreported(), listed[k]);
        let i = choose|i: int| 0 <= i < after.len() && after[i] == listed[k];
        assert(after[i] == told(id)(rows[i]));
        let j = choose|j: int| 0 <= j < untold.len() && untold[j] == listed[k];
        after.lemma_filter_pred(unreported(), j);
    }
}

/// A job that is started is told as it was started: it runs, belongs to the chat that asked, holds
/// the command and the directory as they were given, and has no output and no end yet.
pub proof fn law_started_jobs_are_told_as_started(
    id: Seq<char>,
    now: i64,
    chat: i64,
    command: Seq<char>,
    workspace: Seq<char>,
    pid: u32,
)
    ensures
        ({
            let row = new_job(id, now, chat, command, workspace, pid);
            &&& row.id == id
            &&& row.chat == chat
            &&& row.command == command
            &&& row.workspace == workspace
            &&& row.pid == Some(pid as i64)
            &&& row.status == JobStatus::Running
            &&& row.output is None
            &&& row.exit_code is None
            &&& !row.notified
            &&& row.created_at == now
            &&& row.finished_at is None
        }),
{
}

/// A job that ends keeps what it was, and gets how it ended: its output word for word, its exit code
/// and the moment. Its chat is still to be told.
pub proof fn law_ended_jobs_keep_their_output(
    row: JobRowView,
    status: JobStatus,
    output: Seq<char>,
    exit_code: Option<i32>,
    now: i64,
)
    ensures
        ({
            let after = ended(row, status, output, exit_code, now);
            &&& after.status == status
            &&& after.output == Some(output)
            &&& exit_code matches Some(code) ==> after.exit_code == Some(code as i64)
            &&& exit_code is None ==> after.exit_code is None
            &&& after.finished_at == Some(now)
            &&& after.id == row.id
            &&& after.chat == row.chat
            &&& after.command == row.command
            &&& after.workspace == row.workspace
            &&& after.pid == row.pid
            &&& after.created_at == row.created_at
            &&& after.notified == row.notified
        }),
{
}

/// Cancelling a job, or losing it to a restart, changes how it ended and nothing that it was; a job
/// that had ended before a restart is not touched.
pub proof fn law_stopped_jobs_stay_what_they_were(row: JobRowView, now: i64)
    ensures
        cancelled(row, now).status == JobStatus::Cancelled,
        cancelled(row, now).finished_at == Some(now),
        cancelled(row, now).output == row.output,
        same_job(cancelled(row, now), row),
        row.status == JobStatus::Running ==> interrupted(row, now).status == JobStatus::Failed
            && interrupted(row, now).finished_at == Some(now) && interrupted(row, now).output
            is Some && same_job(interrupted(row, now), row),
        row.status != JobStatus::Running ==> interrupted(row, now) == row,
{
}

/// Whether two rows are of one job, started by the same chat with the same command.
pub open spec fn same_job(a: JobRowView, b: JobRowView) -> bool {
    &&& a.id == b.id
    &&& a.chat == b.chat
    &&& a.command == b.command
    &&& a.workspace == b.workspace
    &&& a.pid == b.pid
    &&& a.created_at == b.created_at
    &&& a.notified == b.notified
    &&& a.exit_code == b.exit_code
}

/// What is told of a job is the job's own.
pub proof fn law_jobs_are_told_as_they_are(row: JobRowView)
    ensures
        report_of(row).id == row.id,
        report_of(row).chat == row.chat,
        report_of(row).command == row.command,
        report_of(row).workspace == row.workspace,
        report_of(row).pid == row.pid,
        report_of(row).output == row.output,
        report_of(row).exit_code == row.exit_code,
        report_of(row).created_at == row.created_at,
        job_status_of(report_of(row).status) == Some(row.status),
{
    reveal_strlit("running");
    reveal_strlit("completed");
    reveal_strlit("failed");
    reveal_strlit("cancelled");
    reveal_strlit("timed_out");
    assert("running"@[0] == 'r' && "completed"@[0] == 'c' && "completed"@[1] == 'o' && "failed"@[0]
        == 'f' && "cancelled"@[0] == 'c' && "cancelled"@[1] == 'a' && "timed_out"@[0] == 't');
}

/// A chat's jobs are listed newest first, as many as are asked for: what is listed is the chat's, and
/// a job of the chat that is not listed is not newer than any that is, and the list is full.
pub proof fn law_the_newest_jobs_are_listed(rows: Seq<JobRowView>, chat: i64, limit: int)
    requires
        0 <= limit,
    ensures
        ({
            let listed = latest_jobs(rows, chat, limit);
            &&& listed.len() <= limit
            &&& forall|i: int|
                0 <= i < listed.len() ==> (#[trigger] listed[i]).chat == chat && stems_from(
                    rows,
                    listed[i],
                )
            &&& forall|i: int, j: int|
                0 <= i < j < listed.len() ==> (#[trigger] listed[i]).created_at >= (
                #[trigger] listed[j]).created_at
            &&& forall|k: int|
                0 <= k < rows.len() && (#[trigger] rows[k]).chat == chat ==> listed.contains(
                    report_of(rows[k]),
                ) || (listed.len() == limit && forall|i: int|
                    0 <= i < listed.len() ==> (#[trigger] listed[i]).created_at
                        >= rows[k].created_at)
        }),
{
    let meets = job_in(chat);
    law_listings_hold_what_they_should(rows, meets, start_time());
    let kept = sorted_by(rows.filter(meets), start_time());
    let turned = kept.reverse();
    let all = reports(turned);
    let listed = latest_jobs(rows, chat, limit);
    let n = kept.len() as int;
    assert forall|i: int, j: int| 0 <= i < j < all.len() implies (#[trigger] all[i]).created_at >= (
    #[trigger] all[j]).created_at by {
        assert(start_time()(kept[n - 1 - j]) <= start_time()(kept[n - 1 - i]));
    }
    assert forall|i: int| 0 <= i < listed.len() implies (#[trigger] listed[i]).chat == chat
        && stems_from(rows, listed[i]) by {
        let row = kept[n - 1 - i];
        assert(meets(row));
        assert(rows.contains(row));
        let k = choose|k: int| 0 <= k < rows.len() && rows[k] == row;
        assert(report_of(rows[k]) == listed[i]);
    }
    assert forall|k: int| 0 <= k < rows.len() && (#[trigger] rows[k]).chat
        == chat implies listed.contains(report_of(rows[k])) || (listed.len() == limit
        && forall|i: int|
        0 <= i < listed.len() ==> (#[trigger] listed[i]).created_at >= rows[k].created_at) by {
        assert(meets(rows[k]));
        let at = choose|at: int| 0 <= at < kept.len() && kept[at] == rows[k];
        let i = n - 1 - at;
        assert(all[i] == report_of(rows[k]));
        if i < listed.len() {
            assert(listed[i] == report_of(rows[k]));
        } else {
            assert(forall|j: int| 0 <= j < listed.len() ==> (#[trigger] listed[j]) == all[j]);
        }
    }
}

/// Whether what is told of a job is told of one of the rows.
pub open spec fn stems_from(rows: Seq<JobRowView>, job: JobView) -> bool {
    exists|k: int| 0 <= k < rows.len() && report_of(#[trigger] rows[k]) == job
}

/// Whether what is told of a job is told of a row that has ended and whose chat was not told.
pub open spec fn is_news(rows: Seq<JobRowView>, job: JobView) -> bool {
    exists|k: int|
        0 <= k < rows.len() && report_of(#[trigger] rows[k]) == job && !rows[k].notified
            && rows[k].status != JobStatus::Running
}

/// Every job that has ended and whose chat was not told is reported, and no other.
pub proof fn law_every_ended_job_is_reported(rows: Seq<JobRowView>)
    ensures
        ({
            let told = unreported_jobs(rows);
            &&& forall|i: int|
                0 <= i < told.len() ==> is_news(rows, #[trigger] told[i])
            &&& forall|k: int|
                0 <= k < rows.len() && !(#[trigger] rows[k]).notified && rows[k].status
                    != JobStatus::Running ==> told.contains(report_of(rows[k]))
        }),
{
    let meets = unreported();
    law_listings_hold_what_they_should(rows, meets, finish_time());
    let kept = sorted_by(rows.filter(meets), finish_time());
    let told = unreported_jobs(rows);
    assert forall|i: int| 0 <= i < told.len() implies is_news(rows, #[trigger] told[i]) by {
        assert(meets(kept[i]));
        assert(rows.contains(kept[i]));
        let k = choose|k: int| 0 <= k < rows.len() && rows[k] == kept[i];
        assert(report_of(rows[k]) == told[i]);
    }
    assert forall|k: int|
        0 <= k < rows.len() && !(#[trigger] rows[k]).notified && rows[k].status
            != JobStatus::Running implies told.contains(report_of(rows[k])) by {
        assert(meets(rows[k]));
        let i = choose|i: int| 0 <= i < kept.len() && kept[i] == rows[k];
        assert(told[i] == report_of(rows[k]));
    }
}

/// Telling a chat of a job marks that job and no other, and changes nothing else.
pub proof fn law_telling_marks_one_job(row: JobRowView, id: Seq<char>)
    ensures
        row.id != id ==> told(id)(row) == row,
        row.id == id ==> told(id)(row).notified,
        told(id)(row).status == row.status,
        told(id)(row).output == row.output,
        told(id)(row).finished_at == row.finished_at,
        told(id)(row).exit_code == row.exit_code,
        told(id)(row).id == row.id,
        told(id)(row).chat == row.chat,
        told(id)(row).command == row.command,
        told(id)(row).workspace == row.workspace,
        told(id)(row).created_at == row.created_at,
{
}

/// A chat reaches only jobs of its own by their ids.
pub proof fn law_job_prefixes_stay_in_their_chat(
    rows: Seq<JobRowView>,
    chat: i64,
    prefix: Seq<char>,
)
    ensures
        sole(rows, job_named(chat, prefix)) matches Some(i) ==> {
            &&& 0 <= i < rows.len()
            &&& rows[i].chat == chat
            &&& occurs_at(lower(rows[i].id), lower(prefix), 0)
            &&& forall|k: int|
                0 <= k < rows.len() && k != i && (#[trigger] rows[k]).chat == chat ==> !occurs_at(
                    lower(rows[k].id),
                    lower(prefix),
                    0,
                )
        },
{
    let meets = job_named(chat, prefix);
    law_sole_is_unambiguous(rows, meets);
    if let Some(i) = sole(rows, meets) {
        assert(meets(rows[i]));
        assert forall|k: int| 0 <= k < rows.len() && k != i && (#[trigger] rows[k]).chat
            == chat implies !occurs_at(lower(rows[k].id), lower(prefix), 0) by {
            assert(!meets(rows[k]));
        }
    }
}

} // verus!
