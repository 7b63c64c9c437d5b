//! What the gateway remembers: conversations, facts, reminders, background commands, grants and
//! the tool trail. The tables are plain rows in the order they were inserted; every operation says
//! how it changes them.
use vstd::prelude::*;
use vstd::string::*;

use crate::chat_table::ChatTable;
use crate::text::{lower, texts};

pub mod audit;
pub mod jobs;
pub mod memory;
pub mod sessions;
pub mod settings;
pub mod tasks;

pub use audit::{AuditEvent, AuditRow};
pub use jobs::{CommandJob, JobRow, JobStatus};
pub use memory::{MemoryEntry, MemoryMatch};
pub use sessions::{
    ActiveSession, History, MessageRow, SessionRow, SessionSummary, UsageRow,
};
pub use settings::GrantRow;
pub use tasks::{
    next_occurrence, ScheduledTask, StaleScheduledTask, StaleTaskOutcome, TaskRow, TaskStatus,
};

verus! {

/// The version of the stored tables that this library reads and writes.
pub const CURRENT_VERSION: i64 = 9;

/// Why an operation was refused. A refused operation changes nothing.
#[derive(Clone, Copy, Debug, PartialEq, Eq, Structural)]
pub enum StorageError {
    /// A row with this id is already there.
    DuplicateId,
    /// No further row numbers are left.
    Full,
    /// A token count does not fit.
    TokenCount,
    /// Not one of the statuses that a row can have.
    InvalidStatus,
    /// There is no such session.
    UnknownSession,
    NothingToSummarize,
    NoActiveSession,
    /// Fewer messages than were to be summarized.
    TooFewMessages,
    /// More rows were asked for than can be numbered.
    Limit,
}

impl StorageError {
    pub open spec fn text(self) -> Seq<char> {
        match self {
            StorageError::DuplicateId => "a row with this id already exists"@,
            StorageError::Full => "no further row numbers are left"@,
            StorageError::TokenCount => "token count overflow"@,
            StorageError::InvalidStatus => "not a status that a row can have"@,
            StorageError::UnknownSession => "there is no such session"@,
            StorageError::NothingToSummarize => "compaction must summarize at least one message"@,
            StorageError::NoActiveSession => "cannot compact without an active session"@,
            StorageError::TooFewMessages => "fewer messages than were to be summarized"@,
            StorageError::Limit => "the limit is too large"@,
        }
    }

    /// The error in words.
    pub fn message(&self) -> (r: String)
        ensures
            r@ == self.text(),
    {
        (match self {
            StorageError::DuplicateId => "a row with this id already exists",
            StorageError::Full => "no further row numbers are left",
            StorageError::TokenCount => "token count overflow",
            StorageError::InvalidStatus => "not a status that a row can have",
            StorageError::UnknownSession => "there is no such session",
            StorageError::NothingToSummarize => "compaction must summarize at least one message",
            StorageError::NoActiveSession => "cannot compact without an active session",
            StorageError::TooFewMessages => "fewer messages than were to be summarized",
            StorageError::Limit => "the limit is too large",
        }).to_owned()
    }
}

/// Conversations, and which one each chat is in.
#[derive(Debug)]
pub struct Conversations {
    pub sessions: Vec<SessionRow>,
    pub messages: Vec<MessageRow>,
    pub usage: Vec<UsageRow>,
    /// The session that each chat is in.
    pub active: ChatTable,
    /// The number of the next message; numbers are never used twice.
    pub next_message_id: i64,
}

/// The facts the gateway was asked to remember.
#[derive(Debug)]
pub struct Memory {
    pub entries: Vec<MemoryEntry>,
    /// The number of the next fact; numbers are never used twice.
    pub next_id: i64,
}

/// The tool trail.
#[derive(Debug)]
pub struct AuditLog {
    pub events: Vec<AuditRow>,
    pub next_id: i64,
}

/// Per-chat settings.
#[derive(Debug)]
pub struct ChatSettings {
    /// The workspace that each chat chose.
    pub workspaces: ChatTable,
    /// The tools that a chat was granted "always allow" for.
    pub grants: Vec<GrantRow>,
}

#[derive(Debug)]
pub struct Database {
    pub conversations: Conversations,
    pub memory: Memory,
    pub audit: AuditLog,
    pub settings: ChatSettings,
    pub jobs: Vec<JobRow>,
    pub tasks: Vec<TaskRow>,
}

impl Database {
    pub open spec fn wf(&self) -> bool {
        &&& sessions::conversations_wf(self.conversations)
        &&& memory::memory_wf(self.memory)
        &&& audit::audit_wf(self.audit)
        &&& settings::settings_wf(self.settings)
        &&& jobs::jobs_wf(self.jobs@)
        &&& tasks::tasks_wf(self.tasks@)
    }

    /// A database that holds nothing.
    pub fn new() -> (r: Self)
        ensures
            r.wf(),
            r.conversations.sessions@.len() == 0,
            r.conversations.messages@.len() == 0,
            r.conversations.usage@.len() == 0,
            r.conversations.active@ == Map::<i64, Seq<char>>::empty(),
            r.conversations.next_message_id == 1,
            r.memory.entries@.len() == 0,
            r.memory.next_id == 1,
            r.audit.events@.len() == 0,
            r.audit.next_id == 1,
            r.settings.workspaces@ == Map::<i64, Seq<char>>::empty(),
            r.settings.grants@.len() == 0,
            r.jobs@.len() == 0,
            r.tasks@.len() == 0,
    {
        Database {
            conversations: Conversations {
                sessions: Vec::new(),
                messages: Vec::new(),
                usage: Vec::new(),
                active: ChatTable::new(),
                next_message_id: 1,
            },
            memory: Memory { entries: Vec::new(), next_id: 1 },
            audit: AuditLog { events: Vec::new(), next_id: 1 },
            settings: ChatSettings { workspaces: ChatTable::new(), grants: Vec::new() },
            jobs: Vec::new(),
            tasks: Vec::new(),
        }
    }
}

/// Database-wide counts for `kumo status`, independent of any single chat.
#[derive(Clone, Copy, Debug, PartialEq, Eq, Structural)]
pub struct StorageSummary {
    pub session_count: i64,
    pub pending_scheduled_tasks: i64,
    pub memory_entries: i64,
    pub audit_events: i64,
    pub running_jobs: i64,
}

/// A session that holds messages.
pub open spec fn holds_messages(c: sessions::ConversationsView) -> spec_fn(
    sessions::SessionView,
) -> bool {
    |session: sessions::SessionView| sessions::messages_in(c, session.id) > 0
}

pub open spec fn waits() -> spec_fn(tasks::TaskRowView) -> bool {
    |row: tasks::TaskRowView| tasks::is_pending(row)
}

pub open spec fn runs() -> spec_fn(jobs::JobRowView) -> bool {
    |row: jobs::JobRowView| row.status == JobStatus::Running
}

impl Database {
    /// Database-wide counts for `kumo status`, independent of any single chat.
    pub fn storage_summary(&self) -> (r: StorageSummary)
        ensures
            r.session_count == count_of(
                self.conversations@.sessions.filter(holds_messages(self.conversations@)).len(),
            ),
            r.pending_scheduled_tasks == count_of(self.task_rows().filter(waits()).len()),
            r.memory_entries == count_of(self.facts().len()),
            r.audit_events == count_of(self.audit_rows().len()),
            r.running_jobs == count_of(self.job_rows().filter(runs()).len()),
    {
        let ghost sessions = self.conversations@.sessions;
        let ghost tasks = self.task_rows();
        let ghost jobs = self.job_rows();
        let mut pending: usize = 0;
        let mut i: usize = 0;
        proof {
            reveal(Seq::filter);
            assert(tasks.take(0) =~= seq![]);
            assert(jobs.take(0) =~= seq![]);
        }
        while i < self.tasks.len()
            invariant
                i <= self.tasks@.len(),
                tasks == self.task_rows(),
                pending <= i,
                pending == tasks.take(i as int).filter(waits()).len(),
            decreases self.tasks@.len() - i,
        {
            proof {
                reveal(Seq::filter);
                assert(tasks.take(i + 1).drop_last() =~= tasks.take(i as int));
                assert(tasks.take(i + 1).last() == self.tasks@[i as int]@);
            }
            if self.tasks[i].status == TaskStatus::Pending {
                pending = pending + 1;
            }
            i = i + 1;
        }
        assert(tasks.take(i as int) =~= tasks);
        let mut running: usize = 0;
        let mut j: usize = 0;
        while j < self.jobs.len()
            invariant
                j <= self.jobs@.len(),
                jobs == self.job_rows(),
                running <= j,
                running == jobs.take(j as int).filter(runs()).len(),
            decreases self.jobs@.len() - j,
        {
            proof {
                reveal(Seq::filter);
                assert(jobs.take(j + 1).drop_last() =~= jobs.take(j as int));
                assert(jobs.take(j + 1).last() == self.jobs@[j as int]@);
            }
            if self.jobs[j].status == JobStatus::Running {
                running = running + 1;
            }
            j = j + 1;
        }
        assert(jobs.take(j as int) =~= jobs);
        StorageSummary {
            session_count: as_count(self.conversations.count_used_sessions()),
            pending_scheduled_tasks: as_count(pending),
            memory_entries: as_count(self.memory.entries.len()),
            audit_events: as_count(self.audit.events.len()),
            running_jobs: as_count(running),
        }
    }
}

/// Which migrations bring stored tables of the given version up to date: each one from the next
/// version on, in order.
pub open spec fn migrations(version: i64) -> Seq<i64> {
    let first = if version < 0 {
        1
    } else {
        version + 1
    };
    Seq::new((CURRENT_VERSION + 1 - first) as nat, |i: int| (first + i) as i64)
}

/// The migrations to run on stored tables of the given version; tables of a newer version are
/// refused.
pub fn migrations_from(version: i64) -> (r: Result<Vec<i64>, String>)
    ensures
        match r {
            Ok(steps) => version <= CURRENT_VERSION && steps@ =~= migrations(version),
            Err(message) => version > CURRENT_VERSION && message@ == "database version "@
                + crate::text::signed_decimal(version as int)
                + " is newer than this Kumo supports ("@ + crate::text::signed_decimal(
                CURRENT_VERSION as int,
            ) + ")"@,
        },
{
    if version > CURRENT_VERSION {
        let mut message = "database version ".to_owned();
        message.push_str(crate::text::decimal_i64(version).as_str());
        message.push_str(" is newer than this Kumo supports (");
        message.push_str(crate::text::decimal_i64(CURRENT_VERSION).as_str());
        message.push_str(")");
        return Err(message);
    }
    let first: i64 = if version < 0 {
        1
    } else {
        version + 1
    };
    let mut steps: Vec<i64> = Vec::new();
    let mut next: i64 = first;
    while next <= CURRENT_VERSION
        invariant
            1 <= first <= next <= CURRENT_VERSION + 1,
            steps@.len() == next - first,
            forall|i: int| 0 <= i < steps@.len() ==> #[trigger] steps@[i] == first + i,
        decreases CURRENT_VERSION + 1 - next,
    {
        steps.push(next);
        next = next + 1;
    }
    Ok(steps)
}

/// `Uuid::new_v4`, in its hyphenated form: a fresh random id of 36 ASCII characters. Which one it
/// is depends on chance, so nothing more is said of it.
#[verifier::external_body]
pub(crate) fn new_id() -> (id: String)
    ensures
        id@.len() == 36,
        vstd::utf8::is_ascii_chars(id@),
{
    uuid::Uuid::new_v4().to_string()
}

/// A count as it is reported.
pub open spec fn count_of(n: nat) -> i64 {
    if n <= i64::MAX {
        n as i64
    } else {
        i64::MAX
    }
}

pub(crate) fn as_count(n: usize) -> (r: i64)
    ensures
        r == count_of(n as nat),
{
    if n as u64 <= 9223372036854775807u64 {
        n as i64
    } else {
        i64::MAX
    }
}

/// Whether `id` starts with `prefix`, ASCII letters compared without regard to case.
pub open spec fn has_prefix(id: Seq<char>, prefix: Seq<char>) -> bool {
    crate::text::occurs_at(lower(id), lower(prefix), 0)
}

pub fn id_has_prefix(id: &str, prefix: &str) -> (r: bool)
    ensures
        r == has_prefix(id@, prefix@),
{
    crate::text::starts_with(
        crate::text::lowered(id).as_str(),
        crate::text::lowered(prefix).as_str(),
    )
}

/// The directory that the database (and the PID and log files) are kept in: `chosen` where the
/// environment names one, and otherwise below `local`, the operating system's directory for local
/// data, if it has one. Given as the parts of the path, to be put below one another.
pub fn data_dir(chosen: Option<&str>, local: Option<&str>) -> (r: Result<Vec<String>, String>)
    ensures
        match r {
            Ok(parts) => match chosen {
                Some(chosen) => texts(parts@) == seq![chosen@],
                None => local is Some && texts(parts@) == seq![local->0@, "kumo"@],
            },
            Err(message) => chosen is None && local is None && message@
                == "could not determine the operating system data directory"@,
        },
{
    let mut parts: Vec<String> = Vec::new();
    if let Some(chosen) = chosen {
        parts.push(chosen.to_owned());
        assert(texts(parts@) =~= seq![chosen@]);
        return Ok(parts);
    }
    match local {
        Some(directory) => {
            parts.push(directory.to_owned());
            parts.push("kumo".to_owned());
            assert(texts(parts@) =~= seq![directory@, "kumo"@]);
            Ok(parts)
        },
        None => Err("could not determine the operating system data directory".to_owned()),
    }
}

/// An id is named by any start of it, in capitals or not, and by nothing else.
pub proof fn law_ids_are_named_by_their_start(id: Seq<char>, prefix: Seq<char>, n: int)
    requires
        0 <= n <= id.len(),
    ensures
        has_prefix(id, id.take(n)),
        has_prefix(id, prefix) ==> prefix.len() <= id.len() && lower(id.take(prefix.len() as int))
            == lower(prefix),
        has_prefix(id, lower(prefix)) == has_prefix(id, prefix),
{
    assert(lower(id).subrange(0, n) =~= lower(id.take(n)));
    if has_prefix(id, prefix) {
        assert(lower(id.take(prefix.len() as int)) =~= lower(id).subrange(0, prefix.len() as int));
    }
    if prefix.len() > 0 {
        crate::text::law_lower_case_changes_capitals_alone(prefix, 0);
    } else {
        assert(lower(lower(prefix)) =~= lower(prefix));
    }
}

/// An old store is brought up to date step by step: every version behind its own is passed through,
/// in order, up to the current one.
pub proof fn law_every_version_is_passed_through(version: i64)
    requires
        0 <= version <= CURRENT_VERSION,
    ensures
        migrations(version).len() == CURRENT_VERSION - version,
        forall|i: int|
            0 <= i < migrations(version).len() ==> #[trigger] migrations(version)[i] == version + 1
                + i,
        version < CURRENT_VERSION ==> migrations(version).last() == CURRENT_VERSION,
{
}

/// What the summary counts: the sessions in which something was said, the reminders that wait, and the
/// commands that run.
pub proof fn law_the_summary_counts_what_it_says(
    c: sessions::ConversationsView,
    session: sessions::SessionView,
    task: tasks::TaskRowView,
    job: jobs::JobRowView,
    n: nat,
)
    ensures
        holds_messages(c)(session) <==> c.messages.filter(sessions::in_session(session.id)).len()
            > 0,
        waits()(task) <==> task.status == TaskStatus::Pending,
        runs()(job) <==> job.status == JobStatus::Running,
        n <= i64::MAX ==> count_of(n) == n,
{
}

} // verus!
