//! The tools that the model can call: which there are, which need the owner's approval, and what
//! a call does. What touches the host (files, processes, servers) is handed back as a step to
//! perform; everything else is answered here.
use vstd::prelude::*;
use vstd::string::*;

use crate::clock::{utc_now, Instant};
use crate::json::{complain, json_read, read, read_view, with_reason, Json, JsonView};
use crate::order::{law_sole_is_unambiguous, sole};
use crate::provider::{CallView, DefinitionView, ToolCall, ToolDefinition};
use crate::storage::jobs::{
    cancelled, is_running, is_running_at, job_named, pruned, report_of, JobRowView, JobView,
};
use crate::storage::tasks::{agenda, pending_in};
use crate::storage::{new_id, CommandJob, Database};
use crate::text::{
    blanks_around, contains, decimal, decimal_u64, ends_in, in_turn, law_trimming_takes_blanks_only,
    lemma_ends_in, lemma_in_turn_contains, lemma_one, lemma_starts, lemma_two, occurs_at, opt_view, same, seq_view, trim, trimmed,
};

pub mod arguments;
pub mod definitions;
pub mod facts;
pub mod output;
pub mod processes;
pub mod reminders;
pub mod workspace;

use arguments::{
    command_arguments, outcome, read_command_arguments, read_required_text, required_text,
    CommandArguments, INVALID,
};
use definitions::{own_definitions, own_tools};
use facts::{forget, forget_done, remember, remember_done, update_done, update_memory};
pub use output::{
    ambiguous_memory_error, format_background_timeout, format_command_output, format_job,
    summarize_kamui_output, truncate_fact, truncate_utf8, ProcessOutput,
};
use output::{
    command_text, job_text, lossy, lossy_text, short_id, shorten, timeout_text, truncated,
    MAX_COMMAND_OUTPUT,
};
use reminders::{
    cancel_done, cancel_scheduled_task, list_scheduled_tasks, schedule_done, schedule_task_at,
    tasks_text,
};

verus! {

/// How long a command may run before it is stopped, in seconds.
pub const COMMAND_TIMEOUT: u64 = 30;

/// How long the coding agent may run before it is stopped, in seconds: it can run a whole agent
/// loop (read, edit, test), so it gets more headroom than a single shell command.
pub const KAMUI_TIMEOUT: u64 = 300;

/// Ceiling on a background command's total lifetime, in seconds, unless configured otherwise. A
/// backstop against a runaway process, not a limit on legitimate work.
pub const BACKGROUND_MAX: u64 = 1800;

/// How long to keep draining a timed-out job's pipes once its process tree has been killed, in
/// seconds.
pub const BACKGROUND_KILL_GRACE: u64 = 5;

/// A tool that someone else offers.
#[derive(Debug)]
pub struct ExternalTool {
    /// What the model calls it by.
    pub name: String,
    pub description: String,
    pub parameters: Json,
    /// Whether every call needs the owner's approval.
    pub requires_confirmation: bool,
    /// What a call is announced as when approval is asked.
    pub label: String,
}

impl ExternalTool {
    pub open spec fn spec_definition(&self) -> DefinitionView {
        DefinitionView {
            name: self.name@,
            description: self.description@,
            parameters: self.parameters@,
        }
    }

    pub fn definition(&self) -> (r: ToolDefinition)
        ensures
            r@ == self.spec_definition(),
    {
        ToolDefinition {
            name: self.name.clone(),
            description: self.description.clone(),
            parameters: self.parameters.duplicate(),
        }
    }

    /// What the owner is shown of a call.
    pub fn preview(&self, arguments: &str) -> (r: String)
        ensures
            r@ == self.label@ + " "@ + trim(arguments@),
    {
        let mut r = self.label.clone();
        r.push_str(" ");
        r.push_str(trimmed(arguments).as_str());
        r
    }
}

/// The tools of one gateway.
#[derive(Debug)]
pub struct ToolRegistry {
    /// The workspace of chats that did not choose one.
    pub default_root: String,
    pub extra: Vec<ExternalTool>,
    /// The name of the timezone that times are shown in.
    pub timezone: String,
    pub rtk_enabled: bool,
    /// Ceiling on a background command, in seconds.
    pub background_max: u64,
    /// Whether the coding agent is installed.
    pub coding_agent: bool,
}

/// The first of the tools with the given name.
pub open spec fn first_named(tools: Seq<ExternalTool>, name: Seq<char>, from: int) -> Option<int>
    decreases tools.len() - from,
{
    if from < 0 || from >= tools.len() {
        None
    } else if tools[from].name@ == name {
        Some(from)
    } else {
        first_named(tools, name, from + 1)
    }
}

pub open spec fn extra_definitions(tools: Seq<ExternalTool>) -> Seq<DefinitionView> {
    Seq::new(tools.len(), |i: int| tools[i].spec_definition())
}

/// What a call asks to be done.
#[derive(Debug)]
pub enum ToolStep {
    /// Nothing more: this is the answer.
    Reply(String),
    ReadFile(String),
    ListDirectory(String),
    RunCommand(CommandArguments),
    /// Hand the task to the coding agent.
    Delegate(String),
    /// Stop the process of a background command.
    StopJob { id: String, pid: u32 },
    /// Call the external tool at this place.
    External(usize),
}

#[verifier::ext_equal]
pub enum StepView {
    Reply(Seq<char>),
    ReadFile(Seq<char>),
    ListDirectory(Seq<char>),
    RunCommand { command: Seq<char>, background: bool },
    Delegate(Seq<char>),
    StopJob { id: Seq<char>, pid: u32 },
    External(int),
}

impl View for ToolStep {
    type V = StepView;

    open spec fn view(&self) -> StepView {
        match self {
            ToolStep::Reply(text) => StepView::Reply(text@),
            ToolStep::ReadFile(path) => StepView::ReadFile(path@),
            ToolStep::ListDirectory(path) => StepView::ListDirectory(path@),
            ToolStep::RunCommand(arguments) => StepView::RunCommand {
                command: arguments.command@,
                background: arguments.background,
            },
            ToolStep::Delegate(task) => StepView::Delegate(task@),
            ToolStep::StopJob { id, pid } => StepView::StopJob { id: id@, pid: *pid },
            ToolStep::External(index) => StepView::External(*index as int),
        }
    }
}

/// How a tool's outcome is told to the model.
pub open spec fn told(r: Result<Seq<char>, Seq<char>>) -> Seq<char> {
    match r {
        Ok(text) => text,
        Err(error) => "Error: "@ + error,
    }
}

/// Tells the model a tool's outcome.
pub fn tell(r: Result<String, String>) -> (text: String)
    ensures
        text@ == told(outcome(r)),
{
    match r {
        Ok(text) => text,
        Err(error) => {
            let mut text = "Error: ".to_owned();
            text.push_str(error.as_str());
            text
        },
    }
}

fn failed(error: &str) -> (r: ToolStep)
    ensures
        r@ == failure(error@),
{
    let mut text = "Error: ".to_owned();
    text.push_str(error);
    ToolStep::Reply(text)
}

pub open spec fn failure(error: Seq<char>) -> StepView {
    StepView::Reply("Error: "@ + error)
}

/// The step for a tool that works on one path.
pub open spec fn path_argument(value: Result<JsonView, Seq<char>>) -> Option<Seq<char>> {
    arguments::text_argument(value, "path"@, 0, 1)
}

pub open spec fn no_such_job(id: Seq<char>) -> Seq<char> {
    "no single background job matches '"@ + id + "'"@
}

/// The background command of the chat that an id stands for.
pub open spec fn found_job(rows: Seq<JobRowView>, chat: i64, id: Seq<char>) -> Option<JobView> {
    match sole(rows, job_named(chat, id)) {
        Some(i) => Some(report_of(rows[i])),
        None => None,
    }
}

/// What asking for a background command's status is answered.
pub open spec fn status_step(rows: Seq<JobRowView>, chat: i64, value: Result<JsonView, Seq<char>>) -> StepView {
    match required_text(value, "id"@, "job id cannot be empty"@) {
        Err(error) => failure(error),
        Ok(id) => match found_job(rows, chat, id) {
            None => failure(no_such_job(id)),
            Some(job) => StepView::Reply(job_text(job)),
        },
    }
}

/// What the request to stop a background command leads to.
pub open spec fn stop_step(rows: Seq<JobRowView>, chat: i64, value: Result<JsonView, Seq<char>>) -> StepView {
    match required_text(value, "id"@, "job id cannot be empty"@) {
        Err(error) => failure(error),
        Ok(id) => match found_job(rows, chat, id) {
            None => failure(no_such_job(id)),
            Some(job) => if job.status != "running"@ {
                StepView::Reply(
                    "job "@ + short_id(job.id) + " is already "@ + job.status,
                )
            } else {
                match job.pid {
                    Some(pid) => if 0 <= pid <= u32::MAX {
                        StepView::StopJob { id: job.id, pid: pid as u32 }
                    } else {
                        failure("running job has no valid process id"@)
                    },
                    None => failure("running job has no valid process id"@),
                }
            },
        },
    }
}

/// Whether a call works in the chat's workspace, which then has to be resolved first.
pub open spec fn uses_workspace(name: Seq<char>) -> bool {
    name == "read_file"@ || name == "list_directory"@ || name == "run_command"@ || name
        == "delegate_to_kamui"@
}

pub fn needs_workspace(name: &str) -> (r: bool)
    ensures
        r == uses_workspace(name@),
{
    same(name, "read_file") || same(name, "list_directory") || same(name, "run_command") || same(
        name,
        "delegate_to_kamui",
    )
}

/// What a call does to what is stored, and what it leads to.
pub open spec fn dispatched(
    registry: ToolRegistry,
    before: Database,
    after: Database,
    fresh: Seq<char>,
    now: Instant,
    chat: i64,
    name: Seq<char>,
    value: Result<JsonView, Seq<char>>,
    step: StepView,
) -> bool {
    if name == "schedule_task"@ {
        step is Reply && exists|r: Result<Seq<char>, Seq<char>>| #[trigger]
            schedule_done(before, after, registry.timezone@, fresh, now, chat, value, r) && step
                == StepView::Reply(told(r))
    } else if name == "cancel_scheduled_task"@ {
        exists|r: Result<Seq<char>, Seq<char>>| #[trigger]
            cancel_done(before, after, chat, value, r) && step == StepView::Reply(told(r))
    } else if name == "remember"@ {
        exists|r: Result<Seq<char>, Seq<char>>| #[trigger]
            remember_done(before, after, value, r) && step == StepView::Reply(told(r))
    } else if name == "update_memory"@ {
        exists|r: Result<Seq<char>, Seq<char>>| #[trigger]
            update_done(before, after, value, r) && step == StepView::Reply(told(r))
    } else if name == "forget"@ {
        exists|r: Result<Seq<char>, Seq<char>>| #[trigger]
            forget_done(before, after, value, r) && step == StepView::Reply(told(r))
    } else {
        after == before && step == quiet_step(registry, before, chat, name, value)
    }
}

/// What a call that changes nothing stored leads to.
pub open spec fn quiet_step(
    registry: ToolRegistry,
    database: Database,
    chat: i64,
    name: Seq<char>,
    value: Result<JsonView, Seq<char>>,
) -> StepView {
    if name == "read_file"@ {
        match path_argument(value) {
            Some(path) => StepView::ReadFile(path),
            None => failure(with_reason(INVALID@, value)),
        }
    } else if name == "list_directory"@ {
        match path_argument(value) {
            Some(path) => StepView::ListDirectory(path),
            None => failure(with_reason(INVALID@, value)),
        }
    } else if name == "run_command"@ {
        match command_arguments(value) {
            Ok((command, background)) => StepView::RunCommand { command, background },
            Err(error) => failure(error),
        }
    } else if name == "command_status"@ {
        status_step(database.job_rows(), chat, value)
    } else if name == "stop_command"@ {
        stop_step(database.job_rows(), chat, value)
    } else if name == "delegate_to_kamui"@ {
        match required_text(
            value,
            "task"@,
            "delegate_to_kamui requires a non-empty 'task' argument"@,
        ) {
            Ok(task) => StepView::Delegate(task),
            Err(error) => failure(error),
        }
    } else if name == "list_scheduled_tasks"@ {
        StepView::Reply(
            tasks_text(agenda(database.task_rows(), pending_in(chat)), registry.timezone@),
        )
    } else {
        match first_named(registry.extra@, name, 0) {
            Some(index) => StepView::External(index),
            None => failure("unknown tool '"@ + name + "'"@),
        }
    }
}

impl ToolRegistry {
    pub fn new(root: String, extra: Vec<ExternalTool>, timezone: String) -> (r: Self)
        ensures
            r.default_root == root,
            r.extra == extra,
            r.timezone == timezone,
            !r.rtk_enabled,
            r.background_max == BACKGROUND_MAX,
            !r.coding_agent,
    {
        ToolRegistry {
            default_root: root,
            extra,
            timezone,
            rtk_enabled: false,
            background_max: BACKGROUND_MAX,
            coding_agent: false,
        }
    }

    pub fn with_rtk(self, enabled: bool) -> (r: Self)
        ensures
            r == (ToolRegistry { rtk_enabled: enabled, ..self }),
    {
        ToolRegistry { rtk_enabled: enabled, ..self }
    }

    /// Replaces the default ceiling on background commands.
    pub fn with_background_max(self, limit: u64) -> (r: Self)
        ensures
            r == (ToolRegistry { background_max: limit, ..self }),
    {
        ToolRegistry { background_max: limit, ..self }
    }

    /// Says whether the coding agent is installed; delegation is an optional capability.
    pub fn with_coding_agent(self, available: bool) -> (r: Self)
        ensures
            r == (ToolRegistry { coding_agent: available, ..self }),
    {
        ToolRegistry { coding_agent: available, ..self }
    }

    pub fn rtk_enabled(&self) -> (r: bool)
        ensures
            r == self.rtk_enabled,
    {
        self.rtk_enabled
    }

    /// The tools that the model is offered.
    pub open spec fn offered(&self) -> Seq<DefinitionView> {
        own_tools(self.background_max, self.coding_agent) + extra_definitions(self.extra@)
    }

    /// The tools that the model is offered: the gateway's own, then the external ones. `ask_user`
    /// and `delegate_readonly` are carried out by the agent loop, which has what they need.
    pub fn definitions(&self) -> (r: Vec<ToolDefinition>)
        ensures
            seq_view(r@) == self.offered(),
    {
        let mut r = own_definitions(self.background_max, self.coding_agent);
        let ghost own = seq_view(r@);
        let ghost extra = extra_definitions(self.extra@);
        let mut i: usize = 0;
        assert(own + extra.take(0) =~= own);
        while i < self.extra.len()
            invariant
                i <= self.extra@.len(),
                extra == extra_definitions(self.extra@),
                seq_view(r@) == own + extra.take(i as int),
            decreases self.extra@.len() - i,
        {
            let ghost earlier = r@;
            let definition = self.extra[i].definition();
            r.push(definition);
            i = i + 1;
            assert(seq_view(r@) =~= seq_view(earlier).push(definition@));
            assert(extra.take(i as int) =~= extra.take(i - 1).push(extra[i - 1]));
            assert(seq_view(r@) =~= own + extra.take(i as int));
        }
        assert(extra.take(i as int) =~= extra);
        r
    }

    /// What all definitions cost in a request.
    pub fn schema_bytes(&self) -> (r: usize)
        ensures
            r == crate::text::clamped(definitions_bytes(self.offered())),
    {
        let all = self.definitions();
        let ghost views = seq_view(all@);
        let mut total: usize = 0;
        let mut i: usize = 0;
        assert(views.take(0) =~= seq![]);
        while i < all.len()
            invariant
                i <= all@.len(),
                views == seq_view(all@),
                total == crate::text::clamped(definitions_bytes(views.take(i as int))),
            decreases all@.len() - i,
        {
            total = total.saturating_add(all[i].payload_bytes());
            i = i + 1;
            assert(views.take(i as int).drop_last() =~= views.take(i - 1));
        }
        assert(views.take(i as int) =~= views);
        total
    }

    /// The tools that the read-only sub-agent is offered.
    pub fn read_only_definitions(&self) -> (r: Vec<ToolDefinition>)
        ensures
            seq_view(r@) == self.offered().filter(|tool: DefinitionView| is_read_only(tool.name)),
    {
        let all = self.definitions();
        let ghost views = seq_view(all@);
        let ghost keep = |tool: DefinitionView| is_read_only(tool.name);
        let mut r: Vec<ToolDefinition> = Vec::new();
        let mut i: usize = 0;
        proof {
            reveal(Seq::filter);
            assert(views.take(0) =~= seq![]);
            assert(seq_view(r@) =~= views.take(0).filter(keep));
        }
        while i < all.len()
            invariant
                i <= all@.len(),
                views == seq_view(all@),
                keep == (|tool: DefinitionView| is_read_only(tool.name)),
                seq_view(r@) == views.take(i as int).filter(keep),
            decreases all@.len() - i,
        {
            let ghost earlier = r@;
            proof {
                reveal(Seq::filter);
                assert(views.take(i + 1).drop_last() =~= views.take(i as int));
                assert(views.take(i + 1).last() == all@[i as int]@);
            }
            if read_only(all[i].name.as_str()) {
                let tool = all[i].clone();
                r.push(tool);
                assert(seq_view(r@) =~= seq_view(earlier).push(tool@));
            }
            i = i + 1;
        }
        assert(views.take(i as int) =~= views);
        r
    }

    fn extra_position(&self, name: &str) -> (r: Option<usize>)
        ensures
            match r {
                Some(i) => first_named(self.extra@, name@, 0) == Some(i as int) && i
                    < self.extra@.len(),
                None => first_named(self.extra@, name@, 0) is None,
            },
    {
        let mut i: usize = 0;
        while i < self.extra.len()
            invariant
                i <= self.extra@.len(),
                first_named(self.extra@, name@, 0) == first_named(self.extra@, name@, i as int),
            decreases self.extra@.len() - i,
        {
            if same(self.extra[i].name.as_str(), name) {
                return Some(i);
            }
            i = i + 1;
        }
        None
    }

    /// Whether every call of the tool needs the owner's approval.
    pub open spec fn is_gated(&self, name: Seq<char>) -> bool {
        name == "run_command"@ || name == "delegate_to_kamui"@ || (match first_named(
            self.extra@,
            name,
            0,
        ) {
            Some(i) => self.extra@[i].requires_confirmation,
            None => false,
        })
    }

    /// Whether every call of the tool needs the owner's approval.
    pub fn requires_confirmation(&self, name: &str) -> (r: bool)
        ensures
            r == self.is_gated(name@),
    {
        if same(name, "run_command") || same(name, "delegate_to_kamui") {
            return true;
        }
        match self.extra_position(name) {
            Some(i) => self.extra[i].requires_confirmation,
            None => false,
        }
    }

    /// What the owner is shown of a call, its arguments being the JSON value `value`.
    pub open spec fn preview_of(&self, call: CallView, value: Result<JsonView, Seq<char>>) -> Option<Seq<char>> {
        if call.name == "run_command"@ {
            match command_arguments(value) {
                Ok((command, background)) => Some(
                    (if background {
                        "Command (background): "@
                    } else {
                        "Command: "@
                    }) + command,
                ),
                Err(_) => None,
            }
        } else if call.name == "delegate_to_kamui"@ {
            match required_text(
                value,
                "task"@,
                "delegate_to_kamui requires a non-empty 'task' argument"@,
            ) {
                Ok(task) => Some("Kamui task: "@ + task),
                Err(_) => None,
            }
        } else {
            match first_named(self.extra@, call.name, 0) {
                Some(i) => Some(self.extra@[i].label@ + " "@ + trim(call.arguments)),
                None => None,
            }
        }
    }

    /// What the owner is shown of a call whose arguments are the JSON value `value`.
    pub fn preview_value(&self, call: &ToolCall, value: &Result<Json, String>) -> (r: Option<String>)
        ensures
            opt_view(r) == self.preview_of(call@, read_view(*value)),
    {
        if same(call.name.as_str(), "run_command") {
            match read_command_arguments(value) {
                Ok(arguments) => {
                    let mut r = (if arguments.background {
                        "Command (background): "
                    } else {
                        "Command: "
                    }).to_owned();
                    r.push_str(arguments.command.as_str());
                    Some(r)
                },
                Err(_) => None,
            }
        } else if same(call.name.as_str(), "delegate_to_kamui") {
            match read_required_text(
                value,
                "task",
                "delegate_to_kamui requires a non-empty 'task' argument",
            ) {
                Ok(task) => {
                    let mut r = "Kamui task: ".to_owned();
                    r.push_str(task.as_str());
                    Some(r)
                },
                Err(_) => None,
            }
        } else {
            match self.extra_position(call.name.as_str()) {
                Some(i) => Some(self.extra[i].preview(call.arguments.as_str())),
                None => None,
            }
        }
    }

    /// What the owner is shown of a call when approval is asked.
    pub fn preview(&self, call: &ToolCall) -> (r: Option<String>)
        ensures
            opt_view(r) == self.preview_of(call@, json_read(call.arguments@)),
    {
        self.preview_value(call, &read(call.arguments.as_str()))
    }

    /// The directory that a chat works in: the one it chose, or else the configured one.
    pub fn root_for(&self, database: &Database, chat_id: i64) -> (r: String)
        requires
            database.wf(),
        ensures
            r@ == root_of(database.settings.workspaces@, chat_id, self.default_root@),
    {
        match database.workspace_for_chat(chat_id) {
            Some(workspace) => workspace,
            None => self.default_root.clone(),
        }
    }

    /// Carries out a call made at the time `now` while answering `chat_id`, its arguments being
    /// the JSON value `value`; a new reminder gets the id `fresh_id`.
    pub fn dispatch_value(
        &self,
        database: &mut Database,
        fresh_id: &str,
        now: Instant,
        chat_id: i64,
        name: &str,
        value: &Result<Json, String>,
    ) -> (step: ToolStep)
        requires
            old(database).wf(),
        ensures
            final(database).wf(),
            *final(database) == (Database {
                tasks: final(database).tasks,
                memory: final(database).memory,
                ..*old(database)
            }),
            dispatched(
                *self,
                *old(database),
                *final(database),
                fresh_id@,
                now,
                chat_id,
                name@,
                read_view(*value),
                step@,
            ),
    {
        if same(name, "schedule_task") {
            let r = schedule_task_at(
                database,
                self.timezone.as_str(),
                fresh_id,
                now,
                chat_id,
                value,
            );
            let ghost told_of = outcome(r);
            let text = tell(r);
            assert(schedule_done(
                *old(database),
                *database,
                self.timezone@,
                fresh_id@,
                now,
                chat_id,
                read_view(*value),
                told_of,
            ));
            ToolStep::Reply(text)
        } else if same(name, "cancel_scheduled_task") {
            let r = cancel_scheduled_task(database, chat_id, value);
            let ghost told_of = outcome(r);
            let text = tell(r);
            assert(cancel_done(*old(database), *database, chat_id, read_view(*value), told_of));
            ToolStep::Reply(text)
        } else if same(name, "remember") {
            let r = remember(database, value);
            let ghost told_of = outcome(r);
            let text = tell(r);
            assert(remember_done(*old(database), *database, read_view(*value), told_of));
            ToolStep::Reply(text)
        } else if same(name, "update_memory") {
            let r = update_memory(database, value);
            let ghost told_of = outcome(r);
            let text = tell(r);
            assert(update_done(*old(database), *database, read_view(*value), told_of));
            ToolStep::Reply(text)
        } else if same(name, "forget") {
            let r = forget(database, value);
            let ghost told_of = outcome(r);
            let text = tell(r);
            assert(forget_done(*old(database), *database, read_view(*value), told_of));
            ToolStep::Reply(text)
        } else {
            self.quiet_dispatch(database, chat_id, name, value)
        }
    }

    fn quiet_dispatch(
        &self,
        database: &Database,
        chat_id: i64,
        name: &str,
        value: &Result<Json, String>,
    ) -> (step: ToolStep)
        ensures
            step@ == quiet_step(*self, *database, chat_id, name@, read_view(*value)),
    {
        if same(name, "read_file") {
            match arguments::find_text(value, "path", 0, 1) {
                Some(path) => ToolStep::ReadFile(path),
                None => failed(complain(INVALID, value).as_str()),
            }
        } else if same(name, "list_directory") {
            match arguments::find_text(value, "path", 0, 1) {
                Some(path) => ToolStep::ListDirectory(path),
                None => failed(complain(INVALID, value).as_str()),
            }
        } else if same(name, "run_command") {
            match read_command_arguments(value) {
                Ok(arguments) => ToolStep::RunCommand(arguments),
                Err(error) => failed(error.as_str()),
            }
        } else if same(name, "command_status") {
            command_status(database, chat_id, value)
        } else if same(name, "stop_command") {
            stop_command(database, chat_id, value)
        } else if same(name, "delegate_to_kamui") {
            match read_required_text(
                value,
                "task",
                "delegate_to_kamui requires a non-empty 'task' argument",
            ) {
                Ok(task) => ToolStep::Delegate(task),
                Err(error) => failed(error.as_str()),
            }
        } else if same(name, "list_scheduled_tasks") {
            ToolStep::Reply(list_scheduled_tasks(database, self.timezone.as_str(), chat_id))
        } else {
            match self.extra_position(name) {
                Some(i) => ToolStep::External(i),
                None => {
                    let mut error = "unknown tool '".to_owned();
                    error.push_str(name);
                    error.push_str("'");
                    failed(error.as_str())
                },
            }
        }
    }

    /// Carries out a call made while answering `chat_id`.
    pub fn dispatch(&self, database: &mut Database, chat_id: i64, call: &ToolCall) -> (step:
        ToolStep)
        requires
            old(database).wf(),
        ensures
            final(database).wf(),
            *final(database) == (Database {
                tasks: final(database).tasks,
                memory: final(database).memory,
                ..*old(database)
            }),
            exists|fresh: Seq<char>, now: Instant|
                fresh.len() == 36 && #[trigger] dispatched(
                    *self,
                    *old(database),
                    *final(database),
                    fresh,
                    now,
                    chat_id,
                    call.name@,
                    json_read(call.arguments@),
                    step@,
                ),
    {
        let id = new_id();
        let now = utc_now();
        let value = read(call.arguments.as_str());
        let step = self.dispatch_value(
            database,
            id.as_str(),
            now,
            chat_id,
            call.name.as_str(),
            &value,
        );
        assert(dispatched(
            *self,
            *old(database),
            *database,
            id@,
            now,
            chat_id,
            call.name@,
            json_read(call.arguments@),
            step@,
        ));
        step
    }

    /// Whether the read-only sub-agent may make a call; the answer it gets where it may not.
    pub fn refuse_read_only(&self, name: &str) -> (r: Option<String>)
        ensures
            opt_view(r) == (if is_read_only(name@) {
                None
            } else {
                Some(
                    "Error: tool '"@ + name@ + "' is not available to the read-only sub-agent"@,
                )
            }),
    {
        if read_only(name) {
            return None;
        }
        let mut r = "Error: tool '".to_owned();
        r.push_str(name);
        r.push_str("' is not available to the read-only sub-agent");
        Some(r)
    }
}

pub open spec fn definitions_bytes(all: Seq<DefinitionView>) -> nat
    decreases all.len(),
{
    if all.len() == 0 {
        0
    } else {
        definitions_bytes(all.drop_last()) + crate::provider::definition_bytes(all.last())
    }
}

/// The tools that only look.
pub open spec fn is_read_only(name: Seq<char>) -> bool {
    name == "read_file"@ || name == "list_directory"@
}

fn read_only(name: &str) -> (r: bool)
    ensures
        r == is_read_only(name@),
{
    same(name, "read_file") || same(name, "list_directory")
}

fn find_job(database: &Database, chat_id: i64, id: &str) -> (r: Option<CommandJob>)
    ensures
        opt_view(r) == found_job(database.job_rows(), chat_id, id@),
{
    database.find_command_job(chat_id, id)
}

fn no_single_job(id: &str) -> (r: ToolStep)
    ensures
        r@ == failure(no_such_job(id@)),
{
    let mut error = "no single background job matches '".to_owned();
    error.push_str(id);
    error.push_str("'");
    failed(error.as_str())
}

/// Answers what became of a background command.
pub fn command_status(database: &Database, chat_id: i64, value: &Result<Json, String>) -> (r: ToolStep)
    ensures
        r@ == status_step(database.job_rows(), chat_id, read_view(*value)),
{
    match read_required_text(value, "id", "job id cannot be empty") {
        Err(error) => failed(error.as_str()),
        Ok(id) => match find_job(database, chat_id, id.as_str()) {
            None => no_single_job(id.as_str()),
            Some(job) => ToolStep::Reply(format_job(&job)),
        },
    }
}

/// What the request to stop a background command leads to.
pub fn stop_command(database: &Database, chat_id: i64, value: &Result<Json, String>) -> (r: ToolStep)
    ensures
        r@ == stop_step(database.job_rows(), chat_id, read_view(*value)),
{
    let id = match read_required_text(value, "id", "job id cannot be empty") {
        Err(error) => {
            return failed(error.as_str());
        },
        Ok(id) => id,
    };
    let job = match find_job(database, chat_id, id.as_str()) {
        None => {
            return no_single_job(id.as_str());
        },
        Some(job) => job,
    };
    if !same(job.status.as_str(), "running") {
        let mut r = "job ".to_owned();
        r.push_str(shorten(job.id.as_str()).as_str());
        r.push_str(" is already ");
        r.push_str(job.status.as_str());
        return ToolStep::Reply(r);
    }
    match job.pid {
        Some(pid) => if 0 <= pid && pid <= 4294967295i64 {
            ToolStep::StopJob { id: job.id, pid: pid as u32 }
        } else {
            failed("running job has no valid process id")
        },
        None => failed("running job has no valid process id"),
    }
}

/// What is answered once the process of a background command was to be stopped: `killed` is
/// nothing where the process was already gone, and else whether it is gone now; `recorded` whether
/// the command was still running when its cancellation was recorded.
pub open spec fn stopped_text(id: Seq<char>, pid: u32, killed: Option<bool>, recorded: bool) -> Result<
    Seq<char>,
    Seq<char>,
> {
    match killed {
        None => Ok(
            "job "@ + short_id(id) + " process already exited; its final status is pending"@,
        ),
        Some(gone) => if !gone {
            Err("could not stop process "@ + decimal(pid as nat) + " for job "@ + short_id(id))
        } else if recorded {
            Ok("stopped background job "@ + short_id(id))
        } else {
            Ok("job "@ + short_id(id) + " finished before it could be stopped"@)
        },
    }
}

/// Finishes the request to stop a background command at the time `now`: records the cancellation
/// where its process is gone, and answers.
pub fn finish_stop(
    database: &mut Database,
    now: i64,
    id: &str,
    pid: u32,
    killed: Option<bool>,
) -> (r: Result<String, String>)
    requires
        old(database).wf(),
    ensures
        final(database).wf(),
        *final(database) == (Database { jobs: final(database).jobs, ..*old(database) }),
        outcome(r) == stopped_text(
            id@,
            pid,
            killed,
            is_running(old(database).job_rows(), id@),
        ),
        killed != Some(true) ==> *final(database) == *old(database),
        killed == Some(true) ==> (forall|i: int| #[trigger]
            is_running_at(old(database).job_rows(), id@, i) ==> final(database).job_rows()
                == pruned(
                old(database).job_rows().update(i, cancelled(old(database).job_rows()[i], now)),
                old(database).job_rows()[i].chat,
            )),
{
    match killed {
        None => {
            let mut r = "job ".to_owned();
            r.push_str(shorten(id).as_str());
            r.push_str(" process already exited; its final status is pending");
            Ok(r)
        },
        Some(false) => {
            let mut error = "could not stop process ".to_owned();
            error.push_str(decimal_u64(pid as u64).as_str());
            error.push_str(" for job ");
            error.push_str(shorten(id).as_str());
            Err(error)
        },
        Some(true) => {
            if database.cancel_command_job_at(now, id) {
                let mut r = "stopped background job ".to_owned();
                r.push_str(shorten(id).as_str());
                Ok(r)
            } else {
                let mut r = "job ".to_owned();
                r.push_str(shorten(id).as_str());
                r.push_str(" finished before it could be stopped");
                Ok(r)
            }
        },
    }
}

/// How a foreground process ended.
#[derive(Debug)]
pub enum RunOutcome {
    Finished(ProcessOutput),
    /// It could not be run, for the given reason.
    Failed(String),
    TimedOut,
}

/// How a background process ended.
#[derive(Debug)]
pub enum BackgroundOutcome {
    Finished(ProcessOutput),
    /// Waiting for it failed, for the given reason.
    Failed(String),
    /// It ran too long; whether its process tree could be killed, and what it had printed.
    TimedOut { killed: Option<bool>, drained: Option<ProcessOutput> },
}

/// What is answered to a command that ran in the foreground.
pub open spec fn command_reply(end: RunOutcome) -> Result<Seq<char>, Seq<char>> {
    match end {
        RunOutcome::Finished(output) => Ok(
            command_text(output.code, output.stdout@, output.stderr@),
        ),
        RunOutcome::Failed(reason) => Err("failed to run the command: "@ + reason@),
        RunOutcome::TimedOut => Ok(
            "Error: command timed out after "@ + decimal(COMMAND_TIMEOUT as nat)
                + " seconds and was terminated"@,
        ),
    }
}

/// Answers a command that ran in the foreground.
pub fn reply_to_command(end: &RunOutcome) -> (r: Result<String, String>)
    ensures
        outcome(r) == command_reply(*end),
{
    match end {
        RunOutcome::Finished(output) => Ok(format_command_output(output)),
        RunOutcome::Failed(reason) => {
            let mut error = "failed to run the command: ".to_owned();
            error.push_str(reason.as_str());
            Err(error)
        },
        RunOutcome::TimedOut => {
            let mut r = "Error: command timed out after ".to_owned();
            r.push_str(decimal_u64(COMMAND_TIMEOUT).as_str());
            r.push_str(" seconds and was terminated");
            Ok(r)
        },
    }
}

/// What is answered to a task that was delegated to the coding agent.
pub open spec fn coding_reply(end: RunOutcome) -> Result<Seq<char>, Seq<char>> {
    match end {
        RunOutcome::Finished(output) => Ok(
            truncated(
                output::coding_summary(output.code, lossy(output.stdout@), lossy(output.stderr@)),
                MAX_COMMAND_OUTPUT as int,
            ),
        ),
        RunOutcome::Failed(reason) => Err("failed to run kamui: "@ + reason@),
        RunOutcome::TimedOut => Ok(
            "Error: kamui timed out after "@ + decimal(KAMUI_TIMEOUT as nat)
                + " seconds and was terminated"@,
        ),
    }
}

/// Answers a task that was delegated to the coding agent.
pub fn reply_to_delegation(end: &RunOutcome) -> (r: Result<String, String>)
    ensures
        outcome(r) == coding_reply(*end),
{
    match end {
        RunOutcome::Finished(output) => Ok(summarize_kamui_output(output)),
        RunOutcome::Failed(reason) => {
            let mut error = "failed to run kamui: ".to_owned();
            error.push_str(reason.as_str());
            Err(error)
        },
        RunOutcome::TimedOut => {
            let mut r = "Error: kamui timed out after ".to_owned();
            r.push_str(decimal_u64(KAMUI_TIMEOUT).as_str());
            r.push_str(" seconds and was terminated");
            Ok(r)
        },
    }
}

/// What is recorded of a background command that ended.
#[derive(Debug)]
pub struct JobResult {
    pub status: String,
    pub output: String,
    pub exit_code: Option<i32>,
}

/// Whether what is recorded of a background command is right.
pub open spec fn records(limit: u64, end: BackgroundOutcome, r: JobResult) -> bool {
    match end {
        BackgroundOutcome::Finished(output) => {
            &&& r.status@ == (if output.code == Some(0i32) {
                "completed"@
            } else {
                "failed"@
            })
            &&& r.output@ == command_text(output.code, output.stdout@, output.stderr@)
            &&& r.exit_code == output.code
        },
        BackgroundOutcome::Failed(reason) => {
            &&& r.status@ == "failed"@
            &&& r.output@ == "Error: "@ + reason@
            &&& r.exit_code is None
        },
        BackgroundOutcome::TimedOut { killed, drained } => {
            &&& r.status@ == "timed_out"@
            &&& r.output@ == truncated(
                timeout_text(limit, killed, drained),
                MAX_COMMAND_OUTPUT as int,
            )
            &&& r.exit_code is None
        },
    }
}

/// What to record of a background command that may run for `limit` seconds.
pub fn job_result(limit: u64, end: BackgroundOutcome) -> (r: JobResult)
    ensures
        records(limit, end, r),
{
    match end {
        BackgroundOutcome::Finished(output) => JobResult {
            status: (match output.code {
                Some(0) => "completed",
                _ => "failed",
            }).to_owned(),
            output: format_command_output(&output),
            exit_code: output.code,
        },
        BackgroundOutcome::Failed(reason) => {
            let mut text = "Error: ".to_owned();
            text.push_str(reason.as_str());
            JobResult { status: "failed".to_owned(), output: text, exit_code: None }
        },
        BackgroundOutcome::TimedOut { killed, drained } => JobResult {
            status: "timed_out".to_owned(),
            output: format_background_timeout(limit, killed, drained),
            exit_code: None,
        },
    }
}

/// What a recorded result's status is, is one that a stored command can have.
pub proof fn law_recorded_statuses_are_known(limit: u64, end: BackgroundOutcome, r: JobResult)
    requires
        records(limit, end, r),
    ensures
        crate::storage::jobs::job_status_of(r.status@) is Some,
        crate::storage::jobs::job_status_of(r.status@) != Some(
            crate::storage::JobStatus::Running,
        ),
{
    reveal_strlit("running");
    reveal_strlit("completed");
    reveal_strlit("failed");
    reveal_strlit("timed_out");
    assert("running"@.len() == 7 && "completed"@.len() == 9 && "failed"@.len() == 6
        && "timed_out"@.len() == 9);
}

/// The directory that a chat works in: the one it chose, or else the default.
pub open spec fn root_of(
    workspaces: Map<i64, Seq<char>>,
    chat: i64,
    default_root: Seq<char>,
) -> Seq<char> {
    if workspaces.contains_key(chat) {
        workspaces[chat]
    } else {
        default_root
    }
}

/// A command that was started in the background, as the model is told of it.
pub open spec fn started_text(id: Seq<char>, pid: u32) -> Seq<char> {
    "background job started ("@ + short_id(id) + "), pid "@ + decimal(pid as nat)
        + ". Use command_status or /jobs to check it."@
}

/// What is answered to a command that was started in the background.
pub fn background_started(id: &str, pid: u32) -> (r: String)
    ensures
        r@ == started_text(id@, pid),
{
    let mut r = "background job started (".to_owned();
    r.push_str(shorten(id).as_str());
    r.push_str("), pid ");
    r.push_str(decimal_u64(pid as u64).as_str());
    r.push_str(". Use command_status or /jobs to check it.");
    r
}

/// The command to run where the rewriter, if it was asked, ended like this.
pub open spec fn command_to_run(command: Seq<char>, rewriter: Option<&ProcessOutput>) -> Seq<char> {
    match rewriter {
        Some(output) => if output.code == Some(0i32) && output.stdout@.len() > 0 {
            trim(lossy(output.stdout@))
        } else {
            command
        },
        None => command,
    }
}

/// The command to run once the rewriter was asked: what it printed where it succeeded and printed
/// anything, and the command itself otherwise.
pub fn rewritten(command: &str, rewriter: Option<&ProcessOutput>) -> (r: String)
    ensures
        r@ == command_to_run(command@, rewriter),
{
    if let Some(output) = rewriter {
        if let Some(0) = output.code {
            if output.stdout.len() > 0 {
                return trimmed(lossy_text(&output.stdout).as_str());
            }
        }
    }
    command.to_owned()
}

/// A call that the read-only sub-agent may make reads a file, lists a directory or is answered at
/// once, whatever its arguments: it never runs a command.
pub proof fn law_read_only_tools_run_commands_never(registry: ToolRegistry, name: Seq<char>)
    requires
        is_read_only(name),
    ensures
        name != "run_command"@,
        name != "delegate_to_kamui"@,
        forall|database: Database, chat: i64, value: Result<JsonView, Seq<char>>|
            match #[trigger] quiet_step(registry, database, chat, name, value) {
                StepView::ReadFile(_) | StepView::ListDirectory(_) | StepView::Reply(_) => true,
                _ => false,
            },
{
    reveal_strlit("read_file");
    reveal_strlit("list_directory");
    reveal_strlit("run_command");
    reveal_strlit("delegate_to_kamui");
    assert("read_file"@.len() == 9 && "list_directory"@.len() == 14 && "run_command"@.len() == 11
        && "delegate_to_kamui"@.len() == 17);
}

/// A tool is called with what the model gave: the file or the directory that was named, the command
/// or the task without the blanks around it, and in the background exactly where that was asked for.
pub proof fn law_tools_get_what_was_given(
    registry: ToolRegistry,
    database: Database,
    chat: i64,
    value: JsonView,
    text: Seq<char>,
)
    requires
        value is Object,
    ensures
        value.field("path"@) == Some(JsonView::Text(text)) ==> {
            &&& quiet_step(registry, database, chat, "read_file"@, Ok(value)) == StepView::ReadFile(
                text,
            )
            &&& quiet_step(registry, database, chat, "list_directory"@, Ok(value))
                == StepView::ListDirectory(text)
        },
        value.field("command"@) == Some(JsonView::Text(text)) && trim(text).len() > 0 ==> {
            &&& value.field("background"@) is None ==> quiet_step(
                registry,
                database,
                chat,
                "run_command"@,
                Ok(value),
            ) == (StepView::RunCommand { command: trim(text), background: false })
            &&& value.field("background"@) matches Some(JsonView::Bool(flag)) ==> quiet_step(
                registry,
                database,
                chat,
                "run_command"@,
                Ok(value),
            ) == (StepView::RunCommand { command: trim(text), background: flag })
        },
        value.field("task"@) == Some(JsonView::Text(text)) && trim(text).len() > 0 ==> quiet_step(
            registry,
            database,
            chat,
            "delegate_to_kamui"@,
            Ok(value),
        ) == StepView::Delegate(trim(text)),
{
    lemma_tool_names();
}

/// The names of the library's own tools differ from each other.
proof fn lemma_tool_names()
    ensures
        "read_file"@ != "list_directory"@,
        "read_file"@ != "run_command"@,
        "read_file"@ != "command_status"@,
        "read_file"@ != "stop_command"@,
        "read_file"@ != "delegate_to_kamui"@,
        "read_file"@ != "list_scheduled_tasks"@,
        "list_directory"@ != "run_command"@,
        "list_directory"@ != "command_status"@,
        "list_directory"@ != "stop_command"@,
        "list_directory"@ != "delegate_to_kamui"@,
        "list_directory"@ != "list_scheduled_tasks"@,
        "run_command"@ != "command_status"@,
        "run_command"@ != "stop_command"@,
        "run_command"@ != "delegate_to_kamui"@,
        "run_command"@ != "list_scheduled_tasks"@,
        "command_status"@ != "stop_command"@,
        "command_status"@ != "delegate_to_kamui"@,
        "command_status"@ != "list_scheduled_tasks"@,
        "stop_command"@ != "delegate_to_kamui"@,
        "stop_command"@ != "list_scheduled_tasks"@,
        "delegate_to_kamui"@ != "list_scheduled_tasks"@,
{
    reveal_strlit("read_file");
    reveal_strlit("list_directory");
    reveal_strlit("run_command");
    reveal_strlit("command_status");
    reveal_strlit("stop_command");
    reveal_strlit("delegate_to_kamui");
    reveal_strlit("list_scheduled_tasks");
    assert("read_file"@.len() == 9 && "list_directory"@.len() == 14 && "run_command"@.len() == 11
        && "command_status"@.len() == 14 && "stop_command"@.len() == 12
        && "delegate_to_kamui"@.len() == 17 && "list_scheduled_tasks"@.len() == 20);
    assert("list_directory"@[0] == 'l' && "command_status"@[0] == 'c');
}

/// What runs commands always needs consent, what only reads never does, and an external tool needs it
/// exactly where it was configured to.
pub proof fn law_commands_are_gated(registry: ToolRegistry, i: int)
    requires
        0 <= i < registry.extra@.len(),
        forall|k: int|
            0 <= k < i ==> (#[trigger] registry.extra@[k]).name@ != registry.extra@[i].name@,
    ensures
        registry.is_gated("run_command"@),
        registry.is_gated("delegate_to_kamui"@),
        registry.extra@[i].name@ != "run_command"@ && registry.extra@[i].name@
            != "delegate_to_kamui"@ ==> registry.is_gated(registry.extra@[i].name@)
            == registry.extra@[i].requires_confirmation,
{
    lemma_first_named(registry.extra@, registry.extra@[i].name@, 0, i);
}

/// A tool that nobody brought along is not gated, and calling it fails.
pub proof fn law_unknown_tools_are_refused(
    registry: ToolRegistry,
    database: Database,
    chat: i64,
    name: Seq<char>,
    value: Result<JsonView, Seq<char>>,
)
    requires
        forall|k: int| 0 <= k < registry.extra@.len() ==> (#[trigger] registry.extra@[k]).name@
            != name,
        !is_own_name(name),
    ensures
        !registry.is_gated(name),
        quiet_step(registry, database, chat, name, value) matches StepView::Reply(text)
            && occurs_at(text, "Error: "@, 0) && contains(text, name),
{
    lemma_none_named(registry.extra@, name, 0);
    let front = "Error: "@;
    let text = front + ("unknown tool '"@ + name + "'"@);
    lemma_starts(front, "unknown tool '"@ + name + "'"@);
    lemma_one(front + "unknown tool '"@, name, "'"@);
    assert(front + "unknown tool '"@ + name + "'"@ =~= text);
    lemma_in_turn_contains(text, seq![name], 0);
}

/// Whether a name is one of the library's own tools that answer without changing anything.
pub open spec fn is_own_name(name: Seq<char>) -> bool {
    name == "read_file"@ || name == "list_directory"@ || name == "run_command"@ || name
        == "command_status"@ || name == "stop_command"@ || name == "delegate_to_kamui"@ || name
        == "list_scheduled_tasks"@
}

proof fn lemma_first_named(tools: Seq<ExternalTool>, name: Seq<char>, from: int, i: int)
    requires
        0 <= from <= i < tools.len(),
        tools[i].name@ == name,
        forall|k: int| from <= k < i ==> (#[trigger] tools[k]).name@ != name,
    ensures
        first_named(tools, name, from) == Some(i),
    decreases i - from,
{
    if from < i {
        lemma_first_named(tools, name, from + 1, i);
    }
}

proof fn lemma_none_named(tools: Seq<ExternalTool>, name: Seq<char>, from: int)
    requires
        0 <= from,
        forall|k: int| 0 <= k < tools.len() ==> (#[trigger] tools[k]).name@ != name,
    ensures
        first_named(tools, name, from) is None,
    decreases tools.len() - from,
{
    if from < tools.len() {
        lemma_none_named(tools, name, from + 1);
    }
}

/// A call of an external tool reaches the first one of that name.
pub proof fn law_external_calls_reach_their_tool(
    registry: ToolRegistry,
    database: Database,
    chat: i64,
    i: int,
    value: Result<JsonView, Seq<char>>,
)
    requires
        0 <= i < registry.extra@.len(),
        !is_own_name(registry.extra@[i].name@),
        forall|k: int|
            0 <= k < i ==> (#[trigger] registry.extra@[k]).name@ != registry.extra@[i].name@,
    ensures
        quiet_step(registry, database, chat, registry.extra@[i].name@, value)
            == StepView::External(i),
{
    lemma_first_named(registry.extra@, registry.extra@[i].name@, 0, i);
}

/// What is shown before a gated call is what will run: the command or the task as it would be run,
/// and whether it would run in the background, and of an external tool its label and its arguments.
pub proof fn law_previews_show_what_would_run(
    registry: ToolRegistry,
    database: Database,
    chat: i64,
    call: CallView,
    value: Result<JsonView, Seq<char>>,
)
    ensures
        call.name == "run_command"@ ==> {
            match quiet_step(registry, database, chat, call.name, value) {
                StepView::RunCommand { command, background } => registry.preview_of(call, value)
                    matches Some(shown) && ends_in(shown, ": "@ + command) && (background
                    <==> contains(shown.take(shown.len() - command.len()), "background"@)),
                _ => registry.preview_of(call, value) is None,
            }
        },
        call.name == "delegate_to_kamui"@ ==> {
            match quiet_step(registry, database, chat, call.name, value) {
                StepView::Delegate(task) => registry.preview_of(call, value) matches Some(shown)
                    && ends_in(shown, task),
                _ => registry.preview_of(call, value) is None,
            }
        },
        !is_own_name(call.name) ==> {
            match quiet_step(registry, database, chat, call.name, value) {
                StepView::External(i) => registry.preview_of(call, value) matches Some(shown)
                    && in_turn(shown, seq![registry.extra@[i].label@, trim(call.arguments)]),
                _ => registry.preview_of(call, value) is None,
            }
        },
{
    lemma_tool_names();
    let empty: Seq<char> = seq![];
    if call.name == "run_command"@ {
        if let Ok((command, background)) = command_arguments(value) {
            reveal_strlit("Command (background): ");
            reveal_strlit("Command: ");
            reveal_strlit(": ");
            reveal_strlit("background");
            let front = if background {
                "Command (background): "@
            } else {
                "Command: "@
            };
            let shown = front + command;
            let head = front.take(front.len() - 2);
            lemma_ends_in(head, ": "@ + command);
            assert(shown =~= head + (": "@ + command));
            assert(shown.take(shown.len() - command.len()) =~= front);
            if background {
                assert(front.subrange(9, 19) =~= "background"@);
                assert(occurs_at(front, "background"@, 9));
            } else {
                assert(front.len() < "background"@.len());
            }
        }
    } else if call.name == "delegate_to_kamui"@ {
        if let StepView::Delegate(task) = quiet_step(registry, database, chat, call.name, value) {
            lemma_ends_in("Kamui task: "@, task);
        }
    } else if !is_own_name(call.name) {
        if let Some(i) = first_named(registry.extra@, call.name, 0) {
            lemma_two(empty, registry.extra@[i].label@, " "@, trim(call.arguments), empty);
            assert(registry.extra@[i].label@ + " "@ + trim(call.arguments) =~= empty
                + registry.extra@[i].label@ + " "@ + trim(call.arguments) + empty);
        }
    }
}

/// The model is offered the library's own tools and, behind them, every external tool with its name,
/// its description and its schema, in their order.
pub proof fn law_every_tool_is_offered(registry: ToolRegistry, i: int)
    requires
        0 <= i < registry.extra@.len(),
    ensures
        ({
            let own = own_tools(registry.background_max, registry.coding_agent);
            &&& registry.offered().len() == own.len() + registry.extra@.len()
            &&& registry.offered().take(own.len() as int) == own
            &&& registry.offered()[own.len() + i].name == registry.extra@[i].name@
            &&& registry.offered()[own.len() + i].description == registry.extra@[i].description@
            &&& registry.offered()[own.len() + i].parameters == registry.extra@[i].parameters@
        }),
{
    let own = own_tools(registry.background_max, registry.coding_agent);
    assert(registry.offered().take(own.len() as int) =~= own);
}

/// Tools cost what their definitions cost together.
pub proof fn law_tools_cost_what_their_definitions_cost(
    all: Seq<DefinitionView>,
    definition: DefinitionView,
)
    ensures
        definitions_bytes(Seq::empty()) == 0,
        definitions_bytes(all.push(definition)) == definitions_bytes(all)
            + crate::provider::definition_bytes(definition),
{
    assert(all.push(definition).drop_last() =~= all);
}

/// A job is asked after by the start of its id, and told as it is kept; only a job of the chat that
/// asks is told.
pub proof fn law_jobs_are_asked_after_by_id(rows: Seq<JobRowView>, chat: i64, value: JsonView, id: Seq<char>)
    requires
        value is Object,
        value.field("id"@) == Some(JsonView::Text(id)),
        trim(id).len() > 0,
    ensures
        sole(rows, job_named(chat, trim(id))) matches Some(i) ==> status_step(rows, chat, Ok(value))
            == StepView::Reply(job_text(report_of(rows[i]))) && rows[i].chat == chat,
        sole(rows, job_named(chat, trim(id))) is None ==> (status_step(rows, chat, Ok(value))
            matches StepView::Reply(text) && occurs_at(text, "Error: "@, 0) && contains(
            text,
            trim(id),
        )),
{
    law_sole_is_unambiguous(rows, job_named(chat, trim(id)));
    let front = "Error: "@;
    let told = no_such_job(trim(id));
    lemma_starts(front, told);
    lemma_one(front + "no single background job matches '"@, trim(id), "'"@);
    assert(front + told =~= front + "no single background job matches '"@ + trim(id) + "'"@);
    lemma_in_turn_contains(front + told, seq![trim(id)], 0);
}

/// Only a job of the chat that asks is stopped, only while it runs, and by the process that was
/// started for it.
pub proof fn law_only_running_jobs_are_stopped(rows: Seq<JobRowView>, chat: i64, value: Result<JsonView, Seq<char>>)
    ensures
        stop_step(rows, chat, value) matches StepView::StopJob { id, pid } ==> exists|i: int|
            {
                &&& 0 <= i < rows.len()
                &&& (#[trigger] rows[i]).id == id
                &&& rows[i].chat == chat
                &&& rows[i].status == crate::storage::JobStatus::Running
                &&& rows[i].pid == Some(pid as i64)
            },
        stop_step(rows, chat, value) is StopJob || stop_step(rows, chat, value) is Reply,
{
    if let StepView::StopJob { id, pid } = stop_step(rows, chat, value) {
        let named = required_text(value, "id"@, "job id cannot be empty"@)->Ok_0;
        law_sole_is_unambiguous(rows, job_named(chat, named));
        let i = sole(rows, job_named(chat, named))->0;
        assert(job_named(chat, named)(rows[i]));
        reveal_strlit("running");
        reveal_strlit("completed");
        reveal_strlit("failed");
        reveal_strlit("cancelled");
        reveal_strlit("timed_out");
        assert("running"@.len() == 7 && "completed"@.len() == 9 && "failed"@.len() == 6
            && "cancelled"@.len() == 9 && "timed_out"@.len() == 9);
        assert(rows[i].id == id);
    }
}

/// What an error says reaches the model behind a word that marks it as an error; what went well is
/// told as it is.
pub proof fn law_failures_are_marked(text: Seq<char>)
    ensures
        told(Ok(text)) == text,
        occurs_at(told(Err(text)), "Error: "@, 0),
        ends_in(told(Err(text)), text),
        failure(text) == StepView::Reply(told(Err(text))),
{
    lemma_starts("Error: "@, text);
    lemma_ends_in("Error: "@, text);
}

/// What a command printed and how it ended is what the model is told; that it could not be started or
/// ran too long is told as an error.
pub proof fn law_commands_are_told_as_they_ended(output: ProcessOutput, reason: String)
    ensures
        command_reply(RunOutcome::Finished(output)) == Ok::<Seq<char>, Seq<char>>(
            command_text(output.code, output.stdout@, output.stderr@),
        ),
        command_reply(RunOutcome::Failed(reason)) matches Err(text) && ends_in(text, reason@),
        command_reply(RunOutcome::TimedOut) matches Ok(text) && occurs_at(text, "Error: "@, 0)
            && contains(text, decimal(30)),
        coding_reply(RunOutcome::Failed(reason)) matches Err(text) && ends_in(text, reason@),
        coding_reply(RunOutcome::TimedOut) matches Ok(text) && occurs_at(text, "Error: "@, 0),
{
    lemma_ends_in("failed to run the command: "@, reason@);
    lemma_ends_in("failed to run kamui: "@, reason@);
    reveal_strlit("Error: ");
    reveal_strlit("Error: command timed out after ");
    reveal_strlit("Error: kamui timed out after ");
    let back = " seconds and was terminated"@;
    let text = "Error: command timed out after "@ + decimal(COMMAND_TIMEOUT as nat) + back;
    assert(text.subrange(0, 7) =~= "Error: "@);
    lemma_one("Error: command timed out after "@, decimal(COMMAND_TIMEOUT as nat), back);
    lemma_in_turn_contains(text, seq![decimal(COMMAND_TIMEOUT as nat)], 0);
    let coding = "Error: kamui timed out after "@ + decimal(KAMUI_TIMEOUT as nat) + back;
    assert(coding.subrange(0, 7) =~= "Error: "@);
}

/// A job in the background is recorded as completed exactly where it ended well, with its exit code
/// and what it printed.
pub proof fn law_background_jobs_are_recorded_as_they_ended(
    limit: u64,
    output: ProcessOutput,
    reason: String,
    r: JobResult,
)
    ensures
        records(limit, BackgroundOutcome::Finished(output), r) ==> {
            &&& r.status@ == "completed"@ <==> output.code == Some(0i32)
            &&& r.exit_code == output.code
            &&& r.output@ == command_text(output.code, output.stdout@, output.stderr@)
        },
        records(limit, BackgroundOutcome::Failed(reason), r) ==> r.status@ == "failed"@ && ends_in(
            r.output@,
            reason@,
        ),
{
    reveal_strlit("completed");
    reveal_strlit("failed");
    assert("completed"@.len() != "failed"@.len());
    lemma_ends_in("Error: "@, reason@);
}

/// Stopping a job is told with the job's id, and a process that would not stop is an error.
pub proof fn law_stops_are_told_with_the_job(id: Seq<char>, pid: u32, recorded: bool)
    ensures
        stopped_text(id, pid, Some(false), recorded) matches Err(text) && in_turn(
            text,
            seq![decimal(pid as nat), short_id(id)],
        ),
        stopped_text(id, pid, Some(true), true) matches Ok(text) && ends_in(text, short_id(id)),
        stopped_text(id, pid, Some(true), false) matches Ok(text) && contains(text, short_id(id)),
        stopped_text(id, pid, None, recorded) matches Ok(text) && contains(text, short_id(id)),
{
    let empty: Seq<char> = seq![];
    let short = short_id(id);
    lemma_two("could not stop process "@, decimal(pid as nat), " for job "@, short, empty);
    assert("could not stop process "@ + decimal(pid as nat) + " for job "@ + short =~=
        "could not stop process "@ + decimal(pid as nat) + " for job "@ + short + empty);
    lemma_ends_in("stopped background job "@, short);
    lemma_one("job "@, short, " finished before it could be stopped"@);
    lemma_in_turn_contains(
        "job "@ + short + " finished before it could be stopped"@,
        seq![short],
        0,
    );
    lemma_one("job "@, short, " process already exited; its final status is pending"@);
    lemma_in_turn_contains(
        "job "@ + short + " process already exited; its final status is pending"@,
        seq![short],
        0,
    );
}

/// A call that names one of the tools that change something does just that tool's work for the chat
/// that called, and what became of it is what the model is told; every other call changes nothing.
pub proof fn law_calls_do_the_work_of_their_tool(
    registry: ToolRegistry,
    before: Database,
    after: Database,
    fresh: Seq<char>,
    now: Instant,
    chat: i64,
    name: Seq<char>,
    value: Result<JsonView, Seq<char>>,
    step: StepView,
)
    requires
        dispatched(registry, before, after, fresh, now, chat, name, value, step),
    ensures
        name == "schedule_task"@ ==> exists|r: Result<Seq<char>, Seq<char>>| #[trigger]
            schedule_done(before, after, registry.timezone@, fresh, now, chat, value, r) && step
                == StepView::Reply(told(r)),
        name == "cancel_scheduled_task"@ ==> exists|r: Result<Seq<char>, Seq<char>>| #[trigger]
            cancel_done(before, after, chat, value, r) && step == StepView::Reply(told(r)),
        name == "remember"@ ==> exists|r: Result<Seq<char>, Seq<char>>| #[trigger]
            remember_done(before, after, value, r) && step == StepView::Reply(told(r)),
        name == "update_memory"@ ==> exists|r: Result<Seq<char>, Seq<char>>| #[trigger]
            update_done(before, after, value, r) && step == StepView::Reply(told(r)),
        name == "forget"@ ==> exists|r: Result<Seq<char>, Seq<char>>| #[trigger]
            forget_done(before, after, value, r) && step == StepView::Reply(told(r)),
        name != "schedule_task"@ && name != "cancel_scheduled_task"@ && name != "remember"@ && name
            != "update_memory"@ && name != "forget"@ ==> after == before,
        name == "list_scheduled_tasks"@ ==> step == StepView::Reply(
            tasks_text(agenda(before.task_rows(), pending_in(chat)), registry.timezone@),
        ),
{
    reveal_strlit("schedule_task");
    reveal_strlit("cancel_scheduled_task");
    reveal_strlit("remember");
    reveal_strlit("update_memory");
    reveal_strlit("forget");
    reveal_strlit("list_scheduled_tasks");
    assert("schedule_task"@.len() == 13 && "cancel_scheduled_task"@.len() == 21 && "remember"@.len()
        == 8 && "update_memory"@.len() == 13 && "forget"@.len() == 6 && "list_scheduled_tasks"@.len()
        == 20);
    assert("schedule_task"@[0] == 's' && "update_memory"@[0] == 'u');
    lemma_tool_names();
}

/// The tools that work in the chat's directory are those that read it, list it or run something in it.
pub proof fn law_four_tools_work_in_the_directory(name: Seq<char>)
    ensures
        uses_workspace(name) <==> (name == "read_file"@ || name == "list_directory"@ || name
            == "run_command"@ || name == "delegate_to_kamui"@),
        is_read_only(name) ==> uses_workspace(name) && !(name == "run_command"@ || name
            == "delegate_to_kamui"@),
{
    lemma_tool_names();
}

/// A command in the background is told with the id it is asked after by, and its process.
pub proof fn law_started_commands_are_told(id: Seq<char>, pid: u32)
    ensures
        in_turn(started_text(id, pid), seq![short_id(id), decimal(pid as nat)]),
{
    lemma_two(
        "background job started ("@,
        short_id(id),
        "), pid "@,
        decimal(pid as nat),
        ". Use command_status or /jobs to check it."@,
    );
}

/// What the rewriter printed is run, without the blanks around it, where it succeeded; otherwise the
/// command is run as it was asked for.
pub proof fn law_only_a_finished_rewrite_is_run(command: Seq<char>, output: ProcessOutput)
    ensures
        command_to_run(command, None) == command,
        output.code != Some(0i32) ==> command_to_run(command, Some(&output)) == command,
        output.stdout@.len() == 0 ==> command_to_run(command, Some(&output)) == command,
        output.code == Some(0i32) && output.stdout@.len() > 0 ==> exists|at: int|
            blanks_around(lossy(output.stdout@), command_to_run(command, Some(&output)), at),
{
    let printed = lossy(output.stdout@);
    law_trimming_takes_blanks_only(printed);
    if output.code == Some(0i32) && output.stdout@.len() > 0 {
        let at = choose|at: int| blanks_around(printed, trim(printed), at);
        assert(blanks_around(printed, command_to_run(command, Some(&output)), at));
    }
}

/// A chat works where it chose to, and the chats that chose nothing work in the default directory.
pub proof fn law_chats_work_where_they_chose(
    workspaces: Map<i64, Seq<char>>,
    chat: i64,
    other: i64,
    path: Seq<char>,
    default_root: Seq<char>,
)
    requires
        other != chat,
    ensures
        root_of(workspaces.insert(chat, path), chat, default_root) == path,
        root_of(workspaces.remove(chat), chat, default_root) == default_root,
        root_of(workspaces.insert(chat, path), other, default_root) == root_of(
            workspaces,
            other,
            default_root,
        ),
        root_of(workspaces.remove(chat), other, default_root) == root_of(
            workspaces,
            other,
            default_root,
        ),
{
}

} // verus!
