//! The tools that the model is offered: their names, what it is told of them, and the arguments
//! they take.
use vstd::prelude::*;
use vstd::string::*;

use crate::json::{lemma_field_with, lemma_three_fields, Json, JsonView};
use crate::provider::{DefinitionView, ToolDefinition};
use crate::text::{decimal, decimal_u64, in_turn, lemma_two, seq_view};

verus! {

pub const READ_FILE: &'static str = "Read a UTF-8 text file inside the configured workspace.";

pub const READ_FILE_PATH: &'static str = "Workspace-relative file path, for example src/main.rs.";

pub const LIST_DIRECTORY: &'static str = "List entries in a directory inside the configured workspace.";

pub const LIST_DIRECTORY_PATH: &'static str = "Workspace-relative directory path; use . for the root.";

pub const RUN_COMMAND: &'static str = "Run a shell command in the configured workspace after the user explicitly approves it. Use this for checks, builds, tests, and other host tasks.";

pub const RUN_COMMAND_COMMAND: &'static str = "Shell command to run in the workspace, for example cargo test.";

pub const COMMAND_STATUS: &'static str = "Check a background command's status and latest result by job id.";

pub const STOP_COMMAND: &'static str = "Stop a running background command by job id.";

pub const DELEGATE_TO_KAMUI: &'static str = "Delegate a coding task (reading, editing, or running commands against files in the workspace) to Kamui, an independent coding agent. Use this instead of run_command for anything that involves editing files. The user must approve the task before it runs.";

pub const DELEGATE_TO_KAMUI_TASK: &'static str = "A clear, self-contained description of the coding task for Kamui to perform, e.g. \"add input validation to the login handler and run the tests\".";

pub const SCHEDULE_TASK: &'static str = "Schedule a message to yourself for a future time, once or repeating. At the scheduled time (and again after each repeat_interval_seconds, if given), the given prompt is sent through your own agent loop (with all the same tools) as if the user had just sent it, and the result is delivered to the user in this chat. Use the user's configured timezone (given in the system prompt) to compute run_at, which is always the *first* time it should run — for a recurring task like \"every day at 9am\", set run_at to the next upcoming 9am, not today's if it has already passed.";

pub const SCHEDULE_TASK_PROMPT: &'static str = "The instruction to run at the scheduled time, e.g. \"check BTC price and summarize the last 24h\".";

pub const SCHEDULE_TASK_RUN_AT: &'static str = "When to run it the first time, as RFC 3339 with a UTC offset, e.g. \"2026-07-27T09:00:00+07:00\".";

pub const SCHEDULE_TASK_REPEAT_INTERVAL_SECONDS: &'static str = "Omit for a one-shot task — most reminders are one-shot. Only set this when the user asks for something genuinely repeating, e.g. 86400 for daily, 604800 for weekly. Every run delivers a message to the chat, so short intervals read as spam.";

pub const LIST_SCHEDULED_TASKS: &'static str = "List this chat's pending scheduled tasks, each with the id needed to cancel it. Call this before answering any question about what is scheduled, and before cancelling anything.";

pub const CANCEL_SCHEDULED_TASK: &'static str = "Cancel a pending scheduled task by its id, as shown by list_scheduled_tasks. Use this whenever the user asks to stop, remove, or turn off a reminder — including \"stop reminding me\" and \"don't repeat that\". Saying you have stopped a reminder without calling this changes nothing, and it will keep firing.";

pub const CANCEL_SCHEDULED_TASK_ID: &'static str = "The task id from list_scheduled_tasks; a unique prefix is enough.";

pub const REMEMBER: &'static str = "Save a fact about the user or their preferences permanently. Unlike conversation history, this persists across /new, session switches, and restarts, and is visible in every future conversation. Use it only when explicitly asked to remember something, or when the user states a clear, durable preference or fact about themselves. If a similar fact is already remembered, use update_memory instead of adding a duplicate.";

pub const REMEMBER_FACT: &'static str = "A short, self-contained fact, e.g. \"The user is a researcher.\" or \"Prefers concise answers.\"";

pub const UPDATE_MEMORY: &'static str = "Replace a previously remembered fact that is now outdated or wrong. Find it by an unambiguous substring of its exact wording; if more than one remembered fact matches, this fails and lists the facts it matched, so retry with a substring that appears in only one of them.";

pub const UPDATE_MEMORY_MATCHING: &'static str = "A substring that uniquely identifies the fact to replace, e.g. \"is a researcher\".";

pub const UPDATE_MEMORY_FACT: &'static str = "The corrected fact to store in its place.";

pub const FORGET: &'static str = "Permanently delete a previously remembered fact, found by an unambiguous substring of its exact wording (same matching rule as update_memory).";

pub const FORGET_MATCHING: &'static str = "A substring that uniquely identifies the fact to delete.";

pub const ASK_USER: &'static str = "Pause and ask the user a clarifying question before proceeding, when a task is ambiguous or has multiple reasonable interpretations. This is not for approval of a risky action (run_command and delegate_to_kamui already ask for that automatically) — use it when you genuinely need more information to continue, e.g. which of several matching files was meant, or a preference between reasonable options. The user can tap one of the offered options or reply with free text instead.";

pub const ASK_USER_QUESTION: &'static str = "The question to ask, e.g. \"Which file did you mean?\"";

pub const ASK_USER_OPTIONS: &'static str = "2-4 short suggested answers shown as buttons, e.g. [\"src/main.rs\", \"src/lib.rs\"]. Optional — omit for an open-ended question with no natural fixed choices.";

pub const DELEGATE_READONLY: &'static str = "Delegate a multi-step workspace investigation to a fresh read-only sub-agent. It can read files and list directories but cannot run commands, edit files, schedule tasks, or call external tools. Use it when intermediate exploration would otherwise fill the main context.";

pub const DELEGATE_READONLY_TASK: &'static str = "A self-contained investigation task.";

/// A value of the given type.
pub open spec fn plain(kind: Seq<char>) -> JsonView {
    JsonView::object().with("type"@, JsonView::Text(kind))
}

/// A value of the given type, with an explanation.
pub open spec fn described(kind: Seq<char>, description: Seq<char>) -> JsonView {
    plain(kind).with("description"@, JsonView::Text(description))
}

/// A list of texts, with an explanation.
pub open spec fn text_list(description: Seq<char>) -> JsonView {
    plain("array"@).with("items"@, plain("string"@)).with(
        "description"@,
        JsonView::Text(description),
    )
}

/// An object with the given properties.
pub open spec fn schema(properties: JsonView) -> JsonView {
    plain("object"@).with("properties"@, properties)
}

/// What the model is told of background commands that may run for `background_max` seconds.
pub open spec fn background_text(background_max: u64) -> Seq<char> {
    "Set true for commands that may take longer than "@ + decimal(30) + " seconds. Kumo starts the job immediately and reports back when it finishes. A background job is still bounded: it is terminated if it is still running after "@
        + decimal(background_max as nat) + " seconds."@
}

pub open spec fn read_file_tool() -> DefinitionView {
    DefinitionView {
        name: "read_file"@,
        description: READ_FILE@,
        parameters: schema(JsonView::object()
            .with("path"@, described("string"@, READ_FILE_PATH@)))
            .with("required"@, JsonView::array().item(JsonView::Text("path"@))),
    }
}

pub open spec fn list_directory_tool() -> DefinitionView {
    DefinitionView {
        name: "list_directory"@,
        description: LIST_DIRECTORY@,
        parameters: schema(JsonView::object()
            .with("path"@, described("string"@, LIST_DIRECTORY_PATH@)))
            .with("required"@, JsonView::array().item(JsonView::Text("path"@))),
    }
}

pub open spec fn run_command_tool(background_max: u64) -> DefinitionView {
    DefinitionView {
        name: "run_command"@,
        description: RUN_COMMAND@,
        parameters: schema(JsonView::object()
            .with("command"@, described("string"@, RUN_COMMAND_COMMAND@))
            .with("background"@, described("boolean"@, background_text(background_max))))
            .with("required"@, JsonView::array().item(JsonView::Text("command"@))),
    }
}

pub open spec fn command_status_tool() -> DefinitionView {
    DefinitionView {
        name: "command_status"@,
        description: COMMAND_STATUS@,
        parameters: schema(JsonView::object()
            .with("id"@, plain("string"@)))
            .with("required"@, JsonView::array().item(JsonView::Text("id"@))),
    }
}

pub open spec fn stop_command_tool() -> DefinitionView {
    DefinitionView {
        name: "stop_command"@,
        description: STOP_COMMAND@,
        parameters: schema(JsonView::object()
            .with("id"@, plain("string"@)))
            .with("required"@, JsonView::array().item(JsonView::Text("id"@))),
    }
}

pub open spec fn delegate_to_kamui_tool() -> DefinitionView {
    DefinitionView {
        name: "delegate_to_kamui"@,
        description: DELEGATE_TO_KAMUI@,
        parameters: schema(JsonView::object()
            .with("task"@, described("string"@, DELEGATE_TO_KAMUI_TASK@)))
            .with("required"@, JsonView::array().item(JsonView::Text("task"@))),
    }
}

pub open spec fn schedule_task_tool() -> DefinitionView {
    DefinitionView {
        name: "schedule_task"@,
        description: SCHEDULE_TASK@,
        parameters: schema(JsonView::object()
            .with("prompt"@, described("string"@, SCHEDULE_TASK_PROMPT@))
            .with("run_at"@, described("string"@, SCHEDULE_TASK_RUN_AT@))
            .with("repeat_interval_seconds"@, described("integer"@, SCHEDULE_TASK_REPEAT_INTERVAL_SECONDS@)))
            .with("required"@, JsonView::array().item(JsonView::Text("prompt"@)).item(JsonView::Text("run_at"@))),
    }
}

pub open spec fn list_scheduled_tasks_tool() -> DefinitionView {
    DefinitionView {
        name: "list_scheduled_tasks"@,
        description: LIST_SCHEDULED_TASKS@,
        parameters: schema(JsonView::object()),
    }
}

pub open spec fn cancel_scheduled_task_tool() -> DefinitionView {
    DefinitionView {
        name: "cancel_scheduled_task"@,
        description: CANCEL_SCHEDULED_TASK@,
        parameters: schema(JsonView::object()
            .with("id"@, described("string"@, CANCEL_SCHEDULED_TASK_ID@)))
            .with("required"@, JsonView::array().item(JsonView::Text("id"@))),
    }
}

pub open spec fn remember_tool() -> DefinitionView {
    DefinitionView {
        name: "remember"@,
        description: REMEMBER@,
        parameters: schema(JsonView::object()
            .with("fact"@, described("string"@, REMEMBER_FACT@)))
            .with("required"@, JsonView::array().item(JsonView::Text("fact"@))),
    }
}

pub open spec fn update_memory_tool() -> DefinitionView {
    DefinitionView {
        name: "update_memory"@,
        description: UPDATE_MEMORY@,
        parameters: schema(JsonView::object()
            .with("matching"@, described("string"@, UPDATE_MEMORY_MATCHING@))
            .with("fact"@, described("string"@, UPDATE_MEMORY_FACT@)))
            .with("required"@, JsonView::array().item(JsonView::Text("matching"@)).item(JsonView::Text("fact"@))),
    }
}

pub open spec fn forget_tool() -> DefinitionView {
    DefinitionView {
        name: "forget"@,
        description: FORGET@,
        parameters: schema(JsonView::object()
            .with("matching"@, described("string"@, FORGET_MATCHING@)))
            .with("required"@, JsonView::array().item(JsonView::Text("matching"@))),
    }
}

pub open spec fn ask_user_tool() -> DefinitionView {
    DefinitionView {
        name: "ask_user"@,
        description: ASK_USER@,
        parameters: schema(JsonView::object()
            .with("question"@, described("string"@, ASK_USER_QUESTION@))
            .with("options"@, text_list(ASK_USER_OPTIONS@)))
            .with("required"@, JsonView::array().item(JsonView::Text("question"@))),
    }
}

pub open spec fn delegate_readonly_tool() -> DefinitionView {
    DefinitionView {
        name: "delegate_readonly"@,
        description: DELEGATE_READONLY@,
        parameters: schema(JsonView::object()
            .with("task"@, described("string"@, DELEGATE_READONLY_TASK@)))
            .with("required"@, JsonView::array().item(JsonView::Text("task"@))),
    }
}

/// The tools that are always offered, those listed before the coding agent's.
pub open spec fn first_tools(background_max: u64) -> Seq<DefinitionView> {
    seq![
        read_file_tool(),
        list_directory_tool(),
        run_command_tool(background_max),
        command_status_tool(),
        stop_command_tool(),
    ]
}

/// The tools that are always offered, those listed behind the coding agent's.
pub open spec fn later_tools() -> Seq<DefinitionView> {
    seq![
        schedule_task_tool(),
        list_scheduled_tasks_tool(),
        cancel_scheduled_task_tool(),
        remember_tool(),
        update_memory_tool(),
        forget_tool(),
        ask_user_tool(),
        delegate_readonly_tool(),
    ]
}

/// The tools of the gateway itself; delegating to the coding agent is offered only where it is
/// installed.
pub open spec fn own_tools(background_max: u64, coding_agent: bool) -> Seq<DefinitionView> {
    if coding_agent {
        first_tools(background_max).push(delegate_to_kamui_tool()) + later_tools()
    } else {
        first_tools(background_max) + later_tools()
    }
}

fn plain_json(kind: &str) -> (r: Json)
    ensures
        r@ == plain(kind@),
{
    Json::object().with("type", Json::text(kind))
}

fn described_json(kind: &str, description: &str) -> (r: Json)
    ensures
        r@ == described(kind@, description@),
{
    plain_json(kind).with("description", Json::text(description))
}

fn text_list_json(description: &str) -> (r: Json)
    ensures
        r@ == text_list(description@),
{
    plain_json("array").with("items", plain_json("string")).with(
        "description",
        Json::text(description),
    )
}

fn schema_json(properties: Json) -> (r: Json)
    ensures
        r@ == schema(properties@),
{
    plain_json("object").with("properties", properties)
}

fn background_note(background_max: u64) -> (r: String)
    ensures
        r@ == background_text(background_max),
{
    let mut r = "Set true for commands that may take longer than ".to_owned();
    r.push_str(decimal_u64(30).as_str());
    r.push_str(" seconds. Kumo starts the job immediately and reports back when it finishes. A background job is still bounded: it is terminated if it is still running after ");
    r.push_str(decimal_u64(background_max).as_str());
    r.push_str(" seconds.");
    r
}

fn define_read_file() -> (r: ToolDefinition)
    ensures
        r@ == read_file_tool(),
{
    ToolDefinition {
        name: "read_file".to_owned(),
        description: READ_FILE.to_owned(),
        parameters: schema_json(Json::object()
            .with("path", described_json("string", READ_FILE_PATH)))
            .with("required", Json::array().item(Json::text("path"))),
    }
}

fn define_list_directory() -> (r: ToolDefinition)
    ensures
        r@ == list_directory_tool(),
{
    ToolDefinition {
        name: "list_directory".to_owned(),
        description: LIST_DIRECTORY.to_owned(),
        parameters: schema_json(Json::object()
            .with("path", described_json("string", LIST_DIRECTORY_PATH)))
            .with("required", Json::array().item(Json::text("path"))),
    }
}

fn define_run_command(background_max: u64) -> (r: ToolDefinition)
    ensures
        r@ == run_command_tool(background_max),
{
    ToolDefinition {
        name: "run_command".to_owned(),
        description: RUN_COMMAND.to_owned(),
        parameters: schema_json(Json::object()
            .with("command", described_json("string", RUN_COMMAND_COMMAND))
            .with("background", described_json("boolean", background_note(background_max).as_str())))
            .with("required", Json::array().item(Json::text("command"))),
    }
}

fn define_command_status() -> (r: ToolDefinition)
    ensures
        r@ == command_status_tool(),
{
    ToolDefinition {
        name: "command_status".to_owned(),
        description: COMMAND_STATUS.to_owned(),
        parameters: schema_json(Json::object()
            .with("id", plain_json("string")))
            .with("required", Json::array().item(Json::text("id"))),
    }
}

fn define_stop_command() -> (r: ToolDefinition)
    ensures
        r@ == stop_command_tool(),
{
    ToolDefinition {
        name: "stop_command".to_owned(),
        description: STOP_COMMAND.to_owned(),
        parameters: schema_json(Json::object()
            .with("id", plain_json("string")))
            .with("required", Json::array().item(Json::text("id"))),
    }
}

fn define_delegate_to_kamui() -> (r: ToolDefinition)
    ensures
        r@ == delegate_to_kamui_tool(),
{
    ToolDefinition {
        name: "delegate_to_kamui".to_owned(),
        description: DELEGATE_TO_KAMUI.to_owned(),
        parameters: schema_json(Json::object()
            .with("task", described_json("string", DELEGATE_TO_KAMUI_TASK)))
            .with("required", Json::array().item(Json::text("task"))),
    }
}

fn define_schedule_task() -> (r: ToolDefinition)
    ensures
        r@ == schedule_task_tool(),
{
    ToolDefinition {
        name: "schedule_task".to_owned(),
        description: SCHEDULE_TASK.to_owned(),
        parameters: schema_json(Json::object()
            .with("prompt", described_json("string", SCHEDULE_TASK_PROMPT))
            .with("run_at", described_json("string", SCHEDULE_TASK_RUN_AT))
            .with("repeat_interval_seconds", described_json("integer", SCHEDULE_TASK_REPEAT_INTERVAL_SECONDS)))
            .with("required", Json::array().item(Json::text("prompt")).item(Json::text("run_at"))),
    }
}

fn define_list_scheduled_tasks() -> (r: ToolDefinition)
    ensures
        r@ == list_scheduled_tasks_tool(),
{
    ToolDefinition {
        name: "list_scheduled_tasks".to_owned(),
        description: LIST_SCHEDULED_TASKS.to_owned(),
        parameters: schema_json(Json::object()),
    }
}

fn define_cancel_scheduled_task() -> (r: ToolDefinition)
    ensures
        r@ == cancel_scheduled_task_tool(),
{
    ToolDefinition {
        name: "cancel_scheduled_task".to_owned(),
        description: CANCEL_SCHEDULED_TASK.to_owned(),
        parameters: schema_json(Json::object()
            .with("id", described_json("string", CANCEL_SCHEDULED_TASK_ID)))
            .with("required", Json::array().item(Json::text("id"))),
    }
}

fn define_remember() -> (r: ToolDefinition)
    ensures
        r@ == remember_tool(),
{
    ToolDefinition {
        name: "remember".to_owned(),
        description: REMEMBER.to_owned(),
        parameters: schema_json(Json::object()
            .with("fact", described_json("string", REMEMBER_FACT)))
            .with("required", Json::array().item(Json::text("fact"))),
    }
}

fn define_update_memory() -> (r: ToolDefinition)
    ensures
        r@ == update_memory_tool(),
{
    ToolDefinition {
        name: "update_memory".to_owned(),
        description: UPDATE_MEMORY.to_owned(),
        parameters: schema_json(Json::object()
            .with("matching", described_json("string", UPDATE_MEMORY_MATCHING))
            .with("fact", described_json("string", UPDATE_MEMORY_FACT)))
            .with("required", Json::array().item(Json::text("matching")).item(Json::text("fact"))),
    }
}

fn define_forget() -> (r: ToolDefinition)
    ensures
        r@ == forget_tool(),
{
    ToolDefinition {
        name: "forget".to_owned(),
        description: FORGET.to_owned(),
        parameters: schema_json(Json::object()
            .with("matching", described_json("string", FORGET_MATCHING)))
            .with("required", Json::array().item(Json::text("matching"))),
    }
}

fn define_ask_user() -> (r: ToolDefinition)
    ensures
        r@ == ask_user_tool(),
{
    ToolDefinition {
        name: "ask_user".to_owned(),
        description: ASK_USER.to_owned(),
        parameters: schema_json(Json::object()
            .with("question", described_json("string", ASK_USER_QUESTION))
            .with("options", text_list_json(ASK_USER_OPTIONS)))
            .with("required", Json::array().item(Json::text("question"))),
    }
}

fn define_delegate_readonly() -> (r: ToolDefinition)
    ensures
        r@ == delegate_readonly_tool(),
{
    ToolDefinition {
        name: "delegate_readonly".to_owned(),
        description: DELEGATE_READONLY.to_owned(),
        parameters: schema_json(Json::object()
            .with("task", described_json("string", DELEGATE_READONLY_TASK)))
            .with("required", Json::array().item(Json::text("task"))),
    }
}

/// The tools of the gateway itself.
pub fn own_definitions(background_max: u64, coding_agent: bool) -> (r: Vec<ToolDefinition>)
    ensures
        seq_view(r@) == own_tools(background_max, coding_agent),
{
    let mut r: Vec<ToolDefinition> = Vec::new();
    r.push(define_read_file());
    r.push(define_list_directory());
    r.push(define_run_command(background_max));
    r.push(define_command_status());
    r.push(define_stop_command());
    if coding_agent {
        r.push(define_delegate_to_kamui());
    }
    r.push(define_schedule_task());
    r.push(define_list_scheduled_tasks());
    r.push(define_cancel_scheduled_task());
    r.push(define_remember());
    r.push(define_update_memory());
    r.push(define_forget());
    r.push(define_ask_user());
    r.push(define_delegate_readonly());
    assert(seq_view(r@) =~= own_tools(background_max, coding_agent));
    r
}

/// Whether two underscores stand side by side in a name.
pub open spec fn has_separator(name: Seq<char>) -> bool {
    exists|k: int| 0 <= k < name.len() - 1 && #[trigger] name[k] == '_' && name[k + 1] == '_'
}

/// Whether no separator stands in a name from `k` on.
spec fn clear_from(name: Seq<char>, k: int) -> bool
    decreases name.len() - k,
{
    k + 1 >= name.len() || (!(name[k] == '_' && name[k + 1] == '_') && clear_from(name, k + 1))
}

proof fn lemma_clear(name: Seq<char>, k: int)
    requires
        0 <= k,
        clear_from(name, k),
    ensures
        forall|i: int|
            k <= i < name.len() - 1 ==> !(#[trigger] name[i] == '_' && name[i + 1] == '_'),
    decreases name.len() - k,
{
    if k + 1 < name.len() {
        lemma_clear(name, k + 1);
    }
}

proof fn lemma_own_names()
    ensures
        !has_separator("read_file"@),
        !has_separator("list_directory"@),
        !has_separator("run_command"@),
        !has_separator("command_status"@),
        !has_separator("stop_command"@),
        !has_separator("delegate_to_kamui"@),
        !has_separator("schedule_task"@),
        !has_separator("list_scheduled_tasks"@),
        !has_separator("cancel_scheduled_task"@),
        !has_separator("remember"@),
        !has_separator("update_memory"@),
        !has_separator("forget"@),
        !has_separator("ask_user"@),
        !has_separator("delegate_readonly"@),
{
    reveal_with_fuel(clear_from, 22);
    reveal_strlit("read_file");
    lemma_clear("read_file"@, 0);
    reveal_strlit("list_directory");
    lemma_clear("list_directory"@, 0);
    reveal_strlit("run_command");
    lemma_clear("run_command"@, 0);
    reveal_strlit("command_status");
    lemma_clear("command_status"@, 0);
    reveal_strlit("stop_command");
    lemma_clear("stop_command"@, 0);
    reveal_strlit("delegate_to_kamui");
    lemma_clear("delegate_to_kamui"@, 0);
    reveal_strlit("schedule_task");
    lemma_clear("schedule_task"@, 0);
    reveal_strlit("list_scheduled_tasks");
    lemma_clear("list_scheduled_tasks"@, 0);
    reveal_strlit("cancel_scheduled_task");
    lemma_clear("cancel_scheduled_task"@, 0);
    reveal_strlit("remember");
    lemma_clear("remember"@, 0);
    reveal_strlit("update_memory");
    lemma_clear("update_memory"@, 0);
    reveal_strlit("forget");
    lemma_clear("forget"@, 0);
    reveal_strlit("ask_user");
    lemma_clear("ask_user"@, 0);
    reveal_strlit("delegate_readonly");
    lemma_clear("delegate_readonly"@, 0);
}

/// No tool of a server's can take the place of one of the gateway's own: the name that it is
/// offered under is none of theirs, whatever the server and the tool are called.
pub proof fn law_external_tools_never_shadow_own(
    background_max: u64,
    coding_agent: bool,
    server: Seq<char>,
    tool: Seq<char>,
)
    ensures
        forall|i: int|
            0 <= i < own_tools(background_max, coding_agent).len() ==> (#[trigger] own_tools(
                background_max,
                coding_agent,
            )[i]).name != server + "__"@ + tool,
{
    reveal_strlit("__");
    lemma_own_names();
    let name = server + "__"@ + tool;
    assert(has_separator(name)) by {
        let k = server.len() as int;
        assert(name[k] == '_');
        assert(name[k + 1] == '_');
    }
    let own = own_tools(background_max, coding_agent);
    assert forall|i: int| 0 <= i < own.len() implies !has_separator((#[trigger] own[i]).name) by {
        let first = first_tools(background_max);
        let later = later_tools();
        if coding_agent {
            if i < 5 {
                assert(own[i] == first[i]);
            } else if i > 5 {
                assert(own[i] == later[i - 6]);
            }
        } else {
            if i < 5 {
                assert(own[i] == first[i]);
            } else {
                assert(own[i] == later[i - 5]);
            }
        }
    }
}

/// Tools of different servers never collide, and neither do different tools of one: the name that a
/// tool is offered under tells its server and its own name apart. A server's name must not hold the
/// separator, nor end in half of it.
pub proof fn law_servers_do_not_collide(
    server: Seq<char>,
    tool: Seq<char>,
    other_server: Seq<char>,
    other_tool: Seq<char>,
)
    requires
        !has_separator(server),
        !has_separator(other_server),
        server.len() > 0 ==> server.last() != '_',
        other_server.len() > 0 ==> other_server.last() != '_',
        server + "__"@ + tool == other_server + "__"@ + other_tool,
    ensures
        server == other_server,
        tool == other_tool,
{
    reveal_strlit("__");
    let name = server + "__"@ + tool;
    lemma_separator_is_first(server, tool, other_server.len() as int, name);
    lemma_separator_is_first(other_server, other_tool, server.len() as int, name);
    assert(server.len() == other_server.len());
    assert(server =~= name.take(server.len() as int));
    assert(other_server =~= name.take(server.len() as int));
    assert(tool =~= name.skip(server.len() as int + 2));
    assert(other_tool =~= name.skip(server.len() as int + 2));
}

/// No separator stands before the one that a server's name is followed by.
proof fn lemma_separator_is_first(server: Seq<char>, tool: Seq<char>, k: int, name: Seq<char>)
    requires
        !has_separator(server),
        server.len() > 0 ==> server.last() != '_',
        name == server + "__"@ + tool,
        0 <= k,
    ensures
        k < server.len() ==> !(name[k] == '_' && name[k + 1] == '_'),
{
    reveal_strlit("__");
    if k < server.len() {
        assert(name[k] == server[k]);
        if k + 1 < server.len() {
            assert(name[k + 1] == server[k + 1]);
        }
    }
}

/// The model is offered the tools that there are, in a fixed order, the coding agent exactly where it
/// is configured.
pub proof fn law_own_tools_are_offered(background_max: u64, coding_agent: bool)
    ensures
        ({
            let own = own_tools(background_max, coding_agent);
            let later: int = if coding_agent {
                6
            } else {
                5
            };
            &&& own.len() == later + 8
            &&& own[0].name == "read_file"@
            &&& own[1].name == "list_directory"@
            &&& own[2].name == "run_command"@
            &&& own[3].name == "command_status"@
            &&& own[4].name == "stop_command"@
            &&& coding_agent ==> own[5].name == "delegate_to_kamui"@
            &&& own[later].name == "schedule_task"@
            &&& own[later + 1].name == "list_scheduled_tasks"@
            &&& own[later + 2].name == "cancel_scheduled_task"@
            &&& own[later + 3].name == "remember"@
            &&& own[later + 4].name == "update_memory"@
            &&& own[later + 5].name == "forget"@
            &&& own[later + 6].name == "ask_user"@
            &&& own[later + 7].name == "delegate_readonly"@
        }),
{
    let first = first_tools(background_max);
    let later = later_tools();
    let own = own_tools(background_max, coding_agent);
    let at: int = if coding_agent {
        6
    } else {
        5
    };
    assert(forall|i: int| 0 <= i < 5 ==> own[i] == first[i]);
    assert(forall|i: int| 0 <= i < 8 ==> own[at + i] == #[trigger] later[i]);
    assert(own[at + 1] == later[1]);
    assert(own[at + 2] == later[2]);
    assert(own[at + 3] == later[3]);
    assert(own[at + 4] == later[4]);
    assert(own[at + 5] == later[5]);
    assert(own[at + 6] == later[6]);
    assert(own[at + 7] == later[7]);
}

/// Whether a tool's schema describes an argument.
pub open spec fn takes(tool: DefinitionView, key: Seq<char>) -> bool {
    tool.parameters.field("properties"@) matches Some(properties) && properties.field(key) is Some
}

/// Every argument that a tool reads is described in its schema.
pub proof fn law_schemas_describe_what_is_read(background_max: u64)
    ensures
        takes(read_file_tool(), "path"@),
        takes(list_directory_tool(), "path"@),
        takes(run_command_tool(background_max), "command"@),
        takes(run_command_tool(background_max), "background"@),
        takes(command_status_tool(), "id"@),
        takes(stop_command_tool(), "id"@),
        takes(delegate_to_kamui_tool(), "task"@),
        takes(schedule_task_tool(), "prompt"@),
        takes(schedule_task_tool(), "run_at"@),
        takes(schedule_task_tool(), "repeat_interval_seconds"@),
        takes(cancel_scheduled_task_tool(), "id"@),
        takes(remember_tool(), "fact"@),
        takes(update_memory_tool(), "matching"@),
        takes(update_memory_tool(), "fact"@),
        takes(forget_tool(), "matching"@),
        takes(ask_user_tool(), "question"@),
        takes(ask_user_tool(), "options"@),
        takes(delegate_readonly_tool(), "task"@),
{
    lemma_takes(read_file_tool(), JsonView::object(), "path"@);
    lemma_takes(list_directory_tool(), JsonView::object(), "path"@);
    lemma_takes_also(
        run_command_tool(background_max),
        "command"@,
        described("string"@, RUN_COMMAND_COMMAND@),
        "background"@,
        described("boolean"@, background_text(background_max)),
    );
    lemma_takes(command_status_tool(), JsonView::object(), "id"@);
    lemma_takes(stop_command_tool(), JsonView::object(), "id"@);
    lemma_takes(delegate_to_kamui_tool(), JsonView::object(), "task"@);
    lemma_takes(cancel_scheduled_task_tool(), JsonView::object(), "id"@);
    lemma_takes(remember_tool(), JsonView::object(), "fact"@);
    lemma_takes(forget_tool(), JsonView::object(), "matching"@);
    lemma_takes(delegate_readonly_tool(), JsonView::object(), "task"@);
    lemma_takes_also(
        update_memory_tool(),
        "matching"@,
        described("string"@, UPDATE_MEMORY_MATCHING@),
        "fact"@,
        described("string"@, UPDATE_MEMORY_FACT@),
    );
    lemma_takes_also(
        ask_user_tool(),
        "question"@,
        described("string"@, ASK_USER_QUESTION@),
        "options"@,
        text_list(ASK_USER_OPTIONS@),
    );
    let two = JsonView::object().with("prompt"@, described("string"@, SCHEDULE_TASK_PROMPT@)).with(
        "run_at"@,
        described("string"@, SCHEDULE_TASK_RUN_AT@),
    );
    let interval = described("integer"@, SCHEDULE_TASK_REPEAT_INTERVAL_SECONDS@);
    let properties = two.with("repeat_interval_seconds"@, interval);
    lemma_schema(
        properties,
        JsonView::array().item(JsonView::Text("prompt"@)).item(JsonView::Text("run_at"@)),
    );
    lemma_some_field(
        JsonView::object(),
        "prompt"@,
        described("string"@, SCHEDULE_TASK_PROMPT@),
        "prompt"@,
    );
    lemma_some_field(
        JsonView::object().with("prompt"@, described("string"@, SCHEDULE_TASK_PROMPT@)),
        "run_at"@,
        described("string"@, SCHEDULE_TASK_RUN_AT@),
        "run_at"@,
    );
    lemma_some_field(
        JsonView::object().with("prompt"@, described("string"@, SCHEDULE_TASK_PROMPT@)),
        "run_at"@,
        described("string"@, SCHEDULE_TASK_RUN_AT@),
        "prompt"@,
    );
    lemma_some_field(two, "repeat_interval_seconds"@, interval, "repeat_interval_seconds"@);
    lemma_some_field(two, "repeat_interval_seconds"@, interval, "run_at"@);
    lemma_some_field(two, "repeat_interval_seconds"@, interval, "prompt"@);
}

/// A key that an object names is named by it with one more field, and so is the new one.
proof fn lemma_some_field(value: JsonView, key: Seq<char>, added: JsonView, asked: Seq<char>)
    requires
        value is Object,
        asked == key || value.field(asked) is Some,
    ensures
        value.with(key, added) is Object,
        value.with(key, added).field(asked) is Some,
{
    lemma_field_with(value, key, added, asked);
}

/// What a schema's key for the properties names.
proof fn lemma_schema(properties: JsonView, required: JsonView)
    ensures
        schema(properties).with("required"@, required).field("properties"@) == Some(properties),
{
    reveal_strlit("type");
    reveal_strlit("properties");
    reveal_strlit("required");
    assert("type"@.len() == 4 && "properties"@.len() == 10 && "required"@.len() == 8);
    lemma_three_fields(
        "type"@,
        JsonView::Text("object"@),
        "properties"@,
        properties,
        "required"@,
        required,
    );
}

proof fn lemma_takes(tool: DefinitionView, none: JsonView, key: Seq<char>)
    requires
        none == JsonView::object(),
        exists|kind: JsonView, required: JsonView|
            tool.parameters == #[trigger] schema(none.with(key, kind)).with("required"@, required),
    ensures
        takes(tool, key),
{
    let (kind, required) = choose|kind: JsonView, required: JsonView|
        tool.parameters == #[trigger] schema(none.with(key, kind)).with("required"@, required);
    lemma_schema(none.with(key, kind), required);
    lemma_some_field(none, key, kind, key);
}

proof fn lemma_takes_also(
    tool: DefinitionView,
    first: Seq<char>,
    kind: JsonView,
    second: Seq<char>,
    other: JsonView,
)
    requires
        exists|required: JsonView|
            tool.parameters == #[trigger] schema(
                JsonView::object().with(first, kind).with(second, other),
            ).with("required"@, required),
    ensures
        takes(tool, first),
        takes(tool, second),
{
    let properties = JsonView::object().with(first, kind).with(second, other);
    let required = choose|required: JsonView|
        tool.parameters == #[trigger] schema(properties).with("required"@, required);
    lemma_schema(properties, required);
    lemma_some_field(JsonView::object(), first, kind, first);
    lemma_some_field(JsonView::object().with(first, kind), second, other, first);
    lemma_some_field(JsonView::object().with(first, kind), second, other, second);
}

/// The model is told both limits of a command: how long one may run that is waited for, and how long
/// one in the background.
pub proof fn law_limits_are_told(background_max: u64)
    ensures
        in_turn(background_text(background_max), seq![decimal(30), decimal(background_max as nat)]),
{
    lemma_two(
        "Set true for commands that may take longer than "@,
        decimal(30),
        " seconds. Kumo starts the job immediately and reports back when it finishes. A background job is still bounded: it is terminated if it is still running after "@,
        decimal(background_max as nat),
        " seconds."@,
    );
}

} // verus!
