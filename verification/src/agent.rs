//! One turn of the conversation: the model is asked, calls tools, is shown what they returned, and
//! in the end answers. Talking to the model, to the chat and to the host is left to the caller;
//! what is sent, what a call needs and when a turn is over is decided here.
use vstd::prelude::*;
use vstd::string::*;

use crate::clock::{shown, SECONDS_WITH_OFFSET};
use crate::json::{
    complain, json_read, json_text, print, read, read_view, with_reason, Json, JsonView,
};
use crate::mcp::{extract_media, media_of, McpImage, McpImageView};
use crate::provider::{
    clone_calls, text_message, tool_request_message, tool_result_message, CallView, ChatResponse,
    Message, MessageView, Role, ToolCall, Usage,
};
use crate::storage::audit::{AuditRowView, EventView};

use crate::storage::{Database, StorageError};
use crate::text::{
    decimal, decimal_usize, in_turn, law_decimals_read_back, lemma_ends_in, lemma_in_turn, lemma_one,
    lemma_starts, occurs_at, opt_view, same, seq_view, starts_with, to_chars, trim, trimmed,
};
use crate::tools::arguments::{find_text, text_argument};
use crate::tools::reminders::{show_or, shown_or};
use crate::tools::{told, ToolRegistry};

verus! {

/// How often in one turn the model may call tools.
pub const MAX_TOOL_ROUNDS: usize = 8;

/// How often the read-only sub-agent may call tools.
pub const MAX_RESEARCH_ROUNDS: usize = 6;

/// Stored in place of the provider's own finish reason when the cap on tool rounds, not the model,
/// ended the turn.
pub const TOOL_ROUND_LIMIT_FINISH_REASON: &'static str = "tool_round_limit";

pub const SYSTEM_PROMPT: &'static str = "You are Kumo, a personal assistant running on the user's host. Prefer a specialized MCP tool whenever one directly supports the requested capability; do not recreate that capability with delegate_to_kamui, run_command, or an ad hoc script. When an MCP tool returns image content, the gateway delivers it to the chat automatically, so describe the result briefly and never fabricate a Markdown download link to a local path. You may inspect the configured workspace with read-only tools. For multi-step workspace investigation that would consume several tool rounds, use delegate_readonly so only its final answer enters this conversation. You may request shell commands when needed, but every command requires explicit user approval before Kumo executes it. Set run_command background=true for builds, tests, or other commands likely to exceed 30 seconds; use command_status or stop_command to manage those jobs. Never claim a command ran unless its tool result confirms it. Use delegate_to_kamui only for genuine coding tasks that require reading or editing a codebase, not for generating an artifact already supported by an MCP tool. For coding tasks, prefer delegate_to_kamui over run_command because it runs a dedicated coding agent with a proper diff-reviewed file editor. When the user asks to stop, change, or remove a reminder, call list_scheduled_tasks and then cancel_scheduled_task: a scheduled task keeps running until it is cancelled, so acknowledging the request without cancelling leaves it firing. Never schedule a task in order to remember not to do something.";

pub const RESEARCH_PROMPT: &'static str = "You are a read-only research sub-agent. Investigate the requested task using only read_file and list_directory. Never claim to run commands or modify files. Return a concise, self-contained answer with relevant workspace-relative paths.";

/// Which part of the system a failed turn actually failed in.
#[derive(Clone, Copy, Debug, PartialEq, Eq, Structural)]
pub enum FailureKind {
    /// The model or the service in front of it: a transport error, a rejected request, or an
    /// empty answer.
    Provider,
    /// A tool that was dispatched, including the read-only sub-agent.
    Tool,
    /// The gateway's own database.
    Storage,
    /// Sending or editing a Telegram message needed for the turn (an approval prompt, a
    /// question).
    Telegram,
    /// Anything else.
    Internal,
}

impl FailureKind {
    pub open spec fn word(self) -> Seq<char> {
        match self {
            FailureKind::Provider => "provider"@,
            FailureKind::Tool => "tool"@,
            FailureKind::Storage => "storage"@,
            FailureKind::Telegram => "telegram"@,
            FailureKind::Internal => "internal"@,
        }
    }

    /// The value logged next to the reference id, so the log line says which class was reported.
    pub fn as_str(self) -> (r: &'static str)
        ensures
            r@ == self.word(),
    {
        match self {
            FailureKind::Provider => "provider",
            FailureKind::Tool => "tool",
            FailureKind::Storage => "storage",
            FailureKind::Telegram => "telegram",
            FailureKind::Internal => "internal",
        }
    }

    pub open spec fn apology(self) -> Seq<char> {
        match self {
            FailureKind::Provider => "The model provider could not answer"@,
            FailureKind::Tool => "A tool failed while answering, so the turn was dropped"@,
            FailureKind::Storage => {
                "Kumo could not reach its own database, so the turn was dropped"@
            },
            FailureKind::Telegram => {
                "Kumo could not finish sending a message needed for this turn"@
            },
            FailureKind::Internal => {
                "Kumo hit an internal error and could not finish this turn"@
            },
        }
    }
}

/// A turn that failed: the class of thing that failed, and why.
#[derive(Debug)]
pub struct TurnFailure {
    pub kind: FailureKind,
    pub reason: String,
}

impl TurnFailure {
    pub fn new(kind: FailureKind, reason: String) -> (r: Self)
        ensures
            r.kind == kind,
            r.reason == reason,
    {
        TurnFailure { kind, reason }
    }

    /// The failure in words, for the log.
    pub fn message(&self) -> (r: String)
        ensures
            r@ == self.kind.word() + " failure: "@ + self.reason@,
    {
        let mut r = self.kind.as_str().to_owned();
        r.push_str(" failure: ");
        r.push_str(self.reason.as_str());
        r
    }
}

/// The class of a failure, or `Internal` for one that was never tagged. An untagged error is
/// deliberately *not* reported as a provider fault.
pub fn failure_kind(failure: &Option<TurnFailure>) -> (r: FailureKind)
    ensures
        r == (match failure {
            Some(failure) => failure.kind,
            None => FailureKind::Internal,
        }),
{
    match failure {
        Some(failure) => failure.kind,
        None => FailureKind::Internal,
    }
}

/// What the chat is told of a turn that failed.
pub open spec fn failure_report(kind: FailureKind, reference: Seq<char>) -> Seq<char> {
    kind.apology() + ". Check the Kumo log for reference "@ + reference + "."@
}

/// The sentence the owner gets for a failed turn. Deliberately built from the *class* alone: the
/// underlying error text carries file paths, base URLs, SQL and occasionally an API key. The
/// reference id is the only handle into the log.
pub fn turn_failure_report(kind: FailureKind, reference: &str) -> (r: String)
    ensures
        r@ == failure_report(kind, reference@),
{
    let mut r = (match kind {
        FailureKind::Provider => "The model provider could not answer",
        FailureKind::Tool => "A tool failed while answering, so the turn was dropped",
        FailureKind::Storage => "Kumo could not reach its own database, so the turn was dropped",
        FailureKind::Telegram => "Kumo could not finish sending a message needed for this turn",
        FailureKind::Internal => "Kumo hit an internal error and could not finish this turn",
    }).to_owned();
    r.push_str(". Check the Kumo log for reference ");
    r.push_str(reference);
    r.push_str(".");
    r
}

/// What the chat is told of an answer that could not be stored.
pub open spec fn unsaved_report(reference: Seq<char>) -> Seq<char> {
    "That answer was delivered but could not be saved to Kumo's database, so it is not part of the conversation history. Check the Kumo log for reference "@
        + reference + "."@
}

/// What the owner is told when an answer was delivered but could not be stored.
pub fn not_saved_report(reference: &str) -> (r: String)
    ensures
        r@ == unsaved_report(reference@),
{
    let mut r =
        "That answer was delivered but could not be saved to Kumo's database, so it is not part of the conversation history. Check the Kumo log for reference ".to_owned();
    r.push_str(reference);
    r.push_str(".");
    r
}

pub open spec fn saturating(a: u64, b: u64) -> u64 {
    if a + b > u64::MAX {
        u64::MAX
    } else {
        (a + b) as u64
    }
}

/// What two requests cost together.
pub open spec fn usage_sum(total: Usage, usage: Usage) -> Usage {
    Usage {
        prompt_tokens: saturating(total.prompt_tokens, usage.prompt_tokens),
        completion_tokens: saturating(total.completion_tokens, usage.completion_tokens),
        total_tokens: saturating(total.total_tokens, usage.total_tokens),
    }
}

pub fn accumulate_usage(total: &mut Usage, usage: &Usage)
    ensures
        *final(total) == usage_sum(*old(total), *usage),
{
    total.prompt_tokens = total.prompt_tokens.saturating_add(usage.prompt_tokens);
    total.completion_tokens = total.completion_tokens.saturating_add(usage.completion_tokens);
    total.total_tokens = total.total_tokens.saturating_add(usage.total_tokens);
}

/// What the model is told at the start of every request.
pub open spec fn system_text(
    now: i64,
    zone: Seq<char>,
    memory: Seq<char>,
    summary: Option<Seq<char>>,
) -> Seq<char> {
    SYSTEM_PROMPT@ + "\n\nCurrent date and time: "@ + shown_or(
        now,
        zone,
        SECONDS_WITH_OFFSET@,
        "unknown time"@,
    ) + " ("@ + zone + ")."@ + (if memory.len() > 0 {
        "\n\n"@ + memory
    } else {
        seq![]
    }) + (match summary {
        Some(text) => "\n\nSummary of the earlier conversation:\n\n"@ + text,
        None => seq![],
    })
}

/// What the model is told at the start of every request of a turn that starts at `now`: who it is,
/// the time, what is remembered, and what the conversation was about.
pub fn system_prompt(now: i64, zone: &str, memory: &str, summary: &Option<String>) -> (r: String)
    ensures
        r@ == system_text(now, zone@, memory@, opt_view(*summary)),
{
    let mut r = SYSTEM_PROMPT.to_owned();
    r.push_str("\n\nCurrent date and time: ");
    r.push_str(show_or(now, zone, SECONDS_WITH_OFFSET, "unknown time").as_str());
    r.push_str(" (");
    r.push_str(zone);
    r.push_str(").");
    if !memory.is_empty() {
        r.push_str("\n\n");
        r.push_str(memory);
    }
    if let Some(text) = summary {
        r.push_str("\n\nSummary of the earlier conversation:\n\n");
        r.push_str(text.as_str());
    }
    assert(r@ =~= system_text(now, zone@, memory@, opt_view(*summary)));
    r
}

/// A turn that is over.
#[derive(Debug)]
pub struct AgentTurn {
    pub answer: String,
    /// What is stored of the turn.
    pub record: Vec<Message>,
    pub usage: Usage,
    pub finish_reason: String,
    pub model: String,
    pub images: Vec<McpImage>,
}

#[verifier::ext_equal]
pub struct AgentTurnView {
    pub answer: Seq<char>,
    pub record: Seq<MessageView>,
    pub usage: Usage,
    pub finish_reason: Seq<char>,
    pub model: Seq<char>,
    pub images: Seq<McpImageView>,
}

impl View for AgentTurn {
    type V = AgentTurnView;

    open spec fn view(&self) -> AgentTurnView {
        AgentTurnView {
            answer: self.answer@,
            record: seq_view(self.record@),
            usage: self.usage,
            finish_reason: self.finish_reason@,
            model: self.model@,
            images: seq_view(self.images@),
        }
    }
}

/// A turn under way.
#[derive(Debug)]
pub struct Turn {
    pub model: String,
    pub user_message: Message,
    /// What the next request to the model carries.
    pub messages: Vec<Message>,
    /// What the tool rounds so far have added to it.
    pub trail: Vec<Message>,
    pub usage: Usage,
    pub images: Vec<McpImage>,
    /// How many tool rounds have been started.
    pub rounds: usize,
    /// The calls of the present round.
    pub calls: Vec<ToolCall>,
    /// How many of them have been answered.
    pub answered: usize,
}

#[verifier::ext_equal]
pub struct TurnView {
    pub model: Seq<char>,
    pub user_message: MessageView,
    pub messages: Seq<MessageView>,
    pub trail: Seq<MessageView>,
    pub usage: Usage,
    pub images: Seq<McpImageView>,
    pub rounds: int,
    pub calls: Seq<CallView>,
    pub answered: int,
}

impl View for Turn {
    type V = TurnView;

    open spec fn view(&self) -> TurnView {
        TurnView {
            model: self.model@,
            user_message: self.user_message@,
            messages: seq_view(self.messages@),
            trail: seq_view(self.trail@),
            usage: self.usage,
            images: seq_view(self.images@),
            rounds: self.rounds as int,
            calls: seq_view(self.calls@),
            answered: self.answered as int,
        }
    }
}

/// How a turn goes on.
#[derive(Debug)]
pub enum Progress {
    /// There are calls to answer.
    CallTools(Turn),
    Finished(AgentTurn),
    Failed(TurnFailure),
}

#[verifier::ext_equal]
pub enum ProgressView {
    CallTools(TurnView),
    Finished(AgentTurnView),
    Failed(FailureKind, Seq<char>),
}

impl View for Progress {
    type V = ProgressView;

    open spec fn view(&self) -> ProgressView {
        match self {
            Progress::CallTools(turn) => ProgressView::CallTools(turn@),
            Progress::Finished(turn) => ProgressView::Finished(turn@),
            Progress::Failed(failure) => ProgressView::Failed(failure.kind, failure.reason@),
        }
    }
}

pub open spec fn call_ids(calls: Seq<CallView>) -> Seq<Seq<char>> {
    Seq::new(calls.len(), |i: int| calls[i].id)
}

/// The calls in a transcript that still wait for their results, in order; nothing if the
/// transcript is not one of requests each followed by the results of its calls.
pub open spec fn open_calls(trail: Seq<MessageView>) -> Option<Seq<Seq<char>>>
    decreases trail.len(),
{
    if trail.len() == 0 {
        Some(seq![])
    } else {
        let message = trail.last();
        match open_calls(trail.drop_last()) {
            None => None,
            Some(waiting) => if message.role == Role::Assistant {
                if waiting.len() == 0 {
                    Some(call_ids(message.tool_calls))
                } else {
                    None
                }
            } else if message.role == Role::Tool && waiting.len() > 0 && message.tool_call_id
                == Some(waiting[0]) {
                Some(waiting.skip(1))
            } else {
                None
            },
        }
    }
}

/// What every turn under way keeps: no more rounds than allowed; what goes to the model ends with
/// the trail; and the trail's requests are answered call by call, in order.
pub open spec fn valid(turn: TurnView) -> bool {
    &&& 0 <= turn.rounds <= MAX_TOOL_ROUNDS
    &&& 0 <= turn.answered <= turn.calls.len()
    &&& turn.trail.len() < turn.messages.len()
    &&& turn.messages.skip(turn.messages.len() - turn.trail.len()) == turn.trail
    &&& open_calls(turn.trail) == Some(call_ids(turn.calls.skip(turn.answered)))
}

/// Whether the model is to be asked next.
pub open spec fn awaits_model(turn: TurnView) -> bool {
    turn.answered == turn.calls.len()
}

/// Whether the next request offers tools: not once the rounds are spent, so that the model has to
/// answer from what it already gathered.
pub open spec fn offers_tools(turn: TurnView) -> bool {
    turn.rounds < MAX_TOOL_ROUNDS
}

/// A turn as it starts.
pub open spec fn started(
    model: Seq<char>,
    system: Seq<char>,
    history: Seq<MessageView>,
    user_message: MessageView,
) -> TurnView {
    TurnView {
        model,
        user_message,
        messages: (seq![text_message(Role::System, system)] + history).push(user_message),
        trail: seq![],
        usage: Usage { prompt_tokens: 0, completion_tokens: 0, total_tokens: 0 },
        images: seq![],
        rounds: 0,
        calls: seq![],
        answered: 0,
    }
}

/// The turn as it is stored: the user's message, everything the tool rounds produced, then the
/// answer.
pub open spec fn record_of(turn: TurnView, answer: Seq<char>) -> Seq<MessageView> {
    (seq![turn.user_message] + turn.trail).push(text_message(Role::Assistant, answer))
}

pub open spec fn finished(turn: TurnView, answer: Seq<char>, usage: Usage, reason: Seq<char>) -> AgentTurnView {
    AgentTurnView {
        answer,
        record: record_of(turn, answer),
        usage,
        finish_reason: reason,
        model: turn.model,
        images: turn.images,
    }
}

/// How a turn goes on once the model has replied.
pub open spec fn replied(
    turn: TurnView,
    content: Seq<char>,
    calls: Seq<CallView>,
    usage: Usage,
    reason: Seq<char>,
) -> ProgressView {
    let total = usage_sum(turn.usage, usage);
    if !offers_tools(turn) {
        if trim(content).len() == 0 {
            ProgressView::Failed(
                FailureKind::Provider,
                "model exceeded the 8-round tool limit without answering"@,
            )
        } else {
            ProgressView::Finished(
                finished(turn, content, total, TOOL_ROUND_LIMIT_FINISH_REASON@),
            )
        }
    } else if calls.len() == 0 {
        if trim(content).len() == 0 {
            ProgressView::Failed(FailureKind::Provider, "provider returned an empty response"@)
        } else {
            ProgressView::Finished(finished(turn, content, total, reason))
        }
    } else {
        let request = tool_request_message(content, calls);
        ProgressView::CallTools(
            TurnView {
                messages: turn.messages.push(request),
                trail: turn.trail.push(request),
                usage: total,
                rounds: turn.rounds + 1,
                calls,
                answered: 0,
                ..turn
            },
        )
    }
}

/// A turn once the next call is answered with `output`.
pub open spec fn answered(turn: TurnView, output: Seq<char>, images: Seq<McpImageView>) -> TurnView {
    let result = tool_result_message(turn.calls[turn.answered].id, output);
    TurnView {
        messages: turn.messages.push(result),
        trail: turn.trail.push(result),
        images: turn.images + images,
        answered: turn.answered + 1,
        ..turn
    }
}

proof fn lemma_pushed(messages: Seq<MessageView>, trail: Seq<MessageView>, message: MessageView)
    requires
        trail.len() < messages.len(),
        messages.skip(messages.len() - trail.len()) == trail,
    ensures
        messages.push(message).skip(messages.len() - trail.len()) == trail.push(message),
{
    assert(messages.push(message).skip(messages.len() - trail.len()) =~= messages.skip(
        messages.len() - trail.len(),
    ).push(message));
}

/// A started turn, a turn that goes on to call tools and a turn that has answered a call are all
/// valid: requests and results stay together and in order.
pub proof fn law_turns_stay_valid(
    turn: TurnView,
    content: Seq<char>,
    calls: Seq<CallView>,
    usage: Usage,
    reason: Seq<char>,
    output: Seq<char>,
    images: Seq<McpImageView>,
)
    requires
        valid(turn),
    ensures
        awaits_model(turn) && replied(turn, content, calls, usage, reason) is CallTools ==> valid(
            replied(turn, content, calls, usage, reason)->CallTools_0,
        ),
        !awaits_model(turn) ==> valid(answered(turn, output, images)),
{
    if awaits_model(turn) && replied(turn, content, calls, usage, reason) is CallTools {
        let next = replied(turn, content, calls, usage, reason)->CallTools_0;
        let request = tool_request_message(content, calls);
        lemma_pushed(turn.messages, turn.trail, request);
        assert(next.trail.drop_last() =~= turn.trail);
        assert(call_ids(turn.calls.skip(turn.answered)) =~= seq![]);
        assert(calls.skip(0) =~= calls);
    }
    if !awaits_model(turn) {
        let next = answered(turn, output, images);
        let result = tool_result_message(turn.calls[turn.answered].id, output);
        lemma_pushed(turn.messages, turn.trail, result);
        assert(next.trail.drop_last() =~= turn.trail);
        let waiting = call_ids(turn.calls.skip(turn.answered));
        assert(waiting[0] == turn.calls[turn.answered].id);
        assert(waiting.skip(1) =~= call_ids(turn.calls.skip(turn.answered + 1)));
    }
}

/// A turn that starts is valid.
pub proof fn law_started_turns_are_valid(
    model: Seq<char>,
    system: Seq<char>,
    history: Seq<MessageView>,
    user_message: MessageView,
)
    ensures
        valid(started(model, system, history, user_message)),
        awaits_model(started(model, system, history, user_message)),
        offers_tools(started(model, system, history, user_message)),
{
    let turn = started(model, system, history, user_message);
    assert(turn.messages.skip(turn.messages.len() as int) =~= turn.trail);
    assert(call_ids(turn.calls.skip(0)) =~= seq![]);
}

/// How often the model may still be asked in a turn, its present request included.
pub open spec fn requests_left(turn: TurnView) -> int {
    MAX_TOOL_ROUNDS + 1 - turn.rounds
}

/// A turn ends: every round uses up one of the requests that are left, the last request offers no
/// tools, and its reply always ends the turn.
pub proof fn law_turns_end(
    turn: TurnView,
    content: Seq<char>,
    calls: Seq<CallView>,
    usage: Usage,
    reason: Seq<char>,
)
    requires
        valid(turn),
    ensures
        requests_left(turn) >= 1,
        requests_left(turn) == 1 <==> !offers_tools(turn),
        requests_left(turn) == 1 ==> !(replied(turn, content, calls, usage, reason) is CallTools),
        replied(turn, content, calls, usage, reason) is CallTools ==> requests_left(
            replied(turn, content, calls, usage, reason)->CallTools_0,
        ) == requests_left(turn) - 1,
{
}

/// What is stored of a finished turn starts with the user's message, ends with the answer, and
/// between them holds only requests whose every call is followed by its result.
pub proof fn law_records_are_complete(turn: TurnView, answer: Seq<char>)
    requires
        valid(turn),
        awaits_model(turn),
    ensures
        record_of(turn, answer)[0] == turn.user_message,
        record_of(turn, answer).last() == text_message(Role::Assistant, answer),
        record_of(turn, answer).subrange(1, record_of(turn, answer).len() - 1) == turn.trail,
        open_calls(turn.trail) == Some(Seq::<Seq<char>>::empty()),
{
    let record = record_of(turn, answer);
    assert(record.subrange(1, record.len() - 1) =~= turn.trail);
    assert(call_ids(turn.calls.skip(turn.answered)) =~= Seq::<Seq<char>>::empty());
}

/// What a call needs.
#[derive(Debug)]
pub enum CallPlan {
    /// Put the question to the user.
    AskUser,
    /// Hand the task to the read-only sub-agent.
    Research,
    /// Ask the owner to approve the host action that is described.
    Approve(String),
    /// Nothing: this is the answer.
    Answer(String),
    /// Carry it out.
    Run,
}

#[verifier::ext_equal]
pub enum PlanView {
    AskUser,
    Research,
    Approve(Seq<char>),
    Answer(Seq<char>),
    Run,
}

impl View for CallPlan {
    type V = PlanView;

    open spec fn view(&self) -> PlanView {
        match self {
            CallPlan::AskUser => PlanView::AskUser,
            CallPlan::Research => PlanView::Research,
            CallPlan::Approve(text) => PlanView::Approve(text@),
            CallPlan::Answer(text) => PlanView::Answer(text@),
            CallPlan::Run => PlanView::Run,
        }
    }
}

/// Whether the tool is one that the agent loop carries out itself.
pub open spec fn is_own(name: Seq<char>) -> bool {
    name == "ask_user"@ || name == "delegate_readonly"@
}

/// What a call needs, its arguments being the JSON value `value`.
pub open spec fn plan_of(
    registry: ToolRegistry,
    allowed: Set<(i64, Seq<char>)>,
    chat: i64,
    call: CallView,
    value: Result<JsonView, Seq<char>>,
) -> PlanView {
    if call.name == "ask_user"@ {
        PlanView::AskUser
    } else if call.name == "delegate_readonly"@ {
        PlanView::Research
    } else if registry.is_gated(call.name) && !allowed.contains((chat, call.name)) {
        match registry.preview_of(call, value) {
            Some(preview) => PlanView::Approve(preview),
            None => PlanView::Answer("Error: invalid command arguments"@),
        }
    } else {
        PlanView::Run
    }
}

/// Nothing that needs the owner's approval is ever carried out without it: a call that is to run at
/// once is of a tool that is not gated or that this chat was granted for good.
pub proof fn law_gated_calls_need_consent(
    registry: ToolRegistry,
    allowed: Set<(i64, Seq<char>)>,
    chat: i64,
    call: CallView,
    value: Result<JsonView, Seq<char>>,
)
    requires
        plan_of(registry, allowed, chat, call, value) == PlanView::Run,
    ensures
        !registry.is_gated(call.name) || allowed.contains((chat, call.name)),
{
}

/// Standing grants end with the conversation: once a chat's are gone, each of its gated calls is put
/// to the owner again, and other chats' calls are planned as before.
pub proof fn law_a_new_conversation_asks_again(
    registry: ToolRegistry,
    allowed: Set<(i64, Seq<char>)>,
    ended: i64,
    chat: i64,
    call: CallView,
    value: Result<JsonView, Seq<char>>,
)
    requires
        registry.is_gated(call.name),
    ensures
        ({
            let left = allowed.filter(|grant: (i64, Seq<char>)| grant.0 != ended);
            let plan = plan_of(registry, left, chat, call, value);
            &&& chat == ended ==> plan != PlanView::Run
            &&& chat == ended && !is_own(call.name) && registry.preview_of(call, value) is Some
                ==> plan == PlanView::Approve(registry.preview_of(call, value)->0)
            &&& chat != ended ==> plan == plan_of(registry, allowed, chat, call, value)
        }),
{
}

/// An event of the tool trail.
pub open spec fn event(
    id: i64,
    now: i64,
    chat: i64,
    kind: Seq<char>,
    tool: Seq<char>,
    details: Option<Seq<char>>,
    outcome: Seq<char>,
) -> AuditRowView {
    AuditRowView {
        event: EventView {
            id,
            event_type: kind,
            tool_name: Some(tool),
            outcome,
            created_at: now,
        },
        chat,
        details,
    }
}

/// What planning a call leaves in the tool trail: the request, and the standing grant that it
/// rests on, if it does.
pub open spec fn planned_events(
    registry: ToolRegistry,
    allowed: Set<(i64, Seq<char>)>,
    next_id: i64,
    now: i64,
    chat: i64,
    call: CallView,
) -> Seq<AuditRowView> {
    let request = event(
        next_id,
        now,
        chat,
        "tool_request"@,
        call.name,
        Some(call.arguments),
        "requested"@,
    );
    if !is_own(call.name) && registry.is_gated(call.name) && allowed.contains((chat, call.name)) {
        seq![
            request,
            event((next_id + 1) as i64, now, chat, "approval"@, call.name, None, "standing_allow"@),
        ]
    } else {
        seq![request]
    }
}

/// Whether exactly these events were added to the tool trail.
pub open spec fn recorded(before: Database, after: Database, events: Seq<AuditRowView>) -> bool {
    &&& after.audit_rows() == before.audit_rows() + events
    &&& after.audit.next_id == before.audit.next_id + events.len()
}

/// Decides what a call made at `now` needs, its arguments being the JSON value `value`, and records
/// the request; the trail may have room for the first event only.
pub fn plan_call_value(
    registry: &ToolRegistry,
    database: &mut Database,
    now: i64,
    chat_id: i64,
    call: &ToolCall,
    value: &Result<Json, String>,
) -> (r: Result<CallPlan, StorageError>)
    requires
        old(database).wf(),
    ensures
        final(database).wf(),
        *final(database) == (Database { audit: final(database).audit, ..*old(database) }),
        match r {
            Ok(plan) => {
                &&& plan@ == plan_of(
                    *registry,
                    old(database).allowed_tools(),
                    chat_id,
                    call@,
                    read_view(*value),
                )
                &&& recorded(
                    *old(database),
                    *final(database),
                    planned_events(
                        *registry,
                        old(database).allowed_tools(),
                        old(database).audit.next_id,
                        now,
                        chat_id,
                        call@,
                    ),
                )
            },
            Err(error) => {
                let events = planned_events(
                    *registry,
                    old(database).allowed_tools(),
                    old(database).audit.next_id,
                    now,
                    chat_id,
                    call@,
                );
                let room = i64::MAX - old(database).audit.next_id;
                &&& error == StorageError::Full
                &&& events.len() > room
                &&& recorded(*old(database), *final(database), events.take(room))
            },
        },
{
    let ghost rows = database.audit_rows();
    let ghost allowed = database.allowed_tools();
    if let Err(error) = database.record_audit_event_at(
        now,
        chat_id,
        "tool_request",
        Some(call.name.as_str()),
        Some(call.arguments.as_str()),
        "requested",
    ) {
        return Err(error);
    }
    let ghost request = event(
        old(database).audit.next_id,
        now,
        chat_id,
        "tool_request"@,
        call.name@,
        Some(call.arguments@),
        "requested"@,
    );
    assert(database.audit_rows() =~= rows + seq![request]);
    let ghost planned = planned_events(
        *registry,
        allowed,
        old(database).audit.next_id,
        now,
        chat_id,
        call@,
    );
    assert(planned.take(1) =~= seq![request]);
    if same(call.name.as_str(), "ask_user") {
        return Ok(CallPlan::AskUser);
    }
    if same(call.name.as_str(), "delegate_readonly") {
        return Ok(CallPlan::Research);
    }
    if !registry.requires_confirmation(call.name.as_str()) {
        return Ok(CallPlan::Run);
    }
    assert(database.allowed_tools() == allowed);
    if database.is_tool_always_allowed(chat_id, call.name.as_str()) {
        if let Err(error) = database.record_audit_event_at(
            now,
            chat_id,
            "approval",
            Some(call.name.as_str()),
            None,
            "standing_allow",
        ) {
            return Err(error);
        }
        assert(database.audit_rows() =~= rows + planned);
        return Ok(CallPlan::Run);
    }
    match registry.preview_value(call, value) {
        Some(preview) => Ok(CallPlan::Approve(preview)),
        None => Ok(CallPlan::Answer("Error: invalid command arguments".to_owned())),
    }
}

/// Decides what a call made at `now` needs, and records the request.
pub fn plan_call(
    registry: &ToolRegistry,
    database: &mut Database,
    now: i64,
    chat_id: i64,
    call: &ToolCall,
) -> (r: Result<CallPlan, StorageError>)
    requires
        old(database).wf(),
    ensures
        final(database).wf(),
        *final(database) == (Database { audit: final(database).audit, ..*old(database) }),
        match r {
            Ok(plan) => {
                &&& plan@ == plan_of(
                    *registry,
                    old(database).allowed_tools(),
                    chat_id,
                    call@,
                    json_read(call.arguments@),
                )
                &&& recorded(
                    *old(database),
                    *final(database),
                    planned_events(
                        *registry,
                        old(database).allowed_tools(),
                        old(database).audit.next_id,
                        now,
                        chat_id,
                        call@,
                    ),
                )
            },
            Err(error) => {
                let events = planned_events(
                    *registry,
                    old(database).allowed_tools(),
                    old(database).audit.next_id,
                    now,
                    chat_id,
                    call@,
                );
                let room = i64::MAX - old(database).audit.next_id;
                &&& error == StorageError::Full
                &&& events.len() > room
                &&& recorded(*old(database), *final(database), events.take(room))
            },
        },
{
    let value = read(call.arguments.as_str());
    plan_call_value(registry, database, now, chat_id, call, &value)
}

/// A user's answer to an approval prompt. `AlwaysAllow` is distinct from `AllowOnce`: it also
/// grants the calling tool blanket approval for the rest of this conversation, not just this one
/// call.
#[derive(Clone, Copy, Debug, PartialEq, Eq, Structural)]
pub enum ApprovalOutcome {
    AllowOnce,
    AlwaysAllow,
    Deny,
}

pub open spec fn approval_word(outcome: ApprovalOutcome) -> Seq<char> {
    match outcome {
        ApprovalOutcome::AllowOnce => "allow_once"@,
        ApprovalOutcome::AlwaysAllow => "always_allow"@,
        ApprovalOutcome::Deny => "denied"@,
    }
}

/// What the model is told of a call that the owner denied.
pub const DENIED: &'static str = "User denied this command. Do not run it.";

/// What may run unasked after an approval prompt was answered.
pub open spec fn allowed_after(
    allowed: Set<(i64, Seq<char>)>,
    outcome: ApprovalOutcome,
    chat: i64,
    tool: Seq<char>,
) -> Set<(i64, Seq<char>)> {
    if outcome == ApprovalOutcome::AlwaysAllow {
        allowed.insert((chat, tool))
    } else {
        allowed
    }
}

/// Records the owner's answer at `now`, with the grant that it gives, and says whether the call is
/// to be carried out.
pub fn settle_approval(
    database: &mut Database,
    now: i64,
    chat_id: i64,
    tool: &str,
    outcome: ApprovalOutcome,
) -> (r: Result<bool, StorageError>)
    requires
        old(database).wf(),
    ensures
        final(database).wf(),
        *final(database) == (Database {
            audit: final(database).audit,
            settings: final(database).settings,
            ..*old(database)
        }),
        final(database).settings.workspaces == old(database).settings.workspaces,
        final(database).allowed_tools() == allowed_after(
            old(database).allowed_tools(),
            outcome,
            chat_id,
            tool@,
        ),
        match r {
            Ok(run) => run == (outcome != ApprovalOutcome::Deny) && recorded(
                *old(database),
                *final(database),
                seq![
                    event(
                        old(database).audit.next_id,
                        now,
                        chat_id,
                        "approval"@,
                        tool@,
                        None,
                        approval_word(outcome),
                    ),
                ],
            ),
            Err(error) => error == StorageError::Full && old(database).audit.next_id == i64::MAX
                && final(database).audit == old(database).audit,
        },
{
    let word = match outcome {
        ApprovalOutcome::AllowOnce => "allow_once",
        ApprovalOutcome::AlwaysAllow => {
            database.always_allow_tool(chat_id, tool);
            "always_allow"
        },
        ApprovalOutcome::Deny => "denied",
    };
    match database.record_audit_event_at(now, chat_id, "approval", Some(tool), None, word) {
        Ok(_) => {
            assert(database.audit_rows() =~= old(database).audit_rows()
                + seq![database.audit_rows().last()]);
            Ok(outcome != ApprovalOutcome::Deny)
        },
        Err(error) => Err(error),
    }
}

/// Whether a tool's output tells of a failure.
pub open spec fn tells_failure(output: Seq<char>) -> bool {
    occurs_at(output, "Error:"@, 0) || occurs_at(output, "User denied"@, 0)
}

/// What is recorded of a tool's result.
pub open spec fn result_details(output: Seq<char>, images: nat) -> JsonView {
    JsonView::object().with("images"@, JsonView::Number(decimal(images))).with(
        "output_chars"@,
        JsonView::Number(decimal(output.len())),
    )
}

/// What is recorded and shown of a tool's result.
#[derive(Clone, Copy, Debug, PartialEq, Eq, Structural)]
pub struct ToolReport {
    pub failed: bool,
    pub images: usize,
}

impl Turn {
    pub open spec fn wf(&self) -> bool {
        valid(self@)
    }

    /// Starts a turn.
    pub fn start(model: &str, system: &str, history: Vec<Message>, user_message: Message) -> (r: Self)
        ensures
            r.wf(),
            r@ == started(model@, system@, seq_view(history@), user_message@),
    {
        let mut history = history;
        let ghost past = seq_view(history@);
        let mut messages: Vec<Message> = Vec::new();
        messages.push(Message::system(system));
        assert(seq_view(messages@) =~= seq![text_message(Role::System, system@)]);
        let ghost head = messages@;
        let ghost tail = history@;
        messages.append(&mut history);
        assert(seq_view(messages@) =~= seq_view(head) + past);
        let last = user_message.clone();
        let ghost before = messages@;
        messages.push(last);
        assert(seq_view(messages@) =~= seq_view(before).push(user_message@));
        let r = Turn {
            model: model.to_owned(),
            user_message,
            messages,
            trail: Vec::new(),
            usage: Usage { prompt_tokens: 0, completion_tokens: 0, total_tokens: 0 },
            images: Vec::new(),
            rounds: 0,
            calls: Vec::new(),
            answered: 0,
        };
        proof {
            law_started_turns_are_valid(model@, system@, past, user_message@);
            assert(r@ =~= started(model@, system@, past, user_message@));
        }
        r
    }

    /// Whether the next request to the model offers tools.
    pub fn with_tools(&self) -> (r: bool)
        ensures
            r == offers_tools(self@),
    {
        self.rounds < MAX_TOOL_ROUNDS
    }

    /// The call to answer next, if there is one; otherwise the model is to be asked.
    pub fn next_call(&self) -> (r: Option<&ToolCall>)
        requires
            self.wf(),
        ensures
            match r {
                Some(call) => !awaits_model(self@) && call@ == self@.calls[self@.answered],
                None => awaits_model(self@),
            },
    {
        assert(self@.calls.len() == self.calls@.len());
        if self.answered < self.calls.len() {
            Some(&self.calls[self.answered])
        } else {
            None
        }
    }

    /// Adds what the read-only sub-agent cost.
    pub fn add_usage(&mut self, usage: &Usage)
        requires
            old(self).wf(),
        ensures
            final(self).wf(),
            final(self)@ == (TurnView { usage: usage_sum(old(self).usage, *usage), ..old(self)@ }),
    {
        accumulate_usage(&mut self.usage, usage);
        assert(self@ =~= (TurnView { usage: usage_sum(old(self).usage, *usage), ..old(self)@ }));
    }

    /// Goes on with the model's reply.
    pub fn on_response(self, response: ChatResponse) -> (r: Progress)
        requires
            self.wf(),
            awaits_model(self@),
        ensures
            r@ == replied(
                self@,
                response.content@,
                seq_view(response.tool_calls@),
                response.usage,
                response.finish_reason@,
            ),
            match r {
                Progress::CallTools(turn) => turn.wf() && !awaits_model(turn@),
                _ => true,
            },
    {
        let ghost view = self@;
        let ghost calls_view = seq_view(response.tool_calls@);
        proof {
            law_turns_stay_valid(
                view,
                response.content@,
                calls_view,
                response.usage,
                response.finish_reason@,
                seq![],
                seq![],
            );
            assert(calls_view.len() == response.tool_calls@.len());
        }
        let mut turn = self;
        accumulate_usage(&mut turn.usage, &response.usage);
        let blank = trimmed(response.content.as_str()).as_str().is_empty();
        if turn.rounds >= MAX_TOOL_ROUNDS {
            if blank {
                return Progress::Failed(
                    TurnFailure::new(
                        FailureKind::Provider,
                        "model exceeded the 8-round tool limit without answering".to_owned(),
                    ),
                );
            }
            return Progress::Finished(
                finish_turn(turn, response.content, TOOL_ROUND_LIMIT_FINISH_REASON.to_owned()),
            );
        }
        if response.tool_calls.len() == 0 {
            if blank {
                return Progress::Failed(
                    TurnFailure::new(
                        FailureKind::Provider,
                        "provider returned an empty response".to_owned(),
                    ),
                );
            }
            return Progress::Finished(finish_turn(turn, response.content, response.finish_reason));
        }
        let ghost messages_before = turn.messages@;
        let ghost trail_before = turn.trail@;
        let request = Message::tool_request(
            response.content.as_str(),
            clone_calls(&response.tool_calls),
        );
        let copy = request.clone();
        turn.messages.push(copy);
        turn.trail.push(request);
        turn.rounds = turn.rounds + 1;
        turn.calls = response.tool_calls;
        turn.answered = 0;
        assert(seq_view(turn.messages@) =~= seq_view(messages_before).push(copy@));
        assert(seq_view(turn.trail@) =~= seq_view(trail_before).push(request@));
        assert(turn@ =~= replied(
            view,
            response.content@,
            calls_view,
            response.usage,
            response.finish_reason@,
        )->CallTools_0);
        Progress::CallTools(turn)
    }

    /// Answers the next call with what its tool returned at `now`: the text goes to the model, the
    /// images to the chat, and both are recorded.
    pub fn on_output(
        &mut self,
        database: &mut Database,
        now: i64,
        chat_id: i64,
        output: String,
    ) -> (r: Result<ToolReport, StorageError>)
        requires
            old(self).wf(),
            !awaits_model(old(self)@),
            old(database).wf(),
        ensures
            final(self).wf(),
            final(database).wf(),
            *final(database) == (Database { audit: final(database).audit, ..*old(database) }),
            ({
                let (text, images) = media_of(output@);
                let name = old(self)@.calls[old(self)@.answered].name;
                match r {
                    Ok(report) => {
                        &&& final(self)@ == answered(old(self)@, text, images)
                        &&& report.failed == tells_failure(text)
                        &&& report.images == images.len()
                        &&& recorded(
                            *old(database),
                            *final(database),
                            seq![
                                event(
                                    old(database).audit.next_id,
                                    now,
                                    chat_id,
                                    "tool_result"@,
                                    name,
                                    Some(json_text(result_details(text, images.len()))),
                                    if tells_failure(text) {
                                        "failed"@
                                    } else {
                                        "completed"@
                                    },
                                ),
                            ],
                        )
                    },
                    Err(error) => {
                        &&& error == StorageError::Full
                        &&& old(database).audit.next_id == i64::MAX
                        &&& *final(self) == *old(self)
                        &&& *final(database) == *old(database)
                    },
                }
            }),
    {
        let ghost view = self@;
        let ghost media = media_of(output@);
        assert(view.calls.len() == self.calls@.len());
        assert(self.answered < self.calls.len());
        let (text, images) = extract_media(output);
        proof {
            law_turns_stay_valid(
                view,
                seq![],
                seq![],
                self.usage,
                seq![],
                text@,
                seq_view(images@),
            );
            assert(seq_view(images@).len() == images@.len());
        }
        let failed = starts_with(text.as_str(), "Error:") || starts_with(
            text.as_str(),
            "User denied",
        );
        let count = images.len();
        let details = print(
            &Json::object().with("images", Json::Number(decimal_usize(count))).with(
                "output_chars",
                Json::Number(decimal_usize(to_chars(text.as_str()).len())),
            ),
        );
        let name = self.calls[self.answered].name.clone();
        assert(name@ == view.calls[view.answered].name);
        if let Err(error) = database.record_audit_event_at(
            now,
            chat_id,
            "tool_result",
            Some(name.as_str()),
            Some(details.as_str()),
            if failed {
                "failed"
            } else {
                "completed"
            },
        ) {
            return Err(error);
        }
        assert(database.audit_rows() =~= old(database).audit_rows()
            + seq![database.audit_rows().last()]);
        let id = self.calls[self.answered].id.clone();
        assert(id@ == view.calls[view.answered].id);
        let result = Message::tool_result(id.as_str(), text.as_str());
        let copy = result.clone();
        let ghost messages_before = self.messages@;
        let ghost trail_before = self.trail@;
        let ghost images_before = self.images@;
        let ghost images_added = images@;
        let mut images = images;
        self.messages.push(copy);
        self.trail.push(result);
        self.images.append(&mut images);
        self.answered = self.answered + 1;
        assert(seq_view(self.messages@) =~= seq_view(messages_before).push(copy@));
        assert(seq_view(self.trail@) =~= seq_view(trail_before).push(result@));
        assert(seq_view(self.images@) =~= seq_view(images_before) + seq_view(images_added));
        assert(self@ =~= answered(view, text@, seq_view(images_added)));
        Ok(ToolReport { failed, images: count })
    }
}

/// Assembles the turn as it will be stored: the user's message, everything the tool rounds
/// produced, then the answer.
pub fn finish_turn(turn: Turn, answer: String, finish_reason: String) -> (r: AgentTurn)
    ensures
        r@ == finished(turn@, answer@, turn.usage, finish_reason@),
{
    let ghost view = turn@;
    let mut trail = turn.trail;
    let mut record: Vec<Message> = Vec::new();
    record.push(turn.user_message);
    assert(seq_view(record@) =~= seq![view.user_message]);
    let ghost head = record@;
    let ghost middle = trail@;
    record.append(&mut trail);
    assert(seq_view(record@) =~= seq_view(head) + seq_view(middle));
    let last = Message::assistant(answer.as_str());
    let ghost before = record@;
    record.push(last);
    assert(seq_view(record@) =~= seq_view(before).push(last@));
    let r = AgentTurn {
        answer,
        record,
        usage: turn.usage,
        finish_reason,
        model: turn.model,
        images: turn.images,
    };
    assert(r@ =~= finished(view, answer@, turn.usage, finish_reason@));
    r
}

/// An investigation of the read-only sub-agent under way.
#[derive(Debug)]
pub struct Research {
    pub messages: Vec<Message>,
    pub usage: Usage,
    pub rounds: usize,
    pub calls: Vec<ToolCall>,
    pub answered: usize,
}

#[verifier::ext_equal]
pub struct ResearchView {
    pub messages: Seq<MessageView>,
    pub usage: Usage,
    pub rounds: int,
    pub calls: Seq<CallView>,
    pub answered: int,
}

impl View for Research {
    type V = ResearchView;

    open spec fn view(&self) -> ResearchView {
        ResearchView {
            messages: seq_view(self.messages@),
            usage: self.usage,
            rounds: self.rounds as int,
            calls: seq_view(self.calls@),
            answered: self.answered as int,
        }
    }
}

/// How an investigation goes on.
#[derive(Debug)]
pub enum ResearchProgress {
    CallTools(Research),
    Answered { answer: String, usage: Usage },
    Failed(String),
}

#[verifier::ext_equal]
pub enum ResearchProgressView {
    CallTools(ResearchView),
    Answered { answer: Seq<char>, usage: Usage },
    Failed(Seq<char>),
}

impl View for ResearchProgress {
    type V = ResearchProgressView;

    open spec fn view(&self) -> ResearchProgressView {
        match self {
            ResearchProgress::CallTools(research) => ResearchProgressView::CallTools(research@),
            ResearchProgress::Answered { answer, usage } => ResearchProgressView::Answered {
                answer: answer@,
                usage: *usage,
            },
            ResearchProgress::Failed(reason) => ResearchProgressView::Failed(reason@),
        }
    }
}

/// What every investigation keeps: no more rounds than allowed, and behind the two messages it
/// started with only requests answered call by call, in order.
pub open spec fn research_valid(research: ResearchView) -> bool {
    &&& 0 <= research.rounds <= MAX_RESEARCH_ROUNDS
    &&& 0 <= research.answered <= research.calls.len()
    &&& research.messages.len() >= 2
    &&& open_calls(research.messages.skip(2)) == Some(
        call_ids(research.calls.skip(research.answered)),
    )
}

pub open spec fn research_started(task: Seq<char>) -> ResearchView {
    ResearchView {
        messages: seq![
            text_message(Role::System, RESEARCH_PROMPT@),
            text_message(Role::User, task),
        ],
        usage: Usage { prompt_tokens: 0, completion_tokens: 0, total_tokens: 0 },
        rounds: 0,
        calls: seq![],
        answered: 0,
    }
}

pub open spec fn research_replied(
    research: ResearchView,
    content: Seq<char>,
    calls: Seq<CallView>,
    usage: Usage,
) -> ResearchProgressView {
    let total = usage_sum(research.usage, usage);
    if research.rounds >= MAX_RESEARCH_ROUNDS {
        if trim(content).len() == 0 {
            ResearchProgressView::Failed(
                "read-only sub-agent exhausted its tool limit without an answer"@,
            )
        } else {
            ResearchProgressView::Answered { answer: content, usage: total }
        }
    } else if calls.len() == 0 {
        if trim(content).len() == 0 {
            ResearchProgressView::Failed("read-only sub-agent returned an empty response"@)
        } else {
            ResearchProgressView::Answered { answer: content, usage: total }
        }
    } else {
        ResearchProgressView::CallTools(
            ResearchView {
                messages: research.messages.push(tool_request_message(content, calls)),
                usage: total,
                rounds: research.rounds + 1,
                calls,
                answered: 0,
            },
        )
    }
}

pub open spec fn research_answered(research: ResearchView, output: Seq<char>) -> ResearchView {
    ResearchView {
        messages: research.messages.push(
            tool_result_message(research.calls[research.answered].id, output),
        ),
        answered: research.answered + 1,
        ..research
    }
}

/// The task of an investigation, or why there is none.
pub open spec fn research_task(value: Result<JsonView, Seq<char>>) -> Result<Seq<char>, Seq<char>> {
    match text_argument(value, "task"@, 0, 1) {
        None => Err(with_reason("sub-agent arguments were not valid JSON"@, value)),
        Some(task) => if trim(task).len() == 0 {
            Err("delegate_readonly requires a non-empty task"@)
        } else {
            Ok(trim(task))
        },
    }
}

impl Research {
    pub open spec fn wf(&self) -> bool {
        research_valid(self@)
    }

    /// Starts an investigation, the arguments of the call being the JSON value `value`.
    pub fn start_value(value: &Result<Json, String>) -> (r: Result<Self, String>)
        ensures
            match r {
                Ok(research) => research.wf() && research_task(read_view(*value)) is Ok && research@
                    == research_started(research_task(read_view(*value))->Ok_0),
                Err(message) => research_task(read_view(*value)) == Err::<Seq<char>, Seq<char>>(
                    message@,
                ),
            },
    {
        let task = match find_text(value, "task", 0, 1) {
            Some(task) => trimmed(task.as_str()),
            None => {
                return Err(complain("sub-agent arguments were not valid JSON", value));
            },
        };
        if task.as_str().is_empty() {
            return Err("delegate_readonly requires a non-empty task".to_owned());
        }
        let mut messages: Vec<Message> = Vec::new();
        messages.push(Message::system(RESEARCH_PROMPT));
        messages.push(Message::user(task.as_str()));
        let r = Research {
            messages,
            usage: Usage { prompt_tokens: 0, completion_tokens: 0, total_tokens: 0 },
            rounds: 0,
            calls: Vec::new(),
            answered: 0,
        };
        assert(r@ =~= research_started(task@));
        assert(r@.messages.skip(2) =~= seq![]);
        assert(call_ids(r@.calls.skip(0)) =~= seq![]);
        Ok(r)
    }

    /// Starts an investigation.
    pub fn start(arguments: &str) -> (r: Result<Self, String>)
        ensures
            match r {
                Ok(research) => research.wf() && research_task(json_read(arguments@)) is Ok
                    && research@ == research_started(research_task(json_read(arguments@))->Ok_0),
                Err(message) => research_task(json_read(arguments@)) == Err::<
                    Seq<char>,
                    Seq<char>,
                >(message@),
            },
    {
        Self::start_value(&read(arguments))
    }

    /// Whether the next request offers tools.
    pub fn with_tools(&self) -> (r: bool)
        ensures
            r == (self@.rounds < MAX_RESEARCH_ROUNDS),
    {
        self.rounds < MAX_RESEARCH_ROUNDS
    }

    /// The call to answer next, if there is one; otherwise the model is to be asked.
    pub fn next_call(&self) -> (r: Option<&ToolCall>)
        requires
            self.wf(),
        ensures
            match r {
                Some(call) => self@.answered < self@.calls.len() && call@
                    == self@.calls[self@.answered],
                None => self@.answered == self@.calls.len(),
            },
    {
        assert(self@.calls.len() == self.calls@.len());
        if self.answered < self.calls.len() {
            Some(&self.calls[self.answered])
        } else {
            None
        }
    }

    /// Goes on with the model's reply.
    pub fn on_response(self, response: ChatResponse) -> (r: ResearchProgress)
        requires
            self.wf(),
            self@.answered == self@.calls.len(),
        ensures
            r@ == research_replied(
                self@,
                response.content@,
                seq_view(response.tool_calls@),
                response.usage,
            ),
            match r {
                ResearchProgress::CallTools(research) => research.wf(),
                _ => true,
            },
    {
        let ghost view = self@;
        let ghost calls_view = seq_view(response.tool_calls@);
        assert(calls_view.len() == response.tool_calls@.len());
        let mut research = self;
        accumulate_usage(&mut research.usage, &response.usage);
        let blank = trimmed(response.content.as_str()).as_str().is_empty();
        if research.rounds >= MAX_RESEARCH_ROUNDS {
            if blank {
                return ResearchProgress::Failed(
                    "read-only sub-agent exhausted its tool limit without an answer".to_owned(),
                );
            }
            return ResearchProgress::Answered { answer: response.content, usage: research.usage };
        }
        if response.tool_calls.len() == 0 {
            if blank {
                return ResearchProgress::Failed(
                    "read-only sub-agent returned an empty response".to_owned(),
                );
            }
            return ResearchProgress::Answered { answer: response.content, usage: research.usage };
        }
        let request = Message::tool_request(
            response.content.as_str(),
            clone_calls(&response.tool_calls),
        );
        let ghost messages_before = research.messages@;
        research.messages.push(request);
        research.rounds = research.rounds + 1;
        research.calls = response.tool_calls;
        research.answered = 0;
        proof {
            assert(seq_view(research.messages@) =~= seq_view(messages_before).push(request@));
            let next = research@;
            assert(next =~= research_replied(
                view,
                response.content@,
                calls_view,
                response.usage,
            )->CallTools_0);
            assert(next.messages.skip(2).drop_last() =~= view.messages.skip(2));
            assert(next.messages.skip(2).last() == request@);
            assert(call_ids(view.calls.skip(view.answered)) =~= seq![]);
            assert(next.calls.skip(0) =~= next.calls);
        }
        ResearchProgress::CallTools(research)
    }

    /// Answers the next call.
    pub fn on_output(&mut self, output: &str)
        requires
            old(self).wf(),
            old(self)@.answered < old(self)@.calls.len(),
        ensures
            final(self).wf(),
            final(self)@ == research_answered(old(self)@, output@),
    {
        let ghost view = self@;
        assert(view.calls.len() == self.calls@.len());
        assert(self.answered < self.calls.len());
        let id = self.calls[self.answered].id.clone();
        assert(id@ == view.calls[view.answered].id);
        let result = Message::tool_result(id.as_str(), output);
        let ghost messages_before = self.messages@;
        self.messages.push(result);
        self.answered = self.answered + 1;
        proof {
            assert(seq_view(self.messages@) =~= seq_view(messages_before).push(result@));
            assert(self@ =~= research_answered(view, output@));
            assert(self@.messages.skip(2).drop_last() =~= view.messages.skip(2));
            assert(self@.messages.skip(2).last() == result@);
            let waiting = call_ids(view.calls.skip(view.answered));
            assert(waiting[0] == view.calls[view.answered].id);
            assert(waiting.skip(1) =~= call_ids(view.calls.skip(view.answered + 1)));
        }
    }
}

/// An investigation ends: every round uses up one of the requests that are left, and the reply to
/// the last one always ends it.
pub proof fn law_investigations_end(
    research: ResearchView,
    content: Seq<char>,
    calls: Seq<CallView>,
    usage: Usage,
)
    requires
        research_valid(research),
    ensures
        research.rounds == MAX_RESEARCH_ROUNDS ==> !(research_replied(
            research,
            content,
            calls,
            usage,
        ) is CallTools),
        research_replied(research, content, calls, usage) is CallTools ==> research_replied(
            research,
            content,
            calls,
            usage,
        )->CallTools_0.rounds == research.rounds + 1,
{
}

/// The first request of a turn holds the whole conversation: behind the system message stands every
/// message of the history, unchanged and in order, and behind these the message that is to be
/// answered. Nothing has been spent, called or shown yet.
pub proof fn law_the_model_sees_the_conversation(
    model: Seq<char>,
    system: Seq<char>,
    history: Seq<MessageView>,
    user_message: MessageView,
)
    ensures
        ({
            let turn = started(model, system, history, user_message);
            &&& turn.messages.len() == history.len() + 2
            &&& turn.messages[0].role == Role::System
            &&& turn.messages[0].content == system
            &&& turn.messages[0].images.len() == 0
            &&& turn.messages[0].tool_calls.len() == 0
            &&& turn.messages[0].tool_call_id is None
            &&& turn.messages.subrange(1, history.len() + 1int) == history
            &&& turn.messages.last() == user_message
            &&& turn.user_message == user_message
            &&& turn.model == model
            &&& turn.trail.len() == 0
            &&& turn.images.len() == 0
            &&& turn.rounds == 0
            &&& turn.calls.len() == 0
            &&& turn.usage.prompt_tokens == 0
            &&& turn.usage.completion_tokens == 0
            &&& turn.usage.total_tokens == 0
        }),
{
    let turn = started(model, system, history, user_message);
    assert(turn.messages.subrange(1, history.len() + 1int) =~= history);
}

/// A reply that calls tools, as long as tools are offered, makes a round of exactly these calls:
/// what the model was shown stays as it was, and behind it stands the model's own message, with
/// what it said and what it called. The same message is kept for the record.
pub proof fn law_called_tools_join_the_conversation(
    turn: TurnView,
    content: Seq<char>,
    calls: Seq<CallView>,
    usage: Usage,
    reason: Seq<char>,
)
    ensures
        replied(turn, content, calls, usage, reason) is CallTools <==> turn.rounds < 8
            && calls.len() > 0,
        replied(turn, content, calls, usage, reason) matches ProgressView::CallTools(next) ==> {
            &&& next.messages.len() == turn.messages.len() + 1
            &&& next.messages.drop_last() == turn.messages
            &&& next.messages.last().role == Role::Assistant
            &&& next.messages.last().content == content
            &&& next.messages.last().tool_calls == calls
            &&& next.messages.last().tool_call_id is None
            &&& next.messages.last().images.len() == 0
            &&& next.trail.len() == turn.trail.len() + 1
            &&& next.trail.drop_last() == turn.trail
            &&& next.trail.last() == next.messages.last()
            &&& next.calls == calls
            &&& next.answered == 0
            &&& next.rounds == turn.rounds + 1
            &&& next.model == turn.model
            &&& next.user_message == turn.user_message
            &&& next.images == turn.images
        },
{
    if let ProgressView::CallTools(next) = replied(turn, content, calls, usage, reason) {
        assert(next.messages.drop_last() =~= turn.messages);
        assert(next.trail.drop_last() =~= turn.trail);
    }
}

/// What a tool returned is shown to the model behind all that came before, as the answer to the
/// call that was next in line, word for word. The images it brought join those that came before.
pub proof fn law_outputs_answer_their_calls(
    turn: TurnView,
    output: Seq<char>,
    images: Seq<McpImageView>,
)
    requires
        0 <= turn.answered < turn.calls.len(),
    ensures
        ({
            let next = answered(turn, output, images);
            &&& next.messages.len() == turn.messages.len() + 1
            &&& next.messages.drop_last() == turn.messages
            &&& next.messages.last().role == Role::Tool
            &&& next.messages.last().content == output
            &&& next.messages.last().tool_call_id == Some(turn.calls[turn.answered].id)
            &&& next.messages.last().tool_calls.len() == 0
            &&& next.messages.last().images.len() == 0
            &&& next.trail.len() == turn.trail.len() + 1
            &&& next.trail.drop_last() == turn.trail
            &&& next.trail.last() == next.messages.last()
            &&& next.images.len() == turn.images.len() + images.len()
            &&& next.images.take(turn.images.len() as int) == turn.images
            &&& next.images.skip(turn.images.len() as int) == images
            &&& next.answered == turn.answered + 1
            &&& next.calls == turn.calls
            &&& next.rounds == turn.rounds
            &&& next.usage == turn.usage
            &&& next.model == turn.model
            &&& next.user_message == turn.user_message
        }),
{
    let next = answered(turn, output, images);
    assert(next.messages.drop_last() =~= turn.messages);
    assert(next.trail.drop_last() =~= turn.trail);
    assert(next.images.take(turn.images.len() as int) =~= turn.images);
    assert(next.images.skip(turn.images.len() as int) =~= images);
}

/// A turn ends with the model's own words: when it calls no tool, or when the rounds are used up,
/// its text is the answer, word for word, unless it said nothing. What is recorded is the message
/// that was answered, all that happened since, and the answer; the images are those that tools
/// brought, and the model is the one that was asked. Only the cap on rounds changes the reason.
pub proof fn law_the_answer_is_what_the_model_said(
    turn: TurnView,
    content: Seq<char>,
    calls: Seq<CallView>,
    usage: Usage,
    reason: Seq<char>,
)
    ensures
        replied(turn, content, calls, usage, reason) is Finished <==> trim(content).len() > 0 && (
        turn.rounds >= 8 || calls.len() == 0),
        replied(turn, content, calls, usage, reason) matches ProgressView::Finished(end) ==> {
            &&& end.answer == content
            &&& end.record.len() == turn.trail.len() + 2
            &&& end.record[0] == turn.user_message
            &&& end.record.subrange(1, turn.trail.len() + 1int) == turn.trail
            &&& end.record.last().role == Role::Assistant
            &&& end.record.last().content == content
            &&& end.record.last().tool_calls.len() == 0
            &&& end.record.last().images.len() == 0
            &&& end.model == turn.model
            &&& end.images == turn.images
            &&& turn.rounds < 8 ==> end.finish_reason == reason
            &&& turn.rounds >= 8 ==> end.finish_reason == "tool_round_limit"@
        },
        replied(turn, content, calls, usage, reason) matches ProgressView::Failed(kind, _) ==> kind
            == FailureKind::Provider,
{
    if let ProgressView::Finished(end) = replied(turn, content, calls, usage, reason) {
        assert(end.record.subrange(1, turn.trail.len() + 1int) =~= turn.trail);
    }
}

/// Every reply is paid for: the tokens of a turn are those spent before and those of the reply,
/// each kind on its own, whether the turn goes on or ends. A sum too large to hold stays at the
/// largest number there is.
pub proof fn law_tokens_add_up(
    turn: TurnView,
    content: Seq<char>,
    calls: Seq<CallView>,
    usage: Usage,
    reason: Seq<char>,
)
    ensures
        ({
            let after = match replied(turn, content, calls, usage, reason) {
                ProgressView::CallTools(next) => Some(next.usage),
                ProgressView::Finished(end) => Some(end.usage),
                ProgressView::Failed(_, _) => None,
            };
            after matches Some(sum) ==> {
                &&& is_sum(turn.usage.prompt_tokens, usage.prompt_tokens, sum.prompt_tokens)
                &&& is_sum(
                    turn.usage.completion_tokens,
                    usage.completion_tokens,
                    sum.completion_tokens,
                )
                &&& is_sum(turn.usage.total_tokens, usage.total_tokens, sum.total_tokens)
            }
        }),
{
}

/// Whether `sum` is what `a` and `b` make together, as far as it can be held.
pub open spec fn is_sum(a: u64, b: u64, sum: u64) -> bool {
    &&& sum >= a
    &&& sum >= b
    &&& sum != u64::MAX ==> sum == a + b
    &&& sum == u64::MAX ==> a + b >= u64::MAX
}

/// The model is told when and where it is: behind the fixed instructions stand, in this order, the
/// owner's local time, the zone, what is remembered of the owner, and the summary of the earlier
/// conversation.
pub proof fn law_the_model_is_told_what_is_known(
    now: i64,
    zone: Seq<char>,
    memory: Seq<char>,
    summary: Option<Seq<char>>,
)
    ensures
        occurs_at(system_text(now, zone, memory, summary), SYSTEM_PROMPT@, 0),
        shown(now, zone, SECONDS_WITH_OFFSET@) matches Some(time) ==> in_turn(
            system_text(now, zone, memory, summary),
            seq![time, zone, memory] + (match summary {
                Some(text) => seq![text],
                None => seq![],
            }),
        ),
        summary matches Some(text) ==> occurs_at(
            system_text(now, zone, memory, summary),
            text,
            system_text(now, zone, memory, summary).len() - text.len(),
        ),
{
    let time = shown_or(now, zone, SECONDS_WITH_OFFSET@, "unknown time"@);
    let none: Seq<Seq<char>> = seq![];
    let all = system_text(now, zone, memory, summary);
    let head = SYSTEM_PROMPT@ + "\n\nCurrent date and time: "@;
    let gap = if memory.len() > 0 {
        ")."@ + "\n\n"@
    } else {
        ")."@
    };
    let tail = match summary {
        Some(text) => "\n\nSummary of the earlier conversation:\n\n"@ + text,
        None => seq![],
    };
    let last = match summary {
        Some(text) => seq![text],
        None => seq![],
    };
    if let Some(text) = summary {
        lemma_one("\n\nSummary of the earlier conversation:\n\n"@, text, seq![]);
        assert("\n\nSummary of the earlier conversation:\n\n"@ + text + seq![] =~= tail);
    }
    assert(in_turn(tail, last));
    lemma_in_turn(gap, memory, tail, last);
    lemma_in_turn(" ("@, zone, gap + memory + tail, seq![memory] + last);
    lemma_in_turn(
        head,
        time,
        " ("@ + zone + (gap + memory + tail),
        seq![zone] + (seq![memory] + last),
    );
    assert(head + time + (" ("@ + zone + (gap + memory + tail)) =~= all);
    assert(seq![time] + (seq![zone] + (seq![memory] + last)) =~= seq![time, zone, memory] + last);
    assert(all.subrange(0, SYSTEM_PROMPT@.len() as int) =~= SYSTEM_PROMPT@);
    if let Some(text) = summary {
        assert(all.subrange(all.len() - text.len(), all.len() as int) =~= text);
    }
}

/// Every call leaves a trace before anything else happens to it: the first event that planning a
/// call records names the tool, keeps the arguments as they were given, and belongs to the chat and
/// the moment of the call. A second event follows exactly where an approval given earlier lets a
/// gated tool run unasked.
pub proof fn law_calls_leave_a_trace(
    registry: ToolRegistry,
    allowed: Set<(i64, Seq<char>)>,
    next_id: i64,
    now: i64,
    chat: i64,
    call: CallView,
)
    requires
        next_id < i64::MAX,
    ensures
        ({
            let events = planned_events(registry, allowed, next_id, now, chat, call);
            &&& events.len() >= 1
            &&& events[0].event.event_type == "tool_request"@
            &&& events[0].event.outcome == "requested"@
            &&& events[0].details == Some(call.arguments)
            &&& forall|i: int|
                0 <= i < events.len() ==> {
                    &&& (#[trigger] events[i]).chat == chat
                    &&& events[i].event.tool_name == Some(call.name)
                    &&& events[i].event.created_at == now
                    &&& events[i].event.id == next_id + i
                }
            &&& events.len() == 2 <==> (call.name != "ask_user"@ && call.name
                != "delegate_readonly"@ && registry.is_gated(call.name) && allowed.contains(
                (chat, call.name),
            ))
            &&& events.len() == 2 ==> events[1].event.event_type == "approval"@
                && events[1].event.outcome == "standing_allow"@
            &&& events.len() <= 2
        }),
{
}

/// What is recorded of a tool's output is its size alone: two outputs of one length leave the same
/// details, and outputs of different lengths, or with another number of images, do not.
pub proof fn law_outputs_stay_out_of_the_audit(
    output: Seq<char>,
    images: nat,
    other: Seq<char>,
    other_images: nat,
)
    ensures
        result_details(output, images) == result_details(other, other_images) <==> output.len()
            == other.len() && images == other_images,
        result_details(output, images).field("output_chars"@) == Some(
            JsonView::Number(decimal(output.len())),
        ),
        result_details(output, images).field("images"@) == Some(JsonView::Number(decimal(images))),
{
    let a = result_details(output, images)->Object_0;
    let b = result_details(other, other_images)->Object_0;
    reveal_strlit("images");
    reveal_strlit("output_chars");
    assert("images"@.len() != "output_chars"@.len());
    assert(a =~= seq![
        ("images"@, JsonView::Number(decimal(images))),
        ("output_chars"@, JsonView::Number(decimal(output.len()))),
    ]);
    assert(b =~= seq![
        ("images"@, JsonView::Number(decimal(other_images))),
        ("output_chars"@, JsonView::Number(decimal(other.len()))),
    ]);
    reveal_with_fuel(crate::json::first_field, 3);
    assert(a.skip(1)[0] == a[1]);
    if result_details(output, images) == result_details(other, other_images) {
        assert(a[0] == b[0] && a[1] == b[1]);
        law_decimals_read_back(images);
        law_decimals_read_back(other_images);
        law_decimals_read_back(output.len());
        law_decimals_read_back(other.len());
    }
}

/// The three ways an approval can end leave three different words.
pub proof fn law_outcomes_are_told_apart(a: ApprovalOutcome, b: ApprovalOutcome)
    ensures
        approval_word(a) == approval_word(b) ==> a == b,
        approval_word(ApprovalOutcome::Deny) == "denied"@,
        approval_word(ApprovalOutcome::AllowOnce) == "allow_once"@,
        approval_word(ApprovalOutcome::AlwaysAllow) == "always_allow"@,
{
    reveal_strlit("allow_once");
    reveal_strlit("always_allow");
    reveal_strlit("denied");
    assert("allow_once"@.len() == 10 && "always_allow"@.len() == 12 && "denied"@.len() == 6);
}

/// Which calls wait for what: a question goes to the user, an investigation to the sub-agent, and a
/// gated tool that was not allowed for this chat is shown first or refused. Every other call runs.
pub proof fn law_other_calls_run(
    registry: ToolRegistry,
    allowed: Set<(i64, Seq<char>)>,
    chat: i64,
    call: CallView,
    value: Result<JsonView, Seq<char>>,
)
    ensures
        ({
            let plan = plan_of(registry, allowed, chat, call, value);
            &&& plan is AskUser <==> call.name == "ask_user"@
            &&& plan is Research <==> call.name == "delegate_readonly"@
            &&& plan is Run <==> call.name != "ask_user"@ && call.name != "delegate_readonly"@ && (
            !registry.is_gated(call.name) || allowed.contains((chat, call.name)))
            &&& plan matches PlanView::Approve(preview) ==> registry.preview_of(call, value)
                == Some(preview)
        }),
{
    reveal_strlit("ask_user");
    reveal_strlit("delegate_readonly");
    assert("ask_user"@.len() != "delegate_readonly"@.len());
}

/// An approval counts for one chat and one tool: a call runs unasked, or does not, whatever else was
/// allowed elsewhere.
pub proof fn law_approvals_stay_in_their_chat(
    registry: ToolRegistry,
    allowed: Set<(i64, Seq<char>)>,
    chat: i64,
    call: CallView,
    value: Result<JsonView, Seq<char>>,
    elsewhere: i64,
    tool: Seq<char>,
)
    requires
        elsewhere != chat || tool != call.name,
    ensures
        plan_of(registry, allowed.insert((elsewhere, tool)), chat, call, value) == plan_of(
            registry,
            allowed,
            chat,
            call,
            value,
        ),
{
}

/// An investigation starts from its task alone: the sub-agent is shown its instructions and, behind
/// them, the task, word for word.
pub proof fn law_investigations_start_from_their_task(task: Seq<char>)
    ensures
        ({
            let research = research_started(task);
            &&& research.messages.len() == 2
            &&& research.messages[0].role == Role::System
            &&& research.messages[0].content == RESEARCH_PROMPT@
            &&& research.messages[1].role == Role::User
            &&& research.messages[1].content == task
            &&& research.rounds == 0
            &&& research.calls.len() == 0
            &&& research.answered == 0
            &&& research.usage.prompt_tokens == 0
            &&& research.usage.completion_tokens == 0
            &&& research.usage.total_tokens == 0
        }),
{
}

/// The task of an investigation is the text that was given, without the blanks around it, and there
/// is one exactly where the text holds more than blanks.
pub proof fn law_tasks_are_taken_as_given(value: JsonView, task: Seq<char>)
    requires
        value is Object,
        value.field("task"@) == Some(JsonView::Text(task)),
    ensures
        trim(task).len() > 0 ==> research_task(Ok(value)) == Ok::<Seq<char>, Seq<char>>(trim(task)),
        trim(task).len() == 0 ==> research_task(Ok(value)) is Err,
{
}

/// A reply in an investigation either calls tools, as long as rounds are left, or is the answer, word
/// for word. What was said stays; the model's own message joins it; and every reply is paid for.
pub proof fn law_investigations_keep_what_was_said(
    research: ResearchView,
    content: Seq<char>,
    calls: Seq<CallView>,
    usage: Usage,
)
    ensures
        research_replied(research, content, calls, usage) is CallTools <==> research.rounds < 6
            && calls.len() > 0,
        research_replied(research, content, calls, usage) is Answered <==> trim(content).len() > 0
            && (research.rounds >= 6 || calls.len() == 0),
        research_replied(research, content, calls, usage) matches ResearchProgressView::CallTools(
            next,
        ) ==> {
            &&& next.messages.len() == research.messages.len() + 1
            &&& next.messages.drop_last() == research.messages
            &&& next.messages.last().role == Role::Assistant
            &&& next.messages.last().content == content
            &&& next.messages.last().tool_calls == calls
            &&& next.calls == calls
            &&& next.answered == 0
            &&& is_sum(
                research.usage.prompt_tokens,
                usage.prompt_tokens,
                next.usage.prompt_tokens,
            )
            &&& is_sum(
                research.usage.completion_tokens,
                usage.completion_tokens,
                next.usage.completion_tokens,
            )
            &&& is_sum(research.usage.total_tokens, usage.total_tokens, next.usage.total_tokens)
        },
        research_replied(research, content, calls, usage) matches ResearchProgressView::Answered {
            answer,
            usage: sum,
        } ==> {
            &&& answer == content
            &&& is_sum(research.usage.prompt_tokens, usage.prompt_tokens, sum.prompt_tokens)
            &&& is_sum(
                research.usage.completion_tokens,
                usage.completion_tokens,
                sum.completion_tokens,
            )
            &&& is_sum(research.usage.total_tokens, usage.total_tokens, sum.total_tokens)
        },
{
    if let ResearchProgressView::CallTools(next) = research_replied(
        research,
        content,
        calls,
        usage,
    ) {
        assert(next.messages.drop_last() =~= research.messages);
    }
}

/// What a tool returned in an investigation answers the call that was next in line, behind all that
/// was said before.
pub proof fn law_investigated_outputs_answer_their_calls(research: ResearchView, output: Seq<char>)
    requires
        0 <= research.answered < research.calls.len(),
    ensures
        ({
            let next = research_answered(research, output);
            &&& next.messages.len() == research.messages.len() + 1
            &&& next.messages.drop_last() == research.messages
            &&& next.messages.last().role == Role::Tool
            &&& next.messages.last().content == output
            &&& next.messages.last().tool_call_id == Some(research.calls[research.answered].id)
            &&& next.answered == research.answered + 1
            &&& next.calls == research.calls
            &&& next.rounds == research.rounds
            &&& next.usage == research.usage
        }),
{
    assert(research_answered(research, output).messages.drop_last() =~= research.messages);
}

/// A turn that failed is told with what kept it from being answered and with the reference under which
/// the log holds the rest; different reasons are told differently.
pub proof fn law_failures_are_told_with_their_reference(
    kind: FailureKind,
    other: FailureKind,
    reference: Seq<char>,
)
    ensures
        occurs_at(failure_report(kind, reference), kind.apology(), 0),
        occurs_at(
            failure_report(kind, reference),
            reference + "."@,
            failure_report(kind, reference).len() - (reference + "."@).len(),
        ),
        occurs_at(
            unsaved_report(reference),
            reference + "."@,
            unsaved_report(reference).len() - (reference + "."@).len(),
        ),
        kind.apology() == other.apology() ==> kind == other,
        kind.word() == other.word() ==> kind == other,
{
    let middle = ". Check the Kumo log for reference "@;
    lemma_starts(kind.apology(), middle + reference + "."@);
    assert(failure_report(kind, reference) =~= kind.apology() + (middle + reference + "."@));
    lemma_ends_in(kind.apology() + middle, reference + "."@);
    assert(failure_report(kind, reference) =~= kind.apology() + middle + (reference + "."@));
    let apology = "That answer was delivered but could not be saved to Kumo's database, so it is not part of the conversation history. Check the Kumo log for reference "@;
    lemma_ends_in(apology, reference + "."@);
    assert(unsaved_report(reference) =~= apology + (reference + "."@));
    reveal_strlit("The model provider could not answer");
    reveal_strlit("A tool failed while answering, so the turn was dropped");
    reveal_strlit("Kumo could not reach its own database, so the turn was dropped");
    reveal_strlit("Kumo could not finish sending a message needed for this turn");
    reveal_strlit("Kumo hit an internal error and could not finish this turn");
    assert("The model provider could not answer"@[0] == 'T');
    assert("A tool failed while answering, so the turn was dropped"@[0] == 'A');
    assert("Kumo could not reach its own database, so the turn was dropped"@[15] == 'r');
    assert("Kumo could not finish sending a message needed for this turn"@[15] == 'f');
    assert("Kumo hit an internal error and could not finish this turn"@[5] == 'h');
    assert("Kumo could not reach its own database, so the turn was dropped"@[5] == 'c');
    assert("Kumo could not finish sending a message needed for this turn"@[5] == 'c');
    assert("Kumo could not reach its own database, so the turn was dropped"@[0] == 'K');
    assert("Kumo could not finish sending a message needed for this turn"@[0] == 'K');
    assert("Kumo hit an internal error and could not finish this turn"@[0] == 'K');
    reveal_strlit("provider");
    reveal_strlit("tool");
    reveal_strlit("storage");
    reveal_strlit("telegram");
    reveal_strlit("internal");
    assert("provider"@[0] == 'p' && "tool"@[1] == 'o' && "storage"@[0] == 's' && "telegram"@[1]
        == 'e' && "internal"@[0] == 'i' && "tool"@[0] == 't' && "telegram"@[0] == 't');
}

/// An event keeps what it is told of: whose it is, when it happened, what happened to which tool, and
/// how it ended; and recording events leaves those that were there as they were.
pub proof fn law_events_keep_what_they_tell(
    before: Database,
    after: Database,
    id: i64,
    now: i64,
    chat: i64,
    kind: Seq<char>,
    tool: Seq<char>,
    details: Option<Seq<char>>,
    outcome: Seq<char>,
)
    ensures
        event(id, now, chat, kind, tool, details, outcome).chat == chat,
        event(id, now, chat, kind, tool, details, outcome).details == details,
        event(id, now, chat, kind, tool, details, outcome).event.id == id,
        event(id, now, chat, kind, tool, details, outcome).event.event_type == kind,
        event(id, now, chat, kind, tool, details, outcome).event.tool_name == Some(tool),
        event(id, now, chat, kind, tool, details, outcome).event.outcome == outcome,
        event(id, now, chat, kind, tool, details, outcome).event.created_at == now,
        recorded(
            before,
            after,
            seq![event(id, now, chat, kind, tool, details, outcome)],
        ) ==> after.audit_rows().len() == before.audit_rows().len() + 1
            && after.audit_rows().drop_last() == before.audit_rows() && after.audit_rows().last()
            == event(id, now, chat, kind, tool, details, outcome),
{
    if recorded(before, after, seq![event(id, now, chat, kind, tool, details, outcome)]) {
        assert(after.audit_rows().drop_last() =~= before.audit_rows());
    }
}

/// What a tool reports as an error, and what the owner refused, counts as failed; an output that
/// starts otherwise does not.
pub proof fn law_errors_and_refusals_count_as_failed(text: Seq<char>)
    ensures
        tells_failure("Error:"@ + text),
        tells_failure("User denied"@ + text),
        tells_failure(told(Err(text))),
        text.len() > 0 && text[0] != 'E' && text[0] != 'U' ==> !tells_failure(text),
        text.len() == 0 ==> !tells_failure(text),
{
    lemma_starts("Error:"@, text);
    lemma_starts("User denied"@, text);
    reveal_strlit("Error:");
    reveal_strlit("Error: ");
    reveal_strlit("User denied");
    let blank: Seq<char> = seq![' '];
    assert("Error: "@ =~= "Error:"@ + blank);
    lemma_starts("Error:"@, blank + text);
    assert(told(Err(text)) =~= "Error:"@ + (blank + text));
    if tells_failure(text) {
        assert(text[0] == text.subrange(0, 6)[0] || text[0] == text.subrange(0, 11)[0]);
    }
}

/// Only an answer that is meant to last lets a tool run unasked, and only that tool in that chat.
pub proof fn law_only_lasting_answers_last(
    allowed: Set<(i64, Seq<char>)>,
    chat: i64,
    tool: Seq<char>,
    other: (i64, Seq<char>),
)
    ensures
        allowed_after(allowed, ApprovalOutcome::AlwaysAllow, chat, tool).contains((chat, tool)),
        other != (chat, tool) ==> allowed_after(
            allowed,
            ApprovalOutcome::AlwaysAllow,
            chat,
            tool,
        ).contains(other) == allowed.contains(other),
        allowed_after(allowed, ApprovalOutcome::AllowOnce, chat, tool) == allowed,
        allowed_after(allowed, ApprovalOutcome::Deny, chat, tool) == allowed,
{
}

} // verus!
