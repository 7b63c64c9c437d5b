//! Rolling conversation compaction. Full messages remain in storage; only the request context is
//! replaced by a summary plus recent messages.
use vstd::prelude::*;
use vstd::string::*;

use crate::provider::{
    text_message, CallView, ImageView, Message, MessageView, Role,
};
use crate::storage::sessions::HistoryView;
use crate::storage::History;
use crate::text::{
    byte_len, clamped, contains, ends_in, in_turn, join, joined, lemma_ends_in, lemma_in_turn,
    lemma_in_turn_contains, lemma_in_turn_within, lemma_join_in_turn, lemma_starts,
    lemma_utf8_len_add, occurs_at, opt_view, seq_view, texts, utf8_len,
};

verus! {

pub const KEEP_RECENT: usize = 6;

pub const DEFAULT_THRESHOLD_BYTES: usize = 49152;

/// What history is always granted, however much of the budget the rest of a request takes.
pub const MIN_MESSAGE_BUDGET: usize = 8192;

pub const SUMMARY_INSTRUCTION: &'static str = "Maintain a concise running summary of this personal assistant conversation. Capture the user's goals, facts and preferences, key decisions, host actions and results, and open threads. Output only the updated summary.";

/// The bytes that a request may take: half the context window at four bytes a token.
pub open spec fn threshold_bytes(context_window: Option<u64>) -> nat {
    match context_window {
        None => DEFAULT_THRESHOLD_BYTES as nat,
        Some(window) => clamped((window as usize * 4) as nat) / 2,
    }
}

pub fn threshold(context_window: Option<u64>) -> (r: usize)
    ensures
        r == threshold_bytes(context_window),
{
    match context_window {
        None => DEFAULT_THRESHOLD_BYTES,
        Some(window) => {
            let window = window as usize;
            let bytes: usize = if window > usize::MAX / 4 {
                usize::MAX
            } else {
                window * 4
            };
            bytes / 2
        },
    }
}

/// What is left of the threshold for history once everything else a request carries is paid for.
pub open spec fn budget_bytes(context_window: Option<u64>, overhead: nat) -> nat {
    let left = threshold_bytes(context_window) - overhead;
    if left < MIN_MESSAGE_BUDGET {
        MIN_MESSAGE_BUDGET as nat
    } else {
        left as nat
    }
}

/// The bytes that history may take, `overhead` being what the system prompt, the memory, the tool
/// schemas and the summary take. Never less than a floor, since folding messages away cannot
/// shrink a tool schema.
pub fn message_budget(context_window: Option<u64>, overhead: usize) -> (r: usize)
    ensures
        r == budget_bytes(context_window, overhead as nat),
{
    let left: usize = threshold(context_window).saturating_sub(overhead);
    if left < MIN_MESSAGE_BUDGET {
        MIN_MESSAGE_BUDGET
    } else {
        left
    }
}

pub open spec fn call_bytes(calls: Seq<CallView>) -> nat
    decreases calls.len(),
{
    if calls.len() == 0 {
        0
    } else {
        call_bytes(calls.drop_last()) + utf8_len(calls.last().arguments)
    }
}

pub open spec fn image_bytes(images: Seq<ImageView>) -> nat
    decreases images.len(),
{
    if images.len() == 0 {
        0
    } else {
        image_bytes(images.drop_last()) + utf8_len(images.last().data)
    }
}

/// What a message costs in a request: its text, the arguments of its tool calls and its images.
pub open spec fn message_bytes(message: MessageView) -> nat {
    utf8_len(message.content) + call_bytes(message.tool_calls) + image_bytes(message.images)
}

pub open spec fn messages_bytes(messages: Seq<MessageView>) -> nat
    decreases messages.len(),
{
    if messages.len() == 0 {
        0
    } else {
        messages_bytes(messages.drop_last()) + message_bytes(messages.last())
    }
}

fn bytes_of(message: &Message) -> (r: usize)
    ensures
        r == clamped(message_bytes(message@)),
{
    let ghost calls = message@.tool_calls;
    let ghost images = message@.images;
    let ghost text = utf8_len(message@.content);
    let mut total: usize = byte_len(message.content.as_str());
    let mut i: usize = 0;
    assert(calls.take(0) =~= seq![]);
    while i < message.tool_calls.len()
        invariant
            i <= message.tool_calls@.len(),
            calls == seq_view(message.tool_calls@),
            total == clamped(text + call_bytes(calls.take(i as int))),
        decreases message.tool_calls@.len() - i,
    {
        total = total.saturating_add(byte_len(message.tool_calls[i].arguments.as_str()));
        i = i + 1;
        assert(calls.take(i as int).drop_last() =~= calls.take(i - 1));
    }
    assert(calls.take(i as int) =~= calls);
    let mut j: usize = 0;
    assert(images.take(0) =~= seq![]);
    while j < message.images.len()
        invariant
            j <= message.images@.len(),
            images == seq_view(message.images@),
            total == clamped(text + call_bytes(calls) + image_bytes(images.take(j as int))),
        decreases message.images@.len() - j,
    {
        total = total.saturating_add(byte_len(message.images[j].data.as_str()));
        j = j + 1;
        assert(images.take(j as int).drop_last() =~= images.take(j - 1));
    }
    assert(images.take(j as int) =~= images);
    total
}

/// What the messages cost in a request, images included.
pub fn total_bytes(messages: &Vec<Message>) -> (r: usize)
    ensures
        r == clamped(messages_bytes(seq_view(messages@))),
{
    let ghost all = seq_view(messages@);
    let mut total: usize = 0;
    let mut i: usize = 0;
    assert(all.take(0) =~= seq![]);
    while i < messages.len()
        invariant
            i <= messages@.len(),
            all == seq_view(messages@),
            total == clamped(messages_bytes(all.take(i as int))),
        decreases messages@.len() - i,
    {
        total = total.saturating_add(bytes_of(&messages[i]));
        i = i + 1;
        assert(all.take(i as int).drop_last() =~= all.take(i - 1));
    }
    assert(all.take(i as int) =~= all);
    total
}

/// The last position not after `at` at which no tool result stands, or the start.
pub open spec fn before_results(messages: Seq<MessageView>, at: int) -> int
    decreases at,
{
    if 0 < at < messages.len() && messages[at].role == Role::Tool {
        before_results(messages, at - 1)
    } else {
        at
    }
}

/// How many of the oldest messages to fold away: all but the recent ones, and without parting a
/// tool result from its request.
pub open spec fn cutoff_of(messages: Seq<MessageView>) -> Option<int> {
    if messages.len() <= KEEP_RECENT {
        None
    } else {
        let at = before_results(messages, messages.len() - KEEP_RECENT);
        if at > 0 {
            Some(at)
        } else {
            None
        }
    }
}

pub fn cutoff(messages: &Vec<Message>) -> (r: Option<usize>)
    ensures
        match r {
            Some(at) => cutoff_of(seq_view(messages@)) == Some(at as int) && 0 < at
                <= messages@.len() - KEEP_RECENT,
            None => cutoff_of(seq_view(messages@)) is None,
        },
{
    let ghost all = seq_view(messages@);
    if messages.len() <= KEEP_RECENT {
        return None;
    }
    let mut at: usize = messages.len() - KEEP_RECENT;
    // A tool result must remain adjacent to its assistant tool request in the provider payload.
    while at > 0 && messages[at].role == Role::Tool
        invariant
            all == seq_view(messages@),
            at <= messages@.len() - KEEP_RECENT,
            messages@.len() > KEEP_RECENT,
            before_results(all, messages@.len() - KEEP_RECENT) == before_results(all, at as int),
        decreases at,
    {
        at = at - 1;
    }
    if at > 0 {
        Some(at)
    } else {
        None
    }
}

/// What is kept of a conversation never starts with a tool result, whose request would have been
/// folded away, and holds at least the recent messages.
pub proof fn law_cutoff_keeps_results_with_requests(messages: Seq<MessageView>)
    ensures
        cutoff_of(messages) is Some ==> {
            let at = cutoff_of(messages)->0;
            &&& 0 < at <= messages.len() - KEEP_RECENT
            &&& messages[at].role != Role::Tool
        },
{
    if messages.len() > KEEP_RECENT {
        lemma_before_results(messages, messages.len() - KEEP_RECENT);
    }
}

proof fn lemma_before_results(messages: Seq<MessageView>, at: int)
    requires
        0 <= at < messages.len(),
    ensures
        0 <= before_results(messages, at) <= at,
        before_results(messages, at) > 0 ==> messages[before_results(messages, at)].role
            != Role::Tool,
        forall|k: int|
            before_results(messages, at) < k <= at ==> (#[trigger] messages[k]).role == Role::Tool,
    decreases at,
{
    if 0 < at && messages[at].role == Role::Tool {
        lemma_before_results(messages, at - 1);
    }
}

pub open spec fn speaker(role: Role) -> Seq<char> {
    match role {
        Role::User => "User"@,
        Role::Assistant => "Assistant"@,
        Role::Tool => "Tool"@,
        Role::System => "System"@,
    }
}

pub open spec fn call_names(calls: Seq<CallView>) -> Seq<Seq<char>> {
    Seq::new(calls.len(), |i: int| calls[i].name)
}

/// A message in a transcript.
pub open spec fn transcript_entry(message: MessageView) -> Seq<char> {
    if message.content.len() == 0 && message.tool_calls.len() > 0 {
        speaker(message.role) + " (called tools: "@ + join(call_names(message.tool_calls), ", "@)
            + ")"@
    } else {
        speaker(message.role) + ": "@ + message.content
    }
}

pub open spec fn transcript_entries(messages: Seq<MessageView>) -> Seq<Seq<char>> {
    Seq::new(messages.len(), |i: int| transcript_entry(messages[i]))
}

fn render_message(message: &Message) -> (r: String)
    ensures
        r@ == transcript_entry(message@),
{
    let mut r = (match message.role {
        Role::User => "User",
        Role::Assistant => "Assistant",
        Role::Tool => "Tool",
        Role::System => "System",
    }).to_owned();
    if message.content.as_str().is_empty() && message.tool_calls.len() > 0 {
        let mut names: Vec<String> = Vec::new();
        let mut i: usize = 0;
        while i < message.tool_calls.len()
            invariant
                i <= message.tool_calls@.len(),
                names@.len() == i,
                forall|k: int|
                    0 <= k < i ==> (#[trigger] names@[k])@ == message.tool_calls@[k].name@,
            decreases message.tool_calls@.len() - i,
        {
            names.push(message.tool_calls[i].name.clone());
            i = i + 1;
        }
        assert(texts(names@) =~= call_names(message@.tool_calls));
        r.push_str(" (called tools: ");
        r.push_str(joined(&names, ", ").as_str());
        r.push_str(")");
    } else {
        r.push_str(": ");
        r.push_str(message.content.as_str());
    }
    r
}

/// A transcript of the messages.
pub open spec fn transcript(messages: Seq<MessageView>) -> Seq<char> {
    join(transcript_entries(messages), "\n\n"@)
}

/// A transcript of the messages from the first up to `count`.
pub fn render_first(messages: &Vec<Message>, count: usize) -> (r: String)
    requires
        count <= messages@.len(),
    ensures
        r@ == transcript(seq_view(messages@).take(count as int)),
{
    let ghost all = seq_view(messages@);
    let mut entries: Vec<String> = Vec::new();
    let mut i: usize = 0;
    while i < count
        invariant
            i <= count <= messages@.len(),
            entries@.len() == i,
            forall|k: int|
                0 <= k < i ==> (#[trigger] entries@[k])@ == transcript_entry(messages@[k]@),
        decreases count - i,
    {
        entries.push(render_message(&messages[i]));
        i = i + 1;
    }
    assert(texts(entries@) =~= transcript_entries(all.take(count as int)));
    joined(&entries, "\n\n")
}

/// A transcript of the messages.
pub fn render(messages: &Vec<Message>) -> (r: String)
    ensures
        r@ == transcript(seq_view(messages@)),
{
    let ghost all = seq_view(messages@);
    assert(all.take(all.len() as int) =~= all);
    render_first(messages, messages.len())
}

/// What is asked of the model to fold a transcript into the running summary.
pub open spec fn summary_request(existing: Option<Seq<char>>, rendered: Seq<char>) -> Seq<
    MessageView,
> {
    seq![
        text_message(Role::System, SUMMARY_INSTRUCTION@),
        text_message(
            Role::User,
            "Prior summary:\n"@ + (match existing {
                Some(summary) => summary,
                None => "(none yet)"@,
            }) + "\n\nNew messages to fold in:\n"@ + rendered,
        ),
    ]
}

pub fn summary_messages(existing: Option<&str>, rendered: &str) -> (r: Vec<Message>)
    ensures
        seq_view(r@) == summary_request(
            match existing {
                Some(summary) => Some(summary@),
                None => None,
            },
            rendered@,
        ),
{
    let mut request = "Prior summary:\n".to_owned();
    match existing {
        Some(summary) => {
            request.push_str(summary);
        },
        None => {
            request.push_str("(none yet)");
        },
    }
    request.push_str("\n\nNew messages to fold in:\n");
    request.push_str(rendered);
    let mut r: Vec<Message> = Vec::new();
    r.push(Message::system(SUMMARY_INSTRUCTION));
    r.push(Message::user(request.as_str()));
    assert(seq_view(r@) =~= summary_request(
        match existing {
            Some(summary) => Some(summary@),
            None => None,
        },
        rendered@,
    ));
    r
}

/// Everything that a request carries besides its messages.
pub open spec fn overhead_bytes(
    system_prompt: Seq<char>,
    memory: Seq<char>,
    schemas: usize,
    summary: Option<Seq<char>>,
) -> nat {
    utf8_len(system_prompt) + utf8_len(memory) + schemas as nat + (match summary {
        Some(text) => utf8_len(text),
        None => 0,
    })
}

/// Everything that a request carries besides its messages: the system prompt, the memory, the tool
/// schemas (which take `schemas` bytes) and the running summary.
pub fn request_overhead(
    system_prompt: &str,
    memory: &str,
    schemas: usize,
    summary: &Option<String>,
) -> (r: usize)
    ensures
        r == clamped(overhead_bytes(system_prompt@, memory@, schemas, opt_view(*summary))),
{
    let mut total: usize = byte_len(system_prompt).saturating_add(byte_len(memory)).saturating_add(
        schemas,
    );
    if let Some(text) = summary {
        total = total.saturating_add(byte_len(text.as_str()));
    }
    total
}

/// How many of the oldest messages have to be folded into the summary before the next request; none
/// as long as the history is within its budget.
pub open spec fn due_cutoff(
    messages: Seq<MessageView>,
    context_window: Option<u64>,
    overhead: nat,
) -> Option<int> {
    if messages_bytes(messages) <= budget_bytes(context_window, overhead) {
        None
    } else {
        cutoff_of(messages)
    }
}

/// How many of the oldest messages have to be folded into the summary before the next request.
pub fn compaction_due(
    messages: &Vec<Message>,
    context_window: Option<u64>,
    overhead: usize,
) -> (r: Option<usize>)
    ensures
        match r {
            Some(at) => due_cutoff(seq_view(messages@), context_window, overhead as nat) == Some(
                at as int,
            ) && 0 < at <= messages@.len(),
            None => due_cutoff(seq_view(messages@), context_window, overhead as nat) is None,
        },
{
    if total_bytes(messages) <= message_budget(context_window, overhead) {
        None
    } else {
        cutoff(messages)
    }
}

/// The history once its first `count` messages are folded into `summary`.
pub open spec fn folded_history(history: HistoryView, summary: Seq<char>, count: int) -> HistoryView {
    HistoryView { messages: history.messages.skip(count), summary: Some(summary) }
}

/// The history once its first `count` messages are folded into `summary`.
pub fn folded(history: History, summary: String, count: usize) -> (r: History)
    requires
        count <= history.messages@.len(),
    ensures
        r@ == folded_history(history@, summary@, count as int),
{
    let mut messages = history.messages;
    let ghost all = messages@;
    let kept = messages.split_off(count);
    assert(seq_view(kept@) =~= seq_view(all).skip(count as int));
    History { messages: kept, summary: Some(summary) }
}

/// A request stays within the threshold, history and everything else that it carries together,
/// except that history is never squeezed below its floor.
pub proof fn law_history_gets_what_is_left(context_window: Option<u64>, overhead: nat)
    ensures
        budget_bytes(context_window, overhead) >= MIN_MESSAGE_BUDGET,
        budget_bytes(context_window, overhead) > MIN_MESSAGE_BUDGET ==> budget_bytes(
            context_window,
            overhead,
        ) + overhead == threshold_bytes(context_window),
{
}

/// The summary rolls: the summarizer is shown the existing summary and, behind it, the transcript,
/// each word for word, so that nothing of either is lost and different ones make different requests.
pub proof fn law_the_summary_rolls(
    existing: Seq<char>,
    rendered: Seq<char>,
    other: Seq<char>,
    other_rendered: Seq<char>,
)
    ensures
        summary_request(Some(existing), rendered).len() == 2,
        summary_request(Some(existing), rendered)[0].role == Role::System,
        summary_request(Some(existing), rendered)[0].content == SUMMARY_INSTRUCTION@,
        summary_request(Some(existing), rendered)[1].role == Role::User,
        summary_request(Some(existing), rendered)[1].images.len() == 0,
        in_turn(
            summary_request(Some(existing), rendered)[1].content,
            seq!["Prior summary:"@, existing, "New messages to fold in:"@, rendered],
        ),
        ends_in(summary_request(Some(existing), rendered)[1].content, rendered),
        existing != other ==> summary_request(Some(existing), rendered) != summary_request(
            Some(other),
            rendered,
        ),
        rendered != other_rendered ==> summary_request(Some(existing), rendered)
            != summary_request(Some(existing), other_rendered),
{
    lemma_summary_request(existing, rendered);
    let before = "Prior summary:\n"@;
    let between = "\n\nNew messages to fold in:\n"@;
    let a = summary_request(Some(existing), rendered)[1].content;
    let b = summary_request(Some(other), rendered)[1].content;
    let c = summary_request(Some(existing), other_rendered)[1].content;
    if a == b {
        assert(a.len() == before.len() + existing.len() + between.len() + rendered.len());
        assert(b.len() == before.len() + other.len() + between.len() + rendered.len());
        assert(existing =~= a.subrange(before.len() as int, (before.len() + existing.len()) as int));
        assert(other =~= b.subrange(before.len() as int, (before.len() + other.len()) as int));
    }
    if a == c {
        let at = (before + existing + between).len() as int;
        assert(rendered =~= a.skip(at));
        assert(other_rendered =~= c.skip(at));
    }
    if existing != other {
        assert(summary_request(Some(existing), rendered)[1] != summary_request(
            Some(other),
            rendered,
        )[1]);
    }
    if rendered != other_rendered {
        assert(summary_request(Some(existing), rendered)[1] != summary_request(
            Some(existing),
            other_rendered,
        )[1]);
    }
}

proof fn lemma_summary_request(existing: Seq<char>, rendered: Seq<char>)
    ensures
        in_turn(
            summary_request(Some(existing), rendered)[1].content,
            seq!["Prior summary:"@, existing, "New messages to fold in:"@, rendered],
        ),
        ends_in(summary_request(Some(existing), rendered)[1].content, rendered),
{
    let none: Seq<Seq<char>> = seq![];
    let empty: Seq<char> = seq![];
    let line: Seq<char> = seq!['\n'];
    let content = summary_request(Some(existing), rendered)[1].content;
    reveal_strlit("Prior summary:\n");
    reveal_strlit("Prior summary:");
    reveal_strlit("\n\nNew messages to fold in:\n");
    reveal_strlit("New messages to fold in:");
    assert("Prior summary:\n"@ =~= "Prior summary:"@ + line);
    assert("\n\nNew messages to fold in:\n"@ =~= line + line + "New messages to fold in:"@ + line);
    lemma_in_turn(line, rendered, empty, none);
    lemma_in_turn(
        line + line,
        "New messages to fold in:"@,
        line + rendered + empty,
        seq![rendered] + none,
    );
    let third = line + line + "New messages to fold in:"@ + (line + rendered + empty);
    let parts = seq!["New messages to fold in:"@] + (seq![rendered] + none);
    lemma_in_turn(line, existing, third, parts);
    lemma_in_turn(empty, "Prior summary:"@, line + existing + third, seq![existing] + parts);
    assert(content =~= empty + "Prior summary:"@ + (line + existing + third));
    assert(seq!["Prior summary:"@] + (seq![existing] + parts) =~= seq![
        "Prior summary:"@,
        existing,
        "New messages to fold in:"@,
        rendered,
    ]);
    let head = "Prior summary:\n"@ + existing + "\n\nNew messages to fold in:\n"@;
    lemma_ends_in(head, rendered);
    assert(content =~= head + rendered);
}

/// Nothing is made up where there is no summary yet: the summarizer is told so, and is shown the
/// transcript all the same.
pub proof fn law_the_first_summary_starts_from_the_transcript(rendered: Seq<char>)
    ensures
        summary_request(None, rendered).len() == 2,
        summary_request(None, rendered) == summary_request(Some("(none yet)"@), rendered),
        ends_in(summary_request(None, rendered)[1].content, rendered),
{
    let content = summary_request(None, rendered)[1].content;
    let head = "Prior summary:\n"@ + "(none yet)"@ + "\n\nNew messages to fold in:\n"@;
    lemma_ends_in(head, rendered);
    assert(content =~= head + rendered);
}

/// What a message weighs grows with everything in it: with more text, with another call's arguments
/// and with another image, by just what was added.
pub proof fn law_messages_weigh_what_they_hold(
    message: MessageView,
    more: Seq<char>,
    call: CallView,
    image: ImageView,
)
    ensures
        message_bytes((MessageView { content: message.content + more, ..message })) == message_bytes(
            message,
        ) + utf8_len(more),
        message_bytes((MessageView { tool_calls: message.tool_calls.push(call), ..message }))
            == message_bytes(message) + utf8_len(call.arguments),
        message_bytes((MessageView { images: message.images.push(image), ..message }))
            == message_bytes(message) + utf8_len(image.data),
        message.content.len() == 0 && message.tool_calls.len() == 0 && message.images.len() == 0
            ==> message_bytes(message) == 0,
{
    lemma_utf8_len_add(message.content, more);
    assert(message.tool_calls.push(call).drop_last() =~= message.tool_calls);
    assert(message.images.push(image).drop_last() =~= message.images);
}

/// A conversation weighs what its messages weigh together.
pub proof fn law_histories_weigh_what_their_messages_weigh(
    messages: Seq<MessageView>,
    message: MessageView,
    more: Seq<MessageView>,
)
    ensures
        messages_bytes(Seq::empty()) == 0,
        messages_bytes(messages.push(message)) == messages_bytes(messages) + message_bytes(message),
        messages_bytes(messages + more) == messages_bytes(messages) + messages_bytes(more),
    decreases more.len(),
{
    assert(messages.push(message).drop_last() =~= messages);
    if more.len() == 0 {
        assert(messages + more =~= messages);
    } else {
        law_histories_weigh_what_their_messages_weigh(messages, message, more.drop_last());
        assert((messages + more).drop_last() =~= messages + more.drop_last());
    }
}

/// A conversation is folded exactly when it weighs more than its budget and there is something to
/// fold; what is folded is a proper part from the front, and at least the most recent messages
/// stay. The message at the cut is not a tool's result.
pub proof fn law_only_heavy_histories_are_folded(
    messages: Seq<MessageView>,
    context_window: Option<u64>,
    overhead: nat,
)
    ensures
        due_cutoff(messages, context_window, overhead) is Some ==> messages_bytes(messages)
            > budget_bytes(context_window, overhead),
        due_cutoff(messages, context_window, overhead) matches Some(at) ==> {
            &&& 0 < at
            &&& at + 6 <= messages.len()
            &&& messages[at].role != Role::Tool
            &&& forall|k: int|
                at < k <= messages.len() - 6 ==> (#[trigger] messages[k]).role == Role::Tool
        },
        messages_bytes(messages) > budget_bytes(context_window, overhead) && messages.len() > 6
            && due_cutoff(messages, context_window, overhead) is None ==> forall|k: int|
            0 < k <= messages.len() - 6 ==> (#[trigger] messages[k]).role == Role::Tool,
{
    if messages.len() > 6 {
        lemma_before_results(messages, messages.len() - 6);
    }
}

/// Half of the model's window, at four bytes a token, is for the conversation and all that goes with
/// it; where the window is not known a fixed size is taken.
pub proof fn law_half_the_window_is_used(window: u64)
    requires
        window as int * 4 <= usize::MAX,
    ensures
        threshold_bytes(Some(window)) == 2 * window,
        threshold_bytes(None) == 49152,
{
}

/// Everything that is sent beside the messages counts against the budget.
pub proof fn law_everything_sent_counts(
    system_prompt: Seq<char>,
    memory: Seq<char>,
    schemas: usize,
    summary: Seq<char>,
)
    ensures
        overhead_bytes(system_prompt, memory, schemas, Some(summary)) == overhead_bytes(
            system_prompt,
            memory,
            schemas,
            None,
        ) + utf8_len(summary),
        overhead_bytes(system_prompt, memory, schemas, None) == utf8_len(system_prompt) + utf8_len(
            memory,
        ) + schemas,
{
}

/// The transcript tells every message: who spoke, and what was said or, where nothing was said,
/// which tools were called, one entry for each message and in their order.
pub proof fn law_the_transcript_tells_every_message(messages: Seq<MessageView>, i: int)
    requires
        0 <= i < messages.len(),
    ensures
        transcript_entries(messages).len() == messages.len(),
        in_turn(transcript(messages), transcript_entries(messages)),
        occurs_at(transcript_entries(messages)[i], speaker(messages[i].role), 0),
        messages[i].content.len() > 0 || messages[i].tool_calls.len() == 0 ==> ends_in(
            transcript_entries(messages)[i],
            messages[i].content,
        ),
        messages[i].content.len() == 0 ==> forall|k: int|
            0 <= k < messages[i].tool_calls.len() ==> contains(
                transcript_entries(messages)[i],
                (#[trigger] messages[i].tool_calls[k]).name,
            ),
{
    lemma_join_in_turn(transcript_entries(messages), "\n\n"@);
    let message = messages[i];
    let entry = transcript_entries(messages)[i];
    assert(entry == transcript_entry(message));
    let who = speaker(message.role);
    if message.content.len() > 0 || message.tool_calls.len() == 0 {
        lemma_starts(who, ": "@ + message.content);
        assert(entry =~= who + (": "@ + message.content));
        lemma_ends_in(who + ": "@, message.content);
    } else {
        let names = call_names(message.tool_calls);
        lemma_starts(who, " (called tools: "@ + join(names, ", "@) + ")"@);
        assert(entry =~= who + (" (called tools: "@ + join(names, ", "@) + ")"@));
        lemma_join_in_turn(names, ", "@);
        lemma_in_turn_within(who + " (called tools: "@, join(names, ", "@), ")"@, names);
        assert forall|k: int| 0 <= k < message.tool_calls.len() implies contains(
            entry,
            (#[trigger] message.tool_calls[k]).name,
        ) by {
            lemma_in_turn_contains(entry, names, k);
        }
    }
}

/// Folding takes exactly the oldest messages away: what is left are the other messages in their
/// order, under the new summary.
pub proof fn law_folding_takes_the_oldest(history: HistoryView, summary: Seq<char>, count: int)
    requires
        0 <= count <= history.messages.len(),
    ensures
        history.messages.take(count) + folded_history(history, summary, count).messages
            == history.messages,
        folded_history(history, summary, count).summary == Some(summary),
{
    assert(history.messages.take(count) + folded_history(history, summary, count).messages
        =~= history.messages);
}

/// The four kinds of message are told apart in the transcript.
pub proof fn law_speakers_are_told_apart(a: Role, b: Role)
    ensures
        speaker(a) == speaker(b) ==> a == b,
{
    reveal_strlit("User");
    reveal_strlit("Assistant");
    reveal_strlit("Tool");
    reveal_strlit("System");
    assert("User"@[0] == 'U' && "Assistant"@[0] == 'A' && "Tool"@[0] == 'T' && "System"@[0] == 'S');
}

} // verus!
