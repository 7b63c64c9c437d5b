//! Conversations: their messages, what they cost, their running summaries, and which one each
//! chat is in.
use vstd::prelude::*;
use vstd::string::*;

use crate::chat_table::without_value;
use crate::order::{
    as_ints, keys_as_ints, lemma_order_of_rows, lemma_positions, lemma_rows_at_positions,
    law_listings_hold_what_they_should, law_sole_is_unambiguous, order,
    positions, rows_at, sole, sorted_by,
};
use crate::provider::{clone_calls, Message, MessageView, Role, Usage};
use crate::clock::unix_now;
use crate::storage::{
    as_count, count_of, has_prefix, id_has_prefix, new_id, Conversations, Database,
    StorageError,
};
use crate::text::{clone_text, occurs_at, opt_view, same, seq_view, take_chars, to_chars};

verus! {

/// The title of a session until its first turn names it.
pub const NEW_TITLE: &'static str = "New chat";

/// A stored session.
#[derive(Debug)]
pub struct SessionRow {
    pub id: String,
    pub telegram_chat_id: i64,
    pub title: String,
    pub updated_at: i64,
    pub summary: Option<String>,
    /// The number of the last message that the summary covers.
    pub summarized_message_id: i64,
}

/// A stored message. Images are never stored.
#[derive(Debug)]
pub struct MessageRow {
    pub id: i64,
    pub session_id: String,
    pub message: Message,
}

/// What one turn of a session cost.
#[derive(Debug)]
pub struct UsageRow {
    pub session_id: String,
    pub model: String,
    pub prompt_tokens: i64,
    pub completion_tokens: i64,
    pub total_tokens: i64,
    pub finish_reason: String,
}

#[derive(Debug)]
pub struct ActiveSession {
    pub id: String,
    pub title: String,
    pub message_count: i64,
    pub request_count: i64,
    pub total_tokens: i64,
    pub summary: Option<String>,
    pub summarized_message_id: i64,
}

#[derive(Debug)]
pub struct History {
    pub messages: Vec<Message>,
    pub summary: Option<String>,
}

#[derive(Debug)]
pub struct SessionSummary {
    pub id: String,
    pub title: String,
    pub message_count: i64,
    pub updated_at: i64,
}

#[verifier::ext_equal]
pub struct SessionView {
    pub id: Seq<char>,
    pub chat: i64,
    pub title: Seq<char>,
    pub updated_at: i64,
    pub summary: Option<Seq<char>>,
    pub summarized: i64,
}

#[verifier::ext_equal]
pub struct StoredView {
    pub id: i64,
    pub session: Seq<char>,
    pub message: MessageView,
}

#[verifier::ext_equal]
pub struct UsageView {
    pub session: Seq<char>,
    pub model: Seq<char>,
    pub prompt_tokens: i64,
    pub completion_tokens: i64,
    pub total_tokens: i64,
    pub finish_reason: Seq<char>,
}

#[verifier::ext_equal]
pub struct ActiveView {
    pub id: Seq<char>,
    pub title: Seq<char>,
    pub message_count: i64,
    pub request_count: i64,
    pub total_tokens: i64,
    pub summary: Option<Seq<char>>,
    pub summarized: i64,
}

#[verifier::ext_equal]
pub struct HistoryView {
    pub messages: Seq<MessageView>,
    pub summary: Option<Seq<char>>,
}

#[verifier::ext_equal]
pub struct SummaryView {
    pub id: Seq<char>,
    pub title: Seq<char>,
    pub message_count: i64,
    pub updated_at: i64,
}

/// All that is stored of conversations.
#[verifier::ext_equal]
pub struct ConversationsView {
    pub sessions: Seq<SessionView>,
    pub messages: Seq<StoredView>,
    pub usage: Seq<UsageView>,
    pub active: Map<i64, Seq<char>>,
    pub next_message_id: i64,
}

impl View for SessionRow {
    type V = SessionView;

    open spec fn view(&self) -> SessionView {
        SessionView {
            id: self.id@,
            chat: self.telegram_chat_id,
            title: self.title@,
            updated_at: self.updated_at,
            summary: opt_view(self.summary),
            summarized: self.summarized_message_id,
        }
    }
}

impl View for MessageRow {
    type V = StoredView;

    open spec fn view(&self) -> StoredView {
        StoredView { id: self.id, session: self.session_id@, message: self.message@ }
    }
}

impl View for UsageRow {
    type V = UsageView;

    open spec fn view(&self) -> UsageView {
        UsageView {
            session: self.session_id@,
            model: self.model@,
            prompt_tokens: self.prompt_tokens,
            completion_tokens: self.completion_tokens,
            total_tokens: self.total_tokens,
            finish_reason: self.finish_reason@,
        }
    }
}

impl View for ActiveSession {
    type V = ActiveView;

    open spec fn view(&self) -> ActiveView {
        ActiveView {
            id: self.id@,
            title: self.title@,
            message_count: self.message_count,
            request_count: self.request_count,
            total_tokens: self.total_tokens,
            summary: opt_view(self.summary),
            summarized: self.summarized_message_id,
        }
    }
}

impl View for History {
    type V = HistoryView;

    open spec fn view(&self) -> HistoryView {
        HistoryView { messages: seq_view(self.messages@), summary: opt_view(self.summary) }
    }
}

impl View for SessionSummary {
    type V = SummaryView;

    open spec fn view(&self) -> SummaryView {
        SummaryView {
            id: self.id@,
            title: self.title@,
            message_count: self.message_count,
            updated_at: self.updated_at,
        }
    }
}

impl View for Conversations {
    type V = ConversationsView;

    open spec fn view(&self) -> ConversationsView {
        ConversationsView {
            sessions: seq_view(self.sessions@),
            messages: seq_view(self.messages@),
            usage: seq_view(self.usage@),
            active: self.active@,
            next_message_id: self.next_message_id,
        }
    }
}

pub open spec fn has_session(sessions: Seq<SessionView>, id: Seq<char>) -> bool {
    exists|i: int| 0 <= i < sessions.len() && (#[trigger] sessions[i]).id == id
}

/// Session ids are unique; message numbers ascend and stay below the next one; messages, usage and
/// active sessions belong to sessions that are stored; no message carries images.
pub open spec fn valid(c: ConversationsView) -> bool {
    &&& 1 <= c.next_message_id
    &&& forall|i: int, j: int|
        0 <= i < j < c.sessions.len() ==> (#[trigger] c.sessions[i]).id != (
        #[trigger] c.sessions[j]).id
    &&& forall|i: int|
        0 <= i < c.sessions.len() ==> 0 <= (#[trigger] c.sessions[i]).summarized < c.next_message_id
    &&& forall|i: int| 0 <= i < c.messages.len() ==> message_valid(c, #[trigger] c.messages[i])
    &&& forall|i: int, j: int|
        0 <= i < j < c.messages.len() ==> (#[trigger] c.messages[i]).id < (
        #[trigger] c.messages[j]).id
    &&& forall|i: int| 0 <= i < c.usage.len() ==> usage_valid(c, #[trigger] c.usage[i])
    &&& forall|chat: i64| #[trigger]
        c.active.contains_key(chat) ==> has_session(c.sessions, c.active[chat])
}

pub open spec fn message_valid(c: ConversationsView, row: StoredView) -> bool {
    &&& 1 <= row.id < c.next_message_id
    &&& has_session(c.sessions, row.session)
    &&& row.message.images.len() == 0
}

pub open spec fn usage_valid(c: ConversationsView, row: UsageView) -> bool {
    &&& has_session(c.sessions, row.session)
    &&& 0 <= row.prompt_tokens
    &&& 0 <= row.completion_tokens
    &&& 0 <= row.total_tokens
}

pub open spec fn conversations_wf(c: Conversations) -> bool {
    c.active.wf() && valid(c@)
}

/// The session with the given id.
pub open spec fn session_of(c: ConversationsView, id: Seq<char>) -> SessionView {
    c.sessions[choose|i: int| 0 <= i < c.sessions.len() && (#[trigger] c.sessions[i]).id == id]
}

/// A message of the session.
pub open spec fn in_session(id: Seq<char>) -> spec_fn(StoredView) -> bool {
    |row: StoredView| row.session == id
}

/// A message of the session that its summary does not cover.
pub open spec fn unsummarized(id: Seq<char>, summarized: i64) -> spec_fn(StoredView) -> bool {
    |row: StoredView| row.session == id && row.id > summarized
}

pub open spec fn message_of() -> spec_fn(StoredView) -> MessageView {
    |row: StoredView| row.message
}

/// What the chat's conversation still holds besides its summary.
pub open spec fn history_of(c: ConversationsView, chat: i64) -> HistoryView {
    if c.active.contains_key(chat) {
        let session = session_of(c, c.active[chat]);
        HistoryView {
            messages: c.messages.filter(unsummarized(session.id, session.summarized)).map_values(
                message_of(),
            ),
            summary: session.summary,
        }
    } else {
        HistoryView { messages: seq![], summary: None }
    }
}

/// A message as it is stored: without its images.
pub open spec fn stripped(message: MessageView) -> MessageView {
    MessageView { images: seq![], ..message }
}

pub open spec fn stored(session: Seq<char>, first: int, messages: Seq<MessageView>) -> Seq<
    StoredView,
> {
    Seq::new(
        messages.len(),
        |i: int| StoredView { id: (first + i) as i64, session, message: stripped(messages[i]) },
    )
}

/// What a session is called: the start of its first prompt.
pub open spec fn title_of(content: Seq<char>) -> Seq<char> {
    if content.len() > 40 {
        content.take(40) + "..."@
    } else {
        content
    }
}

/// The first user message's text, or nothing.
pub open spec fn first_prompt(messages: Seq<MessageView>) -> Seq<char>
    decreases messages.len(),
{
    if messages.len() == 0 {
        seq![]
    } else if messages[0].role == Role::User {
        messages[0].content
    } else {
        first_prompt(messages.skip(1))
    }
}

pub open spec fn new_session(id: Seq<char>, chat: i64, now: i64) -> SessionView {
    SessionView { id, chat, title: NEW_TITLE@, updated_at: now, summary: None, summarized: 0 }
}

/// A session after a turn of it.
pub open spec fn touched(session: SessionView, id: Seq<char>, prompt: Seq<char>, now: i64) -> SessionView {
    if session.id == id {
        SessionView {
            title: if session.title == NEW_TITLE@ {
                title_of(prompt)
            } else {
                session.title
            },
            updated_at: now,
            ..session
        }
    } else {
        session
    }
}

/// The session that a turn of the chat belongs to: the one it is in, or else a fresh one.
pub open spec fn turn_session(c: ConversationsView, chat: i64, fresh: Seq<char>) -> Seq<char> {
    if c.active.contains_key(chat) {
        c.active[chat]
    } else {
        fresh
    }
}

/// What is stored after a turn.
pub open spec fn turn_saved(
    c: ConversationsView,
    chat: i64,
    id: Seq<char>,
    model: Seq<char>,
    messages: Seq<MessageView>,
    usage: Usage,
    finish_reason: Seq<char>,
    now: i64,
) -> ConversationsView {
    let sessions = if has_session(c.sessions, id) {
        c.sessions
    } else {
        c.sessions.push(new_session(id, chat, now))
    };
    ConversationsView {
        sessions: sessions.map_values(
            |session: SessionView| touched(session, id, first_prompt(messages), now),
        ),
        messages: c.messages + stored(id, c.next_message_id as int, messages),
        usage: c.usage.push(
            UsageView {
                session: id,
                model,
                prompt_tokens: usage.prompt_tokens as i64,
                completion_tokens: usage.completion_tokens as i64,
                total_tokens: usage.total_tokens as i64,
                finish_reason,
            },
        ),
        active: c.active.insert(chat, id),
        next_message_id: (c.next_message_id + messages.len()) as i64,
    }
}

/// The conversations once a chat has left its session.
pub open spec fn left(c: ConversationsView, chat: i64) -> ConversationsView {
    ConversationsView { active: c.active.remove(chat), ..c }
}

/// The conversations once a chat has gone into a session.
pub open spec fn resumed(c: ConversationsView, chat: i64, id: Seq<char>) -> ConversationsView {
    ConversationsView { active: c.active.insert(chat, id), ..c }
}

/// Whether the token counts can be stored.
pub open spec fn usage_fits(usage: Usage) -> bool {
    &&& usage.prompt_tokens <= i64::MAX
    &&& usage.completion_tokens <= i64::MAX
    &&& usage.total_tokens <= i64::MAX
}

/// The tokens that the turns of a session took.
pub open spec fn tokens_of(usage: Seq<UsageView>, id: Seq<char>) -> int
    decreases usage.len(),
{
    if usage.len() == 0 {
        0
    } else {
        tokens_of(usage.drop_last(), id) + if usage.last().session == id {
            usage.last().total_tokens as int
        } else {
            0
        }
    }
}

pub open spec fn usage_in(id: Seq<char>) -> spec_fn(UsageView) -> bool {
    |row: UsageView| row.session == id
}

pub open spec fn messages_in(c: ConversationsView, id: Seq<char>) -> nat {
    c.messages.filter(in_session(id)).len()
}

/// What is shown of the session that a chat is in.
pub open spec fn active_view(c: ConversationsView, id: Seq<char>) -> ActiveView {
    let session = session_of(c, id);
    ActiveView {
        id,
        title: session.title,
        message_count: count_of(messages_in(c, id)),
        request_count: count_of(c.usage.filter(usage_in(id)).len()),
        total_tokens: tokens_of(c.usage, id) as i64,
        summary: session.summary,
        summarized: session.summarized,
    }
}

/// A session of the chat that holds messages.
pub open spec fn listed_in(c: ConversationsView, chat: i64) -> spec_fn(SessionView) -> bool {
    |session: SessionView| session.chat == chat && messages_in(c, session.id) > 0
}

pub open spec fn update_time() -> spec_fn(SessionView) -> int {
    |session: SessionView| session.updated_at as int
}

pub open spec fn summary_view(c: ConversationsView, session: SessionView) -> SummaryView {
    SummaryView {
        id: session.id,
        title: session.title,
        message_count: count_of(messages_in(c, session.id)),
        updated_at: session.updated_at,
    }
}

/// The chat's sessions, the one updated last first; of two updated at once, the newer one first.
pub open spec fn session_list(c: ConversationsView, chat: i64) -> Seq<SummaryView> {
    let sessions = sorted_by(c.sessions.filter(listed_in(c, chat)), update_time()).reverse();
    Seq::new(sessions.len(), |i: int| summary_view(c, sessions[i]))
}

/// A session of the chat whose id starts with `prefix`.
pub open spec fn session_named(chat: i64, prefix: Seq<char>) -> spec_fn(SessionView) -> bool {
    |session: SessionView| session.chat == chat && has_prefix(session.id, prefix)
}

/// What is stored once a session is deleted with everything that belongs to it.
pub open spec fn session_deleted(c: ConversationsView, id: Seq<char>) -> ConversationsView {
    ConversationsView {
        sessions: c.sessions.filter(|session: SessionView| session.id != id),
        messages: c.messages.filter(|row: StoredView| row.session != id),
        usage: c.usage.filter(|row: UsageView| row.session != id),
        active: without_value(c.active, id),
        next_message_id: c.next_message_id,
    }
}

/// What is stored once the first `count` messages of the chat's history are folded into a summary.
pub open spec fn compacted(c: ConversationsView, chat: i64, summary: Seq<char>, count: int) -> ConversationsView {
    let session = session_of(c, c.active[chat]);
    let open = c.messages.filter(unsummarized(session.id, session.summarized));
    ConversationsView {
        sessions: c.sessions.map_values(
            |other: SessionView|
                if other.id == session.id {
                    SessionView {
                        summary: Some(summary),
                        summarized: open[count - 1].id,
                        ..other
                    }
                } else {
                    other
                },
        ),
        ..c
    }
}

proof fn lemma_session_of(c: ConversationsView, i: int)
    requires
        valid(c),
        0 <= i < c.sessions.len(),
    ensures
        session_of(c, c.sessions[i].id) == c.sessions[i],
{
    let id = c.sessions[i].id;
    let k = choose|k: int| 0 <= k < c.sessions.len() && (#[trigger] c.sessions[k]).id == id;
    assert(k == i);
}

/// The title of a session that started with `content`.
pub fn make_title(content: &str) -> (r: String)
    ensures
        r@ == title_of(content@),
{
    let mut title = take_chars(content, 40);
    if to_chars(content).len() > 40 {
        title.push_str("...");
    }
    title
}

/// A token count as it is stored.
pub fn to_i64(value: u64) -> (r: Result<i64, StorageError>)
    ensures
        match r {
            Ok(n) => value <= i64::MAX && n == value,
            Err(error) => value > i64::MAX && error == StorageError::TokenCount,
        },
{
    if value <= 9223372036854775807u64 {
        Ok(value as i64)
    } else {
        Err(StorageError::TokenCount)
    }
}

impl Conversations {
    fn session_position(&self, id: &str) -> (r: Option<usize>)
        requires
            valid(self@),
        ensures
            match r {
                Some(i) => i < self.sessions@.len() && self.sessions@[i as int].id@ == id@
                    && has_session(self@.sessions, id@) && session_of(self@, id@)
                    == self.sessions@[i as int]@,
                None => !has_session(self@.sessions, id@),
            },
    {
        let mut i: usize = 0;
        while i < self.sessions.len()
            invariant
                i <= self.sessions@.len(),
                valid(self@),
                forall|k: int| 0 <= k < i ==> (#[trigger] self@.sessions[k]).id != id@,
            decreases self.sessions@.len() - i,
        {
            if same(self.sessions[i].id.as_str(), id) {
                proof {
                    assert(self@.sessions[i as int].id == id@);
                    lemma_session_of(self@, i as int);
                }
                return Some(i);
            }
            i = i + 1;
        }
        None
    }

    /// How many messages the session holds.
    fn count_messages(&self, id: &str) -> (r: usize)
        ensures
            r == messages_in(self@, id@),
    {
        let ghost rows = self@.messages;
        let ghost meets = in_session(id@);
        let mut count: usize = 0;
        let mut i: usize = 0;
        proof {
            reveal(Seq::filter);
            assert(rows.take(0) =~= seq![]);
        }
        while i < self.messages.len()
            invariant
                i <= self.messages@.len(),
                rows == seq_view(self.messages@),
                meets == in_session(id@),
                count <= i,
                count == rows.take(i as int).filter(meets).len(),
            decreases self.messages@.len() - i,
        {
            proof {
                reveal(Seq::filter);
                assert(rows.take(i + 1).drop_last() =~= rows.take(i as int));
                assert(rows.take(i + 1).last() == self.messages@[i as int]@);
            }
            if same(self.messages[i].session_id.as_str(), id) {
                count = count + 1;
            }
            i = i + 1;
        }
        assert(rows.take(i as int) =~= rows);
        count
    }

    /// How many sessions hold messages.
    pub(crate) fn count_used_sessions(&self) -> (r: usize)
        ensures
            r == self@.sessions.filter(crate::storage::holds_messages(self@)).len(),
    {
        let ghost rows = self@.sessions;
        let ghost meets = crate::storage::holds_messages(self@);
        let mut count: usize = 0;
        let mut i: usize = 0;
        proof {
            reveal(Seq::filter);
            assert(rows.take(0) =~= seq![]);
        }
        while i < self.sessions.len()
            invariant
                i <= self.sessions@.len(),
                rows == seq_view(self.sessions@),
                meets == crate::storage::holds_messages(self@),
                count <= i,
                count == rows.take(i as int).filter(meets).len(),
            decreases self.sessions@.len() - i,
        {
            proof {
                reveal(Seq::filter);
                assert(rows.take(i + 1).drop_last() =~= rows.take(i as int));
                assert(rows.take(i + 1).last() == self.sessions@[i as int]@);
            }
            if self.count_messages(self.sessions[i].id.as_str()) > 0 {
                count = count + 1;
            }
            i = i + 1;
        }
        assert(rows.take(i as int) =~= rows);
        count
    }

    /// The messages of the session numbered above `summarized`, as positions.
    fn open_messages(&self, id: &str, summarized: i64) -> (at: Vec<usize>)
        ensures
            forall|i: int| 0 <= i < at@.len() ==> #[trigger] at@[i] < self.messages@.len(),
            rows_at(self@.messages, as_ints(at@)) == self@.messages.filter(
                unsummarized(id@, summarized),
            ),
    {
        let ghost rows = self@.messages;
        let ghost meets = unsummarized(id@, summarized);
        let mut at: Vec<usize> = Vec::new();
        let mut i: usize = 0;
        assert(as_ints(at@) =~= positions(rows.take(0), meets));
        while i < self.messages.len()
            invariant
                i <= self.messages@.len(),
                rows == seq_view(self.messages@),
                meets == unsummarized(id@, summarized),
                as_ints(at@) == positions(rows.take(i as int), meets),
            decreases self.messages@.len() - i,
        {
            let ghost earlier = at@;
            assert(rows.take(i + 1).drop_last() =~= rows.take(i as int));
            assert(rows.take(i + 1).last() == self.messages@[i as int]@);
            if same(self.messages[i].session_id.as_str(), id) && self.messages[i].id > summarized {
                at.push(i);
                assert(as_ints(at@) =~= as_ints(earlier).push(i as int));
            }
            i = i + 1;
        }
        assert(rows.take(i as int) =~= rows);
        proof {
            lemma_positions(rows, meets);
            lemma_rows_at_positions(rows, meets);
            assert forall|k: int| 0 <= k < at@.len() implies #[trigger] at@[k] < rows.len() by {
                assert(as_ints(at@)[k] == at@[k]);
            }
        }
        at
    }

    /// Stores the messages of a turn.
    fn store_messages(&mut self, id: &str, messages: &Vec<Message>)
        requires
            valid(old(self)@),
            old(self).next_message_id + messages@.len() <= i64::MAX,
        ensures
            final(self)@ == (ConversationsView {
                messages: old(self)@.messages + stored(
                    id@,
                    old(self).next_message_id as int,
                    seq_view(messages@),
                ),
                next_message_id: (old(self).next_message_id + messages@.len()) as i64,
                ..old(self)@
            }),
            final(self).active == old(self).active,
    {
        let ghost before = self@;
        let ghost all = seq_view(messages@);
        let ghost goal = stored(id@, self.next_message_id as int, all);
        let mut i: usize = 0;
        assert(before.messages + goal.take(0) =~= before.messages);
        while i < messages.len()
            invariant
                i <= messages@.len(),
                before == old(self)@,
                all == seq_view(messages@),
                goal == stored(id@, before.next_message_id as int, all),
                before.next_message_id + messages@.len() <= i64::MAX,
                self.next_message_id == before.next_message_id + i,
                self.active == old(self).active,
                self@.sessions == before.sessions,
                self@.usage == before.usage,
                self@.messages == before.messages + goal.take(i as int),
            decreases messages@.len() - i,
        {
            let ghost rows = self.messages@;
            let row = MessageRow {
                id: self.next_message_id,
                session_id: id.to_owned(),
                message: Message {
                    role: messages[i].role,
                    content: messages[i].content.clone(),
                    images: Vec::new(),
                    tool_calls: clone_calls(&messages[i].tool_calls),
                    tool_call_id: clone_text(&messages[i].tool_call_id),
                },
            };
            assert(row.message@ =~= stripped(all[i as int]));
            self.messages.push(row);
            self.next_message_id = self.next_message_id + 1;
            assert(self@.messages =~= seq_view(rows).push(row@));
            assert(goal.take(i + 1) =~= goal.take(i as int).push(goal[i as int]));
            assert(row@ == goal[i as int]);
            assert(self@.messages =~= before.messages + goal.take(i + 1));
            assert(self@.sessions =~= before.sessions);
            assert(self@.usage =~= before.usage);
            i = i + 1;
        }
        assert(goal.take(i as int) =~= goal);
    }
}

fn first_user_text(messages: &Vec<Message>) -> (r: String)
    ensures
        r@ == first_prompt(seq_view(messages@)),
{
    let ghost all = seq_view(messages@);
    let mut i: usize = 0;
    assert(all.skip(0) =~= all);
    while i < messages.len()
        invariant
            i <= messages@.len(),
            all == seq_view(messages@),
            first_prompt(all) == first_prompt(all.skip(i as int)),
        decreases messages@.len() - i,
    {
        assert(all.skip(i as int)[0] == messages@[i as int]@);
        if messages[i].role == Role::User {
            return messages[i].content.clone();
        }
        assert(all.skip(i as int).skip(1) =~= all.skip(i + 1));
        i = i + 1;
    }
    String::new()
}

/// A turn keeps what is stored valid.
proof fn lemma_turn_valid(
    c: ConversationsView,
    chat: i64,
    id: Seq<char>,
    model: Seq<char>,
    messages: Seq<MessageView>,
    usage: Usage,
    finish_reason: Seq<char>,
    now: i64,
)
    requires
        valid(c),
        usage_fits(usage),
        c.next_message_id + messages.len() <= i64::MAX,
    ensures
        valid(turn_saved(c, chat, id, model, messages, usage, finish_reason, now)),
{
    let d = turn_saved(c, chat, id, model, messages, usage, finish_reason, now);
    let base = if has_session(c.sessions, id) {
        c.sessions
    } else {
        c.sessions.push(new_session(id, chat, now))
    };
    assert forall|i: int| 0 <= i < d.sessions.len() implies (#[trigger] d.sessions[i]).id
        == base[i].id by {}
    assert forall|other: Seq<char>| has_session(c.sessions, other) || other
        == id implies #[trigger] has_session(d.sessions, other) by {
        if has_session(c.sessions, other) {
            let k = choose|k: int| 0 <= k < c.sessions.len() && (#[trigger] c.sessions[k]).id == other;
            assert(d.sessions[k].id == other);
        } else {
            assert(d.sessions[c.sessions.len() as int].id == other);
        }
    }
    assert forall|i: int, j: int| 0 <= i < j < d.sessions.len() implies (#[trigger] d.sessions[i]).id
        != (#[trigger] d.sessions[j]).id by {
        if j < c.sessions.len() {
            assert(c.sessions[i].id != c.sessions[j].id);
        } else {
            assert(c.sessions[i].id != id);
        }
    }
    let fresh = stored(id, c.next_message_id as int, messages);
    assert forall|i: int| 0 <= i < d.messages.len() implies message_valid(d, #[trigger] d.messages[i]) by {
        if i < c.messages.len() {
            assert(d.messages[i] == c.messages[i]);
            assert(message_valid(c, c.messages[i]));
        } else {
            assert(d.messages[i] == fresh[i - c.messages.len()]);
        }
    }
    assert forall|i: int, j: int| 0 <= i < j < d.messages.len() implies (#[trigger] d.messages[i]).id
        < (#[trigger] d.messages[j]).id by {
        if j < c.messages.len() {
            assert(c.messages[i].id < c.messages[j].id);
        } else if i < c.messages.len() {
            assert(message_valid(c, c.messages[i]));
            assert(d.messages[j] == fresh[j - c.messages.len()]);
        } else {
            assert(d.messages[i] == fresh[i - c.messages.len()]);
            assert(d.messages[j] == fresh[j - c.messages.len()]);
        }
    }
    assert forall|i: int| 0 <= i < d.usage.len() implies usage_valid(d, #[trigger] d.usage[i]) by {
        if i < c.usage.len() {
            assert(usage_valid(c, c.usage[i]));
        }
    }
    assert forall|other: i64| #[trigger] d.active.contains_key(other) implies has_session(
        d.sessions,
        d.active[other],
    ) by {
        if other != chat {
            assert(c.active.contains_key(other));
        }
    }
}

impl Database {
    /// Stores a turn of the chat at the time `now`: in the session it is in, or else in the session
    /// `fresh_id`, which is created where there is none of that id.
    pub fn save_turn_at(
        &mut self,
        fresh_id: &str,
        now: i64,
        chat_id: i64,
        model: &str,
        messages: &Vec<Message>,
        usage: &Usage,
        finish_reason: &str,
    ) -> (r: Result<String, StorageError>)
        requires
            old(self).wf(),
        ensures
            final(self).wf(),
            *final(self) == (Database { conversations: final(self).conversations, ..*old(self) }),
            match r {
                Ok(id) => {
                    &&& usage_fits(*usage)
                    &&& old(self).conversations.next_message_id + messages@.len() <= i64::MAX
                    &&& id@ == turn_session(old(self).conversations@, chat_id, fresh_id@)
                    &&& final(self).conversations@ == turn_saved(
                        old(self).conversations@,
                        chat_id,
                        id@,
                        model@,
                        seq_view(messages@),
                        *usage,
                        finish_reason@,
                        now,
                    )
                },
                Err(error) => {
                    &&& *final(self) == *old(self)
                    &&& error == StorageError::TokenCount && !usage_fits(*usage) || error
                        == StorageError::Full && usage_fits(*usage)
                        && old(self).conversations.next_message_id + messages@.len() > i64::MAX
                },
            },
    {
        let ghost c = self.conversations@;
        let prompt_tokens: i64 = match to_i64(usage.prompt_tokens) {
            Ok(n) => n,
            Err(error) => {
                return Err(error);
            },
        };
        let completion_tokens: i64 = match to_i64(usage.completion_tokens) {
            Ok(n) => n,
            Err(error) => {
                return Err(error);
            },
        };
        let total_tokens: i64 = match to_i64(usage.total_tokens) {
            Ok(n) => n,
            Err(error) => {
                return Err(error);
            },
        };
        if messages.len() as u64 > (i64::MAX - self.conversations.next_message_id) as u64 {
            return Err(StorageError::Full);
        }
        let id = match self.conversations.active.get(chat_id) {
            Some(id) => id,
            None => fresh_id.to_owned(),
        };
        let ghost base = if has_session(c.sessions, id@) {
            c.sessions
        } else {
            c.sessions.push(new_session(id@, chat_id, now))
        };
        let position: usize = match self.conversations.session_position(id.as_str()) {
            Some(i) => i,
            None => {
                let ghost rows = self.conversations.sessions@;
                let row = SessionRow {
                    id: id.clone(),
                    telegram_chat_id: chat_id,
                    title: NEW_TITLE.to_owned(),
                    updated_at: now,
                    summary: None,
                    summarized_message_id: 0,
                };
                self.conversations.sessions.push(row);
                assert(seq_view(self.conversations.sessions@) =~= seq_view(rows).push(row@));
                assert(row@ =~= new_session(id@, chat_id, now));
                self.conversations.sessions.len() - 1
            },
        };
        assert(seq_view(self.conversations.sessions@) == base);
        let ghost touch = |session: SessionView|
            touched(session, id@, first_prompt(seq_view(messages@)), now);
        let prompt = first_user_text(messages);
        if same(self.conversations.sessions[position].title.as_str(), NEW_TITLE) {
            self.conversations.sessions[position].title = make_title(prompt.as_str());
        }
        self.conversations.sessions[position].updated_at = now;
        assert(seq_view(self.conversations.sessions@) =~= base.map_values(touch)) by {
            assert forall|k: int| 0 <= k < base.len() implies #[trigger] seq_view(
                self.conversations.sessions@,
            )[k] == touch(base[k]) by {
                if k != position {
                    if k < c.sessions.len() {
                        if position < c.sessions.len() {
                            assert(c.sessions[k].id != c.sessions[position as int].id);
                        } else {
                            assert(c.sessions[k].id != id@);
                        }
                    }
                }
            }
        }
        self.conversations.active.set(chat_id, id.as_str());
        let ghost rows = self.conversations.usage@;
        let row = UsageRow {
            session_id: id.clone(),
            model: model.to_owned(),
            prompt_tokens,
            completion_tokens,
            total_tokens,
            finish_reason: finish_reason.to_owned(),
        };
        self.conversations.usage.push(row);
        assert(seq_view(self.conversations.usage@) =~= seq_view(rows).push(row@));
        proof {
            // The sessions, the usage and the active session are those of the finished turn; the
            // messages are still the old ones.
            let d = turn_saved(c, chat_id, id@, model@, seq_view(messages@), *usage, finish_reason@, now);
            lemma_turn_valid(c, chat_id, id@, model@, seq_view(messages@), *usage, finish_reason@, now);
            let e = self.conversations@;
            assert(e.sessions == d.sessions && e.usage == d.usage && e.active == d.active);
            assert forall|i: int| 0 <= i < e.messages.len() implies message_valid(
                e,
                #[trigger] e.messages[i],
            ) by {
                assert(d.messages[i] == c.messages[i]);
                assert(message_valid(d, d.messages[i]));
                assert(message_valid(c, c.messages[i]));
            }
            assert forall|i: int| 0 <= i < e.usage.len() implies usage_valid(e, #[trigger] e.usage[i]) by {
                assert(usage_valid(d, d.usage[i]));
            }
            assert(valid(e));
        }
        self.conversations.store_messages(id.as_str(), messages);
        proof {
            lemma_turn_valid(c, chat_id, id@, model@, seq_view(messages@), *usage, finish_reason@, now);
            assert(self.conversations@ =~= turn_saved(
                c,
                chat_id,
                id@,
                model@,
                seq_view(messages@),
                *usage,
                finish_reason@,
                now,
            ));
        }
        Ok(id)
    }

    /// Stores a turn of the chat, in the session it is in or else in a new one, and returns the
    /// session's id.
    pub fn save_turn(
        &mut self,
        chat_id: i64,
        model: &str,
        messages: &Vec<Message>,
        usage: &Usage,
        finish_reason: &str,
    ) -> (r: Result<String, StorageError>)
        requires
            old(self).wf(),
        ensures
            final(self).wf(),
            *final(self) == (Database { conversations: final(self).conversations, ..*old(self) }),
            match r {
                Ok(id) => {
                    &&& usage_fits(*usage)
                    &&& old(self).conversations.next_message_id + messages@.len() <= i64::MAX
                    &&& id@ == turn_session(old(self).conversations@, chat_id, id@)
                    &&& !old(self).conversations@.active.contains_key(chat_id) ==> id@.len() == 36
                    &&& exists|now: i64|
                        final(self).conversations@ == #[trigger] turn_saved(
                            old(self).conversations@,
                            chat_id,
                            id@,
                            model@,
                            seq_view(messages@),
                            *usage,
                            finish_reason@,
                            now,
                        )
                },
                Err(error) => {
                    &&& *final(self) == *old(self)
                    &&& error == StorageError::TokenCount && !usage_fits(*usage) || error
                        == StorageError::Full && usage_fits(*usage)
                        && old(self).conversations.next_message_id + messages@.len() > i64::MAX
                },
            },
    {
        let id = new_id();
        let now: i64 = unix_now();
        self.save_turn_at(id.as_str(), now, chat_id, model, messages, usage, finish_reason)
    }

    /// What the chat's conversation still holds besides its summary, and the summary.
    pub fn load_active_history(&self, chat_id: i64) -> (r: History)
        requires
            self.wf(),
        ensures
            r@ == history_of(self.conversations@, chat_id),
    {
        let id = match self.conversations.active.get(chat_id) {
            Some(id) => id,
            None => {
                let r = History { messages: Vec::new(), summary: None };
                assert(r@.messages =~= seq![]);
                return r;
            },
        };
        match self.conversations.session_position(id.as_str()) {
            Some(position) => {
                let summarized: i64 = self.conversations.sessions[position].summarized_message_id;
                let at = self.conversations.open_messages(id.as_str(), summarized);
                let ghost open = self.conversations@.messages.filter(
                    unsummarized(id@, summarized),
                );
                assert(open.len() == at@.len());
                let mut messages: Vec<Message> = Vec::new();
                let mut i: usize = 0;
                while i < at.len()
                    invariant
                        i <= at@.len(),
                        open == rows_at(self.conversations@.messages, as_ints(at@)),
                        forall|k: int|
                            0 <= k < at@.len() ==> #[trigger] at@[k]
                                < self.conversations.messages@.len(),
                        messages@.len() == i,
                        forall|k: int| 0 <= k < i ==> (#[trigger] messages@[k])@ == open[k].message,
                    decreases at@.len() - i,
                {
                    messages.push(self.conversations.messages[at[i]].message.clone());
                    i = i + 1;
                }
                assert(seq_view(messages@) =~= open.map_values(message_of()));
                History {
                    messages,
                    summary: clone_text(&self.conversations.sessions[position].summary),
                }
            },
            None => {
                assert(false);
                History { messages: Vec::new(), summary: None }
            },
        }
    }

    /// Leaves the session that the chat is in. Returns whether it was in one. Nothing that is
    /// stored of the session goes.
    pub fn clear_active_session(&mut self, chat_id: i64) -> (r: bool)
        requires
            old(self).wf(),
        ensures
            final(self).wf(),
            *final(self) == (Database { conversations: final(self).conversations, ..*old(self) }),
            r == old(self).conversations@.active.contains_key(chat_id),
            final(self).conversations@ == left(old(self).conversations@, chat_id),
    {
        let ghost c = self.conversations@;
        let r = self.conversations.active.remove(chat_id);
        proof {
            let d = self.conversations@;
            assert forall|i: int| 0 <= i < d.messages.len() implies message_valid(
                d,
                #[trigger] d.messages[i],
            ) by {
                assert(message_valid(c, c.messages[i]));
            }
            assert forall|i: int| 0 <= i < d.usage.len() implies usage_valid(d, #[trigger] d.usage[i]) by {
                assert(usage_valid(c, c.usage[i]));
            }
            assert forall|chat: i64| #[trigger] d.active.contains_key(chat) implies has_session(
                d.sessions,
                d.active[chat],
            ) by {
                assert(c.active.contains_key(chat));
            }
        }
        r
    }

    /// The session that the chat is in, with what it holds and cost.
    pub fn active_session(&self, chat_id: i64) -> (r: Result<Option<ActiveSession>, StorageError>)
        requires
            self.wf(),
        ensures
            match r {
                Ok(Some(session)) => {
                    &&& self.conversations@.active.contains_key(chat_id)
                    &&& tokens_of(self.conversations@.usage, session.id@) <= i64::MAX
                    &&& session@ == active_view(
                        self.conversations@,
                        self.conversations@.active[chat_id],
                    )
                },
                Ok(None) => !self.conversations@.active.contains_key(chat_id),
                Err(error) => {
                    &&& error == StorageError::TokenCount
                    &&& self.conversations@.active.contains_key(chat_id)
                    &&& tokens_of(
                        self.conversations@.usage,
                        self.conversations@.active[chat_id],
                    ) > i64::MAX
                },
            },
    {
        let id = match self.conversations.active.get(chat_id) {
            Some(id) => id,
            None => {
                return Ok(None);
            },
        };
        let position: usize = match self.conversations.session_position(id.as_str()) {
            Some(position) => position,
            None => {
                return Ok(None);
            },
        };
        let ghost rows = self.conversations@.usage;
        let ghost meets = usage_in(id@);
        let mut requests: usize = 0;
        let mut tokens: i64 = 0;
        let mut i: usize = 0;
        proof {
            reveal(Seq::filter);
            assert(rows.take(0) =~= seq![]);
        }
        while i < self.conversations.usage.len()
            invariant
                i <= self.conversations.usage@.len(),
                self.wf(),
                self.conversations@.active.contains_key(chat_id),
                id@ == self.conversations@.active[chat_id],
                rows == self.conversations@.usage,
                meets == usage_in(id@),
                requests <= i,
                requests == rows.take(i as int).filter(meets).len(),
                tokens >= 0,
                tokens == tokens_of(rows.take(i as int), id@),
            decreases self.conversations.usage@.len() - i,
        {
            proof {
                reveal(Seq::filter);
                assert(rows.take(i + 1).drop_last() =~= rows.take(i as int));
                assert(rows.take(i + 1).last() == self.conversations.usage@[i as int]@);
                assert(usage_valid(self.conversations@, rows[i as int]));
            }
            if same(self.conversations.usage[i].session_id.as_str(), id.as_str()) {
                requests = requests + 1;
                let more: i64 = self.conversations.usage[i].total_tokens;
                if tokens > i64::MAX - more {
                    proof {
                        lemma_tokens_grow(self.conversations@, id@, i + 1);
                    }
                    return Err(StorageError::TokenCount);
                }
                tokens = tokens + more;
            }
            i = i + 1;
        }
        assert(rows.take(i as int) =~= rows);
        let row = &self.conversations.sessions[position];
        Ok(
            Some(
                ActiveSession {
                    message_count: as_count(self.conversations.count_messages(id.as_str())),
                    request_count: as_count(requests),
                    total_tokens: tokens,
                    title: row.title.clone(),
                    summary: clone_text(&row.summary),
                    summarized_message_id: row.summarized_message_id,
                    id,
                },
            ),
        )
    }

    /// Every session that has at least one message, scoped to `chat_id` and newest first. A
    /// session created but never completed (no message saved yet) is omitted, matching how a
    /// brand-new "New chat" is invisible until its first successful turn.
    pub fn list_sessions(&self, chat_id: i64) -> (r: Vec<SessionSummary>)
        ensures
            seq_view(r@) == session_list(self.conversations@, chat_id),
    {
        let ghost c = self.conversations@;
        let ghost rows = c.sessions;
        let ghost meets = listed_in(c, chat_id);
        let mut at: Vec<usize> = Vec::new();
        let mut keys: Vec<i64> = Vec::new();
        let mut i: usize = 0;
        assert(as_ints(at@) =~= positions(rows.take(0), meets));
        while i < self.conversations.sessions.len()
            invariant
                i <= self.conversations.sessions@.len(),
                c == self.conversations@,
                rows == c.sessions,
                meets == listed_in(c, chat_id),
                as_ints(at@) == positions(rows.take(i as int), meets),
                keys@.len() == at@.len(),
                forall|k: int|
                    0 <= k < at@.len() ==> #[trigger] at@[k] < i && keys@[k]
                        == rows[at@[k] as int].updated_at,
            decreases self.conversations.sessions@.len() - i,
        {
            let ghost earlier = at@;
            assert(rows.take(i + 1).drop_last() =~= rows.take(i as int));
            assert(rows.take(i + 1).last() == self.conversations.sessions@[i as int]@);
            if self.conversations.sessions[i].telegram_chat_id == chat_id
                && self.conversations.count_messages(self.conversations.sessions[i].id.as_str())
                > 0 {
                at.push(i);
                keys.push(self.conversations.sessions[i].updated_at);
                assert(as_ints(at@) =~= as_ints(earlier).push(i as int));
            }
            i = i + 1;
        }
        assert(rows.take(i as int) =~= rows);
        let ghost picked = rows.filter(meets);
        let ranked = order(&keys);
        proof {
            lemma_rows_at_positions(rows, meets);
            assert forall|k: int| 0 <= k < picked.len() implies #[trigger] keys_as_ints(keys@)[k]
                == update_time()(picked[k]) by {
                assert(picked[k] == rows[as_ints(at@)[k]]);
                assert(at@[k] < rows.len());
            }
            lemma_order_of_rows(picked, update_time(), keys_as_ints(keys@));
        }
        let ghost sorted = sorted_by(picked, update_time());
        assert(sorted == rows_at(picked, as_ints(ranked@)));
        let mut r: Vec<SessionSummary> = Vec::new();
        let mut n: usize = ranked.len();
        while n > 0
            invariant
                n <= ranked@.len(),
                ranked@.len() == at@.len(),
                c == self.conversations@,
                rows == c.sessions,
                picked == rows_at(rows, as_ints(at@)),
                sorted == rows_at(picked, as_ints(ranked@)),
                forall|k: int| 0 <= k < at@.len() ==> #[trigger] at@[k] < rows.len(),
                forall|k: int| 0 <= k < ranked@.len() ==> #[trigger] ranked@[k] < at@.len(),
                r@.len() == ranked@.len() - n,
                forall|k: int|
                    0 <= k < r@.len() ==> (#[trigger] r@[k])@ == summary_view(
                        c,
                        sorted[sorted.len() - 1 - k],
                    ),
            decreases n,
        {
            n = n - 1;
            assert(ranked@[n as int] < at@.len());
            assert(at@[ranked@[n as int] as int] < rows.len());
            let row = &self.conversations.sessions[at[ranked[n]]];
            assert(row@ == sorted[n as int]);
            r.push(
                SessionSummary {
                    id: row.id.clone(),
                    title: row.title.clone(),
                    message_count: as_count(self.conversations.count_messages(row.id.as_str())),
                    updated_at: row.updated_at,
                },
            );
        }
        assert(seq_view(r@) =~= session_list(c, chat_id));
        r
    }

    /// Resolves an unambiguous ID prefix to a full session ID, scoped to `chat_id` so one chat
    /// cannot resume or delete another chat's session by guessing a prefix. `None` covers both "no
    /// match" and "ambiguous prefix" — the caller reports both the same way.
    pub fn find_session_by_prefix(&self, chat_id: i64, id_prefix: &str) -> (r: Option<String>)
        ensures
            match sole(self.conversations@.sessions, session_named(chat_id, id_prefix@)) {
                Some(i) => r is Some && r->0@ == self.conversations@.sessions[i].id,
                None => r is None,
            },
    {
        let ghost rows = self.conversations@.sessions;
        let ghost meets = session_named(chat_id, id_prefix@);
        let mut at: Vec<usize> = Vec::new();
        let mut i: usize = 0;
        assert(as_ints(at@) =~= positions(rows.take(0), meets));
        while i < self.conversations.sessions.len()
            invariant
                i <= self.conversations.sessions@.len(),
                rows == self.conversations@.sessions,
                meets == session_named(chat_id, id_prefix@),
                as_ints(at@) == positions(rows.take(i as int), meets),
            decreases self.conversations.sessions@.len() - i,
        {
            let ghost earlier = at@;
            assert(rows.take(i + 1).drop_last() =~= rows.take(i as int));
            assert(rows.take(i + 1).last() == self.conversations.sessions@[i as int]@);
            if self.conversations.sessions[i].telegram_chat_id == chat_id && id_has_prefix(
                self.conversations.sessions[i].id.as_str(),
                id_prefix,
            ) {
                at.push(i);
                assert(as_ints(at@) =~= as_ints(earlier).push(i as int));
            }
            i = i + 1;
        }
        assert(rows.take(i as int) =~= rows);
        if at.len() != 1 {
            return None;
        }
        proof {
            lemma_positions(rows, meets);
            assert(as_ints(at@)[0] == at@[0]);
        }
        Some(self.conversations.sessions[at[0]].id.clone())
    }

    /// Points `chat_id`'s active session at an existing session (used by `/resume`). The caller is
    /// responsible for having resolved `session_id` via `find_session_by_prefix` first, so this
    /// never silently activates a session belonging to a different chat.
    pub fn set_active_session(&mut self, chat_id: i64, session_id: &str) -> (r: Result<
        (),
        StorageError,
    >)
        requires
            old(self).wf(),
        ensures
            final(self).wf(),
            *final(self) == (Database { conversations: final(self).conversations, ..*old(self) }),
            match r {
                Ok(_) => has_session(old(self).conversations@.sessions, session_id@)
                    && final(self).conversations@ == resumed(
                    old(self).conversations@,
                    chat_id,
                    session_id@,
                ),
                Err(error) => error == StorageError::UnknownSession && !has_session(
                    old(self).conversations@.sessions,
                    session_id@,
                ) && *final(self) == *old(self),
            },
    {
        let ghost c = self.conversations@;
        if self.conversations.session_position(session_id).is_none() {
            return Err(StorageError::UnknownSession);
        }
        self.conversations.active.set(chat_id, session_id);
        proof {
            let d = self.conversations@;
            assert forall|i: int| 0 <= i < d.messages.len() implies message_valid(
                d,
                #[trigger] d.messages[i],
            ) by {
                assert(message_valid(c, c.messages[i]));
            }
            assert forall|i: int| 0 <= i < d.usage.len() implies usage_valid(d, #[trigger] d.usage[i]) by {
                assert(usage_valid(c, c.usage[i]));
            }
            assert forall|chat: i64| #[trigger] d.active.contains_key(chat) implies has_session(
                d.sessions,
                d.active[chat],
            ) by {
                if chat != chat_id {
                    assert(c.active.contains_key(chat));
                }
            }
        }
        Ok(())
    }

    /// Folds the first `summarized_message_count` messages of the chat's history into `summary`.
    /// The messages stay stored.
    pub fn compact_active_session(
        &mut self,
        chat_id: i64,
        summary: &str,
        summarized_message_count: usize,
    ) -> (r: Result<(), StorageError>)
        requires
            old(self).wf(),
        ensures
            final(self).wf(),
            *final(self) == (Database { conversations: final(self).conversations, ..*old(self) }),
            ({
                let c = old(self).conversations@;
                let held = history_of(c, chat_id).messages.len();
                match r {
                    Ok(_) => {
                        &&& summarized_message_count > 0
                        &&& c.active.contains_key(chat_id)
                        &&& summarized_message_count <= held
                        &&& final(self).conversations@ == compacted(
                            c,
                            chat_id,
                            summary@,
                            summarized_message_count as int,
                        )
                    },
                    Err(error) => {
                        &&& *final(self) == *old(self)
                        &&& error == (if summarized_message_count == 0 {
                            StorageError::NothingToSummarize
                        } else if !c.active.contains_key(chat_id) {
                            StorageError::NoActiveSession
                        } else {
                            StorageError::TooFewMessages
                        })
                        &&& summarized_message_count == 0 || !c.active.contains_key(chat_id)
                            || summarized_message_count > held
                    },
                }
            }),
    {
        let ghost c = self.conversations@;
        if summarized_message_count == 0 {
            return Err(StorageError::NothingToSummarize);
        }
        let id = match self.conversations.active.get(chat_id) {
            Some(id) => id,
            None => {
                return Err(StorageError::NoActiveSession);
            },
        };
        let position: usize = match self.conversations.session_position(id.as_str()) {
            Some(position) => position,
            None => {
                return Err(StorageError::NoActiveSession);
            },
        };
        let summarized: i64 = self.conversations.sessions[position].summarized_message_id;
        let at = self.conversations.open_messages(id.as_str(), summarized);
        let ghost open = c.messages.filter(unsummarized(id@, summarized));
        assert(open.len() == at@.len());
        assert(history_of(c, chat_id).messages.len() == open.len());
        if summarized_message_count > at.len() {
            return Err(StorageError::TooFewMessages);
        }
        let last = at[summarized_message_count - 1];
        assert(open[summarized_message_count - 1] == c.messages[as_ints(
            at@,
        )[summarized_message_count - 1]]);
        let cutoff: i64 = self.conversations.messages[last].id;
        self.conversations.sessions[position].summary = Some(summary.to_owned());
        self.conversations.sessions[position].summarized_message_id = cutoff;
        proof {
            let d = self.conversations@;
            let goal = compacted(c, chat_id, summary@, summarized_message_count as int);
            assert(d.messages =~= c.messages);
            assert(d.usage =~= c.usage);
            assert forall|k: int| 0 <= k < c.sessions.len() implies #[trigger] d.sessions[k]
                == goal.sessions[k] by {
                if k != position {
                    assert(c.sessions[k].id != c.sessions[position as int].id);
                }
            }
            assert(d.sessions =~= goal.sessions);
            assert(d =~= goal);
            assert forall|other: Seq<char>| has_session(c.sessions, other) implies #[trigger] has_session(
                d.sessions,
                other,
            ) by {
                let k = choose|k: int|
                    0 <= k < c.sessions.len() && (#[trigger] c.sessions[k]).id == other;
                assert(d.sessions[k].id == other);
            }
            assert forall|i: int, j: int| 0 <= i < j < d.sessions.len() implies (
            #[trigger] d.sessions[i]).id != (#[trigger] d.sessions[j]).id by {
                assert(c.sessions[i].id != c.sessions[j].id);
            }
            assert forall|i: int| 0 <= i < d.messages.len() implies message_valid(
                d,
                #[trigger] d.messages[i],
            ) by {
                assert(message_valid(c, c.messages[i]));
            }
            assert forall|i: int| 0 <= i < d.usage.len() implies usage_valid(d, #[trigger] d.usage[i]) by {
                assert(usage_valid(c, c.usage[i]));
            }
        }
        Ok(())
    }
}

proof fn lemma_tokens_grow(c: ConversationsView, id: Seq<char>, n: int)
    requires
        valid(c),
        0 <= n <= c.usage.len(),
    ensures
        0 <= tokens_of(c.usage.take(n), id) <= tokens_of(c.usage, id),
    decreases c.usage.len() - n,
{
    lemma_tokens_nonneg(c, id, n);
    if n < c.usage.len() {
        lemma_tokens_grow(c, id, n + 1);
        assert(c.usage.take(n + 1).drop_last() =~= c.usage.take(n));
        assert(usage_valid(c, c.usage[n]));
    } else {
        assert(c.usage.take(n) =~= c.usage);
    }
}

proof fn lemma_tokens_nonneg(c: ConversationsView, id: Seq<char>, n: int)
    requires
        valid(c),
        0 <= n <= c.usage.len(),
    ensures
        0 <= tokens_of(c.usage.take(n), id),
    decreases n,
{
    if n > 0 {
        lemma_tokens_nonneg(c, id, n - 1);
        assert(c.usage.take(n).drop_last() =~= c.usage.take(n - 1));
        assert(usage_valid(c, c.usage[n - 1]));
    }
}

/// What a filter by session keeps of rows.
proof fn lemma_kept<T>(rows: Seq<T>, keep: spec_fn(T) -> bool)
    ensures
        forall|i: int|
            0 <= i < rows.filter(keep).len() ==> keep(#[trigger] rows.filter(keep)[i])
                && rows.contains(rows.filter(keep)[i]),
        forall|x: T| rows.contains(x) && keep(x) ==> #[trigger] rows.filter(keep).contains(x),
{
    lemma_positions(rows, keep);
    lemma_rows_at_positions(rows, keep);
    let at = positions(rows, keep);
    assert(rows.filter(keep) == rows_at(rows, at));
    assert forall|i: int| 0 <= i < rows.filter(keep).len() implies keep(
        #[trigger] rows.filter(keep)[i],
    ) && rows.contains(rows.filter(keep)[i]) by {
        assert(rows.filter(keep)[i] == rows[at[i]]);
    }
    assert forall|x: T| rows.contains(x) && keep(x) implies #[trigger] rows.filter(keep).contains(
        x,
    ) by {
        let k = choose|k: int| 0 <= k < rows.len() && rows[k] == x;
        assert(at.contains(k));
        let i = choose|i: int| 0 <= i < at.len() && at[i] == k;
        assert(rows.filter(keep)[i] == x);
    }
}

/// Filtering keeps rows in their order.
proof fn lemma_kept_order<T>(rows: Seq<T>, keep: spec_fn(T) -> bool, i: int, j: int) -> (r: (
    int,
    int,
))
    requires
        0 <= i < j < rows.filter(keep).len(),
    ensures
        0 <= r.0 < r.1 < rows.len(),
        rows[r.0] == rows.filter(keep)[i],
        rows[r.1] == rows.filter(keep)[j],
{
    lemma_positions(rows, keep);
    lemma_rows_at_positions(rows, keep);
    let at = positions(rows, keep);
    (at[i], at[j])
}

proof fn lemma_deleted_valid(c: ConversationsView, id: Seq<char>)
    requires
        valid(c),
    ensures
        valid(session_deleted(c, id)),
{
    let d = session_deleted(c, id);
    let keep_session = |session: SessionView| session.id != id;
    let keep_message = |row: StoredView| row.session != id;
    let keep_usage = |row: UsageView| row.session != id;
    lemma_kept(c.sessions, keep_session);
    lemma_kept(c.messages, keep_message);
    lemma_kept(c.usage, keep_usage);
    assert forall|other: Seq<char>| has_session(c.sessions, other) && other
        != id implies #[trigger] has_session(d.sessions, other) by {
        let k = choose|k: int| 0 <= k < c.sessions.len() && (#[trigger] c.sessions[k]).id == other;
        assert(c.sessions.contains(c.sessions[k]));
        assert(d.sessions.contains(c.sessions[k]));
        let n = choose|n: int| 0 <= n < d.sessions.len() && d.sessions[n] == c.sessions[k];
        assert(d.sessions[n].id == other);
    }
    assert forall|i: int, j: int| 0 <= i < j < d.sessions.len() implies (#[trigger] d.sessions[i]).id
        != (#[trigger] d.sessions[j]).id by {
        let (a, b) = lemma_kept_order(c.sessions, keep_session, i, j);
        assert(c.sessions[a].id != c.sessions[b].id);
    }
    assert forall|i: int| 0 <= i < d.sessions.len() implies 0 <= (#[trigger] d.sessions[i]).summarized
        < d.next_message_id by {
        let k = choose|k: int| 0 <= k < c.sessions.len() && c.sessions[k] == d.sessions[i];
        assert(c.sessions[k].summarized < c.next_message_id);
    }
    assert forall|i: int, j: int| 0 <= i < j < d.messages.len() implies (#[trigger] d.messages[i]).id
        < (#[trigger] d.messages[j]).id by {
        let (a, b) = lemma_kept_order(c.messages, keep_message, i, j);
        assert(c.messages[a].id < c.messages[b].id);
    }
    assert forall|i: int| 0 <= i < d.messages.len() implies message_valid(d, #[trigger] d.messages[i]) by {
        let k = choose|k: int| 0 <= k < c.messages.len() && c.messages[k] == d.messages[i];
        assert(message_valid(c, c.messages[k]));
        assert(keep_message(d.messages[i]));
    }
    assert forall|i: int| 0 <= i < d.usage.len() implies usage_valid(d, #[trigger] d.usage[i]) by {
        let k = choose|k: int| 0 <= k < c.usage.len() && c.usage[k] == d.usage[i];
        assert(usage_valid(c, c.usage[k]));
        assert(keep_usage(d.usage[i]));
    }
    assert forall|chat: i64| #[trigger] d.active.contains_key(chat) implies has_session(
        d.sessions,
        d.active[chat],
    ) by {
        assert(c.active.contains_key(chat));
    }
}

impl Database {
    /// Deletes a session and its messages and usage records. If it was the active session for some
    /// chat, that chat is left with no active session (the same state `/new` produces).
    pub fn delete_session(&mut self, session_id: &str)
        requires
            old(self).wf(),
        ensures
            final(self).wf(),
            *final(self) == (Database { conversations: final(self).conversations, ..*old(self) }),
            final(self).conversations@ == session_deleted(
                old(self).conversations@,
                session_id@,
            ),
    {
        let ghost c = self.conversations@;
        let ghost goal = session_deleted(c, session_id@);
        proof {
            reveal(Seq::filter);
            lemma_deleted_valid(c, session_id@);
        }
        let ghost keep_session = |session: SessionView| session.id != session_id@;
        let ghost keep_message = |row: StoredView| row.session != session_id@;
        let ghost keep_usage = |row: UsageView| row.session != session_id@;
        let mut n: usize = self.conversations.sessions.len();
        assert(c.sessions.skip(n as int) =~= seq![]);
        assert(seq_view(self.conversations.sessions@) =~= c.sessions.take(n as int) + c.sessions.skip(
            n as int,
        ).filter(keep_session));
        while n > 0
            invariant
                n <= c.sessions.len(),
                keep_session == (|session: SessionView| session.id != session_id@),
                *self == (Database {
                    conversations: Conversations {
                        sessions: self.conversations.sessions,
                        ..old(self).conversations
                    },
                    ..*old(self)
                }),
                seq_view(self.conversations.sessions@) == c.sessions.take(n as int)
                    + c.sessions.skip(n as int).filter(keep_session),
            decreases n,
        {
            let ghost rows = self.conversations.sessions@;
            n = n - 1;
            proof {
                lemma_filter_front(c.sessions.skip(n as int), keep_session);
                assert(c.sessions.skip(n as int).skip(1) =~= c.sessions.skip(n + 1));
                assert(c.sessions.skip(n as int)[0] == c.sessions[n as int]);
                assert(rows.len() == seq_view(rows).len());
                assert(seq_view(rows).len() >= n + 1);
                assert(seq_view(rows)[n as int] == c.sessions[n as int]);
            }
            if same(self.conversations.sessions[n].id.as_str(), session_id) {
                self.conversations.sessions.remove(n);
                assert(seq_view(self.conversations.sessions@) =~= seq_view(rows).remove(n as int));
            }
            assert(seq_view(self.conversations.sessions@) =~= c.sessions.take(n as int)
                + c.sessions.skip(n as int).filter(keep_session));
        }
        assert(c.sessions.skip(0) =~= c.sessions);
        assert(seq_view(self.conversations.sessions@) =~= goal.sessions);
        let mut m: usize = self.conversations.messages.len();
        assert(c.messages.skip(m as int) =~= seq![]);
        assert(seq_view(self.conversations.messages@) =~= c.messages.take(m as int) + c.messages.skip(
            m as int,
        ).filter(keep_message));
        while m > 0
            invariant
                m <= c.messages.len(),
                keep_message == (|row: StoredView| row.session != session_id@),
                *self == (Database {
                    conversations: Conversations {
                        sessions: self.conversations.sessions,
                        messages: self.conversations.messages,
                        ..old(self).conversations
                    },
                    ..*old(self)
                }),
                seq_view(self.conversations.sessions@) == goal.sessions,
                seq_view(self.conversations.messages@) == c.messages.take(m as int)
                    + c.messages.skip(m as int).filter(keep_message),
            decreases m,
        {
            let ghost rows = self.conversations.messages@;
            m = m - 1;
            proof {
                lemma_filter_front(c.messages.skip(m as int), keep_message);
                assert(c.messages.skip(m as int).skip(1) =~= c.messages.skip(m + 1));
                assert(c.messages.skip(m as int)[0] == c.messages[m as int]);
                assert(rows.len() == seq_view(rows).len());
                assert(seq_view(rows).len() >= m + 1);
                assert(seq_view(rows)[m as int] == c.messages[m as int]);
            }
            if same(self.conversations.messages[m].session_id.as_str(), session_id) {
                self.conversations.messages.remove(m);
                assert(seq_view(self.conversations.messages@) =~= seq_view(rows).remove(m as int));
            }
            assert(seq_view(self.conversations.messages@) =~= c.messages.take(m as int)
                + c.messages.skip(m as int).filter(keep_message));
        }
        assert(c.messages.skip(0) =~= c.messages);
        assert(seq_view(self.conversations.messages@) =~= goal.messages);
        let mut u: usize = self.conversations.usage.len();
        assert(c.usage.skip(u as int) =~= seq![]);
        assert(seq_view(self.conversations.usage@) =~= c.usage.take(u as int) + c.usage.skip(
            u as int,
        ).filter(keep_usage));
        while u > 0
            invariant
                u <= c.usage.len(),
                keep_usage == (|row: UsageView| row.session != session_id@),
                *self == (Database {
                    conversations: Conversations {
                        sessions: self.conversations.sessions,
                        messages: self.conversations.messages,
                        usage: self.conversations.usage,
                        ..old(self).conversations
                    },
                    ..*old(self)
                }),
                seq_view(self.conversations.sessions@) == goal.sessions,
                seq_view(self.conversations.messages@) == goal.messages,
                seq_view(self.conversations.usage@) == c.usage.take(u as int) + c.usage.skip(
                    u as int,
                ).filter(keep_usage),
            decreases u,
        {
            let ghost rows = self.conversations.usage@;
            u = u - 1;
            proof {
                lemma_filter_front(c.usage.skip(u as int), keep_usage);
                assert(c.usage.skip(u as int).skip(1) =~= c.usage.skip(u + 1));
                assert(c.usage.skip(u as int)[0] == c.usage[u as int]);
                assert(rows.len() == seq_view(rows).len());
                assert(seq_view(rows).len() >= u + 1);
                assert(seq_view(rows)[u as int] == c.usage[u as int]);
            }
            if same(self.conversations.usage[u].session_id.as_str(), session_id) {
                self.conversations.usage.remove(u);
                assert(seq_view(self.conversations.usage@) =~= seq_view(rows).remove(u as int));
            }
            assert(seq_view(self.conversations.usage@) =~= c.usage.take(u as int) + c.usage.skip(
                u as int,
            ).filter(keep_usage));
        }
        assert(c.usage.skip(0) =~= c.usage);
        assert(seq_view(self.conversations.usage@) =~= goal.usage);
        self.conversations.active.remove_value(session_id);
        assert(self.conversations@ =~= goal);
    }
}

/// Filtering from the front.
proof fn lemma_filter_front<T>(rows: Seq<T>, keep: spec_fn(T) -> bool)
    requires
        rows.len() > 0,
    ensures
        rows.filter(keep) == (if keep(rows[0]) {
            seq![rows[0]]
        } else {
            seq![]
        }) + rows.skip(1).filter(keep),
{
    let first = seq![rows[0]];
    assert(rows =~= first + rows.skip(1));
    Seq::filter_distributes_over_add(first, rows.skip(1), keep);
    assert(first.filter(keep) =~= if keep(rows[0]) {
        seq![rows[0]]
    } else {
        seq![]
    }) by {
        reveal(Seq::filter);
        assert(first.drop_last() =~= seq![]);
        assert(first.drop_last().filter(keep) =~= seq![]);
    }
}

/// A stricter filter after a laxer one is the stricter one alone.
proof fn lemma_filter_twice<T>(rows: Seq<T>, lax: spec_fn(T) -> bool, strict: spec_fn(T) -> bool)
    requires
        forall|x: T| #[trigger] strict(x) ==> lax(x),
    ensures
        rows.filter(lax).filter(strict) == rows.filter(strict),
    decreases rows.len(),
{
    reveal(Seq::filter);
    if rows.len() > 0 {
        lemma_filter_twice(rows.drop_last(), lax, strict);
        let rest = rows.drop_last().filter(lax);
        if lax(rows.last()) {
            assert(rest.push(rows.last()).drop_last() =~= rest);
        } else {
            assert(!strict(rows.last()));
        }
    }
}

proof fn lemma_filter_all<T>(rows: Seq<T>, keep: spec_fn(T) -> bool)
    requires
        forall|i: int| 0 <= i < rows.len() ==> keep(#[trigger] rows[i]),
    ensures
        rows.filter(keep) == rows,
    decreases rows.len(),
{
    reveal(Seq::filter);
    if rows.len() > 0 {
        let front = rows.drop_last();
        assert forall|i: int| 0 <= i < front.len() implies keep(#[trigger] front[i]) by {
            assert(keep(rows[i]));
        }
        lemma_filter_all(front, keep);
        assert(keep(rows[rows.len() - 1]));
        assert(front.push(rows.last()) =~= rows);
    }
}

proof fn lemma_filter_none<T>(rows: Seq<T>, keep: spec_fn(T) -> bool)
    requires
        forall|i: int| 0 <= i < rows.len() ==> !keep(#[trigger] rows[i]),
    ensures
        rows.filter(keep) == Seq::<T>::empty(),
    decreases rows.len(),
{
    reveal(Seq::filter);
    if rows.len() > 0 {
        let front = rows.drop_last();
        assert forall|i: int| 0 <= i < front.len() implies !keep(#[trigger] front[i]) by {
            assert(!keep(rows[i]));
        }
        lemma_filter_none(front, keep);
        assert(!keep(rows[rows.len() - 1]));
    }
    assert(rows.filter(keep) =~= Seq::<T>::empty());
}

/// The session of a valid active entry.
proof fn lemma_active_session(c: ConversationsView, chat: i64)
    requires
        valid(c),
        c.active.contains_key(chat),
    ensures
        session_of(c, c.active[chat]).id == c.active[chat],
        exists|i: int|
            0 <= i < c.sessions.len() && #[trigger] c.sessions[i] == session_of(c, c.active[chat]),
{
    assert(has_session(c.sessions, c.active[chat]));
    let k = choose|k: int|
        0 <= k < c.sessions.len() && (#[trigger] c.sessions[k]).id == c.active[chat];
    lemma_session_of(c, k);
}

pub open spec fn all_stripped(messages: Seq<MessageView>) -> Seq<MessageView> {
    messages.map_values(|message: MessageView| stripped(message))
}

/// What a turn stores is read back: the chat's history afterwards is what it was, followed by the
/// turn's messages without their images, and the summary is untouched. (The fresh id that a chat
/// without a session is given is taken not to be a stored session's.)
pub proof fn law_a_saved_turn_is_read_back(
    c: ConversationsView,
    chat: i64,
    fresh: Seq<char>,
    model: Seq<char>,
    messages: Seq<MessageView>,
    usage: Usage,
    finish_reason: Seq<char>,
    now: i64,
)
    requires
        valid(c),
        usage_fits(usage),
        c.next_message_id + messages.len() <= i64::MAX,
        c.active.contains_key(chat) || !has_session(c.sessions, fresh),
    ensures
        ({
            let id = turn_session(c, chat, fresh);
            let d = turn_saved(c, chat, id, model, messages, usage, finish_reason, now);
            &&& history_of(d, chat).messages == history_of(c, chat).messages + all_stripped(
                messages,
            )
            &&& history_of(d, chat).summary == history_of(c, chat).summary
        }),
{
    let id = turn_session(c, chat, fresh);
    let d = turn_saved(c, chat, id, model, messages, usage, finish_reason, now);
    lemma_turn_valid(c, chat, id, model, messages, usage, finish_reason, now);
    let added = stored(id, c.next_message_id as int, messages);
    lemma_active_session(d, chat);
    let session = session_of(d, id);
    let k = choose|k: int| 0 <= k < d.sessions.len() && #[trigger] d.sessions[k] == session;
    let meets = unsummarized(id, session.summarized);
    assert(session.summarized < c.next_message_id) by {
        if k < c.sessions.len() {
            assert(c.sessions[k].summarized < c.next_message_id);
        }
    }
    Seq::filter_distributes_over_add(c.messages, added, meets);
    assert forall|i: int| 0 <= i < added.len() implies meets(#[trigger] added[i]) by {}
    lemma_filter_all(added, meets);
    assert(added.map_values(message_of()) =~= all_stripped(messages));
    assert((c.messages.filter(meets) + added).map_values(message_of()) =~= c.messages.filter(
        meets,
    ).map_values(message_of()) + added.map_values(message_of()));
    if c.active.contains_key(chat) {
        lemma_active_session(c, chat);
        assert(has_session(c.sessions, id));
        lemma_session_of(c, k);
        assert(history_of(c, chat).messages == c.messages.filter(meets).map_values(message_of()));
    } else {
        assert forall|i: int| 0 <= i < c.messages.len() implies !meets(#[trigger] c.messages[i]) by {
            assert(message_valid(c, c.messages[i]));
        }
        lemma_filter_none(c.messages, meets);
        assert(k == c.sessions.len()) by {
            if k < c.sessions.len() {
                assert(c.sessions[k].id == id);
            }
        }
        assert(history_of(d, chat).messages =~= history_of(c, chat).messages + all_stripped(
            messages,
        ));
    }
}

/// A turn of one chat leaves the history of every chat that is in another session as it was.
pub proof fn law_chats_do_not_see_each_other(
    c: ConversationsView,
    chat: i64,
    other: i64,
    fresh: Seq<char>,
    model: Seq<char>,
    messages: Seq<MessageView>,
    usage: Usage,
    finish_reason: Seq<char>,
    now: i64,
)
    requires
        valid(c),
        usage_fits(usage),
        c.next_message_id + messages.len() <= i64::MAX,
        other != chat,
        c.active.contains_key(other) ==> c.active[other] != turn_session(c, chat, fresh),
    ensures
        ({
            let id = turn_session(c, chat, fresh);
            let d = turn_saved(c, chat, id, model, messages, usage, finish_reason, now);
            history_of(d, other) == history_of(c, other)
        }),
{
    let id = turn_session(c, chat, fresh);
    let d = turn_saved(c, chat, id, model, messages, usage, finish_reason, now);
    lemma_turn_valid(c, chat, id, model, messages, usage, finish_reason, now);
    if c.active.contains_key(other) {
        let mine = c.active[other];
        lemma_active_session(c, other);
        let session = session_of(c, mine);
        let k = choose|k: int| 0 <= k < c.sessions.len() && #[trigger] c.sessions[k] == session;
        assert(d.sessions[k] == session);
        lemma_session_of(d, k);
        let meets = unsummarized(mine, session.summarized);
        let added = stored(id, c.next_message_id as int, messages);
        Seq::filter_distributes_over_add(c.messages, added, meets);
        assert forall|i: int| 0 <= i < added.len() implies !meets(#[trigger] added[i]) by {}
        lemma_filter_none(added, meets);
        assert(c.messages.filter(meets) + Seq::<StoredView>::empty() =~= c.messages.filter(meets));
    }
}

/// `/new` starts from nothing and loses nothing: the chat's history is empty afterwards, while
/// every message is still stored.
pub proof fn law_a_new_chat_keeps_what_was_said(c: ConversationsView, chat: i64)
    ensures
        ({
            let d = left(c, chat);
            &&& history_of(d, chat).messages.len() == 0
            &&& history_of(d, chat).summary is None
            &&& d.messages == c.messages
            &&& d.sessions == c.sessions
        }),
{
}

proof fn lemma_above(open: Seq<StoredView>, count: int, above: spec_fn(StoredView) -> bool)
    requires
        0 < count <= open.len(),
        forall|i: int, j: int|
            0 <= i < j < open.len() ==> (#[trigger] open[i]).id < (#[trigger] open[j]).id,
        forall|i: int|
            0 <= i < open.len() ==> above(#[trigger] open[i]) == (open[i].id > open[count - 1].id),
    ensures
        open.filter(above) == open.skip(count),
{
    let low = open.take(count);
    let high = open.skip(count);
    assert(open =~= low + high);
    Seq::filter_distributes_over_add(low, high, above);
    assert forall|i: int| 0 <= i < low.len() implies !above(#[trigger] low[i]) by {
        assert(low[i] == open[i]);
        if i < count - 1 {
            assert(open[i].id < open[count - 1].id);
        }
    }
    lemma_filter_none(low, above);
    assert forall|i: int| 0 <= i < high.len() implies above(#[trigger] high[i]) by {
        assert(high[i] == open[count + i]);
        assert(open[count - 1].id < open[count + i].id);
    }
    lemma_filter_all(high, above);
    assert(Seq::<StoredView>::empty() + high =~= high);
}

/// Compaction replaces the oldest messages of a chat's history by the summary, keeps the rest of
/// the history as it was, and removes no message from storage.
pub proof fn law_compaction_keeps_the_rest(
    c: ConversationsView,
    chat: i64,
    summary: Seq<char>,
    count: int,
)
    requires
        valid(c),
        c.active.contains_key(chat),
        0 < count <= history_of(c, chat).messages.len(),
    ensures
        ({
            let d = compacted(c, chat, summary, count);
            &&& history_of(d, chat).messages == history_of(c, chat).messages.skip(count)
            &&& history_of(d, chat).summary == Some(summary)
            &&& d.messages == c.messages
            &&& d.usage == c.usage
        }),
{
    let d = compacted(c, chat, summary, count);
    lemma_active_session(c, chat);
    let id = c.active[chat];
    let session = session_of(c, id);
    let k = choose|k: int| 0 <= k < c.sessions.len() && #[trigger] c.sessions[k] == session;
    let lax = unsummarized(id, session.summarized);
    let open = c.messages.filter(lax);
    let strict = unsummarized(id, open[count - 1].id);
    assert forall|i: int, j: int| 0 <= i < j < open.len() implies (#[trigger] open[i]).id < (
    #[trigger] open[j]).id by {
        let (a, b) = lemma_kept_order(c.messages, lax, i, j);
        assert(c.messages[a].id < c.messages[b].id);
    }
    lemma_kept(c.messages, lax);
    assert(lax(open[count - 1]));
    lemma_filter_twice(c.messages, lax, strict);
    assert forall|i: int| 0 <= i < open.len() implies strict(#[trigger] open[i]) == (open[i].id
        > open[count - 1].id) by {
        assert(lax(open[i]));
    }
    lemma_above(open, count, strict);
    assert(open.skip(count).map_values(message_of()) =~= open.map_values(message_of()).skip(count));
    // The compacted session is the one at the same place.
    let e = session_of(d, id);
    assert(d.sessions[k].id == id);
    let n = choose|n: int| 0 <= n < d.sessions.len() && (#[trigger] d.sessions[n]).id == id;
    assert(n == k) by {
        assert(d.sessions[n].id == c.sessions[n].id);
        if n != k {
            assert(c.sessions[n].id != c.sessions[k].id);
        }
    }
    assert(e == d.sessions[k]);
}

/// Deleting a session takes its messages and costs along and takes every chat out of it, and
/// touches no other session's messages.
pub proof fn law_deletion_is_complete_and_no_more(
    c: ConversationsView,
    id: Seq<char>,
    other: Seq<char>,
)
    requires
        valid(c),
        other != id,
    ensures
        ({
            let d = session_deleted(c, id);
            &&& !has_session(d.sessions, id)
            &&& messages_in(d, id) == 0
            &&& d.usage.filter(usage_in(id)).len() == 0
            &&& forall|chat: i64| #[trigger] d.active.contains_key(chat) ==> d.active[chat] != id
            &&& d.messages.filter(in_session(other)) == c.messages.filter(in_session(other))
            &&& has_session(d.sessions, other) == has_session(c.sessions, other)
        }),
{
    let d = session_deleted(c, id);
    let keep_session = |session: SessionView| session.id != id;
    let keep_message = |row: StoredView| row.session != id;
    let keep_usage = |row: UsageView| row.session != id;
    lemma_kept(c.sessions, keep_session);
    lemma_kept(c.messages, keep_message);
    lemma_kept(c.usage, keep_usage);
    assert forall|i: int| 0 <= i < d.messages.len() implies !in_session(id)(
        #[trigger] d.messages[i],
    ) by {
        assert(keep_message(d.messages[i]));
    }
    lemma_filter_none(d.messages, in_session(id));
    assert forall|i: int| 0 <= i < d.usage.len() implies !usage_in(id)(#[trigger] d.usage[i]) by {
        assert(keep_usage(d.usage[i]));
    }
    lemma_filter_none(d.usage, usage_in(id));
    assert(!has_session(d.sessions, id)) by {
        if has_session(d.sessions, id) {
            let k = choose|k: int| 0 <= k < d.sessions.len() && (#[trigger] d.sessions[k]).id == id;
            assert(keep_session(d.sessions[k]));
        }
    }
    lemma_filter_twice(c.messages, keep_message, in_session(other));
    if has_session(c.sessions, other) {
        let k = choose|k: int| 0 <= k < c.sessions.len() && (#[trigger] c.sessions[k]).id == other;
        assert(c.sessions.contains(c.sessions[k]));
        assert(d.sessions.contains(c.sessions[k]));
        let n = choose|n: int| 0 <= n < d.sessions.len() && d.sessions[n] == c.sessions[k];
        assert(d.sessions[n].id == other);
    }
    if has_session(d.sessions, other) {
        let n = choose|n: int| 0 <= n < d.sessions.len() && (#[trigger] d.sessions[n]).id == other;
        assert(c.sessions.contains(d.sessions[n]));
        let k = choose|k: int| 0 <= k < c.sessions.len() && c.sessions[k] == d.sessions[n];
        assert(c.sessions[k].id == other);
    }
}

/// A chat reaches only sessions of its own by their ids: what a prefix resolves to belongs to the
/// chat that asked, and is the only session of that chat it could mean.
pub proof fn law_prefixes_stay_in_their_chat(sessions: Seq<SessionView>, chat: i64, prefix: Seq<char>)
    ensures
        match sole(sessions, session_named(chat, prefix)) {
            Some(i) => 0 <= i < sessions.len() && sessions[i].chat == chat && has_prefix(
                sessions[i].id,
                prefix,
            ) && forall|k: int|
                0 <= k < sessions.len() && k != i && (#[trigger] sessions[k]).chat == chat
                    ==> !has_prefix(sessions[k].id, prefix),
            None => true,
        },
{
    law_sole_is_unambiguous(sessions, session_named(chat, prefix));
    if let Some(i) = sole(sessions, session_named(chat, prefix)) {
        assert forall|k: int|
            0 <= k < sessions.len() && k != i && (#[trigger] sessions[k]).chat
                == chat implies !has_prefix(sessions[k].id, prefix) by {
            assert(session_named(chat, prefix)(sessions[k]) == has_prefix(sessions[k].id, prefix));
        }
    }
}

/// What is stored of a message is all of it but its images.
pub proof fn law_only_images_are_left_out(messages: Seq<MessageView>, i: int)
    requires
        0 <= i < messages.len(),
    ensures
        all_stripped(messages).len() == messages.len(),
        all_stripped(messages)[i].role == messages[i].role,
        all_stripped(messages)[i].content == messages[i].content,
        all_stripped(messages)[i].tool_calls == messages[i].tool_calls,
        all_stripped(messages)[i].tool_call_id == messages[i].tool_call_id,
        all_stripped(messages)[i].images.len() == 0,
        stripped(messages[i]) == all_stripped(messages)[i],
{
}

/// A conversation is named after what the user said first: short words are kept as they are, and
/// long ones are cut and marked as cut.
pub proof fn law_titles_are_the_users_first_words(messages: Seq<MessageView>, i: int)
    requires
        0 <= i < messages.len(),
        messages[i].role == Role::User,
        forall|k: int| 0 <= k < i ==> (#[trigger] messages[k]).role != Role::User,
    ensures
        messages[i].content.len() <= 40 ==> title_of(first_prompt(messages))
            == messages[i].content,
        messages[i].content.len() > 40 ==> title_of(first_prompt(messages)).len() == 43
            && occurs_at(title_of(first_prompt(messages)), messages[i].content.take(40), 0)
            && occurs_at(title_of(first_prompt(messages)), "..."@, 40),
    decreases messages.len(),
{
    reveal_strlit("...");
    lemma_first_prompt(messages, i);
    if messages[i].content.len() > 40 {
        let title = title_of(messages[i].content);
        assert(title.subrange(0, 40) =~= messages[i].content.take(40));
        assert(title.subrange(40, 43) =~= "..."@);
    }
}

proof fn lemma_first_prompt(messages: Seq<MessageView>, i: int)
    requires
        0 <= i < messages.len(),
        messages[i].role == Role::User,
        forall|k: int| 0 <= k < i ==> (#[trigger] messages[k]).role != Role::User,
    ensures
        first_prompt(messages) == messages[i].content,
    decreases messages.len(),
{
    if i > 0 {
        let rest = messages.skip(1);
        assert forall|k: int| 0 <= k < i - 1 implies (#[trigger] rest[k]).role != Role::User by {
            assert(messages[k + 1].role != Role::User);
        }
        assert(rest[i - 1] == messages[i]);
        lemma_first_prompt(rest, i - 1);
    }
}

/// A turn is stored in one session and paid for there: a row of its own keeps what it cost, with
/// which model and how it ended; the session is the chat's from then on, is dated to the turn, and
/// gets its name from the first turn alone. Every other session, every earlier message and cost, and
/// every other chat's place stays as it was.
pub proof fn law_a_turn_is_stored_in_its_session(
    c: ConversationsView,
    chat: i64,
    id: Seq<char>,
    model: Seq<char>,
    messages: Seq<MessageView>,
    usage: Usage,
    finish_reason: Seq<char>,
    now: i64,
)
    requires
        usage_fits(usage),
        c.next_message_id + messages.len() <= i64::MAX,
    ensures
        ({
            let d = turn_saved(c, chat, id, model, messages, usage, finish_reason, now);
            &&& d.usage.len() == c.usage.len() + 1
            &&& d.usage.drop_last() == c.usage
            &&& d.usage.last().session == id
            &&& d.usage.last().model == model
            &&& d.usage.last().prompt_tokens == usage.prompt_tokens
            &&& d.usage.last().completion_tokens == usage.completion_tokens
            &&& d.usage.last().total_tokens == usage.total_tokens
            &&& d.usage.last().finish_reason == finish_reason
            &&& d.messages.len() == c.messages.len() + messages.len()
            &&& d.messages.take(c.messages.len() as int) == c.messages
            &&& forall|i: int|
                0 <= i < messages.len() ==> {
                    let row = #[trigger] d.messages[c.messages.len() + i];
                    &&& row.session == id
                    &&& row.id == c.next_message_id + i
                    &&& row.message.role == messages[i].role
                    &&& row.message.content == messages[i].content
                    &&& row.message.tool_calls == messages[i].tool_calls
                    &&& row.message.tool_call_id == messages[i].tool_call_id
                    &&& row.message.images.len() == 0
                }
            &&& d.active.contains_key(chat)
            &&& d.active[chat] == id
            &&& forall|other: i64|
                other != chat ==> (#[trigger] d.active.contains_key(other)
                    == c.active.contains_key(other)) && (c.active.contains_key(other)
                    ==> d.active[other] == c.active[other])
            &&& d.next_message_id == c.next_message_id + messages.len()
            &&& has_session(d.sessions, id)
            &&& d.sessions.len() >= c.sessions.len()
            &&& forall|k: int|
                0 <= k < c.sessions.len() ==> {
                    let before = c.sessions[k];
                    let after = #[trigger] d.sessions[k];
                    &&& before.id != id ==> after == before
                    &&& after.id == before.id
                    &&& after.chat == before.chat
                    &&& after.summary == before.summary
                    &&& after.summarized == before.summarized
                    &&& before.title != "New chat"@ ==> after.title == before.title
                    &&& before.id == id && before.title == "New chat"@ ==> after.title == title_of(
                        first_prompt(messages),
                    )
                    &&& before.id == id ==> after.updated_at == now
                }
        }),
{
    let d = turn_saved(c, chat, id, model, messages, usage, finish_reason, now);
    assert(d.usage.drop_last() =~= c.usage);
    assert(d.messages.take(c.messages.len() as int) =~= c.messages);
    let sessions = if has_session(c.sessions, id) {
        c.sessions
    } else {
        c.sessions.push(new_session(id, chat, now))
    };
    if has_session(c.sessions, id) {
        let k = choose|k: int| 0 <= k < c.sessions.len() && (#[trigger] c.sessions[k]).id == id;
        assert(d.sessions[k].id == id);
    } else {
        assert(d.sessions[c.sessions.len() as int].id == id);
    }
}

/// A chat without a session gets one of its own, named after its first turn and without a summary.
pub proof fn law_a_first_turn_opens_a_session(
    c: ConversationsView,
    chat: i64,
    id: Seq<char>,
    model: Seq<char>,
    messages: Seq<MessageView>,
    usage: Usage,
    finish_reason: Seq<char>,
    now: i64,
)
    requires
        !has_session(c.sessions, id),
    ensures
        ({
            let d = turn_saved(c, chat, id, model, messages, usage, finish_reason, now);
            &&& d.sessions.len() == c.sessions.len() + 1
            &&& d.sessions.last().id == id
            &&& d.sessions.last().chat == chat
            &&& d.sessions.last().updated_at == now
            &&& d.sessions.last().summary is None
            &&& d.sessions.last().summarized == 0
            &&& d.sessions.last().title == title_of(first_prompt(messages))
        }),
{
}

/// The tokens of a session are those of its turns: a turn of the session adds its own, and a turn of
/// another adds nothing.
pub proof fn law_sessions_cost_what_their_turns_cost(
    usage: Seq<UsageView>,
    row: UsageView,
    id: Seq<char>,
)
    ensures
        tokens_of(Seq::empty(), id) == 0,
        row.session == id ==> tokens_of(usage.push(row), id) == tokens_of(usage, id)
            + row.total_tokens,
        row.session != id ==> tokens_of(usage.push(row), id) == tokens_of(usage, id),
{
    assert(usage.push(row).drop_last() =~= usage);
}

/// What is told of a chat's session is the session's own: its name, its summary, and how many
/// messages and turns were stored in it.
pub proof fn law_a_session_is_told_as_it_is(c: ConversationsView, k: int)
    requires
        valid(c),
        0 <= k < c.sessions.len(),
        c.messages.len() <= i64::MAX,
        c.usage.len() <= i64::MAX,
        i64::MIN <= tokens_of(c.usage, c.sessions[k].id) <= i64::MAX,
    ensures
        ({
            let told = active_view(c, c.sessions[k].id);
            &&& told.id == c.sessions[k].id
            &&& told.title == c.sessions[k].title
            &&& told.summary == c.sessions[k].summary
            &&& told.summarized == c.sessions[k].summarized
            &&& told.message_count == c.messages.filter(in_session(c.sessions[k].id)).len()
            &&& told.request_count == c.usage.filter(usage_in(c.sessions[k].id)).len()
            &&& told.total_tokens == tokens_of(c.usage, c.sessions[k].id)
        }),
{
    lemma_session_of(c, k);
    c.messages.lemma_filter_len(in_session(c.sessions[k].id));
    c.usage.lemma_filter_len(usage_in(c.sessions[k].id));
}

/// A chat's sessions are listed newest first, each with its own id, name, date and number of
/// messages; a session is listed exactly where it is the chat's and something was said in it.
pub proof fn law_sessions_are_listed_newest_first(c: ConversationsView, chat: i64)
    ensures
        ({
            let listed = session_list(c, chat);
            &&& forall|i: int, j: int|
                0 <= i < j < listed.len() ==> (#[trigger] listed[i]).updated_at >= (
                #[trigger] listed[j]).updated_at
            &&& forall|i: int|
                0 <= i < listed.len() ==> tells_one_of(c, chat, #[trigger] listed[i])
            &&& forall|k: int|
                0 <= k < c.sessions.len() && (#[trigger] c.sessions[k]).chat == chat
                    && c.messages.filter(in_session(c.sessions[k].id)).len() > 0
                    ==> exists|i: int|
                    0 <= i < listed.len() && (#[trigger] listed[i]).id == c.sessions[k].id
        }),
{
    let meets = listed_in(c, chat);
    law_listings_hold_what_they_should(c.sessions, meets, update_time());
    let kept = sorted_by(c.sessions.filter(meets), update_time());
    let turned = kept.reverse();
    let listed = session_list(c, chat);
    assert forall|i: int, j: int| 0 <= i < j < listed.len() implies (
    #[trigger] listed[i]).updated_at >= (#[trigger] listed[j]).updated_at by {
        let n = kept.len() as int;
        assert(update_time()(kept[n - 1 - j]) <= update_time()(kept[n - 1 - i]));
    }
    assert forall|i: int| 0 <= i < listed.len() implies tells_one_of(c, chat, #[trigger] listed[i]) by {
        let session = kept[kept.len() - 1 - i];
        assert(meets(session));
        assert(c.sessions.contains(session));
        let k = choose|k: int| 0 <= k < c.sessions.len() && c.sessions[k] == session;
        assert(c.sessions[k].id == listed[i].id);
    }
    assert forall|k: int|
        0 <= k < c.sessions.len() && (#[trigger] c.sessions[k]).chat == chat && c.messages.filter(
            in_session(c.sessions[k].id),
        ).len() > 0 implies exists|i: int|
        0 <= i < listed.len() && (#[trigger] listed[i]).id == c.sessions[k].id by {
        assert(meets(c.sessions[k]));
        let at = choose|at: int| 0 <= at < kept.len() && kept[at] == c.sessions[k];
        let i = kept.len() - 1 - at;
        assert(turned[i] == kept[at]);
        assert(listed[i].id == c.sessions[k].id);
    }
}

/// Whether a line of a listing tells one of the chat's sessions in which something was said.
pub open spec fn tells_one_of(c: ConversationsView, chat: i64, line: SummaryView) -> bool {
    exists|k: int|
        {
            &&& 0 <= k < c.sessions.len()
            &&& (#[trigger] c.sessions[k]).id == line.id
            &&& c.sessions[k].chat == chat
            &&& c.sessions[k].title == line.title
            &&& c.sessions[k].updated_at == line.updated_at
            &&& c.messages.filter(in_session(line.id)).len() > 0
            &&& c.messages.filter(in_session(line.id)).len() <= i64::MAX ==> line.message_count
                == c.messages.filter(in_session(line.id)).len()
        }
}

/// Deleting a session leaves every other session, its messages and its costs in their order and as
/// they were, and every chat that was elsewhere where it was.
pub proof fn law_deletion_leaves_the_others_alone(c: ConversationsView, id: Seq<char>, chat: i64)
    ensures
        ({
            let d = session_deleted(c, id);
            &&& forall|k: int|
                0 <= k < c.sessions.len() && (#[trigger] c.sessions[k]).id != id
                    ==> d.sessions.contains(c.sessions[k])
            &&& forall|k: int|
                0 <= k < c.messages.len() && (#[trigger] c.messages[k]).session != id
                    ==> d.messages.contains(c.messages[k])
            &&& forall|k: int|
                0 <= k < c.usage.len() && (#[trigger] c.usage[k]).session != id
                    ==> d.usage.contains(c.usage[k])
            &&& c.active.contains_key(chat) && c.active[chat] != id ==> d.active.contains_key(chat)
                && d.active[chat] == c.active[chat]
            &&& d.next_message_id == c.next_message_id
        }),
{
    broadcast use vstd::seq_lib::group_filter_ensures;

    let keep_session = |session: SessionView| session.id != id;
    let keep_message = |row: StoredView| row.session != id;
    let keep_usage = |row: UsageView| row.session != id;
    lemma_kept(c.sessions, keep_session);
    lemma_kept(c.messages, keep_message);
    lemma_kept(c.usage, keep_usage);
    assert forall|k: int| 0 <= k < c.sessions.len() && (#[trigger] c.sessions[k]).id
        != id implies session_deleted(c, id).sessions.contains(c.sessions[k]) by {
        assert(c.sessions.contains(c.sessions[k]));
        assert(keep_session(c.sessions[k]));
    }
    assert forall|k: int| 0 <= k < c.messages.len() && (#[trigger] c.messages[k]).session
        != id implies session_deleted(c, id).messages.contains(c.messages[k]) by {
        assert(c.messages.contains(c.messages[k]));
        assert(keep_message(c.messages[k]));
    }
    assert forall|k: int| 0 <= k < c.usage.len() && (#[trigger] c.usage[k]).session
        != id implies session_deleted(c, id).usage.contains(c.usage[k]) by {
        assert(c.usage.contains(c.usage[k]));
        assert(keep_usage(c.usage[k]));
    }
}

/// Leaving a session, or going into one, changes where that chat is and nothing else: a chat that goes
/// into another chat's session sees what that chat sees, and every other chat sees what it saw.
pub proof fn law_a_session_is_seen_from_any_chat(
    c: ConversationsView,
    chat: i64,
    other: i64,
    id: Seq<char>,
)
    requires
        other != chat,
    ensures
        c.active.contains_key(other) ==> history_of(resumed(c, chat, c.active[other]), chat)
            == history_of(c, other),
        history_of(resumed(c, chat, id), other) == history_of(c, other),
        history_of(left(c, chat), other) == history_of(c, other),
        resumed(c, chat, id).sessions == c.sessions,
        resumed(c, chat, id).messages == c.messages,
        resumed(c, chat, id).usage == c.usage,
        resumed(c, chat, id).active.contains_key(chat),
        resumed(c, chat, id).active[chat] == id,
        !left(c, chat).active.contains_key(chat),
        left(c, chat).usage == c.usage,
{
    let d = resumed(c, chat, c.active[other]);
    assert(d.sessions == c.sessions);
}

/// A chat's history is what was said in its session since the last summary, all of it and nothing
/// else.
pub proof fn law_histories_hold_what_was_said(c: ConversationsView, chat: i64, k: int)
    requires
        valid(c),
        c.active.contains_key(chat),
        0 <= k < c.sessions.len(),
        c.sessions[k].id == c.active[chat],
    ensures
        history_of(c, chat).summary == c.sessions[k].summary,
        forall|i: int|
            0 <= i < c.messages.len() && (#[trigger] c.messages[i]).session == c.sessions[k].id
                && c.messages[i].id > c.sessions[k].summarized ==> history_of(
                c,
                chat,
            ).messages.contains(c.messages[i].message),
        forall|n: int|
            0 <= n < history_of(c, chat).messages.len() ==> was_said(
                c,
                c.sessions[k],
                #[trigger] history_of(c, chat).messages[n],
            ),
{
    broadcast use vstd::seq_lib::group_filter_ensures;

    lemma_session_of(c, k);
    let session = c.sessions[k];
    let meets = unsummarized(session.id, session.summarized);
    let kept = c.messages.filter(meets);
    let told = history_of(c, chat).messages;
    assert(told =~= kept.map_values(message_of()));
    lemma_kept(c.messages, meets);
    assert forall|i: int|
        0 <= i < c.messages.len() && (#[trigger] c.messages[i]).session == session.id
            && c.messages[i].id > session.summarized implies told.contains(c.messages[i].message) by {
        assert(meets(c.messages[i]));
        assert(kept.contains(c.messages[i]));
        let n = choose|n: int| 0 <= n < kept.len() && kept[n] == c.messages[i];
        assert(told[n] == c.messages[i].message);
    }
    assert forall|n: int| 0 <= n < told.len() implies was_said(c, session, #[trigger] told[n]) by {
        assert(meets(kept[n]));
        assert(kept.contains(kept[n]));
        assert(c.messages.contains(kept[n]));
        let i = choose|i: int| 0 <= i < c.messages.len() && c.messages[i] == kept[n];
        assert(c.messages[i].message == told[n]);
    }
}

/// Whether a message was said in a session since its last summary.
pub open spec fn was_said(c: ConversationsView, session: SessionView, message: MessageView) -> bool {
    exists|i: int|
        0 <= i < c.messages.len() && (#[trigger] c.messages[i]).session == session.id
            && c.messages[i].id > session.summarized && c.messages[i].message == message
}

/// What is counted as a session's is just what was stored in it.
pub proof fn law_rows_belong_to_their_session(row: StoredView, cost: UsageView, id: Seq<char>)
    ensures
        in_session(id)(row) <==> row.session == id,
        usage_in(id)(cost) <==> cost.session == id,
{
}

} // verus!
