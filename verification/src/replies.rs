//! The answers to the commands that look at or change what is stored.
use vstd::prelude::*;
use vstd::string::*;

use crate::clock::{shown, MINUTES, SECONDS_UTC};
use crate::commands::{CommandSet, CommandTemplate, ShadowedCommand};
use crate::order::sole;
use crate::storage::audit::{latest_events, EventView};
use crate::storage::jobs::{latest_jobs, JobView};
use crate::storage::memory::{
    has_id, law_forgetting_takes_one_fact, law_rewording_changes_one_fact, match_of, with_content,
    without_id, EntryView, MatchView,
};
use crate::storage::sessions::{
    active_view, left, resumed, session_deleted, session_list, session_named, tokens_of, ActiveView,
    SummaryView,
};
use crate::storage::tasks::{agenda, called_off, pending_in, pending_named, TaskView};
use crate::storage::{
    ActiveSession, Database, MemoryEntry, MemoryMatch, SessionSummary, StorageError,
};
use crate::text::{
    contains, decimal, decimal_i64, decimal_u64, decimal_usize, ends_in, in_turn, is_digit, join,
    joined, law_decimals_read_back, law_replacing_spares_the_rest, law_signed_decimals_read_back,
    lemma_ends_in, lemma_four, lemma_in_turn_contains, lemma_in_turn_push, lemma_join_in_turn,
    lemma_one, lemma_three, lemma_two, lower, lowered, occurs_at, opt_view, parse_i64, parse_int,
    replace_all, replaced, same, seq_view, signed_decimal, slice, take_chars, texts, to_chars,
    trim, trimmed, white_space,
};
use crate::tools::output::{short_id, shorten};
use crate::tools::reminders::{show_or, shown_or};

verus! {

/// A text cut to `max` characters, with a mark where something was cut.
pub open spec fn cut(text: Seq<char>, max: int) -> Seq<char> {
    if text.len() > max {
        text.take(max).push('\u{2026}')
    } else {
        text
    }
}

pub fn truncate(text: &str, max: usize) -> (r: String)
    ensures
        r@ == cut(text@, max as int),
{
    let mut r = take_chars(text, max);
    if to_chars(text).len() > max {
        r.push('\u{2026}');
    }
    r
}

/// A point in time in UTC, to the minute.
pub open spec fn timestamp_text(timestamp: i64) -> Seq<char> {
    shown_or(timestamp, "UTC"@, MINUTES@, "unknown time"@)
}

pub fn format_timestamp(timestamp: i64) -> (r: String)
    ensures
        r@ == timestamp_text(timestamp),
{
    show_or(timestamp, "UTC", MINUTES, "unknown time")
}

/// A text filled up with spaces to `width` characters.
pub open spec fn padded(text: Seq<char>, width: int) -> Seq<char>
    decreases width - text.len(),
{
    if text.len() >= width {
        text
    } else {
        padded(text.push(' '), width)
    }
}

fn pad(text: String, width: usize) -> (r: String)
    ensures
        r@ == padded(text@, width as int),
{
    let mut length: usize = to_chars(text.as_str()).len();
    let mut r = text;
    while length < width
        invariant
            length == r@.len(),
            padded(text@, width as int) == padded(r@, width as int),
        decreases width - length,
    {
        r.push(' ');
        length = length + 1;
    }
    r
}

/// Puts what is remembered into the system prompt.
pub open spec fn snapshot_text(entries: Seq<EntryView>) -> Seq<char>
    decreases entries.len(),
{
    if entries.len() == 0 {
        "Remembered facts about the user (persist across conversations):"@
    } else {
        snapshot_text(entries.drop_last()) + "\n- "@ + entries.last().content
    }
}

/// Renders every remembered fact as a system-prompt block, or an empty string when there is
/// nothing remembered yet (so callers can skip adding an empty section).
pub fn render_memory_snapshot(entries: &Vec<MemoryEntry>) -> (r: String)
    ensures
        r@ == (if entries@.len() == 0 {
            seq![]
        } else {
            snapshot_text(seq_view(entries@))
        }),
{
    if entries.len() == 0 {
        let r = String::new();
        assert(r@ =~= seq![]);
        return r;
    }
    let ghost all = seq_view(entries@);
    let mut r = "Remembered facts about the user (persist across conversations):".to_owned();
    let mut i: usize = 0;
    assert(all.take(0) =~= seq![]);
    while i < entries.len()
        invariant
            i <= entries@.len(),
            all == seq_view(entries@),
            r@ == snapshot_text(all.take(i as int)),
        decreases entries@.len() - i,
    {
        assert(all.take(i + 1).drop_last() =~= all.take(i as int));
        assert(all.take(i + 1).last() == entries@[i as int]@);
        r.push_str("\n- ");
        r.push_str(entries[i].content.as_str());
        i = i + 1;
    }
    assert(all.take(i as int) =~= all);
    r
}

/// Leaves the conversation that the chat is in: a fresh one starts with the normal per-call
/// approval prompts again.
pub fn start_new(database: &mut Database, chat_id: i64) -> (r: String)
    requires
        old(database).wf(),
    ensures
        final(database).wf(),
        *final(database) == (Database {
            conversations: final(database).conversations,
            settings: final(database).settings,
            ..*old(database)
        }),
        final(database).settings.workspaces == old(database).settings.workspaces,
        final(database).conversations@ == left(old(database).conversations@, chat_id),
        final(database).allowed_tools() == old(database).allowed_tools().filter(
            |grant: (i64, Seq<char>)| grant.0 != chat_id,
        ),
        r@ == (if old(database).conversations@.active.contains_key(chat_id) {
            "Started a new conversation. Your previous history is still stored."@
        } else {
            "There is no active conversation yet."@
        }),
{
    let cleared = database.clear_active_session(chat_id);
    database.clear_always_allowed(chat_id);
    (if cleared {
        "Started a new conversation. Your previous history is still stored."
    } else {
        "There is no active conversation yet."
    }).to_owned()
}

/// What `/status` tells of the session that the chat is in.
pub open spec fn session_status(session: Option<ActiveView>) -> Seq<char> {
    match session {
        None => "none (created after the first successful reply)"@,
        Some(session) => session.title + " ("@ + short_id(session.id) + ")\nMessages: "@
            + signed_decimal(session.message_count as int) + "\nRequests: "@ + signed_decimal(
            session.request_count as int,
        ) + "\nTokens: "@ + signed_decimal(session.total_tokens as int) + "\nCompacted: "@ + (
        if session.summary is Some {
            "yes (through message "@ + signed_decimal(session.summarized as int) + ")"@
        } else {
            "no"@
        }),
    }
}

fn describe_session(session: &Option<ActiveSession>) -> (r: String)
    ensures
        r@ == session_status(opt_view(*session)),
{
    match session {
        None => "none (created after the first successful reply)".to_owned(),
        Some(session) => {
            let mut r = session.title.clone();
            r.push_str(" (");
            r.push_str(shorten(session.id.as_str()).as_str());
            r.push_str(")\nMessages: ");
            r.push_str(decimal_i64(session.message_count).as_str());
            r.push_str("\nRequests: ");
            r.push_str(decimal_i64(session.request_count).as_str());
            r.push_str("\nTokens: ");
            r.push_str(decimal_i64(session.total_tokens).as_str());
            r.push_str("\nCompacted: ");
            if session.summary.is_some() {
                r.push_str("yes (through message ");
                r.push_str(decimal_i64(session.summarized_message_id).as_str());
                r.push_str(")");
            } else {
                r.push_str("no");
            }
            assert(r@ =~= session_status(Some(session@)));
            r
        },
    }
}

/// What `/status` says besides the session.
#[derive(Debug)]
pub struct StatusFacts {
    pub model: String,
    /// The name of the provider in use, where it has one.
    pub provider: Option<String>,
    pub context_window: Option<u64>,
    pub workspace: String,
    pub rtk: bool,
    /// One line for each MCP server.
    pub servers: Vec<String>,
    /// Where the database is.
    pub database: String,
}

pub open spec fn status_text(facts: StatusFacts, session: Option<ActiveView>) -> Seq<char> {
    "Model: "@ + facts.model@ + (match facts.provider {
        Some(name) => " ("@ + name@ + ")"@,
        None => seq![],
    }) + "\nContext window: "@ + (match facts.context_window {
        Some(window) => decimal(window as nat),
        None => "default"@,
    }) + "\nWorkspace: "@ + facts.workspace@ + "\nRTK: "@ + (if facts.rtk {
        "on"@
    } else {
        "off"@
    }) + "\nSession: "@ + session_status(session) + "\nMCP:\n"@ + (if facts.servers@.len() == 0 {
        "none"@
    } else {
        join(texts(facts.servers@), "\n"@)
    }) + "\nDatabase: "@ + facts.database@
}

/// The state of the gateway and of the chat's conversation.
pub fn status_message(database: &Database, chat_id: i64, facts: &StatusFacts) -> (r: Result<
    String,
    StorageError,
>)
    requires
        database.wf(),
    ensures
        ({
            let c = database.conversations@;
            match r {
                Ok(text) => text@ == status_text(
                    *facts,
                    if c.active.contains_key(chat_id) {
                        Some(active_view(c, c.active[chat_id]))
                    } else {
                        None
                    },
                ),
                Err(error) => error == StorageError::TokenCount && c.active.contains_key(chat_id)
                    && tokens_of(c.usage, c.active[chat_id]) > i64::MAX,
            }
        }),
{
    let session = match database.active_session(chat_id) {
        Ok(session) => session,
        Err(error) => {
            return Err(error);
        },
    };
    let mut r = "Model: ".to_owned();
    r.push_str(facts.model.as_str());
    if let Some(name) = &facts.provider {
        r.push_str(" (");
        r.push_str(name.as_str());
        r.push_str(")");
    }
    r.push_str("\nContext window: ");
    match facts.context_window {
        Some(window) => {
            r.push_str(decimal_u64(window).as_str());
        },
        None => {
            r.push_str("default");
        },
    }
    r.push_str("\nWorkspace: ");
    r.push_str(facts.workspace.as_str());
    r.push_str("\nRTK: ");
    r.push_str(
        if facts.rtk {
            "on"
        } else {
            "off"
        },
    );
    r.push_str("\nSession: ");
    r.push_str(describe_session(&session).as_str());
    r.push_str("\nMCP:\n");
    if facts.servers.len() == 0 {
        r.push_str("none");
    } else {
        r.push_str(joined(&facts.servers, "\n").as_str());
    }
    r.push_str("\nDatabase: ");
    r.push_str(facts.database.as_str());
    assert(r@ =~= status_text(*facts, opt_view(session)));
    Ok(r)
}

/// A heading, lines, an empty line and a closing line.
pub open spec fn report(head: Seq<char>, body: Seq<Seq<char>>, foot: Seq<char>) -> Seq<char> {
    join((seq![head] + body).push(seq![]).push(foot), "\n"@)
}

fn make_report(head: &str, body: Vec<String>, foot: &str) -> (r: String)
    ensures
        r@ == report(head@, texts(body@), foot@),
{
    let ghost lines = texts(body@);
    let mut body = body;
    let mut all: Vec<String> = Vec::new();
    all.push(head.to_owned());
    all.append(&mut body);
    all.push(String::new());
    all.push(foot.to_owned());
    assert(texts(all@) =~= (seq![head@] + lines).push(seq![]).push(foot@)) by {
        assert(Seq::<char>::empty() =~= seq![]);
    }
    joined(&all, "\n")
}

pub open spec fn session_line(session: SummaryView, active: Option<Seq<char>>) -> Seq<char> {
    (if active == Some(session.id) {
        "*"@
    } else {
        " "@
    }) + " "@ + short_id(session.id) + "  "@ + timestamp_text(session.updated_at) + "  "@ + padded(
        cut(session.title, 40),
        40,
    ) + "  "@ + signed_decimal(session.message_count as int) + " messages"@
}

pub open spec fn session_lines(sessions: Seq<SummaryView>, active: Option<Seq<char>>) -> Seq<
    Seq<char>,
> {
    Seq::new(sessions.len(), |i: int| session_line(sessions[i], active))
}

fn describe_listed(session: &SessionSummary, active: &Option<String>) -> (r: String)
    ensures
        r@ == session_line(session@, opt_view(*active)),
{
    let is_active = match active {
        Some(id) => same(id.as_str(), session.id.as_str()),
        None => false,
    };
    let mut r = (if is_active {
        "*"
    } else {
        " "
    }).to_owned();
    r.push_str(" ");
    r.push_str(shorten(session.id.as_str()).as_str());
    r.push_str("  ");
    r.push_str(format_timestamp(session.updated_at).as_str());
    r.push_str("  ");
    r.push_str(pad(truncate(session.title.as_str(), 40), 40).as_str());
    r.push_str("  ");
    r.push_str(decimal_i64(session.message_count).as_str());
    r.push_str(" messages");
    r
}

/// Lists every saved session of the chat, newest first, marking the active one. `/new` only
/// detaches the active pointer, so this is how a retired session becomes visible again.
pub fn sessions_message(database: &Database, chat_id: i64) -> (r: Result<String, StorageError>)
    requires
        database.wf(),
    ensures
        ({
            let c = database.conversations@;
            let sessions = session_list(c, chat_id);
            let active = if c.active.contains_key(chat_id) {
                Some(c.active[chat_id])
            } else {
                None
            };
            match r {
                Ok(text) => text@ == (if sessions.len() == 0 {
                    "No saved sessions yet."@
                } else {
                    report(
                        "Saved sessions:"@,
                        session_lines(sessions, active),
                        "Use /resume <id> to switch, or /delete <id> to remove one."@,
                    )
                }),
                Err(error) => error == StorageError::TokenCount && c.active.contains_key(chat_id)
                    && tokens_of(c.usage, c.active[chat_id]) > i64::MAX,
            }
        }),
{
    let sessions = database.list_sessions(chat_id);
    let ghost all = seq_view(sessions@);
    if sessions.len() == 0 {
        return Ok("No saved sessions yet.".to_owned());
    }
    let active: Option<String> = match database.active_session(chat_id) {
        Ok(Some(session)) => Some(session.id),
        Ok(None) => None,
        Err(error) => {
            return Err(error);
        },
    };
    let mut lines: Vec<String> = Vec::new();
    let mut i: usize = 0;
    while i < sessions.len()
        invariant
            i <= sessions@.len(),
            lines@.len() == i,
            forall|k: int|
                0 <= k < i ==> (#[trigger] lines@[k])@ == session_line(
                    sessions@[k]@,
                    opt_view(active),
                ),
        decreases sessions@.len() - i,
    {
        lines.push(describe_listed(&sessions[i], &active));
        i = i + 1;
    }
    assert(texts(lines@) =~= session_lines(all, opt_view(active)));
    Ok(
        make_report(
            "Saved sessions:",
            lines,
            "Use /resume <id> to switch, or /delete <id> to remove one.",
        ),
    )
}

/// What is answered where something was done with what has this id.
pub open spec fn done_with(deed: Seq<char>, id: Seq<char>) -> Seq<char> {
    deed + id + "."@
}

/// What is answered where no reminder, or more than one, has an id with this start.
pub open spec fn no_such_reminder(id: Seq<char>) -> Seq<char> {
    "No reminder matches '"@ + id + "', or the prefix is ambiguous. Use /reminders to list them."@
}

pub open spec fn no_such_session(id: Seq<char>) -> Seq<char> {
    "No session matches '"@ + id
        + "', or the prefix is ambiguous. Use /sessions to list saved sessions."@
}

fn no_session(id: &str) -> (r: String)
    ensures
        r@ == no_such_session(id@),
{
    let mut r = "No session matches '".to_owned();
    r.push_str(id);
    r.push_str("', or the prefix is ambiguous. Use /sessions to list saved sessions.");
    r
}

/// Switches the chat to a previously saved session, identified by an unambiguous id prefix scoped
/// to this chat (so one chat cannot resume another chat's session by guessing).
pub fn resume_session(database: &mut Database, chat_id: i64, id_prefix: &str) -> (r: String)
    requires
        old(database).wf(),
    ensures
        final(database).wf(),
        *final(database) == (Database {
            conversations: final(database).conversations,
            ..*old(database)
        }),
        ({
            let c = old(database).conversations@;
            if id_prefix@.len() == 0 {
                r@ == "Usage: /resume <id>. Use /sessions to list saved sessions."@
                    && *final(database) == *old(database)
            } else {
                match sole(c.sessions, session_named(chat_id, id_prefix@)) {
                    None => r@ == no_such_session(id_prefix@) && *final(database) == *old(
                        database,
                    ),
                    Some(i) => r@ == done_with("Resumed session "@, short_id(c.sessions[i].id))
                        && final(database).conversations@ == resumed(
                        c,
                        chat_id,
                        c.sessions[i].id,
                    ),
                }
            }
        }),
{
    if id_prefix.is_empty() {
        return "Usage: /resume <id>. Use /sessions to list saved sessions.".to_owned();
    }
    let id = match database.find_session_by_prefix(chat_id, id_prefix) {
        Some(id) => id,
        None => {
            return no_session(id_prefix);
        },
    };
    proof {
        let c = old(database).conversations@;
        crate::order::law_sole_is_unambiguous(c.sessions, session_named(chat_id, id_prefix@));
        let i = sole(c.sessions, session_named(chat_id, id_prefix@))->0;
        assert(c.sessions[i].id == id@);
        assert(crate::storage::sessions::has_session(c.sessions, id@));
    }
    let done = database.set_active_session(chat_id, id.as_str());
    assert(done is Ok);
    let mut r = "Resumed session ".to_owned();
    r.push_str(shorten(id.as_str()).as_str());
    r.push_str(".");
    r
}

/// Permanently deletes a saved session, identified the same way as for `/resume`.
pub fn delete_session(database: &mut Database, chat_id: i64, id_prefix: &str) -> (r: String)
    requires
        old(database).wf(),
    ensures
        final(database).wf(),
        *final(database) == (Database {
            conversations: final(database).conversations,
            ..*old(database)
        }),
        ({
            let c = old(database).conversations@;
            if id_prefix@.len() == 0 {
                r@ == "Usage: /delete <id>. Use /sessions to list saved sessions."@
                    && *final(database) == *old(database)
            } else {
                match sole(c.sessions, session_named(chat_id, id_prefix@)) {
                    None => r@ == no_such_session(id_prefix@) && *final(database) == *old(
                        database,
                    ),
                    Some(i) => r@ == done_with("Deleted session "@, short_id(c.sessions[i].id))
                        && final(database).conversations@ == session_deleted(c, c.sessions[i].id),
                }
            }
        }),
{
    if id_prefix.is_empty() {
        return "Usage: /delete <id>. Use /sessions to list saved sessions.".to_owned();
    }
    let id = match database.find_session_by_prefix(chat_id, id_prefix) {
        Some(id) => id,
        None => {
            return no_session(id_prefix);
        },
    };
    database.delete_session(id.as_str());
    let mut r = "Deleted session ".to_owned();
    r.push_str(shorten(id.as_str()).as_str());
    r.push_str(".");
    r
}

pub open spec fn fact_lines(entries: Seq<EntryView>) -> Seq<Seq<char>> {
    Seq::new(
        entries.len(),
        |i: int| "- #"@ + signed_decimal(entries[i].id as int) + " "@ + entries[i].content,
    )
}

/// Shows what is remembered on disk.
pub fn memory_message(database: &Database) -> (r: String)
    ensures
        r@ == (if database.facts().len() == 0 {
            "Nothing remembered yet."@
        } else {
            report(
                "Remembered facts:"@,
                fact_lines(database.facts()),
                "Changes here take effect in conversation after Kumo restarts. Use /memory edit <id> <fact>, /forget <id>, or /forget all."@,
            )
        }),
{
    let entries = database.list_memory();
    let ghost all = seq_view(entries@);
    if entries.len() == 0 {
        return "Nothing remembered yet.".to_owned();
    }
    let mut lines: Vec<String> = Vec::new();
    let mut i: usize = 0;
    while i < entries.len()
        invariant
            i <= entries@.len(),
            all == seq_view(entries@),
            lines@.len() == i,
            forall|k: int| 0 <= k < i ==> (#[trigger] lines@[k])@ == fact_lines(all)[k],
        decreases entries@.len() - i,
    {
        let mut line = "- #".to_owned();
        line.push_str(decimal_i64(entries[i].id).as_str());
        line.push_str(" ");
        line.push_str(entries[i].content.as_str());
        lines.push(line);
        i = i + 1;
    }
    assert(texts(lines@) =~= fact_lines(all));
    make_report(
        "Remembered facts:",
        lines,
        "Changes here take effect in conversation after Kumo restarts. Use /memory edit <id> <fact>, /forget <id>, or /forget all.",
    )
}

/// A text without the number signs in front of it.
pub open spec fn without_marks(s: Seq<char>) -> Seq<char>
    decreases s.len(),
{
    if s.len() > 0 && s[0] == '#' {
        without_marks(s.drop_first())
    } else {
        s
    }
}

/// The number of a fact, as people write it.
pub open spec fn fact_number(text: Seq<char>) -> Option<i64> {
    match parse_int(without_marks(text)) {
        Some(n) => if i64::MIN <= n <= i64::MAX {
            Some(n as i64)
        } else {
            None
        },
        None => None,
    }
}

fn read_fact_number(text: &str) -> (r: Option<i64>)
    ensures
        r == fact_number(text@),
{
    let chars = to_chars(text);
    let mut i: usize = 0;
    assert(text@.skip(0) =~= text@);
    while i < chars.len() && chars[i] == '#'
        invariant
            chars@ == text@,
            i <= chars@.len(),
            without_marks(text@) == without_marks(text@.skip(i as int)),
        decreases chars@.len() - i,
    {
        assert(text@.skip(i as int).drop_first() =~= text@.skip(i + 1));
        i = i + 1;
    }
    let rest = slice(&chars, i, chars.len());
    assert(rest@ =~= text@.skip(i as int));
    parse_i64(rest.as_str())
}

pub open spec fn no_such_number(id: i64) -> Seq<char> {
    "Memory #"@ + signed_decimal(id as int) + " does not exist. Use /memory to list IDs."@
}

fn no_number(id: i64) -> (r: String)
    ensures
        r@ == no_such_number(id),
{
    let mut r = "Memory #".to_owned();
    r.push_str(decimal_i64(id).as_str());
    r.push_str(" does not exist. Use /memory to list IDs.");
    r
}

/// Facts, each on a line of its own.
pub open spec fn bullet_list(facts: Seq<Seq<char>>) -> Seq<char>
    decreases facts.len(),
{
    if facts.len() == 0 {
        seq![]
    } else {
        bullet_list(facts.drop_last()) + "\n- "@ + facts.last()
    }
}

/// What `/forget` does.
pub open spec fn forget_done(before: Database, after: Database, argument: Seq<char>, r: Seq<char>) -> bool {
    let facts = before.facts();
    if argument.len() == 0 {
        r == "Usage: /forget <id>, /forget <text>, or /forget all. Use /memory to list IDs."@
            && after == before
    } else if lower(argument) == "all"@ {
        r == "Forgot all "@ + decimal(facts.len()) + " remembered fact(s)."@
            && after.facts().len() == 0
    } else if let Some(id) = fact_number(argument) {
        &&& r == (if has_id(facts, id) {
            "Forgot memory #"@ + signed_decimal(id as int) + "."@
        } else {
            no_such_number(id)
        })
        &&& after.facts() == without_id(facts, id)
    } else {
        match match_of(facts, argument) {
            MatchView::One(id) => r == "Forgot the fact matching \""@ + argument + "\"."@
                && after.facts() == without_id(facts, id),
            MatchView::NoMatch => r == "No remembered fact contains \""@ + argument
                + "\". Use /memory to see exact wording."@ && after.facts() == facts,
            MatchView::Ambiguous(entries) => r == "\""@ + argument + "\" matches "@ + decimal(
                entries.len(),
            ) + " remembered facts. Use text unique to one of them:"@ + bullet_list(entries)
                && after.facts() == facts,
        }
    }
}

/// `/forget all` clears every remembered fact; `/forget <id>` removes one by its number;
/// `/forget <text>` removes one matched by an unambiguous substring, the same rule the `forget`
/// tool uses.
pub fn forget_command(database: &mut Database, argument: &str) -> (r: String)
    requires
        old(database).wf(),
    ensures
        final(database).wf(),
        *final(database) == (Database { memory: final(database).memory, ..*old(database) }),
        final(database).memory.next_id == old(database).memory.next_id,
        forget_done(*old(database), *final(database), argument@, r@),
{
    if argument.is_empty() {
        return "Usage: /forget <id>, /forget <text>, or /forget all. Use /memory to list IDs.".to_owned();
    }
    if same(lowered(argument).as_str(), "all") {
        let count = database.clear_memory();
        let mut r = "Forgot all ".to_owned();
        r.push_str(decimal_usize(count).as_str());
        r.push_str(" remembered fact(s).");
        return r;
    }
    if let Some(id) = read_fact_number(argument) {
        if database.forget_memory_by_id(id) {
            let mut r = "Forgot memory #".to_owned();
            r.push_str(decimal_i64(id).as_str());
            r.push_str(".");
            return r;
        }
        return no_number(id);
    }
    match database.forget(argument) {
        MemoryMatch::One(_) => {
            let mut r = "Forgot the fact matching \"".to_owned();
            r.push_str(argument);
            r.push_str("\".");
            r
        },
        MemoryMatch::NoMatch => {
            let mut r = "No remembered fact contains \"".to_owned();
            r.push_str(argument);
            r.push_str("\". Use /memory to see exact wording.");
            r
        },
        MemoryMatch::Ambiguous(entries) => {
            let ghost all = texts(entries@);
            assert(all.len() == entries@.len());
            let mut r = "\"".to_owned();
            r.push_str(argument);
            r.push_str("\" matches ");
            r.push_str(decimal_usize(entries.len()).as_str());
            r.push_str(" remembered facts. Use text unique to one of them:");
            let ghost head = r@;
            let mut i: usize = 0;
            assert(all.take(0) =~= seq![]);
            assert(r@ =~= head + bullet_list(all.take(0)));
            while i < entries.len()
                invariant
                    i <= entries@.len(),
                    all == texts(entries@),
                    r@ == head + bullet_list(all.take(i as int)),
                decreases entries@.len() - i,
            {
                assert(all.take(i + 1).drop_last() =~= all.take(i as int));
                assert(all.take(i + 1).last() == entries@[i as int]@);
                r.push_str("\n- ");
                r.push_str(entries[i].as_str());
                i = i + 1;
                assert(r@ =~= head + bullet_list(all.take(i as int)));
            }
            assert(all.take(i as int) =~= all);
            r
        },
    }
}

/// The first position of white space in a text.
pub open spec fn first_space(s: Seq<char>, from: int) -> Option<int>
    decreases s.len() - from,
{
    if from < 0 || from >= s.len() {
        None
    } else if white_space(s[from]) {
        Some(from)
    } else {
        first_space(s, from + 1)
    }
}

/// What `/memory edit` does.
pub open spec fn edit_done(before: Database, after: Database, argument: Seq<char>, r: Seq<char>) -> bool {
    match first_space(argument, 0) {
        None => r == "Usage: /memory edit <id> <fact>. Use /memory to list IDs."@ && after == before,
        Some(at) => match fact_number(argument.take(at)) {
            None => r == "Memory ID must be a number shown by /memory."@ && after == before,
            Some(id) => {
                let fact = trim(argument.skip(at + 1));
                if fact.len() == 0 {
                    r == "The replacement fact cannot be empty."@ && after == before
                } else {
                    &&& r == (if has_id(before.facts(), id) {
                        "Updated memory #"@ + signed_decimal(id as int)
                            + ". Restart Kumo for it to affect conversations."@
                    } else {
                        no_such_number(id)
                    })
                    &&& after.facts() == with_content(before.facts(), id, fact)
                }
            },
        },
    }
}

/// Corrects a remembered fact by its number.
pub fn edit_memory_command(database: &mut Database, argument: &str) -> (r: String)
    requires
        old(database).wf(),
    ensures
        final(database).wf(),
        *final(database) == (Database { memory: final(database).memory, ..*old(database) }),
        final(database).memory.next_id == old(database).memory.next_id,
        edit_done(*old(database), *final(database), argument@, r@),
{
    let chars = to_chars(argument);
    let mut at: usize = 0;
    while at < chars.len() && !chars[at].is_whitespace()
        invariant
            chars@ == argument@,
            at <= chars@.len(),
            first_space(argument@, 0) == first_space(argument@, at as int),
        decreases chars@.len() - at,
    {
        at = at + 1;
    }
    if at == chars.len() {
        return "Usage: /memory edit <id> <fact>. Use /memory to list IDs.".to_owned();
    }
    let number = slice(&chars, 0, at);
    let rest = slice(&chars, at + 1, chars.len());
    assert(number@ =~= argument@.take(at as int));
    assert(rest@ =~= argument@.skip(at + 1));
    let id: i64 = match read_fact_number(number.as_str()) {
        Some(id) => id,
        None => {
            return "Memory ID must be a number shown by /memory.".to_owned();
        },
    };
    let fact = trimmed(rest.as_str());
    if fact.as_str().is_empty() {
        return "The replacement fact cannot be empty.".to_owned();
    }
    if database.update_memory_by_id(id, fact.as_str()) {
        let mut r = "Updated memory #".to_owned();
        r.push_str(decimal_i64(id).as_str());
        r.push_str(". Restart Kumo for it to affect conversations.");
        r
    } else {
        no_number(id)
    }
}

/// A workspace as it is shown: where it is, and whether the chat chose it.
pub open spec fn workspace_text(chosen: bool, active: Seq<char>) -> Seq<char> {
    "Workspace ("@ + (if chosen {
        "chat override"@
    } else {
        "default"@
    }) + "): "@ + active
        + "\n\nUse /workspace <path> to change it or /workspace reset to use the default."@
}

/// The workspace of the chat, `active` being where it resolves to.
pub fn workspace_message(database: &Database, chat_id: i64, active: &str) -> (r: String)
    requires
        database.wf(),
    ensures
        r@ == workspace_text(database.settings.workspaces@.contains_key(chat_id), active@),
{
    let mut r = "Workspace (".to_owned();
    r.push_str(
        if database.workspace_for_chat(chat_id).is_some() {
            "chat override"
        } else {
            "default"
        },
    );
    r.push_str("): ");
    r.push_str(active);
    r.push_str("\n\nUse /workspace <path> to change it or /workspace reset to use the default.");
    r
}

/// Whether the argument of `/workspace` asks for the default.
pub fn resets_workspace(argument: &str) -> (r: bool)
    ensures
        r == (lower(argument@) == "reset"@),
{
    same(lowered(argument).as_str(), "reset")
}

/// Goes back to the default workspace, `active` being where it resolves to.
pub fn reset_workspace(database: &mut Database, chat_id: i64, active: &str) -> (r: String)
    requires
        old(database).wf(),
    ensures
        final(database).wf(),
        *final(database) == (Database { settings: final(database).settings, ..*old(database) }),
        final(database).settings.grants == old(database).settings.grants,
        final(database).settings.workspaces@ == old(database).settings.workspaces@.remove(chat_id),
        r@ == "Workspace reset to default: "@ + active@,
{
    database.clear_workspace_for_chat(chat_id);
    let mut r = "Workspace reset to default: ".to_owned();
    r.push_str(active);
    r
}

/// Where a path leads, and whether that is a directory.
pub open spec fn place_of(resolved: Option<(String, bool)>) -> Option<(Seq<char>, bool)> {
    match resolved {
        Some((path, is_dir)) => Some((path@, is_dir)),
        None => None,
    }
}

/// What is answered to the choice of a workspace.
pub open spec fn chosen_text(argument: Seq<char>, place: Option<(Seq<char>, bool)>) -> Seq<char> {
    match place {
        None => "Workspace does not exist: "@ + argument,
        Some((path, false)) => "Workspace is not a directory: "@ + path,
        Some((path, true)) => "Workspace for this chat: "@ + path,
    }
}

/// The chats' workspaces once one of them has chosen.
pub open spec fn chosen_workspaces(
    workspaces: Map<i64, Seq<char>>,
    chat: i64,
    place: Option<(Seq<char>, bool)>,
) -> Map<i64, Seq<char>> {
    match place {
        Some((path, true)) => workspaces.insert(chat, path),
        _ => workspaces,
    }
}

/// Chooses the chat's workspace: `resolved` is where the given path leads, if anywhere, and whether
/// that is a directory.
pub fn set_workspace(
    database: &mut Database,
    chat_id: i64,
    argument: &str,
    resolved: Option<(String, bool)>,
) -> (r: String)
    requires
        old(database).wf(),
    ensures
        final(database).wf(),
        *final(database) == (Database { settings: final(database).settings, ..*old(database) }),
        final(database).settings.grants == old(database).settings.grants,
        r@ == chosen_text(argument@, place_of(resolved)),
        final(database).settings.workspaces@ == chosen_workspaces(
            old(database).settings.workspaces@,
            chat_id,
            place_of(resolved),
        ),
{
    match resolved {
        None => {
            let mut r = "Workspace does not exist: ".to_owned();
            r.push_str(argument);
            r
        },
        Some((path, is_dir)) => {
            if !is_dir {
                let mut r = "Workspace is not a directory: ".to_owned();
                r.push_str(path.as_str());
                return r;
            }
            database.set_workspace_for_chat(chat_id, path.as_str());
            let mut r = "Workspace for this chat: ".to_owned();
            r.push_str(path.as_str());
            r
        },
    }
}

pub open spec fn template_lines(templates: Seq<CommandTemplate>) -> Seq<Seq<char>> {
    Seq::new(
        templates.len(),
        |i: int|
            "- /"@ + templates[i].name@ + (match templates[i].description {
                Some(description) => " — "@ + description@,
                None => seq![],
            }),
    )
}

/// The file that a path names; the command's name where it names none.
pub open spec fn shadowed_file(shadowed: ShadowedCommand) -> Seq<char> {
    match shadowed.file_name {
        Some(name) => name@,
        None => shadowed.name@,
    }
}

pub open spec fn shadowed_lines(list: Seq<ShadowedCommand>) -> Seq<Seq<char>> {
    Seq::new(
        list.len(),
        |i: int|
            "- "@ + shadowed_file(list[i]) + " would answer to /"@ + list[i].name@
                + ", which is built in. Rename the file to use it."@,
    )
}

pub open spec fn commands_lines(set: CommandSet) -> Seq<Seq<char>> {
    (if set.templates@.len() == 0 {
        seq!["No custom commands found."@]
    } else {
        seq!["Custom commands:"@] + template_lines(set.templates@)
    }) + (if set.shadowed@.len() == 0 {
        seq![]
    } else {
        seq![seq![], "Not loaded — these names are built-in Kumo commands:"@] + shadowed_lines(
            set.shadowed@,
        )
    })
}

/// What is told of the custom commands.
pub open spec fn commands_text(set: CommandSet) -> Seq<char> {
    join(commands_lines(set), "\n"@)
}

/// The `/commands` reply. A template whose name collides with a built-in is named here rather than
/// omitted: the file exists on disk and the owner expects it to work.
pub fn commands_message(set: &CommandSet) -> (r: String)
    ensures
        r@ == commands_text(*set),
{
    let mut lines: Vec<String> = Vec::new();
    if set.templates.len() == 0 {
        lines.push("No custom commands found.".to_owned());
        assert(texts(lines@) =~= seq!["No custom commands found."@]);
    } else {
        lines.push("Custom commands:".to_owned());
        let ghost all = template_lines(set.templates@);
        let mut i: usize = 0;
        assert(texts(lines@) =~= seq!["Custom commands:"@] + all.take(0));
        while i < set.templates.len()
            invariant
                i <= set.templates@.len(),
                all == template_lines(set.templates@),
                texts(lines@) == seq!["Custom commands:"@] + all.take(i as int),
            decreases set.templates@.len() - i,
        {
            let ghost earlier = lines@;
            let mut line = "- /".to_owned();
            line.push_str(set.templates[i].name.as_str());
            if let Some(description) = &set.templates[i].description {
                line.push_str(" — ");
                line.push_str(description.as_str());
            }
            assert(line@ =~= all[i as int]);
            lines.push(line);
            i = i + 1;
            assert(texts(lines@) =~= texts(earlier).push(line@));
            assert(all.take(i as int) =~= all.take(i - 1).push(all[i - 1]));
            assert(texts(lines@) =~= seq!["Custom commands:"@] + all.take(i as int));
        }
        assert(all.take(i as int) =~= all);
    }
    let ghost head = texts(lines@);
    if set.shadowed.len() > 0 {
        let ghost opening: Seq<Seq<char>> = seq![
            seq![],
            "Not loaded — these names are built-in Kumo commands:"@,
        ];
        let ghost before = lines@;
        lines.push(String::new());
        lines.push("Not loaded — these names are built-in Kumo commands:".to_owned());
        assert(texts(lines@) =~= head + opening) by {
            assert(Seq::<char>::empty() =~= seq![]);
        }
        let ghost all = shadowed_lines(set.shadowed@);
        let mut i: usize = 0;
        assert(texts(lines@) =~= head + (opening + all.take(0)));
        while i < set.shadowed.len()
            invariant
                i <= set.shadowed@.len(),
                all == shadowed_lines(set.shadowed@),
                texts(lines@) == head + (opening + all.take(i as int)),
            decreases set.shadowed@.len() - i,
        {
            let ghost earlier = lines@;
            let mut line = "- ".to_owned();
            let file = match &set.shadowed[i].file_name {
                Some(name) => name.clone(),
                None => set.shadowed[i].name.clone(),
            };
            line.push_str(file.as_str());
            line.push_str(" would answer to /");
            line.push_str(set.shadowed[i].name.as_str());
            line.push_str(", which is built in. Rename the file to use it.");
            assert(line@ =~= all[i as int]);
            lines.push(line);
            i = i + 1;
            assert(texts(lines@) =~= texts(earlier).push(line@));
            assert(all.take(i as int) =~= all.take(i - 1).push(all[i - 1]));
            assert(texts(lines@) =~= head + (opening + all.take(i as int)));
        }
        assert(all.take(i as int) =~= all);
    }
    assert(texts(lines@) =~= commands_lines(*set));
    joined(&lines, "\n")
}

pub open spec fn event_line(event: EventView) -> Seq<char> {
    "- #"@ + signed_decimal(event.id as int) + " "@ + shown_or(
        event.created_at,
        "UTC"@,
        SECONDS_UTC@,
        signed_decimal(event.created_at as int),
    ) + " "@ + event.event_type + (match event.tool_name {
        Some(name) => " "@ + name,
        None => seq![],
    }) + ": "@ + event.outcome
}

pub open spec fn event_lines(events: Seq<EventView>) -> Seq<Seq<char>> {
    Seq::new(events.len(), |i: int| event_line(events[i]))
}

/// The chat's latest tool trail.
pub fn audit_message(database: &Database, chat_id: i64) -> (r: String)
    ensures
        ({
            let events = latest_events(database.audit_rows(), chat_id, 20);
            r@ == (if events.len() == 0 {
                "No audit events for this chat yet."@
            } else {
                join(seq!["Recent audit events:"@] + event_lines(events), "\n"@)
            })
        }),
{
    let ghost all = latest_events(database.audit_rows(), chat_id, 20);
    let events = match database.list_audit_events(chat_id, 20) {
        Ok(events) => events,
        Err(_) => {
            return "No audit events for this chat yet.".to_owned();
        },
    };
    assert(seq_view(events@).len() == events@.len());
    if events.len() == 0 {
        return "No audit events for this chat yet.".to_owned();
    }
    let mut lines: Vec<String> = Vec::new();
    lines.push("Recent audit events:".to_owned());
    let mut i: usize = 0;
    while i < events.len()
        invariant
            i <= events@.len(),
            seq_view(events@) == all,
            lines@.len() == i + 1,
            lines@[0]@ == "Recent audit events:"@,
            forall|k: int| 1 <= k < i + 1 ==> (#[trigger] lines@[k])@ == event_line(all[k - 1]),
        decreases events@.len() - i,
    {
        assert(events@[i as int]@ == all[i as int]);
        let event = &events[i];
        let mut line = "- #".to_owned();
        line.push_str(decimal_i64(event.id).as_str());
        line.push_str(" ");
        line.push_str(
            show_or(
                event.created_at,
                "UTC",
                SECONDS_UTC,
                decimal_i64(event.created_at).as_str(),
            ).as_str(),
        );
        line.push_str(" ");
        line.push_str(event.event_type.as_str());
        if let Some(name) = &event.tool_name {
            line.push_str(" ");
            line.push_str(name.as_str());
        }
        line.push_str(": ");
        line.push_str(event.outcome.as_str());
        assert(line@ =~= event_line(all[i as int]));
        lines.push(line);
        i = i + 1;
    }
    assert(texts(lines@) =~= seq!["Recent audit events:"@] + event_lines(all));
    joined(&lines, "\n")
}

pub open spec fn job_line(job: JobView) -> Seq<char> {
    "- "@ + short_id(job.id) + " ["@ + job.status + "] "@ + timestamp_text(job.created_at) + " — "@
        + cut(replace_all(job.command, "\n"@, " "@), 80)
}

pub open spec fn job_lines(jobs: Seq<JobView>) -> Seq<Seq<char>> {
    Seq::new(jobs.len(), |i: int| job_line(jobs[i]))
}

/// The chat's background commands.
pub fn jobs_message(database: &Database, chat_id: i64) -> (r: String)
    ensures
        ({
            let jobs = latest_jobs(database.job_rows(), chat_id, 20);
            r@ == (if jobs.len() == 0 {
                "No background jobs for this chat yet."@
            } else {
                report(
                    "Background jobs:"@,
                    job_lines(jobs),
                    "Use /jobs stop <id> to stop a running job."@,
                )
            })
        }),
{
    let ghost all = latest_jobs(database.job_rows(), chat_id, 20);
    let jobs = match database.list_command_jobs(chat_id, 20) {
        Ok(jobs) => jobs,
        Err(_) => {
            return "No background jobs for this chat yet.".to_owned();
        },
    };
    assert(seq_view(jobs@).len() == jobs@.len());
    if jobs.len() == 0 {
        return "No background jobs for this chat yet.".to_owned();
    }
    proof {
        reveal_strlit("\n");
    }
    let mut lines: Vec<String> = Vec::new();
    let mut i: usize = 0;
    while i < jobs.len()
        invariant
            i <= jobs@.len(),
            "\n"@.len() > 0,
            seq_view(jobs@) == all,
            lines@.len() == i,
            forall|k: int| 0 <= k < i ==> (#[trigger] lines@[k])@ == job_line(all[k]),
        decreases jobs@.len() - i,
    {
        assert(jobs@[i as int]@ == all[i as int]);
        let mut line = "- ".to_owned();
        line.push_str(shorten(jobs[i].id.as_str()).as_str());
        line.push_str(" [");
        line.push_str(jobs[i].status.as_str());
        line.push_str("] ");
        line.push_str(format_timestamp(jobs[i].created_at).as_str());
        line.push_str(" — ");
        line.push_str(
            truncate(replaced(jobs[i].command.as_str(), "\n", " ").as_str(), 80).as_str(),
        );
        lines.push(line);
        i = i + 1;
    }
    assert(texts(lines@) =~= job_lines(all));
    make_report("Background jobs:", lines, "Use /jobs stop <id> to stop a running job.")
}

pub open spec fn reminder_line(task: TaskView, zone: Seq<char>) -> Seq<char> {
    "- "@ + short_id(task.id) + "  "@ + shown_or(task.run_at, zone, MINUTES@, "unknown time"@) + (
    match task.repeat {
        Some(interval) => " (repeats every "@ + signed_decimal(interval as int) + "s)"@,
        None => seq![],
    }) + "  \""@ + cut(task.prompt, 60) + "\""@
}

pub open spec fn reminder_lines(tasks: Seq<TaskView>, zone: Seq<char>) -> Seq<Seq<char>> {
    Seq::new(tasks.len(), |i: int| reminder_line(tasks[i], zone))
}

/// Lists the chat's pending reminders (one-shot and recurring), with the id prefix that cancels
/// each.
pub fn reminders_message(database: &Database, zone: &str, chat_id: i64) -> (r: String)
    ensures
        ({
            let tasks = agenda(database.task_rows(), pending_in(chat_id));
            r@ == (if tasks.len() == 0 {
                "No scheduled reminders."@
            } else {
                report(
                    "Scheduled reminders:"@,
                    reminder_lines(tasks, zone@),
                    "Use /reminders cancel <id> to cancel one."@,
                )
            })
        }),
{
    let ghost all = agenda(database.task_rows(), pending_in(chat_id));
    let tasks = database.list_scheduled_tasks(chat_id);
    assert(seq_view(tasks@).len() == tasks@.len());
    if tasks.len() == 0 {
        return "No scheduled reminders.".to_owned();
    }
    let mut lines: Vec<String> = Vec::new();
    let mut i: usize = 0;
    while i < tasks.len()
        invariant
            i <= tasks@.len(),
            seq_view(tasks@) == all,
            lines@.len() == i,
            forall|k: int| 0 <= k < i ==> (#[trigger] lines@[k])@ == reminder_line(all[k], zone@),
        decreases tasks@.len() - i,
    {
        assert(tasks@[i as int]@ == all[i as int]);
        let task = &tasks[i];
        let mut line = "- ".to_owned();
        line.push_str(shorten(task.id.as_str()).as_str());
        line.push_str("  ");
        line.push_str(show_or(task.run_at, zone, MINUTES, "unknown time").as_str());
        if let Some(interval) = task.repeat_interval_seconds {
            line.push_str(" (repeats every ");
            line.push_str(decimal_i64(interval).as_str());
            line.push_str("s)");
        }
        line.push_str("  \"");
        line.push_str(truncate(task.prompt.as_str(), 60).as_str());
        line.push_str("\"");
        assert(line@ =~= reminder_line(all[i as int], zone@));
        lines.push(line);
        i = i + 1;
    }
    assert(texts(lines@) =~= reminder_lines(all, zone@));
    make_report("Scheduled reminders:", lines, "Use /reminders cancel <id> to cancel one.")
}

/// Cancels a pending reminder by an unambiguous id prefix scoped to this chat.
pub fn cancel_reminder(database: &mut Database, chat_id: i64, id_prefix: &str) -> (r: String)
    requires
        old(database).wf(),
    ensures
        final(database).wf(),
        *final(database) == (Database { tasks: final(database).tasks, ..*old(database) }),
        ({
            let rows = old(database).task_rows();
            if id_prefix@.len() == 0 {
                r@ == "Usage: /reminders cancel <id>. Use /reminders to list them."@
                    && *final(database) == *old(database)
            } else {
                match sole(rows, pending_named(chat_id, id_prefix@)) {
                    Some(i) => r@ == done_with("Cancelled reminder "@, id_prefix@)
                        && final(database).task_rows() == called_off(rows, i),
                    None => r@ == no_such_reminder(id_prefix@)
                        && *final(database) == *old(database),
                }
            }
        }),
{
    if id_prefix.is_empty() {
        return "Usage: /reminders cancel <id>. Use /reminders to list them.".to_owned();
    }
    if database.cancel_scheduled_task(chat_id, id_prefix) {
        let mut r = "Cancelled reminder ".to_owned();
        r.push_str(id_prefix);
        r.push_str(".");
        r
    } else {
        let mut r = "No reminder matches '".to_owned();
        r.push_str(id_prefix);
        r.push_str("', or the prefix is ambiguous. Use /reminders to list them.");
        r
    }
}

/// A short text is shown as it is; a long one is cut to its start, and marked as cut.
pub proof fn law_long_texts_are_cut_and_marked(text: Seq<char>, max: int)
    requires
        0 <= max,
    ensures
        text.len() <= max ==> cut(text, max) == text,
        text.len() > max ==> cut(text, max).drop_last() == text.take(max) && cut(text, max).last()
            == '\u{2026}',
        cut(text, max).len() <= max + 1,
{
    if text.len() > max {
        assert(cut(text, max).drop_last() =~= text.take(max));
    }
}

/// A column is filled up with blanks behind its text, and never cut.
pub proof fn law_columns_are_filled_with_blanks(text: Seq<char>, width: int)
    ensures
        padded(text, width).len() == if text.len() >= width {
            text.len() as int
        } else {
            width
        },
        occurs_at(padded(text, width), text, 0),
        forall|k: int|
            text.len() <= k < padded(text, width).len() ==> #[trigger] padded(text, width)[k]
                == ' ',
    decreases width - text.len(),
{
    if text.len() >= width {
        assert(text.subrange(0, text.len() as int) =~= text);
    } else {
        let more = text.push(' ');
        law_columns_are_filled_with_blanks(more, width);
        let all = padded(text, width);
        assert(all.subrange(0, more.len() as int) == more);
        assert(all.subrange(0, text.len() as int) =~= text) by {
            assert forall|k: int| 0 <= k < text.len() implies all[k] == text[k] by {
                assert(all.subrange(0, more.len() as int)[k] == all[k]);
            }
        }
        assert(all[text.len() as int] == all.subrange(0, more.len() as int)[text.len() as int]);
    }
}

/// A reply with a list holds its heading, every line in its order, and its closing words.
pub proof fn law_reports_hold_every_line(
    head: Seq<char>,
    body: Seq<Seq<char>>,
    foot: Seq<char>,
)
    ensures
        in_turn(report(head, body, foot), (seq![head] + body).push(seq![]).push(foot)),
        ends_in(report(head, body, foot), foot),
{
    let parts = (seq![head] + body).push(seq![]).push(foot);
    lemma_join_in_turn(parts, "\n"@);
    lemma_ends_in(join(parts.drop_last(), "\n"@) + "\n"@, foot);
}

/// A session is listed with the start of its id, its date, its name and how much was said in it, and
/// marked exactly where the chat is in it; every session has its line.
pub proof fn law_sessions_are_listed_as_they_are(
    sessions: Seq<SummaryView>,
    active: Option<Seq<char>>,
    i: int,
)
    requires
        0 <= i < sessions.len(),
    ensures
        session_lines(sessions, active).len() == sessions.len(),
        in_turn(
            session_lines(sessions, active)[i],
            seq![
                short_id(sessions[i].id),
                timestamp_text(sessions[i].updated_at),
                cut(sessions[i].title, 40),
                signed_decimal(sessions[i].message_count as int),
            ],
        ),
        session_lines(sessions, active)[i][0] == '*' <==> active == Some(sessions[i].id),
{
    let session = sessions[i];
    let line = session_line(session, active);
    reveal_strlit("*");
    reveal_strlit(" ");
    let mark = if active == Some(session.id) {
        "*"@
    } else {
        " "@
    };
    let title = cut(session.title, 40);
    let column = padded(title, 40);
    law_columns_are_filled_with_blanks(title, 40);
    let fill = column.skip(title.len() as int);
    assert(column =~= title + fill) by {
        assert(column.subrange(0, title.len() as int) =~= column.take(title.len() as int));
    }
    lemma_four(
        mark + " "@,
        short_id(session.id),
        "  "@,
        timestamp_text(session.updated_at),
        "  "@,
        title,
        fill + "  "@,
        signed_decimal(session.message_count as int),
        " messages"@,
    );
    assert(line =~= mark + " "@ + short_id(session.id) + "  "@ + timestamp_text(session.updated_at)
        + "  "@ + title + (fill + "  "@) + signed_decimal(session.message_count as int)
        + " messages"@);
    assert(line[0] == mark[0]);
}

/// Times that carry no zone of their own are shown in UTC, to the minute.
pub proof fn law_dates_are_shown_in_utc(timestamp: i64, time: Seq<char>)
    requires
        shown(timestamp, "UTC"@, "%Y-%m-%d %H:%M"@) == Some(time),
    ensures
        timestamp_text(timestamp) == time,
{
}

/// A fact is listed with its number and in full, and every fact has its line.
pub proof fn law_facts_are_listed_in_full(entries: Seq<EntryView>, i: int)
    requires
        0 <= i < entries.len(),
    ensures
        fact_lines(entries).len() == entries.len(),
        in_turn(
            fact_lines(entries)[i],
            seq![signed_decimal(entries[i].id as int), entries[i].content],
        ),
        ends_in(fact_lines(entries)[i], entries[i].content),
{
    let entry = entries[i];
    let number = signed_decimal(entry.id as int);
    let empty: Seq<char> = seq![];
    let line = fact_lines(entries)[i];
    lemma_two("- #"@, number, " "@, entry.content, empty);
    assert(line =~= "- #"@ + number + " "@ + entry.content + empty);
    lemma_ends_in("- #"@ + number + " "@, entry.content);
}

/// The model is told every remembered fact, in full and in their order.
pub proof fn law_the_model_is_told_every_fact(entries: Seq<EntryView>)
    ensures
        in_turn(snapshot_text(entries), crate::storage::memory::contents(entries)),
    decreases entries.len(),
{
    if entries.len() > 0 {
        let front = entries.drop_last();
        let empty: Seq<char> = seq![];
        law_the_model_is_told_every_fact(front);
        lemma_in_turn_push(
            snapshot_text(front),
            crate::storage::memory::contents(front),
            "\n- "@,
            entries.last().content,
            empty,
        );
        assert(snapshot_text(entries) =~= snapshot_text(front) + "\n- "@ + entries.last().content
            + empty);
        assert(crate::storage::memory::contents(entries) =~= crate::storage::memory::contents(
            front,
        ).push(entries.last().content));
    }
}

/// A fact's number can be written with or without the mark in front of it.
pub proof fn law_fact_numbers_are_read(id: i64)
    ensures
        fact_number(signed_decimal(id as int)) == Some(id),
        fact_number("#"@ + signed_decimal(id as int)) == Some(id),
{
    reveal_strlit("#");
    let number = signed_decimal(id as int);
    law_signed_decimals_read_back(id as int);
    assert(number.len() > 0 && number[0] != '#') by {
        if id < 0 {
            assert(number[0] == '-');
        } else {
            law_decimals_read_back(id as nat);
            assert(is_digit(decimal(id as nat)[0]));
        }
    }
    assert(("#"@ + number).drop_first() =~= number);
    reveal_with_fuel(without_marks, 2);
}

/// Forgetting takes back what was meant and no more: everything, where everything was asked for, the
/// fact with the given number, or the only fact that mentions the given words; else nothing.
pub proof fn law_forgetting_takes_no_more_than_asked(
    before: Database,
    after: Database,
    argument: Seq<char>,
    r: Seq<char>,
)
    requires
        forget_done(before, after, argument, r),
    ensures
        argument.len() == 0 ==> after == before,
        argument.len() > 0 && lower(argument) == "all"@ ==> after.facts().len() == 0,
        argument.len() > 0 && lower(argument) != "all"@ ==> {
            let meant = match fact_number(argument) {
                Some(id) => Some(id),
                None => match match_of(before.facts(), argument) {
                    MatchView::One(id) => Some(id),
                    _ => None,
                },
            };
            &&& meant is None ==> after.facts() == before.facts()
            &&& meant matches Some(id) ==> !has_id(after.facts(), id) && forall|k: int|
                0 <= k < before.facts().len() && (#[trigger] before.facts()[k]).id != id
                    ==> after.facts().contains(before.facts()[k])
        },
{
    if argument.len() > 0 && lower(argument) != "all"@ {
        let meant = match fact_number(argument) {
            Some(id) => Some(id),
            None => match match_of(before.facts(), argument) {
                MatchView::One(id) => Some(id),
                _ => None,
            },
        };
        if let Some(id) = meant {
            law_forgetting_takes_one_fact(before.facts(), id);
        }
    }
}

/// Editing changes the fact with the given number to what was written behind the number, and leaves
/// the others.
pub proof fn law_editing_changes_the_numbered_fact(
    before: Database,
    after: Database,
    number: Seq<char>,
    fact: Seq<char>,
    id: i64,
    r: Seq<char>,
)
    requires
        first_space(number + " "@ + fact, 0) == Some(number.len() as int),
        fact_number(number) == Some(id),
        edit_done(before, after, number + " "@ + fact, r),
    ensures
        trim(fact).len() == 0 ==> after == before,
        trim(fact).len() > 0 ==> after.facts().len() == before.facts().len() && forall|k: int|
            0 <= k < before.facts().len() ==> {
                &&& (#[trigger] after.facts()[k]).id == before.facts()[k].id
                &&& before.facts()[k].id == id ==> after.facts()[k].content == trim(fact)
                &&& before.facts()[k].id != id ==> after.facts()[k] == before.facts()[k]
            },
{
    reveal_strlit(" ");
    let argument = number + " "@ + fact;
    assert(argument.take(number.len() as int) =~= number);
    assert(argument.skip(number.len() + 1int) =~= fact);
    law_rewording_changes_one_fact(before.facts(), id, trim(fact));
}

/// Every fact that a word could mean is named.
pub proof fn law_candidates_are_all_named(facts: Seq<Seq<char>>)
    ensures
        in_turn(bullet_list(facts), facts),
    decreases facts.len(),
{
    if facts.len() > 0 {
        let empty: Seq<char> = seq![];
        law_candidates_are_all_named(facts.drop_last());
        lemma_in_turn_push(
            bullet_list(facts.drop_last()),
            facts.drop_last(),
            "\n- "@,
            facts.last(),
            empty,
        );
        assert(bullet_list(facts) =~= bullet_list(facts.drop_last()) + "\n- "@ + facts.last()
            + empty);
        assert(facts.drop_last().push(facts.last()) =~= facts);
    }
}

/// Every template is listed with its name and what it says of itself, and every file that a built-in
/// command stands in front of is named with that command.
pub proof fn law_templates_are_listed(set: CommandSet, i: int, k: int)
    ensures
        0 <= i < set.templates@.len() ==> {
            &&& template_lines(set.templates@).len() == set.templates@.len()
            &&& contains(template_lines(set.templates@)[i], set.templates@[i].name@)
            &&& set.templates@[i].description matches Some(description) ==> ends_in(
                template_lines(set.templates@)[i],
                description@,
            )
        },
        0 <= k < set.shadowed@.len() ==> {
            &&& shadowed_lines(set.shadowed@).len() == set.shadowed@.len()
            &&& in_turn(
                shadowed_lines(set.shadowed@)[k],
                seq![shadowed_file(set.shadowed@[k]), set.shadowed@[k].name@],
            )
        },
        commands_lines(set).len() >= set.templates@.len() + set.shadowed@.len(),
        0 <= i < set.templates@.len() ==> commands_lines(set)[i + 1] == template_lines(
            set.templates@,
        )[i],
        in_turn(commands_text(set), commands_lines(set)),
{
    lemma_join_in_turn(commands_lines(set), "\n"@);
    if 0 <= i < set.templates@.len() {
        let template = set.templates@[i];
        let line = template_lines(set.templates@)[i];
        let back = match template.description {
            Some(description) => " — "@ + description@,
            None => seq![],
        };
        lemma_one("- /"@, template.name@, back);
        assert(line =~= "- /"@ + template.name@ + back);
        lemma_in_turn_contains(line, seq![template.name@], 0);
        if let Some(description) = template.description {
            lemma_ends_in("- /"@ + template.name@ + " — "@, description@);
            assert(line =~= "- /"@ + template.name@ + " — "@ + description@);
        }
    }
    if 0 <= k < set.shadowed@.len() {
        let shadowed = set.shadowed@[k];
        lemma_two(
            "- "@,
            shadowed_file(shadowed),
            " would answer to /"@,
            shadowed.name@,
            ", which is built in. Rename the file to use it."@,
        );
    }
}

/// An event is listed with its number, what happened, to which tool, and how it ended.
pub proof fn law_events_are_listed_as_recorded(events: Seq<EventView>, i: int)
    requires
        0 <= i < events.len(),
    ensures
        event_lines(events).len() == events.len(),
        in_turn(
            event_lines(events)[i],
            seq![signed_decimal(events[i].id as int), events[i].event_type] + (
            match events[i].tool_name {
                Some(name) => seq![name, events[i].outcome],
                None => seq![events[i].outcome],
            }),
        ),
        ends_in(event_lines(events)[i], events[i].outcome),
        shown(events[i].created_at, "UTC"@, SECONDS_UTC@) matches Some(time) ==> contains(
            event_lines(events)[i],
            time,
        ),
{
    let event = events[i];
    let line = event_line(event);
    let number = signed_decimal(event.id as int);
    let empty: Seq<char> = seq![];
    let time = shown_or(
        event.created_at,
        "UTC"@,
        SECONDS_UTC@,
        signed_decimal(event.created_at as int),
    );
    lemma_ends_in(line.take(line.len() - event.outcome.len()), event.outcome);
    match event.tool_name {
        Some(name) => {
            assert(line =~= "- #"@ + number + (" "@ + time + " "@) + event.event_type + " "@ + name
                + ": "@ + event.outcome + empty);
            lemma_four(
                "- #"@,
                number,
                " "@ + time + " "@,
                event.event_type,
                " "@,
                name,
                ": "@,
                event.outcome,
                empty,
            );
            assert(seq![number, event.event_type] + seq![name, event.outcome] =~= seq![
                number,
                event.event_type,
                name,
                event.outcome,
            ]);
            lemma_one(
                "- #"@ + number + " "@,
                time,
                " "@ + event.event_type + " "@ + name + ": "@ + event.outcome,
            );
            assert(line =~= "- #"@ + number + " "@ + time + (" "@ + event.event_type + " "@ + name
                + ": "@ + event.outcome));
            lemma_in_turn_contains(line, seq![time], 0);
            assert(line.take(line.len() - event.outcome.len()) + event.outcome =~= line);
        },
        None => {
            assert(line =~= "- #"@ + number + (" "@ + time + " "@) + event.event_type + ": "@
                + event.outcome + empty);
            lemma_three(
                "- #"@,
                number,
                " "@ + time + " "@,
                event.event_type,
                ": "@,
                event.outcome,
                empty,
            );
            assert(seq![number, event.event_type] + seq![event.outcome] =~= seq![
                number,
                event.event_type,
                event.outcome,
            ]);
            lemma_one(
                "- #"@ + number + " "@,
                time,
                " "@ + event.event_type + ": "@ + event.outcome,
            );
            assert(line =~= "- #"@ + number + " "@ + time + (" "@ + event.event_type + ": "@
                + event.outcome));
            lemma_in_turn_contains(line, seq![time], 0);
            assert(line.take(line.len() - event.outcome.len()) + event.outcome =~= line);
        },
    }
}

/// A job is listed with the start of its id, how it stands, when it was started, and the start of its
/// command on one line.
pub proof fn law_jobs_are_listed_as_they_stand(jobs: Seq<JobView>, i: int)
    requires
        0 <= i < jobs.len(),
    ensures
        job_lines(jobs).len() == jobs.len(),
        in_turn(
            job_lines(jobs)[i],
            seq![short_id(jobs[i].id), jobs[i].status, timestamp_text(jobs[i].created_at)],
        ),
        !contains(jobs[i].command, "\n"@) && jobs[i].command.len() <= 80 ==> ends_in(
            job_lines(jobs)[i],
            jobs[i].command,
        ),
        !contains(jobs[i].command, "\n"@) && jobs[i].command.len() > 80 ==> contains(
            job_lines(jobs)[i],
            jobs[i].command.take(80),
        ),
{
    let job = jobs[i];
    let line = job_line(job);
    let command = cut(replace_all(job.command, "\n"@, " "@), 80);
    lemma_three(
        "- "@,
        short_id(job.id),
        " ["@,
        job.status,
        "] "@,
        timestamp_text(job.created_at),
        " — "@ + command,
    );
    let front = "- "@ + short_id(job.id) + " ["@ + job.status + "] "@ + timestamp_text(
        job.created_at,
    ) + " — "@;
    assert(line =~= "- "@ + short_id(job.id) + " ["@ + job.status + "] "@ + timestamp_text(
        job.created_at,
    ) + (" — "@ + command));
    if !contains(job.command, "\n"@) {
        reveal_strlit("\n");
        law_replacing_spares_the_rest(job.command, "\n"@, " "@);
        lemma_ends_in(front, command);
        assert(line =~= front + command);
        if job.command.len() > 80 {
            let mark: Seq<char> = seq!['\u{2026}'];
            lemma_one(front, job.command.take(80), mark);
            assert(line =~= front + job.command.take(80) + mark);
            lemma_in_turn_contains(line, seq![job.command.take(80)], 0);
        }
    }
}

/// A reminder is listed with the time it will run at, in the owner's zone, whatever zone that is, in
/// front of what it says; its id stands first, and its gap behind the time where it repeats.
pub proof fn law_reminders_are_listed_in_the_owners_zone(
    tasks: Seq<TaskView>,
    zone: Seq<char>,
    i: int,
    time: Seq<char>,
)
    requires
        0 <= i < tasks.len(),
        shown(tasks[i].run_at, zone, "%Y-%m-%d %H:%M"@) == Some(time),
    ensures
        reminder_lines(tasks, zone).len() == tasks.len(),
        in_turn(
            reminder_lines(tasks, zone)[i],
            match tasks[i].repeat {
                Some(interval) => seq![
                    short_id(tasks[i].id),
                    time,
                    signed_decimal(interval as int),
                    cut(tasks[i].prompt, 60),
                ],
                None => seq![short_id(tasks[i].id), time, cut(tasks[i].prompt, 60)],
            },
        ),
{
    let task = tasks[i];
    let line = reminder_line(task, zone);
    let said = cut(task.prompt, 60);
    match task.repeat {
        Some(interval) => {
            let gap = signed_decimal(interval as int);
            lemma_four(
                "- "@,
                short_id(task.id),
                "  "@,
                time,
                " (repeats every "@,
                gap,
                "s)"@ + "  \""@,
                said,
                "\""@,
            );
            assert(line =~= "- "@ + short_id(task.id) + "  "@ + time + " (repeats every "@ + gap + (
            "s)"@ + "  \""@) + said + "\""@);
        },
        None => {
            lemma_three("- "@, short_id(task.id), "  "@, time, "  \""@, said, "\""@);
            assert(line =~= "- "@ + short_id(task.id) + "  "@ + time + "  \""@ + said + "\""@);
        },
    }
}

/// What the status has to tell, part by part.
pub open spec fn status_parts(facts: StatusFacts, session: Option<ActiveView>) -> Seq<Seq<char>> {
    seq![
        facts.model@,
        match facts.provider {
            Some(name) => name@,
            None => seq![],
        },
        "Context window: "@ + (match facts.context_window {
            Some(window) => decimal(window as nat),
            None => "default"@,
        }),
        facts.workspace@,
        "RTK: "@ + (if facts.rtk {
            "on"@
        } else {
            "off"@
        }),
        session_status(session),
        join(texts(facts.servers@), "\n"@),
        facts.database@,
    ]
}

/// The status tells, in this order, the model in use and its provider, its window, the workspace,
/// whether commands are compressed, the session, the servers, and where the data lies.
pub proof fn law_the_status_tells_what_is_in_use(facts: StatusFacts, session: Option<ActiveView>)
    ensures
        in_turn(status_text(facts, session), status_parts(facts, session)),
        in_turn(join(texts(facts.servers@), "\n"@), texts(facts.servers@)),
{
    let empty: Seq<char> = seq![];
    assert(empty =~= Seq::<char>::empty());
    lemma_join_in_turn(texts(facts.servers@), "\n"@);
    let provider = match facts.provider {
        Some(name) => name@,
        None => empty,
    };
    let (open, shut) = match facts.provider {
        Some(_) => (" ("@, ")"@),
        None => (empty, empty),
    };
    let window = match facts.context_window {
        Some(window) => decimal(window as nat),
        None => "default"@,
    };
    let rtk = if facts.rtk {
        "on"@
    } else {
        "off"@
    };
    let listed = join(texts(facts.servers@), "\n"@);
    let note = if facts.servers@.len() == 0 {
        "none"@
    } else {
        empty
    };
    let line: Seq<char> = seq!['\n'];
    reveal_strlit("\nContext window: ");
    reveal_strlit("Context window: ");
    reveal_strlit("\nRTK: ");
    reveal_strlit("RTK: ");
    assert("\nContext window: "@ =~= line + "Context window: "@);
    assert("\nRTK: "@ =~= line + "RTK: "@);
    lemma_status(
        facts.model@,
        open,
        provider,
        shut + line,
        "Context window: "@ + window,
        facts.workspace@,
        line,
        "RTK: "@ + rtk,
        session_status(session),
        listed,
        note,
        facts.database@,
    );
    let front = "Model: "@ + facts.model@ + open + provider + (shut + line) + ("Context window: "@
        + window);
    assert("Model: "@ + facts.model@ + (match facts.provider {
        Some(name) => " ("@ + name@ + ")"@,
        None => empty,
    }) + "\nContext window: "@ + window =~= front);
    let middle = front + "\nWorkspace: "@ + facts.workspace@;
    assert(middle + "\nRTK: "@ + rtk =~= middle + line + ("RTK: "@ + rtk));
    let back = middle + line + ("RTK: "@ + rtk) + "\nSession: "@ + session_status(session)
        + "\nMCP:\n"@;
    assert(back + (if facts.servers@.len() == 0 {
        "none"@
    } else {
        listed
    }) + "\nDatabase: "@ =~= back + listed + (note + "\nDatabase: "@));
    let whole = back + listed + (note + "\nDatabase: "@) + facts.database@ + Seq::<char>::empty();
    assert(whole =~= status_text(facts, session));
    let parts = seq![
        facts.model@,
        provider,
        "Context window: "@ + window,
        facts.workspace@,
        "RTK: "@ + rtk,
        session_status(session),
        listed,
        facts.database@,
    ];
    assert(in_turn(whole, parts));
    assert(parts =~= status_parts(facts, session));
}

proof fn lemma_status(
    model: Seq<char>,
    open: Seq<char>,
    provider: Seq<char>,
    shut: Seq<char>,
    window: Seq<char>,
    workspace: Seq<char>,
    line: Seq<char>,
    rtk: Seq<char>,
    session: Seq<char>,
    servers: Seq<char>,
    note: Seq<char>,
    database: Seq<char>,
)
    ensures
        in_turn(
            "Model: "@ + model + open + provider + shut + window + "\nWorkspace: "@ + workspace
                + line + rtk + "\nSession: "@ + session + "\nMCP:\n"@ + servers + (note
                + "\nDatabase: "@) + database + Seq::<char>::empty(),
            seq![model, provider, window, workspace, rtk, session, servers, database],
        ),
{
    let empty: Seq<char> = seq![];
    let a = "Model: "@ + model + open + provider + shut + window + "\nWorkspace: "@ + workspace;
    lemma_four("Model: "@, model, open, provider, shut, window, "\nWorkspace: "@, workspace, empty);
    assert(a + empty =~= a);
    lemma_in_turn_push(a, seq![model, provider, window, workspace], line, rtk, empty);
    let b = a + line + rtk;
    assert(b + empty =~= b);
    let four = seq![model, provider, window, workspace];
    lemma_in_turn_push(b, four.push(rtk), "\nSession: "@, session, empty);
    let c = b + "\nSession: "@ + session;
    assert(c + empty =~= c);
    lemma_in_turn_push(c, four.push(rtk).push(session), "\nMCP:\n"@, servers, empty);
    let d = c + "\nMCP:\n"@ + servers;
    assert(d + empty =~= d);
    lemma_in_turn_push(
        d,
        four.push(rtk).push(session).push(servers),
        note + "\nDatabase: "@,
        database,
        empty,
    );
    assert(empty =~= Seq::<char>::empty());
    assert(four.push(rtk).push(session).push(servers).push(database) =~= seq![
        model,
        provider,
        window,
        workspace,
        rtk,
        session,
        servers,
        database,
    ]);
}

/// A part with something in front of it and behind it stands in the text.
proof fn lemma_stands(all: Seq<char>, front: Seq<char>, part: Seq<char>, back: Seq<char>)
    requires
        all =~= front + part + back,
    ensures
        contains(all, part),
{
    lemma_one(front, part, back);
    lemma_in_turn_contains(all, seq![part], 0);
}

/// A session is told with its name, its id, its counts and whether it was folded.
pub proof fn law_the_session_is_told_with_its_counts(session: ActiveView)
    ensures
        in_turn(
            session_status(Some(session)),
            seq![
                session.title,
                short_id(session.id),
                signed_decimal(session.message_count as int),
                signed_decimal(session.request_count as int),
            ],
        ),
        contains(
            session_status(Some(session)),
            "\nTokens: "@ + signed_decimal(session.total_tokens as int),
        ),
        session.summary is None ==> ends_in(session_status(Some(session)), "\nCompacted: no"@),
        session.summary is Some ==> ends_in(
            session_status(Some(session)),
            signed_decimal(session.summarized as int) + ")"@,
        ),
{
    let empty: Seq<char> = seq![];
    let all = session_status(Some(session));
    let messages = signed_decimal(session.message_count as int);
    let requests = signed_decimal(session.request_count as int);
    let tokens = signed_decimal(session.total_tokens as int);
    let folded = if session.summary is Some {
        "yes (through message "@ + signed_decimal(session.summarized as int) + ")"@
    } else {
        "no"@
    };
    lemma_four(
        empty,
        session.title,
        " ("@,
        short_id(session.id),
        ")\nMessages: "@,
        messages,
        "\nRequests: "@,
        requests,
        "\nTokens: "@ + tokens + "\nCompacted: "@ + folded,
    );
    assert(all =~= empty + session.title + " ("@ + short_id(session.id) + ")\nMessages: "@ + messages
        + "\nRequests: "@ + requests + ("\nTokens: "@ + tokens + "\nCompacted: "@ + folded));
    let front = session.title + " ("@ + short_id(session.id) + ")\nMessages: "@ + messages
        + "\nRequests: "@ + requests;
    lemma_stands(all, front, "\nTokens: "@ + tokens, "\nCompacted: "@ + folded);
    if session.summary is Some {
        let last = signed_decimal(session.summarized as int) + ")"@;
        lemma_ends_in(
            front + "\nTokens: "@ + tokens + "\nCompacted: "@ + "yes (through message "@,
            last,
        );
        assert(all =~= front + "\nTokens: "@ + tokens + "\nCompacted: "@ + "yes (through message "@
            + last);
    } else {
        reveal_strlit("\nCompacted: no");
        reveal_strlit("\nCompacted: ");
        reveal_strlit("no");
        assert("\nCompacted: no"@ =~= "\nCompacted: "@ + "no"@);
        lemma_ends_in(front + "\nTokens: "@ + tokens, "\nCompacted: no"@);
        assert(all =~= front + "\nTokens: "@ + tokens + "\nCompacted: no"@);
    }
}

/// What cannot be found is named.
pub proof fn law_what_is_missing_is_named(id: Seq<char>, number: i64)
    ensures
        contains(no_such_session(id), id),
        contains(no_such_number(number), signed_decimal(number as int)),
{
    let foot = "', or the prefix is ambiguous. Use /sessions to list saved sessions."@;
    lemma_stands(no_such_session(id), "No session matches '"@, id, foot);
    lemma_stands(
        no_such_number(number),
        "Memory #"@,
        signed_decimal(number as int),
        " does not exist. Use /memory to list IDs."@,
    );
}

/// What was done is told with what it was done to, and what was not found is named.
pub proof fn law_deeds_are_told_with_their_object(deed: Seq<char>, id: Seq<char>)
    ensures
        in_turn(done_with(deed, id), seq![deed, id]),
        contains(no_such_reminder(id), id),
{
    let empty: Seq<char> = seq![];
    lemma_two(empty, deed, empty, id, "."@);
    assert(done_with(deed, id) =~= empty + deed + empty + id + "."@);
    lemma_stands(
        no_such_reminder(id),
        "No reminder matches '"@,
        id,
        "', or the prefix is ambiguous. Use /reminders to list them."@,
    );
}

/// The owner sees where the workspace is, and whether the chat chose it.
pub proof fn law_the_workspace_is_told(chosen: bool, active: Seq<char>)
    ensures
        contains(workspace_text(chosen, active), active),
        in_turn(workspace_text(true, active), seq!["chat override"@, active]),
        in_turn(workspace_text(false, active), seq!["default"@, active]),
{
    let foot = "\n\nUse /workspace <path> to change it or /workspace reset to use the default."@;
    lemma_two("Workspace ("@, "chat override"@, "): "@, active, foot);
    lemma_two("Workspace ("@, "default"@, "): "@, active, foot);
    lemma_in_turn_contains(workspace_text(true, active), seq!["chat override"@, active], 1);
    lemma_in_turn_contains(workspace_text(false, active), seq!["default"@, active], 1);
}

/// A chat works in the directory that it chose and was told of; what is not there, or is no
/// directory, changes nothing; and no choice touches another chat.
pub proof fn law_a_chosen_workspace_is_used(
    workspaces: Map<i64, Seq<char>>,
    chat: i64,
    other: i64,
    argument: Seq<char>,
    path: Seq<char>,
    place: Option<(Seq<char>, bool)>,
)
    requires
        other != chat,
    ensures
        chosen_workspaces(workspaces, chat, Some((path, true))).contains_key(chat),
        chosen_workspaces(workspaces, chat, Some((path, true)))[chat] == path,
        chosen_workspaces(workspaces, chat, Some((path, false))) == workspaces,
        chosen_workspaces(workspaces, chat, None) == workspaces,
        chosen_workspaces(workspaces, chat, place).contains_key(other) <==> workspaces.contains_key(
            other,
        ),
        chosen_workspaces(workspaces, chat, place)[other] == workspaces[other],
        ends_in(chosen_text(argument, Some((path, true))), path),
        ends_in(chosen_text(argument, Some((path, false))), path),
        ends_in(chosen_text(argument, None), argument),
{
    lemma_ends_in("Workspace for this chat: "@, path);
    lemma_ends_in("Workspace is not a directory: "@, path);
    lemma_ends_in("Workspace does not exist: "@, argument);
}

} // verus!
