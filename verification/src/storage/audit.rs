//! The tool trail: what was requested, decided and done, independent of any conversation.
use vstd::prelude::*;
use vstd::string::*;

use crate::clock::unix_now;
use crate::storage::{AuditLog, Database, StorageError};
use crate::text::{clone_text, opt_view, seq_view};

verus! {

/// One line of the trail, as it is listed.
#[derive(Debug)]
pub struct AuditEvent {
    pub id: i64,
    pub event_type: String,
    pub tool_name: Option<String>,
    pub outcome: String,
    pub created_at: i64,
}

/// A stored event.
#[derive(Debug)]
pub struct AuditRow {
    pub event: AuditEvent,
    pub telegram_chat_id: i64,
    pub details: Option<String>,
}

#[verifier::ext_equal]
pub struct EventView {
    pub id: i64,
    pub event_type: Seq<char>,
    pub tool_name: Option<Seq<char>>,
    pub outcome: Seq<char>,
    pub created_at: i64,
}

#[verifier::ext_equal]
pub struct AuditRowView {
    pub event: EventView,
    pub chat: i64,
    pub details: Option<Seq<char>>,
}

impl View for AuditEvent {
    type V = EventView;

    open spec fn view(&self) -> EventView {
        EventView {
            id: self.id,
            event_type: self.event_type@,
            tool_name: opt_view(self.tool_name),
            outcome: self.outcome@,
            created_at: self.created_at,
        }
    }
}

impl View for AuditRow {
    type V = AuditRowView;

    open spec fn view(&self) -> AuditRowView {
        AuditRowView {
            event: self.event@,
            chat: self.telegram_chat_id,
            details: opt_view(self.details),
        }
    }
}

impl Clone for AuditEvent {
    fn clone(&self) -> (r: Self)
        ensures
            r@ == self@,
    {
        AuditEvent {
            id: self.id,
            event_type: self.event_type.clone(),
            tool_name: clone_text(&self.tool_name),
            outcome: self.outcome.clone(),
            created_at: self.created_at,
        }
    }
}

/// Events are numbered in ascending order, below the next number.
pub open spec fn audit_wf(log: AuditLog) -> bool {
    &&& 1 <= log.next_id
    &&& forall|i: int|
        0 <= i < log.events@.len() ==> 1 <= (#[trigger] log.events@[i]).event.id < log.next_id
    &&& forall|i: int, j: int|
        0 <= i < j < log.events@.len() ==> (#[trigger] log.events@[i]).event.id < (
        #[trigger] log.events@[j]).event.id
}

/// The chat's latest events, newest first, at most `limit` of them.
pub open spec fn latest_events(rows: Seq<AuditRowView>, chat: i64, limit: int) -> Seq<EventView>
    decreases rows.len(),
{
    if rows.len() == 0 || limit <= 0 {
        seq![]
    } else if rows.last().chat == chat {
        seq![rows.last().event] + latest_events(rows.drop_last(), chat, limit - 1)
    } else {
        latest_events(rows.drop_last(), chat, limit)
    }
}

impl Database {
    pub open spec fn audit_rows(&self) -> Seq<AuditRowView> {
        seq_view(self.audit.events@)
    }

    /// Adds an event that happened at `now`.
    pub fn record_audit_event_at(
        &mut self,
        now: i64,
        chat_id: i64,
        event_type: &str,
        tool_name: Option<&str>,
        details: Option<&str>,
        outcome: &str,
    ) -> (r: Result<(), StorageError>)
        requires
            old(self).wf(),
        ensures
            final(self).wf(),
            *final(self) == (Database { audit: final(self).audit, ..*old(self) }),
            match r {
                Ok(_) => final(self).audit_rows() == old(self).audit_rows().push(
                    AuditRowView {
                        event: EventView {
                            id: old(self).audit.next_id,
                            event_type: event_type@,
                            tool_name: opt_view(tool_name),
                            outcome: outcome@,
                            created_at: now,
                        },
                        chat: chat_id,
                        details: opt_view(details),
                    },
                ) && old(self).audit.next_id < i64::MAX && final(self).audit.next_id == old(
                    self,
                ).audit.next_id + 1,
                Err(error) => error == StorageError::Full && old(self).audit.next_id == i64::MAX
                    && *final(self) == *old(self),
            },
    {
        if self.audit.next_id == i64::MAX {
            return Err(StorageError::Full);
        }
        let ghost before = self.audit.events@;
        let row = AuditRow {
            event: AuditEvent {
                id: self.audit.next_id,
                event_type: event_type.to_owned(),
                tool_name: match tool_name {
                    Some(name) => Some(name.to_owned()),
                    None => None,
                },
                outcome: outcome.to_owned(),
                created_at: now,
            },
            telegram_chat_id: chat_id,
            details: match details {
                Some(text) => Some(text.to_owned()),
                None => None,
            },
        };
        self.audit.events.push(row);
        self.audit.next_id = self.audit.next_id + 1;
        assert(self.audit_rows() =~= seq_view(before).push(row@));
        Ok(())
    }

    /// Adds an event that happens now.
    pub fn record_audit_event(
        &mut self,
        chat_id: i64,
        event_type: &str,
        tool_name: Option<&str>,
        details: Option<&str>,
        outcome: &str,
    ) -> (r: Result<(), StorageError>)
        requires
            old(self).wf(),
        ensures
            final(self).wf(),
            *final(self) == (Database { audit: final(self).audit, ..*old(self) }),
            match r {
                Ok(_) => {
                    &&& final(self).audit_rows().len() == old(self).audit_rows().len() + 1
                    &&& final(self).audit_rows().drop_last() == old(self).audit_rows()
                    &&& final(self).audit_rows().last() == (AuditRowView {
                        event: EventView {
                            id: old(self).audit.next_id,
                            event_type: event_type@,
                            tool_name: opt_view(tool_name),
                            outcome: outcome@,
                            created_at: final(self).audit_rows().last().event.created_at,
                        },
                        chat: chat_id,
                        details: opt_view(details),
                    })
                    &&& final(self).audit.next_id == old(self).audit.next_id + 1
                },
                Err(error) => error == StorageError::Full && old(self).audit.next_id == i64::MAX
                    && *final(self) == *old(self),
            },
    {
        let r = self.record_audit_event_at(
            unix_now(),
            chat_id,
            event_type,
            tool_name,
            details,
            outcome,
        );
        assert(r is Ok ==> self.audit_rows().drop_last() =~= old(self).audit_rows());
        r
    }

    /// The chat's latest events, newest first.
    pub fn list_audit_events(&self, chat_id: i64, limit: usize) -> (r: Result<
        Vec<AuditEvent>,
        StorageError,
    >)
        ensures
            match r {
                Ok(events) => limit <= i64::MAX && seq_view(events@) == latest_events(
                    self.audit_rows(),
                    chat_id,
                    limit as int,
                ),
                Err(error) => limit > i64::MAX && error == StorageError::Limit,
            },
    {
        if limit as u64 > 9223372036854775807u64 {
            return Err(StorageError::Limit);
        }
        let ghost rows = self.audit_rows();
        let mut r: Vec<AuditEvent> = Vec::new();
        let mut n: usize = self.audit.events.len();
        let mut left: usize = limit;
        assert(rows.take(n as int) =~= rows);
        assert(seq_view(r@) + latest_events(rows, chat_id, limit as int) =~= latest_events(
            rows,
            chat_id,
            limit as int,
        ));
        while n > 0 && left > 0
            invariant
                n <= self.audit.events@.len(),
                rows == self.audit_rows(),
                seq_view(r@) + latest_events(rows.take(n as int), chat_id, left as int)
                    == latest_events(rows, chat_id, limit as int),
            decreases n,
        {
            let ghost before = r@;
            let ghost front = rows.take(n as int);
            assert(front.drop_last() =~= rows.take(n - 1));
            assert(front.last() == self.audit.events@[n - 1]@);
            n = n - 1;
            if self.audit.events[n].telegram_chat_id == chat_id {
                r.push(self.audit.events[n].event.clone());
                left = left - 1;
                assert(seq_view(r@) =~= seq_view(before).push(front.last().event));
                assert(seq_view(before) + (seq![front.last().event] + latest_events(
                    rows.take(n as int),
                    chat_id,
                    left as int,
                )) =~= seq_view(r@) + latest_events(rows.take(n as int), chat_id, left as int));
            }
        }
        assert(latest_events(rows.take(n as int), chat_id, left as int) =~= seq![]);
        assert(seq_view(r@) =~= latest_events(rows, chat_id, limit as int));
        Ok(r)
    }
}

/// A chat's events are listed newest first, as many as are asked for: what is listed is the chat's,
/// and an event of the chat that is not listed is older than all that are, and the list is full.
pub proof fn law_the_newest_events_are_listed(rows: Seq<AuditRowView>, chat: i64, limit: int)
    requires
        0 <= limit,
        forall|i: int, j: int|
            0 <= i < j < rows.len() ==> (#[trigger] rows[i]).event.id < (
            #[trigger] rows[j]).event.id,
    ensures
        ({
            let listed = latest_events(rows, chat, limit);
            &&& listed.len() <= limit
            &&& forall|i: int|
                0 <= i < listed.len() ==> is_event_of(rows, chat, #[trigger] listed[i])
            &&& forall|i: int, j: int|
                0 <= i < j < listed.len() ==> (#[trigger] listed[i]).id > (#[trigger] listed[j]).id
            &&& forall|k: int|
                0 <= k < rows.len() && (#[trigger] rows[k]).chat == chat ==> listed.contains(
                    rows[k].event,
                ) || (listed.len() == limit && forall|i: int|
                    0 <= i < listed.len() ==> (#[trigger] listed[i]).id > rows[k].event.id)
        }),
    decreases rows.len(),
{
    if rows.len() > 0 && limit > 0 {
        let rest = rows.drop_last();
        let last = rows.last();
        let more = if last.chat == chat {
            limit - 1
        } else {
            limit
        };
        law_the_newest_events_are_listed(rest, chat, more);
        let old = latest_events(rest, chat, more);
        let listed = latest_events(rows, chat, limit);
        let shift: int = if last.chat == chat {
            1
        } else {
            0
        };
        assert(forall|i: int| 0 <= i < old.len() ==> listed[i + shift] == #[trigger] old[i]);
        assert forall|i: int| 0 <= i < listed.len() implies is_event_of(
            rows,
            chat,
            #[trigger] listed[i],
        ) by {
            if i < shift {
                assert(rows[rows.len() - 1].event == listed[i]);
            } else {
                assert(listed[i] == old[i - shift]);
                assert(is_event_of(rest, chat, old[i - shift]));
                let k = choose|k: int|
                    0 <= k < rest.len() && (#[trigger] rest[k]).chat == chat && rest[k].event
                        == old[i - shift];
                assert(rows[k].event == listed[i]);
            }
        }
        assert forall|i: int, j: int| 0 <= i < j < listed.len() implies (#[trigger] listed[i]).id
            > (#[trigger] listed[j]).id by {
            assert(listed[j] == old[j - shift]);
            if i < shift {
                assert(is_event_of(rest, chat, old[j - shift]));
                let k = choose|k: int|
                    0 <= k < rest.len() && (#[trigger] rest[k]).chat == chat && rest[k].event
                        == old[j - shift];
                assert(rows[k].event.id < rows[rows.len() - 1].event.id);
            } else {
                assert(listed[i] == old[i - shift]);
            }
        }
        assert forall|k: int| 0 <= k < rows.len() && (#[trigger] rows[k]).chat
            == chat implies listed.contains(rows[k].event) || (listed.len() == limit
            && forall|i: int|
            0 <= i < listed.len() ==> (#[trigger] listed[i]).id > rows[k].event.id) by {
            if k == rows.len() - 1 {
                assert(listed[0] == rows[k].event);
            } else {
                assert(rest[k] == rows[k]);
                if old.contains(rows[k].event) {
                    let i = choose|i: int| 0 <= i < old.len() && old[i] == rows[k].event;
                    assert(listed[i + shift] == rows[k].event);
                } else {
                    assert forall|i: int| 0 <= i < listed.len() implies (#[trigger] listed[i]).id
                        > rows[k].event.id by {
                        if i < shift {
                            assert(rows[k].event.id < rows[rows.len() - 1].event.id);
                        } else {
                            assert(listed[i] == old[i - shift]);
                        }
                    }
                }
            }
        }
    }
}

/// Whether an event was recorded for the chat.
pub open spec fn is_event_of(rows: Seq<AuditRowView>, chat: i64, event: EventView) -> bool {
    exists|k: int| 0 <= k < rows.len() && (#[trigger] rows[k]).chat == chat && rows[k].event == event
}

} // verus!
