//! The tools for memory: remembering, correcting and forgetting facts.
use vstd::prelude::*;
use vstd::string::*;

use crate::json::{complain, read_view, with_reason, Json, JsonView};
use crate::storage::memory::{
    has_id, law_forgetting_takes_one_fact, law_rewording_changes_one_fact, match_of, memory_bytes,
    with_content, without_id, EntryView, MatchView,
};
use crate::storage::{Database, MemoryMatch, StorageError};
use crate::text::{
    byte_len, clamped, contains, decimal, decimal_usize, ends_in, in_turn, lemma_ends_in,
    lemma_in_turn_contains, lemma_one, lemma_two, trim, trimmed, utf8_len,
};
use crate::tools::arguments::{
    find_text, outcome, read_required_text, required_text, text_argument, INVALID,
};
use crate::tools::output::{ambiguous_memory_error, ambiguous_text};

verus! {

/// Total bytes of stored memory content allowed before `remember` refuses to add more, keeping the
/// system prompt (which carries every entry on every request) from growing unbounded.
pub const MAX_MEMORY_BYTES: usize = 4096;

pub open spec fn memory_full(bytes: nat) -> Seq<char> {
    "memory is full ("@ + decimal(bytes)
        + "/4096 bytes); use update_memory or forget to make room before adding more"@
}

/// What remembering a fact does.
pub open spec fn remember_done(
    before: Database,
    after: Database,
    value: Result<JsonView, Seq<char>>,
    r: Result<Seq<char>, Seq<char>>,
) -> bool {
    let facts = before.facts();
    match required_text(
        value,
        "fact"@,
        "remember requires a non-empty 'fact' argument"@,
    ) {
        Err(error) => (r == Err::<Seq<char>, Seq<char>>(error)) && after == before,
        Ok(fact) => if memory_bytes(facts) + utf8_len(fact) > MAX_MEMORY_BYTES {
            (r == Err::<Seq<char>, Seq<char>>(memory_full(clamped(memory_bytes(facts)))))
                && after == before
        } else if before.memory.next_id == i64::MAX {
            (r == Err::<Seq<char>, Seq<char>>(StorageError::Full.text())) && after == before
        } else {
            &&& r == Ok::<Seq<char>, Seq<char>>("remembered: "@ + fact)
            &&& after.facts() == facts.push(
                EntryView { id: before.memory.next_id, content: fact },
            )
            &&& after.memory.next_id == before.memory.next_id + 1
        },
    }
}

/// Adds a fact, capped so that memory cannot grow unbounded.
pub fn remember(database: &mut Database, value: &Result<Json, String>) -> (r: Result<String, String>)
    requires
        old(database).wf(),
    ensures
        final(database).wf(),
        *final(database) == (Database { memory: final(database).memory, ..*old(database) }),
        remember_done(*old(database), *final(database), read_view(*value), outcome(r)),
{
    let fact = match read_required_text(
        value,
        "fact",
        "remember requires a non-empty 'fact' argument",
    ) {
        Ok(fact) => fact,
        Err(error) => {
            return Err(error);
        },
    };
    let existing = database.total_memory_bytes();
    let added = byte_len(fact.as_str());
    if existing > MAX_MEMORY_BYTES || added > MAX_MEMORY_BYTES - existing {
        let mut message = "memory is full (".to_owned();
        message.push_str(decimal_usize(existing).as_str());
        message.push_str(
            "/4096 bytes); use update_memory or forget to make room before adding more",
        );
        return Err(message);
    }
    match database.remember(fact.as_str()) {
        Ok(_) => {
            let mut r = "remembered: ".to_owned();
            r.push_str(fact.as_str());
            Ok(r)
        },
        Err(error) => Err(error.message()),
    }
}

pub open spec fn no_such_fact(matching: Seq<char>) -> Seq<char> {
    "no remembered fact contains \""@ + matching + "\""@
}

/// The arguments of a correction: what to look for and what to put in its place.
pub open spec fn correction_arguments(value: Result<JsonView, Seq<char>>) -> Result<
    (Seq<char>, Seq<char>),
    Seq<char>,
> {
    match (text_argument(value, "matching"@, 0, 2), text_argument(value, "fact"@, 1, 2)) {
        (Some(matching), Some(fact)) => if trim(matching).len() == 0 || trim(fact).len() == 0 {
            Err("update_memory requires non-empty 'matching' and 'fact' arguments"@)
        } else {
            Ok((trim(matching), trim(fact)))
        },
        _ => Err(with_reason(INVALID@, value)),
    }
}

/// What correcting a fact does.
pub open spec fn update_done(
    before: Database,
    after: Database,
    value: Result<JsonView, Seq<char>>,
    r: Result<Seq<char>, Seq<char>>,
) -> bool {
    let facts = before.facts();
    match correction_arguments(value) {
        Err(error) => (r == Err::<Seq<char>, Seq<char>>(error)) && after == before,
        Ok((matching, fact)) => after.memory.next_id == before.memory.next_id && match match_of(
            facts,
            matching,
        ) {
            MatchView::One(id) => (r == Ok::<Seq<char>, Seq<char>>(
                "updated memory matching \""@ + matching + "\" to: "@ + fact,
            )) && after.facts() == with_content(facts, id, fact),
            MatchView::NoMatch => (r == Err::<Seq<char>, Seq<char>>(no_such_fact(matching)))
                && after.facts() == facts,
            MatchView::Ambiguous(entries) => (r == Err::<Seq<char>, Seq<char>>(
                ambiguous_text(matching, entries),
            )) && after.facts() == facts,
        },
    }
}

/// Replaces a fact that an unambiguous substring matches.
pub fn update_memory(database: &mut Database, value: &Result<Json, String>) -> (r: Result<String, String>)
    requires
        old(database).wf(),
    ensures
        final(database).wf(),
        *final(database) == (Database { memory: final(database).memory, ..*old(database) }),
        update_done(*old(database), *final(database), read_view(*value), outcome(r)),
{
    let (matching, fact) = match (find_text(value, "matching", 0, 2), find_text(value, "fact", 1, 2)) {
        (Some(matching), Some(fact)) => (trimmed(matching.as_str()), trimmed(fact.as_str())),
        _ => {
            return Err(complain(INVALID, value));
        },
    };
    if matching.as_str().is_empty() || fact.as_str().is_empty() {
        return Err("update_memory requires non-empty 'matching' and 'fact' arguments".to_owned());
    }
    match database.update_memory(matching.as_str(), fact.as_str()) {
        MemoryMatch::One(_) => {
            let mut r = "updated memory matching \"".to_owned();
            r.push_str(matching.as_str());
            r.push_str("\" to: ");
            r.push_str(fact.as_str());
            Ok(r)
        },
        MemoryMatch::NoMatch => {
            let mut message = "no remembered fact contains \"".to_owned();
            message.push_str(matching.as_str());
            message.push_str("\"");
            Err(message)
        },
        MemoryMatch::Ambiguous(entries) => Err(
            ambiguous_memory_error(matching.as_str(), &entries),
        ),
    }
}

/// What forgetting a fact does.
pub open spec fn forget_done(
    before: Database,
    after: Database,
    value: Result<JsonView, Seq<char>>,
    r: Result<Seq<char>, Seq<char>>,
) -> bool {
    let facts = before.facts();
    match required_text(
        value,
        "matching"@,
        "forget requires a non-empty 'matching' argument"@,
    ) {
        Err(error) => (r == Err::<Seq<char>, Seq<char>>(error)) && after == before,
        Ok(matching) => after.memory.next_id == before.memory.next_id && match match_of(
            facts,
            matching,
        ) {
            MatchView::One(id) => (r == Ok::<Seq<char>, Seq<char>>(
                "forgot the fact matching \""@ + matching + "\""@,
            )) && after.facts() == without_id(facts, id),
            MatchView::NoMatch => (r == Err::<Seq<char>, Seq<char>>(no_such_fact(matching)))
                && after.facts() == facts,
            MatchView::Ambiguous(entries) => (r == Err::<Seq<char>, Seq<char>>(
                ambiguous_text(matching, entries),
            )) && after.facts() == facts,
        },
    }
}

/// Deletes a fact that an unambiguous substring matches.
pub fn forget(database: &mut Database, value: &Result<Json, String>) -> (r: Result<String, String>)
    requires
        old(database).wf(),
    ensures
        final(database).wf(),
        *final(database) == (Database { memory: final(database).memory, ..*old(database) }),
        forget_done(*old(database), *final(database), read_view(*value), outcome(r)),
{
    let matching = match read_required_text(
        value,
        "matching",
        "forget requires a non-empty 'matching' argument",
    ) {
        Ok(matching) => matching,
        Err(error) => {
            return Err(error);
        },
    };
    match database.forget(matching.as_str()) {
        MemoryMatch::One(_) => {
            let mut r = "forgot the fact matching \"".to_owned();
            r.push_str(matching.as_str());
            r.push_str("\"");
            Ok(r)
        },
        MemoryMatch::NoMatch => {
            let mut message = "no remembered fact contains \"".to_owned();
            message.push_str(matching.as_str());
            message.push_str("\"");
            Err(message)
        },
        MemoryMatch::Ambiguous(entries) => Err(
            ambiguous_memory_error(matching.as_str(), &entries),
        ),
    }
}

/// Remembering never takes memory beyond its cap: what a successful `remember` stores still fits.
pub proof fn law_memory_stays_within_its_cap(facts: Seq<EntryView>, id: i64, fact: Seq<char>)
    requires
        memory_bytes(facts) + utf8_len(fact) <= MAX_MEMORY_BYTES,
    ensures
        memory_bytes(facts.push(EntryView { id, content: fact })) <= MAX_MEMORY_BYTES,
{
    assert(facts.push(EntryView { id, content: fact }).drop_last() =~= facts);
}

/// A fact that is remembered joins those that were there, word for word but for the blanks around
/// it, and is told back; nothing is forgotten for it. Where it does not fit, or is blank, nothing
/// changes.
pub proof fn law_remembered_facts_are_kept(
    before: Database,
    after: Database,
    value: JsonView,
    fact: Seq<char>,
    r: Result<Seq<char>, Seq<char>>,
)
    requires
        value is Object,
        value.field("fact"@) == Some(JsonView::Text(fact)),
        remember_done(before, after, Ok(value), r),
    ensures
        r is Err ==> after == before,
        r matches Ok(text) ==> {
            &&& after.facts().len() == before.facts().len() + 1
            &&& after.facts().drop_last() == before.facts()
            &&& after.facts().last().content == trim(fact)
            &&& ends_in(text, trim(fact))
            &&& memory_bytes(after.facts()) <= 4096
        },
        r is Ok <==> trim(fact).len() > 0 && memory_bytes(before.facts()) + utf8_len(trim(fact))
            <= 4096 && before.memory.next_id < i64::MAX,
{
    if r is Ok {
        assert(after.facts().drop_last() =~= before.facts());
        lemma_ends_in("remembered: "@, trim(fact));
        law_memory_stays_within_its_cap(before.facts(), before.memory.next_id, trim(fact));
    }
}

/// Correcting changes one fact, the only one that mentions the given word, to just what was given,
/// and leaves the others; where no fact or more than one mentions it nothing changes.
pub proof fn law_corrections_change_one_fact(
    before: Database,
    after: Database,
    value: JsonView,
    matching: Seq<char>,
    fact: Seq<char>,
    r: Result<Seq<char>, Seq<char>>,
)
    requires
        value is Object,
        value.field("matching"@) == Some(JsonView::Text(matching)),
        value.field("fact"@) == Some(JsonView::Text(fact)),
        update_done(before, after, Ok(value), r),
    ensures
        r is Err ==> after.facts() == before.facts(),
        r matches Ok(text) ==> {
            &&& in_turn(text, seq![trim(matching), trim(fact)])
            &&& after.facts().len() == before.facts().len()
            &&& match_of(before.facts(), trim(matching)) matches MatchView::One(id) && forall|k: int|
                0 <= k < before.facts().len() ==> {
                    &&& (#[trigger] after.facts()[k]).id == before.facts()[k].id
                    &&& before.facts()[k].id == id ==> after.facts()[k].content == trim(fact)
                    &&& before.facts()[k].id != id ==> after.facts()[k] == before.facts()[k]
                }
        },
{
    if r is Ok {
        let id = match_of(before.facts(), trim(matching))->One_0;
        law_rewording_changes_one_fact(before.facts(), id, trim(fact));
        let empty: Seq<char> = seq![];
        let text = "updated memory matching \""@ + trim(matching) + "\" to: "@ + trim(fact);
        lemma_two("updated memory matching \""@, trim(matching), "\" to: "@, trim(fact), empty);
        assert(text =~= text + empty);
    }
}

/// Forgetting takes away one fact, the only one that mentions the given word, and leaves the others;
/// where no fact or more than one mentions it nothing changes.
pub proof fn law_forgetting_takes_what_was_meant(
    before: Database,
    after: Database,
    value: JsonView,
    matching: Seq<char>,
    r: Result<Seq<char>, Seq<char>>,
)
    requires
        value is Object,
        value.field("matching"@) == Some(JsonView::Text(matching)),
        forget_done(before, after, Ok(value), r),
    ensures
        r is Err ==> after.facts() == before.facts(),
        r is Ok ==> (match_of(before.facts(), trim(matching)) matches MatchView::One(id) && {
            &&& !has_id(after.facts(), id)
            &&& forall|k: int|
                0 <= k < before.facts().len() && (#[trigger] before.facts()[k]).id != id
                    ==> after.facts().contains(before.facts()[k])
        }),
        r matches Ok(text) ==> contains(text, trim(matching)),
{
    if r is Ok {
        let id = match_of(before.facts(), trim(matching))->One_0;
        law_forgetting_takes_one_fact(before.facts(), id);
        lemma_one("forgot the fact matching \""@, trim(matching), "\""@);
        let text = "forgot the fact matching \""@ + trim(matching) + "\""@;
        lemma_in_turn_contains(text, seq![trim(matching)], 0);
    }
}

/// What is refused is told with its reason: how full memory is, or which words no fact mentions.
pub proof fn law_refusals_are_told_with_their_reason(bytes: nat, matching: Seq<char>)
    ensures
        contains(memory_full(bytes), decimal(bytes)),
        contains(no_such_fact(matching), matching),
{
    let foot = "/4096 bytes); use update_memory or forget to make room before adding more"@;
    lemma_one("memory is full ("@, decimal(bytes), foot);
    lemma_in_turn_contains(memory_full(bytes), seq![decimal(bytes)], 0);
    lemma_one("no remembered fact contains \""@, matching, "\""@);
    lemma_in_turn_contains(no_such_fact(matching), seq![matching], 0);
}

} // verus!
