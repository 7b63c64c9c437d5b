//! Global, permanent facts that the gateway was explicitly asked to remember. Not scoped to a
//! session or chat.
use vstd::prelude::*;
use vstd::string::*;

use crate::order::{as_ints, lemma_positions, lemma_rows_at_positions, positions, rows_at};
use crate::storage::{Database, Memory, StorageError};
use crate::text::{byte_len, contains, has, lower, lowered, seq_view, texts, utf8_len};

verus! {

#[derive(Debug)]
pub struct MemoryEntry {
    pub id: i64,
    pub content: String,
}

/// The outcome of resolving a memory substring. `update_memory` and `forget` act only on `One`;
/// the other two variants say precisely why nothing happened.
#[derive(Debug, PartialEq, Eq)]
pub enum MemoryMatch {
    One(i64),
    NoMatch,
    /// Every entry the substring matched, in insertion order.
    Ambiguous(Vec<String>),
}

#[verifier::ext_equal]
pub struct EntryView {
    pub id: i64,
    pub content: Seq<char>,
}

#[verifier::ext_equal]
pub enum MatchView {
    One(i64),
    NoMatch,
    Ambiguous(Seq<Seq<char>>),
}

impl View for MemoryEntry {
    type V = EntryView;

    open spec fn view(&self) -> EntryView {
        EntryView { id: self.id, content: self.content@ }
    }
}

impl View for MemoryMatch {
    type V = MatchView;

    open spec fn view(&self) -> MatchView {
        match self {
            MemoryMatch::One(id) => MatchView::One(*id),
            MemoryMatch::NoMatch => MatchView::NoMatch,
            MemoryMatch::Ambiguous(facts) => MatchView::Ambiguous(texts(facts@)),
        }
    }
}

impl Clone for MemoryEntry {
    fn clone(&self) -> (r: Self)
        ensures
            r@ == self@,
    {
        MemoryEntry { id: self.id, content: self.content.clone() }
    }
}

/// Facts are numbered in ascending order, below the next number.
pub open spec fn memory_wf(memory: Memory) -> bool {
    &&& 1 <= memory.next_id
    &&& forall|i: int|
        0 <= i < memory.entries@.len() ==> 1 <= (#[trigger] memory.entries@[i]).id < memory.next_id
    &&& forall|i: int, j: int|
        0 <= i < j < memory.entries@.len() ==> (#[trigger] memory.entries@[i]).id < (
        #[trigger] memory.entries@[j]).id
}

/// Whether a fact contains the substring, ASCII letters compared without regard to case.
pub open spec fn mentions(substring: Seq<char>) -> spec_fn(EntryView) -> bool {
    |entry: EntryView| contains(lower(entry.content), lower(substring))
}

pub open spec fn contents(entries: Seq<EntryView>) -> Seq<Seq<char>> {
    Seq::new(entries.len(), |i: int| entries[i].content)
}

/// What a substring resolves to.
pub open spec fn match_of(entries: Seq<EntryView>, substring: Seq<char>) -> MatchView {
    let found = entries.filter(mentions(substring));
    if found.len() == 0 {
        MatchView::NoMatch
    } else if found.len() == 1 {
        MatchView::One(found[0].id)
    } else {
        MatchView::Ambiguous(contents(found))
    }
}

/// The facts with the one numbered `id` replaced.
pub open spec fn with_content(entries: Seq<EntryView>, id: i64, content: Seq<char>) -> Seq<
    EntryView,
> {
    entries.map_values(
        |entry: EntryView|
            if entry.id == id {
                EntryView { id, content }
            } else {
                entry
            },
    )
}

/// The facts without the one numbered `id`.
pub open spec fn without_id(entries: Seq<EntryView>, id: i64) -> Seq<EntryView> {
    entries.filter(|entry: EntryView| entry.id != id)
}

pub open spec fn has_id(entries: Seq<EntryView>, id: i64) -> bool {
    exists|i: int| 0 <= i < entries.len() && (#[trigger] entries[i]).id == id
}

/// The bytes that all facts take.
pub open spec fn memory_bytes(entries: Seq<EntryView>) -> nat
    decreases entries.len(),
{
    if entries.len() == 0 {
        0
    } else {
        memory_bytes(entries.drop_last()) + utf8_len(entries.last().content)
    }
}

/// Removing the one fact numbered `id` leaves the others in order.
proof fn lemma_without(entries: Seq<EntryView>, at: int)
    requires
        0 <= at < entries.len(),
        forall|i: int, j: int|
            0 <= i < j < entries.len() ==> (#[trigger] entries[i]).id < (#[trigger] entries[j]).id,
    ensures
        without_id(entries, entries[at].id) == entries.remove(at),
    decreases entries.len(),
{
    reveal(Seq::filter);
    let id = entries[at].id;
    let keep = |entry: EntryView| entry.id != id;
    let front = entries.drop_last();
    if at == entries.len() - 1 {
        lemma_all_kept(front, id);
        assert(entries.filter(keep) =~= front);
        assert(entries.remove(at) =~= front);
    } else {
        assert(entries[at].id < entries[entries.len() - 1].id);
        lemma_without(front, at);
        assert(entries.filter(keep) =~= front.filter(keep).push(entries.last()));
        assert(entries.remove(at) =~= front.remove(at).push(entries.last()));
    }
}

proof fn lemma_all_kept(entries: Seq<EntryView>, id: i64)
    requires
        forall|i: int| 0 <= i < entries.len() ==> (#[trigger] entries[i]).id != id,
    ensures
        without_id(entries, id) == entries,
    decreases entries.len(),
{
    reveal(Seq::filter);
    if entries.len() > 0 {
        let front = entries.drop_last();
        assert forall|i: int| 0 <= i < front.len() implies (#[trigger] front[i]).id != id by {
            assert(entries[i].id != id);
        }
        lemma_all_kept(front, id);
        assert(entries[entries.len() - 1].id != id);
        assert(without_id(entries, id) =~= front.push(entries.last()));
        assert(front.push(entries.last()) =~= entries);
    }
}

impl Database {
    pub open spec fn facts(&self) -> Seq<EntryView> {
        seq_view(self.memory.entries@)
    }

    /// Every stored memory entry, oldest first (the order they were learned in).
    pub fn list_memory(&self) -> (r: Vec<MemoryEntry>)
        ensures
            seq_view(r@) == self.facts(),
    {
        let mut r: Vec<MemoryEntry> = Vec::new();
        let mut i: usize = 0;
        while i < self.memory.entries.len()
            invariant
                i <= self.memory.entries@.len(),
                r@.len() == i,
                forall|k: int| 0 <= k < i ==> (#[trigger] r@[k])@ == self.memory.entries@[k]@,
            decreases self.memory.entries@.len() - i,
        {
            r.push(self.memory.entries[i].clone());
            i = i + 1;
        }
        assert(seq_view(r@) =~= self.facts());
        r
    }

    /// Total bytes across all memory content, used to enforce a cap before adding more.
    pub fn total_memory_bytes(&self) -> (r: usize)
        ensures
            r == crate::text::clamped(memory_bytes(self.facts())),
    {
        let ghost all = self.facts();
        let mut total: usize = 0;
        let mut i: usize = 0;
        assert(all.take(0) =~= seq![]);
        while i < self.memory.entries.len()
            invariant
                i <= self.memory.entries@.len(),
                all == self.facts(),
                total == crate::text::clamped(memory_bytes(all.take(i as int))),
            decreases self.memory.entries@.len() - i,
        {
            total = total.saturating_add(byte_len(self.memory.entries[i].content.as_str()));
            i = i + 1;
            assert(all.take(i as int).drop_last() =~= all.take(i - 1));
        }
        assert(all.take(i as int) =~= all);
        total
    }

    /// Appends a new memory entry and returns its id.
    pub fn remember(&mut self, content: &str) -> (r: Result<i64, StorageError>)
        requires
            old(self).wf(),
        ensures
            final(self).wf(),
            *final(self) == (Database { memory: final(self).memory, ..*old(self) }),
            match r {
                Ok(id) => {
                    &&& id == old(self).memory.next_id
                    &&& id < i64::MAX
                    &&& !has_id(old(self).facts(), id)
                    &&& final(self).facts() == old(self).facts().push(
                        EntryView { id, content: content@ },
                    )
                    &&& final(self).memory.next_id == id + 1
                },
                Err(error) => error == StorageError::Full && old(self).memory.next_id == i64::MAX
                    && *final(self) == *old(self),
            },
    {
        if self.memory.next_id == i64::MAX {
            return Err(StorageError::Full);
        }
        let id = self.memory.next_id;
        let ghost before = self.memory.entries@;
        let entry = MemoryEntry { id, content: content.to_owned() };
        self.memory.entries.push(entry);
        self.memory.next_id = id + 1;
        assert(self.facts() =~= seq_view(before).push(entry@));
        proof {
            if has_id(seq_view(before), id) {
                let i = choose|i: int|
                    0 <= i < seq_view(before).len() && (#[trigger] seq_view(before)[i]).id == id;
                assert(before[i].id < id);
            }
        }
        Ok(id)
    }

    /// The positions of the facts that contain the substring.
    fn mentioning(&self, substring: &str) -> (at: Vec<usize>)
        ensures
            as_ints(at@) == positions(self.facts(), mentions(substring@)),
            forall|i: int| 0 <= i < at@.len() ==> #[trigger] at@[i] < self.memory.entries@.len(),
            rows_at(self.facts(), as_ints(at@)) == self.facts().filter(mentions(substring@)),
    {
        let ghost rows = self.facts();
        let ghost meets = mentions(substring@);
        let needle = lowered(substring);
        let mut at: Vec<usize> = Vec::new();
        let mut i: usize = 0;
        assert(as_ints(at@) =~= positions(rows.take(0), meets));
        while i < self.memory.entries.len()
            invariant
                i <= self.memory.entries@.len(),
                rows == self.facts(),
                meets == mentions(substring@),
                needle@ == lower(substring@),
                as_ints(at@) == positions(rows.take(i as int), meets),
            decreases self.memory.entries@.len() - i,
        {
            let ghost earlier = at@;
            assert(rows.take(i + 1).drop_last() =~= rows.take(i as int));
            assert(rows.take(i + 1).last() == self.memory.entries@[i as int]@);
            if has(lowered(self.memory.entries[i].content.as_str()).as_str(), needle.as_str()) {
                at.push(i);
                assert(as_ints(at@) =~= as_ints(earlier).push(i as int));
            }
            i = i + 1;
        }
        assert(rows.take(i as int) =~= rows);
        proof {
            lemma_positions(rows, meets);
            lemma_rows_at_positions(rows, meets);
            assert forall|k: int| 0 <= k < at@.len() implies #[trigger] at@[k] < rows.len() by {
                assert(as_ints(at@)[k] == at@[k]);
            }
        }
        at
    }

    /// What a substring resolves to. `Ambiguous` carries the competing entries rather than just
    /// their count: the caller (usually the model) cannot pick a more specific substring without
    /// seeing what it is choosing between.
    pub fn match_memory(&self, substring: &str) -> (r: MemoryMatch)
        ensures
            r@ == match_of(self.facts(), substring@),
    {
        let at = self.mentioning(substring);
        let ghost found = self.facts().filter(mentions(substring@));
        assert(found.len() == at@.len());
        if at.len() == 0 {
            MemoryMatch::NoMatch
        } else if at.len() == 1 {
            assert(found[0] == self.facts()[as_ints(at@)[0]]);
            MemoryMatch::One(self.memory.entries[at[0]].id)
        } else {
            let mut facts: Vec<String> = Vec::new();
            let mut i: usize = 0;
            while i < at.len()
                invariant
                    i <= at@.len(),
                    found == rows_at(self.facts(), as_ints(at@)),
                    forall|k: int|
                        0 <= k < at@.len() ==> #[trigger] at@[k] < self.memory.entries@.len(),
                    facts@.len() == i,
                    forall|k: int| 0 <= k < i ==> (#[trigger] facts@[k])@ == found[k].content,
                decreases at@.len() - i,
            {
                facts.push(self.memory.entries[at[i]].content.clone());
                i = i + 1;
            }
            assert(texts(facts@) =~= contents(found));
            MemoryMatch::Ambiguous(facts)
        }
    }

    fn fact_position(&self, id: i64) -> (r: Option<usize>)
        ensures
            match r {
                Some(i) => i < self.memory.entries@.len() && self.memory.entries@[i as int].id == id
                    && has_id(self.facts(), id),
                None => !has_id(self.facts(), id),
            },
    {
        let mut i: usize = 0;
        while i < self.memory.entries.len()
            invariant
                i <= self.memory.entries@.len(),
                forall|k: int| 0 <= k < i ==> (#[trigger] self.facts()[k]).id != id,
            decreases self.memory.entries@.len() - i,
        {
            if self.memory.entries[i].id == id {
                assert(self.facts()[i as int].id == id);
                return Some(i);
            }
            i = i + 1;
        }
        None
    }

    /// Replaces the content of the fact numbered `id`. Returns whether there is one.
    pub fn update_memory_by_id(&mut self, id: i64, new_content: &str) -> (r: bool)
        requires
            old(self).wf(),
        ensures
            final(self).wf(),
            *final(self) == (Database { memory: final(self).memory, ..*old(self) }),
            final(self).memory.next_id == old(self).memory.next_id,
            r == has_id(old(self).facts(), id),
            final(self).facts() == with_content(old(self).facts(), id, new_content@),
    {
        let ghost before = self.facts();
        match self.fact_position(id) {
            Some(i) => {
                self.memory.entries[i].content = new_content.to_owned();
                assert(self.facts() =~= with_content(before, id, new_content@)) by {
                    assert forall|k: int| 0 <= k < before.len() implies #[trigger] self.facts()[k]
                        == with_content(before, id, new_content@)[k] by {
                        if k != i {
                            assert(old(self).memory.entries@[k].id != id);
                        }
                    }
                }
                assert(memory_wf(self.memory)) by {
                    assert(forall|k: int|
                        0 <= k < self.memory.entries@.len() ==> (
                        #[trigger] self.memory.entries@[k]).id == old(self).memory.entries@[k].id);
                }
                true
            },
            None => {
                assert(self.facts() =~= with_content(before, id, new_content@)) by {
                    assert forall|k: int| 0 <= k < before.len() implies #[trigger] before[k]
                        == with_content(before, id, new_content@)[k] by {
                        assert(before[k].id != id);
                    }
                }
                false
            },
        }
    }

    /// Replaces the content of an unambiguous entry matched by a case-insensitive substring, so a
    /// superseded fact (e.g. an old job title) can be corrected in place instead of left to
    /// contradict a newer one.
    pub fn update_memory(&mut self, substring: &str, new_content: &str) -> (r: MemoryMatch)
        requires
            old(self).wf(),
        ensures
            final(self).wf(),
            *final(self) == (Database { memory: final(self).memory, ..*old(self) }),
            final(self).memory.next_id == old(self).memory.next_id,
            r@ == match_of(old(self).facts(), substring@),
            final(self).facts() == (match r@ {
                MatchView::One(id) => with_content(old(self).facts(), id, new_content@),
                _ => old(self).facts(),
            }),
    {
        let matched = self.match_memory(substring);
        if let MemoryMatch::One(id) = &matched {
            let id: i64 = *id;
            self.update_memory_by_id(id, new_content);
        }
        matched
    }

    /// Removes the fact numbered `id`. Returns whether there was one.
    pub fn forget_memory_by_id(&mut self, id: i64) -> (r: bool)
        requires
            old(self).wf(),
        ensures
            final(self).wf(),
            *final(self) == (Database { memory: final(self).memory, ..*old(self) }),
            final(self).memory.next_id == old(self).memory.next_id,
            r == has_id(old(self).facts(), id),
            final(self).facts() == without_id(old(self).facts(), id),
    {
        let ghost before = self.facts();
        let ghost entries = self.memory.entries@;
        match self.fact_position(id) {
            Some(i) => {
                proof {
                    assert forall|a: int, b: int| 0 <= a < b < before.len() implies (
                    #[trigger] before[a]).id < (#[trigger] before[b]).id by {
                        assert(entries[a].id < entries[b].id);
                    }
                    lemma_without(before, i as int);
                }
                self.memory.entries.remove(i);
                assert(self.memory.entries@ =~= entries.remove(i as int));
                assert(self.facts() =~= before.remove(i as int));
                assert(memory_wf(self.memory)) by {
                    let rows = self.memory.entries@;
                    assert forall|a: int, b: int| 0 <= a < b < rows.len() implies (
                    #[trigger] rows[a]).id < (#[trigger] rows[b]).id by {
                        let x = if a < i {
                            a
                        } else {
                            a + 1
                        };
                        let y = if b < i {
                            b
                        } else {
                            b + 1
                        };
                        assert(entries[x].id < entries[y].id);
                    }
                    assert forall|a: int| 0 <= a < rows.len() implies 1 <= (#[trigger] rows[a]).id
                        < self.memory.next_id by {
                        let x = if a < i {
                            a
                        } else {
                            a + 1
                        };
                        assert(rows[a] == entries[x]);
                    }
                }
                true
            },
            None => {
                proof {
                    lemma_all_kept(before, id);
                }
                false
            },
        }
    }

    /// Deletes an unambiguous entry matched by a case-insensitive substring. Same ambiguity
    /// handling as `update_memory`.
    pub fn forget(&mut self, substring: &str) -> (r: MemoryMatch)
        requires
            old(self).wf(),
        ensures
            final(self).wf(),
            *final(self) == (Database { memory: final(self).memory, ..*old(self) }),
            final(self).memory.next_id == old(self).memory.next_id,
            r@ == match_of(old(self).facts(), substring@),
            final(self).facts() == (match r@ {
                MatchView::One(id) => without_id(old(self).facts(), id),
                _ => old(self).facts(),
            }),
    {
        let matched = self.match_memory(substring);
        if let MemoryMatch::One(id) = &matched {
            let id: i64 = *id;
            self.forget_memory_by_id(id);
        }
        matched
    }

    /// Deletes every memory entry (used by the `/forget all` Telegram command) and returns how many
    /// there were.
    pub fn clear_memory(&mut self) -> (r: usize)
        requires
            old(self).wf(),
        ensures
            final(self).wf(),
            *final(self) == (Database { memory: final(self).memory, ..*old(self) }),
            final(self).memory.next_id == old(self).memory.next_id,
            r == old(self).facts().len(),
            final(self).facts() == Seq::<EntryView>::empty(),
    {
        let count = self.memory.entries.len();
        self.memory.entries = Vec::new();
        assert(self.facts() =~= Seq::<EntryView>::empty());
        count
    }
}

/// What a word is found in does not depend on capitals, and is never guessed: a fact is picked
/// exactly where it is the only one that mentions the word, and else all that do are named.
pub proof fn law_matches_are_never_guessed(entries: Seq<EntryView>, word: Seq<char>)
    ensures
        match match_of(entries, word) {
            MatchView::NoMatch => forall|k: int|
                0 <= k < entries.len() ==> !contains(
                    lower((#[trigger] entries[k]).content),
                    lower(word),
                ),
            MatchView::One(id) => exists|i: int|
                {
                    &&& 0 <= i < entries.len()
                    &&& (#[trigger] entries[i]).id == id
                    &&& contains(lower(entries[i].content), lower(word))
                    &&& forall|k: int|
                        0 <= k < entries.len() && contains(
                            lower((#[trigger] entries[k]).content),
                            lower(word),
                        ) ==> k == i
                },
            MatchView::Ambiguous(found) => {
                &&& found.len() >= 2
                &&& forall|k: int|
                    0 <= k < entries.len() && contains(
                        lower((#[trigger] entries[k]).content),
                        lower(word),
                    ) ==> found.contains(entries[k].content)
                &&& forall|i: int|
                    0 <= i < found.len() ==> contains(lower(#[trigger] found[i]), lower(word))
            },
        },
{
    broadcast use vstd::seq_lib::group_filter_ensures;

    let meets = mentions(word);
    let found = entries.filter(meets);
    lemma_positions(entries, meets);
    lemma_rows_at_positions(entries, meets);
    let at = positions(entries, meets);
    assert(found.len() == at.len());
    assert forall|k: int| 0 <= k < entries.len() && meets(#[trigger] entries[k]) implies at.contains(
        k,
    ) by {}
    if found.len() == 0 {
        assert forall|k: int| 0 <= k < entries.len() implies !contains(
            lower((#[trigger] entries[k]).content),
            lower(word),
        ) by {
            if meets(entries[k]) {
                assert(at.contains(k));
            }
        }
    } else if found.len() == 1 {
        let i = at[0];
        assert(found[0] == entries[i]);
        assert forall|k: int| 0 <= k < entries.len() && contains(
            lower((#[trigger] entries[k]).content),
            lower(word),
        ) implies k == i by {
            assert(meets(entries[k]));
            assert(at.contains(k));
        }
    } else {
        assert forall|k: int| 0 <= k < entries.len() && contains(
            lower((#[trigger] entries[k]).content),
            lower(word),
        ) implies contents(found).contains(entries[k].content) by {
            assert(meets(entries[k]));
            assert(found.contains(entries[k]));
            let i = choose|i: int| 0 <= i < found.len() && found[i] == entries[k];
            assert(contents(found)[i] == entries[k].content);
        }
        assert forall|i: int| 0 <= i < contents(found).len() implies contains(
            lower(#[trigger] contents(found)[i]),
            lower(word),
        ) by {
            assert(meets(found[i]));
        }
    }
}

/// Rewording a fact changes that fact alone, and keeps it in its place and under its id.
pub proof fn law_rewording_changes_one_fact(entries: Seq<EntryView>, id: i64, content: Seq<char>)
    ensures
        with_content(entries, id, content).len() == entries.len(),
        forall|k: int|
            0 <= k < entries.len() ==> {
                let after = #[trigger] with_content(entries, id, content)[k];
                &&& after.id == entries[k].id
                &&& entries[k].id == id ==> after.content == content
                &&& entries[k].id != id ==> after.content == entries[k].content
            },
{
}

/// Forgetting a fact takes that fact away and leaves the others.
pub proof fn law_forgetting_takes_one_fact(entries: Seq<EntryView>, id: i64)
    ensures
        !has_id(without_id(entries, id), id),
        forall|k: int|
            0 <= k < entries.len() && (#[trigger] entries[k]).id != id ==> without_id(
                entries,
                id,
            ).contains(entries[k]),
        forall|k: int|
            0 <= k < without_id(entries, id).len() ==> entries.contains(
                #[trigger] without_id(entries, id)[k],
            ),
{
    broadcast use vstd::seq_lib::group_filter_ensures;

    let keep = |entry: EntryView| entry.id != id;
    let left = without_id(entries, id);
    assert forall|k: int| 0 <= k < left.len() implies (#[trigger] left[k]).id != id
        && entries.contains(left[k]) by {
        assert(keep(left[k]));
        lemma_positions(entries, keep);
        lemma_rows_at_positions(entries, keep);
        let at = positions(entries, keep);
        assert(left[k] == entries[at[k]]);
    }
    assert forall|k: int| 0 <= k < entries.len() && (#[trigger] entries[k]).id
        != id implies left.contains(entries[k]) by {
        assert(keep(entries[k]));
    }
}

/// What is remembered weighs what the facts weigh together.
pub proof fn law_memory_weighs_what_its_facts_weigh(entries: Seq<EntryView>, entry: EntryView)
    ensures
        memory_bytes(Seq::empty()) == 0,
        memory_bytes(entries.push(entry)) == memory_bytes(entries) + utf8_len(entry.content),
{
    assert(entries.push(entry).drop_last() =~= entries);
}

} // verus!
