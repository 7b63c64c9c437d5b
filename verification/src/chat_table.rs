//! One text per chat: which conversation a chat is in, which workspace it chose.
use vstd::prelude::*;
use vstd::string::*;

use crate::text::same;

verus! {

/// A chat and the text that belongs to it.
#[derive(Debug)]
pub struct ChatRow {
    pub telegram_chat_id: i64,
    pub value: String,
}

/// At most one text for each chat.
#[derive(Debug)]
pub struct ChatTable {
    pub rows: Vec<ChatRow>,
}

impl View for ChatTable {
    type V = Map<i64, Seq<char>>;

    open spec fn view(&self) -> Map<i64, Seq<char>> {
        Map::new(
            |chat: i64| exists|i: int| row_of(self.rows@, i, chat),
            |chat: i64| self.rows@[choose|i: int| row_of(self.rows@, i, chat)].value@,
        )
    }
}

/// Whether row `i` is the chat's.
pub open spec fn row_of(rows: Seq<ChatRow>, i: int, chat: i64) -> bool {
    0 <= i < rows.len() && rows[i].telegram_chat_id == chat
}

impl ChatTable {
    /// No chat occurs twice.
    pub open spec fn wf(&self) -> bool {
        forall|i: int, j: int|
            0 <= i < j < self.rows@.len() ==> (#[trigger] self.rows@[i]).telegram_chat_id != (
            #[trigger] self.rows@[j]).telegram_chat_id
    }

    proof fn lemma_row(&self, i: int)
        requires
            self.wf(),
            0 <= i < self.rows@.len(),
        ensures
            self@.contains_key(self.rows@[i].telegram_chat_id),
            self@[self.rows@[i].telegram_chat_id] == self.rows@[i].value@,
    {
        let chat = self.rows@[i].telegram_chat_id;
        assert(row_of(self.rows@, i, chat));
        let k = choose|k: int| row_of(self.rows@, k, chat);
        assert(k == i);
    }

    /// A table that holds exactly the entries of a map is that map.
    proof fn lemma_is(&self, goal: Map<i64, Seq<char>>)
        requires
            self.wf(),
            forall|i: int|
                0 <= i < self.rows@.len() ==> goal.contains_key(
                    (#[trigger] self.rows@[i]).telegram_chat_id,
                ) && goal[self.rows@[i].telegram_chat_id] == self.rows@[i].value@,
            forall|chat: i64| #[trigger]
                goal.contains_key(chat) ==> exists|i: int| row_of(self.rows@, i, chat),
        ensures
            self@ == goal,
    {
        assert forall|chat: i64| #[trigger] self@.contains_key(chat) implies goal.contains_key(chat)
            && self@[chat] == goal[chat] by {
            let i = choose|i: int| row_of(self.rows@, i, chat);
            self.lemma_row(i);
        }
        assert(self@ =~= goal);
    }

    pub fn new() -> (r: Self)
        ensures
            r.wf(),
            r@ == Map::<i64, Seq<char>>::empty(),
    {
        let r = ChatTable { rows: Vec::new() };
        assert(r@ =~= Map::<i64, Seq<char>>::empty());
        r
    }

    fn position(&self, chat_id: i64) -> (r: Option<usize>)
        requires
            self.wf(),
        ensures
            match r {
                Some(i) => i < self.rows@.len() && self.rows@[i as int].telegram_chat_id == chat_id
                    && self@.contains_key(chat_id) && self@[chat_id] == self.rows@[i as int].value@,
                None => !self@.contains_key(chat_id),
            },
    {
        let mut i: usize = 0;
        while i < self.rows.len()
            invariant
                i <= self.rows@.len(),
                self.wf(),
                forall|k: int| 0 <= k < i ==> (#[trigger] self.rows@[k]).telegram_chat_id != chat_id,
            decreases self.rows@.len() - i,
        {
            if self.rows[i].telegram_chat_id == chat_id {
                proof {
                    self.lemma_row(i as int);
                }
                return Some(i);
            }
            i = i + 1;
        }
        None
    }

    /// The chat's text.
    pub fn get(&self, chat_id: i64) -> (r: Option<String>)
        requires
            self.wf(),
        ensures
            match r {
                Some(value) => self@.contains_key(chat_id) && value@ == self@[chat_id],
                None => !self@.contains_key(chat_id),
            },
    {
        match self.position(chat_id) {
            Some(i) => Some(self.rows[i].value.clone()),
            None => None,
        }
    }

    /// Gives the chat a text, in place of the one it had.
    pub fn set(&mut self, chat_id: i64, value: &str)
        requires
            old(self).wf(),
        ensures
            final(self).wf(),
            final(self)@ == old(self)@.insert(chat_id, value@),
    {
        let ghost before = *self;
        let ghost goal = self@.insert(chat_id, value@);
        match self.position(chat_id) {
            Some(i) => {
                self.rows[i].value = value.to_owned();
                proof {
                    assert(forall|k: int|
                        0 <= k < self.rows@.len() ==> (#[trigger] self.rows@[k]).telegram_chat_id
                            == before.rows@[k].telegram_chat_id);
                    assert forall|k: int| 0 <= k < self.rows@.len() implies goal.contains_key(
                        (#[trigger] self.rows@[k]).telegram_chat_id,
                    ) && goal[self.rows@[k].telegram_chat_id] == self.rows@[k].value@ by {
                        before.lemma_row(k);
                    }
                    assert forall|chat: i64| #[trigger] goal.contains_key(chat) implies exists|k: int|
                        row_of(self.rows@, k, chat) by {
                        if chat == chat_id {
                            assert(row_of(self.rows@, i as int, chat));
                        } else {
                            let k = choose|k: int| row_of(before.rows@, k, chat);
                            assert(row_of(self.rows@, k, chat));
                        }
                    }
                    self.lemma_is(goal);
                }
            },
            None => {
                self.rows.push(ChatRow { telegram_chat_id: chat_id, value: value.to_owned() });
                proof {
                    assert forall|k: int| 0 <= k < before.rows@.len() implies (
                    #[trigger] self.rows@[k]).telegram_chat_id != chat_id by {
                        before.lemma_row(k);
                    }
                    assert forall|k: int| 0 <= k < self.rows@.len() implies goal.contains_key(
                        (#[trigger] self.rows@[k]).telegram_chat_id,
                    ) && goal[self.rows@[k].telegram_chat_id] == self.rows@[k].value@ by {
                        if k < before.rows@.len() {
                            before.lemma_row(k);
                        }
                    }
                    assert forall|chat: i64| #[trigger] goal.contains_key(chat) implies exists|k: int|
                        row_of(self.rows@, k, chat) by {
                        if chat == chat_id {
                            assert(row_of(self.rows@, before.rows@.len() as int, chat));
                        } else {
                            let k = choose|k: int| row_of(before.rows@, k, chat);
                            assert(row_of(self.rows@, k, chat));
                        }
                    }
                    self.lemma_is(goal);
                }
            },
        }
    }

    /// Takes out the row at `i`.
    fn remove_row(&mut self, i: usize)
        requires
            old(self).wf(),
            i < old(self).rows@.len(),
        ensures
            final(self).wf(),
            final(self).rows@ == old(self).rows@.remove(i as int),
            final(self)@ == old(self)@.remove(old(self).rows@[i as int].telegram_chat_id),
    {
        let ghost before = *self;
        let ghost goal = self@.remove(self.rows@[i as int].telegram_chat_id);
        self.rows.remove(i);
        proof {
            let rows = self.rows@;
            assert(rows =~= before.rows@.remove(i as int));
            assert forall|k: int| 0 <= k < rows.len() implies goal.contains_key(
                (#[trigger] rows[k]).telegram_chat_id,
            ) && goal[rows[k].telegram_chat_id] == rows[k].value@ by {
                let old_k = if k < i {
                    k
                } else {
                    k + 1
                };
                before.lemma_row(old_k);
                assert(rows[k] == before.rows@[old_k]);
                assert(before.rows@[old_k].telegram_chat_id
                    != before.rows@[i as int].telegram_chat_id);
            }
            assert forall|chat: i64| #[trigger] goal.contains_key(chat) implies exists|k: int|
                row_of(rows, k, chat) by {
                let k = choose|k: int| row_of(before.rows@, k, chat);
                let new_k = if k < i {
                    k
                } else {
                    k - 1
                };
                assert(k != i);
                assert(row_of(rows, new_k, chat));
            }
            self.lemma_is(goal);
        }
    }

    /// Takes the chat's text away. Returns whether it had one.
    pub fn remove(&mut self, chat_id: i64) -> (r: bool)
        requires
            old(self).wf(),
        ensures
            final(self).wf(),
            r == old(self)@.contains_key(chat_id),
            final(self)@ == old(self)@.remove(chat_id),
    {
        match self.position(chat_id) {
            Some(i) => {
                self.remove_row(i);
                true
            },
            None => {
                assert(self@.remove(chat_id) =~= self@);
                false
            },
        }
    }

    /// Takes the given text away from every chat that has it.
    pub fn remove_value(&mut self, value: &str)
        requires
            old(self).wf(),
        ensures
            final(self).wf(),
            final(self)@ == without_value(old(self)@, value@),
    {
        let ghost goal = without_value(self@, value@);
        let mut i: usize = 0;
        while i < self.rows.len()
            invariant
                i <= self.rows@.len(),
                self.wf(),
                without_value(self@, value@) == goal,
                forall|k: int| 0 <= k < i ==> (#[trigger] self.rows@[k]).value@ != value@,
            decreases self.rows@.len() - i,
        {
            if same(self.rows[i].value.as_str(), value) {
                let ghost earlier = *self;
                proof {
                    earlier.lemma_row(i as int);
                }
                self.remove_row(i);
                assert(without_value(self@, value@) =~= without_value(earlier@, value@));
            } else {
                i = i + 1;
            }
        }
        proof {
            assert forall|chat: i64| #[trigger] self@.contains_key(chat) implies self@[chat]
                != value@ by {
                let k = choose|k: int| row_of(self.rows@, k, chat);
                self.lemma_row(k);
            }
            assert(without_value(self@, value@) =~= self@);
        }
    }
}

/// The map without the entries whose text is `value`.
pub open spec fn without_value(map: Map<i64, Seq<char>>, value: Seq<char>) -> Map<i64, Seq<char>> {
    Map::new(|chat: i64| map.contains_key(chat) && map[chat] != value, |chat: i64| map[chat])
}

} // verus!
