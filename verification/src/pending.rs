//! The prompts that wait for the owner's answer. Each waits under a name of its own, and an answer
//! takes it off the list.
use vstd::prelude::*;
use vstd::string::*;

use crate::prompts::QuestionAnswer;
use crate::text::{same, texts};

verus! {

/// The host actions that wait for approval, by the names of their prompts.
#[derive(Debug)]
pub struct Approvals {
    pub names: Vec<String>,
}

impl View for Approvals {
    type V = Seq<Seq<char>>;

    open spec fn view(&self) -> Seq<Seq<char>> {
        texts(self.names@)
    }
}

impl Approvals {
    /// No two prompts have the same name.
    pub open spec fn wf(&self) -> bool {
        self@.no_duplicates()
    }

    pub fn new() -> (r: Self)
        ensures
            r.wf(),
            r@ == Seq::<Seq<char>>::empty(),
    {
        let r = Approvals { names: Vec::new() };
        assert(r@ =~= Seq::<Seq<char>>::empty());
        r
    }

    /// The place of a prompt.
    pub fn position(&self, name: &str) -> (r: Option<usize>)
        ensures
            match r {
                Some(i) => i < self@.len() && self@[i as int] == name@,
                None => !self@.contains(name@),
            },
    {
        let mut i: usize = 0;
        while i < self.names.len()
            invariant
                i <= self.names@.len(),
                forall|k: int| 0 <= k < i ==> #[trigger] self@[k] != name@,
            decreases self.names@.len() - i,
        {
            if same(self.names[i].as_str(), name) {
                return Some(i);
            }
            i = i + 1;
        }
        None
    }

    /// Lets a prompt wait, at the end of the list. Where one of its name waits already, it takes
    /// over that one's place, which is returned.
    pub fn open(&mut self, name: &str) -> (r: Option<usize>)
        requires
            old(self).wf(),
        ensures
            final(self).wf(),
            match r {
                Some(i) => i < old(self)@.len() && old(self)@[i as int] == name@ && final(self)@
                    == old(self)@,
                None => !old(self)@.contains(name@) && final(self)@ == old(self)@.push(name@),
            },
    {
        if let Some(i) = self.position(name) {
            return Some(i);
        }
        self.names.push(name.to_owned());
        assert(self@ =~= old(self)@.push(name@));
        None
    }

    /// Takes a prompt off the list, because it was answered or is given up. Returns the place it
    /// had.
    pub fn close(&mut self, name: &str) -> (r: Option<usize>)
        requires
            old(self).wf(),
        ensures
            final(self).wf(),
            match r {
                Some(i) => i < old(self)@.len() && old(self)@[i as int] == name@ && final(self)@
                    == old(self)@.remove(i as int),
                None => !old(self)@.contains(name@) && final(self)@ == old(self)@,
            },
    {
        match self.position(name) {
            Some(i) => {
                self.names.remove(i);
                assert(self@ =~= old(self)@.remove(i as int));
                Some(i)
            },
            None => None,
        }
    }
}

/// An approval cannot be replayed: once a prompt is closed, its name is on the list no more.
pub proof fn law_an_approval_counts_once(names: Seq<Seq<char>>, i: int)
    requires
        names.no_duplicates(),
        0 <= i < names.len(),
    ensures
        !names.remove(i).contains(names[i]),
        names.remove(i).no_duplicates(),
{
    let rest = names.remove(i);
    assert forall|k: int| 0 <= k < rest.len() implies #[trigger] rest[k] != names[i] by {
        if k < i {
            assert(rest[k] == names[k]);
        } else {
            assert(rest[k] == names[k + 1]);
        }
    }
}

/// A question that waits for its answer.
#[derive(Debug)]
pub struct PendingQuestion {
    pub nonce: String,
    /// The chat it was asked in, whose next text answers it.
    pub chat: i64,
    /// The labels of the offered buttons.
    pub options: Vec<String>,
}

/// No two questions have the same name.
pub open spec fn distinctly_named(questions: Seq<PendingQuestion>) -> bool {
    forall|i: int, j: int|
        0 <= i < j < questions.len() ==> (#[trigger] questions[i]).nonce@ != (
        #[trigger] questions[j]).nonce@
}

/// Whether a question of that name waits.
pub open spec fn is_open(questions: Seq<PendingQuestion>, nonce: Seq<char>) -> bool {
    exists|i: int| 0 <= i < questions.len() && (#[trigger] questions[i]).nonce@ == nonce
}

/// The questions of a name.
pub open spec fn named(nonce: Seq<char>) -> spec_fn(PendingQuestion) -> bool {
    |q: PendingQuestion| q.nonce@ == nonce
}

/// The questions asked in a chat.
pub open spec fn of_chat(chat: i64) -> spec_fn(PendingQuestion) -> bool {
    |q: PendingQuestion| q.chat == chat
}

/// The first of the questions for which `meets` holds, from `from` on.
pub open spec fn first_question(
    questions: Seq<PendingQuestion>,
    meets: spec_fn(PendingQuestion) -> bool,
    from: int,
) -> Option<int>
    decreases questions.len() - from,
{
    if from < 0 || from >= questions.len() {
        None
    } else if meets(questions[from]) {
        Some(from)
    } else {
        first_question(questions, meets, from + 1)
    }
}

proof fn lemma_first_question(
    questions: Seq<PendingQuestion>,
    meets: spec_fn(PendingQuestion) -> bool,
    from: int,
)
    requires
        0 <= from,
    ensures
        match first_question(questions, meets, from) {
            Some(i) => from <= i < questions.len() && meets(questions[i]) && forall|k: int|
                from <= k < i ==> !meets(#[trigger] questions[k]),
            None => forall|k: int| from <= k < questions.len() ==> !meets(#[trigger] questions[k]),
        },
    decreases questions.len() - from,
{
    if from < questions.len() && !meets(questions[from]) {
        lemma_first_question(questions, meets, from + 1);
    }
}

/// What a tap on a question's button answers: the question, by its place, and the text of the
/// option. A tap that names no option of a pending question answers nothing, and leaves the
/// question waiting.
pub open spec fn tapped(questions: Seq<PendingQuestion>, nonce: Seq<char>, option: int) -> Option<
    (int, Seq<char>),
> {
    match first_question(questions, named(nonce), 0) {
        Some(i) => if 0 <= option < questions[i].options@.len() {
            Some((i, questions[i].options@[option]@))
        } else {
            None
        },
        None => None,
    }
}

/// The question that a text sent to a chat answers: one that was asked there.
pub open spec fn asked_in(questions: Seq<PendingQuestion>, chat: i64) -> Option<int> {
    first_question(questions, of_chat(chat), 0)
}

/// The questions that wait for an answer.
#[derive(Debug)]
pub struct Questions {
    pub pending: Vec<PendingQuestion>,
}

impl Questions {
    pub open spec fn wf(&self) -> bool {
        distinctly_named(self.pending@)
    }

    pub fn new() -> (r: Self)
        ensures
            r.wf(),
            r.pending@.len() == 0,
    {
        Questions { pending: Vec::new() }
    }

    /// The place of a question.
    pub fn position(&self, nonce: &str) -> (r: Option<usize>)
        ensures
            match r {
                Some(i) => {
                    &&& i < self.pending@.len()
                    &&& self.pending@[i as int].nonce@ == nonce@
                    &&& first_question(self.pending@, named(nonce@), 0)
                        == Some(i as int)
                },
                None => {
                    &&& !is_open(self.pending@, nonce@)
                    &&& first_question(self.pending@, named(nonce@), 0)
                        is None
                },
            },
    {
        let ghost questions = self.pending@;
        let ghost meets = named(nonce@);
        let mut i: usize = 0;
        while i < self.pending.len()
            invariant
                i <= questions.len(),
                questions == self.pending@,
                meets == named(nonce@),
                first_question(questions, meets, 0) == first_question(questions, meets, i as int),
                forall|k: int| 0 <= k < i ==> (#[trigger] questions[k]).nonce@ != nonce@,
            decreases self.pending@.len() - i,
        {
            if same(self.pending[i].nonce.as_str(), nonce) {
                return Some(i);
            }
            i = i + 1;
        }
        None
    }

    /// Lets a question wait, at the end of the list. Where one of its name waits already, it takes
    /// over that one's place, which is returned.
    pub fn open(&mut self, question: PendingQuestion) -> (r: Option<usize>)
        requires
            old(self).wf(),
        ensures
            final(self).wf(),
            match r {
                Some(i) => {
                    &&& i < old(self).pending@.len()
                    &&& old(self).pending@[i as int].nonce@ == question.nonce@
                    &&& final(self).pending@ == old(self).pending@.update(i as int, question)
                },
                None => !is_open(old(self).pending@, question.nonce@) && final(self).pending@
                    == old(self).pending@.push(question),
            },
    {
        match self.position(question.nonce.as_str()) {
            Some(i) => {
                self.pending[i] = question;
                Some(i)
            },
            None => {
                self.pending.push(question);
                None
            },
        }
    }

    /// Takes the question at a place off the list.
    fn take(&mut self, i: usize)
        requires
            old(self).wf(),
            i < old(self).pending@.len(),
        ensures
            final(self).wf(),
            final(self).pending@ == old(self).pending@.remove(i as int),
    {
        self.pending.remove(i);
        proof {
            lemma_still_distinct(old(self).pending@, i as int);
        }
    }

    /// Withdraws a question. Returns the place it had.
    pub fn close(&mut self, nonce: &str) -> (r: Option<usize>)
        requires
            old(self).wf(),
        ensures
            final(self).wf(),
            match r {
                Some(i) => {
                    &&& i < old(self).pending@.len()
                    &&& old(self).pending@[i as int].nonce@ == nonce@
                    &&& final(self).pending@ == old(self).pending@.remove(i as int)
                },
                None => !is_open(old(self).pending@, nonce@) && final(self).pending@ == old(
                    self,
                ).pending@,
            },
    {
        match self.position(nonce) {
            Some(i) => {
                self.take(i);
                Some(i)
            },
            None => None,
        }
    }

    /// Whether a text sent to a chat answers a question.
    pub fn waits_in(&self, chat: i64) -> (r: bool)
        ensures
            r == (asked_in(self.pending@, chat) is Some),
    {
        self.in_chat(chat).is_some()
    }

    fn in_chat(&self, chat: i64) -> (r: Option<usize>)
        ensures
            match r {
                Some(i) => asked_in(self.pending@, chat) == Some(i as int) && i
                    < self.pending@.len(),
                None => asked_in(self.pending@, chat) is None,
            },
    {
        let ghost meets = of_chat(chat);
        let mut i: usize = 0;
        while i < self.pending.len()
            invariant
                i <= self.pending@.len(),
                meets == of_chat(chat),
                first_question(self.pending@, meets, 0) == first_question(
                    self.pending@,
                    meets,
                    i as int,
                ),
            decreases self.pending@.len() - i,
        {
            if self.pending[i].chat == chat {
                return Some(i);
            }
            i = i + 1;
        }
        None
    }

    /// Lets a text sent to a chat answer the question asked there, which is taken off the list.
    /// Returns the place it had.
    pub fn answer_in(&mut self, chat: i64) -> (r: Option<usize>)
        requires
            old(self).wf(),
        ensures
            final(self).wf(),
            match r {
                Some(i) => asked_in(old(self).pending@, chat) == Some(i as int) && i < old(
                    self,
                ).pending@.len() && final(self).pending@ == old(self).pending@.remove(i as int),
                None => asked_in(old(self).pending@, chat) is None && final(self).pending@ == old(
                    self,
                ).pending@,
            },
    {
        match self.in_chat(chat) {
            Some(i) => {
                self.take(i);
                Some(i)
            },
            None => None,
        }
    }

    /// Lets a tap on a question's button answer it: the question is taken off the list. Returns
    /// the place it had and the text of the option.
    pub fn answer_tap(&mut self, answer: &QuestionAnswer) -> (r: Option<(usize, String)>)
        requires
            old(self).wf(),
        ensures
            final(self).wf(),
            match r {
                Some((i, text)) => {
                    &&& tapped(old(self).pending@, answer.nonce@, answer.option_index as int)
                        == Some((i as int, text@))
                    &&& i < old(self).pending@.len()
                    &&& final(self).pending@ == old(self).pending@.remove(i as int)
                },
                None => {
                    &&& tapped(old(self).pending@, answer.nonce@, answer.option_index as int)
                        is None
                    &&& final(self).pending@ == old(self).pending@
                },
            },
    {
        match self.position(answer.nonce.as_str()) {
            Some(i) => if answer.option_index < self.pending[i].options.len() {
                let text = self.pending[i].options[answer.option_index].clone();
                self.take(i);
                Some((i, text))
            } else {
                None
            },
            None => None,
        }
    }
}

proof fn lemma_still_distinct(questions: Seq<PendingQuestion>, i: int)
    requires
        distinctly_named(questions),
        0 <= i < questions.len(),
    ensures
        distinctly_named(questions.remove(i)),
        forall|k: int|
            0 <= k < questions.remove(i).len() ==> (#[trigger] questions.remove(i)[k]).nonce@
                != questions[i].nonce@,
{
    let rest = questions.remove(i);
    assert forall|a: int, b: int| 0 <= a < b < rest.len() implies (#[trigger] rest[a]).nonce@ != (
    #[trigger] rest[b]).nonce@ by {
        let x = if a < i {
            a
        } else {
            a + 1
        };
        let y = if b < i {
            b
        } else {
            b + 1
        };
        assert(questions[x].nonce@ != questions[y].nonce@);
    }
    assert forall|k: int| 0 <= k < rest.len() implies (#[trigger] rest[k]).nonce@
        != questions[i].nonce@ by {
        if k < i {
            assert(rest[k] == questions[k]);
        } else {
            assert(rest[k] == questions[k + 1]);
        }
    }
}

/// A question is answered once: after a question has left the list, no tap on its buttons answers
/// anything.
pub proof fn law_a_question_is_answered_once(
    questions: Seq<PendingQuestion>,
    i: int,
    option: int,
)
    requires
        distinctly_named(questions),
        0 <= i < questions.len(),
    ensures
        tapped(questions.remove(i), questions[i].nonce@, option) is None,
{
    lemma_still_distinct(questions, i);
    let nonce = questions[i].nonce@;
    lemma_first_question(questions.remove(i), named(nonce), 0);
}

/// A tap answers the question that its button stands under, with just the option on the button.
pub proof fn law_taps_answer_their_question(
    questions: Seq<PendingQuestion>,
    i: int,
    option: int,
)
    requires
        distinctly_named(questions),
        0 <= i < questions.len(),
    ensures
        0 <= option < questions[i].options@.len() ==> tapped(questions, questions[i].nonce@, option)
            == Some((i, questions[i].options@[option]@)),
        option < 0 || option >= questions[i].options@.len() ==> tapped(
            questions,
            questions[i].nonce@,
            option,
        ) is None,
{
    let meets = named(questions[i].nonce@);
    lemma_first_question(questions, meets, 0);
    let found = first_question(questions, meets, 0);
    assert(meets(questions[i]));
    assert(found == Some(i)) by {
        if found is None {
            assert(!meets(questions[i]));
        } else if found->0 < i {
            assert(questions[found->0].nonce@ != questions[i].nonce@);
        } else if found->0 > i {
            assert(!meets(questions[i]));
        }
    }
}

/// What is written in a chat answers the question that waits there longest, and nothing where none
/// waits.
pub proof fn law_words_answer_the_chats_question(questions: Seq<PendingQuestion>, chat: i64)
    ensures
        asked_in(questions, chat) matches Some(i) ==> 0 <= i < questions.len() && questions[i].chat
            == chat && forall|k: int| 0 <= k < i ==> (#[trigger] questions[k]).chat != chat,
        asked_in(questions, chat) is None ==> forall|k: int|
            0 <= k < questions.len() ==> (#[trigger] questions[k]).chat != chat,
{
    let meets = of_chat(chat);
    lemma_first_question(questions, meets, 0);
    assert forall|k: int| 0 <= k < questions.len() implies meets(#[trigger] questions[k]) == (
    questions[k].chat == chat) by {}
}

} // verus!
