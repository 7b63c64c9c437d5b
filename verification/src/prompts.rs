//! What the owner is asked in the middle of a turn: to approve a host action, or to answer a
//! question of the model's.
use vstd::prelude::*;
use vstd::string::*;

use crate::agent::ApprovalOutcome;
use crate::json::{
    complain, json_read, read, read_view, views, with_reason, Json, JsonView,
};
use crate::text::{
    contains, decimal, decimal_usize, ends_in, index_from, index_of, lemma_ends_in,
    lemma_in_turn_contains, lemma_index_from, lemma_one, lemma_starts, occurs_at, parse_nat,
    parse_u64, same, slice, strip_prefix, take_chars, texts, to_chars, trim, trimmed, utf8_len,
};
use crate::tools::arguments::{argument, find_argument, find_text, text_argument};

verus! {

/// How long the owner has to answer, in seconds.
pub const APPROVAL_TIMEOUT: u64 = 120;

/// How much of a host action is shown when its approval is asked.
pub const MAX_APPROVAL_PREVIEW_CHARS: usize = 3500;

/// Maximum number of buttons that a question offers (an inline keyboard is unwieldy past a handful
/// of options).
pub const MAX_ASK_USER_OPTIONS: usize = 4;

/// A button and what tapping it sends back.
#[derive(Debug)]
pub struct Button {
    pub label: String,
    pub data: String,
}

#[verifier::ext_equal]
pub struct ButtonView {
    pub label: Seq<char>,
    pub data: Seq<char>,
}

impl View for Button {
    type V = ButtonView;

    open spec fn view(&self) -> ButtonView {
        ButtonView { label: self.label@, data: self.data@ }
    }
}

pub open spec fn shortened_action(action: Seq<char>) -> Seq<char> {
    if action.len() > MAX_APPROVAL_PREVIEW_CHARS {
        action.take(MAX_APPROVAL_PREVIEW_CHARS as int) + "\n... approval preview truncated"@
    } else {
        action
    }
}

/// The prompt that asks the owner to approve a host action.
pub open spec fn approval_text(action: Seq<char>) -> Seq<char> {
    "Kumo wants to run this host action:\n\n"@ + shortened_action(action)
        + "\n\n\"Always allow\" skips this prompt for this tool for the rest of the conversation, until /new."@
}

/// The prompt that asks the owner to approve a host action.
pub fn approval_prompt(action: &str) -> (r: String)
    ensures
        r@ == approval_text(action@),
{
    let mut r = "Kumo wants to run this host action:\n\n".to_owned();
    r.push_str(take_chars(action, MAX_APPROVAL_PREVIEW_CHARS).as_str());
    if to_chars(action).len() > MAX_APPROVAL_PREVIEW_CHARS {
        r.push_str("\n... approval preview truncated");
    }
    r.push_str(
        "\n\n\"Always allow\" skips this prompt for this tool for the rest of the conversation, until /new.",
    );
    assert(r@ =~= "Kumo wants to run this host action:\n\n"@ + shortened_action(action@)
        + "\n\n\"Always allow\" skips this prompt for this tool for the rest of the conversation, until /new."@);
    r
}

pub open spec fn approval_data(nonce: Seq<char>, word: Seq<char>) -> Seq<char> {
    "approval:"@ + nonce + ":"@ + word
}

fn approval_button(label: &str, nonce: &str, word: &str) -> (r: Button)
    ensures
        r@ == (ButtonView { label: label@, data: approval_data(nonce@, word@) }),
{
    let mut data = "approval:".to_owned();
    data.push_str(nonce);
    data.push_str(":");
    data.push_str(word);
    Button { label: label.to_owned(), data }
}

/// The buttons under an approval prompt.
pub open spec fn approval_choices(nonce: Seq<char>) -> Seq<ButtonView> {
    seq![
        ButtonView { label: "Allow once"@, data: approval_data(nonce, "allow"@) },
        ButtonView { label: "Always allow"@, data: approval_data(nonce, "always"@) },
        ButtonView { label: "Deny"@, data: approval_data(nonce, "deny"@) },
    ]
}

/// The buttons under an approval prompt.
pub fn approval_buttons(nonce: &str) -> (r: Vec<Button>)
    ensures
        crate::text::seq_view(r@) == approval_choices(nonce@),
{
    let mut r: Vec<Button> = Vec::new();
    r.push(approval_button("Allow once", nonce, "allow"));
    r.push(approval_button("Always allow", nonce, "always"));
    r.push(approval_button("Deny", nonce, "deny"));
    assert(crate::text::seq_view(r@) =~= seq![
        ButtonView { label: "Allow once"@, data: approval_data(nonce@, "allow"@) },
        ButtonView { label: "Always allow"@, data: approval_data(nonce@, "always"@) },
        ButtonView { label: "Deny"@, data: approval_data(nonce@, "deny"@) },
    ]);
    r
}

/// The last position before `to` at which `c` stands in `s`.
pub open spec fn last_index(s: Seq<char>, c: char, to: int) -> Option<int>
    decreases to,
{
    if to <= 0 || to > s.len() {
        None
    } else if s[to - 1] == c {
        Some(to - 1)
    } else {
        last_index(s, c, to - 1)
    }
}

pub(crate) fn last_index_of(chars: &Vec<char>, c: char) -> (r: Option<usize>)
    ensures
        match r {
            Some(at) => last_index(chars@, c, chars@.len() as int) == Some(at as int) && at
                < chars.len(),
            None => last_index(chars@, c, chars@.len() as int) is None,
        },
{
    let mut to: usize = chars.len();
    while to > 0
        invariant
            to <= chars@.len(),
            last_index(chars@, c, chars@.len() as int) == last_index(chars@, c, to as int),
        decreases to,
    {
        if chars[to - 1] == c {
            return Some(to - 1);
        }
        to = to - 1;
    }
    None
}

pub open spec fn outcome_of(word: Seq<char>) -> Option<ApprovalOutcome> {
    if word == "allow"@ {
        Some(ApprovalOutcome::AllowOnce)
    } else if word == "always"@ {
        Some(ApprovalOutcome::AlwaysAllow)
    } else if word == "deny"@ {
        Some(ApprovalOutcome::Deny)
    } else {
        None
    }
}

/// The prompt that a tap answers, and the answer.
#[derive(Debug)]
pub struct ApprovalDecision {
    pub nonce: String,
    pub outcome: ApprovalOutcome,
}

/// What an `approval:<nonce>:<allow|always|deny>` payload says.
pub open spec fn approval_of(data: Seq<char>) -> Option<(Seq<char>, ApprovalOutcome)> {
    if !occurs_at(data, "approval:"@, 0) {
        None
    } else {
        let rest = data.skip("approval:"@.len() as int);
        match last_index(rest, ':', rest.len() as int) {
            None => None,
            Some(at) => match outcome_of(rest.skip(at + 1)) {
                Some(outcome) => Some((rest.take(at), outcome)),
                None => None,
            },
        }
    }
}

/// Reads an `approval:<nonce>:<allow|always|deny>` callback payload.
pub fn parse_approval_callback(data: &str) -> (r: Option<ApprovalDecision>)
    ensures
        match r {
            Some(decision) => approval_of(data@) == Some((decision.nonce@, decision.outcome)),
            None => approval_of(data@) is None,
        },
{
    let rest = match strip_prefix(data, "approval:") {
        Some(rest) => rest,
        None => {
            return None;
        },
    };
    let chars = to_chars(rest.as_str());
    let at: usize = match last_index_of(&chars, ':') {
        Some(at) => at,
        None => {
            return None;
        },
    };
    let nonce = slice(&chars, 0, at);
    let word = slice(&chars, at + 1, chars.len());
    assert(nonce@ =~= rest@.take(at as int));
    assert(word@ =~= rest@.skip(at + 1));
    let outcome = if same(word.as_str(), "allow") {
        ApprovalOutcome::AllowOnce
    } else if same(word.as_str(), "always") {
        ApprovalOutcome::AlwaysAllow
    } else if same(word.as_str(), "deny") {
        ApprovalOutcome::Deny
    } else {
        return None;
    };
    Some(ApprovalDecision { nonce, outcome })
}

/// Where the last copy of a character stands.
pub proof fn lemma_last_index(s: Seq<char>, c: char, at: int, to: int)
    requires
        0 <= at < to <= s.len(),
        s[at] == c,
        forall|k: int| at < k < to ==> s[k] != c,
    ensures
        last_index(s, c, to) == Some(at),
    decreases to,
{
    if to - 1 > at {
        lemma_last_index(s, c, at, to - 1);
    }
}

/// Tapping a button under an approval prompt gives the answer that the button is for, to the prompt
/// that it stands under.
pub proof fn law_approval_buttons_mean_what_they_say(nonce: Seq<char>)
    ensures
        approval_of(approval_data(nonce, "allow"@)) == Some((nonce, ApprovalOutcome::AllowOnce)),
        approval_of(approval_data(nonce, "always"@)) == Some((nonce, ApprovalOutcome::AlwaysAllow)),
        approval_of(approval_data(nonce, "deny"@)) == Some((nonce, ApprovalOutcome::Deny)),
{
    reveal_strlit("approval:");
    reveal_strlit(":");
    reveal_strlit("allow");
    reveal_strlit("always");
    reveal_strlit("deny");
    assert("allow"@.len() == 5 && "always"@.len() == 6 && "deny"@.len() == 4);
    lemma_approval_read(nonce, "allow"@);
    lemma_approval_read(nonce, "always"@);
    lemma_approval_read(nonce, "deny"@);
}

proof fn lemma_approval_read(nonce: Seq<char>, word: Seq<char>)
    requires
        forall|k: int| 0 <= k < word.len() ==> word[k] != ':',
    ensures
        approval_of(approval_data(nonce, word)) == (match outcome_of(word) {
            Some(outcome) => Some((nonce, outcome)),
            None => None,
        }),
{
    reveal_strlit("approval:");
    reveal_strlit(":");
    let data = approval_data(nonce, word);
    let prefix = "approval:"@;
    assert(data.subrange(0, prefix.len() as int) =~= prefix);
    let rest = data.skip(prefix.len() as int);
    assert(rest =~= nonce + ":"@ + word);
    let at = nonce.len() as int;
    assert(rest[at] == ':');
    assert forall|k: int| at < k < rest.len() implies rest[k] != ':' by {
        assert(rest[k] == word[k - at - 1]);
    }
    lemma_last_index(rest, ':', at, rest.len() as int);
    assert(rest.take(at) =~= nonce);
    assert(rest.skip(at + 1) =~= word);
}

/// The question that a tap answers, and the number of the option that was tapped.
#[derive(Debug)]
pub struct QuestionAnswer {
    pub nonce: String,
    pub option_index: usize,
}

/// What a `question:<nonce>:<option index>` payload says.
pub open spec fn question_of(data: Seq<char>) -> Option<(Seq<char>, int)> {
    if !occurs_at(data, "question:"@, 0) {
        None
    } else {
        let rest = data.skip("question:"@.len() as int);
        match index_from(rest, ':', 0) {
            None => None,
            Some(at) => match parse_nat(rest.skip(at + 1)) {
                Some(index) => if index <= usize::MAX {
                    Some((rest.take(at), index as int))
                } else {
                    None
                },
                None => None,
            },
        }
    }
}

/// Reads a `question:<nonce>:<option index>` callback payload.
pub fn parse_question_callback(data: &str) -> (r: Option<QuestionAnswer>)
    ensures
        match r {
            Some(answer) => question_of(data@) == Some((answer.nonce@, answer.option_index as int)),
            None => question_of(data@) is None,
        },
{
    let rest = match strip_prefix(data, "question:") {
        Some(rest) => rest,
        None => {
            return None;
        },
    };
    let chars = to_chars(rest.as_str());
    proof {
        lemma_index_from(rest@, ':', 0);
    }
    let at: usize = match index_of(&chars, ':', 0) {
        Some(at) => at,
        None => {
            return None;
        },
    };
    assert(at < chars.len());
    let nonce = slice(&chars, 0, at);
    let index = slice(&chars, at + 1, chars.len());
    assert(nonce@ =~= rest@.take(at as int));
    assert(index@ =~= rest@.skip(at + 1));
    match parse_u64(index.as_str()) {
        Some(index) => if index <= usize::MAX as u64 {
            Some(QuestionAnswer { nonce, option_index: index as usize })
        } else {
            None
        },
        None => None,
    }
}

/// A question that the model wants to ask.
#[derive(Debug)]
pub struct Question {
    pub text: String,
    pub options: Vec<String>,
}

/// The texts of a JSON array of texts.
pub open spec fn all_texts(items: Seq<JsonView>) -> Option<Seq<Seq<char>>>
    decreases items.len(),
{
    if items.len() == 0 {
        Some(seq![])
    } else {
        match (all_texts(items.drop_last()), items.last().as_text()) {
            (Some(rest), Some(text)) => Some(rest.push(text)),
            _ => None,
        }
    }
}

/// The options that a question's arguments offer: none where they are not given.
pub open spec fn options_argument(value: JsonView) -> Option<Seq<Seq<char>>> {
    match argument(value, "options"@, 1, 2) {
        None => Some(seq![]),
        Some(found) => match found.as_items() {
            Some(items) => all_texts(items),
            None => None,
        },
    }
}

/// The question and the options that a call asks to be put to the user, or what the call is
/// answered instead.
pub open spec fn question_arguments(value: Result<JsonView, Seq<char>>) -> Result<
    (Seq<char>, Seq<Seq<char>>),
    Seq<char>,
> {
    match text_argument(value, "question"@, 0, 2) {
        None => Err(with_reason("Error: invalid ask_user arguments"@, value)),
        Some(question) => match options_argument(value->Ok_0) {
            None => Err(with_reason("Error: invalid ask_user arguments"@, value)),
            Some(options) => if trim(question).len() == 0 {
                Err("Error: ask_user requires a non-empty 'question' argument"@)
            } else {
                Ok(
                    (
                        question,
                        if options.len() <= MAX_ASK_USER_OPTIONS {
                            options
                        } else {
                            options.take(MAX_ASK_USER_OPTIONS as int)
                        },
                    ),
                )
            },
        },
    }
}

fn read_texts(items: &Vec<Json>) -> (r: Option<Vec<String>>)
    ensures
        match r {
            Some(found) => all_texts(views(items@)) == Some(texts(found@)),
            None => all_texts(views(items@)) is None,
        },
{
    let ghost all = views(items@);
    let mut found: Vec<String> = Vec::new();
    let mut i: usize = 0;
    assert(all.take(0) =~= seq![]);
    assert(texts(found@) =~= seq![]);
    while i < items.len()
        invariant
            i <= items@.len(),
            all == views(items@),
            all_texts(all.take(i as int)) == Some(texts(found@)),
        decreases items@.len() - i,
    {
        assert(all.take(i + 1).drop_last() =~= all.take(i as int));
        assert(all.take(i + 1).last() == items@[i as int]@);
        match items[i].as_text() {
            Some(text) => {
                let ghost before = found@;
                found.push(text.clone());
                assert(texts(found@) =~= texts(before).push(text@));
            },
            None => {
                proof {
                    lemma_no_texts(all, i + 1);
                }
                return None;
            },
        }
        i = i + 1;
    }
    assert(all.take(i as int) =~= all);
    Some(found)
}

proof fn lemma_no_texts(items: Seq<JsonView>, n: int)
    requires
        0 <= n <= items.len(),
        all_texts(items.take(n)) is None,
    ensures
        all_texts(items) is None,
    decreases items.len() - n,
{
    if n < items.len() {
        assert(items.take(n + 1).drop_last() =~= items.take(n));
        lemma_no_texts(items, n + 1);
    } else {
        assert(items.take(n) =~= items);
    }
}

/// Reads the question that a call asks to be put to the user, its arguments being the JSON value
/// `value`.
pub fn read_question_value(value: &Result<Json, String>) -> (r: Result<Question, String>)
    ensures
        match r {
            Ok(question) => question_arguments(read_view(*value)) == Ok::<
                (Seq<char>, Seq<Seq<char>>),
                Seq<char>,
            >((question.text@, texts(question.options@))),
            Err(message) => question_arguments(read_view(*value)) == Err::<
                (Seq<char>, Seq<Seq<char>>),
                Seq<char>,
            >(message@),
        },
{
    let text = match find_text(value, "question", 0, 2) {
        Some(text) => text,
        None => {
            return Err(complain("Error: invalid ask_user arguments", value));
        },
    };
    let mut options: Vec<String> = Vec::new();
    assert(texts(options@) =~= seq![]);
    if let Ok(json) = value {
        if let Some(found) = find_argument(json, "options", 1, 2) {
            options =
            match found.as_items() {
                Some(items) => match read_texts(items) {
                    Some(options) => options,
                    None => {
                        return Err(complain("Error: invalid ask_user arguments", value));
                    },
                },
                None => {
                    return Err(complain("Error: invalid ask_user arguments", value));
                },
            };
        }
    }
    let ghost all = texts(options@);
    assert(options_argument(read_view(*value)->Ok_0) == Some(all));
    if trimmed(text.as_str()).as_str().is_empty() {
        return Err("Error: ask_user requires a non-empty 'question' argument".to_owned());
    }
    assert(all.len() == options@.len());
    if options.len() > MAX_ASK_USER_OPTIONS {
        options.truncate(MAX_ASK_USER_OPTIONS);
        assert(texts(options@) =~= all.take(MAX_ASK_USER_OPTIONS as int));
    }
    Ok(Question { text, options })
}

/// Reads the question that a call asks to be put to the user.
pub fn read_question(arguments: &str) -> (r: Result<Question, String>)
    ensures
        match r {
            Ok(question) => question_arguments(json_read(arguments@)) == Ok::<
                (Seq<char>, Seq<Seq<char>>),
                Seq<char>,
            >((question.text@, texts(question.options@))),
            Err(message) => question_arguments(json_read(arguments@)) == Err::<
                (Seq<char>, Seq<Seq<char>>),
                Seq<char>,
            >(message@),
        },
{
    read_question_value(&read(arguments))
}

pub open spec fn question_data(nonce: Seq<char>, option: nat) -> Seq<char> {
    "question:"@ + nonce + ":"@ + decimal(option)
}

pub open spec fn option_buttons(nonce: Seq<char>, options: Seq<Seq<char>>) -> Seq<ButtonView> {
    Seq::new(
        options.len(),
        |i: int| ButtonView { label: options[i], data: question_data(nonce, i as nat) },
    )
}

/// The buttons under a question: one for each option. A button carries only its option's number,
/// not its text, since Telegram caps what a button may carry.
pub fn question_buttons(nonce: &str, options: &Vec<String>) -> (r: Vec<Button>)
    ensures
        crate::text::seq_view(r@) == option_buttons(nonce@, texts(options@)),
{
    let mut r: Vec<Button> = Vec::new();
    let mut i: usize = 0;
    while i < options.len()
        invariant
            i <= options@.len(),
            r@.len() == i,
            forall|k: int|
                0 <= k < i ==> (#[trigger] r@[k])@ == (ButtonView {
                    label: options@[k]@,
                    data: question_data(nonce@, k as nat),
                }),
        decreases options@.len() - i,
    {
        let mut data = "question:".to_owned();
        data.push_str(nonce);
        data.push_str(":");
        data.push_str(decimal_usize(i).as_str());
        r.push(Button { label: options[i].clone(), data });
        i = i + 1;
    }
    assert(crate::text::seq_view(r@) =~= option_buttons(nonce@, texts(options@)));
    r
}

/// Tapping an option's button gives that option's number, to the question that it stands under.
pub proof fn law_question_buttons_mean_what_they_say(nonce: Seq<char>, option: nat)
    requires
        forall|k: int| 0 <= k < nonce.len() ==> nonce[k] != ':',
        option <= usize::MAX,
    ensures
        question_of(question_data(nonce, option)) == Some((nonce, option as int)),
{
    reveal_strlit("question:");
    reveal_strlit(":");
    let data = question_data(nonce, option);
    let prefix = "question:"@;
    assert(data.subrange(0, prefix.len() as int) =~= prefix);
    let rest = data.skip(prefix.len() as int);
    assert(rest =~= nonce + ":"@ + decimal(option));
    let at = nonce.len() as int;
    assert(rest[at] == ':');
    lemma_index_from(rest, ':', 0);
    let found = index_from(rest, ':', 0)->0;
    assert(found == at) by {
        if found < at {
            assert(rest[found] == nonce[found]);
        }
    }
    assert(rest.take(at) =~= nonce);
    assert(rest.skip(at + 1) =~= decimal(option));
    crate::text::law_decimals_read_back(option);
}

/// What a button sends back fits into the 64 bytes that Telegram allows it, under the 32-digit
/// names that prompts are given.
pub proof fn law_button_data_fits(nonce: Seq<char>, option: nat)
    requires
        vstd::utf8::is_ascii_chars(nonce),
        nonce.len() <= 32,
        option < MAX_ASK_USER_OPTIONS,
    ensures
        utf8_len(approval_data(nonce, "allow"@)) <= 64,
        utf8_len(approval_data(nonce, "always"@)) <= 64,
        utf8_len(approval_data(nonce, "deny"@)) <= 64,
        utf8_len(question_data(nonce, option)) <= 64,
{
    reveal_strlit("approval:");
    reveal_strlit("question:");
    reveal_strlit(":");
    reveal_strlit("allow");
    reveal_strlit("always");
    reveal_strlit("deny");
    reveal_with_fuel(decimal, 2);
    vstd::utf8::is_ascii_chars_encode_utf8(approval_data(nonce, "allow"@));
    vstd::utf8::is_ascii_chars_encode_utf8(approval_data(nonce, "always"@));
    vstd::utf8::is_ascii_chars_encode_utf8(approval_data(nonce, "deny"@));
    vstd::utf8::is_ascii_chars_encode_utf8(question_data(nonce, option));
}

/// How a question ended.
#[derive(Debug)]
pub enum QuestionEnd {
    Answered(String),
    /// Nobody can answer it any more.
    Dropped,
    TimedOut,
}

/// How a question ended, as the model is told of it.
pub open spec fn answer_text(end: QuestionEnd) -> Seq<char> {
    match end {
        QuestionEnd::Answered(text) => text@,
        QuestionEnd::Dropped => "The user did not answer."@,
        QuestionEnd::TimedOut => "The user did not answer in time."@,
    }
}

/// What the model is told that the user answered.
pub fn question_reply(end: QuestionEnd) -> (r: String)
    ensures
        r@ == answer_text(end),
{
    match end {
        QuestionEnd::Answered(text) => text,
        QuestionEnd::Dropped => "The user did not answer.".to_owned(),
        QuestionEnd::TimedOut => "The user did not answer in time.".to_owned(),
    }
}

/// What an approval prompt amounts to: no answer is a refusal.
pub open spec fn amounts_to(answer: Option<ApprovalOutcome>) -> ApprovalOutcome {
    match answer {
        Some(outcome) => outcome,
        None => ApprovalOutcome::Deny,
    }
}

/// What an approval prompt amounts to: no answer is a refusal.
pub fn approval_result(answer: Option<ApprovalOutcome>) -> (r: ApprovalOutcome)
    ensures
        r == amounts_to(answer),
{
    match answer {
        Some(outcome) => outcome,
        None => ApprovalOutcome::Deny,
    }
}

/// What a tap on a button is for.
#[derive(Debug)]
pub enum Tap {
    Approval(ApprovalDecision),
    Question(QuestionAnswer),
    /// Nothing that is known, or not from the owner.
    Ignored,
}

/// Routes a tap: only the owner's count, and approvals are tried before questions.
pub fn read_tap(user: u64, owner: u64, data: Option<&str>) -> (r: Tap)
    ensures
        match r {
            Tap::Approval(decision) => user == owner && data is Some && approval_of(data->0@)
                == Some((decision.nonce@, decision.outcome)),
            Tap::Question(answer) => user == owner && data is Some && approval_of(data->0@) is None
                && question_of(data->0@) == Some((answer.nonce@, answer.option_index as int)),
            Tap::Ignored => user != owner || data is None || (approval_of(data->0@) is None
                && question_of(data->0@) is None),
        },
        user != owner ==> r is Ignored,
{
    if user != owner {
        return Tap::Ignored;
    }
    match data {
        Some(data) => match parse_approval_callback(data) {
            Some(decision) => Tap::Approval(decision),
            None => match parse_question_callback(data) {
                Some(answer) => Tap::Question(answer),
                None => Tap::Ignored,
            },
        },
        None => Tap::Ignored,
    }
}

/// The owner is shown what would run, as it is or, where it is long, its start and a note that more
/// was cut.
pub proof fn law_the_owner_sees_what_would_run(action: Seq<char>)
    ensures
        contains(approval_text(action), shortened_action(action)),
        action.len() <= MAX_APPROVAL_PREVIEW_CHARS ==> shortened_action(action) == action,
        action.len() > MAX_APPROVAL_PREVIEW_CHARS ==> occurs_at(
            shortened_action(action),
            action.take(MAX_APPROVAL_PREVIEW_CHARS as int),
            0,
        ) && ends_in(shortened_action(action), "truncated"@),
{
    let foot = "\n\n\"Always allow\" skips this prompt for this tool for the rest of the conversation, until /new."@;
    lemma_one("Kumo wants to run this host action:\n\n"@, shortened_action(action), foot);
    lemma_in_turn_contains(approval_text(action), seq![shortened_action(action)], 0);
    if action.len() > MAX_APPROVAL_PREVIEW_CHARS {
        let kept = action.take(MAX_APPROVAL_PREVIEW_CHARS as int);
        lemma_starts(kept, "\n... approval preview truncated"@);
        reveal_strlit("\n... approval preview truncated");
        reveal_strlit("\n... approval preview ");
        reveal_strlit("truncated");
        assert("\n... approval preview truncated"@ =~= "\n... approval preview "@ + "truncated"@);
        lemma_ends_in(kept + "\n... approval preview "@, "truncated"@);
        assert(shortened_action(action) =~= kept + "\n... approval preview "@ + "truncated"@);
    }
}

/// The three buttons under a prompt do what is written on them, for that prompt.
pub proof fn law_labels_match_their_outcome(nonce: Seq<char>)
    ensures
        approval_choices(nonce).len() == 3,
        approval_choices(nonce)[0].label == "Allow once"@,
        approval_of(approval_choices(nonce)[0].data) == Some((nonce, ApprovalOutcome::AllowOnce)),
        approval_choices(nonce)[1].label == "Always allow"@,
        approval_of(approval_choices(nonce)[1].data) == Some((nonce, ApprovalOutcome::AlwaysAllow)),
        approval_choices(nonce)[2].label == "Deny"@,
        approval_of(approval_choices(nonce)[2].data) == Some((nonce, ApprovalOutcome::Deny)),
{
    law_approval_buttons_mean_what_they_say(nonce);
}

/// A prompt that nobody answers is a refusal, and an answer is taken as it was given.
pub proof fn law_silence_is_a_refusal(outcome: ApprovalOutcome)
    ensures
        amounts_to(None) == ApprovalOutcome::Deny,
        amounts_to(Some(outcome)) == outcome,
{
}

/// Each option has its button, with the option on it and the option's own number behind it.
pub proof fn law_each_option_has_its_button(nonce: Seq<char>, options: Seq<Seq<char>>, i: int)
    requires
        forall|k: int| 0 <= k < nonce.len() ==> nonce[k] != ':',
        0 <= i < options.len() <= usize::MAX,
    ensures
        option_buttons(nonce, options).len() == options.len(),
        option_buttons(nonce, options)[i].label == options[i],
        question_of(option_buttons(nonce, options)[i].data) == Some((nonce, i)),
{
    law_question_buttons_mean_what_they_say(nonce, i as nat);
}

/// A question is put as the model wrote it, with the first of its options in their order.
pub proof fn law_questions_are_put_as_written(
    value: JsonView,
    question: Seq<char>,
    options: Seq<Seq<char>>,
)
    requires
        value is Object,
        value.field("question"@) == Some(JsonView::Text(question)),
        value.field("options"@) == Some(JsonView::Array(written_texts(options))),
        trim(question).len() > 0,
    ensures
        question_arguments(Ok(value)) matches Ok((text, offered)) && {
            &&& text == question
            &&& options.len() <= 4 ==> offered == options
            &&& options.len() > 4 ==> offered == options.take(4)
        },
{
    lemma_all_texts(options);
}

/// Texts as they are written in a list.
pub open spec fn written_texts(options: Seq<Seq<char>>) -> Seq<JsonView> {
    Seq::new(options.len(), |i: int| JsonView::Text(options[i]))
}

proof fn lemma_all_texts(options: Seq<Seq<char>>)
    ensures
        all_texts(written_texts(options)) == Some(options),
    decreases options.len(),
{
    let items = written_texts(options);
    if options.len() == 0 {
        assert(options =~= seq![]);
    } else {
        lemma_all_texts(options.drop_last());
        assert(items.drop_last() =~= written_texts(options.drop_last()));
        assert(options.drop_last().push(options.last()) =~= options);
    }
}

/// The model gets the user's answer word for word, and is told apart from it that there was none, and
/// that there was none in time.
pub proof fn law_answers_reach_the_model(text: String)
    ensures
        answer_text(QuestionEnd::Answered(text)) == text@,
        answer_text(QuestionEnd::Dropped) != answer_text(QuestionEnd::TimedOut),
        answer_text(QuestionEnd::Dropped).len() > 0,
{
    reveal_strlit("The user did not answer.");
    reveal_strlit("The user did not answer in time.");
    assert("The user did not answer."@.len() == 24);
    assert("The user did not answer in time."@.len() == 32);
}

} // verus!
