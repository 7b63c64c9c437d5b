//! What a provider's API replies: reading its JSON into the library's own types.
use vstd::prelude::*;
use vstd::string::*;

use crate::json::{
    complain, json_read, lemma_field_with, lemma_no_field, lemma_three_fields, lemma_two_fields,
    read, read_view, views, with_reason, Json, JsonView,
};
use crate::provider::{
    chat_response, error_text, law_calls_read_back_from_the_wire, wire_call, wire_calls, CallView,
    ChatResponse, Choice, ListedModel, ToolCall, Usage,
};
use crate::text::{
    decimal, ends_in, in_turn, law_decimals_read_back, lemma_ends_in, lemma_two, opt_view,
    parse_nat, parse_u64, seq_view,
};
use crate::tools::arguments::{argument, find_argument};

verus! {

/// What is said of a reply to a chat request that is none.
pub const INVALID_CHAT: &'static str = "provider returned an invalid chat response";

/// What is said of a reply to a listing request that is none.
pub const INVALID_MODELS: &'static str = "provider returned an invalid models response";

/// The error message that a reply in the API's error format holds.
pub open spec fn reported_error(value: Result<JsonView, Seq<char>>) -> Option<Seq<char>> {
    match value {
        Err(_) => None,
        Ok(value) => match argument(value, "error"@, 0, 1) {
            None => None,
            Some(error) => match argument(error, "message"@, 0, 1) {
                None => None,
                Some(message) => message.as_text(),
            },
        },
    }
}

/// The error message that a reply in the API's error format holds.
pub fn read_error(value: &Result<Json, String>) -> (r: Option<String>)
    ensures
        opt_view(r) == reported_error(read_view(*value)),
{
    match value {
        Err(_) => None,
        Ok(value) => match find_argument(value, "error", 0, 1) {
            None => None,
            Some(error) => match find_argument(error, "message", 0, 1) {
                None => None,
                Some(message) => match message.as_text() {
                    Some(text) => Some(text.clone()),
                    None => None,
                },
            },
        },
    }
}

/// What an unsuccessful reply says: the message it reports, or else its start.
pub fn error_message(body: &str) -> (r: String)
    ensures
        r@ == error_text(body@, reported_error(json_read(body@))),
{
    crate::provider::describe_error(body, read_error(&read(body)))
}

/// The error that an unsuccessful reply amounts to.
pub open spec fn rejection_text(
    status: Seq<char>,
    body: Seq<char>,
    reported: Option<Seq<char>>,
) -> Seq<char> {
    "provider returned "@ + status + ": "@ + error_text(body, reported)
}

/// The error that an unsuccessful reply amounts to.
pub fn rejection(status: &str, body: &str) -> (r: String)
    ensures
        r@ == rejection_text(status@, body@, reported_error(json_read(body@))),
{
    let mut r = "provider returned ".to_owned();
    r.push_str(status);
    r.push_str(": ");
    r.push_str(error_message(body).as_str());
    r
}

/// A number that counts something.
pub open spec fn count_value(value: JsonView) -> Option<u64> {
    match value {
        JsonView::Number(text) => match parse_nat(text) {
            Some(n) => if n <= u64::MAX {
                Some(n as u64)
            } else {
                None
            },
            None => None,
        },
        _ => None,
    }
}

fn read_count(value: &Json) -> (r: Option<u64>)
    ensures
        r == count_value(value@),
{
    match value {
        Json::Number(text) => parse_u64(text.as_str()),
        _ => None,
    }
}

/// A count that may be missing or null; an error where it is something else.
pub open spec fn optional_count(value: JsonView, key: Seq<char>, index: int, count: int) -> Result<
    Option<u64>,
    (),
> {
    match argument(value, key, index, count) {
        None => Ok(None),
        Some(JsonView::Null) => Ok(None),
        Some(found) => match count_value(found) {
            Some(n) => Ok(Some(n)),
            None => Err(()),
        },
    }
}

fn read_optional_count(value: &Json, key: &str, index: usize, count: usize) -> (r: Result<
    Option<u64>,
    (),
>)
    ensures
        r == optional_count(value@, key@, index as int, count as int),
{
    match find_argument(value, key, index, count) {
        None => Ok(None),
        Some(Json::Null) => Ok(None),
        Some(found) => match read_count(found) {
            Some(n) => Ok(Some(n)),
            None => Err(()),
        },
    }
}

/// A count that is nothing where it is missing; an error where it is not a count.
pub open spec fn defaulted_count(value: JsonView, key: Seq<char>, index: int) -> Option<u64> {
    match argument(value, key, index, 3) {
        None => Some(0),
        Some(found) => count_value(found),
    }
}

fn read_defaulted_count(value: &Json, key: &str, index: usize) -> (r: Option<u64>)
    ensures
        r == defaulted_count(value@, key@, index as int),
{
    match find_argument(value, key, index, 3) {
        None => Some(0),
        Some(found) => read_count(found),
    }
}

/// Whether a value can hold named or listed values, at most `count` of them where it lists them.
pub open spec fn is_record(value: JsonView, count: int) -> bool {
    match value {
        JsonView::Object(_) => true,
        JsonView::Array(items) => items.len() <= count,
        _ => false,
    }
}

fn holds_record(value: &Json, count: usize) -> (r: bool)
    ensures
        r == is_record(value@, count as int),
{
    match value {
        Json::Object(_) => true,
        Json::Array(items) => {
            assert(value@->Array_0.len() == items@.len());
            items.len() <= count
        },
        _ => false,
    }
}

/// What a model costs and holds, as the API lists it.
#[verifier::ext_equal]
pub struct ListedView {
    pub id: Seq<char>,
    pub context_window: Option<u64>,
    pub context_length: Option<u64>,
}

impl View for ListedModel {
    type V = ListedView;

    open spec fn view(&self) -> ListedView {
        ListedView {
            id: self.id@,
            context_window: self.context_window,
            context_length: self.context_length,
        }
    }
}

pub open spec fn listed_model(value: JsonView) -> Option<ListedView> {
    match argument(value, "id"@, 0, 3) {
        None => None,
        Some(id) => match (
            id.as_text(),
            optional_count(value, "context_window"@, 1, 3),
            optional_count(value, "context_length"@, 2, 3),
        ) {
            (Some(id), Ok(context_window), Ok(context_length)) => Some(
                ListedView { id, context_window, context_length },
            ),
            _ => None,
        },
    }
}

pub open spec fn listed_models(items: Seq<JsonView>) -> Option<Seq<ListedView>>
    decreases items.len(),
{
    if items.len() == 0 {
        Some(seq![])
    } else {
        match (listed_models(items.drop_last()), listed_model(items.last())) {
            (Some(rest), Some(model)) => Some(rest.push(model)),
            _ => None,
        }
    }
}

/// The models that a reply to a listing request holds, if it is one.
pub open spec fn models_reply(value: Result<JsonView, Seq<char>>) -> Option<Seq<ListedView>> {
    match value {
        Err(_) => None,
        Ok(value) => match argument(value, "data"@, 0, 1) {
            None => None,
            Some(data) => match data.as_items() {
                None => None,
                Some(items) => listed_models(items),
            },
        },
    }
}

proof fn lemma_no_models(items: Seq<JsonView>, n: int)
    requires
        0 <= n <= items.len(),
        listed_models(items.take(n)) is None,
    ensures
        listed_models(items) is None,
    decreases items.len() - n,
{
    if n < items.len() {
        assert(items.take(n + 1).drop_last() =~= items.take(n));
        lemma_no_models(items, n + 1);
    } else {
        assert(items.take(n) =~= items);
    }
}

fn read_model(value: &Json) -> (r: Option<ListedModel>)
    ensures
        opt_view(r) == listed_model(value@),
{
    let id = match find_argument(value, "id", 0, 3) {
        Some(id) => match id.as_text() {
            Some(id) => id.clone(),
            None => {
                return None;
            },
        },
        None => {
            return None;
        },
    };
    match (
        read_optional_count(value, "context_window", 1, 3),
        read_optional_count(value, "context_length", 2, 3),
    ) {
        (Ok(context_window), Ok(context_length)) => Some(
            ListedModel { id, context_window, context_length },
        ),
        _ => None,
    }
}

/// Reads the models that a reply to a listing request holds.
pub fn read_models_value(value: &Result<Json, String>) -> (r: Result<Vec<ListedModel>, String>)
    ensures
        match r {
            Ok(models) => models_reply(read_view(*value)) == Some(seq_view(models@)),
            Err(message) => models_reply(read_view(*value)) is None && message@ == with_reason(
                INVALID_MODELS@,
                read_view(*value),
            ),
        },
{
    let items = match value {
        Err(_) => {
            return Err(complain(INVALID_MODELS, value));
        },
        Ok(json) => match find_argument(json, "data", 0, 1) {
            None => {
                return Err(complain(INVALID_MODELS, value));
            },
            Some(data) => match data.as_items() {
                None => {
                    return Err(complain(INVALID_MODELS, value));
                },
                Some(items) => items,
            },
        },
    };
    let ghost all = views(items@);
    let mut models: Vec<ListedModel> = Vec::new();
    let mut i: usize = 0;
    assert(all.take(0) =~= seq![]);
    assert(seq_view(models@) =~= seq![]);
    while i < items.len()
        invariant
            i <= items@.len(),
            all == views(items@),
            models_reply(read_view(*value)) == listed_models(all),
            listed_models(all.take(i as int)) == Some(seq_view(models@)),
        decreases items@.len() - i,
    {
        assert(all.take(i + 1).drop_last() =~= all.take(i as int));
        assert(all.take(i + 1).last() == items@[i as int]@);
        match read_model(&items[i]) {
            Some(model) => {
                let ghost before = models@;
                let ghost view = model@;
                models.push(model);
                assert(seq_view(models@) =~= seq_view(before).push(view));
            },
            None => {
                proof {
                    lemma_no_models(all, i + 1);
                }
                return Err(complain(INVALID_MODELS, value));
            },
        }
        i = i + 1;
    }
    assert(all.take(i as int) =~= all);
    Ok(models)
}

/// Reads the models that a reply to a listing request holds.
pub fn read_models(body: &str) -> (r: Result<Vec<ListedModel>, String>)
    ensures
        match r {
            Ok(models) => models_reply(json_read(body@)) == Some(seq_view(models@)),
            Err(message) => models_reply(json_read(body@)) is None && message@ == with_reason(
                INVALID_MODELS@,
                json_read(body@),
            ),
        },
{
    read_models_value(&read(body))
}

/// One of the alternatives of a reply to a chat request.
#[verifier::ext_equal]
pub struct ChoiceView {
    pub content: Option<Seq<char>>,
    pub tool_calls: Seq<CallView>,
    pub finish_reason: Seq<char>,
}

impl View for Choice {
    type V = ChoiceView;

    open spec fn view(&self) -> ChoiceView {
        ChoiceView {
            content: opt_view(self.content),
            tool_calls: seq_view(self.tool_calls@),
            finish_reason: self.finish_reason@,
        }
    }
}

/// The text of the argument called `key`.
pub open spec fn text_of(value: JsonView, key: Seq<char>, index: int, count: int) -> Option<Seq<char>> {
    match argument(value, key, index, count) {
        Some(found) => found.as_text(),
        None => None,
    }
}

fn read_text(value: &Json, key: &str, index: usize, count: usize) -> (r: Option<String>)
    ensures
        opt_view(r) == text_of(value@, key@, index as int, count as int),
{
    match find_argument(value, key, index, count) {
        Some(found) => match found.as_text() {
            Some(text) => Some(text.clone()),
            None => None,
        },
        None => None,
    }
}

pub open spec fn called(value: JsonView) -> Option<CallView> {
    match (text_of(value, "id"@, 0, 2), argument(value, "function"@, 1, 2)) {
        (Some(id), Some(function)) => match (
            text_of(function, "name"@, 0, 2),
            text_of(function, "arguments"@, 1, 2),
        ) {
            (Some(name), Some(arguments)) => Some(CallView { id, name, arguments }),
            _ => None,
        },
        _ => None,
    }
}

pub open spec fn all_called(items: Seq<JsonView>) -> Option<Seq<CallView>>
    decreases items.len(),
{
    if items.len() == 0 {
        Some(seq![])
    } else {
        match (all_called(items.drop_last()), called(items.last())) {
            (Some(rest), Some(call)) => Some(rest.push(call)),
            _ => None,
        }
    }
}

/// The calls that a reply's message makes: none where it names none.
pub open spec fn message_calls(message: JsonView) -> Option<Seq<CallView>> {
    match argument(message, "tool_calls"@, 1, 2) {
        None => Some(seq![]),
        Some(found) => match found.as_items() {
            Some(items) => all_called(items),
            None => None,
        },
    }
}

/// The text of a reply's message: it may be missing or null, but nothing else that is no text.
pub open spec fn message_content(message: JsonView) -> Result<Option<Seq<char>>, ()> {
    match argument(message, "content"@, 0, 2) {
        None => Ok(None),
        Some(JsonView::Null) => Ok(None),
        Some(JsonView::Text(text)) => Ok(Some(text)),
        Some(_) => Err(()),
    }
}

/// Why a reply ends where it does: nothing where that is not said.
pub open spec fn ending(choice: JsonView) -> Option<Seq<char>> {
    match argument(choice, "finish_reason"@, 1, 2) {
        None => Some(seq![]),
        Some(found) => found.as_text(),
    }
}

pub open spec fn choice_of(value: JsonView) -> Option<ChoiceView> {
    match (argument(value, "message"@, 0, 2), ending(value)) {
        (Some(message), Some(finish_reason)) => if !is_record(message, 2) {
            None
        } else {
            match (message_content(message), message_calls(message)) {
                (Ok(content), Some(tool_calls)) => Some(
                    ChoiceView { content, tool_calls, finish_reason },
                ),
                _ => None,
            }
        },
        _ => None,
    }
}

pub open spec fn all_choices(items: Seq<JsonView>) -> Option<Seq<ChoiceView>>
    decreases items.len(),
{
    if items.len() == 0 {
        Some(seq![])
    } else {
        match (all_choices(items.drop_last()), choice_of(items.last())) {
            (Some(rest), Some(choice)) => Some(rest.push(choice)),
            _ => None,
        }
    }
}

/// What a reply says it cost: nothing where it does not say.
pub open spec fn usage_of(value: JsonView) -> Option<Usage> {
    match argument(value, "usage"@, 1, 2) {
        None => Some(Usage { prompt_tokens: 0, completion_tokens: 0, total_tokens: 0 }),
        Some(usage) => if !is_record(usage, 3) {
            None
        } else {
            match (
                defaulted_count(usage, "prompt_tokens"@, 0),
                defaulted_count(usage, "completion_tokens"@, 1),
                defaulted_count(usage, "total_tokens"@, 2),
            ) {
                (Some(prompt_tokens), Some(completion_tokens), Some(total_tokens)) => Some(
                    Usage { prompt_tokens, completion_tokens, total_tokens },
                ),
                _ => None,
            }
        },
    }
}

/// The alternatives and the cost that a reply to a chat request holds, if it is one.
pub open spec fn chat_reply(value: Result<JsonView, Seq<char>>) -> Option<(Seq<ChoiceView>, Usage)> {
    match value {
        Err(_) => None,
        Ok(value) => match (argument(value, "choices"@, 0, 2), usage_of(value)) {
            (Some(choices), Some(usage)) => match choices.as_items() {
                None => None,
                Some(items) => match all_choices(items) {
                    Some(choices) => Some((choices, usage)),
                    None => None,
                },
            },
            _ => None,
        },
    }
}

proof fn lemma_no_calls(items: Seq<JsonView>, n: int)
    requires
        0 <= n <= items.len(),
        all_called(items.take(n)) is None,
    ensures
        all_called(items) is None,
    decreases items.len() - n,
{
    if n < items.len() {
        assert(items.take(n + 1).drop_last() =~= items.take(n));
        lemma_no_calls(items, n + 1);
    } else {
        assert(items.take(n) =~= items);
    }
}

proof fn lemma_no_choices(items: Seq<JsonView>, n: int)
    requires
        0 <= n <= items.len(),
        all_choices(items.take(n)) is None,
    ensures
        all_choices(items) is None,
    decreases items.len() - n,
{
    if n < items.len() {
        assert(items.take(n + 1).drop_last() =~= items.take(n));
        lemma_no_choices(items, n + 1);
    } else {
        assert(items.take(n) =~= items);
    }
}

fn read_call(value: &Json) -> (r: Option<ToolCall>)
    ensures
        opt_view(r) == called(value@),
{
    match (read_text(value, "id", 0, 2), find_argument(value, "function", 1, 2)) {
        (Some(id), Some(function)) => match (
            read_text(function, "name", 0, 2),
            read_text(function, "arguments", 1, 2),
        ) {
            (Some(name), Some(arguments)) => Some(ToolCall { id, name, arguments }),
            _ => None,
        },
        _ => None,
    }
}

fn read_calls(message: &Json) -> (r: Option<Vec<ToolCall>>)
    ensures
        match r {
            Some(calls) => message_calls(message@) == Some(seq_view(calls@)),
            None => message_calls(message@) is None,
        },
{
    let mut calls: Vec<ToolCall> = Vec::new();
    assert(seq_view(calls@) =~= seq![]);
    let items = match find_argument(message, "tool_calls", 1, 2) {
        None => {
            return Some(calls);
        },
        Some(found) => match found.as_items() {
            Some(items) => items,
            None => {
                return None;
            },
        },
    };
    let ghost all = views(items@);
    let mut i: usize = 0;
    assert(all.take(0) =~= seq![]);
    while i < items.len()
        invariant
            i <= items@.len(),
            all == views(items@),
            message_calls(message@) == all_called(all),
            all_called(all.take(i as int)) == Some(seq_view(calls@)),
        decreases items@.len() - i,
    {
        assert(all.take(i + 1).drop_last() =~= all.take(i as int));
        assert(all.take(i + 1).last() == items@[i as int]@);
        match read_call(&items[i]) {
            Some(call) => {
                let ghost before = calls@;
                let ghost view = call@;
                calls.push(call);
                assert(seq_view(calls@) =~= seq_view(before).push(view));
            },
            None => {
                proof {
                    lemma_no_calls(all, i + 1);
                }
                return None;
            },
        }
        i = i + 1;
    }
    assert(all.take(i as int) =~= all);
    Some(calls)
}

fn read_choice(value: &Json) -> (r: Option<Choice>)
    ensures
        opt_view(r) == choice_of(value@),
{
    let message = match find_argument(value, "message", 0, 2) {
        Some(message) => message,
        None => {
            return None;
        },
    };
    let finish_reason = match find_argument(value, "finish_reason", 1, 2) {
        None => {
            let none = String::new();
            assert(none@ =~= seq![]);
            none
        },
        Some(found) => match found.as_text() {
            Some(text) => text.clone(),
            None => {
                return None;
            },
        },
    };
    if !holds_record(message, 2) {
        return None;
    }
    let content: Option<String> = match find_argument(message, "content", 0, 2) {
        None => None,
        Some(Json::Null) => None,
        Some(Json::Text(text)) => Some(text.clone()),
        Some(_) => {
            return None;
        },
    };
    match read_calls(message) {
        Some(tool_calls) => Some(Choice { content, tool_calls, finish_reason }),
        None => None,
    }
}

fn read_usage(value: &Json) -> (r: Option<Usage>)
    ensures
        r == usage_of(value@),
{
    match find_argument(value, "usage", 1, 2) {
        None => Some(Usage { prompt_tokens: 0, completion_tokens: 0, total_tokens: 0 }),
        Some(usage) => {
            if !holds_record(usage, 3) {
                return None;
            }
            match (
                read_defaulted_count(usage, "prompt_tokens", 0),
                read_defaulted_count(usage, "completion_tokens", 1),
                read_defaulted_count(usage, "total_tokens", 2),
            ) {
                (Some(prompt_tokens), Some(completion_tokens), Some(total_tokens)) => Some(
                    Usage { prompt_tokens, completion_tokens, total_tokens },
                ),
                _ => None,
            }
        },
    }
}

/// What a reply to a chat request amounts to: its last alternative, an absent text read as empty.
pub open spec fn reply_text(choices: Seq<ChoiceView>) -> Seq<char> {
    match choices.last().content {
        Some(text) => text,
        None => seq![],
    }
}

/// Whether an executed reply is what the value amounts to.
pub open spec fn is_reply(r: Result<ChatResponse, String>, value: Result<JsonView, Seq<char>>) -> bool {
    match chat_reply(value) {
        None => r is Err && r->Err_0@ == with_reason(INVALID_CHAT@, value),
        Some((choices, usage)) => if choices.len() == 0 {
            r is Err && r->Err_0@ == "provider returned no choices"@
        } else {
            &&& r is Ok
            &&& r->Ok_0.content@ == reply_text(choices)
            &&& seq_view(r->Ok_0.tool_calls@) == choices.last().tool_calls
            &&& r->Ok_0.finish_reason@ == choices.last().finish_reason
            &&& r->Ok_0.usage == usage
        },
    }
}

/// Reads a reply to a chat request.
pub fn read_chat_value(value: &Result<Json, String>) -> (r: Result<ChatResponse, String>)
    ensures
        is_reply(r, read_view(*value)),
{
    let json = match value {
        Ok(json) => json,
        Err(_) => {
            return Err(complain(INVALID_CHAT, value));
        },
    };
    let items = match find_argument(json, "choices", 0, 2) {
        Some(choices) => match choices.as_items() {
            Some(items) => items,
            None => {
                return Err(complain(INVALID_CHAT, value));
            },
        },
        None => {
            return Err(complain(INVALID_CHAT, value));
        },
    };
    let usage = match read_usage(json) {
        Some(usage) => usage,
        None => {
            return Err(complain(INVALID_CHAT, value));
        },
    };
    let ghost all = views(items@);
    let mut choices: Vec<Choice> = Vec::new();
    let mut i: usize = 0;
    assert(all.take(0) =~= seq![]);
    assert(seq_view(choices@) =~= seq![]);
    while i < items.len()
        invariant
            i <= items@.len(),
            all == views(items@),
            all_choices(all) is None ==> chat_reply(read_view(*value)) is None,
            all_choices(all.take(i as int)) == Some(seq_view(choices@)),
        decreases items@.len() - i,
    {
        assert(all.take(i + 1).drop_last() =~= all.take(i as int));
        assert(all.take(i + 1).last() == items@[i as int]@);
        match read_choice(&items[i]) {
            Some(choice) => {
                let ghost before = choices@;
                let ghost view = choice@;
                choices.push(choice);
                assert(seq_view(choices@) =~= seq_view(before).push(view));
            },
            None => {
                proof {
                    lemma_no_choices(all, i + 1);
                }
                return Err(complain(INVALID_CHAT, value));
            },
        }
        i = i + 1;
    }
    assert(all.take(i as int) =~= all);
    let ghost read = seq_view(choices@);
    assert(chat_reply(read_view(*value)) == Some((read, usage)));
    assert(read.len() == choices@.len());
    assert(choices@.len() > 0 ==> read.last() == choices@.last()@);
    chat_response(choices, usage)
}

/// Reads a reply to a chat request.
pub fn read_chat(body: &str) -> (r: Result<ChatResponse, String>)
    ensures
        is_reply(r, json_read(body@)),
{
    read_chat_value(&read(body))
}

/// A number that is written is read as that number.
pub proof fn law_counts_are_read(n: u64)
    ensures
        count_value(JsonView::Number(decimal(n as nat))) == Some(n),
{
    law_decimals_read_back(n as nat);
}

/// Calls that were written for a request are read back from a reply as they were, each with its id,
/// its name and its arguments, in their order.
pub proof fn law_calls_are_read_as_written(calls: Seq<CallView>)
    ensures
        wire_calls(calls) matches JsonView::Array(items) && all_called(items) == Some(calls),
    decreases calls.len(),
{
    if calls.len() == 0 {
        assert(Seq::<CallView>::empty() =~= calls);
    } else {
        let front = calls.drop_last();
        law_calls_are_read_as_written(front);
        let items = wire_calls(calls)->Array_0;
        assert(items.drop_last() =~= wire_calls(front)->Array_0);
        assert(items.last() == wire_call(calls.last()));
        law_calls_read_back_from_the_wire(calls.last());
        assert(called(wire_call(calls.last())) == Some(calls.last()));
        assert(front.push(calls.last()) =~= calls);
    }
}

/// A reply's alternative as a provider writes it.
pub open spec fn written_choice(
    content: Seq<char>,
    calls: Seq<CallView>,
    finish_reason: Seq<char>,
) -> JsonView {
    JsonView::object().with(
        "message"@,
        JsonView::object().with("content"@, JsonView::Text(content)).with(
            "tool_calls"@,
            wire_calls(calls),
        ),
    ).with("finish_reason"@, JsonView::Text(finish_reason))
}

/// A reply as a provider writes it.
pub open spec fn written_reply(choice: JsonView, usage: Usage) -> JsonView {
    JsonView::object().with("choices"@, JsonView::array().item(choice)).with(
        "usage"@,
        JsonView::object().with(
            "prompt_tokens"@,
            JsonView::Number(decimal(usage.prompt_tokens as nat)),
        ).with(
            "completion_tokens"@,
            JsonView::Number(decimal(usage.completion_tokens as nat)),
        ).with("total_tokens"@, JsonView::Number(decimal(usage.total_tokens as nat))),
    )
}

/// A reply is read as the provider wrote it: what the model said, what it called, how it ended and
/// what it cost, each kind of token on its own.
pub proof fn law_replies_are_read_as_written(
    content: Seq<char>,
    calls: Seq<CallView>,
    finish_reason: Seq<char>,
    usage: Usage,
    r: Result<ChatResponse, String>,
)
    requires
        is_reply(r, Ok(written_reply(written_choice(content, calls, finish_reason), usage))),
    ensures
        r matches Ok(response) && {
            &&& response.content@ == content
            &&& seq_view(response.tool_calls@) == calls
            &&& response.finish_reason@ == finish_reason
            &&& response.usage == usage
        },
{
    let choice = written_choice(content, calls, finish_reason);
    lemma_choice(content, calls, finish_reason);
    lemma_usage(choice, usage);
    let items = seq![choice];
    let none: Seq<JsonView> = seq![];
    assert(JsonView::array().item(choice)->Array_0 =~= items);
    assert(items.drop_last() =~= none);
    reveal_with_fuel(all_choices, 2);
    let read = ChoiceView { content: Some(content), tool_calls: calls, finish_reason };
    assert(all_choices(items) == Some(Seq::<ChoiceView>::empty().push(read)));
    assert(Seq::<ChoiceView>::empty().push(read).last() == read);
}

proof fn lemma_choice(content: Seq<char>, calls: Seq<CallView>, finish_reason: Seq<char>)
    ensures
        choice_of(written_choice(content, calls, finish_reason)) == Some(
            ChoiceView { content: Some(content), tool_calls: calls, finish_reason },
        ),
{
    reveal_strlit("message");
    reveal_strlit("finish_reason");
    reveal_strlit("content");
    reveal_strlit("tool_calls");
    assert("message"@.len() == 7 && "finish_reason"@.len() == 13 && "content"@.len() == 7
        && "tool_calls"@.len() == 10);
    let message = JsonView::object().with("content"@, JsonView::Text(content)).with(
        "tool_calls"@,
        wire_calls(calls),
    );
    lemma_two_fields(
        "content"@,
        JsonView::Text(content),
        "tool_calls"@,
        wire_calls(calls),
    );
    lemma_two_fields(
        "message"@,
        message,
        "finish_reason"@,
        JsonView::Text(finish_reason),
    );
    law_calls_are_read_as_written(calls);
}

proof fn lemma_usage(choice: JsonView, usage: Usage)
    ensures
        usage_of(written_reply(choice, usage)) == Some(usage),
        written_reply(choice, usage).field("choices"@) == Some(JsonView::array().item(choice)),
        written_reply(choice, usage) is Object,
{
    reveal_strlit("choices");
    reveal_strlit("usage");
    reveal_strlit("prompt_tokens");
    reveal_strlit("completion_tokens");
    reveal_strlit("total_tokens");
    assert("choices"@.len() == 7 && "usage"@.len() == 5 && "prompt_tokens"@.len() == 13
        && "completion_tokens"@.len() == 17 && "total_tokens"@.len() == 12);
    let prompt = JsonView::Number(decimal(usage.prompt_tokens as nat));
    let completion = JsonView::Number(decimal(usage.completion_tokens as nat));
    let total = JsonView::Number(decimal(usage.total_tokens as nat));
    lemma_three_fields(
        "prompt_tokens"@,
        prompt,
        "completion_tokens"@,
        completion,
        "total_tokens"@,
        total,
    );
    law_counts_are_read(usage.prompt_tokens);
    law_counts_are_read(usage.completion_tokens);
    law_counts_are_read(usage.total_tokens);
    lemma_two_fields(
        "choices"@,
        JsonView::array().item(choice),
        "usage"@,
        JsonView::object().with("prompt_tokens"@, prompt).with("completion_tokens"@, completion).with(
            "total_tokens"@,
            total,
        ),
    );
}

/// What a provider reports of an error is read from its error format, word for word.
pub proof fn law_reported_errors_are_read(message: Seq<char>)
    ensures
        reported_error(
            Ok(
                JsonView::object().with(
                    "error"@,
                    JsonView::object().with("message"@, JsonView::Text(message)),
                ),
            ),
        ) == Some(message),
{
    let inner = JsonView::object().with("message"@, JsonView::Text(message));
    lemma_no_field("message"@);
    lemma_no_field("error"@);
    lemma_field_with(JsonView::object(), "message"@, JsonView::Text(message), "message"@);
    lemma_field_with(JsonView::object(), "error"@, inner, "error"@);
}

/// A refused request is told with its status and with what the provider said.
pub proof fn law_refusals_are_told_with_their_status(
    status: Seq<char>,
    body: Seq<char>,
    reported: Option<Seq<char>>,
)
    ensures
        in_turn(rejection_text(status, body, reported), seq![status, error_text(body, reported)]),
        ends_in(rejection_text(status, body, reported), error_text(body, reported)),
{
    let empty: Seq<char> = seq![];
    let said = error_text(body, reported);
    lemma_two("provider returned "@, status, ": "@, said, empty);
    assert(rejection_text(status, body, reported) =~= "provider returned "@ + status + ": "@ + said
        + empty);
    lemma_ends_in("provider returned "@ + status + ": "@, said);
}

/// A listed model is read with its id and both sizes that it may report; one without an id is not.
pub proof fn law_listed_models_are_read(id: Seq<char>, window: u64, length: u64)
    ensures
        listed_model(
            JsonView::object().with("id"@, JsonView::Text(id)).with(
                "context_window"@,
                JsonView::Number(decimal(window as nat)),
            ).with("context_length"@, JsonView::Number(decimal(length as nat))),
        ) == Some(
            ListedView { id, context_window: Some(window), context_length: Some(length) },
        ),
        listed_model(JsonView::object()) is None,
{
    reveal_strlit("id");
    reveal_strlit("context_window");
    reveal_strlit("context_length");
    assert("id"@.len() == 2 && "context_window"@.len() == 14 && "context_length"@.len() == 14);
    assert("context_window"@[8] == 'w' && "context_length"@[8] == 'l');
    law_counts_are_read(window);
    law_counts_are_read(length);
    lemma_three_fields(
        "id"@,
        JsonView::Text(id),
        "context_window"@,
        JsonView::Number(decimal(window as nat)),
        "context_length"@,
        JsonView::Number(decimal(length as nat)),
    );
    lemma_no_field("id"@);
}

/// A listing is read item by item, in order, and not at all where one of its items cannot be.
pub proof fn law_listings_are_read_item_by_item(items: Seq<JsonView>, item: JsonView)
    ensures
        listed_models(Seq::empty()) == Some(Seq::<ListedView>::empty()),
        listed_models(items) is Some && listed_model(item) is Some ==> listed_models(
            items.push(item),
        ) == Some(listed_models(items)->0.push(listed_model(item)->0)),
        listed_models(items) is None || listed_model(item) is None ==> listed_models(
            items.push(item),
        ) is None,
{
    assert(items.push(item).drop_last() =~= items);
}

/// What a provider leaves out counts as nothing: no text, no calls, no reason and no cost.
pub proof fn law_omissions_count_as_nothing(value: JsonView, message: JsonView)
    requires
        value is Object,
        message is Object,
        value.field("message"@) == Some(message),
        value.field("finish_reason"@) is None,
        message.field("tool_calls"@) is None,
        message.field("content"@) is None || message.field("content"@) == Some(JsonView::Null),
    ensures
        choice_of(value) matches Some(choice) && {
            &&& choice.content is None
            &&& choice.tool_calls.len() == 0
            &&& choice.finish_reason.len() == 0
            &&& reply_text(seq![choice]).len() == 0
        },
        value.field("usage"@) is None ==> (usage_of(value) matches Some(usage)
            && usage.prompt_tokens == 0 && usage.completion_tokens == 0 && usage.total_tokens == 0),
{
}

/// Of several alternatives the last one counts; without any there is no reply.
pub proof fn law_the_last_alternative_counts(
    choices: Seq<ChoiceView>,
    text: Seq<char>,
    calls: Seq<CallView>,
    finish_reason: Seq<char>,
)
    ensures
        reply_text(
            choices.push(
                ChoiceView { content: Some(text), tool_calls: calls, finish_reason },
            ),
        ) == text,
{
}

/// A listing is what stands under the key for it, item by item.
pub proof fn law_listings_stand_under_their_key(items: Seq<JsonView>, reason: Seq<char>)
    ensures
        models_reply(Ok(JsonView::object().with("data"@, JsonView::Array(items)))) == listed_models(
            items,
        ),
        models_reply(Ok(JsonView::object())) is None,
        models_reply(Err(reason)) is None,
{
    lemma_no_field("data"@);
    lemma_field_with(JsonView::object(), "data"@, JsonView::Array(items), "data"@);
}

} // verus!
