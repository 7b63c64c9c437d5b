//! The arguments of tool calls. A tool's arguments are a JSON object of named values, or a JSON
//! array of the same values in order.
use vstd::prelude::*;
use vstd::string::*;

use crate::json::{
    complain, json_read, read, read_view, views, with_reason, Json, JsonView,
};
use crate::text::{
    law_signed_decimals_read_back, parse_i64, parse_int, signed_decimal, trim, trimmed,
};

verus! {

/// What a call whose arguments cannot be read is answered.
pub const INVALID: &'static str = "tool arguments were not valid JSON";

/// The argument called `key`, which is the `index`th of the `count` that a tool takes.
pub open spec fn argument(value: JsonView, key: Seq<char>, index: int, count: int) -> Option<JsonView> {
    match value {
        JsonView::Object(_) => value.field(key),
        JsonView::Array(items) => if index < items.len() <= count {
            Some(items[index])
        } else {
            None
        },
        _ => None,
    }
}

/// A text argument.
pub open spec fn text_argument(value: Result<JsonView, Seq<char>>, key: Seq<char>, index: int, count: int) -> Option<
    Seq<char>,
> {
    match value {
        Ok(value) => match argument(value, key, index, count) {
            Some(found) => found.as_text(),
            None => None,
        },
        Err(_) => None,
    }
}

pub fn find_argument<'a>(value: &'a Json, key: &str, index: usize, count: usize) -> (r: Option<
    &'a Json,
>)
    ensures
        match r {
            Some(found) => argument(value@, key@, index as int, count as int) == Some(found@),
            None => argument(value@, key@, index as int, count as int) is None,
        },
{
    match value {
        Json::Object(_) => value.field(key),
        Json::Array(items) => {
            assert(value@->Array_0 =~= views(items@));
            if index < items.len() && items.len() <= count {
                Some(&items[index])
            } else {
                None
            }
        },
        _ => None,
    }
}

pub fn find_text(value: &Result<Json, String>, key: &str, index: usize, count: usize) -> (r: Option<String>)
    ensures
        match r {
            Some(text) => text_argument(
                read_view(*value),
                key@,
                index as int,
                count as int,
            ) == Some(text@),
            None => text_argument(
                read_view(*value),
                key@,
                index as int,
                count as int,
            ) is None,
        },
{
    match value {
        Ok(json) => match find_argument(json, key, index, count) {
            Some(found) => match found.as_text() {
                Some(text) => Some(text.clone()),
                None => None,
            },
            None => None,
        },
        Err(_) => None,
    }
}

/// A sole text argument, trimmed; blank ones are refused with `blank`.
pub open spec fn required_text(value: Result<JsonView, Seq<char>>, key: Seq<char>, blank: Seq<char>) -> Result<
    Seq<char>,
    Seq<char>,
> {
    match text_argument(value, key, 0, 1) {
        None => Err(with_reason(INVALID@, value)),
        Some(text) => if trim(text).len() == 0 {
            Err(blank)
        } else {
            Ok(trim(text))
        },
    }
}

/// What the outcome of a tool is: its answer, or the error it ended with.
pub open spec fn outcome(r: Result<String, String>) -> Result<Seq<char>, Seq<char>> {
    match r {
        Ok(text) => Ok(text@),
        Err(text) => Err(text@),
    }
}

pub fn read_required_text(value: &Result<Json, String>, key: &str, blank: &str) -> (r: Result<
    String,
    String,
>)
    ensures
        outcome(r) == required_text(read_view(*value), key@, blank@),
{
    match find_text(value, key, 0, 1) {
        None => Err(complain(INVALID, value)),
        Some(text) => {
            let text = trimmed(text.as_str());
            if text.as_str().is_empty() {
                Err(blank.to_owned())
            } else {
                Ok(text)
            }
        },
    }
}

/// The arguments of a command.
#[derive(Debug)]
pub struct CommandArguments {
    pub command: String,
    /// Whether to run it in the background.
    pub background: bool,
}

/// Whether a command is to run in the background: only where the call says so, and not at all
/// where what it says is no truth value.
pub open spec fn background_flag(value: JsonView) -> Option<bool> {
    match argument(value, "background"@, 1, 2) {
        Some(JsonView::Bool(flag)) => Some(flag),
        Some(_) => None,
        None => Some(false),
    }
}

pub open spec fn command_arguments(value: Result<JsonView, Seq<char>>) -> Result<(Seq<char>, bool), Seq<char>> {
    match text_argument(value, "command"@, 0, 2) {
        None => Err(with_reason(INVALID@, value)),
        Some(command) => match background_flag(value->Ok_0) {
            None => Err(with_reason(INVALID@, value)),
            Some(flag) => if trim(command).len() == 0 {
                Err("run_command requires a non-empty 'command' argument"@)
            } else {
                Ok((trim(command), flag))
            },
        },
    }
}

/// The arguments of a command, read from the JSON value of the call's arguments.
pub fn read_command_arguments(value: &Result<Json, String>) -> (r: Result<CommandArguments, String>)
    ensures
        match r {
            Ok(arguments) => command_arguments(read_view(*value)) == Ok::<
                (Seq<char>, bool),
                Seq<char>,
            >((arguments.command@, arguments.background)),
            Err(message) => command_arguments(read_view(*value)) == Err::<
                (Seq<char>, bool),
                Seq<char>,
            >(message@),
        },
{
    let command = match find_text(value, "command", 0, 2) {
        Some(command) => command,
        None => {
            return Err(complain(INVALID, value));
        },
    };
    let background = match value {
        Ok(json) => match find_argument(json, "background", 1, 2) {
            Some(Json::Bool(flag)) => *flag,
            Some(_) => {
                return Err(complain(INVALID, value));
            },
            None => false,
        },
        Err(_) => false,
    };
    let command = trimmed(command.as_str());
    if command.as_str().is_empty() {
        return Err("run_command requires a non-empty 'command' argument".to_owned());
    }
    Ok(CommandArguments { command, background })
}

/// Reads the arguments of a command.
pub fn parse_command_arguments(arguments: &str) -> (r: Result<CommandArguments, String>)
    ensures
        match r {
            Ok(read) => command_arguments(json_read(arguments@)) == Ok::<
                (Seq<char>, bool),
                Seq<char>,
            >((read.command@, read.background)),
            Err(message) => command_arguments(json_read(arguments@)) == Err::<
                (Seq<char>, bool),
                Seq<char>,
            >(message@),
        },
{
    read_command_arguments(&read(arguments))
}

/// Reads the id of a background command.
pub fn parse_job_id(arguments: &str) -> (r: Result<String, String>)
    ensures
        outcome(r) == required_text(json_read(arguments@), "id"@, "job id cannot be empty"@),
{
    read_required_text(&read(arguments), "id", "job id cannot be empty")
}

/// Reads the task for the coding agent.
pub fn parse_task(arguments: &str) -> (r: Result<String, String>)
    ensures
        outcome(r) == required_text(
                json_read(arguments@),
                "task"@,
                "delegate_to_kamui requires a non-empty 'task' argument"@,
            ),
{
    read_required_text(
        &read(arguments),
        "task",
        "delegate_to_kamui requires a non-empty 'task' argument",
    )
}

/// The arguments of a reminder.
#[derive(Debug)]
pub struct ScheduleArguments {
    pub prompt: String,
    pub run_at: String,
    pub repeat_interval_seconds: Option<i64>,
}

/// The repeat interval of a reminder: none where the call gives none, and an error where what it
/// gives is no integer of 64 bits.
pub open spec fn interval_argument(value: JsonView) -> Result<Option<i64>, ()> {
    match argument(value, "repeat_interval_seconds"@, 2, 3) {
        None => Ok(None),
        Some(JsonView::Null) => Ok(None),
        Some(JsonView::Number(text)) => match parse_int(text) {
            Some(n) => if i64::MIN <= n <= i64::MAX {
                Ok(Some(n as i64))
            } else {
                Err(())
            },
            None => Err(()),
        },
        Some(_) => Err(()),
    }
}

/// The prompt, time and interval of a reminder, if the call gives them.
pub open spec fn schedule_arguments(value: Result<JsonView, Seq<char>>) -> Option<
    (Seq<char>, Seq<char>, Option<i64>),
> {
    match (text_argument(value, "prompt"@, 0, 3), text_argument(value, "run_at"@, 1, 3)) {
        (Some(prompt), Some(run_at)) => match interval_argument(value->Ok_0) {
            Ok(interval) => Some((prompt, run_at, interval)),
            Err(_) => None,
        },
        _ => None,
    }
}

pub fn read_schedule_arguments(value: &Result<Json, String>) -> (r: Option<ScheduleArguments>)
    ensures
        match r {
            Some(read) => schedule_arguments(read_view(*value)) == Some(
                (read.prompt@, read.run_at@, read.repeat_interval_seconds),
            ),
            None => schedule_arguments(read_view(*value)) is None,
        },
{
    let prompt = match find_text(value, "prompt", 0, 3) {
        Some(prompt) => prompt,
        None => {
            return None;
        },
    };
    let run_at = match find_text(value, "run_at", 1, 3) {
        Some(run_at) => run_at,
        None => {
            return None;
        },
    };
    let interval: Option<i64> = match value {
        Ok(json) => match find_argument(json, "repeat_interval_seconds", 2, 3) {
            None => None,
            Some(Json::Null) => None,
            Some(Json::Number(text)) => match parse_i64(text.as_str()) {
                Some(n) => Some(n),
                None => {
                    return None;
                },
            },
            Some(_) => {
                return None;
            },
        },
        Err(_) => None,
    };
    Some(ScheduleArguments { prompt, run_at, repeat_interval_seconds: interval })
}

/// A text argument is read under its key, without the blanks around it; one that is blank or missing is
/// refused.
pub proof fn law_text_arguments_are_read(
    value: JsonView,
    key: Seq<char>,
    text: Seq<char>,
    blank: Seq<char>,
    reason: Seq<char>,
)
    requires
        value is Object,
    ensures
        value.field(key) == Some(JsonView::Text(text)) && trim(text).len() > 0 ==> required_text(
            Ok(value),
            key,
            blank,
        ) == Ok::<Seq<char>, Seq<char>>(trim(text)),
        value.field(key) == Some(JsonView::Text(text)) && trim(text).len() == 0 ==> required_text(
            Ok(value),
            key,
            blank,
        ) == Err::<Seq<char>, Seq<char>>(blank),
        value.field(key) is None ==> required_text(Ok(value), key, blank) is Err,
        required_text(Err(reason), key, blank) is Err,
{
}

/// A reminder's arguments are read as they were given: what it says, when it runs, and the gap between
/// its runs where one is named.
pub proof fn law_reminder_arguments_are_read(
    value: JsonView,
    prompt: Seq<char>,
    run_at: Seq<char>,
    gap: i64,
)
    requires
        value is Object,
        value.field("prompt"@) == Some(JsonView::Text(prompt)),
        value.field("run_at"@) == Some(JsonView::Text(run_at)),
    ensures
        value.field("repeat_interval_seconds"@) is None || value.field("repeat_interval_seconds"@)
            == Some(JsonView::Null) ==> schedule_arguments(Ok(value)) == Some(
            (prompt, run_at, None::<i64>),
        ),
        value.field("repeat_interval_seconds"@) == Some(
            JsonView::Number(signed_decimal(gap as int)),
        ) ==> schedule_arguments(Ok(value)) == Some((prompt, run_at, Some(gap))),
{
    law_signed_decimals_read_back(gap as int);
}

} // verus!
