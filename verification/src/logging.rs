//! Log lines: one per event, whatever the event's text holds.
use vstd::prelude::*;
use vstd::string::*;

use crate::text::{
    contains, ends_in, in_turn, law_replacing_spares_the_rest, lemma_ends_in, lemma_three, occurs_at,
    replace_all, replaced,
};

verus! {

/// A log line. Line breaks in the message are replaced, so that one event stays on one line.
pub open spec fn log_line(
    timestamp: Seq<char>,
    level: Seq<char>,
    component: Seq<char>,
    message: Seq<char>,
) -> Seq<char> {
    "["@ + timestamp + "] ["@ + level + "] ["@ + component + "] "@ + replace_all(
        message,
        "\n"@,
        " | "@,
    )
}

fn line(timestamp: &str, level: &str, component: &str, message: &str) -> (r: String)
    ensures
        r@ == log_line(timestamp@, level@, component@, message@),
{
    proof {
        reveal_strlit("\n");
    }
    let mut r = "[".to_owned();
    r.push_str(timestamp);
    r.push_str("] [");
    r.push_str(level);
    r.push_str("] [");
    r.push_str(component);
    r.push_str("] ");
    r.push_str(replaced(message, "\n", " | ").as_str());
    r
}

/// The line for something worth knowing.
pub fn info(timestamp: &str, component: &str, message: &str) -> (r: String)
    ensures
        r@ == log_line(timestamp@, "INFO"@, component@, message@),
{
    line(timestamp, "INFO", component, message)
}

/// The line for something to look into.
pub fn warn(timestamp: &str, component: &str, message: &str) -> (r: String)
    ensures
        r@ == log_line(timestamp@, "WARN"@, component@, message@),
{
    line(timestamp, "WARN", component, message)
}

/// The line for something that failed, with its cause.
pub fn error(timestamp: &str, component: &str, context: &str, cause: &str) -> (r: String)
    ensures
        r@ == log_line(timestamp@, "ERROR"@, component@, context@ + " | cause="@ + cause@),
{
    let mut message = context.to_owned();
    message.push_str(" | cause=");
    message.push_str(cause);
    line(timestamp, "ERROR", component, message.as_str())
}

pub open spec fn single_line(s: Seq<char>) -> bool {
    forall|k: int| 0 <= k < s.len() ==> s[k] != '\n'
}

proof fn lemma_no_breaks(s: Seq<char>)
    ensures
        single_line(replace_all(s, "\n"@, " | "@)),
    decreases s.len(),
{
    reveal_strlit("\n");
    reveal_strlit(" | ");
    let part = "\n"@;
    if s.len() >= 1 {
        assert(s.subrange(0, 1) =~= seq![s[0]]);
        assert(part =~= seq!['\n']);
        if occurs_at(s, part, 0) {
            lemma_no_breaks(s.skip(1));
        } else {
            lemma_no_breaks(s.skip(1));
            assert(s[0] != '\n');
        }
    }
}

/// Every event stays on one line, whatever its message holds.
pub proof fn law_one_line_per_event(
    timestamp: Seq<char>,
    level: Seq<char>,
    component: Seq<char>,
    message: Seq<char>,
)
    requires
        single_line(timestamp),
        single_line(level),
        single_line(component),
    ensures
        single_line(log_line(timestamp, level, component, message)),
{
    reveal_strlit("[");
    reveal_strlit("] [");
    reveal_strlit("] ");
    lemma_no_breaks(message);
}

/// An event is logged with its time, its level and where it happened, in this order, and then its
/// message, word for word where it has no line breaks.
pub proof fn law_events_are_logged_in_full(
    timestamp: Seq<char>,
    level: Seq<char>,
    component: Seq<char>,
    message: Seq<char>,
)
    ensures
        in_turn(
            log_line(timestamp, level, component, message),
            seq![timestamp, level, component],
        ),
        !contains(message, "\n"@) ==> ends_in(
            log_line(timestamp, level, component, message),
            message,
        ),
{
    let written = replace_all(message, "\n"@, " | "@);
    let line = log_line(timestamp, level, component, message);
    lemma_three("["@, timestamp, "] ["@, level, "] ["@, component, "] "@ + written);
    assert(line =~= "["@ + timestamp + "] ["@ + level + "] ["@ + component + ("] "@ + written));
    if !contains(message, "\n"@) {
        reveal_strlit("\n");
        law_replacing_spares_the_rest(message, "\n"@, " | "@);
        lemma_ends_in("["@ + timestamp + "] ["@ + level + "] ["@ + component + "] "@, message);
    }
}

} // verus!
