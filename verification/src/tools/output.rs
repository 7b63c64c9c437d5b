//! What is reported of commands and of memory lookups.
use vstd::prelude::*;
use vstd::string::*;
use vstd::utf8::{decode_utf8, encode_scalar, encode_utf8, valid_utf8};

use crate::storage::jobs::JobView;
use crate::storage::CommandJob;
use crate::text::{
    blanks_around, byte_len, contains, decimal, decimal_i64, decimal_u64, decimal_usize, ends_in, in_turn, join,
    joined, law_signed_decimals_read_back, law_trimming_takes_blanks_only, lemma_contains_trans,
    lemma_ends_in, lemma_four, lemma_in_turn_contains, lemma_in_turn_within, lemma_join_in_turn,
    lemma_one, lemma_starts, lemma_three, lemma_trim_keeps, lemma_two, lemma_utf8_len_add, lines, occurs_at, parse_int, signed_decimal, slice, split_lines, starts_with, texts, to_chars,
    trim, trim_end, trim_start, trimmed, trimmed_end, utf8_len, white_space,
};

verus! {

/// The most bytes of output that are reported of a command.
pub const MAX_COMMAND_OUTPUT: usize = 16384;

/// How many of the facts that a substring matched are listed.
pub const MAX_AMBIGUOUS_MEMORY_ENTRIES: usize = 5;

/// How much of each of them is shown.
pub const MAX_AMBIGUOUS_FACT_CHARS: usize = 120;

/// What a finished process left behind.
#[derive(Debug)]
pub struct ProcessOutput {
    /// The exit code; none if a signal ended the process.
    pub code: Option<i32>,
    pub stdout: Vec<u8>,
    pub stderr: Vec<u8>,
}

/// Bytes as text, with replacement characters for what is not UTF-8.
pub uninterp spec fn lossy(bytes: Seq<u8>) -> Seq<char>;

/// `String::from_utf8_lossy`: bytes as text, every invalid sequence replaced by U+FFFD. Valid UTF-8
/// is decoded as it stands; where the replacement characters go is only given a name.
#[verifier::external_body]
pub(crate) fn lossy_text(bytes: &Vec<u8>) -> (r: String)
    ensures
        r@ == lossy(bytes@),
        valid_utf8(bytes@) ==> r@ == decode_utf8(bytes@),
{
    String::from_utf8_lossy(bytes).into_owned()
}

/// How many bytes a character takes in UTF-8.
pub open spec fn char_bytes(c: char) -> int {
    if c as u32 <= 0x7F {
        1
    } else if c as u32 <= 0x7FF {
        2
    } else if c as u32 <= 0xFFFF {
        3
    } else {
        4
    }
}

/// How many leading characters of `s` fit into `limit` bytes.
pub open spec fn chars_within(s: Seq<char>, limit: int) -> nat
    decreases s.len(),
{
    if s.len() == 0 || char_bytes(s[0]) > limit {
        0
    } else {
        1 + chars_within(s.skip(1), limit - char_bytes(s[0]))
    }
}

/// A text cut to `limit` bytes at a character boundary, with a note where something was cut.
pub open spec fn truncated(s: Seq<char>, limit: int) -> Seq<char> {
    if utf8_len(s) <= limit {
        s
    } else {
        s.take(chars_within(s, limit) as int) + "\n... output truncated"@
    }
}

proof fn lemma_char_bytes(s: Seq<char>)
    ensures
        s.len() > 0 ==> utf8_len(s) == char_bytes(s[0]) + utf8_len(s.skip(1)),
        s.len() == 0 ==> utf8_len(s) == 0,
{
    if s.len() > 0 {
        vstd::utf8::char_is_scalar(s[0]);
        assert(s.skip(1) =~= s.drop_first());
        assert(encode_utf8(s) == encode_scalar(s[0] as u32) + encode_utf8(s.drop_first()));
        assert(encode_scalar(s[0] as u32).len() == char_bytes(s[0]));
    }
}

/// What is kept of a cut text fits the limit, and the next character would not have.
pub proof fn law_truncation_keeps_as_much_as_fits(s: Seq<char>, limit: int)
    requires
        0 <= limit,
    ensures
        chars_within(s, limit) <= s.len(),
        utf8_len(s.take(chars_within(s, limit) as int)) <= limit,
        chars_within(s, limit) < s.len() ==> utf8_len(
            s.take(chars_within(s, limit) as int + 1),
        ) > limit,
    decreases s.len(),
{
    let n = chars_within(s, limit) as int;
    if s.len() == 0 {
        assert(s.take(0) =~= seq![]);
        lemma_char_bytes(s.take(0));
    } else if char_bytes(s[0]) > limit {
        lemma_char_bytes(s.take(0));
        lemma_char_bytes(s.take(1));
    } else {
        let rest = s.skip(1);
        law_truncation_keeps_as_much_as_fits(rest, limit - char_bytes(s[0]));
        lemma_char_bytes(s.take(n));
        assert(s.take(n).skip(1) =~= rest.take(n - 1));
        if n < s.len() {
            lemma_char_bytes(s.take(n + 1));
            assert(s.take(n + 1).skip(1) =~= rest.take(n));
        }
    }
}

/// How many leading characters fit into `limit` bytes.
fn count_within(chars: &Vec<char>, limit: usize) -> (n: usize)
    ensures
        n <= chars@.len(),
        n == chars_within(chars@, limit as int),
{
    let mut left: usize = limit;
    let mut n: usize = 0;
    assert(chars@.skip(0) =~= chars@);
    loop
        invariant
            n <= chars@.len(),
            chars_within(chars@, limit as int) == n + chars_within(
                chars@.skip(n as int),
                left as int,
            ),
        ensures
            n <= chars@.len(),
            chars_within(chars@, limit as int) == n,
        decreases chars@.len() - n,
    {
        if n == chars.len() {
            break ;
        }
        let code = chars[n] as u32;
        let width: usize = if code <= 0x7F {
            1
        } else if code <= 0x7FF {
            2
        } else if code <= 0xFFFF {
            3
        } else {
            4
        };
        if width > left {
            break ;
        }
        assert(chars@.skip(n as int).skip(1) =~= chars@.skip(n + 1));
        left = left - width;
        n = n + 1;
    }
    n
}

/// Cuts a text to `limit` bytes at a character boundary.
pub fn truncate_utf8(value: String, limit: usize) -> (r: String)
    ensures
        r@ == truncated(value@, limit as int),
{
    if byte_len(value.as_str()) <= limit {
        return value;
    }
    let chars = to_chars(value.as_str());
    let n = count_within(&chars, limit);
    let mut r = slice(&chars, 0, n);
    assert(r@ =~= value@.take(n as int));
    r.push_str("\n... output truncated");
    r
}

pub open spec fn exit_text(code: Option<i32>) -> Seq<char> {
    match code {
        Some(code) => signed_decimal(code as int),
        None => "terminated by signal"@,
    }
}

/// A process's output streams, each under its name, empty ones left out.
pub open spec fn streams(stdout: Seq<u8>, stderr: Seq<u8>) -> Seq<char> {
    (if stdout.len() > 0 {
        "\nstdout:\n"@ + lossy(stdout)
    } else {
        seq![]
    }) + (if stderr.len() > 0 {
        "\nstderr:\n"@ + lossy(stderr)
    } else {
        seq![]
    })
}

fn push_streams(r: &mut String, output: &ProcessOutput)
    ensures
        final(r)@ == old(r)@ + streams(output.stdout@, output.stderr@),
{
    if output.stdout.len() > 0 {
        r.push_str("\nstdout:\n");
        r.push_str(lossy_text(&output.stdout).as_str());
    }
    if output.stderr.len() > 0 {
        r.push_str("\nstderr:\n");
        r.push_str(lossy_text(&output.stderr).as_str());
    }
    assert(r@ =~= old(r)@ + streams(output.stdout@, output.stderr@));
}

/// What is told of a command that ended, in full.
pub open spec fn finished_text(code: Option<i32>, stdout: Seq<u8>, stderr: Seq<u8>) -> Seq<char> {
    "exit code: "@ + exit_text(code) + streams(stdout, stderr)
}

/// What is told of a command that ended.
pub open spec fn command_text(code: Option<i32>, stdout: Seq<u8>, stderr: Seq<u8>) -> Seq<char> {
    truncated(finished_text(code, stdout, stderr), MAX_COMMAND_OUTPUT as int)
}

/// What is reported of a finished command.
pub fn format_command_output(output: &ProcessOutput) -> (r: String)
    ensures
        r@ == command_text(output.code, output.stdout@, output.stderr@),
{
    let mut r = "exit code: ".to_owned();
    match output.code {
        Some(code) => {
            r.push_str(decimal_i64(code as i64).as_str());
        },
        None => {
            r.push_str("terminated by signal");
        },
    }
    push_streams(&mut r, output);
    truncate_utf8(r, MAX_COMMAND_OUTPUT)
}

/// What a command that ran too long in the background records as its result.
pub open spec fn timeout_text(
    limit: u64,
    killed: Option<bool>,
    drained: Option<ProcessOutput>,
) -> Seq<char> {
    "Error: background job exceeded the "@ + decimal(limit as nat)
        + "-second limit and was terminated"@ + (if killed == Some(false) {
        "\nwarning: its process tree was still alive after the kill; check the host by hand"@
    } else {
        seq![]
    }) + (match drained {
        Some(output) => streams(output.stdout@, output.stderr@),
        None => seq![],
    })
}

/// What a job that hit the ceiling on background commands records as its result.
///
/// `killed` is the verified answer of killing its process tree: `None` means the tree was already
/// gone, `Some(true)` that it was confirmed gone afterwards, and `Some(false)` that something was
/// still alive when the confirmation gave up — which the owner has to be told.
pub fn format_background_timeout(
    limit: u64,
    killed: Option<bool>,
    drained: Option<ProcessOutput>,
) -> (r: String)
    ensures
        r@ == truncated(timeout_text(limit, killed, drained), MAX_COMMAND_OUTPUT as int),
{
    let mut r = "Error: background job exceeded the ".to_owned();
    r.push_str(decimal_u64(limit).as_str());
    r.push_str("-second limit and was terminated");
    if let Some(false) = killed {
        r.push_str(
            "\nwarning: its process tree was still alive after the kill; check the host by hand",
        );
    }
    if let Some(output) = &drained {
        push_streams(&mut r, output);
    }
    assert(r@ =~= timeout_text(limit, killed, drained));
    truncate_utf8(r, MAX_COMMAND_OUTPUT)
}

/// Whether a line of the coding agent's output announces a tool call.
pub open spec fn is_call_line(line: Seq<char>) -> bool {
    occurs_at(line, "  \u{2192} "@, 0)
}

/// Whether a line of the coding agent's output belongs to the trace of its tool calls.
pub open spec fn is_trace_line(line: Seq<char>) -> bool {
    is_call_line(line) || occurs_at(line, "    ok ("@, 0) || occurs_at(line, "    ! "@, 0)
}

/// Whether a line of the coding agent's output reports an error.
pub open spec fn is_error_line(line: Seq<char>) -> bool {
    let text = trim_start(line);
    text.len() > 0 && text[0] == '!'
}

/// Where the answer starts: behind the last line of the trace.
pub open spec fn answer_start(lines: Seq<Seq<char>>, n: int) -> int
    decreases n,
{
    if n <= 0 {
        0
    } else if is_trace_line(lines[n - 1]) {
        n
    } else {
        answer_start(lines, n - 1)
    }
}

pub open spec fn count_lines(lines: Seq<Seq<char>>, counts: spec_fn(Seq<char>) -> bool) -> nat
    decreases lines.len(),
{
    if lines.len() == 0 {
        0
    } else {
        count_lines(lines.drop_last(), counts) + if counts(lines.last()) {
            1nat
        } else {
            0
        }
    }
}

/// The coding agent's final answer.
pub open spec fn answer_of(lines: Seq<Seq<char>>) -> Seq<char> {
    let rest = lines.skip(answer_start(lines, lines.len() as int));
    trim(join(ends_trimmed(rest), "\n"@))
}

/// Lines without the blanks at their ends.
pub open spec fn ends_trimmed(lines: Seq<Seq<char>>) -> Seq<Seq<char>> {
    lines.map_values(|line: Seq<char>| trim_end(line))
}

/// What happened, in a line above the answer.
pub open spec fn run_summary(code: Option<i32>, calls: nat, errors: nat) -> Seq<char> {
    match code {
        Some(code) => if code == 0 {
            if calls == 0 {
                seq![]
            } else {
                "("@ + decimal(calls) + " tool call(s), "@ + decimal(errors) + " error(s))\n"@
            }
        } else {
            "(kamui exited with code "@ + signed_decimal(code as int) + ", "@ + decimal(calls)
                + " tool call(s))\n"@
        },
        None => "(kamui was terminated by a signal)\n"@,
    }
}

/// What is said instead of an answer.
pub open spec fn no_answer(stderr: Seq<char>) -> Seq<char> {
    "Error: kamui produced no answer."@ + if trim(stderr).len() > 0 {
        "\nstderr:\n"@ + trim(stderr)
    } else {
        seq![]
    }
}

/// The readable form of what the coding agent printed.
pub open spec fn coding_summary(code: Option<i32>, stdout: Seq<char>, stderr: Seq<char>) -> Seq<
    char,
> {
    let all = lines(stdout);
    let answer = answer_of(all);
    run_summary(
        code,
        count_lines(all, |line: Seq<char>| is_call_line(line)),
        count_lines(all, |line: Seq<char>| is_error_line(line)),
    ) + if answer.len() == 0 {
        no_answer(stderr)
    } else {
        answer
    }
}

fn call_line(line: &str) -> (r: bool)
    ensures
        r == is_call_line(line@),
{
    starts_with(line, "  \u{2192} ")
}

fn trace_line(line: &str) -> (r: bool)
    ensures
        r == is_trace_line(line@),
{
    call_line(line) || starts_with(line, "    ok (") || starts_with(line, "    ! ")
}

fn error_line(line: &str) -> (r: bool)
    ensures
        r == is_error_line(line@),
{
    let chars = to_chars(line);
    let mut i: usize = 0;
    assert(line@.skip(0) =~= line@);
    while i < chars.len() && chars[i].is_whitespace()
        invariant
            chars@ == line@,
            i <= chars@.len(),
            trim_start(line@) == trim_start(line@.skip(i as int)),
        decreases chars@.len() - i,
    {
        assert(line@.skip(i as int).drop_first() =~= line@.skip(i + 1));
        i = i + 1;
    }
    assert(trim_start(line@) == line@.skip(i as int));
    i < chars.len() && chars[i] == '!'
}

/// Turns the coding agent's raw output into something readable in Telegram: a one-line summary of
/// what happened (tool calls made, any errors) followed by its actual final answer. Its own trace
/// lines (`  → tool(...)`, `    ok (N chars)`, `    ! error`) are counted rather than shown
/// verbatim; the final answer is the text after the last such trace line.
pub fn summarize_kamui_output(output: &ProcessOutput) -> (r: String)
    ensures
        r@ == truncated(
            coding_summary(output.code, lossy(output.stdout@), lossy(output.stderr@)),
            MAX_COMMAND_OUTPUT as int,
        ),
{
    let stdout = lossy_text(&output.stdout);
    let all = split_lines(stdout.as_str());
    let ghost seen = texts(all@);
    let ghost is_call = |line: Seq<char>| is_call_line(line);
    let ghost is_error = |line: Seq<char>| is_error_line(line);
    let mut calls: usize = 0;
    let mut errors: usize = 0;
    let mut start: usize = 0;
    let mut i: usize = 0;
    assert(seen.take(0) =~= seq![]);
    while i < all.len()
        invariant
            i <= all@.len(),
            seen == texts(all@),
            is_call == (|line: Seq<char>| is_call_line(line)),
            is_error == (|line: Seq<char>| is_error_line(line)),
            calls <= i,
            errors <= i,
            start <= i,
            calls == count_lines(seen.take(i as int), is_call),
            errors == count_lines(seen.take(i as int), is_error),
            start == answer_start(seen, i as int),
        decreases all@.len() - i,
    {
        assert(seen.take(i + 1).drop_last() =~= seen.take(i as int));
        assert(seen.take(i + 1).last() == all@[i as int]@);
        let line = all[i].as_str();
        if call_line(line) {
            calls = calls + 1;
        }
        if error_line(line) {
            errors = errors + 1;
        }
        i = i + 1;
        if trace_line(line) {
            start = i;
        }
    }
    assert(seen.take(i as int) =~= seen);
    let ghost rest = seen.skip(start as int);
    let ghost strip = |line: Seq<char>| trim_end(line);
    let mut answer_lines: Vec<String> = Vec::new();
    let mut j: usize = start;
    while j < all.len()
        invariant
            start <= j <= all@.len(),
            seen == texts(all@),
            answer_lines@.len() == j - start,
            forall|k: int|
                0 <= k < j - start ==> (#[trigger] answer_lines@[k])@ == trim_end(seen[start + k]),
        decreases all@.len() - j,
    {
        answer_lines.push(trimmed_end(all[j].as_str()));
        j = j + 1;
    }
    assert(texts(answer_lines@) =~= rest.map_values(strip));
    let answer = trimmed(joined(&answer_lines, "\n").as_str());
    assert(answer@ == answer_of(seen));
    let mut summary = match output.code {
        Some(code) => {
            let mut text = String::new();
            if code == 0 {
                if calls > 0 {
                    text.push_str("(");
                    text.push_str(decimal_usize(calls).as_str());
                    text.push_str(" tool call(s), ");
                    text.push_str(decimal_usize(errors).as_str());
                    text.push_str(" error(s))\n");
                }
            } else {
                text.push_str("(kamui exited with code ");
                text.push_str(decimal_i64(code as i64).as_str());
                text.push_str(", ");
                text.push_str(decimal_usize(calls).as_str());
                text.push_str(" tool call(s))\n");
            }
            text
        },
        None => "(kamui was terminated by a signal)\n".to_owned(),
    };
    assert(summary@ =~= run_summary(output.code, calls as nat, errors as nat));
    if answer.as_str().is_empty() {
        let stderr = lossy_text(&output.stderr);
        let detail = trimmed(stderr.as_str());
        summary.push_str("Error: kamui produced no answer.");
        if !detail.as_str().is_empty() {
            summary.push_str("\nstderr:\n");
            summary.push_str(detail.as_str());
        }
    } else {
        summary.push_str(answer.as_str());
    }
    assert(summary@ =~= coding_summary(output.code, lossy(output.stdout@), lossy(output.stderr@)));
    truncate_utf8(summary, MAX_COMMAND_OUTPUT)
}

/// The start of an id that tells it from others: its first eight bytes, or as many of them as are
/// whole characters.
pub open spec fn short_id(id: Seq<char>) -> Seq<char> {
    id.take(chars_within(id, 8) as int)
}

/// The start of an id that tells it from others.
pub fn shorten(id: &str) -> (r: String)
    ensures
        r@ == short_id(id@),
{
    let chars = to_chars(id);
    let n = count_within(&chars, 8);
    let r = slice(&chars, 0, n);
    assert(r@ =~= id@.take(n as int));
    r
}

pub open spec fn job_text(job: JobView) -> Seq<char> {
    "job "@ + short_id(job.id) + ": "@ + job.status + "\nworkspace: "@ + job.workspace
        + "\ncommand: "@ + job.command + (match job.output {
        Some(output) => "\n"@ + output,
        None => match job.exit_code {
            Some(code) => "\nexit code: "@ + signed_decimal(code as int),
            None => seq![],
        },
    })
}

/// What is reported of a background command.
pub fn format_job(job: &CommandJob) -> (r: String)
    ensures
        r@ == job_text(job@),
{
    let mut r = "job ".to_owned();
    r.push_str(shorten(job.id.as_str()).as_str());
    r.push_str(": ");
    r.push_str(job.status.as_str());
    r.push_str("\nworkspace: ");
    r.push_str(job.workspace.as_str());
    r.push_str("\ncommand: ");
    r.push_str(job.command.as_str());
    if let Some(output) = &job.output {
        r.push_str("\n");
        r.push_str(output.as_str());
    } else if let Some(code) = job.exit_code {
        r.push_str("\nexit code: ");
        r.push_str(decimal_i64(code).as_str());
    }
    assert(r@ =~= job_text(job@));
    r
}

/// A fact, cut where it is long.
pub open spec fn cut_fact(fact: Seq<char>) -> Seq<char> {
    if fact.len() <= MAX_AMBIGUOUS_FACT_CHARS {
        fact
    } else {
        fact.take(MAX_AMBIGUOUS_FACT_CHARS as int) + "..."@
    }
}

pub fn truncate_fact(fact: &str) -> (r: String)
    ensures
        r@ == cut_fact(fact@),
{
    let chars = to_chars(fact);
    if chars.len() <= MAX_AMBIGUOUS_FACT_CHARS {
        return fact.to_owned();
    }
    let mut r = slice(&chars, 0, MAX_AMBIGUOUS_FACT_CHARS);
    assert(r@ =~= fact@.take(MAX_AMBIGUOUS_FACT_CHARS as int));
    r.push_str("...");
    r
}

/// The first `n` facts, each on a line of its own.
pub open spec fn listed_facts(facts: Seq<Seq<char>>, n: int) -> Seq<char>
    decreases n,
{
    if n <= 0 {
        seq![]
    } else {
        listed_facts(facts, n - 1) + "\n- "@ + cut_fact(facts[n - 1])
    }
}

pub open spec fn ambiguous_text(matching: Seq<char>, facts: Seq<Seq<char>>) -> Seq<char> {
    "\""@ + matching + "\" matches "@ + decimal(facts.len())
        + " remembered facts; use a substring unique to one of them:"@ + listed_facts(
        facts,
        if facts.len() < MAX_AMBIGUOUS_MEMORY_ENTRIES {
            facts.len() as int
        } else {
            MAX_AMBIGUOUS_MEMORY_ENTRIES as int
        },
    ) + if facts.len() > MAX_AMBIGUOUS_MEMORY_ENTRIES {
        "\n- ...and "@ + decimal((facts.len() - MAX_AMBIGUOUS_MEMORY_ENTRIES) as nat) + " more"@
    } else {
        seq![]
    }
}

/// Names the entries a substring collided with. Listing them is the whole point: a caller told only
/// that its substring was ambiguous has to guess a better one, while a caller shown the competing
/// facts can pick wording that appears in exactly one of them.
pub fn ambiguous_memory_error(matching: &str, entries: &Vec<String>) -> (r: String)
    ensures
        r@ == ambiguous_text(matching@, texts(entries@)),
{
    let ghost facts = texts(entries@);
    let mut r = "\"".to_owned();
    r.push_str(matching);
    r.push_str("\" matches ");
    r.push_str(decimal_usize(entries.len()).as_str());
    r.push_str(" remembered facts; use a substring unique to one of them:");
    let ghost head = r@;
    let mut i: usize = 0;
    assert(r@ =~= head + listed_facts(facts, 0));
    while i < entries.len() && i < MAX_AMBIGUOUS_MEMORY_ENTRIES
        invariant
            i <= entries@.len(),
            i <= MAX_AMBIGUOUS_MEMORY_ENTRIES,
            facts == texts(entries@),
            r@ == head + listed_facts(facts, i as int),
        decreases entries@.len() - i,
    {
        let ghost before = r@;
        r.push_str("\n- ");
        r.push_str(truncate_fact(entries[i].as_str()).as_str());
        i = i + 1;
        assert(r@ =~= head + listed_facts(facts, i as int));
    }
    if entries.len() > MAX_AMBIGUOUS_MEMORY_ENTRIES {
        r.push_str("\n- ...and ");
        r.push_str(decimal_usize(entries.len() - MAX_AMBIGUOUS_MEMORY_ENTRIES).as_str());
        r.push_str(" more");
    }
    assert(r@ =~= ambiguous_text(matching@, facts));
    r
}

/// A text that fits is left alone; of one that does not, as much as fits is kept from its start, and
/// a note says that it was cut.
pub proof fn law_long_outputs_are_cut_and_marked(s: Seq<char>, limit: int)
    requires
        0 <= limit,
    ensures
        utf8_len(s) <= limit ==> truncated(s, limit) == s,
        utf8_len(s) > limit ==> exists|n: int|
            {
                &&& 0 <= n < s.len()
                &&& truncated(s, limit) == #[trigger] s.take(n) + "\n... output truncated"@
                &&& utf8_len(s.take(n)) <= limit
                &&& utf8_len(s.take(n + 1)) > limit
            },
{
    law_truncation_keeps_as_much_as_fits(s, limit);
    let n = chars_within(s, limit) as int;
    if utf8_len(s) > limit {
        if n == s.len() {
            assert(s.take(n) =~= s);
        }
        assert(truncated(s, limit) == s.take(n) + "\n... output truncated"@);
    }
}

/// What a command printed is told, what it printed on its output ahead of its errors, and nothing is
/// told where it printed nothing.
pub proof fn law_both_streams_are_told(stdout: Seq<u8>, stderr: Seq<u8>)
    ensures
        stdout.len() > 0 && stderr.len() > 0 ==> in_turn(
            streams(stdout, stderr),
            seq!["stdout:"@, lossy(stdout), "stderr:"@, lossy(stderr)],
        ),
        stdout.len() > 0 && stderr.len() == 0 ==> in_turn(
            streams(stdout, stderr),
            seq!["stdout:"@, lossy(stdout)],
        ) && ends_in(streams(stdout, stderr), lossy(stdout)),
        stdout.len() == 0 && stderr.len() > 0 ==> in_turn(
            streams(stdout, stderr),
            seq!["stderr:"@, lossy(stderr)],
        ),
        stderr.len() > 0 ==> ends_in(streams(stdout, stderr), lossy(stderr)),
        stdout.len() == 0 && stderr.len() == 0 ==> streams(stdout, stderr).len() == 0,
{
    let empty: Seq<char> = seq![];
    let line: Seq<char> = seq!['\n'];
    reveal_strlit("\nstdout:\n");
    reveal_strlit("stdout:");
    reveal_strlit("\nstderr:\n");
    reveal_strlit("stderr:");
    assert("\nstdout:\n"@ =~= line + "stdout:"@ + line);
    assert("\nstderr:\n"@ =~= line + "stderr:"@ + line);
    let all = streams(stdout, stderr);
    let (out, err) = (lossy(stdout), lossy(stderr));
    if stdout.len() > 0 && stderr.len() > 0 {
        lemma_four(line, "stdout:"@, line, out, line, "stderr:"@, line, err, empty);
        assert(all =~= line + "stdout:"@ + line + out + line + "stderr:"@ + line + err + empty);
    } else if stdout.len() > 0 {
        lemma_two(line, "stdout:"@, line, out, empty);
        assert(all =~= line + "stdout:"@ + line + out + empty);
        lemma_ends_in(line + "stdout:"@ + line, out);
        assert(all =~= line + "stdout:"@ + line + out);
    } else if stderr.len() > 0 {
        lemma_two(line, "stderr:"@, line, err, empty);
        assert(all =~= line + "stderr:"@ + line + err + empty);
    }
    if stderr.len() > 0 {
        let front = if stdout.len() > 0 {
            "\nstdout:\n"@ + out
        } else {
            empty
        };
        lemma_ends_in(front + "\nstderr:\n"@, err);
        assert(all =~= front + "\nstderr:\n"@ + err);
    }
}

/// What is told of a command that ended starts with its exit code, which reads back, and goes on with
/// what it printed, cut where it is too long.
pub proof fn law_exit_codes_are_told(code: i32, stdout: Seq<u8>, stderr: Seq<u8>)
    ensures
        parse_int(exit_text(Some(code))) == Some(code as int),
        exit_text(None) == "terminated by signal"@,
        utf8_len(finished_text(Some(code), stdout, stderr)) <= MAX_COMMAND_OUTPUT ==> command_text(
            Some(code),
            stdout,
            stderr,
        ) == finished_text(Some(code), stdout, stderr),
        in_turn(
            finished_text(Some(code), stdout, stderr),
            seq!["exit code: "@, signed_decimal(code as int), streams(stdout, stderr)],
        ),
        occurs_at(finished_text(Some(code), stdout, stderr), "exit code: "@, 0),
        ends_in(finished_text(Some(code), stdout, stderr), streams(stdout, stderr)),
{
    law_signed_decimals_read_back(code as int);
    let empty: Seq<char> = seq![];
    let all = finished_text(Some(code), stdout, stderr);
    let printed = streams(stdout, stderr);
    lemma_three(empty, "exit code: "@, empty, signed_decimal(code as int), empty, printed, empty);
    assert(all =~= empty + "exit code: "@ + empty + signed_decimal(code as int) + empty + printed
        + empty);
    lemma_starts("exit code: "@, signed_decimal(code as int) + printed);
    assert(all =~= "exit code: "@ + (signed_decimal(code as int) + printed));
    lemma_ends_in("exit code: "@ + exit_text(Some(code)), printed);
}

/// A job that ran too long is told with its limit and with what it had printed by then; a process
/// that would not die is warned of, and only such a one.
pub proof fn law_timeouts_are_told(limit: u64, killed: Option<bool>, output: ProcessOutput)
    ensures
        in_turn(
            timeout_text(limit, killed, Some(output)),
            seq![decimal(limit as nat), streams(output.stdout@, output.stderr@)],
        ),
        ends_in(
            timeout_text(limit, killed, Some(output)),
            streams(output.stdout@, output.stderr@),
        ),
        timeout_text(limit, killed, Some(output)) == timeout_text(limit, killed, None) + streams(
            output.stdout@,
            output.stderr@,
        ),
        occurs_at(timeout_text(limit, killed, None), "Error: "@, 0),
        timeout_text(limit, Some(false), None).len() > timeout_text(limit, Some(true), None).len(),
        timeout_text(limit, None, None) == timeout_text(limit, Some(true), None),
{
    let empty: Seq<char> = seq![];
    let printed = streams(output.stdout@, output.stderr@);
    let warning = if killed == Some(false) {
        "\nwarning: its process tree was still alive after the kill; check the host by hand"@
    } else {
        empty
    };
    let front = "Error: background job exceeded the "@;
    let middle = "-second limit and was terminated"@ + warning;
    let all = timeout_text(limit, killed, Some(output));
    lemma_two(front, decimal(limit as nat), middle, printed, empty);
    assert(all =~= front + decimal(limit as nat) + middle + printed + empty);
    lemma_ends_in(front + decimal(limit as nat) + middle, printed);
    assert(all =~= front + decimal(limit as nat) + middle + printed);
    assert(timeout_text(limit, killed, None) =~= front + decimal(limit as nat) + middle);
    reveal_strlit("Error: ");
    reveal_strlit("Error: background job exceeded the ");
    assert(timeout_text(limit, killed, None).subrange(0, 7) =~= "Error: "@);
    reveal_strlit(
        "\nwarning: its process tree was still alive after the kill; check the host by hand",
    );
    assert(timeout_text(limit, None, None) =~= timeout_text(limit, Some(true), None));
}

/// An id is shortened to its own start, never to more than eight bytes, and one of eight plain
/// characters or more keeps eight.
pub proof fn law_short_ids_are_starts(id: Seq<char>)
    ensures
        occurs_at(id, short_id(id), 0),
        utf8_len(short_id(id)) <= 8,
        utf8_len(id) <= 8 ==> short_id(id) == id,
        (forall|k: int| 0 <= k < id.len() ==> (#[trigger] id[k]) as u32 <= 0x7F) && id.len() >= 8
            ==> short_id(id).len() == 8,
{
    law_truncation_keeps_as_much_as_fits(id, 8);
    let n = chars_within(id, 8) as int;
    assert(id.subrange(0, n) =~= id.take(n));
    if utf8_len(id) <= 8 {
        if n < id.len() {
            lemma_utf8_len_add(id.take(n + 1), id.skip(n + 1));
            assert(id.take(n + 1) + id.skip(n + 1) =~= id);
        }
        assert(id.take(id.len() as int) =~= id);
    }
    if (forall|k: int| 0 <= k < id.len() ==> (#[trigger] id[k]) as u32 <= 0x7F) && id.len() >= 8 {
        lemma_plain_bytes(id, 8);
    }
}

proof fn lemma_plain_bytes(s: Seq<char>, limit: int)
    requires
        0 <= limit <= s.len(),
        forall|k: int| 0 <= k < s.len() ==> (#[trigger] s[k]) as u32 <= 0x7F,
    ensures
        chars_within(s, limit) == limit,
    decreases s.len(),
{
    if s.len() > 0 && limit > 0 {
        lemma_plain_bytes(s.skip(1), limit - 1);
    }
}

/// What is told of a job is its own: its id, how it stands, where it runs and what was run, in this
/// order, and behind these what it printed or, where nothing is kept of that, its exit code.
pub proof fn law_jobs_are_told_in_full(job: JobView)
    ensures
        in_turn(
            job_text(job),
            seq![short_id(job.id), job.status, job.workspace, job.command],
        ),
        job.output matches Some(output) ==> ends_in(job_text(job), job.command + "\n"@ + output),
        job.output is None && job.exit_code is Some ==> ends_in(
            job_text(job),
            "\nexit code: "@ + signed_decimal(job.exit_code->0 as int),
        ),
        job.output is None && job.exit_code is None ==> ends_in(job_text(job), job.command),
{
    let tail = match job.output {
        Some(output) => "\n"@ + output,
        None => match job.exit_code {
            Some(code) => "\nexit code: "@ + signed_decimal(code as int),
            None => seq![],
        },
    };
    lemma_four(
        "job "@,
        short_id(job.id),
        ": "@,
        job.status,
        "\nworkspace: "@,
        job.workspace,
        "\ncommand: "@,
        job.command,
        tail,
    );
    let front = "job "@ + short_id(job.id) + ": "@ + job.status + "\nworkspace: "@ + job.workspace
        + "\ncommand: "@;
    assert(job_text(job) =~= front + job.command + tail);
    match job.output {
        Some(output) => {
            lemma_ends_in(front, job.command + "\n"@ + output);
            assert(job_text(job) =~= front + (job.command + "\n"@ + output));
        },
        None => {
            match job.exit_code {
                Some(code) => {
                    lemma_ends_in(front + job.command, tail);
                },
                None => {
                    lemma_ends_in(front, job.command);
                    assert(job_text(job) =~= front + job.command);
                },
            }
        },
    }
}

/// The answer of the coding agent is what it said last, behind every line of its trace; it is told
/// word for word but for the blanks at the ends, and closes the summary.
pub proof fn law_coding_answers_follow_the_trace(
    code: Option<i32>,
    stdout: Seq<char>,
    stderr: Seq<char>,
)
    ensures
        ({
            let all = lines(stdout);
            let start = answer_start(all, all.len() as int);
            &&& 0 <= start <= all.len()
            &&& forall|k: int|
                start <= k < all.len() ==> !is_trace_line(#[trigger] all[k])
            &&& start > 0 ==> is_trace_line(all[start - 1])
        }),
        answer_of(lines(stdout)).len() > 0 ==> ends_in(
            coding_summary(code, stdout, stderr),
            answer_of(lines(stdout)),
        ),
        answer_of(lines(stdout)).len() == 0 && trim(stderr).len() > 0 ==> ends_in(
            coding_summary(code, stdout, stderr),
            trim(stderr),
        ),
        answer_of(lines(stdout)).len() == 0 ==> contains(
            coding_summary(code, stdout, stderr),
            "Error: kamui produced no answer."@,
        ),
        code matches Some(status) && status != 0 ==> in_turn(
            coding_summary(code, stdout, stderr),
            seq![
                signed_decimal(code->0 as int),
                decimal(count_lines(lines(stdout), |line: Seq<char>| is_call_line(line))),
            ],
        ),
{
    let all = lines(stdout);
    lemma_answer_start(all, all.len() as int);
    let calls = count_lines(all, |line: Seq<char>| is_call_line(line));
    let errors = count_lines(all, |line: Seq<char>| is_error_line(line));
    let front = run_summary(code, calls, errors);
    let answer = answer_of(all);
    let told = coding_summary(code, stdout, stderr);
    let empty: Seq<char> = seq![];
    let rest = if answer.len() == 0 {
        no_answer(stderr)
    } else {
        answer
    };
    assert(told =~= front + rest);
    lemma_ends_in(front, rest);
    if answer.len() == 0 {
        let apology = "Error: kamui produced no answer."@;
        let more = rest.skip(apology.len() as int);
        assert(rest =~= apology + more);
        lemma_one(front, apology, more);
        assert(told =~= front + apology + more);
        lemma_in_turn_contains(told, seq![apology], 0);
        if trim(stderr).len() > 0 {
            lemma_ends_in(front + apology + "\nstderr:\n"@, trim(stderr));
            assert(told =~= front + apology + "\nstderr:\n"@ + trim(stderr));
        }
    }
    if code is Some && code->0 != 0 {
        lemma_two(
            "(kamui exited with code "@,
            signed_decimal(code->0 as int),
            ", "@,
            decimal(calls),
            " tool call(s))\n"@,
        );
        lemma_in_turn_within(
            empty,
            front,
            rest,
            seq![signed_decimal(code->0 as int), decimal(calls)],
        );
        assert(empty + front + rest =~= told);
    }
}

proof fn lemma_answer_start(lines: Seq<Seq<char>>, n: int)
    requires
        0 <= n <= lines.len(),
    ensures
        0 <= answer_start(lines, n) <= n,
        forall|k: int| answer_start(lines, n) <= k < n ==> !is_trace_line(#[trigger] lines[k]),
        answer_start(lines, n) > 0 ==> is_trace_line(lines[answer_start(lines, n) - 1]),
    decreases n,
{
    if n > 0 && !is_trace_line(lines[n - 1]) {
        lemma_answer_start(lines, n - 1);
    }
}

/// Lines are counted one by one.
pub proof fn law_lines_are_counted(
    lines: Seq<Seq<char>>,
    line: Seq<char>,
    counts: spec_fn(Seq<char>) -> bool,
)
    ensures
        count_lines(Seq::empty(), counts) == 0,
        counts(line) ==> count_lines(lines.push(line), counts) == count_lines(lines, counts) + 1,
        !counts(line) ==> count_lines(lines.push(line), counts) == count_lines(lines, counts),
{
    assert(lines.push(line).drop_last() =~= lines);
}

/// A word that fits several facts is answered with the word, with how many there are, and with the
/// start of each of the first of them, so that a better word can be picked.
pub proof fn law_ambiguity_is_told_with_the_candidates(matching: Seq<char>, facts: Seq<Seq<char>>)
    ensures
        in_turn(ambiguous_text(matching, facts), seq![matching, decimal(facts.len())]),
        forall|k: int|
            0 <= k < facts.len() && k < MAX_AMBIGUOUS_MEMORY_ENTRIES ==> contains(
                ambiguous_text(matching, facts),
                cut_fact(#[trigger] facts[k]),
            ),
        facts.len() > MAX_AMBIGUOUS_MEMORY_ENTRIES ==> ends_in(
            ambiguous_text(matching, facts),
            decimal((facts.len() - MAX_AMBIGUOUS_MEMORY_ENTRIES) as nat) + " more"@,
        ),
{
    let empty: Seq<char> = seq![];
    let count = if facts.len() < MAX_AMBIGUOUS_MEMORY_ENTRIES {
        facts.len() as int
    } else {
        MAX_AMBIGUOUS_MEMORY_ENTRIES as int
    };
    let listed = listed_facts(facts, count);
    let tail = if facts.len() > MAX_AMBIGUOUS_MEMORY_ENTRIES {
        "\n- ...and "@ + decimal((facts.len() - MAX_AMBIGUOUS_MEMORY_ENTRIES) as nat) + " more"@
    } else {
        empty
    };
    let note = " remembered facts; use a substring unique to one of them:"@;
    let all = ambiguous_text(matching, facts);
    lemma_two("\""@, matching, "\" matches "@, decimal(facts.len()), note + listed + tail);
    assert(all =~= "\""@ + matching + "\" matches "@ + decimal(facts.len()) + (note + listed
        + tail));
    let front = "\""@ + matching + "\" matches "@ + decimal(facts.len()) + note;
    assert forall|k: int|
        0 <= k < facts.len() && k < MAX_AMBIGUOUS_MEMORY_ENTRIES implies contains(
        all,
        cut_fact(#[trigger] facts[k]),
    ) by {
        lemma_listed_facts(facts, count, k);
        lemma_in_turn_within(front, listed, tail, seq![cut_fact(facts[k])]);
        assert(front + listed + tail =~= all);
        lemma_in_turn_contains(all, seq![cut_fact(facts[k])], 0);
    }
    if facts.len() > MAX_AMBIGUOUS_MEMORY_ENTRIES {
        let last = decimal((facts.len() - MAX_AMBIGUOUS_MEMORY_ENTRIES) as nat) + " more"@;
        lemma_ends_in(front + listed + "\n- ...and "@, last);
        assert(all =~= front + listed + "\n- ...and "@ + last);
    }
}

proof fn lemma_listed_facts(facts: Seq<Seq<char>>, n: int, k: int)
    requires
        0 <= k < n <= facts.len(),
    ensures
        in_turn(listed_facts(facts, n), seq![cut_fact(facts[k])]),
    decreases n,
{
    let empty: Seq<char> = seq![];
    if k == n - 1 {
        lemma_one(listed_facts(facts, n - 1) + "\n- "@, cut_fact(facts[k]), empty);
        assert(listed_facts(facts, n) =~= listed_facts(facts, n - 1) + "\n- "@ + cut_fact(facts[k])
            + empty);
    } else {
        lemma_listed_facts(facts, n - 1, k);
        lemma_in_turn_within(
            empty,
            listed_facts(facts, n - 1),
            "\n- "@ + cut_fact(facts[n - 1]),
            seq![cut_fact(facts[k])],
        );
        assert(listed_facts(facts, n) =~= empty + listed_facts(facts, n - 1) + ("\n- "@ + cut_fact(
            facts[n - 1],
        )));
    }
}

/// A short fact is shown as it is, and a long one is cut and marked.
pub proof fn law_long_facts_are_cut_and_marked(fact: Seq<char>)
    ensures
        fact.len() <= MAX_AMBIGUOUS_FACT_CHARS ==> cut_fact(fact) == fact,
        fact.len() > MAX_AMBIGUOUS_FACT_CHARS ==> occurs_at(
            cut_fact(fact),
            fact.take(MAX_AMBIGUOUS_FACT_CHARS as int),
            0,
        ) && ends_in(cut_fact(fact), "..."@) && cut_fact(fact).len() == MAX_AMBIGUOUS_FACT_CHARS
            + 3,
{
    reveal_strlit("...");
    if fact.len() > MAX_AMBIGUOUS_FACT_CHARS {
        lemma_starts(fact.take(MAX_AMBIGUOUS_FACT_CHARS as int), "..."@);
        lemma_ends_in(fact.take(MAX_AMBIGUOUS_FACT_CHARS as int), "..."@);
    }
}

/// No line of the coding agent's answer is lost: every line behind the trace stands in the answer,
/// but for the blanks at its ends, and the lines stand there in their order.
pub proof fn law_no_line_of_the_answer_is_lost(lines: Seq<Seq<char>>, k: int)
    requires
        0 <= k < lines.len(),
        forall|i: int| k <= i < lines.len() ==> !is_trace_line(#[trigger] lines[i]),
    ensures
        contains(answer_of(lines), trim(lines[k])),
{
    let start = answer_start(lines, lines.len() as int);
    assert(0 <= start <= k) by {
        lemma_answer_start(lines, lines.len() as int);
        if start > k {
            assert(!is_trace_line(lines[start - 1]));
        }
    }
    lemma_answer_part(lines, start, k);
}

proof fn lemma_answer_part(lines: Seq<Seq<char>>, start: int, k: int)
    requires
        0 <= start <= k < lines.len(),
    ensures
        contains(trim(join(ends_trimmed(lines.skip(start)), "\n"@)), trim(lines[k])),
{
    let rest = ends_trimmed(lines.skip(start));
    let part = trim(lines[k]);
    let all = trim(join(rest, "\n"@));
    if part.len() == 0 {
        assert(all.subrange(0, 0) =~= part);
        assert(occurs_at(all, part, 0));
    } else {
        lemma_trimmed_part(lines[k]);
        lemma_trim_keeps(lines[k], part);
        assert(rest[k - start] == trim_end(lines[k]));
        lemma_part_of_joined(rest, k - start, part);
    }
}

/// What trimming leaves stands in the text.
proof fn lemma_trimmed_part(s: Seq<char>)
    ensures
        contains(s, trim(s)),
        trim(s).len() > 0 ==> !white_space(trim(s)[0]) && !white_space(trim(s).last()),
{
    law_trimming_takes_blanks_only(s);
    let at = choose|at: int| blanks_around(s, trim(s), at);
    assert(occurs_at(s, trim(s), at));
}

/// A part of a line that blanks do not touch stands in the joined lines, trimmed or not.
proof fn lemma_part_of_joined(lines: Seq<Seq<char>>, i: int, part: Seq<char>)
    requires
        0 <= i < lines.len(),
        contains(lines[i], part),
        part.len() > 0,
        !white_space(part[0]),
        !white_space(part.last()),
    ensures
        contains(trim(join(lines, "\n"@)), part),
{
    lemma_join_in_turn(lines, "\n"@);
    lemma_in_turn_contains(join(lines, "\n"@), lines, i);
    lemma_contains_trans(join(lines, "\n"@), lines[i], part);
    lemma_trim_keeps(join(lines, "\n"@), part);
}

/// A run that went well is told with how many calls it made and how many of them failed.
pub proof fn law_runs_are_told_with_their_calls(calls: nat, errors: nat)
    ensures
        calls > 0 ==> in_turn(
            run_summary(Some(0i32), calls, errors),
            seq![decimal(calls), decimal(errors)],
        ),
        run_summary(Some(0i32), 0, errors).len() == 0,
        run_summary(None, calls, errors) == "(kamui was terminated by a signal)\n"@,
{
    lemma_two("("@, decimal(calls), " tool call(s), "@, decimal(errors), " error(s))\n"@);
}

} // verus!
