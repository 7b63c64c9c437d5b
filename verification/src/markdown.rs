//! Converts common Markdown (as LLMs write it: `**bold**`, `` `code` ``, fenced code blocks, links)
//! into Telegram's MarkdownV2 dialect, escaping every character MarkdownV2 treats as reserved
//! outside of an open entity. Telegram rejects a whole message if a reserved character is left
//! unescaped, so a naive "just forward the model's Markdown" approach fails unpredictably.
//!
//! **Underscores are never emphasis markers here.** `_x_` and `__x__` are rendered as literal
//! underscores, so `snake_case_name`, `__init__` and `a_b_c` survive intact. The one emphasis
//! syntax kept is `**bold**`. Single-`*` italic is not accepted either, because it would corrupt
//! globs like `src/*.rs`.
use vstd::prelude::*;
use vstd::string::*;

use crate::text::{
    copy_range, find, find_from, index_from, index_of, lemma_find_from, lemma_index_from,
    occurs_at, to_chars,
};

verus! {

/// Characters that MarkdownV2 requires to be escaped with a backslash outside of an entity.
pub open spec fn is_reserved(c: char) -> bool {
    c == '_' || c == '*' || c == '[' || c == ']' || c == '(' || c == ')' || c == '~' || c == '`'
        || c == '>' || c == '#' || c == '+' || c == '-' || c == '=' || c == '|' || c == '{' || c
        == '}' || c == '.' || c == '!'
}

/// `s` with a backslash in front of every character for which `special` holds.
pub open spec fn escaped(s: Seq<char>, special: spec_fn(char) -> bool) -> Seq<char>
    decreases s.len(),
{
    if s.len() == 0 {
        seq![]
    } else {
        escaped(s.drop_last(), special) + if special(s.last()) {
            seq!['\\', s.last()]
        } else {
            seq![s.last()]
        }
    }
}

/// What has to be escaped inside code.
pub open spec fn special_in_code() -> spec_fn(char) -> bool {
    |c: char| c == '`' || c == '\\'
}

/// What has to be escaped inside a link target.
pub open spec fn special_in_url() -> spec_fn(char) -> bool {
    |c: char| c == ')' || c == '\\'
}

/// What has to be escaped in plain text.
pub open spec fn special_in_text() -> spec_fn(char) -> bool {
    |c: char| is_reserved(c) || c == '\\'
}

pub open spec fn stars() -> Seq<char> {
    seq!['*', '*']
}

pub open spec fn fence() -> Seq<char> {
    seq!['`', '`', '`']
}

/// The position of the backtick that closes an inline code span at the start of `s`.
pub open spec fn code_end(s: Seq<char>) -> Option<int> {
    if s.len() > 0 && s[0] == '`' {
        index_from(s, '`', 1)
    } else {
        None
    }
}

/// The position of the `**` that closes a bold run at the start of `s`.
pub open spec fn bold_end(s: Seq<char>) -> Option<int> {
    if s.len() > 1 && s[0] == '*' && s[1] == '*' {
        find_from(s, stars(), 2)
    } else {
        None
    }
}

/// The positions of the `]` and the `)` that end the two halves of a link at the start of `s`.
pub open spec fn link_end(s: Seq<char>) -> Option<(int, int)> {
    if s.len() > 0 && s[0] == '[' {
        match index_from(s, ']', 1) {
            Some(bracket) => if bracket + 1 < s.len() && s[bracket + 1] == '(' {
                match index_from(s, ')', bracket + 2) {
                    Some(paren) => Some((bracket, paren)),
                    None => None,
                }
            } else {
                None
            },
            None => None,
        }
    } else {
        None
    }
}

/// A fence-free text in MarkdownV2: inline code spans, `**bold**` and links become entities;
/// everything else, underscores included, is escaped as plain text.
pub open spec fn inline(s: Seq<char>) -> Seq<char>
    decreases s.len(),
    via inline_decreases
{
    if s.len() == 0 {
        seq![]
    } else if let Some(end) = code_end(s) {
        seq!['`'] + escaped(s.subrange(1, end), special_in_code()) + seq!['`'] + inline(
            s.skip(end + 1),
        )
    } else if let Some(end) = bold_end(s) {
        seq!['*'] + inline(s.subrange(2, end)) + seq!['*'] + inline(s.skip(end + 2))
    } else if let Some((bracket, paren)) = link_end(s) {
        seq!['['] + inline(s.subrange(1, bracket)) + seq![']', '('] + escaped(
            s.subrange(bracket + 2, paren),
            special_in_url(),
        ) + seq![')'] + inline(s.skip(paren + 1))
    } else {
        escaped(s.take(1), special_in_text()) + inline(s.skip(1))
    }
}

#[via_fn]
proof fn inline_decreases(s: Seq<char>) {
    lemma_ends(s);
}

/// Where the ends of entities lie.
proof fn lemma_ends(s: Seq<char>)
    ensures
        code_end(s) is Some ==> 1 <= code_end(s)->0 < s.len() && s[code_end(s)->0] == '`'
            && forall|k: int| 1 <= k < code_end(s)->0 ==> s[k] != '`',
        bold_end(s) is Some ==> 2 <= bold_end(s)->0 && bold_end(s)->0 + 2 <= s.len() && forall|k: int|
            2 <= k < bold_end(s)->0 ==> !occurs_at(s, stars(), k),
        link_end(s) is Some ==> {
            let (bracket, paren) = link_end(s)->0;
            &&& 1 <= bracket
            &&& bracket + 2 <= paren < s.len()
            &&& s[bracket] == ']'
            &&& forall|k: int| 1 <= k < bracket ==> s[k] != ']'
            &&& forall|k: int| bracket + 2 <= k < paren ==> s[k] != ')'
        },
{
    lemma_index_from(s, '`', 1);
    lemma_find_from(s, stars(), 2);
    lemma_index_from(s, ']', 1);
    if let Some(bracket) = index_from(s, ']', 1) {
        lemma_index_from(s, ')', bracket + 2);
    }
}

/// The text behind a fence marker's info string, which runs to the end of its line.
pub open spec fn fence_body(s: Seq<char>) -> Seq<char> {
    match index_from(s, '\n', 0) {
        Some(at) => s.skip(at + 1),
        None => s.skip(s.len() as int),
    }
}

pub open spec fn code_block(body: Seq<char>) -> Seq<char> {
    "```\n"@ + escaped(body, special_in_code()) + "```"@
}

/// A text in MarkdownV2. Fenced code blocks keep their content and lose their info string; an
/// unterminated fence makes the rest of the text code.
pub open spec fn markdown_v2(s: Seq<char>) -> Seq<char>
    decreases s.len(),
    via markdown_decreases
{
    match find_from(s, fence(), 0) {
        None => inline(s),
        Some(start) => {
            let body = fence_body(s.skip(start + 3));
            match find_from(body, fence(), 0) {
                Some(end) => inline(s.take(start)) + code_block(body.take(end)) + markdown_v2(
                    body.skip(end + 3),
                ),
                None => inline(s.take(start)) + code_block(body),
            }
        },
    }
}

#[via_fn]
proof fn markdown_decreases(s: Seq<char>) {
    lemma_fence_parts(s);
}

proof fn lemma_fence_parts(s: Seq<char>)
    ensures
        find_from(s, fence(), 0) is Some ==> {
            let start = find_from(s, fence(), 0)->0;
            let body = fence_body(s.skip(start + 3));
            &&& 0 <= start
            &&& start + 3 <= s.len()
            &&& body.len() + start + 3 <= s.len()
            &&& find_from(body, fence(), 0) is Some ==> {
                let end = find_from(body, fence(), 0)->0;
                0 <= end && end + 3 <= body.len()
            }
        },
{
    lemma_find_from(s, fence(), 0);
    if let Some(start) = find_from(s, fence(), 0) {
        lemma_index_from(s.skip(start + 3), '\n', 0);
        let body = fence_body(s.skip(start + 3));
        lemma_find_from(body, fence(), 0);
    }
}

fn reserved(c: char) -> (r: bool)
    ensures
        r == is_reserved(c),
{
    match c {
        '_' | '*' | '[' | ']' | '(' | ')' | '~' | '`' | '>' | '#' | '+' | '-' | '=' | '|' | '{'
        | '}' | '.' | '!' => true,
        _ => false,
    }
}

/// Appends text inside a code block or span: only backticks and backslashes are escaped there,
/// since no other entity syntax is parsed inside one.
fn push_code(out: &mut String, chars: &Vec<char>, from: usize, to: usize)
    requires
        from <= to <= chars@.len(),
    ensures
        final(out)@ == old(out)@ + escaped(
            chars@.subrange(from as int, to as int),
            special_in_code(),
        ),
{
    let mut i: usize = from;
    let ghost special = special_in_code();
    assert(out@ =~= old(out)@ + escaped(chars@.subrange(from as int, from as int), special));
    while i < to
        invariant
            from <= i <= to <= chars@.len(),
            special == special_in_code(),
            out@ == old(out)@ + escaped(chars@.subrange(from as int, i as int), special),
        decreases to - i,
    {
        let ghost done = chars@.subrange(from as int, i as int);
        let ghost before = out@;
        if chars[i] == '`' || chars[i] == '\\' {
            out.push('\\');
        }
        out.push(chars[i]);
        i = i + 1;
        let ghost next = chars@.subrange(from as int, i as int);
        assert(next.drop_last() =~= done);
        assert(out@ =~= old(out)@ + escaped(next, special));
    }
}

/// Appends a link target: only `)` and `\` are reserved there.
fn push_url(out: &mut String, chars: &Vec<char>, from: usize, to: usize)
    requires
        from <= to <= chars@.len(),
    ensures
        final(out)@ == old(out)@ + escaped(
            chars@.subrange(from as int, to as int),
            special_in_url(),
        ),
{
    let mut i: usize = from;
    let ghost special = special_in_url();
    assert(out@ =~= old(out)@ + escaped(chars@.subrange(from as int, from as int), special));
    while i < to
        invariant
            from <= i <= to <= chars@.len(),
            special == special_in_url(),
            out@ == old(out)@ + escaped(chars@.subrange(from as int, i as int), special),
        decreases to - i,
    {
        let ghost done = chars@.subrange(from as int, i as int);
        let ghost before = out@;
        if chars[i] == ')' || chars[i] == '\\' {
            out.push('\\');
        }
        out.push(chars[i]);
        i = i + 1;
        let ghost next = chars@.subrange(from as int, i as int);
        assert(next.drop_last() =~= done);
        assert(out@ =~= old(out)@ + escaped(next, special));
    }
}

/// The end of an entity at position `at`, found in the whole text and in its tail alike.
fn link_at(chars: &Vec<char>, at: usize) -> (r: Option<(usize, usize)>)
    requires
        at < chars.len(),
    ensures
        match r {
            Some((bracket, paren)) => link_end(chars@.skip(at as int)) == Some(
                (bracket - at, paren - at),
            ),
            None => link_end(chars@.skip(at as int)) is None,
        },
{
    let ghost s = chars@.skip(at as int);
    if chars[at] != '[' {
        return None;
    }
    proof {
        lemma_index_shift(chars@, ']', at as int, 1);
        lemma_index_from(chars@, ']', at + 1);
    }
    match index_of(chars, ']', at + 1) {
        Some(bracket) => {
            assert(bracket < chars.len());
            if bracket + 1 < chars.len() && chars[bracket + 1] == '(' {
                proof {
                    lemma_index_shift(chars@, ')', at as int, bracket + 2 - at);
                }
                match index_of(chars, ')', bracket + 2) {
                    Some(paren) => Some((bracket, paren)),
                    None => None,
                }
            } else {
                None
            }
        },
        None => None,
    }
}

/// A search in a tail finds what the search in the whole text finds.
proof fn lemma_index_shift(s: Seq<char>, c: char, at: int, from: int)
    requires
        0 <= at <= s.len(),
        0 <= from,
    ensures
        index_from(s, c, at + from) == (match index_from(s.skip(at), c, from) {
            Some(k) => Some(at + k),
            None => None,
        }),
    decreases s.len() - at - from,
{
    if at + from < s.len() {
        assert(s.skip(at)[from] == s[at + from]);
        if s[at + from] != c {
            lemma_index_shift(s, c, at, from + 1);
        }
    }
}

proof fn lemma_find_shift(s: Seq<char>, part: Seq<char>, at: int, from: int)
    requires
        0 <= at <= s.len(),
        0 <= from,
    ensures
        find_from(s, part, at + from) == (match find_from(s.skip(at), part, from) {
            Some(k) => Some(at + k),
            None => None,
        }),
    decreases s.len() - at - from + 1,
{
    let t = s.skip(at);
    if at + from + part.len() <= s.len() {
        assert(t.subrange(from, from + part.len()) =~= s.subrange(
            at + from,
            at + from + part.len(),
        ));
        if !occurs_at(s, part, at + from) {
            lemma_find_shift(s, part, at, from + 1);
        }
    }
}

/// Renders a fence-free segment: inline code spans, `**bold**`, and links become MarkdownV2
/// entities; everything else — underscores included — is escaped as plain text.
#[verifier::rlimit(60)]
pub fn render_inline(chars: &Vec<char>) -> (r: String)
    ensures
        r@ == inline(chars@),
    decreases chars@.len(),
{
    let mut out = String::new();
    let marker: Vec<char> = vec!['*', '*'];
    assert(marker@ =~= stars());
    let mut i: usize = 0;
    assert(chars@.skip(0) =~= chars@);
    assert(out@ + inline(chars@) =~= inline(chars@));
    while i < chars.len()
        invariant
            i <= chars.len(),
            marker@ == stars(),
            out@ + inline(chars@.skip(i as int)) == inline(chars@),
        decreases chars@.len() - i,
    {
        let ghost s = chars@.skip(i as int);
        let ghost before = out@;
        proof {
            lemma_ends(s);
            lemma_index_shift(chars@, '`', i as int, 1);
            lemma_find_shift(chars@, stars(), i as int, 2);
        }
        let c = chars[i];
        if c == '`' {
            if let Some(end) = index_of(chars, '`', i + 1) {
                out.push('`');
                push_code(&mut out, chars, i + 1, end);
                out.push('`');
                assert(chars@.subrange(i + 1, end as int) =~= s.subrange(1, end - i));
                assert(chars@.skip(end + 1) =~= s.skip(end - i + 1));
                i = end + 1;
                assert(out@ + inline(chars@.skip(i as int)) =~= before + inline(s));
                continue ;
            }
        }
        if c == '*' && i + 1 < chars.len() && chars[i + 1] == '*' {
            if let Some(end) = find(chars, &marker, i + 2) {
                let content = copy_range(chars, i + 2, end);
                out.push('*');
                out.push_str(render_inline(&content).as_str());
                out.push('*');
                assert(content@ =~= s.subrange(2, end - i));
                assert(chars@.skip(end + 2) =~= s.skip(end - i + 2));
                i = end + 2;
                assert(out@ + inline(chars@.skip(i as int)) =~= before + inline(s));
                continue ;
            }
        }
        if let Some((bracket, paren)) = link_at(chars, i) {
            let label = copy_range(chars, i + 1, bracket);
            out.push('[');
            out.push_str(render_inline(&label).as_str());
            out.push(']');
            out.push('(');
            push_url(&mut out, chars, bracket + 2, paren);
            out.push(')');
            assert(label@ =~= s.subrange(1, bracket - i));
            assert(chars@.subrange(bracket + 2, paren as int) =~= s.subrange(
                bracket - i + 2,
                paren - i,
            ));
            assert(chars@.skip(paren + 1) =~= s.skip(paren - i + 1));
            i = paren + 1;
            assert(out@ + inline(chars@.skip(i as int)) =~= before + inline(s));
            continue ;
        }
        if reserved(c) || c == '\\' {
            out.push('\\');
        }
        out.push(c);
        assert(s.take(1).drop_last() =~= seq![]);
        assert(s.take(1).last() == c);
        assert(escaped(s.take(1), special_in_text()) =~= if is_reserved(c) || c == '\\' {
            seq!['\\', c]
        } else {
            seq![c]
        }) by {
            reveal_with_fuel(escaped, 2);
        }
        assert(chars@.skip(i + 1) =~= s.skip(1));
        i = i + 1;
        assert(out@ + inline(chars@.skip(i as int)) =~= before + inline(s));
    }
    assert(chars@.skip(i as int) =~= seq![]);
    assert(out@ =~= inline(chars@));
    out
}

/// Appends the text before a fence and the code block that the fence opens; returns where the
/// text goes on behind the block.
fn push_block(out: &mut String, chars: &Vec<char>, i: usize, start: usize) -> (next: usize)
    requires
        i <= start <= chars.len(),
        find_from(chars@.skip(i as int), fence(), 0) == Some(start - i),
    ensures
        i < next <= chars.len(),
        final(out)@ + markdown_v2(chars@.skip(next as int)) == old(out)@ + markdown_v2(
            chars@.skip(i as int),
        ),
{
    let ghost s = chars@.skip(i as int);
    let marker: Vec<char> = vec!['`', '`', '`'];
    assert(marker@ =~= fence());
    proof {
        lemma_fence_parts(s);
    }
    out.push_str(render_inline(&copy_range(chars, i, start)).as_str());
    let ghost prose = inline(s.take(start - i));
    assert(s.take(start - i) =~= chars@.subrange(i as int, start as int));
    let ghost after = s.skip(start - i + 3);
    assert(after =~= chars@.skip(start + 3));
    proof {
        lemma_index_shift(chars@, '\n', start + 3, 0);
        lemma_index_from(after, '\n', 0);
    }
    let body: usize = match index_of(chars, '\n', start + 3) {
        Some(at) => at + 1,
        None => chars.len(),
    };
    let ghost block = fence_body(after);
    assert(block =~= chars@.skip(body as int));
    proof {
        lemma_find_shift(chars@, fence(), body as int, 0);
    }
    out.push_str("```\n");
    let (end, next): (usize, usize) = match find(chars, &marker, body) {
        Some(end) => (end, end + 3),
        None => (chars.len(), chars.len()),
    };
    push_code(out, chars, body, end);
    out.push_str("```");
    let ghost code = chars@.subrange(body as int, end as int);
    assert(out@ =~= old(out)@ + (prose + code_block(code)));
    let ghost rest = chars@.skip(next as int);
    proof {
        if let Some(k) = find_from(block, fence(), 0) {
            assert(code =~= block.take(k));
            assert(rest =~= block.skip(k + 3));
        } else {
            assert(code =~= block);
            assert(rest =~= seq![]);
            lemma_find_from(rest, fence(), 0);
            assert(markdown_v2(rest) == inline(rest));
            assert(prose + code_block(code) + markdown_v2(rest) =~= prose + code_block(code));
        }
        assert(markdown_v2(s) == prose + code_block(code) + markdown_v2(rest));
        assert(old(out)@ + (prose + code_block(code)) + markdown_v2(rest) =~= old(out)@ + (prose
            + code_block(code) + markdown_v2(rest)));
    }
    next
}

/// Converts `text` (assumed to be roughly CommonMark, as an LLM produces it) into a MarkdownV2
/// string safe to send with `ParseMode::MarkdownV2`. Fenced code blocks are passed through with
/// only backtick and backslash escaping; everything outside of them is escaped and re-marked with
/// MarkdownV2 entities.
pub fn to_telegram_markdown_v2(text: &str) -> (r: String)
    ensures
        r@ == markdown_v2(text@),
{
    let chars = to_chars(text);
    let marker: Vec<char> = vec!['`', '`', '`'];
    assert(marker@ =~= fence());
    let mut out = String::new();
    let mut i: usize = 0;
    assert(chars@.skip(0) =~= chars@);
    assert(out@ + markdown_v2(chars@) =~= markdown_v2(chars@));
    loop
        invariant
            chars@ == text@,
            i <= chars.len(),
            marker@ == fence(),
            out@ + markdown_v2(chars@.skip(i as int)) == markdown_v2(chars@),
        decreases chars@.len() - i,
    {
        proof {
            lemma_find_shift(chars@, fence(), i as int, 0);
            lemma_find_from(chars@.skip(i as int), fence(), 0);
        }
        match find(&chars, &marker, i) {
            None => {
                out.push_str(render_inline(&copy_range(&chars, i, chars.len())).as_str());
                assert(chars@.skip(i as int) =~= chars@.subrange(i as int, chars@.len() as int));
                return out;
            },
            Some(start) => {
                i = push_block(&mut out, &chars, i, start);
            },
        }
    }
}

/// The first position not before `from` at which `c` stands in `t` without a backslash in front.
pub open spec fn unescaped(t: Seq<char>, c: char, from: int) -> Option<int>
    decreases t.len() - from + 1,
{
    if from < 0 || from >= t.len() {
        None
    } else if t[from] == '\\' {
        unescaped(t, c, from + 2)
    } else if t[from] == c {
        Some(from)
    } else {
        unescaped(t, c, from + 1)
    }
}

/// Whether MarkdownV2 accepts `t`, read from a point at which a bold run or a link label may be
/// open: outside of code, every reserved character is escaped or is the delimiter of an entity,
/// and every entity is closed.
pub open spec fn accepted(t: Seq<char>, bold: bool, label: bool) -> bool
    decreases t.len(),
    via accepted_decreases
{
    if t.len() == 0 {
        !bold && !label
    } else if t[0] == '\\' {
        t.len() >= 2 && accepted(t.skip(2), bold, label)
    } else if occurs_at(t, fence(), 0) {
        match unescaped(t, '`', 3) {
            Some(end) => occurs_at(t, fence(), end) && accepted(t.skip(end + 3), bold, label),
            None => false,
        }
    } else if t[0] == '`' {
        match unescaped(t, '`', 1) {
            Some(end) => accepted(t.skip(end + 1), bold, label),
            None => false,
        }
    } else if t[0] == '*' {
        accepted(t.skip(1), !bold, label)
    } else if t[0] == '[' {
        !label && accepted(t.skip(1), bold, true)
    } else if t[0] == ']' {
        label && t.len() >= 2 && t[1] == '(' && (match unescaped(t, ')', 2) {
            Some(end) => accepted(t.skip(end + 1), bold, false),
            None => false,
        })
    } else {
        !is_reserved(t[0]) && accepted(t.skip(1), bold, label)
    }
}

#[via_fn]
proof fn accepted_decreases(t: Seq<char>, bold: bool, label: bool) {
    lemma_unescaped(t, '`', 3);
    lemma_unescaped(t, '`', 1);
    lemma_unescaped(t, ')', 2);
}

proof fn lemma_unescaped(t: Seq<char>, c: char, from: int)
    requires
        0 <= from,
    ensures
        unescaped(t, c, from) is Some ==> from <= unescaped(t, c, from)->0 < t.len(),
    decreases t.len() - from + 1,
{
    if from < t.len() {
        lemma_unescaped(t, c, from + 2);
        lemma_unescaped(t, c, from + 1);
    }
}

/// An escaped text hides every copy of the character that would close it.
proof fn lemma_escaped_hides(
    head: Seq<char>,
    s: Seq<char>,
    special: spec_fn(char) -> bool,
    c: char,
    tail: Seq<char>,
)
    requires
        special(c),
        special('\\'),
        c != '\\',
    ensures
        unescaped(head + escaped(s, special) + tail, c, head.len() as int) == unescaped(
            head + escaped(s, special) + tail,
            c,
            (head + escaped(s, special)).len() as int,
        ),
    decreases s.len(),
{
    if s.len() == 0 {
        assert(head + escaped(s, special) =~= head);
    } else {
        let first = s.drop_last();
        let last = if special(s.last()) {
            seq!['\\', s.last()]
        } else {
            seq![s.last()]
        };
        lemma_escaped_hides(head, first, special, c, last + tail);
        let t = head + escaped(s, special) + tail;
        assert(t =~= head + escaped(first, special) + (last + tail));
        let at = (head + escaped(first, special)).len() as int;
        assert(t[at] == last[0]);
        if special(s.last()) {
            assert(unescaped(t, c, at) == unescaped(t, c, at + 2));
        } else {
            assert(unescaped(t, c, at) == unescaped(t, c, at + 1));
        }
    }
}

pub open spec fn lacks(s: Seq<char>, part: Seq<char>) -> bool {
    forall|k: int| !occurs_at(s, part, k)
}

proof fn lemma_lacks_part(s: Seq<char>, part: Seq<char>, from: int, to: int)
    requires
        lacks(s, part),
        0 <= from <= to <= s.len(),
    ensures
        lacks(s.subrange(from, to), part),
{
    let sub = s.subrange(from, to);
    assert forall|k: int| !occurs_at(sub, part, k) by {
        if occurs_at(sub, part, k) {
            assert(s.subrange(from + k, from + k + part.len()) =~= sub.subrange(
                k,
                k + part.len(),
            ));
            assert(occurs_at(s, part, from + k));
        }
    }
}

proof fn lemma_lacks_skip(s: Seq<char>, part: Seq<char>, from: int)
    requires
        lacks(s, part),
        0 <= from <= s.len(),
    ensures
        lacks(s.skip(from), part),
{
    assert(s.skip(from) =~= s.subrange(from, s.len() as int));
    lemma_lacks_part(s, part, from, s.len() as int);
}

/// The first character of a rendering is an unescaped backtick only where the text has one.
proof fn lemma_inline_first(s: Seq<char>)
    requires
        s.len() > 0,
    ensures
        inline(s).len() > 0,
        inline(s)[0] == '`' ==> s[0] == '`',
{
    lemma_ends(s);
    if code_end(s) is Some || bold_end(s) is Some || link_end(s) is Some {
    } else {
        assert(s.take(1).last() == s[0]);
        assert(s.take(1).drop_last() =~= seq![]);
        reveal_with_fuel(escaped, 2);
    }
}

proof fn lemma_escaped_first(s: Seq<char>, special: spec_fn(char) -> bool)
    requires
        s.len() > 0,
    ensures
        escaped(s, special).len() > 0,
        escaped(s, special)[0] == (if special(s[0]) {
            '\\'
        } else {
            s[0]
        }),
    decreases s.len(),
{
    if s.len() > 1 {
        lemma_escaped_first(s.drop_last(), special);
    } else {
        assert(s.drop_last() =~= seq![]);
        reveal_with_fuel(escaped, 2);
    }
}

proof fn lemma_code_step(content: Seq<char>, more: Seq<char>, bold: bool, label: bool)
    requires
        forall|k: int| 0 <= k < content.len() ==> content[k] != '`',
        content.len() > 0 || more.len() == 0 || more[0] != '`',
    ensures
        accepted(
            seq!['`'] + escaped(content, special_in_code()) + seq!['`'] + more,
            bold,
            label,
        ) == accepted(more, bold, label),
{
    let special = special_in_code();
    let head = seq!['`'];
    let esc = escaped(content, special);
    let tail = seq!['`'] + more;
    let t = head + esc + seq!['`'] + more;
    assert(t =~= head + esc + tail);
    lemma_escaped_hides(head, content, special, '`', tail);
    let end = (head + esc).len() as int;
    assert(t[end] == '`');
    assert(unescaped(t, '`', 1) == Some(end));
    assert(t.skip(end + 1) =~= more);
    assert(!occurs_at(t, fence(), 0)) by {
        if occurs_at(t, fence(), 0) {
            assert(t.subrange(0, 3)[1] == t[1]);
            assert(t.subrange(0, 3)[2] == t[2]);
            if content.len() > 0 {
                lemma_escaped_first(content, special);
                assert(t[1] == esc[0]);
            } else {
                assert(esc.len() == 0);
                assert(t[2] == more[0]);
            }
        }
    }
}

proof fn lemma_link_step(url: Seq<char>, more: Seq<char>, bold: bool)
    ensures
        accepted(
            seq![']', '('] + escaped(url, special_in_url()) + seq![')'] + more,
            bold,
            true,
        ) == accepted(more, bold, false),
{
    let special = special_in_url();
    let head = seq![']', '('];
    let esc = escaped(url, special);
    let tail = seq![')'] + more;
    let t = head + esc + seq![')'] + more;
    assert(t =~= head + esc + tail);
    lemma_escaped_hides(head, url, special, ')', tail);
    let end = (head + esc).len() as int;
    assert(t[end] == ')');
    assert(unescaped(t, ')', 2) == Some(end));
    assert(t.skip(end + 1) =~= more);
    assert(!occurs_at(t, fence(), 0)) by {
        if occurs_at(t, fence(), 0) {
            assert(t.subrange(0, 3)[0] == t[0]);
        }
    }
}

proof fn lemma_block_step(body: Seq<char>, more: Seq<char>)
    ensures
        accepted(code_block(body) + more, false, false) == accepted(more, false, false),
{
    reveal_strlit("```\n");
    reveal_strlit("```");
    let special = special_in_code();
    let head = "```\n"@;
    let esc = escaped(body, special);
    let tail = "```"@ + more;
    let t = code_block(body) + more;
    assert(t =~= head + esc + tail);
    lemma_escaped_hides(head, body, special, '`', tail);
    let end = (head + esc).len() as int;
    assert(t[end] == '`');
    assert(t[3] == '\n');
    assert(unescaped(t, '`', 3) == unescaped(t, '`', 4));
    assert(unescaped(t, '`', 3) == Some(end));
    assert(t.subrange(end, end + 3) =~= fence());
    assert(t.subrange(0, 3) =~= fence());
    assert(t.skip(end + 3) =~= more);
}

proof fn lemma_plain_step(c: char, more: Seq<char>, bold: bool, label: bool)
    ensures
        accepted(
            (if is_reserved(c) || c == '\\' {
                seq!['\\', c]
            } else {
                seq![c]
            }) + more,
            bold,
            label,
        ) == accepted(more, bold, label),
{
    let head = if is_reserved(c) || c == '\\' {
        seq!['\\', c]
    } else {
        seq![c]
    };
    let t = head + more;
    assert(t[0] == head[0]);
    assert(t.skip(head.len() as int) =~= more);
    assert(t[0] != '\\' ==> !occurs_at(t, fence(), 0)) by {
        if occurs_at(t, fence(), 0) {
            assert(t.subrange(0, 3)[0] == t[0]);
        }
    }
}

proof fn lemma_mark_step(mark: char, more: Seq<char>, bold: bool, label: bool)
    requires
        mark == '*' || (mark == '[' && !label),
    ensures
        mark == '*' ==> accepted(seq![mark] + more, bold, label) == accepted(more, !bold, label),
        mark == '[' ==> accepted(seq![mark] + more, bold, label) == accepted(more, bold, true),
{
    let t = seq![mark] + more;
    assert(t.skip(1) =~= more);
    assert(!occurs_at(t, fence(), 0)) by {
        if occurs_at(t, fence(), 0) {
            assert(t.subrange(0, 3)[0] == t[0]);
        }
    }
}

/// Rendered inline text leaves what is open as it found it.
#[verifier::rlimit(60)]
proof fn lemma_inline_accepted(s: Seq<char>, rest: Seq<char>, bold: bool, label: bool)
    requires
        lacks(s, fence()),
        bold ==> lacks(s, stars()),
        label ==> forall|k: int| 0 <= k < s.len() ==> s[k] != ']',
        rest.len() == 0 || rest[0] != '`' || s.len() == 0 || s.last() != '`',
    ensures
        accepted(inline(s) + rest, bold, label) == accepted(rest, bold, label),
    decreases s.len(), 1nat,
{
    let t = inline(s) + rest;
    lemma_ends(s);
    if s.len() == 0 {
        assert(t =~= rest);
    } else if let Some(end) = code_end(s) {
        let content = s.subrange(1, end);
        let tail = s.skip(end + 1);
        let more = inline(tail) + rest;
        lemma_tail_accepted(s, end + 1, rest, bold, label);
        assert(t =~= seq!['`'] + escaped(content, special_in_code()) + seq!['`'] + more);
        if content.len() == 0 && more.len() > 0 && more[0] == '`' {
            if tail.len() > 0 {
                lemma_inline_first(tail);
                assert(more[0] == inline(tail)[0]);
                assert(tail[0] == '`');
                assert(s[0] == '`' && s[1] == '`' && s[2] == '`');
                assert(s.subrange(0, 3) =~= fence());
                assert(occurs_at(s, fence(), 0));
            } else {
                assert(inline(tail).len() == 0);
                assert(more =~= rest);
                assert(s.last() == s[end]);
            }
            assert(false);
        }
        lemma_code_step(content, more, bold, label);
    } else if let Some(end) = bold_end(s) {
        let content = s.subrange(2, end);
        let tail = s.skip(end + 2);
        let more = inline(tail) + rest;
        assert(s.subrange(0, 2) =~= stars());
        assert(occurs_at(s, stars(), 0));
        assert(!bold);
        lemma_lacks_part(s, fence(), 2, end);
        assert(lacks(content, stars())) by {
            assert forall|k: int| !occurs_at(content, stars(), k) by {
                if occurs_at(content, stars(), k) {
                    assert(s.subrange(2 + k, 2 + k + 2) =~= content.subrange(k, k + 2));
                    assert(occurs_at(s, stars(), 2 + k));
                }
            }
        }
        let closing = seq!['*'] + more;
        lemma_inline_accepted(content, closing, true, label);
        lemma_mark_step('*', inline(content) + closing, bold, label);
        lemma_mark_step('*', more, true, label);
        lemma_tail_accepted(s, end + 2, rest, bold, label);
        assert(t =~= seq!['*'] + (inline(content) + closing));
    } else if let Some((bracket, paren)) = link_end(s) {
        let text = s.subrange(1, bracket);
        let url = s.subrange(bracket + 2, paren);
        let tail = s.skip(paren + 1);
        let more = inline(tail) + rest;
        assert(!label) by {
            assert(s[bracket] == ']');
        }
        lemma_lacks_part(s, fence(), 1, bracket);
        if bold {
            lemma_lacks_part(s, stars(), 1, bracket);
        }
        let closing = seq![']', '('] + escaped(url, special_in_url()) + seq![')'] + more;
        lemma_inline_accepted(text, closing, bold, true);
        lemma_mark_step('[', inline(text) + closing, bold, label);
        lemma_link_step(url, more, bold);
        lemma_tail_accepted(s, paren + 1, rest, bold, label);
        assert(t =~= seq!['['] + (inline(text) + closing));
    } else {
        let c = s[0];
        let more = inline(s.skip(1)) + rest;
        assert(s.take(1).last() == c);
        assert(s.take(1).drop_last() =~= seq![]);
        let head = if is_reserved(c) || c == '\\' {
            seq!['\\', c]
        } else {
            seq![c]
        };
        assert(escaped(s.take(1), special_in_text()) =~= head) by {
            reveal_with_fuel(escaped, 2);
        }
        lemma_tail_accepted(s, 1, rest, bold, label);
        lemma_plain_step(c, more, bold, label);
        assert(t =~= head + more);
    }
}

proof fn lemma_tail_accepted(s: Seq<char>, from: int, rest: Seq<char>, bold: bool, label: bool)
    requires
        0 < from <= s.len(),
        lacks(s, fence()),
        bold ==> lacks(s, stars()),
        label ==> forall|k: int| 0 <= k < s.len() ==> s[k] != ']',
        rest.len() == 0 || rest[0] != '`' || s.len() == 0 || s.last() != '`',
    ensures
        accepted(inline(s.skip(from)) + rest, bold, label) == accepted(rest, bold, label),
    decreases s.len(), 0nat,
{
    let tail = s.skip(from);
    lemma_lacks_skip(s, fence(), from);
    if bold {
        lemma_lacks_skip(s, stars(), from);
    }
    assert(tail.len() > 0 ==> tail.last() == s.last());
    lemma_inline_accepted(tail, rest, bold, label);
}

/// Whatever text it is given, the conversion yields a message that MarkdownV2 accepts: no
/// reserved character is left unescaped outside of an entity, and no entity is left open.
pub proof fn law_output_is_accepted(s: Seq<char>)
    ensures
        accepted(markdown_v2(s), false, false),
    decreases s.len(),
{
    lemma_fence_parts(s);
    lemma_find_from(s, fence(), 0);
    let none: Seq<char> = seq![];
    match find_from(s, fence(), 0) {
        None => {
            assert(lacks(s, fence())) by {
                assert forall|k: int| !occurs_at(s, fence(), k) by {}
            }
            lemma_inline_accepted(s, none, false, false);
            assert(inline(s) + none =~= inline(s));
        },
        Some(start) => {
            let prose = s.take(start);
            let body = fence_body(s.skip(start + 3));
            assert(lacks(prose, fence())) by {
                assert forall|k: int| !occurs_at(prose, fence(), k) by {
                    if occurs_at(prose, fence(), k) {
                        assert(s.subrange(k, k + 3) =~= prose.subrange(k, k + 3));
                        assert(occurs_at(s, fence(), k));
                    }
                }
            }
            let (code, more) = match find_from(body, fence(), 0) {
                Some(end) => (body.take(end), markdown_v2(body.skip(end + 3))),
                None => (body, none),
            };
            if let Some(end) = find_from(body, fence(), 0) {
                law_output_is_accepted(body.skip(end + 3));
            }
            lemma_block_step(code, more);
            let rest = code_block(code) + more;
            assert(prose.len() == 0 || prose.last() != '`') by {
                if prose.len() > 0 && prose.last() == '`' {
                    let at = start - 1;
                    assert(s.subrange(start, start + 3)[0] == s[start]);
                    assert(s.subrange(start, start + 3)[1] == s[start + 1]);
                    assert(s.subrange(at, at + 3) =~= fence());
                    assert(occurs_at(s, fence(), at));
                }
            }
            lemma_inline_accepted(prose, rest, false, false);
            assert(inline(prose) + rest =~= inline(prose) + code_block(code) + more);
            assert(inline(prose) + code_block(code) + none =~= inline(prose) + code_block(code));
        },
    }
}

/// `t` with every escape replaced by the character that it stands for.
pub open spec fn unescape(t: Seq<char>) -> Seq<char>
    decreases t.len(),
{
    if t.len() == 0 {
        seq![]
    } else if t[0] == '\\' && t.len() >= 2 {
        seq![t[1]] + unescape(t.skip(2))
    } else {
        seq![t[0]] + unescape(t.skip(1))
    }
}

/// Text without any of the markers that start an entity, identifiers with underscores among it,
/// is shown exactly as it was written.
pub proof fn law_plain_text_survives(s: Seq<char>)
    requires
        forall|k: int| 0 <= k < s.len() ==> s[k] != '`' && s[k] != '*' && s[k] != '[',
    ensures
        unescape(markdown_v2(s)) == s,
{
    lemma_find_from(s, fence(), 0);
    if let Some(start) = find_from(s, fence(), 0) {
        assert(s.subrange(start, start + 3)[0] == s[start]);
    }
    lemma_plain_inline(s);
}

proof fn lemma_plain_inline(s: Seq<char>)
    requires
        forall|k: int| 0 <= k < s.len() ==> s[k] != '`' && s[k] != '*' && s[k] != '[',
    ensures
        unescape(inline(s)) == s,
    decreases s.len(),
{
    if s.len() > 0 {
        let c = s[0];
        let tail = s.skip(1);
        lemma_plain_inline(tail);
        assert(s.take(1).last() == c);
        assert(s.take(1).drop_last() =~= seq![]);
        let head = if is_reserved(c) || c == '\\' {
            seq!['\\', c]
        } else {
            seq![c]
        };
        assert(escaped(s.take(1), special_in_text()) =~= head) by {
            reveal_with_fuel(escaped, 2);
        }
        let t = inline(s);
        assert(t == head + inline(tail));
        assert(t.skip(head.len() as int) =~= inline(tail));
        assert(unescape(t) =~= s);
    }
}

/// Escaping works character by character from the front as well.
proof fn lemma_escaped_cons(s: Seq<char>, special: spec_fn(char) -> bool)
    requires
        s.len() > 0,
    ensures
        escaped(s, special) == (if special(s[0]) {
            seq!['\\', s[0]]
        } else {
            seq![s[0]]
        }) + escaped(s.skip(1), special),
    decreases s.len(),
{
    if s.len() == 1 {
        assert(s.drop_last() =~= seq![]);
        assert(s.skip(1) =~= seq![]);
        reveal_with_fuel(escaped, 2);
        assert(escaped(s, special) =~= (if special(s[0]) {
            seq!['\\', s[0]]
        } else {
            seq![s[0]]
        }) + escaped(s.skip(1), special));
    } else {
        lemma_escaped_cons(s.drop_last(), special);
        assert(s.drop_last().skip(1) =~= s.skip(1).drop_last());
        assert(s.skip(1).last() == s.last());
        assert(escaped(s, special) =~= (if special(s[0]) {
            seq!['\\', s[0]]
        } else {
            seq![s[0]]
        }) + escaped(s.skip(1), special));
    }
}

/// What was escaped reads back, as long as the escape character itself is escaped.
proof fn lemma_unescape_escaped(s: Seq<char>, special: spec_fn(char) -> bool)
    requires
        special('\\'),
    ensures
        unescape(escaped(s, special)) == s,
    decreases s.len(),
{
    if s.len() > 0 {
        lemma_escaped_cons(s, special);
        lemma_unescape_escaped(s.skip(1), special);
        let head = if special(s[0]) {
            seq!['\\', s[0]]
        } else {
            seq![s[0]]
        };
        let t = escaped(s, special);
        assert(t.skip(head.len() as int) =~= escaped(s.skip(1), special));
        assert(unescape(t) =~= s);
    }
}

/// A text whose copies of a marker all stand behind `at`, where one stands, is split there.
proof fn lemma_found_at(s: Seq<char>, part: Seq<char>, from: int, at: int)
    requires
        0 <= from <= at,
        occurs_at(s, part, at),
        forall|k: int| from <= k < at ==> !occurs_at(s, part, k),
    ensures
        find_from(s, part, from) == Some(at),
{
    lemma_find_from(s, part, from);
}

/// A marker of one character over and over does not stand in a text in front of itself when the
/// text neither holds it nor ends with its character.
proof fn lemma_marker_first(text: Seq<char>, marker: Seq<char>, rest: Seq<char>)
    requires
        lacks(text, marker),
        marker.len() > 0,
        forall|k: int| 0 <= k < marker.len() ==> #[trigger] marker[k] == marker[0],
        text.len() == 0 || text.last() != marker[0],
    ensures
        find_from(text + marker + rest, marker, 0) == Some(text.len() as int),
{
    let s = text + marker + rest;
    assert(s.subrange(text.len() as int, text.len() as int + marker.len()) =~= marker);
    assert forall|k: int| 0 <= k < text.len() implies !occurs_at(s, marker, k) by {
        if occurs_at(s, marker, k) {
            let found = s.subrange(k, k + marker.len());
            if k + marker.len() <= text.len() {
                assert(text.subrange(k, k + marker.len()) =~= found);
                assert(occurs_at(text, marker, k));
            } else {
                assert(found[text.len() - 1 - k] == text.last());
                assert(marker[text.len() - 1 - k] == marker[0]);
            }
        }
    }
    lemma_found_at(s, marker, 0, text.len() as int);
}

/// A text that is not a marker's start is rendered on its own, whatever follows it.
proof fn lemma_plain_front(p: Seq<char>, rest: Seq<char>)
    requires
        forall|k: int| 0 <= k < p.len() ==> p[k] != '`' && p[k] != '*' && p[k] != '[',
    ensures
        inline(p + rest) == inline(p) + inline(rest),
    decreases p.len(),
{
    if p.len() == 0 {
        assert(p + rest =~= rest);
        assert(inline(p) + inline(rest) =~= inline(rest));
    } else {
        let s = p + rest;
        lemma_plain_front(p.skip(1), rest);
        assert(s.skip(1) =~= p.skip(1) + rest);
        assert(s.take(1) =~= p.take(1));
        assert(inline(s) =~= inline(p) + inline(rest));
    }
}

/// Text survives around a code block: a fence with its info string, some code and a closing fence
/// cut a text in two. What stands in front is rendered as it would be alone, the block holds the
/// code as it was written, and what stands behind is rendered as it would be alone. Only the info
/// string is lost.
pub proof fn law_text_survives_around_code_blocks(
    front: Seq<char>,
    info: Seq<char>,
    code: Seq<char>,
    back: Seq<char>,
)
    requires
        lacks(front, "```"@),
        front.len() == 0 || front.last() != '`',
        !info.contains('\n'),
        lacks(code, "```"@),
        code.len() == 0 || code.last() != '`',
    ensures
        exists|shown: Seq<char>| #[trigger]
            unescape(shown) == code && markdown_v2(
                front + "```"@ + info + "\n"@ + code + "```"@ + back,
            ) == markdown_v2(front) + "```\n"@ + shown + "```"@ + markdown_v2(back),
{
    reveal_strlit("```");
    reveal_strlit("\n");
    assert("```"@ =~= fence());
    let s = front + "```"@ + info + "\n"@ + code + "```"@ + back;
    let after = info + "\n"@ + code + "```"@ + back;
    assert(s =~= front + fence() + after);
    lemma_marker_first(front, fence(), after);
    let start = front.len() as int;
    assert(s.take(start) =~= front);
    assert(s.skip(start + 3) =~= after);
    lemma_index_from(after, '\n', 0);
    assert(after[info.len() as int] == '\n');
    assert(index_from(after, '\n', 0) == Some(info.len() as int)) by {
        let at = index_from(after, '\n', 0)->0;
        if at < info.len() {
            assert(info[at] == '\n');
        }
    }
    let body = fence_body(after);
    assert(body =~= code + fence() + back);
    lemma_marker_first(code, fence(), back);
    let end = code.len() as int;
    assert(body.take(end) =~= code);
    assert(body.skip(end + 3) =~= back);
    let shown = escaped(code, special_in_code());
    lemma_unescape_escaped(code, special_in_code());
    lemma_find_from(front, fence(), 0);
    assert(find_from(front, fence(), 0) is None);
    assert(markdown_v2(front) == inline(front));
    assert(markdown_v2(s) == inline(front) + code_block(code) + markdown_v2(back));
    assert(markdown_v2(s) =~= markdown_v2(front) + "```\n"@ + shown + "```"@ + markdown_v2(back));
}

/// A fence that is never closed makes the rest of the text code: it is shown as it was written, in a
/// block that is closed.
pub proof fn law_open_fences_make_the_rest_code(
    front: Seq<char>,
    info: Seq<char>,
    code: Seq<char>,
)
    requires
        lacks(front, "```"@),
        front.len() == 0 || front.last() != '`',
        !info.contains('\n'),
        lacks(code, "```"@),
    ensures
        exists|shown: Seq<char>| #[trigger]
            unescape(shown) == code && markdown_v2(front + "```"@ + info + "\n"@ + code)
                == markdown_v2(front) + "```\n"@ + shown + "```"@,
{
    reveal_strlit("```");
    reveal_strlit("\n");
    assert("```"@ =~= fence());
    let s = front + "```"@ + info + "\n"@ + code;
    let after = info + "\n"@ + code;
    assert(s =~= front + fence() + after);
    lemma_marker_first(front, fence(), after);
    let start = front.len() as int;
    assert(s.take(start) =~= front);
    assert(s.skip(start + 3) =~= after);
    lemma_index_from(after, '\n', 0);
    assert(after[info.len() as int] == '\n');
    assert(index_from(after, '\n', 0) == Some(info.len() as int)) by {
        let at = index_from(after, '\n', 0)->0;
        if at < info.len() {
            assert(info[at] == '\n');
        }
    }
    let body = fence_body(after);
    assert(body =~= code);
    lemma_find_from(code, fence(), 0);
    let shown = escaped(code, special_in_code());
    lemma_unescape_escaped(code, special_in_code());
    lemma_find_from(front, fence(), 0);
    assert(markdown_v2(s) == inline(front) + code_block(code));
    assert(markdown_v2(s) =~= markdown_v2(front) + "```\n"@ + shown + "```"@);
}

/// Text survives around a code span: what stands in front is rendered as it would be alone, the
/// span holds its code as it was written, and what stands behind is rendered as it would be alone.
pub proof fn law_text_survives_around_code_spans(front: Seq<char>, code: Seq<char>, back: Seq<char>)
    requires
        forall|k: int| 0 <= k < front.len() ==> front[k] != '`' && front[k] != '*' && front[k]
            != '[',
        !code.contains('`'),
        lacks(front + "`"@ + code + "`"@ + back, "```"@),
    ensures
        exists|shown: Seq<char>| #[trigger]
            unescape(shown) == code && markdown_v2(front + "`"@ + code + "`"@ + back)
                == markdown_v2(front) + "`"@ + shown + "`"@ + markdown_v2(back),
{
    reveal_strlit("```");
    reveal_strlit("`");
    assert("```"@ =~= fence());
    assert("`"@ =~= seq!['`']);
    let s = front + "`"@ + code + "`"@ + back;
    let rest = "`"@ + code + "`"@ + back;
    assert(s =~= front + rest);
    lemma_parts_lack(front, rest, back);
    lemma_plain_front(front, rest);
    lemma_index_from(rest, '`', 1);
    assert(rest[code.len() + 1int] == '`');
    assert(code_end(rest) == Some(code.len() + 1int)) by {
        let at = code_end(rest)->0;
        if at < code.len() + 1int {
            assert(code[at - 1] == '`');
        }
    }
    assert(rest.subrange(1, code.len() + 1int) =~= code);
    assert(rest.skip(code.len() + 2int) =~= back);
    let shown = escaped(code, special_in_code());
    lemma_unescape_escaped(code, special_in_code());
    assert(inline(rest) == seq!['`'] + shown + seq!['`'] + inline(back));
    assert(markdown_v2(s) =~= markdown_v2(front) + "`"@ + shown + "`"@ + markdown_v2(back));
}

/// A text without a fence has none in its parts either.
proof fn lemma_parts_lack(front: Seq<char>, rest: Seq<char>, back: Seq<char>)
    requires
        lacks(front + rest, fence()),
        back.len() <= rest.len(),
        rest.skip(rest.len() - back.len()) =~= back,
    ensures
        markdown_v2(front + rest) == inline(front + rest),
        markdown_v2(front) == inline(front),
        markdown_v2(back) == inline(back),
{
    let s = front + rest;
    lemma_find_from(s, fence(), 0);
    assert(s.subrange(0, front.len() as int) =~= front);
    lemma_lacks_part(s, fence(), 0, front.len() as int);
    lemma_find_from(front, fence(), 0);
    assert(s.skip(s.len() - back.len()) =~= back);
    lemma_lacks_skip(s, fence(), s.len() - back.len());
    lemma_find_from(back, fence(), 0);
}

/// Text survives in and around bold text: what stands in front, in between and behind is rendered as
/// it would be alone, and the pairs of stars become single ones.
pub proof fn law_text_survives_around_bold(front: Seq<char>, bold: Seq<char>, back: Seq<char>)
    requires
        forall|k: int| 0 <= k < front.len() ==> front[k] != '`' && front[k] != '*' && front[k]
            != '[',
        lacks(bold, "**"@),
        bold.len() == 0 || bold.last() != '*',
        lacks(front + "**"@ + bold + "**"@ + back, "```"@),
    ensures
        markdown_v2(front + "**"@ + bold + "**"@ + back) == markdown_v2(front) + "*"@ + markdown_v2(
            bold,
        ) + "*"@ + markdown_v2(back),
{
    reveal_strlit("```");
    reveal_strlit("**");
    reveal_strlit("*");
    assert("```"@ =~= fence());
    assert("**"@ =~= stars());
    assert("*"@ =~= seq!['*']);
    let s = front + "**"@ + bold + "**"@ + back;
    let rest = stars() + bold + stars() + back;
    assert(s =~= front + rest);
    lemma_parts_lack(front, rest, back);
    lemma_plain_front(front, rest);
    assert(s.subrange(front.len() + 2int, front.len() + 2int + bold.len()) =~= bold);
    lemma_lacks_part(s, fence(), front.len() + 2int, front.len() + 2int + bold.len());
    lemma_find_from(bold, fence(), 0);
    let tail = rest.skip(2);
    assert(tail =~= bold + stars() + back);
    lemma_marker_first(bold, stars(), back);
    lemma_find_shift(rest, stars(), 2, 0);
    assert(bold_end(rest) == Some(bold.len() + 2int));
    assert(code_end(rest) is None);
    assert(rest.subrange(2, bold.len() + 2int) =~= bold);
    assert(rest.skip(bold.len() + 4int) =~= back);
    assert(inline(rest) == seq!['*'] + inline(bold) + seq!['*'] + inline(back));
    assert(markdown_v2(s) =~= markdown_v2(front) + "*"@ + markdown_v2(bold) + "*"@ + markdown_v2(
        back,
    ));
}

/// Text survives in and around a link: what stands in front, in the label and behind is rendered as
/// it would be alone, and the target is the one that was written.
#[verifier::rlimit(50)]
pub proof fn law_text_survives_around_links(
    front: Seq<char>,
    label: Seq<char>,
    target: Seq<char>,
    back: Seq<char>,
)
    requires
        forall|k: int| 0 <= k < front.len() ==> front[k] != '`' && front[k] != '*' && front[k]
            != '[',
        !label.contains(']'),
        !target.contains(')'),
        lacks(front + "["@ + label + "]("@ + target + ")"@ + back, "```"@),
    ensures
        exists|shown: Seq<char>| #[trigger]
            unescape(shown) == target && markdown_v2(
                front + "["@ + label + "]("@ + target + ")"@ + back,
            ) == markdown_v2(front) + "["@ + markdown_v2(label) + "]("@ + shown + ")"@
                + markdown_v2(back),
{
    reveal_strlit("```");
    reveal_strlit("[");
    reveal_strlit("](");
    reveal_strlit(")");
    assert("```"@ =~= fence());
    assert("["@ =~= seq!['[']);
    assert("]("@ =~= seq![']', '(']);
    assert(")"@ =~= seq![')']);
    let s = front + "["@ + label + "]("@ + target + ")"@ + back;
    let rest = seq!['['] + label + seq![']', '('] + target + seq![')'] + back;
    assert(s =~= front + rest);
    lemma_parts_lack(front, rest, back);
    lemma_plain_front(front, rest);
    assert(s.subrange(front.len() + 1int, front.len() + 1int + label.len()) =~= label);
    lemma_lacks_part(s, fence(), front.len() + 1int, front.len() + 1int + label.len());
    lemma_find_from(label, fence(), 0);
    let bracket = label.len() + 1int;
    let paren = bracket + 2 + target.len();
    lemma_index_from(rest, ']', 1);
    assert(rest[bracket] == ']');
    assert(rest[bracket + 1] == '(');
    assert(index_from(rest, ']', 1) == Some(bracket)) by {
        let at = index_from(rest, ']', 1)->0;
        if at < bracket {
            assert(label[at - 1] == ']');
        }
    }
    lemma_index_from(rest, ')', bracket + 2);
    assert(rest[paren] == ')');
    assert(index_from(rest, ')', bracket + 2) == Some(paren)) by {
        let at = index_from(rest, ')', bracket + 2)->0;
        if at < paren {
            assert(target[at - bracket - 2] == ')');
        }
    }
    assert(link_end(rest) == Some((bracket, paren)));
    assert(code_end(rest) is None && bold_end(rest) is None);
    assert(rest.subrange(1, bracket) =~= label);
    assert(rest.subrange(bracket + 2, paren) =~= target);
    assert(rest.skip(paren + 1) =~= back);
    let shown = escaped(target, special_in_url());
    lemma_unescape_escaped(target, special_in_url());
    assert(inline(rest) == seq!['['] + inline(label) + seq![']', '('] + shown + seq![')'] + inline(
        back,
    ));
    assert(markdown_v2(s) =~= markdown_v2(front) + "["@ + markdown_v2(label) + "]("@ + shown
        + ")"@ + markdown_v2(back));
}

/// A character that means something in MarkdownV2 is escaped where it stands for itself, and any other
/// is left alone; the text in front and behind is rendered as it would be alone.
pub proof fn law_reserved_characters_are_escaped(front: Seq<char>, c: char, back: Seq<char>)
    requires
        forall|k: int| 0 <= k < front.len() ==> front[k] != '`' && front[k] != '*' && front[k]
            != '[',
        c != '`' && c != '*' && c != '[',
        lacks(front + seq![c] + back, "```"@),
    ensures
        c == '_' || c == ']' || c == '(' || c == ')' || c == '~' || c == '>' || c == '#' || c == '+'
            || c == '-' || c == '=' || c == '|' || c == '{' || c == '}' || c == '.' || c == '!' || c
            == '\\' ==> markdown_v2(front + seq![c] + back) == markdown_v2(front) + seq!['\\', c]
            + markdown_v2(back),
        !(c == '_' || c == ']' || c == '(' || c == ')' || c == '~' || c == '>' || c == '#' || c
            == '+' || c == '-' || c == '=' || c == '|' || c == '{' || c == '}' || c == '.' || c
            == '!' || c == '\\') ==> markdown_v2(front + seq![c] + back) == markdown_v2(front)
            + seq![c] + markdown_v2(back),
{
    reveal_strlit("```");
    assert("```"@ =~= fence());
    let s = front + seq![c] + back;
    let rest = seq![c] + back;
    assert(s =~= front + rest);
    assert(rest.skip(1) =~= back);
    lemma_parts_lack(front, rest, back);
    lemma_plain_front(front, rest);
    assert(rest.take(1) =~= seq![c]);
    assert(seq![c].drop_last() =~= seq![]);
    reveal_with_fuel(escaped, 2);
    let shown = escaped(seq![c], special_in_text());
    assert(inline(rest) == shown + inline(back));
    assert(shown =~= if is_reserved(c) || c == '\\' {
        seq!['\\', c]
    } else {
        seq![c]
    });
    assert(markdown_v2(s) =~= markdown_v2(front) + shown + markdown_v2(back));
}

/// A marker that starts nothing stands for itself: a star, a bracket or a backtick without its
/// counterpart behind it is escaped like any other reserved character.
pub proof fn law_lone_markers_are_escaped(front: Seq<char>, c: char, back: Seq<char>)
    requires
        forall|k: int| 0 <= k < front.len() ==> front[k] != '`' && front[k] != '*' && front[k]
            != '[',
        c == '`' || c == '*' || c == '[',
        forall|k: int| 0 <= k < back.len() ==> back[k] != '`' && back[k] != '*' && back[k] != ']',
        lacks(front + seq![c] + back, "```"@),
    ensures
        markdown_v2(front + seq![c] + back) == markdown_v2(front) + seq!['\\', c] + markdown_v2(
            back,
        ),
{
    reveal_strlit("```");
    assert("```"@ =~= fence());
    let s = front + seq![c] + back;
    let rest = seq![c] + back;
    assert(s =~= front + rest);
    assert(rest.skip(1) =~= back);
    lemma_parts_lack(front, rest, back);
    lemma_plain_front(front, rest);
    lemma_index_from(rest, '`', 1);
    lemma_index_from(rest, ']', 1);
    assert(code_end(rest) is None) by {
        if let Some(at) = code_end(rest) {
            assert(rest[at] == back[at - 1]);
        }
    }
    assert(bold_end(rest) is None) by {
        if rest.len() > 1 {
            assert(rest[1] == back[0]);
        }
    }
    assert(link_end(rest) is None) by {
        if let Some(at) = index_from(rest, ']', 1) {
            assert(rest[at] == back[at - 1]);
        }
    }
    assert(rest.take(1) =~= seq![c]);
    assert(seq![c].drop_last() =~= seq![]);
    reveal_with_fuel(escaped, 2);
    let shown = escaped(seq![c], special_in_text());
    assert(inline(rest) == shown + inline(back));
    assert(shown =~= seq!['\\', c]);
    assert(markdown_v2(s) =~= markdown_v2(front) + shown + markdown_v2(back));
}

} // verus!
