//! Cutting a long Markdown message into pieces that fit into one Telegram message each and stay
//! valid Markdown on their own.
use vstd::prelude::*;
use vstd::string::*;

use crate::text::{
    copy_range, from_chars, index_from, index_of, lemma_index_from, matches_at, occurs_at, texts,
    to_chars, trim_start,
};

verus! {

/// The fenced-code-block marker.
pub const CODE_FENCE: &'static str = "```";

/// Which inline entities are open at some point of a line.
pub struct Inline {
    pub code: bool,
    pub bold: bool,
    pub link: Link,
}

/// How far into a `[label](url)` link a point of a line is.
#[derive(Clone, Copy, PartialEq, Eq, Structural)]
pub enum Link {
    Outside,
    Label,
    Target,
}

/// Nothing is open at the start of a text.
pub open spec fn nothing_open() -> Inline {
    Inline { code: false, bold: false, link: Link::Outside }
}

pub open spec fn is_closed(open: Inline) -> bool {
    !open.code && !open.bold && open.link == Link::Outside
}

/// Whether the character at `at` starts a two-character marker outside of inline code.
pub open spec fn starts_marker(s: Seq<char>, at: int, open: Inline) -> bool {
    &&& !open.code
    &&& at + 1 < s.len()
    &&& (s[at] == '*' && s[at + 1] == '*') || (open.link == Link::Label && s[at] == ']' && s[at + 1]
        == '(')
}

/// How many characters are read at once at `at`.
pub open spec fn marker_len(s: Seq<char>, at: int, open: Inline) -> int {
    if s[at] != '`' && starts_marker(s, at, open) {
        2
    } else {
        1
    }
}

/// What is open after the character or marker at `at`.
pub open spec fn after_marker(s: Seq<char>, at: int, open: Inline) -> Inline {
    let c = s[at];
    if c == '`' {
        Inline { code: !open.code, ..open }
    } else if open.code {
        open
    } else if starts_marker(s, at, open) {
        if c == '*' {
            Inline { bold: !open.bold, ..open }
        } else {
            Inline { link: Link::Target, ..open }
        }
    } else if open.link == Link::Outside && c == '[' {
        Inline { link: Link::Label, ..open }
    } else if open.link == Link::Label && c == '\n' {
        Inline { link: Link::Outside, ..open }
    } else if open.link == Link::Target && c == ')' {
        Inline { link: Link::Outside, ..open }
    } else {
        open
    }
}

/// The point after the last space that is read in `from..limit`; with `closed`, only spaces at
/// which no inline entity is open count.
pub open spec fn last_space(
    s: Seq<char>,
    from: int,
    limit: int,
    open: Inline,
    closed: bool,
    found: Option<int>,
) -> Option<int>
    decreases limit - from + 1,
{
    if from < 0 || from >= limit || limit > s.len() {
        found
    } else {
        let next = after_marker(s, from, open);
        let found_here = if s[from] == ' ' && (!closed || is_closed(next)) {
            Some(from + 1)
        } else {
            found
        };
        last_space(s, from + marker_len(s, from, open), limit, next, closed, found_here)
    }
}

/// How many characters of `s` to keep when only `limit` fit: up to the last space with nothing
/// open, else up to the last space, else all that fit.
pub open spec fn break_point(s: Seq<char>, limit: int) -> int {
    let limit = if limit < s.len() {
        limit
    } else {
        s.len() as int
    };
    match last_space(s, 0, limit, nothing_open(), true, None) {
        Some(at) => at,
        None => match last_space(s, 0, limit, nothing_open(), false, None) {
            Some(at) => at,
            None => limit,
        },
    }
}

proof fn lemma_last_space_bounds(
    s: Seq<char>,
    from: int,
    limit: int,
    open: Inline,
    closed: bool,
    found: Option<int>,
)
    requires
        0 <= from,
        limit <= s.len(),
        found is Some ==> 0 < found->0 <= limit,
    ensures
        ({
            let r = last_space(s, from, limit, open, closed, found);
            r is Some ==> 0 < r->0 <= limit
        }),
    decreases limit - from + 1,
{
    if from < limit {
        let next = after_marker(s, from, open);
        let found_here = if s[from] == ' ' && (!closed || is_closed(next)) {
            Some(from + 1)
        } else {
            found
        };
        lemma_last_space_bounds(
            s,
            from + marker_len(s, from, open),
            limit,
            next,
            closed,
            found_here,
        );
    }
}

/// A break point never keeps more than the limit, nor more than there is.
pub proof fn lemma_break_point(s: Seq<char>, limit: int)
    requires
        0 <= limit,
    ensures
        0 <= break_point(s, limit) <= limit,
        break_point(s, limit) <= s.len(),
{
    let limit = if limit < s.len() {
        limit
    } else {
        s.len() as int
    };
    lemma_last_space_bounds(s, 0, limit, nothing_open(), true, None);
    lemma_last_space_bounds(s, 0, limit, nothing_open(), false, None);
}

/// How many characters of `chars` to keep when the whole of it does not fit in `limit`. Prefers
/// the last space at which no inline code span, `**bold**` run or `[label](url)` link is open, so
/// the piece carried into the next chunk is not the tail of a half-written entity; falls back to
/// the last space of any kind, and then to `limit` itself for an unbroken token.
pub fn safe_break(chars: &Vec<char>, limit: usize) -> (r: usize)
    ensures
        r == break_point(chars@, limit as int),
        r <= limit,
        r <= chars@.len(),
{
    proof {
        lemma_break_point(chars@, limit as int);
    }
    let limit: usize = if limit < chars.len() {
        limit
    } else {
        chars.len()
    };
    let mut open = Inline { code: false, bold: false, link: Link::Outside };
    let mut any_space: Option<usize> = None;
    let mut closed_space: Option<usize> = None;
    let mut index: usize = 0;
    let ghost all_closed = last_space(chars@, 0, limit as int, nothing_open(), true, None);
    let ghost all_any = last_space(chars@, 0, limit as int, nothing_open(), false, None);
    while index < limit
        invariant
            limit <= chars.len(),
            index <= limit + 1,
            all_closed == last_space(
                chars@,
                index as int,
                limit as int,
                open,
                true,
                as_position(closed_space),
            ),
            all_any == last_space(
                chars@,
                index as int,
                limit as int,
                open,
                false,
                as_position(any_space),
            ),
        decreases limit + 1 - index,
    {
        let c = chars[index];
        let ghost open_before = open;
        let ghost index_before = index as int;
        let mut step: usize = 1;
        if c == '`' {
            open.code = !open.code;
        } else if !open.code {
            let following: Option<char> = if index + 1 < chars.len() {
                Some(chars[index + 1])
            } else {
                None
            };
            if c == '*' && following == Some('*') {
                open.bold = !open.bold;
                step = 2;
            } else {
                match open.link {
                    Link::Outside => {
                        if c == '[' {
                            open.link = Link::Label;
                        }
                    },
                    Link::Label => {
                        if c == ']' && following == Some('(') {
                            open.link = Link::Target;
                            step = 2;
                        } else if c == '\n' {
                            open.link = Link::Outside;
                        }
                    },
                    Link::Target => {
                        if c == ')' {
                            open.link = Link::Outside;
                        }
                    },
                }
            }
        }
        assert(open == after_marker(chars@, index_before, open_before));
        assert(step == marker_len(chars@, index_before, open_before));
        if c == ' ' {
            any_space = Some(index + 1);
            if !open.code && !open.bold && open.link == Link::Outside {
                closed_space = Some(index + 1);
            }
        }
        index = index + step;
    }
    match closed_space {
        Some(at) => at,
        None => match any_space {
            Some(at) => at,
            None => limit,
        },
    }
}

pub open spec fn as_position(at: Option<usize>) -> Option<int> {
    match at {
        Some(n) => Some(n as int),
        None => None,
    }
}

/// One chunk: a re-opened fence, the message text it carries, and the marker that closes a fence
/// left open at its end.
#[verifier::ext_equal]
pub struct Piece {
    pub opening: Seq<char>,
    pub body: Seq<char>,
    pub closing: Seq<char>,
}

pub open spec fn piece_text(piece: Piece) -> Seq<char> {
    piece.opening + piece.body + piece.closing
}

pub open spec fn piece_texts(pieces: Seq<Piece>) -> Seq<Seq<char>> {
    Seq::new(pieces.len(), |i: int| piece_text(pieces[i]))
}

/// The state of a message half cut: the pieces that are done, the piece being written, and the
/// fence line of the code block being written, if any.
#[verifier::ext_equal]
pub struct Pen {
    pub pieces: Seq<Piece>,
    pub opening: Seq<char>,
    pub body: Seq<char>,
    pub fence: Option<Seq<char>>,
}

pub open spec fn new_pen() -> Pen {
    Pen { pieces: seq![], opening: seq![], body: seq![], fence: None }
}

/// The characters that a chunk holds back for the marker that closes its fence.
pub open spec fn reserved(pen: Pen) -> int {
    if pen.fence is Some {
        4
    } else {
        0
    }
}

/// The characters that still fit into the piece being written.
pub open spec fn room_left(pen: Pen, max: int) -> int {
    let left = max - reserved(pen) - (pen.opening.len() + pen.body.len());
    if left < 0 {
        0
    } else {
        left
    }
}

/// Ends the piece being written, if it carries any text: closes an open fence and re-opens it in
/// the next piece.
pub open spec fn flushed(pen: Pen) -> Pen {
    if pen.body.len() == 0 {
        pen
    } else {
        match pen.fence {
            None => Pen {
                pieces: pen.pieces.push(
                    Piece { opening: pen.opening, body: pen.body, closing: seq![] },
                ),
                opening: seq![],
                body: seq![],
                fence: None,
            },
            Some(fence) => Pen {
                pieces: pen.pieces.push(
                    Piece {
                        opening: pen.opening,
                        body: pen.body,
                        closing: if pen.body.last() == '\n' {
                            CODE_FENCE@
                        } else {
                            seq!['\n'] + CODE_FENCE@
                        },
                    },
                ),
                opening: fence.push('\n'),
                body: seq![],
                fence: Some(fence),
            },
        }
    }
}

/// How much of a text that does not fit into an empty piece goes into it: at least one character.
pub open spec fn cut_len(s: Seq<char>, room: int) -> int {
    let at = break_point(s, room);
    if at < 1 {
        1
    } else {
        at
    }
}

/// Writes a text, ending pieces as often as the limit requires.
pub open spec fn text_written(pen: Pen, s: Seq<char>, max: int) -> Pen
    decreases s.len(), pen.body.len(),
{
    let room = room_left(pen, max);
    if s.len() == 0 {
        pen
    } else if s.len() <= room {
        Pen { body: pen.body + s, ..pen }
    } else if pen.body.len() > 0 {
        text_written(flushed(pen), s, max)
    } else {
        let take = cut_len(s, room);
        if take <= s.len() {
            text_written(
                flushed(Pen { body: pen.body + s.take(take), ..pen }),
                s.skip(take),
                max,
            )
        } else {
            pen
        }
    }
}

/// Whether a line opens or closes a fenced code block.
pub open spec fn is_fence_line(line: Seq<char>) -> bool {
    occurs_at(trim_start(line), CODE_FENCE@, 0)
}

/// A line without its newline.
pub open spec fn without_newline(line: Seq<char>) -> Seq<char> {
    if line.len() > 0 && line.last() == '\n' {
        line.drop_last()
    } else {
        line
    }
}

/// Where the marker of a fence line ends.
pub open spec fn marker_end(line: Seq<char>) -> int {
    line.len() - trim_start(line).len() + 3
}

/// Writes the line that closes a fence. Where it does not fit, what stands behind its marker goes
/// into the next piece; where nothing does, or where that would itself look like a fence line, the
/// fence is re-opened in the next piece and the whole line goes there.
pub open spec fn line_closed(pen: Pen, line: Seq<char>, max: int) -> Pen {
    let left = Pen { fence: None, ..pen };
    let at = marker_end(line);
    let behind = line.skip(at);
    if line.len() <= room_left(left, max) {
        Pen { body: pen.body + line, ..left }
    } else if at <= room_left(left, max) && trim_start(behind).len() > 0 && !is_fence_line(behind) {
        text_written(Pen { body: pen.body + line.take(at), ..left }, behind, max)
    } else {
        text_written(Pen { fence: None, ..flushed(pen) }, line, max)
    }
}

/// Writes one line. The line that opens a fence starts a new piece where there would be no room
/// left to close the fence again.
pub open spec fn line_written(pen: Pen, line: Seq<char>, max: int) -> Pen {
    if !is_fence_line(line) {
        text_written(pen, line, max)
    } else if pen.fence is Some {
        line_closed(pen, line, max)
    } else {
        let start = if line.len() + 4 > room_left(pen, max) {
            flushed(pen)
        } else {
            pen
        };
        Pen { fence: Some(without_newline(line)), ..text_written(start, line, max) }
    }
}

pub open spec fn lines_written(pen: Pen, lines: Seq<Seq<char>>, max: int) -> Pen
    decreases lines.len(),
{
    if lines.len() == 0 {
        pen
    } else {
        line_written(lines_written(pen, lines.drop_last(), max), lines.last(), max)
    }
}

/// The lines of `s`, each with its newline.
pub open spec fn lines_inclusive(s: Seq<char>) -> Seq<Seq<char>>
    decreases s.len(),
{
    if s.len() == 0 {
        seq![]
    } else {
        match index_from(s, '\n', 0) {
            Some(at) => if 0 <= at < s.len() {
                seq![s.take(at + 1)] + lines_inclusive(s.skip(at + 1))
            } else {
                seq![s]
            },
            None => seq![s],
        }
    }
}

/// The pieces of a half-cut message, the one being written included where it carries any text.
pub open spec fn finished(pen: Pen) -> Seq<Piece> {
    if pen.body.len() > 0 {
        pen.pieces.push(Piece { opening: pen.opening, body: pen.body, closing: seq![] })
    } else {
        pen.pieces
    }
}

pub open spec fn at_least_one(max: int) -> int {
    if max < 1 {
        1
    } else {
        max
    }
}

/// The pieces that a message is cut into.
pub open spec fn pieces_of(message: Seq<char>, max: int) -> Seq<Piece> {
    finished(lines_written(new_pen(), lines_inclusive(message), at_least_one(max)))
}

/// Accumulates lines into chunks for `message_chunks`, keeping track of the code fence a chunk
/// boundary would otherwise leave hanging open.
struct ChunkWriter {
    max_chars: usize,
    chunks: Vec<String>,
    current: Vec<char>,
    /// The opening fence line (with its info string, without its newline) of the block being
    /// written, if any.
    fence: Option<Vec<char>>,
    /// Characters of `current` that are a re-opened fence rather than message content, so an
    /// only-a-fence chunk is never emitted and never counts as progress.
    seed: usize,
    pieces: Ghost<Seq<Piece>>,
}

impl ChunkWriter {
    spec fn pen(&self) -> Pen {
        Pen {
            pieces: self.pieces@,
            opening: self.current@.take(self.seed as int),
            body: self.current@.skip(self.seed as int),
            fence: match self.fence {
                Some(fence) => Some(fence@),
                None => None,
            },
        }
    }

    spec fn wf(&self) -> bool {
        &&& self.max_chars >= 1
        &&& self.seed <= self.current@.len()
        &&& texts(self.chunks@) == piece_texts(self.pieces@)
    }

    /// Characters still available in this chunk, holding back room for the closing fence a split
    /// inside a code block has to append.
    fn room(&self) -> (r: usize)
        requires
            self.wf(),
        ensures
            r == room_left(self.pen(), self.max_chars as int),
    {
        let reserved: usize = if self.fence.is_some() {
            4
        } else {
            0
        };
        let left: usize = if self.max_chars < reserved {
            0
        } else {
            self.max_chars - reserved
        };
        if left < self.current.len() {
            0
        } else {
            left - self.current.len()
        }
    }

    /// Emits the current chunk, closing an open fence, and seeds the next chunk by re-opening it.
    fn flush(&mut self)
        requires
            old(self).wf(),
        ensures
            final(self).wf(),
            final(self).pen() == flushed(old(self).pen()),
            final(self).max_chars == old(self).max_chars,
    {
        if self.current.len() <= self.seed {
            return;
        }
        let ghost pen = self.pen();
        let ghost whole = self.current@;
        assert(whole =~= pen.opening + pen.body);
        assert(whole.last() == pen.body.last());
        let mut chunk = from_chars(&self.current);
        let mut next: Vec<char> = Vec::new();
        let ghost mut closing: Seq<char> = seq![];
        match &self.fence {
            Some(fence) => {
                if self.current[self.current.len() - 1] != '\n' {
                    chunk.push('\n');
                }
                chunk.push_str(CODE_FENCE);
                proof {
                    closing = if pen.body.last() == '\n' {
                        CODE_FENCE@
                    } else {
                        seq!['\n'] + CODE_FENCE@
                    };
                }
                assert(chunk@ =~= whole + closing);
                next = copy_range(fence, 0, fence.len());
                next.push('\n');
                assert(next@ =~= fence@.push('\n'));
            },
            None => {
                assert(chunk@ =~= whole + closing);
            },
        }
        let ghost piece = Piece { opening: pen.opening, body: pen.body, closing };
        assert(chunk@ =~= piece_text(piece));
        let ghost chunks_before = self.chunks@;
        self.seed = next.len();
        self.current = next;
        self.chunks.push(chunk);
        self.pieces = Ghost(self.pieces@.push(piece));
        assert(texts(self.chunks@) =~= texts(chunks_before).push(chunk@));
        assert(piece_texts(self.pieces@) =~= piece_texts(pen.pieces).push(piece_text(piece)));
        assert(self.pen() =~= flushed(pen)) by {
            assert(self.pen().opening =~= self.current@);
            assert(self.pen().body =~= seq![]);
            assert(self.pen().opening =~= flushed(pen).opening);
        }
    }

    /// Appends `text` to the current chunk, flushing (and, inside a fence, re-opening) as often as
    /// the limit requires.
    fn write_text(&mut self, text: Vec<char>)
        requires
            old(self).wf(),
        ensures
            final(self).wf(),
            final(self).pen() == text_written(
                old(self).pen(),
                text@,
                old(self).max_chars as int,
            ),
            final(self).max_chars == old(self).max_chars,
    {
        let mut rest = text;
        let ghost max = self.max_chars as int;
        while rest.len() > 0
            invariant
                self.wf(),
                self.max_chars == max,
                max == old(self).max_chars,
                text_written(old(self).pen(), text@, max) == text_written(
                    self.pen(),
                    rest@,
                    max,
                ),
            decreases rest@.len(), self.pen().body.len(),
        {
            let room = self.room();
            let ghost pen = self.pen();
            if rest.len() <= room {
                let ghost rest_text = rest@;
                self.current.append(&mut rest);
                assert(self.pen() =~= (Pen { body: pen.body + rest_text, ..pen })) by {
                    assert(self.pen().opening =~= pen.opening);
                    assert(self.pen().body =~= pen.body + rest_text);
                }
                return;
            }
            if self.current.len() > self.seed {
                self.flush();
            } else {
                let cut = safe_break(&rest, room);
                let take: usize = if cut < 1 {
                    1
                } else {
                    cut
                };
                let mut head = copy_range(&rest, 0, take);
                let tail = copy_range(&rest, take, rest.len());
                assert(head@ =~= rest@.take(take as int));
                assert(tail@ =~= rest@.skip(take as int));
                let ghost head_text = head@;
                self.current.append(&mut head);
                assert(self.pen() =~= (Pen { body: pen.body + head_text, ..pen })) by {
                    assert(self.pen().opening =~= pen.opening);
                    assert(self.pen().body =~= pen.body + head_text);
                }
                self.flush();
                rest = tail;
            }
        }
    }

    /// Writes the line that closes the fence.
    fn close_fence(&mut self, line: Vec<char>)
        requires
            old(self).wf(),
            is_fence_line(line@),
        ensures
            final(self).wf(),
            final(self).pen() == line_closed(old(self).pen(), line@, old(self).max_chars as int),
            final(self).max_chars == old(self).max_chars,
    {
        let ghost pen = self.pen();
        let ghost max = self.max_chars as int;
        // The block is left before its closing marker is written: `room` has been holding back as
        // many characters as a bare marker takes.
        let fence = self.fence.take();
        assert(self.pen() =~= (Pen { fence: None, ..pen }));
        let ghost left = self.pen();
        let room = self.room();
        if line.len() <= room {
            let mut whole = line;
            self.current.append(&mut whole);
            assert(self.pen() =~= (Pen { body: left.body + line@, ..left })) by {
                assert(self.pen().opening =~= left.opening);
                assert(self.pen().body =~= left.body + line@);
            }
            return;
        }
        let lead = leading_space(&line);
        proof {
            reveal_strlit("```");
        }
        let at: usize = lead + 3;
        let behind = copy_range(&line, at, line.len());
        assert(behind@ =~= line@.skip(marker_end(line@)));
        if at <= room && leading_space(&behind) < behind.len() && !line_is_fence(&behind) {
            let mut head = copy_range(&line, 0, at);
            assert(head@ =~= line@.take(marker_end(line@)));
            let ghost head_text = head@;
            self.current.append(&mut head);
            assert(self.pen() =~= (Pen { body: left.body + head_text, ..left })) by {
                assert(self.pen().opening =~= left.opening);
                assert(self.pen().body =~= left.body + head_text);
            }
            self.write_text(behind);
        } else {
            self.fence = fence;
            assert(self.pen() =~= pen);
            self.flush();
            self.fence = None;
            assert(self.pen() =~= (Pen { fence: None, ..flushed(pen) }));
            self.write_text(line);
        }
    }

    fn write_line(&mut self, line: Vec<char>)
        requires
            old(self).wf(),
            forall|i: int| 0 <= i < line@.len() - 1 ==> line@[i] != '\n',
        ensures
            final(self).wf(),
            final(self).pen() == line_written(
                old(self).pen(),
                line@,
                old(self).max_chars as int,
            ),
            final(self).max_chars == old(self).max_chars,
    {
        let ghost pen = self.pen();
        let is_fence = line_is_fence(&line);
        let ends_line = line.len() > 0 && line[line.len() - 1] == '\n';
        if !is_fence {
            self.write_text(line);
            return;
        }
        if self.fence.is_some() {
            self.close_fence(line);
            return;
        }
        let room = self.room();
        if room < 4 || line.len() > room - 4 {
            self.flush();
        }
        let opening = copy_range(
            &line,
            0,
            if ends_line {
                line.len() - 1
            } else {
                line.len()
            },
        );
        assert(opening@ =~= without_newline(line@));
        self.write_text(line);
        let ghost written = self.pen();
        self.fence = Some(opening);
        assert(self.pen() =~= (Pen { fence: Some(opening@), ..written }));
    }
}

/// How many characters of white space a line starts with.
fn leading_space(line: &Vec<char>) -> (i: usize)
    ensures
        i <= line@.len(),
        trim_start(line@) == line@.skip(i as int),
{
    let mut i: usize = 0;
    assert(line@.skip(0) =~= line@);
    while i < line.len() && line[i].is_whitespace()
        invariant
            i <= line@.len(),
            trim_start(line@) == trim_start(line@.skip(i as int)),
        decreases line@.len() - i,
    {
        assert(line@.skip(i as int).drop_first() =~= line@.skip(i + 1));
        i = i + 1;
    }
    i
}

fn line_is_fence(line: &Vec<char>) -> (r: bool)
    ensures
        r == is_fence_line(line@),
{
    let i = leading_space(line);
    let marker = to_chars(CODE_FENCE);
    let r = matches_at(line, &marker, i);
    let ghost rest = line@.skip(i as int);
    proof {
        if i + marker@.len() <= line@.len() {
            assert(rest.subrange(0, marker@.len() as int) =~= line@.subrange(
                i as int,
                i + marker@.len(),
            ));
        }
    }
    r
}

/// Splits `message` into chunks of at most `max_chars` characters, preferring boundaries that
/// leave every chunk valid Markdown on its own. In order of preference, a boundary is
///
/// 1. a line boundary outside any code fence,
/// 2. a line boundary inside a code fence, closing the fence at the end of the chunk and
///    re-opening it (with its original info string) at the start of the next,
/// 3. a space within a line at a point where no inline entity is open,
/// 4. a character boundary, reached only by a single unbroken token longer than the limit.
///
/// Apart from the fences that are closed and re-opened on the way, the chunks put together are the
/// message.
pub fn message_chunks(message: &str, max_chars: usize) -> (chunks: Vec<String>)
    ensures
        texts(chunks@) == piece_texts(pieces_of(message@, max_chars as int)),
{
    let chars = to_chars(message);
    let ghost max = at_least_one(max_chars as int);
    let mut writer = ChunkWriter {
        max_chars: if max_chars < 1 {
            1
        } else {
            max_chars
        },
        chunks: Vec::new(),
        current: Vec::new(),
        fence: None,
        seed: 0,
        pieces: Ghost(Seq::empty()),
    };
    assert(texts(writer.chunks@) =~= piece_texts(writer.pieces@));
    assert(writer.pen() =~= new_pen());
    let mut i: usize = 0;
    let ghost mut done: Seq<Seq<char>> = seq![];
    assert(message@.skip(0) =~= message@);
    assert(done + lines_inclusive(message@) =~= lines_inclusive(message@));
    while i < chars.len()
        invariant
            chars@ == message@,
            i <= chars@.len(),
            writer.wf(),
            writer.max_chars == max,
            writer.pen() == lines_written(new_pen(), done, max),
            done + lines_inclusive(message@.skip(i as int)) == lines_inclusive(message@),
        decreases chars@.len() - i,
    {
        let ghost rest = message@.skip(i as int);
        proof {
            lemma_index_from(rest, '\n', 0);
            lemma_index_from(message@, '\n', i as int);
        }
        let end: usize = match index_of(&chars, '\n', i) {
            Some(at) => {
                assert(at < chars.len());
                proof {
                    assert(rest[at - i] == '\n');
                    assert(index_from(rest, '\n', 0) == Some(at - i)) by {
                        let k = index_from(rest, '\n', 0)->0;
                        assert(message@[i + k] == rest[k]);
                        assert(forall|j: int| 0 <= j < rest.len() ==> rest[j] == message@[i + j]);
                    }
                }
                at + 1
            },
            None => {
                proof {
                    assert(index_from(rest, '\n', 0) is None) by {
                        if let Some(k) = index_from(rest, '\n', 0) {
                            assert(message@[i + k] == rest[k]);
                        }
                    }
                    assert(rest.take(rest.len() as int) =~= rest);
                    assert(rest.skip(rest.len() as int) =~= seq![]);
                }
                chars.len()
            },
        };
        let line = copy_range(&chars, i, end);
        assert(line@ =~= rest.take(end - i));
        assert(rest.skip(end - i) =~= message@.skip(end as int));
        assert(lines_inclusive(rest) =~= seq![line@] + lines_inclusive(message@.skip(end as int)));
        assert(done + (seq![line@] + lines_inclusive(message@.skip(end as int))) =~= done.push(
            line@,
        ) + lines_inclusive(message@.skip(end as int)));
        assert(done.push(line@).drop_last() =~= done);
        proof {
            done = done.push(line@);
        }
        writer.write_line(line);
        i = end;
    }
    assert(done =~= lines_inclusive(message@));
    let ghost pen = writer.pen();
    if writer.current.len() > writer.seed {
        let last = from_chars(&writer.current);
        let ghost piece = Piece { opening: pen.opening, body: pen.body, closing: seq![] };
        assert(last@ =~= piece_text(piece));
        let ghost before = writer.chunks@;
        writer.chunks.push(last);
        assert(texts(writer.chunks@) =~= texts(before).push(last@));
        assert(piece_texts(pen.pieces.push(piece)) =~= piece_texts(pen.pieces).push(
            piece_text(piece),
        ));
    }
    writer.chunks
}

/// Whether every fence line of the message leaves room in a chunk for itself, one character of
/// content and the marker that closes it.
pub open spec fn fences_fit(lines: Seq<Seq<char>>, max: int) -> bool {
    forall|i: int|
        0 <= i < lines.len() && is_fence_line(#[trigger] lines[i]) ==> without_newline(
            lines[i],
        ).len() + 6 <= max
}

pub open spec fn all_within(pieces: Seq<Piece>, max: int) -> bool {
    forall|i: int| 0 <= i < pieces.len() ==> piece_text(#[trigger] pieces[i]).len() <= max
}

spec fn pen_within(pen: Pen, max: int) -> bool {
    &&& max >= 1
    &&& all_within(pen.pieces, max)
    &&& pen.opening.len() + pen.body.len() + reserved(pen) <= max
    &&& pen.fence is Some ==> pen.fence->0.len() + 6 <= max
    &&& pen.opening.len() > 0 ==> pen.opening.len() + 5 <= max
}

spec fn pen_settled(pen: Pen) -> bool {
    pen.fence is None && pen.body.len() == 0 ==> pen.opening.len() == 0
}

proof fn lemma_flushed_within(pen: Pen, max: int)
    requires
        pen_within(pen, max),
        pen.body.len() > 0,
    ensures
        pen_within(flushed(pen), max),
        pen_settled(flushed(pen)),
{
    reveal_strlit("```");
    let piece = flushed(pen).pieces.last();
    assert(piece_text(piece).len() <= max);
}

proof fn lemma_text_within(pen: Pen, s: Seq<char>, max: int)
    requires
        pen_within(pen, max),
        s.len() > 0 || pen_settled(pen),
    ensures
        pen_within(text_written(pen, s, max), max),
        pen_settled(text_written(pen, s, max)),
        text_written(pen, s, max).fence == pen.fence,
    decreases s.len(), pen.body.len(),
{
    let room = room_left(pen, max);
    if s.len() == 0 || s.len() <= room {
    } else if pen.body.len() > 0 {
        lemma_flushed_within(pen, max);
        lemma_text_within(flushed(pen), s, max);
    } else {
        lemma_break_point(s, room);
        let take = cut_len(s, room);
        let filled = Pen { body: pen.body + s.take(take), ..pen };
        lemma_flushed_within(filled, max);
        lemma_text_within(flushed(filled), s.skip(take), max);
    }
}

/// The marker of a fence line stands within it, and what ends with the marker is a fence line too.
proof fn lemma_marker_end(line: Seq<char>)
    requires
        is_fence_line(line),
    ensures
        3 <= marker_end(line) <= line.len(),
        is_fence_line(line.take(marker_end(line))),
        ends_with_marker(line.take(marker_end(line))),
    decreases line.len(),
{
    reveal_strlit("```");
    let at = marker_end(line);
    if line.len() > 0 && crate::text::white_space(line[0]) {
        let rest = line.drop_first();
        lemma_marker_end(rest);
        assert(marker_end(rest) == at - 1);
        assert(line.take(at).drop_first() =~= rest.take(at - 1));
        assert(line.take(at).skip(at - 3) =~= rest.take(at - 1).skip(at - 4));
    } else {
        assert(trim_start(line) == line);
        assert(at == 3);
        assert(line.take(3) =~= line.subrange(0, 3));
        assert(line.take(3).subrange(0, 3) =~= CODE_FENCE@);
        assert(line.take(3).skip(0) =~= CODE_FENCE@);
        assert(line.take(3)[0] == line[0]);
        assert(trim_start(line.take(3)) == line.take(3));
    }
}

proof fn lemma_line_within(pen: Pen, line: Seq<char>, max: int)
    requires
        pen_within(pen, max),
        pen_settled(pen),
        line.len() > 0,
        is_fence_line(line) ==> without_newline(line).len() + 6 <= max,
    ensures
        pen_within(line_written(pen, line, max), max),
        pen_settled(line_written(pen, line, max)),
{
    reveal_strlit("```");
    if !is_fence_line(line) {
        lemma_text_within(pen, line, max);
    } else if pen.fence is Some {
        let left = Pen { fence: None, ..pen };
        let at = marker_end(line);
        lemma_marker_end(line);
        if line.len() <= room_left(left, max) {
        } else if at <= room_left(left, max) && trim_start(line.skip(at)).len() > 0
            && !is_fence_line(line.skip(at)) {
            lemma_text_within(Pen { body: pen.body + line.take(at), ..left }, line.skip(at), max);
        } else {
            if pen.body.len() > 0 {
                lemma_flushed_within(pen, max);
            }
            lemma_text_within(Pen { fence: None, ..flushed(pen) }, line, max);
        }
    } else {
        let start = if line.len() + 4 > room_left(pen, max) {
            flushed(pen)
        } else {
            pen
        };
        if pen.body.len() > 0 {
            lemma_flushed_within(pen, max);
        }
        lemma_text_within(start, line, max);
        assert(line.len() + 4 <= room_left(start, max));
    }
}

proof fn lemma_lines_within(lines: Seq<Seq<char>>, max: int)
    requires
        max >= 1,
        fences_fit(lines, max),
        forall|i: int| 0 <= i < lines.len() ==> (#[trigger] lines[i]).len() > 0,
    ensures
        pen_within(lines_written(new_pen(), lines, max), max),
        pen_settled(lines_written(new_pen(), lines, max)),
    decreases lines.len(),
{
    if lines.len() > 0 {
        assert(fences_fit(lines.drop_last(), max)) by {
            assert forall|i: int|
                0 <= i < lines.drop_last().len() && is_fence_line(
                    #[trigger] lines.drop_last()[i],
                ) implies without_newline(lines.drop_last()[i]).len() + 6 <= max by {
                assert(is_fence_line(lines[i]));
            }
        }
        assert forall|i: int| 0 <= i < lines.drop_last().len() implies (
        #[trigger] lines.drop_last()[i]).len() > 0 by {
            assert(lines[i].len() > 0);
        }
        lemma_lines_within(lines.drop_last(), max);
        assert(lines[lines.len() - 1].len() > 0);
        lemma_line_within(
            lines_written(new_pen(), lines.drop_last(), max),
            lines.last(),
            max,
        );
    }
}

/// What the lines of a text are: none empty, and only the last may lack its newline.
proof fn lemma_lines_inclusive(s: Seq<char>)
    ensures
        forall|i: int| 0 <= i < lines_inclusive(s).len() ==> (#[trigger] lines_inclusive(s)[i]).len()
            > 0,
        forall|i: int|
            0 <= i < lines_inclusive(s).len() - 1 ==> (#[trigger] lines_inclusive(s)[i]).last()
                == '\n',
        joined_lines(lines_inclusive(s)) == s,
    decreases s.len(),
{
    if s.len() > 0 {
        lemma_index_from(s, '\n', 0);
        match index_from(s, '\n', 0) {
            Some(at) => {
                let head = s.take(at + 1);
                let tail = lines_inclusive(s.skip(at + 1));
                lemma_lines_inclusive(s.skip(at + 1));
                let all = seq![head] + tail;
                assert(lines_inclusive(s) == all);
                assert forall|i: int| 0 <= i < all.len() implies (#[trigger] all[i]).len() > 0 by {
                    if i > 0 {
                        assert(all[i] == tail[i - 1]);
                    }
                }
                assert forall|i: int| 0 <= i < all.len() - 1 implies (#[trigger] all[i]).last()
                    == '\n' by {
                    if i > 0 {
                        assert(all[i] == tail[i - 1]);
                    }
                }
                lemma_joined_prepend(head, tail);
                assert(head + s.skip(at + 1) =~= s);
            },
            None => {
                let all = seq![s];
                assert(lines_inclusive(s) == all);
                reveal_with_fuel(joined_lines, 2);
                assert(all.drop_last() =~= seq![]);
                assert(joined_lines(all) =~= s);
            },
        }
    }
}

/// Lines put together again.
pub open spec fn joined_lines(lines: Seq<Seq<char>>) -> Seq<char>
    decreases lines.len(),
{
    if lines.len() == 0 {
        seq![]
    } else {
        joined_lines(lines.drop_last()) + lines.last()
    }
}

proof fn lemma_joined_prepend(head: Seq<char>, tail: Seq<Seq<char>>)
    ensures
        joined_lines(seq![head] + tail) == head + joined_lines(tail),
    decreases tail.len(),
{
    let all = seq![head] + tail;
    if tail.len() == 0 {
        reveal_with_fuel(joined_lines, 2);
        assert(all.drop_last() =~= seq![]);
        assert(all.last() == head);
        assert(joined_lines(all) =~= head + joined_lines(tail));
    } else {
        assert(all.drop_last() =~= seq![head] + tail.drop_last());
        lemma_joined_prepend(head, tail.drop_last());
        assert(joined_lines(all) =~= head + joined_lines(tail));
    }
}

/// No chunk is longer than the limit, provided that the limit leaves room for the message's
/// fence lines to be re-opened and closed.
pub proof fn law_chunks_fit(message: Seq<char>, max: int)
    requires
        max >= 1,
        fences_fit(lines_inclusive(message), max),
    ensures
        all_within(pieces_of(message, max), max),
{
    lemma_lines_inclusive(message);
    lemma_lines_within(lines_inclusive(message), max);
    let pen = lines_written(new_pen(), lines_inclusive(message), max);
    let all = finished(pen);
    assert forall|i: int| 0 <= i < all.len() implies piece_text(#[trigger] all[i]).len() <= max by {
        if i < pen.pieces.len() {
            assert(all[i] == pen.pieces[i]);
        }
    }
}

/// The message text that pieces carry, without re-opened fences and added markers.
pub open spec fn bodies(pieces: Seq<Piece>) -> Seq<char>
    decreases pieces.len(),
{
    if pieces.len() == 0 {
        seq![]
    } else {
        bodies(pieces.drop_last()) + pieces.last().body
    }
}

/// Whether a code block is open after the lines.
pub open spec fn fence_open(lines: Seq<Seq<char>>) -> bool
    decreases lines.len(),
{
    if lines.len() == 0 {
        false
    } else {
        fence_open(lines.drop_last()) != is_fence_line(lines.last())
    }
}

spec fn pen_text(pen: Pen) -> Seq<char> {
    bodies(pen.pieces) + pen.body
}

proof fn lemma_flushed_text(pen: Pen)
    ensures
        pen_text(flushed(pen)) == pen_text(pen),
        flushed(pen).fence == pen.fence,
{
    if pen.body.len() > 0 {
        assert(flushed(pen).pieces.drop_last() =~= pen.pieces);
        assert(pen_text(flushed(pen)) =~= pen_text(pen));
    }
}

proof fn lemma_text_text(pen: Pen, s: Seq<char>, max: int)
    ensures
        pen_text(text_written(pen, s, max)) == pen_text(pen) + s,
        text_written(pen, s, max).fence == pen.fence,
    decreases s.len(), pen.body.len(),
{
    let room = room_left(pen, max);
    if s.len() == 0 || s.len() <= room {
        assert(pen_text(text_written(pen, s, max)) =~= pen_text(pen) + s);
    } else if pen.body.len() > 0 {
        lemma_flushed_text(pen);
        lemma_text_text(flushed(pen), s, max);
    } else {
        lemma_break_point(s, room);
        let take = cut_len(s, room);
        let filled = Pen { body: pen.body + s.take(take), ..pen };
        lemma_flushed_text(filled);
        lemma_text_text(flushed(filled), s.skip(take), max);
        assert(pen_text(pen) + s.take(take) + s.skip(take) =~= pen_text(pen) + s);
        assert(pen_text(filled) =~= pen_text(pen) + s.take(take));
    }
}

proof fn lemma_closed_text(pen: Pen, line: Seq<char>, max: int)
    requires
        is_fence_line(line),
    ensures
        pen_text(line_closed(pen, line, max)) == pen_text(pen) + line,
        line_closed(pen, line, max).fence is None,
{
    let left = Pen { fence: None, ..pen };
    let at = marker_end(line);
    lemma_marker_end(line);
    if line.len() <= room_left(left, max) {
        assert(pen_text(line_closed(pen, line, max)) =~= pen_text(pen) + line);
    } else if at <= room_left(left, max) && trim_start(line.skip(at)).len() > 0 && !is_fence_line(
        line.skip(at),
    ) {
        let head = Pen { body: pen.body + line.take(at), ..left };
        lemma_text_text(head, line.skip(at), max);
        assert(pen_text(head) + line.skip(at) =~= pen_text(pen) + line);
    } else {
        lemma_flushed_text(pen);
        let next = Pen { fence: None, ..flushed(pen) };
        assert(pen_text(next) == pen_text(pen));
        lemma_text_text(next, line, max);
    }
}

proof fn lemma_lines_text(lines: Seq<Seq<char>>, max: int)
    ensures
        pen_text(lines_written(new_pen(), lines, max)) == joined_lines(lines),
        lines_written(new_pen(), lines, max).fence is Some == fence_open(lines),
    decreases lines.len(),
{
    if lines.len() == 0 {
        assert(pen_text(new_pen()) =~= seq![]);
    } else {
        lemma_lines_text(lines.drop_last(), max);
        let pen = lines_written(new_pen(), lines.drop_last(), max);
        let line = lines.last();
        if !is_fence_line(line) {
            lemma_text_text(pen, line, max);
        } else if pen.fence is Some {
            lemma_closed_text(pen, line, max);
        } else {
            let start = if line.len() + 4 > room_left(pen, max) {
                flushed(pen)
            } else {
                pen
            };
            lemma_flushed_text(pen);
            lemma_text_text(start, line, max);
        }
    }
}

/// No text is added or lost: apart from re-opened fences and the markers that close them, the
/// chunks put together are the message.
pub proof fn law_chunks_keep_text(message: Seq<char>, max: int)
    ensures
        bodies(pieces_of(message, max)) == message,
{
    let lines = lines_inclusive(message);
    lemma_lines_inclusive(message);
    lemma_lines_text(lines, at_least_one(max));
    let pen = lines_written(new_pen(), lines, at_least_one(max));
    if pen.body.len() > 0 {
        assert(finished(pen).drop_last() =~= pen.pieces);
    } else {
        assert(pen_text(pen) =~= bodies(pen.pieces));
    }
}

pub open spec fn no_fences(lines: Seq<Seq<char>>) -> bool {
    forall|i: int| 0 <= i < lines.len() ==> !is_fence_line(#[trigger] lines[i])
}

spec fn plain_pen(pen: Pen) -> bool {
    &&& pen.fence is None
    &&& pen.opening.len() == 0
    &&& plain_pieces(pen.pieces)
}

/// Whether nothing but message text stands in the pieces.
pub open spec fn plain_pieces(pieces: Seq<Piece>) -> bool {
    forall|i: int|
        0 <= i < pieces.len() ==> (#[trigger] pieces[i]).opening.len() == 0
            && pieces[i].closing.len() == 0
}

proof fn lemma_text_plain(pen: Pen, s: Seq<char>, max: int)
    requires
        plain_pen(pen),
    ensures
        plain_pen(text_written(pen, s, max)),
    decreases s.len(), pen.body.len(),
{
    let room = room_left(pen, max);
    if s.len() == 0 || s.len() <= room {
    } else if pen.body.len() > 0 {
        lemma_text_plain(flushed(pen), s, max);
    } else {
        lemma_break_point(s, room);
        let take = cut_len(s, room);
        let filled = Pen { body: pen.body + s.take(take), ..pen };
        lemma_text_plain(flushed(filled), s.skip(take), max);
    }
}

proof fn lemma_lines_plain(lines: Seq<Seq<char>>, max: int)
    requires
        no_fences(lines),
    ensures
        plain_pen(lines_written(new_pen(), lines, max)),
        !fence_open(lines),
    decreases lines.len(),
{
    if lines.len() > 0 {
        assert(no_fences(lines.drop_last())) by {
            assert forall|i: int| 0 <= i < lines.drop_last().len() implies !is_fence_line(
                #[trigger] lines.drop_last()[i],
            ) by {
                assert(!is_fence_line(lines[i]));
            }
        }
        lemma_lines_plain(lines.drop_last(), max);
        assert(!is_fence_line(lines[lines.len() - 1]));
        lemma_text_plain(
            lines_written(new_pen(), lines.drop_last(), max),
            lines.last(),
            max,
        );
    }
}

/// A message without code fences is cut into chunks that put together are the message itself.
pub proof fn law_prose_rejoins(message: Seq<char>, max: int)
    requires
        no_fences(lines_inclusive(message)),
    ensures
        plain_pieces(pieces_of(message, max)),
        joined_lines(piece_texts(pieces_of(message, max))) == message,
{
    let lines = lines_inclusive(message);
    lemma_lines_plain(lines, at_least_one(max));
    law_chunks_keep_text(message, max);
    let pieces = pieces_of(message, max);
    assert(plain_pieces(pieces));
    lemma_plain_texts(pieces);
}

proof fn lemma_plain_texts(pieces: Seq<Piece>)
    requires
        plain_pieces(pieces),
    ensures
        joined_lines(piece_texts(pieces)) == bodies(pieces),
    decreases pieces.len(),
{
    if pieces.len() > 0 {
        assert(plain_pieces(pieces.drop_last())) by {
            assert forall|i: int| 0 <= i < pieces.drop_last().len() implies (
            #[trigger] pieces.drop_last()[i]).opening.len() == 0
                && pieces.drop_last()[i].closing.len() == 0 by {
                assert(pieces[i].opening.len() == 0);
            }
        }
        lemma_plain_texts(pieces.drop_last());
        assert(piece_texts(pieces).drop_last() =~= piece_texts(pieces.drop_last()));
        assert(pieces[pieces.len() - 1].opening.len() == 0);
        assert(piece_text(pieces.last()) =~= pieces.last().body);
    }
}

/// Whether every line fits into a chunk of its own, with the fence and marker that may have to stand
/// around it where the message has fences.
pub open spec fn lines_fit(lines: Seq<Seq<char>>, max: int) -> bool {
    &&& forall|i: int| 0 <= i < lines.len() ==> (#[trigger] lines[i]).len() <= max
    &&& forall|i: int, j: int|
        0 <= i < lines.len() && 0 <= j < lines.len() && is_fence_line(#[trigger] lines[j]) ==> (
        #[trigger] lines[i]).len() + lines[j].len() + 5 <= max
}

/// Whether a text is empty or ends a line.
pub open spec fn ends_line(s: Seq<char>) -> bool {
    s.len() == 0 || s.last() == '\n'
}

/// Whether a text ends with the marker of a fence.
pub open spec fn ends_with_marker(s: Seq<char>) -> bool {
    s.len() >= 3 && s.skip(s.len() - 3) == CODE_FENCE@
}

/// A chunk boundary that leaves whole lines, or a line up to its closing marker, and no open code
/// block behind.
pub open spec fn clean_piece(piece: Piece) -> bool {
    &&& ends_line(piece.body) || ends_with_marker(piece.body)
    &&& !fence_open(lines_inclusive(piece_text(piece)))
}

proof fn lemma_lines_concat(a: Seq<char>, b: Seq<char>)
    requires
        ends_line(a),
    ensures
        lines_inclusive(a + b) == lines_inclusive(a) + lines_inclusive(b),
    decreases a.len(),
{
    if a.len() == 0 {
        assert(a + b =~= b);
        assert(lines_inclusive(a) + lines_inclusive(b) =~= lines_inclusive(b));
    } else {
        lemma_index_from(a, '\n', 0);
        lemma_index_from(a + b, '\n', 0);
        assert(a[a.len() - 1] == '\n');
        let at = index_from(a, '\n', 0)->0;
        assert((a + b)[at] == '\n');
        let other = index_from(a + b, '\n', 0)->0;
        assert(other == at) by {
            if other < at {
                assert(a[other] == (a + b)[other]);
            }
        }
        assert((a + b).take(at + 1) =~= a.take(at + 1));
        assert((a + b).skip(at + 1) =~= a.skip(at + 1) + b);
        let rest = a.skip(at + 1);
        assert(ends_line(rest)) by {
            if rest.len() > 0 {
                assert(rest.last() == a.last());
            }
        }
        lemma_lines_concat(rest, b);
        assert(lines_inclusive(a + b) =~= lines_inclusive(a) + lines_inclusive(b));
    }
}

proof fn lemma_one_line(line: Seq<char>)
    requires
        line.len() > 0,
        forall|i: int| 0 <= i < line.len() - 1 ==> line[i] != '\n',
    ensures
        lines_inclusive(line) == seq![line],
{
    lemma_index_from(line, '\n', 0);
    match index_from(line, '\n', 0) {
        Some(at) => {
            assert(at == line.len() - 1);
            assert(line.take(at + 1) =~= line);
            assert(line.skip(at + 1) =~= seq![]);
            reveal_with_fuel(lines_inclusive, 2);
            assert(lines_inclusive(line) =~= seq![line]);
        },
        None => {},
    }
}

proof fn lemma_fence_open_concat(a: Seq<Seq<char>>, b: Seq<Seq<char>>)
    ensures
        fence_open(a + b) == (fence_open(a) != fence_open(b)),
    decreases b.len(),
{
    if b.len() == 0 {
        assert(a + b =~= a);
    } else {
        assert((a + b).drop_last() =~= a + b.drop_last());
        assert((a + b).last() == b.last());
        lemma_fence_open_concat(a, b.drop_last());
    }
}

/// Text that ends a line, followed by one more line, opens or closes what the line does.
proof fn lemma_fence_open_append(a: Seq<char>, line: Seq<char>)
    requires
        ends_line(a),
        line.len() > 0,
        forall|i: int| 0 <= i < line.len() - 1 ==> line[i] != '\n',
    ensures
        fence_open(lines_inclusive(a + line)) == (fence_open(lines_inclusive(a)) != is_fence_line(
            line,
        )),
{
    lemma_lines_concat(a, line);
    lemma_one_line(line);
    let one = seq![line];
    assert(one.drop_last() =~= seq![]);
    lemma_fence_open_concat(lines_inclusive(a), one);
    assert(fence_open(one) == is_fence_line(line)) by {
        reveal_with_fuel(fence_open, 2);
    }
}

proof fn lemma_trim_start_first(s: Seq<char>)
    ensures
        trim_start(s).len() > 0 ==> !crate::text::white_space(trim_start(s)[0]),
    decreases s.len(),
{
    if s.len() > 0 && crate::text::white_space(s[0]) {
        lemma_trim_start_first(s.drop_first());
    }
}

proof fn lemma_trim_start_push(s: Seq<char>, c: char)
    requires
        trim_start(s).len() > 0,
    ensures
        trim_start(s.push(c)) == trim_start(s).push(c),
    decreases s.len(),
{
    if s.len() > 0 && crate::text::white_space(s[0]) {
        assert(s.push(c).drop_first() =~= s.drop_first().push(c));
        lemma_trim_start_push(s.drop_first(), c);
    }
}

/// The marker alone is a fence line, and so is a fence line that gains or loses its newline.
proof fn lemma_fence_lines(line: Seq<char>)
    requires
        is_fence_line(line),
        forall|i: int| 0 <= i < line.len() - 1 ==> line[i] != '\n',
    ensures
        is_fence_line(CODE_FENCE@),
        is_fence_line(CODE_FENCE@.push('\n')),
        is_fence_line(without_newline(line).push('\n')),
        forall|i: int| 0 <= i < without_newline(line).len() ==> without_newline(line)[i] != '\n',
{
    reveal_strlit("```");
    lemma_trim_start_first(line);
    let body = trim_start(line);
    let mark = CODE_FENCE@;
    assert(body.subrange(0, 3)[0] == body[0]);
    assert(body[0] == '`');
    assert(!crate::text::white_space('`'));
    assert(mark[0] == '`');
    assert(trim_start(mark) == mark);
    assert(mark.subrange(0, 3) =~= mark);
    assert(mark.push('\n')[0] == '`');
    assert(trim_start(mark.push('\n')) == mark.push('\n'));
    assert(mark.push('\n').subrange(0, 3) =~= mark);
    if line.last() == '\n' {
        assert(without_newline(line).push('\n') =~= line);
    } else {
        lemma_trim_start_push(line, '\n');
        assert(body.push('\n').subrange(0, 3) =~= body.subrange(0, 3));
    }
}

spec fn pen_clean(pen: Pen, max: int) -> bool {
    &&& forall|i: int| 0 <= i < pen.pieces.len() ==> clean_piece(#[trigger] pen.pieces[i])
    &&& ends_line(pen.opening)
    &&& ends_line(pen.body)
    &&& fence_open(lines_inclusive(pen.opening + pen.body)) == (pen.fence is Some)
    &&& pen.fence is Some ==> {
        let f = pen.fence->0;
        &&& is_fence_line(CODE_FENCE@)
        &&& is_fence_line(f.push('\n'))
        &&& forall|i: int| 0 <= i < f.len() ==> f[i] != '\n'
    }
}

proof fn lemma_flushed_clean(pen: Pen, max: int)
    requires
        pen_clean(pen, max),
    ensures
        pen_clean(flushed(pen), max),
{
    if pen.body.len() > 0 {
        reveal_strlit("```");
        let piece = flushed(pen).pieces.last();
        let whole = pen.opening + pen.body;
        assert(ends_line(whole)) by {
            assert(whole.last() == pen.body.last());
        }
        match pen.fence {
            None => {
                assert(piece_text(piece) =~= whole);
            },
            Some(f) => {
                assert(piece_text(piece) =~= whole + CODE_FENCE@);
                lemma_fence_open_append(whole, CODE_FENCE@);
                let next = f.push('\n');
                let none: Seq<char> = seq![];
                lemma_fence_open_append(none, next);
                assert(none + next =~= next + none);
                assert(next.last() == '\n');
            },
        }
        assert(clean_piece(piece));
        assert(flushed(pen).opening + flushed(pen).body =~= flushed(pen).opening);
        assert forall|i: int| 0 <= i < flushed(pen).pieces.len() implies clean_piece(
            #[trigger] flushed(pen).pieces[i],
        ) by {
            if i < pen.pieces.len() {
                assert(flushed(pen).pieces[i] == pen.pieces[i]);
            }
        }
    }
}

/// A line that fits into a chunk of its own is appended whole, to the piece being written or to
/// the next one.
proof fn lemma_text_whole(pen: Pen, s: Seq<char>, max: int)
    requires
        s.len() > 0,
        s.len() <= room_left(flushed(pen), max),
    ensures
        text_written(pen, s, max) == (Pen { body: pen.body + s, ..pen }) || text_written(pen, s, max)
            == (Pen { body: flushed(pen).body + s, ..flushed(pen) }),
{
    reveal_with_fuel(text_written, 2);
}

proof fn lemma_closed_clean(pen: Pen, line: Seq<char>, max: int)
    requires
        pen_clean(pen, max),
        pen.fence is Some,
        is_fence_line(line),
        forall|i: int| 0 <= i < line.len() - 1 ==> line[i] != '\n',
        pen.fence->0.len() + line.len() + 5 <= max,
        pen.body.len() == 0 ==> pen.opening.len() <= pen.fence->0.len() + 1,
    ensures
        ({
            let after = line_closed(pen, line, max);
            &&& after.fence is None
            &&& after.body.len() > 0
            &&& forall|i: int|
                0 <= i < after.pieces.len() ==> clean_piece(#[trigger] after.pieces[i])
            &&& line.last() == '\n' ==> pen_clean(after, max)
        }),
{
    let after = line_closed(pen, line, max);
    let left = Pen { fence: None, ..pen };
    let at = marker_end(line);
    let head = line.take(at);
    let behind = line.skip(at);
    let whole = pen.opening + pen.body;
    let none: Seq<char> = seq![];
    lemma_marker_end(line);
    assert(ends_line(whole)) by {
        if pen.body.len() > 0 {
            assert(whole.last() == pen.body.last());
        } else {
            assert(whole =~= pen.opening);
        }
    }
    if line.len() <= room_left(left, max) {
        lemma_fence_open_append(whole, line);
        assert(whole + line =~= after.opening + after.body);
        assert(after.body.last() == line.last());
    } else if at <= room_left(left, max) && trim_start(behind).len() > 0 && !is_fence_line(behind) {
        lemma_trim_start_len(behind);
        let marked = Pen { body: pen.body + head, ..left };
        let piece = Piece { opening: pen.opening, body: pen.body + head, closing: seq![] };
        assert(piece_text(piece) =~= whole + head);
        lemma_fence_open_append(whole, head);
        assert(ends_with_marker(piece.body)) by {
            assert(piece.body.skip(piece.body.len() - 3) =~= head.skip(head.len() - 3));
        }
        assert(clean_piece(piece));
        reveal_with_fuel(text_written, 3);
        assert(flushed(marked).pieces == pen.pieces.push(piece));
        assert(after =~= (Pen {
            pieces: pen.pieces.push(piece),
            opening: seq![],
            body: none + behind,
            fence: None,
        }));
        assert(none + behind =~= behind);
        lemma_fence_open_append(none, behind);
        assert(lines_inclusive(none) =~= seq![]);
        assert(after.opening + after.body =~= none + behind);
        assert(behind.last() == line.last());
    } else {
        lemma_flushed_clean(pen, max);
        let next = Pen { fence: None, ..flushed(pen) };
        assert(next.opening == pen.fence->0.push('\n'));
        assert(after == (Pen { body: next.body + line, ..next }));
        assert(flushed(pen).opening + flushed(pen).body =~= next.opening);
        lemma_fence_open_append(next.opening, line);
        assert(after.opening + after.body =~= next.opening + line);
        assert(after.body.last() == line.last());
    }
}

proof fn lemma_line_clean(pen: Pen, line: Seq<char>, max: int)
    requires
        pen_clean(pen, max),
        pen_settled(pen),
        line.len() > 0,
        line.last() == '\n',
        forall|i: int| 0 <= i < line.len() - 1 ==> line[i] != '\n',
        line.len() <= max,
        is_fence_line(line) ==> line.len() + 9 <= max,
        pen.fence is Some ==> pen.fence->0.len() + line.len() + 5 <= max,
        pen.fence is None && pen.body.len() == 0 ==> pen.opening.len() == 0,
        pen.fence is Some ==> pen.opening.len() + pen.body.len() + 4 <= max,
        pen.fence is Some && pen.body.len() == 0 ==> pen.opening.len() <= pen.fence->0.len() + 1,
        pen_within(pen, max),
        is_fence_line(line) ==> without_newline(line).len() + 6 <= max,
    ensures
        pen_clean(line_written(pen, line, max), max),
        line_written(pen, line, max).body.len() > 0,
{
    reveal_strlit("```");
    lemma_flushed_clean(pen, max);
    if !is_fence_line(line) {
        lemma_text_whole(pen, line, max);
        lemma_append_clean(pen, line, max);
        lemma_append_clean(flushed(pen), line, max);
    } else {
        lemma_fence_lines(line);
        if pen.fence is Some {
            lemma_closed_clean(pen, line, max);
        } else {
            let start = if line.len() + 4 > room_left(pen, max) {
                flushed(pen)
            } else {
                pen
            };
            assert(line.len() <= room_left(start, max));
            let written = text_written(start, line, max);
            assert(written == (Pen { body: start.body + line, ..start }));
            let whole = start.opening + start.body;
            assert(ends_line(whole)) by {
                if start.body.len() > 0 {
                    assert(whole.last() == start.body.last());
                } else {
                    assert(whole =~= start.opening);
                }
            }
            lemma_fence_open_append(whole, line);
            assert(whole + line =~= start.opening + (start.body + line));
            assert((start.body + line).last() == '\n');
        }
    }
}

proof fn lemma_append_clean(pen: Pen, line: Seq<char>, max: int)
    requires
        pen_clean(pen, max),
        line.len() > 0,
        line.last() == '\n',
        forall|i: int| 0 <= i < line.len() - 1 ==> line[i] != '\n',
        !is_fence_line(line),
    ensures
        pen_clean(Pen { body: pen.body + line, ..pen }, max),
{
    let whole = pen.opening + pen.body;
    assert(ends_line(whole)) by {
        if pen.body.len() > 0 {
            assert(whole.last() == pen.body.last());
        } else {
            assert(whole =~= pen.opening);
        }
    }
    lemma_fence_open_append(whole, line);
    assert(whole + line =~= pen.opening + (pen.body + line));
    assert((pen.body + line).last() == '\n');
}

spec fn pen_after(message: Seq<char>, n: int, max: int) -> Pen {
    lines_written(new_pen(), lines_inclusive(message).take(n), max)
}

proof fn lemma_lines_have_one_newline(s: Seq<char>)
    ensures
        forall|i: int, k: int|
            0 <= i < lines_inclusive(s).len() && 0 <= k < lines_inclusive(s)[i].len() - 1
                ==> #[trigger] lines_inclusive(s)[i][k] != '\n',
    decreases s.len(),
{
    if s.len() > 0 {
        lemma_index_from(s, '\n', 0);
        match index_from(s, '\n', 0) {
            Some(at) => {
                lemma_lines_have_one_newline(s.skip(at + 1));
                let tail = lines_inclusive(s.skip(at + 1));
                let all = seq![s.take(at + 1)] + tail;
                assert(lines_inclusive(s) == all);
                assert forall|i: int, k: int|
                    0 <= i < all.len() && 0 <= k < all[i].len() - 1 implies #[trigger] all[i][k]
                    != '\n' by {
                    if i > 0 {
                        assert(all[i] == tail[i - 1]);
                        assert(tail[i - 1][k] != '\n');
                    } else {
                        assert(all[0][k] == s[k]);
                    }
                }
            },
            None => {
                assert(lines_inclusive(s) == seq![s]);
            },
        }
    }
}

proof fn lemma_fence_line_len(line: Seq<char>)
    requires
        is_fence_line(line),
    ensures
        line.len() >= 3,
    decreases line.len(),
{
    reveal_strlit("```");
    if line.len() > 0 && crate::text::white_space(line[0]) {
        lemma_fence_line_len(line.drop_first());
    }
}

spec fn fence_from_line(pen: Pen, lines: Seq<Seq<char>>) -> bool {
    pen.fence is Some ==> exists|j: int|
        0 <= j < lines.len() && is_fence_line(#[trigger] lines[j]) && pen.fence->0.len() + 1
            <= lines[j].len()
}

proof fn lemma_lines_clean(message: Seq<char>, n: int, max: int)
    requires
        max >= 1,
        0 <= n < lines_inclusive(message).len(),
        lines_fit(lines_inclusive(message), max),
    ensures
        pen_clean(pen_after(message, n, max), max),
        pen_within(pen_after(message, n, max), max),
        pen_settled(pen_after(message, n, max)),
        n > 0 ==> pen_after(message, n, max).body.len() > 0,
        n == 0 ==> pen_after(message, n, max) == new_pen(),
        fence_from_line(pen_after(message, n, max), lines_inclusive(message)),
    decreases n,
{
    let lines = lines_inclusive(message);
    if n == 0 {
        assert(lines.take(0) =~= seq![]);
        let none: Seq<char> = seq![];
        assert(none + none =~= none);
        assert(lines_inclusive(none) =~= seq![]);
    } else {
        lemma_lines_clean(message, n - 1, max);
        let pen = pen_after(message, n - 1, max);
        let line = lines[n - 1];
        assert(lines.take(n).drop_last() =~= lines.take(n - 1));
        assert(lines.take(n).last() == line);
        lemma_lines_inclusive(message);
        lemma_lines_have_one_newline(message);
        assert(line.last() == '\n');
        assert forall|k: int| 0 <= k < line.len() - 1 implies line[k] != '\n' by {
            assert(lines[n - 1][k] != '\n');
        }
        assert(lines[n - 1].len() <= max);
        if is_fence_line(line) {
            assert(lines[n - 1].len() + lines[n - 1].len() + 5 <= max);
            lemma_fence_line_len(line);
            assert(line.len() >= 4) by {
                reveal_strlit("```");
                if line.len() == 3 {
                    lemma_fence_lines(line);
                    lemma_trim_start_len(line);
                    assert(trim_start(line).subrange(0, 3) =~= trim_start(line));
                    assert(trim_start(line) == line) by {
                        if crate::text::white_space(line[0]) {
                            lemma_trim_start_len(line.drop_first());
                        }
                    }
                    assert(CODE_FENCE@[2] == '`');
                }
            }
        }
        if pen.fence is Some {
            let j = choose|j: int|
                0 <= j < lines.len() && is_fence_line(#[trigger] lines[j]) && pen.fence->0.len()
                    + 1 <= lines[j].len();
            assert(lines[n - 1].len() + lines[j].len() + 5 <= max);
        }
        lemma_line_clean(pen, line, max);
        lemma_line_within(pen, line, max);
        lemma_line_fence(pen, line, max);
        let after = pen_after(message, n, max);
        if after.fence is Some {
            if pen.fence is Some {
                let j = choose|j: int|
                    0 <= j < lines.len() && is_fence_line(#[trigger] lines[j]) && pen.fence->0.len()
                    + 1 <= lines[j].len();
                assert(after.fence->0.len() + 1 <= lines[j].len());
            } else {
                assert(after.fence->0.len() + 1 <= lines[n - 1].len());
            }
        }
    }
}

proof fn lemma_trim_start_len(s: Seq<char>)
    ensures
        trim_start(s).len() <= s.len(),
    decreases s.len(),
{
    if s.len() > 0 && crate::text::white_space(s[0]) {
        lemma_trim_start_len(s.drop_first());
    }
}

proof fn lemma_line_fence(pen: Pen, line: Seq<char>, max: int)
    ensures
        ({
            let after = line_written(pen, line, max);
            if !is_fence_line(line) {
                after.fence == pen.fence
            } else if pen.fence is Some {
                after.fence is None
            } else {
                after.fence == Some(without_newline(line))
            }
        }),
{
    if is_fence_line(line) && pen.fence is Some {
        lemma_closed_text(pen, line, max);
    } else {
        lemma_text_text(pen, line, max);
    }
}

/// Where every line fits into a chunk (in a message with code blocks, together with the fence that
/// may have to be re-opened in front of it and the marker that closes it), chunk boundaries fall between lines or behind the marker that
/// closes a code block, and every chunk but the last closes each code block that it opens.
pub proof fn law_chunks_end_clean(message: Seq<char>, max: int)
    requires
        max >= 1,
        lines_fit(lines_inclusive(message), max),
    ensures
        forall|i: int|
            0 <= i < pieces_of(message, max).len() - 1 ==> clean_piece(
                #[trigger] pieces_of(message, max)[i],
            ),
{
    let lines = lines_inclusive(message);
    if lines.len() > 0 {
        let n = lines.len() - 1;
        lemma_lines_clean(message, n, max);
        lemma_lines_inclusive(message);
        lemma_lines_have_one_newline(message);
        let pen = pen_after(message, n, max);
        let line = lines[n];
        assert(lines.drop_last() =~= lines.take(n));
        assert(lines[n].len() <= max);
        assert(is_fence_line(line) ==> lines[n].len() + lines[n].len() + 5 <= max);
        assert(line.len() > 0);
        lemma_flushed_clean(pen, max);
        reveal_strlit("```");
        let after = line_written(pen, line, max);
        if pen.fence is Some {
            let j = choose|j: int|
                0 <= j < lines.len() && is_fence_line(#[trigger] lines[j]) && pen.fence->0.len()
                    + 1 <= lines[j].len();
            assert(lines[n].len() + lines[j].len() + 5 <= max);
        }
        if !is_fence_line(line) {
            lemma_text_whole(pen, line, max);
        } else if pen.fence is Some {
            assert forall|k: int| 0 <= k < line.len() - 1 implies line[k] != '\n' by {
                assert(lines[n][k] != '\n');
            }
            lemma_closed_clean(pen, line, max);
        } else {
            let start = if line.len() + 4 > room_left(pen, max) {
                flushed(pen)
            } else {
                pen
            };
            lemma_fence_line_len(line);
            assert(text_written(start, line, max) == (Pen { body: start.body + line, ..start }));
        }
        assert(after.body.len() > 0);
        let all = pieces_of(message, max);
        assert(all == finished(after));
        assert forall|i: int| 0 <= i < all.len() - 1 implies clean_piece(#[trigger] all[i]) by {
            assert(all[i] == after.pieces[i]);
        }
    }
}

proof fn lemma_prose_lines(message: Seq<char>, n: int, max: int)
    requires
        max >= 1,
        0 <= n < lines_inclusive(message).len(),
        no_fences(lines_inclusive(message)),
        lines_fit(lines_inclusive(message), max),
    ensures
        plain_pen(pen_after(message, n, max)),
        ends_line(pen_after(message, n, max).body),
        forall|i: int|
            0 <= i < pen_after(message, n, max).pieces.len() ==> ends_line(
                (#[trigger] pen_after(message, n, max).pieces[i]).body,
            ),
    decreases n,
{
    let lines = lines_inclusive(message);
    if n == 0 {
        assert(lines.take(0) =~= seq![]);
    } else {
        lemma_prose_lines(message, n - 1, max);
        lemma_lines_inclusive(message);
        let line = lines[n - 1];
        assert(lines.take(n).drop_last() =~= lines.take(n - 1));
        assert(lines.take(n).last() == line);
        assert(!is_fence_line(lines[n - 1]) && lines[n - 1].last() == '\n');
        lemma_prose_line(pen_after(message, n - 1, max), line, max);
    }
}

/// A line of prose goes into the piece being written or, where it does not fit, into the next one.
proof fn lemma_prose_line(pen: Pen, line: Seq<char>, max: int)
    requires
        plain_pen(pen),
        ends_line(pen.body),
        forall|i: int| 0 <= i < pen.pieces.len() ==> ends_line((#[trigger] pen.pieces[i]).body),
        0 < line.len() <= max,
        !is_fence_line(line),
    ensures
        ({
            let after = line_written(pen, line, max);
            &&& plain_pen(after)
            &&& after.body.len() > 0
            &&& after.body.last() == line.last()
            &&& forall|i: int|
                0 <= i < after.pieces.len() ==> ends_line((#[trigger] after.pieces[i]).body)
        }),
{
    lemma_text_whole(pen, line, max);
    lemma_text_plain(pen, line, max);
}

/// In prose, every chunk but the last ends with a line, provided that each line fits into a chunk.
pub proof fn law_prose_ends_with_lines(message: Seq<char>, max: int)
    requires
        max >= 1,
        no_fences(lines_inclusive(message)),
        forall|i: int|
            0 <= i < lines_inclusive(message).len() ==> (#[trigger] lines_inclusive(
                message,
            )[i]).len() <= max,
    ensures
        forall|i: int|
            0 <= i < pieces_of(message, max).len() - 1 ==> ends_line(
                (#[trigger] pieces_of(message, max)[i]).body,
            ),
{
    let lines = lines_inclusive(message);
    if lines.len() > 0 {
        let n = lines.len() - 1;
        lemma_prose_lines(message, n, max);
        lemma_lines_inclusive(message);
        let pen = pen_after(message, n, max);
        assert(lines.drop_last() =~= lines.take(n));
        assert(lines[n].len() <= max && !is_fence_line(lines[n]));
        lemma_prose_line(pen, lines[n], max);
        let after = line_written(pen, lines[n], max);
        let all = pieces_of(message, max);
        assert(all == finished(after));
        assert forall|i: int| 0 <= i < all.len() - 1 implies ends_line((#[trigger] all[i]).body) by {
            assert(all[i] == after.pieces[i]);
        }
    }
}

/// What the last blank in a stretch is: behind it the stretch holds none, where every blank counts.
proof fn lemma_last_space(
    s: Seq<char>,
    from: int,
    limit: int,
    open: Inline,
    closed: bool,
    found: Option<int>,
)
    requires
        0 <= from,
        limit <= s.len(),
    ensures
        ({
            let r = last_space(s, from, limit, open, closed, found);
            &&& r == found || (r is Some && from < r->0 <= limit && s[r->0 - 1] == ' ')
            &&& !closed ==> forall|k: int|
                from <= k < limit && #[trigger] s[k] == ' ' ==> r is Some && r->0 >= k + 1
        }),
    decreases limit - from + 1,
{
    if from < limit {
        let next = after_marker(s, from, open);
        let found_here = if s[from] == ' ' && (!closed || is_closed(next)) {
            Some(from + 1)
        } else {
            found
        };
        let step = marker_len(s, from, open);
        lemma_last_space(s, from + step, limit, next, closed, found_here);
        let r = last_space(s, from, limit, open, closed, found);
        if !closed {
            assert forall|k: int| from <= k < limit && #[trigger] s[k] == ' ' implies r is Some
                && r->0 >= k + 1 by {
                if k == from {
                    assert(found_here == Some(from + 1));
                } else if k < from + step {
                    assert(s[from + 1] == '*' || s[from + 1] == '(');
                }
            }
        }
    }
}

/// A line that has to be cut is cut behind a blank wherever there is one in reach, and only an
/// unbroken stretch is cut at the limit.
pub proof fn law_cuts_fall_behind_blanks(s: Seq<char>, limit: int)
    requires
        0 <= limit <= s.len(),
    ensures
        (exists|k: int| 0 <= k < limit && #[trigger] s[k] == ' ') ==> 0 < break_point(s, limit)
            && s[break_point(s, limit) - 1] == ' ',
        (forall|k: int| 0 <= k < limit ==> #[trigger] s[k] != ' ') ==> break_point(s, limit)
            == limit,
{
    lemma_last_space(s, 0, limit, nothing_open(), true, None);
    lemma_last_space(s, 0, limit, nothing_open(), false, None);
    if exists|k: int| 0 <= k < limit && #[trigger] s[k] == ' ' {
        let k = choose|k: int| 0 <= k < limit && #[trigger] s[k] == ' ';
        assert(s[k] == ' ');
    }
}

/// Whether a stretch of a text holds no marker.
pub open spec fn unmarked(s: Seq<char>, from: int, to: int) -> bool {
    forall|k: int| from <= k < to ==> s[k] != '`' && s[k] != '*' && s[k] != '['
}

/// In a stretch without markers the last blank is found whatever the kind that is asked for.
proof fn lemma_unmarked(
    s: Seq<char>,
    from: int,
    to: int,
    limit: int,
    closed: bool,
    found: Option<int>,
)
    requires
        0 <= from <= to <= limit <= s.len(),
        unmarked(s, from, to),
    ensures
        exists|last: Option<int>|
            {
                &&& #[trigger] last_space(s, to, limit, nothing_open(), closed, last) == last_space(
                    s,
                    from,
                    limit,
                    nothing_open(),
                    closed,
                    found,
                )
                &&& last == found || (last is Some && from < last->0 <= to && s[last->0 - 1] == ' ')
                &&& forall|k: int|
                    from <= k < to && #[trigger] s[k] == ' ' ==> last is Some && last->0 >= k + 1
            },
    decreases to - from,
{
    if from == to {
        assert(last_space(s, to, limit, nothing_open(), closed, found) == last_space(
            s,
            from,
            limit,
            nothing_open(),
            closed,
            found,
        ));
    } else {
        assert(s[from] != '`' && s[from] != '*' && s[from] != '[');
        let here = if s[from] == ' ' {
            Some(from + 1)
        } else {
            found
        };
        assert(after_marker(s, from, nothing_open()) == nothing_open());
        assert(marker_len(s, from, nothing_open()) == 1);
        lemma_unmarked(s, from + 1, to, limit, closed, here);
        let last = choose|last: Option<int>|
            {
                &&& #[trigger] last_space(s, to, limit, nothing_open(), closed, last) == last_space(
                    s,
                    from + 1,
                    limit,
                    nothing_open(),
                    closed,
                    here,
                )
                &&& last == here || (last is Some && from + 1 < last->0 <= to && s[last->0 - 1]
                    == ' ')
                &&& forall|k: int|
                    from + 1 <= k < to && #[trigger] s[k] == ' ' ==> last is Some && last->0 >= k
                        + 1
            };
        assert(last_space(s, to, limit, nothing_open(), closed, last) == last_space(
            s,
            from,
            limit,
            nothing_open(),
            closed,
            found,
        ));
    }
}

/// A line without markers is cut behind its last blank in reach.
pub proof fn law_plain_lines_are_cut_late(s: Seq<char>, limit: int)
    requires
        0 <= limit <= s.len(),
        unmarked(s, 0, limit),
    ensures
        forall|k: int| break_point(s, limit) <= k < limit ==> #[trigger] s[k] != ' ',
{
    lemma_unmarked(s, 0, limit, limit, true, None);
    lemma_last_space(s, 0, limit, nothing_open(), false, None);
}

/// While code is open no blank closes anything.
proof fn lemma_in_code(s: Seq<char>, from: int, limit: int, open: Inline, found: Option<int>)
    requires
        0 <= from,
        limit <= s.len(),
        open.code,
        forall|k: int| from <= k < limit ==> s[k] != '`',
    ensures
        last_space(s, from, limit, open, true, found) == found,
    decreases limit - from + 1,
{
    if from < limit {
        assert(s[from] != '`');
        lemma_in_code(s, from + 1, limit, open, found);
    }
}

/// While bold text is open no blank closes anything.
proof fn lemma_in_bold(s: Seq<char>, from: int, limit: int, open: Inline, found: Option<int>)
    requires
        0 <= from,
        limit <= s.len(),
        open.bold,
        forall|k: int| from <= k < limit ==> s[k] != '*',
    ensures
        last_space(s, from, limit, open, true, found) == found,
    decreases limit - from + 1,
{
    if from < limit {
        assert(s[from] != '*');
        let next = after_marker(s, from, open);
        lemma_in_bold(s, from + marker_len(s, from, open), limit, next, found);
    }
}

/// While a link's label is open no blank closes anything.
proof fn lemma_in_label(s: Seq<char>, from: int, limit: int, open: Inline, found: Option<int>)
    requires
        0 <= from,
        limit <= s.len(),
        open.link == Link::Label,
        forall|k: int| from <= k < limit ==> s[k] != ']' && s[k] != '\n',
    ensures
        last_space(s, from, limit, open, true, found) == found,
    decreases limit - from + 1,
{
    if from < limit {
        assert(s[from] != ']' && s[from] != '\n');
        let next = after_marker(s, from, open);
        lemma_in_label(s, from + marker_len(s, from, open), limit, next, found);
    }
}

/// A cut does not fall into a code span, bold text or a link's label that would be left half-written:
/// where one of them starts behind a blank and does not end in reach, the cut falls behind that blank.
pub proof fn law_cuts_spare_what_is_open(
    front: Seq<char>,
    marker: Seq<char>,
    inner: Seq<char>,
    limit: int,
)
    requires
        unmarked(front, 0, front.len() as int),
        front.len() + 1 < limit <= front.len() + 1 + marker.len() + inner.len(),
        (marker == "`"@ && !inner.contains('`')) || (marker == "**"@ && !inner.contains('*') && limit
            > front.len() + 2) || (marker == "["@ && !inner.contains(']') && !inner.contains('\n')),
    ensures
        break_point(front + " "@ + marker + inner, limit) == front.len() + 1,
{
    reveal_strlit(" ");
    reveal_strlit("`");
    reveal_strlit("**");
    reveal_strlit("[");
    let s = front + " "@ + marker + inner;
    let at = front.len() + 1int;
    assert(s[at - 1] == ' ');
    assert(unmarked(s, 0, at)) by {
        assert forall|k: int| 0 <= k < at implies s[k] != '`' && s[k] != '*' && s[k] != '[' by {
            if k < front.len() {
                assert(s[k] == front[k]);
            }
        }
    }
    lemma_unmarked(s, 0, at, limit, true, None);
    let last = choose|last: Option<int>|
        {
            &&& #[trigger] last_space(s, at, limit, nothing_open(), true, last) == last_space(
                s,
                0,
                limit,
                nothing_open(),
                true,
                None,
            )
            &&& last == None::<int> || (last is Some && 0 < last->0 <= at && s[last->0 - 1] == ' ')
            &&& forall|k: int|
                0 <= k < at && #[trigger] s[k] == ' ' ==> last is Some && last->0 >= k + 1
        };
    assert(s[at - 1] == ' ');
    assert(last == Some(at));
    let next = after_marker(s, at, nothing_open());
    let from = at + marker.len();
    assert forall|k: int| from <= k < limit implies inner.contains(#[trigger] s[k]) by {
        assert(s[k] == inner[k - from]);
    }
    assert(s[at] == marker[0]);
    if marker == "`"@ {
        assert forall|k: int| from <= k < limit implies s[k] != '`' by {
            assert(inner.contains(s[k]));
        }
        assert(next.code);
        lemma_in_code(s, from, limit, next, last);
    } else if marker == "**"@ {
        assert(s[at + 1] == '*');
        assert forall|k: int| from <= k < limit implies s[k] != '*' by {
            assert(inner.contains(s[k]));
        }
        assert(next.bold);
        lemma_in_bold(s, from, limit, next, last);
    } else {
        assert forall|k: int| from <= k < limit implies s[k] != ']' && s[k] != '\n' by {
            assert(inner.contains(s[k]));
        }
        assert(next.link == Link::Label);
        lemma_in_label(s, from, limit, next, last);
    }
}

/// A message that fits is sent whole, as one message: one without code blocks up to the limit, and any
/// other with room for a closing marker.
pub proof fn law_short_messages_are_sent_whole(message: Seq<char>, max: int)
    requires
        message.len() > 0,
        message.len() + 4 <= max || (message.len() <= max && no_fences(lines_inclusive(message))),
    ensures
        piece_texts(pieces_of(message, max)) == seq![message],
{
    let lines = lines_inclusive(message);
    lemma_lines_inclusive(message);
    let spare: int = if no_fences(lines) {
        0
    } else {
        4
    };
    lemma_whole(lines, max, spare);
    let pen = lines_written(new_pen(), lines, max);
    let pieces = pieces_of(message, max);
    assert(pieces.len() == 1);
    assert(piece_text(pieces[0]) =~= message);
    assert(piece_texts(pieces) =~= seq![message]);
}

proof fn lemma_whole(lines: Seq<Seq<char>>, max: int, spare: int)
    requires
        joined_lines(lines).len() + spare <= max,
        spare == 4 || (spare == 0 && no_fences(lines)),
        forall|i: int| 0 <= i < lines.len() ==> (#[trigger] lines[i]).len() > 0,
    ensures
        ({
            let pen = lines_written(new_pen(), lines, max);
            &&& pen.pieces.len() == 0
            &&& pen.opening.len() == 0
            &&& pen.body == joined_lines(lines)
            &&& spare == 0 ==> pen.fence is None
        }),
    decreases lines.len(),
{
    if lines.len() > 0 {
        let front = lines.drop_last();
        let line = lines.last();
        assert(line == lines[lines.len() - 1]);
        assert forall|i: int| 0 <= i < front.len() implies (#[trigger] front[i]).len() > 0 by {
            assert(lines[i].len() > 0);
        }
        if spare == 0 {
            assert(no_fences(front)) by {
                assert forall|i: int| 0 <= i < front.len() implies !is_fence_line(
                    #[trigger] front[i],
                ) by {
                    assert(!is_fence_line(lines[i]));
                }
            }
            assert(!is_fence_line(line));
        }
        lemma_whole(front, max, spare);
        let pen = lines_written(new_pen(), front, max);
        assert(pen.body.len() + line.len() + spare <= max);
        let after = line_written(pen, line, max);
        assert(after.body =~= pen.body + line);
    }
}

/// A code block that goes on in the next message is opened there as it was: what stands in front of a
/// piece is nothing, or one of the message's own fence lines.
pub proof fn law_fences_are_opened_again_as_they_were(message: Seq<char>, max: int)
    ensures
        forall|i: int|
            0 <= i < pieces_of(message, max).len() ==> is_opening(
                lines_inclusive(message),
                (#[trigger] pieces_of(message, max)[i]).opening,
            ),
{
    lemma_openings(lines_inclusive(message), lines_inclusive(message), at_least_one(max));
}

/// Whether a text is empty or a line end behind one of the fence lines.
pub open spec fn is_opening(lines: Seq<Seq<char>>, opening: Seq<char>) -> bool {
    opening.len() == 0 || exists|j: int|
        0 <= j < lines.len() && is_fence_line(#[trigger] lines[j]) && opening == without_newline(
            lines[j],
        ).push('\n')
}

/// Whether everything that was opened again stems from the lines.
spec fn opened_from(lines: Seq<Seq<char>>, pen: Pen) -> bool {
    &&& forall|i: int|
        0 <= i < pen.pieces.len() ==> is_opening(lines, (#[trigger] pen.pieces[i]).opening)
    &&& is_opening(lines, pen.opening)
    &&& pen.fence matches Some(fence) ==> is_opening(lines, fence.push('\n'))
}

proof fn lemma_flushed_openings(lines: Seq<Seq<char>>, pen: Pen)
    requires
        opened_from(lines, pen),
    ensures
        opened_from(lines, flushed(pen)),
{
}

proof fn lemma_text_openings(lines: Seq<Seq<char>>, pen: Pen, s: Seq<char>, max: int)
    requires
        opened_from(lines, pen),
    ensures
        opened_from(lines, text_written(pen, s, max)),
    decreases s.len(), pen.body.len(),
{
    let room = room_left(pen, max);
    if s.len() == 0 || s.len() <= room {
    } else if pen.body.len() > 0 {
        lemma_flushed_openings(lines, pen);
        lemma_text_openings(lines, flushed(pen), s, max);
    } else {
        lemma_break_point(s, room);
        let take = cut_len(s, room);
        if take <= s.len() {
            let filled = Pen { body: pen.body + s.take(take), ..pen };
            lemma_flushed_openings(lines, filled);
            lemma_text_openings(lines, flushed(filled), s.skip(take), max);
        }
    }
}

proof fn lemma_openings(all: Seq<Seq<char>>, lines: Seq<Seq<char>>, max: int)
    requires
        lines.len() <= all.len(),
        lines =~= all.take(lines.len() as int),
    ensures
        opened_from(all, lines_written(new_pen(), lines, max)),
    decreases lines.len(),
{
    if lines.len() > 0 {
        let front = lines.drop_last();
        let line = lines.last();
        assert(front =~= all.take(front.len() as int));
        lemma_openings(all, front, max);
        let pen = lines_written(new_pen(), front, max);
        let n = lines.len() - 1;
        assert(all[n] == line);
        if !is_fence_line(line) {
            lemma_text_openings(all, pen, line, max);
        } else if pen.fence is Some {
            let left = Pen { fence: None, ..pen };
            let at = marker_end(line);
            lemma_text_openings(
                all,
                Pen { body: pen.body + line.take(at), ..left },
                line.skip(at),
                max,
            );
            lemma_flushed_openings(all, pen);
            lemma_text_openings(all, Pen { fence: None, ..flushed(pen) }, line, max);
        } else {
            lemma_flushed_openings(all, pen);
            let start = if line.len() + 4 > room_left(pen, max) {
                flushed(pen)
            } else {
                pen
            };
            lemma_text_openings(all, start, line, max);
            assert(is_opening(all, without_newline(line).push('\n')));
        }
    } else {
        assert(new_pen().pieces.len() == 0);
    }
}

} // verus!
