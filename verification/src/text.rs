//! Text as sequences of characters: the searching, trimming, splitting and number formatting that
//! the rest of the library is written with.
use vstd::prelude::*;
use vstd::string::*;

verus! {

/// `String::push`: appends one character.
pub assume_specification[ String::push ](s: &mut String, ch: char)
    ensures
        final(s)@ == old(s)@.push(ch),
;

/// `String::push_str`: appends a whole string slice.
pub assume_specification[ String::push_str ](s: &mut String, string: &str)
    ensures
        final(s)@ == old(s)@ + string@,
;

/// Whether a character has Unicode's `White_Space` property.
pub open spec fn white_space(c: char) -> bool {
    let code = c as u32;
    ||| 0x09 <= code <= 0x0d
    ||| code == 0x20
    ||| code == 0x85
    ||| code == 0xa0
    ||| code == 0x1680
    ||| 0x2000 <= code <= 0x200a
    ||| code == 0x2028
    ||| code == 0x2029
    ||| code == 0x202f
    ||| code == 0x205f
    ||| code == 0x3000
}

/// `char::is_whitespace`: decides Unicode's `White_Space` property, which the Unicode Character
/// Database gives to the twenty-five characters of [`white_space`].
pub assume_specification[ char::is_whitespace ](c: char) -> (r: bool)
    ensures
        r == white_space(c),
;

/// The texts of a sequence of strings.
pub open spec fn texts(strings: Seq<String>) -> Seq<Seq<char>> {
    Seq::new(strings.len(), |i: int| strings[i]@)
}

/// What a sequence of values stands for, item by item.
pub open spec fn seq_view<T: View>(items: Seq<T>) -> Seq<T::V> {
    Seq::new(items.len(), |i: int| items[i]@)
}

/// What an optional value stands for.
pub open spec fn opt_view<T: View>(value: Option<T>) -> Option<T::V> {
    match value {
        Some(v) => Some(v@),
        None => None,
    }
}

/// Another copy of an optional string.
pub fn clone_text(value: &Option<String>) -> (r: Option<String>)
    ensures
        opt_view(r) == opt_view(*value),
{
    match value {
        Some(s) => Some(s.clone()),
        None => None,
    }
}

/// Whether `part` stands in `s` at position `at`.
pub open spec fn occurs_at(s: Seq<char>, part: Seq<char>, at: int) -> bool {
    &&& 0 <= at
    &&& at + part.len() <= s.len()
    &&& s.subrange(at, at + part.len()) == part
}

/// The first position not before `from` at which `part` stands in `s`.
pub open spec fn find_from(s: Seq<char>, part: Seq<char>, from: int) -> Option<int>
    decreases s.len() - from + 1,
{
    if from < 0 || from + part.len() > s.len() {
        None
    } else if occurs_at(s, part, from) {
        Some(from)
    } else {
        find_from(s, part, from + 1)
    }
}

/// Whether `part` stands anywhere in `s`.
pub open spec fn contains(s: Seq<char>, part: Seq<char>) -> bool {
    exists|at: int| occurs_at(s, part, at)
}

/// The first position not before `from` at which the character `c` stands in `s`.
pub open spec fn index_from(s: Seq<char>, c: char, from: int) -> Option<int>
    decreases s.len() - from,
{
    if from < 0 || from >= s.len() {
        None
    } else if s[from] == c {
        Some(from)
    } else {
        index_from(s, c, from + 1)
    }
}

/// `s` without its leading white space.
pub open spec fn trim_start(s: Seq<char>) -> Seq<char>
    decreases s.len(),
{
    if s.len() > 0 && white_space(s[0]) {
        trim_start(s.drop_first())
    } else {
        s
    }
}

/// `s` without its trailing white space.
pub open spec fn trim_end(s: Seq<char>) -> Seq<char>
    decreases s.len(),
{
    if s.len() > 0 && white_space(s.last()) {
        trim_end(s.drop_last())
    } else {
        s
    }
}

/// `s` without the white space on either side.
pub open spec fn trim(s: Seq<char>) -> Seq<char> {
    trim_end(trim_start(s))
}

/// `s` without any trailing copies of `c`.
pub open spec fn trim_end_char(s: Seq<char>, c: char) -> Seq<char>
    decreases s.len(),
{
    if s.len() > 0 && s.last() == c {
        trim_end_char(s.drop_last(), c)
    } else {
        s
    }
}

/// `s` with every occurrence of `part`, taken from the left, replaced by `with`.
pub open spec fn replace_all(s: Seq<char>, part: Seq<char>, with: Seq<char>) -> Seq<char>
    decreases s.len(),
{
    if part.len() == 0 || s.len() < part.len() {
        s
    } else if occurs_at(s, part, 0) {
        with + replace_all(s.skip(part.len() as int), part, with)
    } else {
        seq![s[0]] + replace_all(s.skip(1), part, with)
    }
}

/// The pieces of `s` between occurrences of `c`; always at least one.
pub open spec fn split_char(s: Seq<char>, c: char) -> Seq<Seq<char>>
    decreases s.len(),
{
    match index_from(s, c, 0) {
        Some(at) => if 0 <= at < s.len() {
            seq![s.take(at)] + split_char(s.skip(at + 1), c)
        } else {
            seq![s]
        },
        None => seq![s],
    }
}

/// A line's text without the carriage return that belongs to its line ending.
pub open spec fn without_return(line: Seq<char>) -> Seq<char> {
    if line.len() > 0 && line.last() == '\r' {
        line.drop_last()
    } else {
        line
    }
}

/// The lines of `s`, each without its line ending (`\n` or `\r\n`). A final line ending starts no
/// further line.
pub open spec fn lines(s: Seq<char>) -> Seq<Seq<char>>
    decreases s.len(),
{
    if s.len() == 0 {
        seq![]
    } else {
        match index_from(s, '\n', 0) {
            Some(at) => if 0 <= at < s.len() {
                seq![without_return(s.take(at))] + lines(s.skip(at + 1))
            } else {
                seq![s]
            },
            None => seq![s],
        }
    }
}

/// The parts one after another with `separator` between neighbours.
pub open spec fn join(parts: Seq<Seq<char>>, separator: Seq<char>) -> Seq<char>
    decreases parts.len(),
{
    if parts.len() == 0 {
        seq![]
    } else if parts.len() == 1 {
        parts[0]
    } else {
        join(parts.drop_last(), separator) + separator + parts.last()
    }
}

/// The decimal digit of value `d`.
pub open spec fn digit(d: int) -> char {
    if d == 0 {
        '0'
    } else if d == 1 {
        '1'
    } else if d == 2 {
        '2'
    } else if d == 3 {
        '3'
    } else if d == 4 {
        '4'
    } else if d == 5 {
        '5'
    } else if d == 6 {
        '6'
    } else if d == 7 {
        '7'
    } else if d == 8 {
        '8'
    } else {
        '9'
    }
}

/// A number in decimal, without leading zeros.
pub open spec fn decimal(n: nat) -> Seq<char>
    decreases n,
{
    if n < 10 {
        seq![digit(n as int)]
    } else {
        decimal(n / 10).push(digit((n % 10) as int))
    }
}

/// An integer in decimal, negative ones behind a minus sign.
pub open spec fn signed_decimal(n: int) -> Seq<char> {
    if n < 0 {
        seq!['-'] + decimal((-n) as nat)
    } else {
        decimal(n as nat)
    }
}

pub open spec fn is_digit(c: char) -> bool {
    '0' <= c && c <= '9'
}

pub open spec fn all_digits(s: Seq<char>) -> bool {
    forall|i: int| 0 <= i < s.len() ==> is_digit(#[trigger] s[i])
}

/// The number that a string of decimal digits denotes.
pub open spec fn digits_value(s: Seq<char>) -> nat
    decreases s.len(),
{
    if s.len() == 0 {
        0
    } else {
        (digits_value(s.drop_last()) * 10 + (s.last() as int - '0' as int)) as nat
    }
}

/// What a decimal numeral without sign, or with one leading plus sign, denotes.
pub open spec fn parse_nat(s: Seq<char>) -> Option<nat> {
    let body = if s.len() > 0 && s[0] == '+' {
        s.skip(1)
    } else {
        s
    };
    if body.len() > 0 && all_digits(body) {
        Some(digits_value(body))
    } else {
        None
    }
}

/// What a decimal numeral with an optional sign denotes.
pub open spec fn parse_int(s: Seq<char>) -> Option<int> {
    if s.len() > 0 && s[0] == '-' {
        let body = s.skip(1);
        if body.len() > 0 && all_digits(body) {
            Some(-(digits_value(body) as int))
        } else {
            None
        }
    } else {
        match parse_nat(s) {
            Some(n) => Some(n as int),
            None => None,
        }
    }
}

pub open spec fn lower_char(c: char) -> char {
    if 'A' <= c && c <= 'Z' {
        ((c as u8 + 32) as u8) as char
    } else {
        c
    }
}

/// `s` with its ASCII capitals in lower case.
pub open spec fn lower(s: Seq<char>) -> Seq<char> {
    s.map_values(|c: char| lower_char(c))
}

/// Whether `a` comes before `b` in the order of their characters.
pub open spec fn before(a: Seq<char>, b: Seq<char>) -> bool
    decreases a.len(),
{
    if b.len() == 0 {
        false
    } else if a.len() == 0 {
        true
    } else if a[0] != b[0] {
        a[0] < b[0]
    } else {
        before(a.skip(1), b.skip(1))
    }
}

/// Of two texts, exactly one comes first unless they are the same.
pub proof fn lemma_before_total(a: Seq<char>, b: Seq<char>)
    ensures
        a == b ==> !before(a, b),
        before(a, b) ==> !before(b, a),
        a != b ==> before(a, b) || before(b, a),
    decreases a.len(),
{
    if a.len() == 0 && b.len() == 0 {
        assert(a =~= b);
    } else if a.len() > 0 && b.len() > 0 && a[0] == b[0] {
        lemma_before_total(a.skip(1), b.skip(1));
        if a.skip(1) == b.skip(1) {
            assert(a =~= seq![a[0]] + a.skip(1));
            assert(b =~= seq![b[0]] + b.skip(1));
        }
    }
}

pub proof fn lemma_before_trans(a: Seq<char>, b: Seq<char>, c: Seq<char>)
    requires
        before(a, b),
        before(b, c),
    ensures
        before(a, c),
    decreases a.len(),
{
    if a.len() > 0 && a[0] == b[0] && b[0] == c[0] {
        lemma_before_trans(a.skip(1), b.skip(1), c.skip(1));
    }
}

/// The number of bytes that `s` takes in UTF-8.
pub open spec fn utf8_len(s: Seq<char>) -> nat {
    vstd::utf8::encode_utf8(s).len()
}

/// A count as far as a machine word can hold it.
pub open spec fn clamped(n: nat) -> nat {
    if n <= usize::MAX {
        n
    } else {
        usize::MAX as nat
    }
}

/// At most the first `max` characters of `s`.
pub open spec fn first_chars(s: Seq<char>, max: int) -> Seq<char> {
    if s.len() <= max {
        s
    } else {
        s.take(max)
    }
}

pub fn same(a: &str, b: &str) -> (r: bool)
    ensures
        r == (a@ == b@),
{
    a.to_owned() == b.to_owned()
}

/// The characters of `s`.
pub fn to_chars(s: &str) -> (chars: Vec<char>)
    ensures
        chars@ == s@,
{
    let mut chars: Vec<char> = Vec::new();
    for c in it: s.chars()
        invariant
            chars@ == it.seq().take(it.index()),
    {
        chars.push(c);
    }
    chars
}

/// The characters `from..to` as a string.
pub fn slice(chars: &Vec<char>, from: usize, to: usize) -> (s: String)
    requires
        from <= to <= chars@.len(),
    ensures
        s@ == chars@.subrange(from as int, to as int),
{
    let mut s = String::new();
    let mut i: usize = from;
    while i < to
        invariant
            from <= i <= to <= chars@.len(),
            s@ == chars@.subrange(from as int, i as int),
        decreases to - i,
    {
        s.push(chars[i]);
        i = i + 1;
        assert(chars@.subrange(from as int, i as int) =~= chars@.subrange(
            from as int,
            i - 1,
        ).push(chars@[i - 1]));
    }
    s
}

pub fn from_chars(chars: &Vec<char>) -> (s: String)
    ensures
        s@ == chars@,
{
    let s = slice(chars, 0, chars.len());
    assert(chars@.subrange(0, chars@.len() as int) =~= chars@);
    s
}

/// The characters `from..to`, copied.
pub fn copy_range(chars: &Vec<char>, from: usize, to: usize) -> (r: Vec<char>)
    requires
        from <= to <= chars@.len(),
    ensures
        r@ == chars@.subrange(from as int, to as int),
{
    let mut r: Vec<char> = Vec::new();
    let mut i: usize = from;
    while i < to
        invariant
            from <= i <= to <= chars@.len(),
            r@ == chars@.subrange(from as int, i as int),
        decreases to - i,
    {
        r.push(chars[i]);
        i = i + 1;
        assert(chars@.subrange(from as int, i as int) =~= chars@.subrange(
            from as int,
            i - 1,
        ).push(chars@[i - 1]));
    }
    r
}

/// Whether `part` stands in `chars` at position `at`.
pub fn matches_at(chars: &Vec<char>, part: &Vec<char>, at: usize) -> (r: bool)
    ensures
        r == occurs_at(chars@, part@, at as int),
{
    if at > chars.len() || chars.len() - at < part.len() {
        return false;
    }
    let mut i: usize = 0;
    while i < part.len()
        invariant
            at + part.len() <= chars.len(),
            i <= part.len(),
            forall|k: int| 0 <= k < i ==> chars@[at + k] == #[trigger] part@[k],
        decreases part@.len() - i,
    {
        if chars[at + i] != part[i] {
            assert(chars@.subrange(at as int, at + part@.len())[i as int] != part@[i as int]);
            return false;
        }
        i = i + 1;
    }
    assert(chars@.subrange(at as int, at + part@.len()) =~= part@);
    true
}

/// The first position not before `from` at which `part` stands in `chars`.
pub fn find(chars: &Vec<char>, part: &Vec<char>, from: usize) -> (r: Option<usize>)
    ensures
        match r {
            Some(at) => find_from(chars@, part@, from as int) == Some(at as int),
            None => find_from(chars@, part@, from as int) is None,
        },
{
    let mut i: usize = from;
    while i <= chars.len() && chars.len() - i >= part.len()
        invariant
            find_from(chars@, part@, from as int) == find_from(chars@, part@, i as int),
        decreases chars@.len() + 1 - i,
    {
        if matches_at(chars, part, i) {
            return Some(i);
        }
        if i == chars.len() {
            assert(find_from(chars@, part@, i + 1) is None);
            return None;
        }
        i = i + 1;
    }
    None
}

/// The first position not before `from` at which `c` stands in `chars`.
pub fn index_of(chars: &Vec<char>, c: char, from: usize) -> (r: Option<usize>)
    ensures
        match r {
            Some(at) => index_from(chars@, c, from as int) == Some(at as int),
            None => index_from(chars@, c, from as int) is None,
        },
{
    let mut i: usize = from;
    while i < chars.len()
        invariant
            index_from(chars@, c, from as int) == index_from(chars@, c, i as int),
        decreases chars@.len() - i,
    {
        if chars[i] == c {
            return Some(i);
        }
        i = i + 1;
    }
    None
}

/// What a found character's position is.
pub proof fn lemma_index_from(s: Seq<char>, c: char, from: int)
    requires
        0 <= from,
    ensures
        match index_from(s, c, from) {
            Some(at) => from <= at < s.len() && s[at] == c && forall|k: int|
                from <= k < at ==> s[k] != c,
            None => forall|k: int| from <= k < s.len() ==> s[k] != c,
        },
    decreases s.len() - from,
{
    if from < s.len() && s[from] != c {
        lemma_index_from(s, c, from + 1);
    }
}

/// What a found part's position is.
pub proof fn lemma_find_from(s: Seq<char>, part: Seq<char>, from: int)
    requires
        0 <= from,
    ensures
        match find_from(s, part, from) {
            Some(at) => from <= at && occurs_at(s, part, at) && forall|k: int|
                from <= k < at ==> !occurs_at(s, part, k),
            None => forall|k: int| from <= k ==> !occurs_at(s, part, k),
        },
    decreases s.len() - from + 1,
{
    if from + part.len() <= s.len() && !occurs_at(s, part, from) {
        lemma_find_from(s, part, from + 1);
    }
}

/// Searching from the start finds a part exactly where there is one.
pub proof fn lemma_contains(s: Seq<char>, part: Seq<char>)
    ensures
        contains(s, part) == (find_from(s, part, 0) is Some),
{
    lemma_find_from(s, part, 0);
    if let Some(at) = find_from(s, part, 0) {
        assert(occurs_at(s, part, at));
    }
}

/// Whether `part` stands anywhere in `s`.
pub fn has(s: &str, part: &str) -> (r: bool)
    ensures
        r == contains(s@, part@),
{
    proof {
        lemma_contains(s@, part@);
    }
    find(&to_chars(s), &to_chars(part), 0).is_some()
}

/// Whether `s` starts with `part`.
pub fn starts_with(s: &str, part: &str) -> (r: bool)
    ensures
        r == occurs_at(s@, part@, 0),
{
    matches_at(&to_chars(s), &to_chars(part), 0)
}

/// What follows `prefix` in `s`, if `s` starts with it.
pub fn strip_prefix(s: &str, prefix: &str) -> (r: Option<String>)
    ensures
        match r {
            Some(rest) => occurs_at(s@, prefix@, 0) && rest@ == s@.skip(prefix@.len() as int),
            None => !occurs_at(s@, prefix@, 0),
        },
{
    let chars = to_chars(s);
    let part = to_chars(prefix);
    if matches_at(&chars, &part, 0) {
        let rest = slice(&chars, part.len(), chars.len());
        assert(rest@ =~= s@.skip(prefix@.len() as int));
        Some(rest)
    } else {
        None
    }
}

/// The characters of `s` between the white space on either side, as a range.
fn trimmed_range(s: &Vec<char>) -> (r: (usize, usize))
    ensures
        r.0 <= r.1 <= s@.len(),
        s@.subrange(r.0 as int, r.1 as int) == trim(s@),
{
    let mut i: usize = 0;
    assert(s@.skip(0) =~= s@);
    while i < s.len() && s[i].is_whitespace()
        invariant
            i <= s@.len(),
            trim_start(s@) == trim_start(s@.skip(i as int)),
        decreases s@.len() - i,
    {
        assert(s@.skip(i as int).drop_first() =~= s@.skip(i + 1));
        i = i + 1;
    }
    assert(trim_start(s@) == s@.skip(i as int));
    let mut j: usize = s.len();
    assert(s@.skip(i as int) =~= s@.subrange(i as int, j as int));
    while j > i && s[j - 1].is_whitespace()
        invariant
            i <= j <= s@.len(),
            trim(s@) == trim_end(s@.subrange(i as int, j as int)),
        decreases j,
    {
        assert(s@.subrange(i as int, j as int).drop_last() =~= s@.subrange(i as int, j - 1));
        j = j - 1;
    }
    (i, j)
}

/// `s` without the white space on either side.
pub fn trimmed(s: &str) -> (r: String)
    ensures
        r@ == trim(s@),
{
    let chars = to_chars(s);
    let (from, to) = trimmed_range(&chars);
    slice(&chars, from, to)
}

/// `s` without its trailing white space.
pub fn trimmed_end(s: &str) -> (r: String)
    ensures
        r@ == trim_end(s@),
{
    let chars = to_chars(s);
    let mut j: usize = chars.len();
    assert(s@ =~= s@.subrange(0, j as int));
    while j > 0 && chars[j - 1].is_whitespace()
        invariant
            j <= chars@.len(),
            chars@ == s@,
            trim_end(s@) == trim_end(s@.subrange(0, j as int)),
        decreases j,
    {
        assert(s@.subrange(0, j as int).drop_last() =~= s@.subrange(0, j - 1));
        j = j - 1;
    }
    slice(&chars, 0, j)
}

/// `s` without any trailing copies of `c`.
pub fn trimmed_end_char(s: &str, c: char) -> (r: String)
    ensures
        r@ == trim_end_char(s@, c),
{
    let chars = to_chars(s);
    let mut j: usize = chars.len();
    assert(s@ =~= s@.subrange(0, j as int));
    while j > 0 && chars[j - 1] == c
        invariant
            j <= chars@.len(),
            chars@ == s@,
            trim_end_char(s@, c) == trim_end_char(s@.subrange(0, j as int), c),
        decreases j,
    {
        assert(s@.subrange(0, j as int).drop_last() =~= s@.subrange(0, j - 1));
        j = j - 1;
    }
    slice(&chars, 0, j)
}

/// `s` with every occurrence of `part` replaced by `with`.
pub fn replaced(s: &str, part: &str, with: &str) -> (r: String)
    requires
        part@.len() > 0,
    ensures
        r@ == replace_all(s@, part@, with@),
{
    let chars = to_chars(s);
    let pattern = to_chars(part);
    let mut out = String::new();
    let mut i: usize = 0;
    assert(s@ =~= s@.skip(0));
    assert(out@ + replace_all(s@.skip(0), part@, with@) =~= replace_all(s@, part@, with@));
    while i < chars.len() && chars.len() - i >= pattern.len()
        invariant
            chars@ == s@,
            pattern@ == part@,
            part@.len() > 0,
            i <= chars@.len(),
            out@ + replace_all(s@.skip(i as int), part@, with@) == replace_all(s@, part@, with@),
        decreases chars@.len() - i,
    {
        let ghost rest = s@.skip(i as int);
        let ghost before = out@;
        assert(occurs_at(rest, part@, 0) == occurs_at(s@, part@, i as int)) by {
            assert(rest.subrange(0, part@.len() as int) =~= s@.subrange(
                i as int,
                i + part@.len(),
            ));
        }
        if matches_at(&chars, &pattern, i) {
            out.push_str(with);
            i = i + pattern.len();
            assert(rest.skip(part@.len() as int) =~= s@.skip(i as int));
            assert(before + (with@ + replace_all(s@.skip(i as int), part@, with@)) =~= out@
                + replace_all(s@.skip(i as int), part@, with@));
        } else {
            out.push(chars[i]);
            i = i + 1;
            assert(rest.skip(1) =~= s@.skip(i as int));
            assert(before + (seq![rest[0]] + replace_all(s@.skip(i as int), part@, with@)) =~= out@
                + replace_all(s@.skip(i as int), part@, with@));
        }
    }
    out.push_str(slice(&chars, i, chars.len()).as_str());
    assert(s@.skip(i as int) =~= s@.subrange(i as int, s@.len() as int));
    out
}

/// The pieces of `s` between occurrences of `c`.
pub fn split(s: &str, c: char) -> (r: Vec<String>)
    ensures
        texts(r@) == split_char(s@, c),
{
    let chars = to_chars(s);
    let mut out: Vec<String> = Vec::new();
    let mut i: usize = 0;
    assert(s@ =~= s@.skip(0));
    assert(texts(out@) + split_char(s@.skip(0), c) =~= split_char(s@, c));
    loop
        invariant
            chars@ == s@,
            i <= chars@.len(),
            texts(out@) + split_char(s@.skip(i as int), c) == split_char(s@, c),
        decreases chars@.len() - i,
    {
        let ghost rest = s@.skip(i as int);
        let ghost before = out@;
        proof {
            lemma_index_from(rest, c, 0);
            lemma_index_from(s@, c, i as int);
        }
        match index_of(&chars, c, i) {
            Some(at) => {
                assert(at < chars.len());
                proof {
                    assert(rest[at - i] == c);
                    assert(index_from(rest, c, 0) == Some(at - i)) by {
                        let k = index_from(rest, c, 0)->0;
                        assert(s@[i + k] == rest[k]);
                        assert(forall|j: int| 0 <= j < rest.len() ==> rest[j] == s@[i + j]);
                    }
                }
                out.push(slice(&chars, i, at));
                assert(rest.take(at - i) =~= s@.subrange(i as int, at as int));
                assert(rest.skip(at - i + 1) =~= s@.skip(at + 1));
                assert(texts(out@) =~= texts(before).push(s@.subrange(i as int, at as int)));
                assert(texts(before) + (seq![s@.subrange(i as int, at as int)] + split_char(
                    s@.skip(at + 1),
                    c,
                )) =~= texts(out@) + split_char(s@.skip(at + 1), c));
                i = at + 1;
            },
            None => {
                proof {
                    assert(index_from(rest, c, 0) is None) by {
                        if let Some(k) = index_from(rest, c, 0) {
                            assert(s@[i + k] == rest[k]);
                        }
                    }
                }
                out.push(slice(&chars, i, chars.len()));
                assert(rest =~= s@.subrange(i as int, s@.len() as int));
                assert(texts(out@) =~= texts(before) + seq![rest]);
                return out;
            },
        }
    }
}

/// The lines of `s`, each without its line ending.
pub fn split_lines(s: &str) -> (r: Vec<String>)
    ensures
        texts(r@) == lines(s@),
{
    let chars = to_chars(s);
    let mut out: Vec<String> = Vec::new();
    let mut i: usize = 0;
    assert(s@ =~= s@.skip(0));
    assert(texts(out@) + lines(s@.skip(0)) =~= lines(s@));
    while i < chars.len()
        invariant
            chars@ == s@,
            i <= chars@.len(),
            texts(out@) + lines(s@.skip(i as int)) == lines(s@),
        decreases chars@.len() - i,
    {
        let ghost rest = s@.skip(i as int);
        let ghost before = out@;
        proof {
            lemma_index_from(rest, '\n', 0);
            lemma_index_from(s@, '\n', i as int);
        }
        match index_of(&chars, '\n', i) {
            Some(at) => {
                proof {
                    assert(rest[at - i] == '\n');
                    assert(index_from(rest, '\n', 0) == Some(at - i)) by {
                        let k = index_from(rest, '\n', 0)->0;
                        assert(s@[i + k] == rest[k]);
                        assert(forall|j: int| 0 <= j < rest.len() ==> rest[j] == s@[i + j]);
                    }
                    assert(rest.take(at - i) =~= s@.subrange(i as int, at as int));
                    assert(rest.skip(at - i + 1) =~= s@.skip(at + 1));
                }
                let end: usize = if at > i && chars[at - 1] == '\r' {
                    at - 1
                } else {
                    at
                };
                out.push(slice(&chars, i, end));
                let ghost line = without_return(rest.take(at - i));
                assert(s@.subrange(i as int, end as int) =~= line);
                assert(texts(out@) =~= texts(before).push(line));
                assert(texts(before) + (seq![line] + lines(s@.skip(at + 1))) =~= texts(out@)
                    + lines(s@.skip(at + 1)));
                i = at + 1;
            },
            None => {
                proof {
                    assert(index_from(rest, '\n', 0) is None) by {
                        if let Some(k) = index_from(rest, '\n', 0) {
                            assert(s@[i + k] == rest[k]);
                        }
                    }
                }
                out.push(slice(&chars, i, chars.len()));
                assert(rest =~= s@.subrange(i as int, s@.len() as int));
                assert(texts(out@) =~= texts(before) + seq![rest]);
                return out;
            },
        }
    }
    assert(texts(out@) + lines(s@.skip(i as int)) =~= texts(out@));
    out
}

/// The strings one after another with `separator` between neighbours.
pub fn joined(parts: &Vec<String>, separator: &str) -> (r: String)
    ensures
        r@ == join(texts(parts@), separator@),
{
    let ghost all = texts(parts@);
    if parts.len() == 0 {
        return String::new();
    }
    let mut out = parts[0].clone();
    let mut i: usize = 1;
    assert(all.take(1) =~= seq![all[0]]);
    while i < parts.len()
        invariant
            1 <= i <= parts@.len(),
            all == texts(parts@),
            out@ == join(all.take(i as int), separator@),
        decreases parts@.len() - i,
    {
        out.push_str(separator);
        out.push_str(parts[i].as_str());
        i = i + 1;
        assert(all.take(i as int).drop_last() =~= all.take(i - 1));
    }
    assert(all.take(i as int) =~= all);
    out
}

fn digit_char(d: u64) -> (c: char)
    requires
        d < 10,
    ensures
        c == digit(d as int),
{
    match d {
        0 => '0',
        1 => '1',
        2 => '2',
        3 => '3',
        4 => '4',
        5 => '5',
        6 => '6',
        7 => '7',
        8 => '8',
        _ => '9',
    }
}

/// A number in decimal.
pub fn decimal_u64(n: u64) -> (r: String)
    ensures
        r@ == decimal(n as nat),
    decreases n,
{
    if n < 10 {
        let mut r = String::new();
        r.push(digit_char(n));
        assert(r@ =~= seq![digit(n as int)]);
        r
    } else {
        let mut r = decimal_u64(n / 10);
        r.push(digit_char(n % 10));
        r
    }
}

pub fn decimal_usize(n: usize) -> (r: String)
    ensures
        r@ == decimal(n as nat),
{
    decimal_u64(n as u64)
}

/// An integer in decimal.
pub fn decimal_i64(n: i64) -> (r: String)
    ensures
        r@ == signed_decimal(n as int),
{
    if n < 0 {
        let mut r = String::new();
        r.push('-');
        let magnitude: u64 = if n == i64::MIN {
            9223372036854775808u64
        } else {
            (-n) as u64
        };
        r.push_str(decimal_u64(magnitude).as_str());
        assert(r@ =~= seq!['-'] + decimal((-n) as nat));
        r
    } else {
        decimal_u64(n as u64)
    }
}

proof fn lemma_digits_value_grows(s: Seq<char>, n: int)
    requires
        all_digits(s),
        0 <= n <= s.len(),
    ensures
        digits_value(s.take(n)) <= digits_value(s),
    decreases s.len() - n,
{
    if n < s.len() {
        lemma_digits_value_grows(s, n + 1);
        assert(s.take(n + 1).drop_last() =~= s.take(n));
        assert(is_digit(s[n]));
    } else {
        assert(s.take(n) =~= s);
    }
}

/// A number in decimal reads back as the number.
pub proof fn law_decimals_read_back(n: nat)
    ensures
        parse_nat(decimal(n)) == Some(n),
        all_digits(decimal(n)),
        decimal(n).len() > 0,
{
    lemma_decimal(n);
    assert(is_digit(decimal(n)[0]));
}

proof fn lemma_decimal(n: nat)
    ensures
        all_digits(decimal(n)),
        decimal(n).len() > 0,
        digits_value(decimal(n)) == n,
    decreases n,
{
    let s = decimal(n);
    if n < 10 {
        assert(s.drop_last() =~= seq![]);
        assert(s.last() == digit(n as int));
        assert(digits_value(s.drop_last()) == 0);
    } else {
        lemma_decimal(n / 10);
        let front = decimal(n / 10);
        assert(s.drop_last() =~= front);
        assert(s.last() == digit((n % 10) as int));
        assert forall|i: int| 0 <= i < s.len() implies is_digit(#[trigger] s[i]) by {
            if i < front.len() {
                assert(is_digit(front[i]));
            }
        }
    }
}

/// The value of the digits from `from` on, where they are all digits, there is at least one and
/// the value fits.
fn digits_u64(chars: &Vec<char>, from: usize) -> (r: Option<u64>)
    requires
        from <= chars@.len(),
    ensures
        ({
            let body = chars@.skip(from as int);
            match r {
                Some(n) => body.len() > 0 && all_digits(body) && digits_value(body) == n,
                None => !(body.len() > 0 && all_digits(body)) || digits_value(body) > u64::MAX,
            }
        }),
{
    let ghost body = chars@.skip(from as int);
    if from == chars.len() {
        return None;
    }
    let mut value: u64 = 0;
    let mut i: usize = from;
    while i < chars.len()
        invariant
            from <= i <= chars@.len(),
            body == chars@.skip(from as int),
            all_digits(body.take(i - from)),
            digits_value(body.take(i - from)) == value,
        decreases chars@.len() - i,
    {
        let c = chars[i];
        assert(body[i - from] == c);
        if c < '0' || c > '9' {
            assert(!is_digit(body[i - from]));
            return None;
        }
        let d: u64 = (c as u32 - 48) as u64;
        let ghost next = body.take(i - from + 1);
        assert(next.drop_last() =~= body.take(i - from));
        assert(next.last() == c);
        assert(digits_value(next) == value * 10 + d);
        proof {
            if all_digits(body) {
                lemma_digits_value_grows(body, i - from + 1);
            }
        }
        if value > (u64::MAX - d) / 10 {
            assert(value * 10 + d > u64::MAX);
            return None;
        }
        value = value * 10 + d;
        i = i + 1;
        assert(all_digits(next)) by {
            assert forall|k: int| 0 <= k < next.len() implies is_digit(#[trigger] next[k]) by {
                if k < i - from - 1 {
                    assert(body.take(i - from - 1)[k] == next[k]);
                }
            }
        }
    }
    assert(body.take(i - from) =~= body);
    Some(value)
}

/// Reads a decimal numeral, with an optional leading plus sign, that fits into 64 bits.
pub fn parse_u64(s: &str) -> (r: Option<u64>)
    ensures
        match r {
            Some(n) => parse_nat(s@) == Some(n as nat),
            None => parse_nat(s@) is None || parse_nat(s@)->0 > u64::MAX,
        },
{
    let chars = to_chars(s);
    let from: usize = if chars.len() > 0 && chars[0] == '+' {
        1
    } else {
        0
    };
    assert(s@.skip(0) =~= s@);
    digits_u64(&chars, from)
}

/// Reads a decimal numeral with an optional sign that fits into 64 bits.
pub fn parse_i64(s: &str) -> (r: Option<i64>)
    ensures
        match r {
            Some(n) => parse_int(s@) == Some(n as int),
            None => parse_int(s@) is None || !(i64::MIN <= parse_int(s@)->0 <= i64::MAX),
        },
{
    let chars = to_chars(s);
    assert(s@.skip(0) =~= s@);
    if chars.len() > 0 && chars[0] == '-' {
        match digits_u64(&chars, 1) {
            Some(n) => if n <= 9223372036854775807u64 {
                Some(-(n as i64))
            } else if n == 9223372036854775808u64 {
                Some(i64::MIN)
            } else {
                None
            },
            None => None,
        }
    } else {
        match parse_u64(s) {
            Some(n) => if n <= 9223372036854775807u64 {
                Some(n as i64)
            } else {
                None
            },
            None => None,
        }
    }
}

/// `s` with its ASCII capitals in lower case.
pub fn lowered(s: &str) -> (r: String)
    ensures
        r@ == lower(s@),
{
    let mut out = String::new();
    for c in it: s.chars()
        invariant
            out@ == lower(it.seq().take(it.index())),
    {
        let ghost done = it.seq().take(it.index());
        if 'A' <= c && c <= 'Z' {
            out.push((c as u8 + 32) as char);
        } else {
            out.push(c);
        }
        assert(it.seq().take(it.index() + 1) =~= done.push(c));
        assert(lower(done.push(c)) =~= lower(done).push(lower_char(c)));
    }
    assert(s@.take(s@.len() as int) =~= s@);
    out
}

/// Whether `a` comes before `b` in the order of their characters.
pub fn is_before(a: &str, b: &str) -> (r: bool)
    ensures
        r == before(a@, b@),
{
    let x = to_chars(a);
    let y = to_chars(b);
    let mut i: usize = 0;
    assert(a@.skip(0) =~= a@);
    assert(b@.skip(0) =~= b@);
    while i < x.len() && i < y.len()
        invariant
            x@ == a@,
            y@ == b@,
            i <= x@.len(),
            i <= y@.len(),
            before(a@, b@) == before(a@.skip(i as int), b@.skip(i as int)),
        decreases x@.len() - i,
    {
        if x[i] != y[i] {
            return x[i] < y[i];
        }
        assert(a@.skip(i as int).skip(1) =~= a@.skip(i + 1));
        assert(b@.skip(i as int).skip(1) =~= b@.skip(i + 1));
        i = i + 1;
    }
    i < y.len()
}

/// The number of bytes that `s` takes in UTF-8.
pub fn byte_len(s: &str) -> (n: usize)
    ensures
        n == utf8_len(s@),
{
    s.as_bytes().len()
}

/// At most the first `max` characters of `s`.
pub fn take_chars(s: &str, max: usize) -> (r: String)
    ensures
        r@ == first_chars(s@, max as int),
{
    let chars = to_chars(s);
    if chars.len() <= max {
        from_chars(&chars)
    } else {
        let r = slice(&chars, 0, max);
        assert(r@ =~= s@.take(max as int));
        r
    }
}

/// Whether the parts stand in a text one behind the other.
pub open spec fn in_turn(s: Seq<char>, parts: Seq<Seq<char>>) -> bool
    decreases parts.len(),
{
    parts.len() == 0 || exists|at: int| #[trigger]
        occurs_at(s, parts[0], at) && in_turn(
            s.skip(at + parts[0].len()),
            parts.skip(1),
        )
}

/// A part in front of others that stand in turn.
pub proof fn lemma_in_turn(head: Seq<char>, part: Seq<char>, rest: Seq<char>, parts: Seq<Seq<char>>)
    requires
        in_turn(rest, parts),
    ensures
        in_turn(head + part + rest, seq![part] + parts),
{
    let s = head + part + rest;
    let all = seq![part] + parts;
    let at = head.len() as int;
    assert(s.subrange(at, at + part.len()) =~= part);
    assert(occurs_at(s, all[0], at));
    assert(s.skip(at + part.len()) =~= rest);
    assert(all.skip(1) =~= parts);
}

/// Two parts that stand in a text in turn.
pub proof fn lemma_two(a: Seq<char>, x: Seq<char>, b: Seq<char>, y: Seq<char>, c: Seq<char>)
    ensures
        in_turn(a + x + b + y + c, seq![x, y]),
{
    let none: Seq<Seq<char>> = seq![];
    lemma_in_turn(b, y, c, none);
    lemma_in_turn(a, x, b + y + c, seq![y] + none);
    assert(a + x + (b + y + c) =~= a + x + b + y + c);
    assert(seq![x] + (seq![y] + none) =~= seq![x, y]);
}

/// A part of a text stands in it.
pub proof fn lemma_one(a: Seq<char>, x: Seq<char>, b: Seq<char>)
    ensures
        in_turn(a + x + b, seq![x]),
{
    let none: Seq<Seq<char>> = seq![];
    lemma_in_turn(a, x, b, none);
    assert(seq![x] + none =~= seq![x]);
}

/// Whether a text ends in `part`.
pub open spec fn ends_in(s: Seq<char>, part: Seq<char>) -> bool {
    occurs_at(s, part, s.len() - part.len())
}

/// Two parts that stand in a text right behind each other and close it.
pub proof fn lemma_ends_in(head: Seq<char>, part: Seq<char>)
    ensures
        ends_in(head + part, part),
{
    let s = head + part;
    assert(s.subrange(s.len() - part.len(), s.len() as int) =~= part);
}

/// A part that opens a text.
pub proof fn lemma_starts(part: Seq<char>, rest: Seq<char>)
    ensures
        occurs_at(part + rest, part, 0),
{
    assert((part + rest).subrange(0, part.len() as int) =~= part);
}

/// A part in front of which others stand in turn.
pub proof fn lemma_in_turn_push(
    s: Seq<char>,
    parts: Seq<Seq<char>>,
    gap: Seq<char>,
    part: Seq<char>,
    tail: Seq<char>,
)
    requires
        in_turn(s, parts),
    ensures
        in_turn(s + gap + part + tail, parts.push(part)),
    decreases parts.len(),
{
    let all = s + gap + part + tail;
    let more = parts.push(part);
    if parts.len() == 0 {
        lemma_one(s + gap, part, tail);
        assert(s + gap + part + tail =~= (s + gap) + part + tail);
        assert(more =~= seq![part]);
    } else {
        let at = choose|at: int| #[trigger]
            occurs_at(s, parts[0], at) && in_turn(
                s.skip(at + parts[0].len()),
                parts.skip(1),
            );
        let rest = s.skip(at + parts[0].len());
        lemma_in_turn_push(rest, parts.skip(1), gap, part, tail);
        assert(all.skip(at + parts[0].len()) =~= rest + gap + part + tail);
        assert(more.skip(1) =~= parts.skip(1).push(part));
        assert(all.subrange(at, at + parts[0].len()) =~= s.subrange(at, at + parts[0].len()));
        assert(occurs_at(all, more[0], at));
    }
}

/// Parts that stand in a text in turn also stand in it when text is put around it.
pub proof fn lemma_in_turn_within(
    head: Seq<char>,
    s: Seq<char>,
    tail: Seq<char>,
    parts: Seq<Seq<char>>,
)
    requires
        in_turn(s, parts),
    ensures
        in_turn(head + s + tail, parts),
    decreases parts.len(),
{
    if parts.len() > 0 {
        let all = head + s + tail;
        let at = choose|at: int| #[trigger]
            occurs_at(s, parts[0], at) && in_turn(
                s.skip(at + parts[0].len()),
                parts.skip(1),
            );
        let rest = s.skip(at + parts[0].len());
        let empty: Seq<char> = seq![];
        lemma_in_turn_within(empty, rest, tail, parts.skip(1));
        let found = head.len() + at;
        assert(all.skip(found + parts[0].len()) =~= empty + rest + tail);
        assert(all.subrange(found, found + parts[0].len()) =~= s.subrange(
            at,
            at + parts[0].len(),
        ));
        assert(occurs_at(all, parts[0], found));
    }
}

/// Joined parts stand in the joined text in turn.
pub proof fn lemma_join_in_turn(parts: Seq<Seq<char>>, separator: Seq<char>)
    ensures
        in_turn(join(parts, separator), parts),
    decreases parts.len(),
{
    let empty: Seq<char> = seq![];
    if parts.len() == 1 {
        lemma_one(empty, parts[0], empty);
        assert(empty + parts[0] + empty =~= parts[0]);
        assert(seq![parts[0]] =~= parts);
    } else if parts.len() > 1 {
        lemma_join_in_turn(parts.drop_last(), separator);
        lemma_in_turn_push(
            join(parts.drop_last(), separator),
            parts.drop_last(),
            separator,
            parts.last(),
            empty,
        );
        assert(join(parts, separator) =~= join(parts.drop_last(), separator) + separator
            + parts.last() + empty);
        assert(parts.drop_last().push(parts.last()) =~= parts);
    }
}

/// Parts that stand in a text in turn each stand in it.
pub proof fn lemma_in_turn_contains(s: Seq<char>, parts: Seq<Seq<char>>, k: int)
    requires
        in_turn(s, parts),
        0 <= k < parts.len(),
    ensures
        contains(s, parts[k]),
    decreases parts.len(),
{
    let at = choose|at: int| #[trigger]
        occurs_at(s, parts[0], at) && in_turn(s.skip(at + parts[0].len()), parts.skip(1));
    if k > 0 {
        let from = at + parts[0].len();
        let rest = s.skip(from);
        lemma_in_turn_contains(rest, parts.skip(1), k - 1);
        let part = parts[k];
        assert(parts.skip(1)[k - 1] == part);
        let found = choose|i: int| occurs_at(rest, part, i);
        assert(s.subrange(from + found, from + found + parts[k].len()) =~= rest.subrange(
            found,
            found + parts[k].len(),
        ));
        assert(occurs_at(s, parts[k], from + found));
    }
}

/// What two texts take in UTF-8 together.
pub proof fn lemma_utf8_len_add(a: Seq<char>, b: Seq<char>)
    ensures
        utf8_len(a + b) == utf8_len(a) + utf8_len(b),
    decreases a.len(),
{
    if a.len() == 0 {
        assert(a + b =~= b);
    } else {
        lemma_utf8_len_add(a.drop_first(), b);
        assert((a + b).drop_first() =~= a.drop_first() + b);
        assert((a + b)[0] == a[0]);
    }
}

/// Three parts that stand in a text in turn.
pub proof fn lemma_three(
    a: Seq<char>,
    x: Seq<char>,
    b: Seq<char>,
    y: Seq<char>,
    c: Seq<char>,
    z: Seq<char>,
    d: Seq<char>,
)
    ensures
        in_turn(a + x + b + y + c + z + d, seq![x, y, z]),
{
    let empty: Seq<char> = seq![];
    lemma_two(a, x, b, y, empty);
    assert(a + x + b + y + empty =~= a + x + b + y);
    lemma_in_turn_push(a + x + b + y, seq![x, y], c, z, d);
    assert(seq![x, y].push(z) =~= seq![x, y, z]);
}

/// Four parts that stand in a text in turn.
pub proof fn lemma_four(
    a: Seq<char>,
    x: Seq<char>,
    b: Seq<char>,
    y: Seq<char>,
    c: Seq<char>,
    z: Seq<char>,
    d: Seq<char>,
    w: Seq<char>,
    e: Seq<char>,
)
    ensures
        in_turn(a + x + b + y + c + z + d + w + e, seq![x, y, z, w]),
{
    let empty: Seq<char> = seq![];
    lemma_three(a, x, b, y, c, z, empty);
    assert(a + x + b + y + c + z + empty =~= a + x + b + y + c + z);
    lemma_in_turn_push(a + x + b + y + c + z, seq![x, y, z], d, w, e);
    assert(seq![x, y, z].push(w) =~= seq![x, y, z, w]);
}

/// A number with its sign reads back as the number.
pub proof fn law_signed_decimals_read_back(n: int)
    ensures
        parse_int(signed_decimal(n)) == Some(n),
{
    if n < 0 {
        let s = signed_decimal(n);
        law_decimals_read_back((-n) as nat);
        assert(s.skip(1) =~= decimal((-n) as nat));
        assert(is_digit(decimal((-n) as nat)[0]));
    } else {
        law_decimals_read_back(n as nat);
        assert(is_digit(decimal(n as nat)[0]));
    }
}

/// Whether `at` is where the text without the blanks around it stands: in front of it and behind it
/// stand blanks alone.
pub open spec fn blanks_around(s: Seq<char>, kept: Seq<char>, at: int) -> bool {
    &&& occurs_at(s, kept, at)
    &&& forall|k: int| 0 <= k < at ==> white_space(#[trigger] s[k])
    &&& forall|k: int| at + kept.len() <= k < s.len() ==> white_space(#[trigger] s[k])
}

/// Trimming takes blanks from the ends and nothing else: what is left stands in the text with blanks
/// alone around it, and neither starts nor ends with one.
pub proof fn law_trimming_takes_blanks_only(s: Seq<char>)
    ensures
        exists|at: int| blanks_around(s, trim(s), at),
        trim(s).len() > 0 ==> !white_space(trim(s)[0]) && !white_space(trim(s).last()),
{
    lemma_trim_start(s);
    lemma_trim_end(trim_start(s));
    let rest = trim_start(s);
    let at = s.len() - rest.len();
    let kept = trim(s);
    assert(s.subrange(at, at + kept.len()) =~= kept) by {
        assert forall|i: int| 0 <= i < kept.len() implies s.subrange(at, at + kept.len())[i]
            == kept[i] by {
            assert(kept[i] == rest[i]);
            assert(rest[i] == s[at + i]);
        }
    }
    assert forall|k: int| at + kept.len() <= k < s.len() implies white_space(#[trigger] s[k]) by {
        assert(s[k] == rest[k - at]);
    }
    assert(blanks_around(s, kept, at));
    if kept.len() > 0 {
        assert(kept[0] == rest[0]);
    }
}

proof fn lemma_trim_start(s: Seq<char>)
    ensures
        trim_start(s).len() <= s.len(),
        trim_start(s) == s.skip(s.len() - trim_start(s).len()),
        forall|k: int| 0 <= k < s.len() - trim_start(s).len() ==> white_space(#[trigger] s[k]),
        trim_start(s).len() > 0 ==> !white_space(trim_start(s)[0]),
    decreases s.len(),
{
    if s.len() > 0 && white_space(s[0]) {
        let rest = s.drop_first();
        lemma_trim_start(rest);
        let n = trim_start(s).len();
        assert(trim_start(s) =~= s.skip(s.len() - n));
        assert forall|k: int| 0 <= k < s.len() - n implies white_space(#[trigger] s[k]) by {
            if k > 0 {
                assert(s[k] == rest[k - 1]);
            }
        }
    } else {
        assert(s.skip(0) =~= s);
    }
}

proof fn lemma_trim_end(s: Seq<char>)
    ensures
        trim_end(s).len() <= s.len(),
        trim_end(s) == s.take(trim_end(s).len() as int),
        forall|k: int| trim_end(s).len() <= k < s.len() ==> white_space(#[trigger] s[k]),
        trim_end(s).len() > 0 ==> !white_space(trim_end(s).last()),
    decreases s.len(),
{
    if s.len() > 0 && white_space(s.last()) {
        let rest = s.drop_last();
        lemma_trim_end(rest);
        assert(trim_end(s) =~= s.take(trim_end(s).len() as int));
        assert forall|k: int| trim_end(s).len() <= k < s.len() implies white_space(
            #[trigger] s[k],
        ) by {
            if k < s.len() - 1 {
                assert(s[k] == rest[k]);
            }
        }
    } else {
        assert(s.take(s.len() as int) =~= s);
    }
}

/// A part of a text that neither starts nor ends with a blank is not touched by trimming.
pub proof fn lemma_trim_keeps(s: Seq<char>, part: Seq<char>)
    requires
        contains(s, part),
        part.len() > 0,
        !white_space(part[0]),
        !white_space(part.last()),
    ensures
        contains(trim(s), part),
        contains(trim_end(s), part),
{
    let i = choose|i: int| occurs_at(s, part, i);
    let n = part.len() as int;
    assert(s[i] == s.subrange(i, i + n)[0]);
    assert(s[i + n - 1] == s.subrange(i, i + n)[n - 1]);
    lemma_trim_end(s);
    assert(trim_end(s).subrange(i, i + n) =~= part);
    assert(occurs_at(trim_end(s), part, i));
    law_trimming_takes_blanks_only(s);
    let kept = trim(s);
    let at = choose|at: int| blanks_around(s, kept, at);
    assert(at <= i);
    assert(i + n <= at + kept.len());
    assert forall|k: int| 0 <= k < kept.len() implies #[trigger] kept[k] == s[at + k] by {
        assert(s.subrange(at, at + kept.len())[k] == s[at + k]);
    }
    assert(kept.subrange(i - at, i - at + n) =~= part) by {
        assert forall|k: int| 0 <= k < n implies kept.subrange(i - at, i - at + n)[k]
            == part[k] by {
            assert(kept[i - at + k] == s[i + k]);
            assert(s.subrange(i, i + n)[k] == s[i + k]);
        }
    }
    assert(occurs_at(kept, part, i - at));
}

/// A part of a part is a part.
pub proof fn lemma_contains_trans(s: Seq<char>, middle: Seq<char>, part: Seq<char>)
    requires
        contains(s, middle),
        contains(middle, part),
    ensures
        contains(s, part),
{
    let i = choose|i: int| occurs_at(s, middle, i);
    let j = choose|j: int| occurs_at(middle, part, j);
    let outer = s.subrange(i + j, i + j + part.len());
    let inner = middle.subrange(j, j + part.len());
    assert forall|k: int| 0 <= k < part.len() implies #[trigger] outer[k] == inner[k] by {
        assert(s.subrange(i, i + middle.len())[j + k] == s[i + j + k]);
    }
    assert(outer =~= inner);
    assert(occurs_at(s, part, i + j));
}

/// Lines are what stands between line ends, in their order, with nothing lost: put together again
/// they are the text.
pub proof fn law_lines_make_up_the_text(first: Seq<char>, rest: Seq<char>)
    requires
        !first.contains('\n'),
        !first.contains('\r'),
    ensures
        lines(first + "\n"@ + rest) == seq![first] + lines(rest),
        first.len() > 0 ==> lines(first) == seq![first],
        lines(first + "\r\n"@ + rest) == seq![first] + lines(rest),
{
    reveal_strlit("\n");
    reveal_strlit("\r\n");
    let s = first + "\n"@ + rest;
    lemma_index_from(s, '\n', 0);
    assert(s[first.len() as int] == '\n');
    assert(index_from(s, '\n', 0) == Some(first.len() as int)) by {
        let at = index_from(s, '\n', 0)->0;
        if at < first.len() {
            assert(first[at] == '\n');
        }
    }
    assert(s.take(first.len() as int) =~= first);
    assert(s.skip(first.len() + 1int) =~= rest);
    if first.len() > 0 {
        assert(first.contains(first.last()));
    }
    let t = first + "\r\n"@ + rest;
    let at = first.len() + 1int;
    lemma_index_from(t, '\n', 0);
    assert(t[at] == '\n');
    assert(index_from(t, '\n', 0) == Some(at)) by {
        let found = index_from(t, '\n', 0)->0;
        if found < first.len() {
            assert(first[found] == '\n');
        }
    }
    assert(t.take(at) =~= first.push('\r'));
    assert(first.push('\r').drop_last() =~= first);
    assert(t.skip(at + 1) =~= rest);
    lemma_index_from(first, '\n', 0);
}

/// Putting something in the place of a word changes the word's copies and nothing else: a text
/// without it stays as it is, and the first copy is replaced where it stands.
pub proof fn law_replacing_changes_the_word_alone(
    front: Seq<char>,
    word: Seq<char>,
    back: Seq<char>,
    with: Seq<char>,
)
    requires
        word.len() > 0,
        find_from(front + word + back, word, 0) == Some(front.len() as int),
    ensures
        replace_all(front + word + back, word, with) == front + with + replace_all(
            back,
            word,
            with,
        ),
    decreases front.len(),
{
    let s = front + word + back;
    lemma_find_from(s, word, 0);
    assert(s.subrange(front.len() as int, front.len() + word.len() as int) =~= word);
    if front.len() == 0 {
        assert(s.skip(word.len() as int) =~= back);
        assert(occurs_at(s, word, 0));
        assert(replace_all(s, word, with) =~= front + with + replace_all(back, word, with));
    } else {
        let rest = front.skip(1);
        let t = rest + word + back;
        assert(s.skip(1) =~= t);
        assert(!occurs_at(s, word, 0));
        assert(t.subrange(rest.len() as int, rest.len() + word.len() as int) =~= word);
        assert forall|k: int| 0 <= k < rest.len() implies !occurs_at(t, word, k) by {
            if occurs_at(t, word, k) {
                assert(s.subrange(k + 1, k + 1 + word.len()) =~= t.subrange(k, k + word.len()));
                assert(occurs_at(s, word, k + 1));
            }
        }
        lemma_find_from(t, word, 0);
        assert(occurs_at(t, word, rest.len() as int));
        law_replacing_changes_the_word_alone(rest, word, back, with);
        assert(replace_all(s, word, with) =~= front + with + replace_all(back, word, with));
    }
}

/// A text in which a word does not stand is not changed by putting something in the word's place.
pub proof fn law_replacing_spares_the_rest(s: Seq<char>, word: Seq<char>, with: Seq<char>)
    requires
        word.len() > 0,
        !contains(s, word),
    ensures
        replace_all(s, word, with) == s,
    decreases s.len(),
{
    assert(!occurs_at(s, word, 0));
    if s.len() >= word.len() {
        let t = s.skip(1);
        assert(!contains(t, word)) by {
            if contains(t, word) {
                let k = choose|k: int| occurs_at(t, word, k);
                assert(s.subrange(k + 1, k + 1 + word.len()) =~= t.subrange(k, k + word.len()));
                assert(occurs_at(s, word, k + 1));
            }
        }
        law_replacing_spares_the_rest(t, word, with);
        assert(replace_all(s, word, with) =~= s);
    }
}

/// Lower case changes capitals alone, one by one, and what it gives has none left.
pub proof fn law_lower_case_changes_capitals_alone(s: Seq<char>, i: int)
    requires
        0 <= i < s.len(),
    ensures
        lower(s).len() == s.len(),
        !('A' <= s[i] && s[i] <= 'Z') ==> lower(s)[i] == s[i],
        'A' <= s[i] && s[i] <= 'Z' ==> lower(s)[i] as int == s[i] as int + 32,
        lower(lower(s)) == lower(s),
{
    assert(lower(lower(s)) =~= lower(s)) by {
        assert forall|k: int| 0 <= k < s.len() implies lower(lower(s))[k] == lower(s)[k] by {
            lemma_lower_char(s[k]);
        }
    }
    lemma_lower_char(s[i]);
}

proof fn lemma_lower_char(c: char)
    ensures
        'A' <= c && c <= 'Z' ==> lower_char(c) as int == c as int + 32,
        lower_char(lower_char(c)) == lower_char(c),
{
    if 'A' <= c && c <= 'Z' {
        let code = c as u8;
        assert(code == c as int);
        let low: u8 = (code + 32) as u8;
        assert(low == code + 32);
    }
}

} // verus!
