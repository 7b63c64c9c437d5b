//! Command templates: Markdown files whose text a slash command of the same name sends to the
//! model.
use vstd::prelude::*;
use vstd::string::*;

use crate::prompts::{last_index, last_index_of, lemma_last_index};
use crate::table::Table;
use crate::text::{
    before, clone_text, contains, ends_in, find, find_from, has, index_from, index_of,
    law_replacing_changes_the_word_alone, law_replacing_spares_the_rest, lemma_ends_in,
    lemma_find_from, lemma_index_from, lemma_starts, lines, occurs_at, opt_view, replace_all, replaced, same, seq_view, slice,
    split_lines, strip_prefix, texts, to_chars, trim, trimmed, white_space,
};

verus! {

/// The names of the built-in commands, in order. Built-ins are matched first, so a template named
/// after one of these can never run; it is refused at load time and reported as a collision
/// instead.
pub open spec fn reserved_names() -> Seq<Seq<char>> {
    seq![
        "audit"@,
        "commands"@,
        "context"@,
        "delete"@,
        "forget"@,
        "jobs"@,
        "memory"@,
        "model"@,
        "models"@,
        "new"@,
        "provider"@,
        "providers"@,
        "reminders"@,
        "resume"@,
        "rtk"@,
        "sessions"@,
        "status"@,
        "workspace"@,
    ]
}

/// The names of the built-in commands, in order.
pub fn reserved() -> (r: Vec<&'static str>)
    ensures
        r@.len() == reserved_names().len(),
        forall|i: int| 0 <= i < r@.len() ==> (#[trigger] r@[i])@ == reserved_names()[i],
{
    vec![
        "audit",
        "commands",
        "context",
        "delete",
        "forget",
        "jobs",
        "memory",
        "model",
        "models",
        "new",
        "provider",
        "providers",
        "reminders",
        "resume",
        "rtk",
        "sessions",
        "status",
        "workspace",
    ]
}

/// True when `name` is a built-in command, and so unusable as a template name.
pub fn is_reserved(name: &str) -> (r: bool)
    ensures
        r == reserved_names().contains(name@),
{
    let names = reserved();
    let ghost all = reserved_names();
    let mut i: usize = 0;
    while i < names.len()
        invariant
            i <= names@.len(),
            names@.len() == all.len(),
            forall|k: int| 0 <= k < names@.len() ==> (#[trigger] names@[k])@ == all[k],
            forall|k: int| 0 <= k < i ==> #[trigger] all[k] != name@,
            all == reserved_names(),
        decreases names@.len() - i,
    {
        if same(names[i], name) {
            assert(all[i as int] == name@);
            return true;
        }
        i = i + 1;
    }
    false
}

#[derive(Debug)]
pub struct CommandTemplate {
    pub name: String,
    pub description: Option<String>,
    pub body: String,
}

#[verifier::ext_equal]
pub struct TemplateView {
    pub name: Seq<char>,
    pub description: Option<Seq<char>>,
    pub body: Seq<char>,
}

impl View for CommandTemplate {
    type V = TemplateView;

    open spec fn view(&self) -> TemplateView {
        TemplateView {
            name: self.name@,
            description: opt_view(self.description),
            body: self.body@,
        }
    }
}

impl Clone for CommandTemplate {
    fn clone(&self) -> (r: Self)
        ensures
            r@ == self@,
    {
        CommandTemplate {
            name: self.name.clone(),
            description: clone_text(&self.description),
            body: self.body.clone(),
        }
    }
}

/// A template file that was found but not loaded, because a built-in command of the same name
/// would always win the match.
#[derive(Debug)]
pub struct ShadowedCommand {
    pub name: String,
    pub path: String,
    /// The last component of the path, if that is a file's name.
    pub file_name: Option<String>,
}

#[verifier::ext_equal]
pub struct ShadowedView {
    pub name: Seq<char>,
    pub path: Seq<char>,
    pub file_name: Option<Seq<char>>,
}

impl View for ShadowedCommand {
    type V = ShadowedView;

    open spec fn view(&self) -> ShadowedView {
        ShadowedView { name: self.name@, path: self.path@, file_name: opt_view(self.file_name) }
    }
}

impl Clone for ShadowedCommand {
    fn clone(&self) -> (r: Self)
        ensures
            r@ == self@,
    {
        ShadowedCommand {
            name: self.name.clone(),
            path: self.path.clone(),
            file_name: clone_text(&self.file_name),
        }
    }
}

/// Every usable template, plus every file that collides with a built-in, both in the order of
/// their names.
#[derive(Debug)]
pub struct CommandSet {
    pub templates: Vec<CommandTemplate>,
    pub shadowed: Vec<ShadowedCommand>,
}

/// A file of a template directory.
#[derive(Debug)]
pub struct TemplateFile {
    /// Its name in the directory.
    pub file_name: String,
    pub path: String,
    pub content: String,
}

#[verifier::ext_equal]
pub struct FileView {
    pub file_name: Seq<char>,
    pub path: Seq<char>,
    pub content: Seq<char>,
}

impl View for TemplateFile {
    type V = FileView;

    open spec fn view(&self) -> FileView {
        FileView { file_name: self.file_name@, path: self.path@, content: self.content@ }
    }
}

pub open spec fn is_name_char(c: char) -> bool {
    ('a' <= c && c <= 'z') || ('A' <= c && c <= 'Z') || ('0' <= c && c <= '9') || c == '_' || c
        == '-'
}

/// Whether a command can have this name: so never a path.
pub open spec fn is_valid_name(name: Seq<char>) -> bool {
    name.len() > 0 && forall|i: int| 0 <= i < name.len() ==> is_name_char(#[trigger] name[i])
}

pub fn valid_name(name: &str) -> (r: bool)
    ensures
        r == is_valid_name(name@),
{
    let chars = to_chars(name);
    let mut i: usize = 0;
    while i < chars.len()
        invariant
            chars@ == name@,
            i <= chars@.len(),
            forall|k: int| 0 <= k < i ==> is_name_char(#[trigger] name@[k]),
        decreases chars@.len() - i,
    {
        let c = chars[i];
        if !(('a' <= c && c <= 'z') || ('A' <= c && c <= 'Z') || ('0' <= c && c <= '9') || c == '_'
            || c == '-') {
            assert(!is_name_char(name@[i as int]));
            return false;
        }
        i = i + 1;
    }
    chars.len() > 0
}

/// The command that a template file is for: its name without `.md`, where that can be a command's
/// name.
pub open spec fn command_of(file_name: Seq<char>) -> Option<Seq<char>> {
    match last_index(file_name, '.', file_name.len() as int) {
        None => None,
        Some(at) => if file_name.skip(at + 1) == "md"@ && is_valid_name(file_name.take(at)) {
            Some(file_name.take(at))
        } else {
            None
        },
    }
}

/// The command that a template file is for. A file that is for none need not be read.
pub fn command_name(file_name: &str) -> (r: Option<String>)
    ensures
        opt_view(r) == command_of(file_name@),
{
    let chars = to_chars(file_name);
    match last_index_of(&chars, '.') {
        None => None,
        Some(at) => {
            let extension = slice(&chars, at + 1, chars.len());
            let name = slice(&chars, 0, at);
            assert(extension@ =~= file_name@.skip(at + 1));
            assert(name@ =~= file_name@.take(at as int));
            if same(extension.as_str(), "md") && valid_name(name.as_str()) {
                Some(name)
            } else {
                None
            }
        },
    }
}

pub open spec fn is_quote(c: char) -> bool {
    c == '\'' || c == '"'
}

pub open spec fn unquoted_start(s: Seq<char>) -> Seq<char>
    decreases s.len(),
{
    if s.len() > 0 && is_quote(s[0]) {
        unquoted_start(s.drop_first())
    } else {
        s
    }
}

pub open spec fn unquoted_end(s: Seq<char>) -> Seq<char>
    decreases s.len(),
{
    if s.len() > 0 && is_quote(s.last()) {
        unquoted_end(s.drop_last())
    } else {
        s
    }
}

/// A text without the quotation marks on either side.
pub open spec fn unquoted(s: Seq<char>) -> Seq<char> {
    unquoted_end(unquoted_start(s))
}

fn without_quotes(s: &str) -> (r: String)
    ensures
        r@ == unquoted(s@),
{
    let chars = to_chars(s);
    let mut i: usize = 0;
    assert(s@.skip(0) =~= s@);
    while i < chars.len() && (chars[i] == '\'' || chars[i] == '"')
        invariant
            chars@ == s@,
            i <= chars@.len(),
            unquoted_start(s@) == unquoted_start(s@.skip(i as int)),
        decreases chars@.len() - i,
    {
        assert(s@.skip(i as int).drop_first() =~= s@.skip(i + 1));
        i = i + 1;
    }
    let mut j: usize = chars.len();
    assert(s@.skip(i as int) =~= s@.subrange(i as int, j as int));
    while j > i && (chars[j - 1] == '\'' || chars[j - 1] == '"')
        invariant
            chars@ == s@,
            i <= j <= chars@.len(),
            unquoted(s@) == unquoted_end(s@.subrange(i as int, j as int)),
        decreases j,
    {
        assert(s@.subrange(i as int, j as int).drop_last() =~= s@.subrange(i as int, j - 1));
        j = j - 1;
    }
    slice(&chars, i, j)
}

/// The first description that a template's header gives.
pub open spec fn described_in(header: Seq<Seq<char>>, from: int) -> Option<Seq<char>>
    decreases header.len() - from,
{
    if from < 0 || from >= header.len() {
        None
    } else if occurs_at(header[from], "description:"@, 0) && unquoted(
        trim(header[from].skip("description:"@.len() as int)),
    ).len() > 0 {
        Some(unquoted(trim(header[from].skip("description:"@.len() as int))))
    } else {
        described_in(header, from + 1)
    }
}

/// A template file's description and text: what stands in and behind its header, where it has one.
pub open spec fn frontmatter(content: Seq<char>) -> (Option<Seq<char>>, Seq<char>) {
    if !occurs_at(content, "---\n"@, 0) {
        (None, content)
    } else {
        let rest = content.skip("---\n"@.len() as int);
        match find_from(rest, "\n---\n"@, 0) {
            None => (None, content),
            Some(at) => (
                described_in(lines(rest.take(at)), 0),
                rest.skip(at + "\n---\n"@.len()),
            ),
        }
    }
}

/// Splits a template file into its description and its text.
pub fn split_frontmatter(content: &str) -> (r: (Option<String>, String))
    ensures
        (opt_view(r.0), r.1@) == frontmatter(content@),
{
    let rest = match strip_prefix(content, "---\n") {
        Some(rest) => rest,
        None => {
            return (None, content.to_owned());
        },
    };
    let chars = to_chars(rest.as_str());
    let marker = to_chars("\n---\n");
    proof {
        lemma_find_from(rest@, "\n---\n"@, 0);
    }
    let at: usize = match find(&chars, &marker, 0) {
        Some(at) => at,
        None => {
            return (None, content.to_owned());
        },
    };
    assert(at + marker.len() <= chars.len());
    let header_text = slice(&chars, 0, at);
    let body = slice(&chars, at + marker.len(), chars.len());
    assert(header_text@ =~= rest@.take(at as int));
    assert(body@ =~= rest@.skip(at + marker@.len()));
    let header = split_lines(header_text.as_str());
    let ghost all = texts(header@);
    let mut i: usize = 0;
    while i < header.len()
        invariant
            i <= header@.len(),
            all == texts(header@),
            all == lines(rest@.take(at as int)),
            described_in(all, 0) == described_in(all, i as int),
            (described_in(all, 0), body@) == frontmatter(content@),
        decreases header@.len() - i,
    {
        assert(all[i as int] == header@[i as int]@);
        if let Some(value) = strip_prefix(header[i].as_str(), "description:") {
            let value = without_quotes(trimmed(value.as_str()).as_str());
            if !value.as_str().is_empty() {
                return (Some(value), body);
            }
        }
        i = i + 1;
    }
    (None, body)
}

/// The template that a file holds, if it holds one.
pub open spec fn template_of(file: FileView) -> Option<TemplateView> {
    match command_of(file.file_name) {
        None => None,
        Some(name) => {
            let (description, body) = frontmatter(file.content);
            if reserved_names().contains(name) || trim(body).len() == 0 {
                None
            } else {
                Some(TemplateView { name, description, body: trim(body) })
            }
        },
    }
}

/// The collision that a file amounts to, if it is named after a built-in.
pub open spec fn shadowed_by(file: FileView) -> Option<ShadowedView> {
    match command_of(file.file_name) {
        None => None,
        Some(name) => if reserved_names().contains(name) {
            Some(ShadowedView { name, path: file.path, file_name: Some(file.file_name) })
        } else {
            None
        },
    }
}

/// The templates of files by name; a later file replaces an earlier one of its name.
pub open spec fn templates_of(files: Seq<FileView>) -> Map<Seq<char>, TemplateView>
    decreases files.len(),
{
    if files.len() == 0 {
        Map::empty()
    } else {
        let rest = templates_of(files.drop_last());
        match template_of(files.last()) {
            Some(template) => rest.insert(template.name, template),
            None => rest,
        }
    }
}

/// The collisions of files by name.
pub open spec fn collisions_of(files: Seq<FileView>) -> Map<Seq<char>, ShadowedView>
    decreases files.len(),
{
    if files.len() == 0 {
        Map::empty()
    } else {
        let rest = collisions_of(files.drop_last());
        match shadowed_by(files.last()) {
            Some(shadowed) => rest.insert(shadowed.name, shadowed),
            None => rest,
        }
    }
}

/// Whether a list holds the entries of a map, in the order of their names.
pub open spec fn lists_templates(
    list: Seq<CommandTemplate>,
    map: Map<Seq<char>, TemplateView>,
) -> bool {
    &&& forall|i: int, j: int|
        0 <= i < j < list.len() ==> before((#[trigger] list[i]).name@, (#[trigger] list[j]).name@)
    &&& forall|i: int|
        0 <= i < list.len() ==> map.contains_key((#[trigger] list[i]).name@) && map[list[i].name@]
            == list[i]@
    &&& forall|name: Seq<char>| #[trigger]
        map.contains_key(name) ==> exists|i: int|
            0 <= i < list.len() && (#[trigger] list[i]).name@ == name
}

pub open spec fn lists_shadowed(list: Seq<ShadowedCommand>, map: Map<Seq<char>, ShadowedView>) -> bool {
    &&& forall|i: int, j: int|
        0 <= i < j < list.len() ==> before((#[trigger] list[i]).name@, (#[trigger] list[j]).name@)
    &&& forall|i: int|
        0 <= i < list.len() ==> map.contains_key((#[trigger] list[i]).name@) && map[list[i].name@]
            == list[i]@
    &&& forall|name: Seq<char>| #[trigger]
        map.contains_key(name) ==> exists|i: int|
            0 <= i < list.len() && (#[trigger] list[i]).name@ == name
}

spec fn stands_for<V: View>(table: Map<Seq<char>, V>, map: Map<Seq<char>, V::V>) -> bool {
    &&& forall|k: Seq<char>| #[trigger] table.contains_key(k) == map.contains_key(k)
    &&& forall|k: Seq<char>| #[trigger] table.contains_key(k) ==> table[k]@ == map[k]
}

/// Loads the files of a directory.
fn load_dir(
    files: &Vec<TemplateFile>,
    commands: &mut Table<CommandTemplate>,
    shadowed: &mut Table<ShadowedCommand>,
    seen: Ghost<Seq<FileView>>,
)
    requires
        old(commands).wf(),
        old(shadowed).wf(),
        stands_for(old(commands)@, templates_of(seen@)),
        stands_for(old(shadowed)@, collisions_of(seen@)),
        forall|k: Seq<char>| #[trigger] old(commands)@.contains_key(k) ==> old(commands)@[k].name@ == k,
        forall|k: Seq<char>| #[trigger] old(shadowed)@.contains_key(k) ==> old(shadowed)@[k].name@ == k,
    ensures
        final(commands).wf(),
        final(shadowed).wf(),
        stands_for(final(commands)@, templates_of(seen@ + seq_view(files@))),
        stands_for(final(shadowed)@, collisions_of(seen@ + seq_view(files@))),
        forall|k: Seq<char>| #[trigger]
            final(commands)@.contains_key(k) ==> final(commands)@[k].name@ == k,
        forall|k: Seq<char>| #[trigger]
            final(shadowed)@.contains_key(k) ==> final(shadowed)@[k].name@ == k,
{
    let ghost all = seq_view(files@);
    let mut i: usize = 0;
    assert(seen@ + all.take(0) =~= seen@);
    while i < files.len()
        invariant
            i <= files@.len(),
            all == seq_view(files@),
            commands.wf(),
            shadowed.wf(),
            stands_for(commands@, templates_of(seen@ + all.take(i as int))),
            stands_for(shadowed@, collisions_of(seen@ + all.take(i as int))),
            forall|k: Seq<char>| #[trigger] commands@.contains_key(k) ==> commands@[k].name@ == k,
            forall|k: Seq<char>| #[trigger] shadowed@.contains_key(k) ==> shadowed@[k].name@ == k,
        decreases files@.len() - i,
    {
        let ghost next = seen@ + all.take(i + 1);
        assert(next.drop_last() =~= seen@ + all.take(i as int));
        assert(next.last() == files@[i as int]@);
        if let Some(name) = command_name(files[i].file_name.as_str()) {
            if is_reserved(name.as_str()) {
                let entry = ShadowedCommand {
                    name: name.clone(),
                    path: files[i].path.clone(),
                    file_name: Some(files[i].file_name.clone()),
                };
                assert(shadowed_by(next.last()) == Some(entry@));
                shadowed.insert(name, entry);
            } else {
                let (description, body) = split_frontmatter(files[i].content.as_str());
                let body = trimmed(body.as_str());
                if !body.as_str().is_empty() {
                    let entry = CommandTemplate { name: name.clone(), description, body };
                    assert(template_of(next.last()) == Some(entry@));
                    commands.insert(name, entry);
                }
            }
        }
        i = i + 1;
    }
    assert(all.take(i as int) =~= all);
}

/// The commands that the template files of the global directory and of the workspace's amount to;
/// the workspace's replace global ones of their name.
pub fn list(global: &Vec<TemplateFile>, workspace: &Vec<TemplateFile>) -> (r: CommandSet)
    ensures
        lists_templates(
            r.templates@,
            templates_of(seq_view(global@) + seq_view(workspace@)),
        ),
        lists_shadowed(
            r.shadowed@,
            collisions_of(seq_view(global@) + seq_view(workspace@)),
        ),
{
    let ghost all = seq_view(global@) + seq_view(workspace@);
    let mut commands: Table<CommandTemplate> = Table::new();
    let mut shadowed: Table<ShadowedCommand> = Table::new();
    load_dir(global, &mut commands, &mut shadowed, Ghost(Seq::empty()));
    assert(Seq::<FileView>::empty() + seq_view(global@) =~= seq_view(global@));
    load_dir(workspace, &mut commands, &mut shadowed, Ghost(seq_view(global@)));
    let mut templates: Vec<CommandTemplate> = Vec::new();
    let mut i: usize = 0;
    while i < commands.len()
        invariant
            i <= commands.names().len(),
            commands.wf(),
            forall|k: Seq<char>| #[trigger] commands@.contains_key(k) ==> commands@[k].name@ == k,
            templates@.len() == i,
            forall|k: int|
                0 <= k < i ==> (#[trigger] templates@[k])@ == commands@[commands.names()[k]]@
                    && templates@[k].name@ == commands.names()[k],
        decreases commands.names().len() - i,
    {
        templates.push(commands.value_at(i).clone());
        i = i + 1;
    }
    let mut collisions: Vec<ShadowedCommand> = Vec::new();
    let mut j: usize = 0;
    while j < shadowed.len()
        invariant
            j <= shadowed.names().len(),
            shadowed.wf(),
            forall|k: Seq<char>| #[trigger] shadowed@.contains_key(k) ==> shadowed@[k].name@ == k,
            collisions@.len() == j,
            forall|k: int|
                0 <= k < j ==> (#[trigger] collisions@[k])@ == shadowed@[shadowed.names()[k]]@
                    && collisions@[k].name@ == shadowed.names()[k],
        decreases shadowed.names().len() - j,
    {
        collisions.push(shadowed.value_at(j).clone());
        j = j + 1;
    }
    proof {
        commands.lemma_names();
        shadowed.lemma_names();
        let names = commands.names();
        let taken = shadowed.names();
        let map = templates_of(all);
        let lost = collisions_of(all);
        assert forall|a: int, b: int| 0 <= a < b < templates@.len() implies before(
            (#[trigger] templates@[a]).name@,
            (#[trigger] templates@[b]).name@,
        ) by {
            assert(before(names[a], names[b]));
        }
        assert forall|a: int| 0 <= a < templates@.len() implies map.contains_key(
            (#[trigger] templates@[a]).name@,
        ) && map[templates@[a].name@] == templates@[a]@ by {
            assert(commands@.contains_key(names[a]));
        }
        assert forall|name: Seq<char>| #[trigger] map.contains_key(name) implies exists|a: int|
            0 <= a < templates@.len() && (#[trigger] templates@[a]).name@ == name by {
            assert(commands@.contains_key(name));
            let a = choose|a: int| 0 <= a < names.len() && names[a] == name;
            assert(templates@[a].name@ == name);
        }
        assert forall|a: int, b: int| 0 <= a < b < collisions@.len() implies before(
            (#[trigger] collisions@[a]).name@,
            (#[trigger] collisions@[b]).name@,
        ) by {
            assert(before(taken[a], taken[b]));
        }
        assert forall|a: int| 0 <= a < collisions@.len() implies lost.contains_key(
            (#[trigger] collisions@[a]).name@,
        ) && lost[collisions@[a].name@] == collisions@[a]@ by {
            assert(shadowed@.contains_key(taken[a]));
        }
        assert forall|name: Seq<char>| #[trigger] lost.contains_key(name) implies exists|a: int|
            0 <= a < collisions@.len() && (#[trigger] collisions@[a]).name@ == name by {
            assert(shadowed@.contains_key(name));
            let a = choose|a: int| 0 <= a < taken.len() && taken[a] == name;
            assert(collisions@[a].name@ == name);
        }
    }
    CommandSet { templates, shadowed: collisions }
}

/// A command as it was typed: its name and what follows it.
#[derive(Debug)]
pub struct Invocation {
    pub name: String,
    pub args: String,
}

/// The part of a text before the first `c`, and the part behind it.
pub open spec fn parted(s: Seq<char>, c: char) -> (Seq<char>, Seq<char>) {
    match index_from(s, c, 0) {
        Some(at) => (s.take(at), s.skip(at + 1)),
        None => (s, seq![]),
    }
}

/// The command that a text invokes, and its arguments. A command may be followed by the name of the
/// bot that it is meant for.
pub open spec fn invocation_of(input: Seq<char>) -> Option<(Seq<char>, Seq<char>)> {
    let (head, args) = parted(trim(input), ' ');
    if head.len() > 0 && head[0] == '/' {
        let name = parted(head.skip(1), '@').0;
        if is_valid_name(name) {
            Some((name, trim(args)))
        } else {
            None
        }
    } else {
        None
    }
}

fn part(s: &str, c: char) -> (r: (String, String))
    ensures
        (r.0@, r.1@) == parted(s@, c),
{
    let chars = to_chars(s);
    proof {
        lemma_index_from(s@, c, 0);
    }
    match index_of(&chars, c, 0) {
        Some(at) => {
            assert(at < chars.len());
            let head = slice(&chars, 0, at);
            let tail = slice(&chars, at + 1, chars.len());
            assert(head@ =~= s@.take(at as int));
            assert(tail@ =~= s@.skip(at + 1));
            (head, tail)
        },
        None => {
            let none = String::new();
            assert(none@ =~= seq![]);
            (s.to_owned(), none)
        },
    }
}

/// Reads the command that a text invokes.
pub fn invocation(input: &str) -> (r: Option<Invocation>)
    ensures
        match r {
            Some(read) => invocation_of(input@) == Some((read.name@, read.args@)),
            None => invocation_of(input@) is None,
        },
{
    let (head, args) = part(trimmed(input).as_str(), ' ');
    let chars = to_chars(head.as_str());
    if chars.len() == 0 || chars[0] != '/' {
        return None;
    }
    let rest = slice(&chars, 1, chars.len());
    assert(rest@ =~= head@.skip(1));
    let (name, _) = part(rest.as_str(), '@');
    if valid_name(name.as_str()) {
        Some(Invocation { name, args: trimmed(args.as_str()) })
    } else {
        None
    }
}

/// A template's text with the arguments put in: where it asks for them, or else behind it.
pub open spec fn expanded(body: Seq<char>, args: Seq<char>) -> Seq<char> {
    if contains(body, "{{args}}"@) {
        replace_all(body, "{{args}}"@, args)
    } else if args.len() == 0 {
        body
    } else {
        body + "\n\nArguments: "@ + args
    }
}

/// What a text that invokes a template expands to.
pub open spec fn expansion(input: Seq<char>, map: Map<Seq<char>, TemplateView>) -> Option<Seq<char>> {
    match invocation_of(input) {
        None => None,
        Some((name, args)) => if map.contains_key(name) {
            Some(expanded(map[name].body, args))
        } else {
            None
        },
    }
}

/// The text that a command sends to the model, if one of the templates is its.
pub fn expand(
    input: &str,
    global: &Vec<TemplateFile>,
    workspace: &Vec<TemplateFile>,
) -> (r: Option<String>)
    ensures
        opt_view(r) == expansion(
            input@,
            templates_of(seq_view(global@) + seq_view(workspace@)),
        ),
{
    let ghost map = templates_of(seq_view(global@) + seq_view(workspace@));
    let call = match invocation(input) {
        Some(call) => call,
        None => {
            return None;
        },
    };
    let set = list(global, workspace);
    let mut i: usize = 0;
    while i < set.templates.len()
        invariant
            i <= set.templates@.len(),
            map == templates_of(seq_view(global@) + seq_view(workspace@)),
            lists_templates(set.templates@, map),
            invocation_of(input@) == Some((call.name@, call.args@)),
            forall|k: int| 0 <= k < i ==> (#[trigger] set.templates@[k]).name@ != call.name@,
        decreases set.templates@.len() - i,
    {
        if same(set.templates[i].name.as_str(), call.name.as_str()) {
            let body = &set.templates[i].body;
            assert(map[set.templates@[i as int].name@] == set.templates@[i as int]@);
            proof {
                reveal_strlit("{{args}}");
            }
            if has(body.as_str(), "{{args}}") {
                return Some(replaced(body.as_str(), "{{args}}", call.args.as_str()));
            }
            if call.args.as_str().is_empty() {
                return Some(body.clone());
            }
            let mut text = body.clone();
            text.push_str("\n\nArguments: ");
            text.push_str(call.args.as_str());
            return Some(text);
        }
        i = i + 1;
    }
    None
}

/// No template answers to a built-in's name, and no built-in is reported as a template: a file is
/// either loaded or reported, never both.
pub proof fn law_builtins_are_never_shadowed(files: Seq<FileView>)
    ensures
        forall|name: Seq<char>| #[trigger]
            templates_of(files).contains_key(name) ==> !reserved_names().contains(name)
                && is_valid_name(name),
        forall|name: Seq<char>| #[trigger]
            collisions_of(files).contains_key(name) ==> reserved_names().contains(name),
    decreases files.len(),
{
    if files.len() > 0 {
        let front = files.drop_last();
        law_builtins_are_never_shadowed(front);
        assert forall|name: Seq<char>| #[trigger]
            templates_of(files).contains_key(name) implies !reserved_names().contains(name)
            && is_valid_name(name) by {
            match template_of(files.last()) {
                Some(template) => {
                    if name != template.name {
                        assert(templates_of(front).contains_key(name));
                    }
                },
                None => {
                    assert(templates_of(front).contains_key(name));
                },
            }
        }
        assert forall|name: Seq<char>| #[trigger]
            collisions_of(files).contains_key(name) implies reserved_names().contains(name) by {
            match shadowed_by(files.last()) {
                Some(shadowed) => {
                    if name != shadowed.name {
                        assert(collisions_of(front).contains_key(name));
                    }
                },
                None => {
                    assert(collisions_of(front).contains_key(name));
                },
            }
        }
    }
}

/// A workspace's template replaces the owner's own one of the same name, and every other template
/// of the owner's stays.
pub proof fn law_workspace_templates_win(global: Seq<FileView>, workspace: Seq<FileView>)
    ensures
        templates_of(global + workspace) == templates_of(global).union_prefer_right(
            templates_of(workspace),
        ),
    decreases workspace.len(),
{
    let all = global + workspace;
    if workspace.len() == 0 {
        assert(all =~= global);
        assert(templates_of(all) =~= templates_of(global).union_prefer_right(
            templates_of(workspace),
        ));
    } else {
        law_workspace_templates_win(global, workspace.drop_last());
        assert(all.drop_last() =~= global + workspace.drop_last());
        assert(all.last() == workspace.last());
        assert(templates_of(all) =~= templates_of(global).union_prefer_right(
            templates_of(workspace),
        ));
    }
}

/// A template answers to the name of its file, and to nothing where the name is no command's or the
/// file no template.
pub proof fn law_templates_answer_to_their_file(stem: Seq<char>, file_name: Seq<char>)
    ensures
        is_valid_name(stem) ==> command_of(stem + ".md"@) == Some(stem),
        command_of(file_name) matches Some(name) ==> file_name == name + ".md"@ && is_valid_name(
            name,
        ),
{
    reveal_strlit(".md");
    reveal_strlit("md");
    let full = stem + ".md"@;
    let at = stem.len() as int;
    assert(full[at] == '.' && full[at + 1] == 'm' && full[at + 2] == 'd');
    lemma_last_index(full, '.', at, full.len() as int);
    assert(full.skip(at + 1) =~= "md"@);
    assert(full.take(at) =~= stem);
    if let Some(name) = command_of(file_name) {
        let dot = last_index(file_name, '.', file_name.len() as int)->0;
        lemma_found_last(file_name, '.', file_name.len() as int);
        assert(file_name.skip(dot + 1) =~= "md"@);
        assert(file_name.len() == dot + 3);
        assert(file_name[dot + 1] == file_name.skip(dot + 1)[0]);
        assert(file_name[dot + 2] == file_name.skip(dot + 1)[1]);
        assert(file_name =~= name + ".md"@);
    }
}

proof fn lemma_found_last(s: Seq<char>, c: char, to: int)
    requires
        0 <= to <= s.len(),
    ensures
        last_index(s, c, to) matches Some(at) ==> 0 <= at < to && s[at] == c,
    decreases to,
{
    if to > 0 && s[to - 1] != c {
        lemma_found_last(s, c, to - 1);
    }
}

/// The head of a template, between its two marks, is taken off, and what it says of the template is
/// read from it; a template without such a head is taken whole.
pub proof fn law_heads_are_taken_off(header: Seq<char>, body: Seq<char>, content: Seq<char>)
    ensures
        find_from(header + "\n---\n"@ + body, "\n---\n"@, 0) == Some(header.len() as int)
            ==> frontmatter("---\n"@ + header + "\n---\n"@ + body) == (
            described_in(lines(header), 0),
            body,
        ),
        !occurs_at(content, "---\n"@, 0) ==> frontmatter(content) == (None::<Seq<char>>, content),
        !contains(content, "\n---\n"@) ==> frontmatter(content) == (None::<Seq<char>>, content),
{
    let all = "---\n"@ + header + "\n---\n"@ + body;
    let rest = header + "\n---\n"@ + body;
    lemma_starts("---\n"@, rest);
    assert(all =~= "---\n"@ + rest);
    assert(all.skip("---\n"@.len() as int) =~= rest);
    assert(rest.take(header.len() as int) =~= header);
    assert(rest.skip(header.len() + "\n---\n"@.len() as int) =~= body);
    if !contains(content, "\n---\n"@) && occurs_at(content, "---\n"@, 0) {
        let n = "---\n"@.len() as int;
        let tail = content.skip(n);
        let mark = "\n---\n"@;
        lemma_find_from(tail, mark, 0);
        if let Some(at) = find_from(tail, mark, 0) {
            assert(content.subrange(n + at, n + at + mark.len()) =~= tail.subrange(
                at,
                at + mark.len(),
            ));
            assert(occurs_at(content, mark, n + at));
        }
    }
}

/// What a template says of itself stands behind the word for it, without blanks and quotes around
/// it; a line that says nothing is passed over.
pub proof fn law_descriptions_are_read(said: Seq<char>, rest: Seq<Seq<char>>)
    ensures
        unquoted(trim(said)).len() > 0 ==> described_in(
            seq!["description:"@ + said] + rest,
            0,
        ) == Some(unquoted(trim(said))),
        said.len() > 0 && !is_quote(said[0]) && !is_quote(said.last()) ==> unquoted(said) == said,
        said.len() > 0 && !is_quote(said[0]) && !is_quote(said.last()) ==> unquoted(
            "\""@ + said + "\""@,
        ) == said,
{
    let line = "description:"@ + said;
    let header = seq![line] + rest;
    lemma_starts("description:"@, said);
    assert(line.skip("description:"@.len() as int) =~= said);
    assert(header[0] == line);
    if said.len() > 0 && !is_quote(said[0]) && !is_quote(said.last()) {
        reveal_strlit("\"");
        let quoted = "\""@ + said + "\""@;
        assert(quoted.drop_first() =~= said + "\""@);
        assert((said + "\""@).drop_last() =~= said);
        reveal_with_fuel(unquoted_start, 2);
        reveal_with_fuel(unquoted_end, 2);
    }
}

/// The arguments take their place in a template: where it names one they stand there, and else
/// behind it; without arguments such a template is said as it is.
pub proof fn law_arguments_take_their_place(
    front: Seq<char>,
    back: Seq<char>,
    body: Seq<char>,
    args: Seq<char>,
)
    ensures
        find_from(front + "{{args}}"@ + back, "{{args}}"@, 0) == Some(front.len() as int)
            && !contains(back, "{{args}}"@) ==> expanded(front + "{{args}}"@ + back, args) == front
            + args + back,
        !contains(body, "{{args}}"@) && args.len() == 0 ==> expanded(body, args) == body,
        !contains(body, "{{args}}"@) && args.len() > 0 ==> occurs_at(expanded(body, args), body, 0)
            && ends_in(expanded(body, args), args),
{
    reveal_strlit("{{args}}");
    let mark = "{{args}}"@;
    let all = front + mark + back;
    if find_from(all, mark, 0) == Some(front.len() as int) && !contains(back, mark) {
        lemma_find_from(all, mark, 0);
        assert(occurs_at(all, mark, front.len() as int));
        law_replacing_changes_the_word_alone(front, mark, back, args);
        law_replacing_spares_the_rest(back, mark, args);
    }
    if !contains(body, mark) && args.len() > 0 {
        lemma_starts(body, "\n\nArguments: "@ + args);
        assert(expanded(body, args) =~= body + ("\n\nArguments: "@ + args));
        lemma_ends_in(body + "\n\nArguments: "@, args);
    }
}

/// A command is read by its name, with what stands behind it; the name of the bot that it is
/// addressed to is left out.
pub proof fn law_invocations_are_read(name: Seq<char>, bot: Seq<char>, args: Seq<char>)
    requires
        is_valid_name(name),
        is_valid_name(bot),
        args.len() > 0,
        !white_space(args[0]),
        !white_space(args.last()),
    ensures
        invocation_of("/"@ + name + " "@ + args) == Some((name, args)),
        invocation_of("/"@ + name + "@"@ + bot + " "@ + args) == Some((name, args)),
        invocation_of("/"@ + name) matches Some((read, rest)) && read == name && rest.len() == 0,
{
    reveal_strlit("/");
    reveal_strlit(" ");
    reveal_strlit("@");
    let plain = "/"@ + name;
    let called = plain + "@"@ + bot;
    lemma_trim_whole(args);
    lemma_head(plain, name, args);
    lemma_at_absent(name);
    assert(plain.skip(1) =~= name);
    assert("/"@ + name + " "@ + args =~= plain + " "@ + args);
    lemma_head(called, name, args);
    let tail = called.skip(1);
    assert(tail =~= name + "@"@ + bot);
    lemma_index_from(tail, '@', 0);
    assert(tail[name.len() as int] == '@');
    assert(index_from(tail, '@', 0) == Some(name.len() as int)) by {
        let at = index_from(tail, '@', 0)->0;
        if at < name.len() {
            assert(is_name_char(name[at]));
        }
    }
    assert(tail.take(name.len() as int) =~= name);
    lemma_no_space(plain, name);
    assert(is_name_char(name[name.len() - 1]));
    lemma_trim_whole(plain);
    let empty: Seq<char> = seq![];
    assert(trim(empty) =~= empty);
}

proof fn lemma_at_absent(name: Seq<char>)
    requires
        is_valid_name(name),
    ensures
        index_from(name, '@', 0) is None,
{
    lemma_index_from(name, '@', 0);
    if let Some(at) = index_from(name, '@', 0) {
        assert(is_name_char(name[at]));
    }
}

/// A text without blanks at its ends is not touched by trimming.
proof fn lemma_trim_whole(s: Seq<char>)
    requires
        s.len() > 0,
        !white_space(s[0]),
        !white_space(s.last()),
    ensures
        trim(s) == s,
{
}

proof fn lemma_no_space(plain: Seq<char>, name: Seq<char>)
    requires
        is_valid_name(name),
        plain == "/"@ + name,
    ensures
        index_from(plain, ' ', 0) is None,
{
    reveal_strlit("/");
    lemma_index_from(plain, ' ', 0);
    if let Some(at) = index_from(plain, ' ', 0) {
        if at > 0 {
            assert(is_name_char(name[at - 1]));
            assert(plain[at] == name[at - 1]);
        }
    }
}

/// The head of a command ends at its first blank.
proof fn lemma_head(head: Seq<char>, name: Seq<char>, args: Seq<char>)
    requires
        head.len() > 0,
        head[0] == '/',
        args.len() > 0,
        !white_space(args[0]),
        !white_space(args.last()),
        forall|k: int| 1 <= k < head.len() ==> is_name_char(#[trigger] head[k]) || head[k] == '@',
    ensures
        trim(head + " "@ + args) == head + " "@ + args,
        parted(head + " "@ + args, ' ') == (head, args),
{
    reveal_strlit(" ");
    let s = head + " "@ + args;
    lemma_trim_whole(s);
    lemma_index_from(s, ' ', 0);
    assert(s[head.len() as int] == ' ');
    assert(index_from(s, ' ', 0) == Some(head.len() as int)) by {
        let at = index_from(s, ' ', 0)->0;
        if 1 <= at && at < head.len() {
            assert(is_name_char(head[at]) || head[at] == '@');
        }
    }
    assert(s.take(head.len() as int) =~= head);
    assert(s.skip(head.len() + 1int) =~= args);
}

/// What a command stands for is the template of its name with the arguments in their place; a command
/// without a template stands for nothing.
pub proof fn law_commands_stand_for_their_template(
    map: Map<Seq<char>, TemplateView>,
    name: Seq<char>,
    args: Seq<char>,
)
    requires
        is_valid_name(name),
        args.len() > 0,
        !white_space(args[0]),
        !white_space(args.last()),
    ensures
        map.contains_key(name) ==> expansion("/"@ + name + " "@ + args, map) == Some(
            expanded(map[name].body, args),
        ),
        !map.contains_key(name) ==> expansion("/"@ + name + " "@ + args, map) is None,
{
    law_invocations_are_read(name, name, args);
}

/// A file adds the template it holds, without its head and the blanks around it, under its own name;
/// a file that holds none adds nothing, and no file takes another's away.
pub proof fn law_files_add_their_template(files: Seq<FileView>, file: FileView, other: Seq<char>)
    ensures
        template_of(file) matches Some(template) ==> {
            &&& templates_of(files.push(file)).contains_key(template.name)
            &&& templates_of(files.push(file))[template.name] == template
            &&& file.file_name == template.name + ".md"@
            &&& template.body == trim(frontmatter(file.content).1)
            &&& template.description == frontmatter(file.content).0
            &&& template.body.len() > 0
        },
        templates_of(files).contains_key(other) ==> templates_of(files.push(file)).contains_key(
            other,
        ),
        template_of(file) is None ==> templates_of(files.push(file)) == templates_of(files),
{
    assert(files.push(file).drop_last() =~= files);
    law_templates_answer_to_their_file(other, file.file_name);
}

/// Every template that there is is listed once, as it is, in the order of the names.
pub proof fn law_every_template_is_listed_once(
    list: Seq<CommandTemplate>,
    map: Map<Seq<char>, TemplateView>,
    name: Seq<char>,
)
    requires
        lists_templates(list, map),
    ensures
        map.contains_key(name) <==> exists|i: int|
            0 <= i < list.len() && (#[trigger] list[i]).name@ == name,
        forall|i: int| 0 <= i < list.len() ==> map[(#[trigger] list[i]).name@] == list[i]@,
        forall|i: int, j: int|
            0 <= i < j < list.len() ==> (#[trigger] list[i]).name@ != (#[trigger] list[j]).name@
                && before(list[i].name@, list[j].name@),
{
    assert forall|i: int, j: int| 0 <= i < j < list.len() implies (#[trigger] list[i]).name@ != (
    #[trigger] list[j]).name@ && before(list[i].name@, list[j].name@) by {
        assert(before(list[i].name@, list[j].name@));
        crate::text::lemma_before_total(list[i].name@, list[j].name@);
    }
}

/// A file that a built-in command stands in front of is told under that command's name, with where it
/// lies.
pub proof fn law_hidden_files_are_told(files: Seq<FileView>, file: FileView, name: Seq<char>)
    requires
        file.file_name == name + ".md"@,
        is_valid_name(name),
        reserved_names().contains(name),
    ensures
        template_of(file) is None,
        collisions_of(files.push(file)).contains_key(name),
        collisions_of(files.push(file))[name].path == file.path,
        collisions_of(files.push(file))[name].file_name == Some(file.file_name),
        collisions_of(files.push(file))[name].name == name,
{
    assert(files.push(file).drop_last() =~= files);
    law_templates_answer_to_their_file(name, file.file_name);
}

} // verus!
