//! What an incoming message is: whose it is, whether it answers a question, and which command or
//! prompt it carries.
use vstd::prelude::*;
use vstd::string::*;

use crate::commands::{is_valid_name, reserved_names};
use crate::json::{json_text, json_value, print, Json, JsonView};
use crate::mcp::{base64_bytes, base64_encode, base64_text};
use crate::provider::{
    text_message, ImageAttachment, ImageView, Message, MessageView, Role, ToolCall,
};
use crate::text::{
    contains, decimal, decimal_u64, ends_in, has, in_turn, join, joined,
    law_replacing_spares_the_rest, lemma_ends_in, lemma_in_turn_contains, lemma_join_in_turn,
    lemma_one, lemma_starts, lemma_three, lemma_two, lower, lowered, occurs_at, opt_view,
    replace_all, replaced, same, slice, starts_with, strip_prefix, texts, to_chars, trim, trimmed,
};
use crate::tools::workspace::{is_within, lies_in};

verus! {

/// Maximum size of a downloaded photo, in bytes: 5 MiB, generous enough for a phone photo, small
/// enough to keep one request's payload reasonable.
pub const MAX_IMAGE_BYTES: u64 = 5242880;

/// Maximum size of a downloaded document, in bytes: 20 MiB.
pub const MAX_DOCUMENT_BYTES: u64 = 20971520;

/// A command or prompt of the owner's.
#[derive(Debug)]
pub enum Route {
    New,
    Status,
    Sessions,
    Resume(String),
    Delete(String),
    Memory,
    EditMemory(String),
    Forget(String),
    Workspace,
    SetWorkspace(String),
    Audit,
    Jobs,
    StopJob(String),
    Reminders,
    CancelReminder(String),
    Models,
    RefreshModels,
    Model,
    SwitchModel(String),
    Providers,
    SwitchProvider(String),
    Context,
    SetContext(String),
    Rtk,
    SetRtk(String),
    Commands,
    /// A command that is none of these: perhaps a template.
    Template,
    /// Text for the model.
    Prompt,
}

#[verifier::ext_equal]
pub enum RouteView {
    New,
    Status,
    Sessions,
    Resume(Seq<char>),
    Delete(Seq<char>),
    Memory,
    EditMemory(Seq<char>),
    Forget(Seq<char>),
    Workspace,
    SetWorkspace(Seq<char>),
    Audit,
    Jobs,
    StopJob(Seq<char>),
    Reminders,
    CancelReminder(Seq<char>),
    Models,
    RefreshModels,
    Model,
    SwitchModel(Seq<char>),
    Providers,
    SwitchProvider(Seq<char>),
    Context,
    SetContext(Seq<char>),
    Rtk,
    SetRtk(Seq<char>),
    Commands,
    Template,
    Prompt,
}

impl View for Route {
    type V = RouteView;

    open spec fn view(&self) -> RouteView {
        match self {
            Route::New => RouteView::New,
            Route::Status => RouteView::Status,
            Route::Sessions => RouteView::Sessions,
            Route::Resume(text) => RouteView::Resume(text@),
            Route::Delete(text) => RouteView::Delete(text@),
            Route::Memory => RouteView::Memory,
            Route::EditMemory(text) => RouteView::EditMemory(text@),
            Route::Forget(text) => RouteView::Forget(text@),
            Route::Workspace => RouteView::Workspace,
            Route::SetWorkspace(text) => RouteView::SetWorkspace(text@),
            Route::Audit => RouteView::Audit,
            Route::Jobs => RouteView::Jobs,
            Route::StopJob(text) => RouteView::StopJob(text@),
            Route::Reminders => RouteView::Reminders,
            Route::CancelReminder(text) => RouteView::CancelReminder(text@),
            Route::Models => RouteView::Models,
            Route::RefreshModels => RouteView::RefreshModels,
            Route::Model => RouteView::Model,
            Route::SwitchModel(text) => RouteView::SwitchModel(text@),
            Route::Providers => RouteView::Providers,
            Route::SwitchProvider(text) => RouteView::SwitchProvider(text@),
            Route::Context => RouteView::Context,
            Route::SetContext(text) => RouteView::SetContext(text@),
            Route::Rtk => RouteView::Rtk,
            Route::SetRtk(text) => RouteView::SetRtk(text@),
            Route::Commands => RouteView::Commands,
            Route::Template => RouteView::Template,
            Route::Prompt => RouteView::Prompt,
        }
    }
}

/// What follows a command's name and the space behind it, trimmed.
pub open spec fn argument_of(text: Seq<char>, command: Seq<char>) -> Option<Seq<char>> {
    if occurs_at(text, command, 0) {
        Some(trim(text.skip(command.len() as int)))
    } else {
        None
    }
}

fn argument(text: &str, command: &str) -> (r: Option<String>)
    ensures
        opt_view(r) == argument_of(text@, command@),
{
    match strip_prefix(text, command) {
        Some(rest) => Some(trimmed(rest.as_str())),
        None => None,
    }
}

/// What a text of the owner's asks for.
pub open spec fn route_of(text: Seq<char>) -> RouteView {
    if text == "/new"@ {
        RouteView::New
    } else if text == "/status"@ {
        RouteView::Status
    } else if text == "/sessions"@ {
        RouteView::Sessions
    } else if let Some(id) = argument_of(text, "/resume "@) {
        RouteView::Resume(id)
    } else if let Some(id) = argument_of(text, "/delete "@) {
        RouteView::Delete(id)
    } else if text == "/memory"@ {
        RouteView::Memory
    } else if let Some(rest) = argument_of(text, "/memory edit "@) {
        RouteView::EditMemory(rest)
    } else if let Some(rest) = argument_of(text, "/forget "@) {
        RouteView::Forget(rest)
    } else if text == "/workspace"@ {
        RouteView::Workspace
    } else if let Some(rest) = argument_of(text, "/workspace "@) {
        RouteView::SetWorkspace(rest)
    } else if text == "/audit"@ {
        RouteView::Audit
    } else if text == "/jobs"@ {
        RouteView::Jobs
    } else if let Some(id) = argument_of(text, "/jobs stop "@) {
        RouteView::StopJob(id)
    } else if text == "/reminders"@ {
        RouteView::Reminders
    } else if let Some(id) = argument_of(text, "/reminders cancel "@) {
        RouteView::CancelReminder(id)
    } else if text == "/models"@ {
        RouteView::Models
    } else if text == "/models refresh"@ {
        RouteView::RefreshModels
    } else if text == "/model"@ {
        RouteView::Model
    } else if let Some(model) = argument_of(text, "/model "@) {
        RouteView::SwitchModel(model)
    } else if text == "/providers"@ || text == "/provider"@ {
        RouteView::Providers
    } else if let Some(name) = argument_of(text, "/provider "@) {
        RouteView::SwitchProvider(name)
    } else if text == "/context"@ {
        RouteView::Context
    } else if let Some(tokens) = argument_of(text, "/context "@) {
        RouteView::SetContext(tokens)
    } else if text == "/rtk"@ {
        RouteView::Rtk
    } else if let Some(value) = argument_of(text, "/rtk "@) {
        RouteView::SetRtk(value)
    } else if text == "/commands"@ {
        RouteView::Commands
    } else if text.len() > 0 && text[0] == '/' {
        RouteView::Template
    } else {
        RouteView::Prompt
    }
}

/// Routes a text of the owner's.
pub fn route(text: &str) -> (r: Route)
    ensures
        r@ == route_of(text@),
{
    if same(text, "/new") {
        return Route::New;
    }
    if same(text, "/status") {
        return Route::Status;
    }
    if same(text, "/sessions") {
        return Route::Sessions;
    }
    if let Some(id) = argument(text, "/resume ") {
        return Route::Resume(id);
    }
    if let Some(id) = argument(text, "/delete ") {
        return Route::Delete(id);
    }
    if same(text, "/memory") {
        return Route::Memory;
    }
    if let Some(rest) = argument(text, "/memory edit ") {
        return Route::EditMemory(rest);
    }
    if let Some(rest) = argument(text, "/forget ") {
        return Route::Forget(rest);
    }
    if same(text, "/workspace") {
        return Route::Workspace;
    }
    if let Some(rest) = argument(text, "/workspace ") {
        return Route::SetWorkspace(rest);
    }
    if same(text, "/audit") {
        return Route::Audit;
    }
    if same(text, "/jobs") {
        return Route::Jobs;
    }
    if let Some(id) = argument(text, "/jobs stop ") {
        return Route::StopJob(id);
    }
    if same(text, "/reminders") {
        return Route::Reminders;
    }
    if let Some(id) = argument(text, "/reminders cancel ") {
        return Route::CancelReminder(id);
    }
    if same(text, "/models") {
        return Route::Models;
    }
    if same(text, "/models refresh") {
        return Route::RefreshModels;
    }
    if same(text, "/model") {
        return Route::Model;
    }
    if let Some(model) = argument(text, "/model ") {
        return Route::SwitchModel(model);
    }
    if same(text, "/providers") || same(text, "/provider") {
        return Route::Providers;
    }
    if let Some(name) = argument(text, "/provider ") {
        return Route::SwitchProvider(name);
    }
    if same(text, "/context") {
        return Route::Context;
    }
    if let Some(tokens) = argument(text, "/context ") {
        return Route::SetContext(tokens);
    }
    if same(text, "/rtk") {
        return Route::Rtk;
    }
    if let Some(value) = argument(text, "/rtk ") {
        return Route::SetRtk(value);
    }
    if same(text, "/commands") {
        return Route::Commands;
    }
    let chars = to_chars(text);
    if chars.len() > 0 && chars[0] == '/' {
        return Route::Template;
    }
    Route::Prompt
}

/// Whether a text is the command called `name`, alone or with something behind it.
pub open spec fn addresses(text: Seq<char>, name: Seq<char>) -> bool {
    text == "/"@ + name || occurs_at(text, "/"@ + name + " "@, 0)
}

proof fn lemma_prefix(text: Seq<char>, long: Seq<char>, short: Seq<char>)
    requires
        occurs_at(text, long, 0),
        occurs_at(long, short, 0),
    ensures
        occurs_at(text, short, 0),
{
    assert(text.subrange(0, short.len() as int) =~= long.subrange(0, short.len() as int));
}

proof fn lemma_one_name(text: Seq<char>, a: Seq<char>, b: Seq<char>)
    requires
        addresses(text, a),
        addresses(text, b),
        !a.contains(' '),
        !b.contains(' '),
    ensures
        a == b,
{
    reveal_strlit("/");
    reveal_strlit(" ");
    let long = if a.len() <= b.len() {
        b
    } else {
        a
    };
    let short = if a.len() <= b.len() {
        a
    } else {
        b
    };
    assert forall|i: int| 0 <= i < short.len() implies short[i] == long[i] by {
        let at = text.subrange(0, ("/"@ + short + " "@).len() as int);
        let up = text.subrange(0, ("/"@ + long + " "@).len() as int);
        assert(text[i + 1] == short[i]) by {
            if text != "/"@ + short {
                assert(at[i + 1] == ("/"@ + short + " "@)[i + 1]);
            }
        }
        assert(text[i + 1] == long[i]) by {
            if text != "/"@ + long {
                assert(up[i + 1] == ("/"@ + long + " "@)[i + 1]);
            }
        }
    }
    if short.len() < long.len() {
        let k = short.len() as int;
        assert(text.len() > k + 1);
        let at = text.subrange(0, ("/"@ + short + " "@).len() as int);
        assert(at[k + 1] == ("/"@ + short + " "@)[k + 1]);
        assert(text[k + 1] == ' ');
        let up = text.subrange(0, ("/"@ + long + " "@).len() as int);
        assert(text[k + 1] == long[k]) by {
            if text != "/"@ + long {
                assert(up[k + 1] == ("/"@ + long + " "@)[k + 1]);
            }
        }
        assert(long.contains(long[k]));
    }
    assert(short =~= long);
}

/// Every built-in's name is reserved: a text that is answered by a built-in addresses one of the
/// reserved names.
pub proof fn law_every_builtin_is_reserved(text: Seq<char>)
    requires
        !(route_of(text) is Template),
        !(route_of(text) is Prompt),
    ensures
        exists|i: int|
            0 <= i < reserved_names().len() && addresses(text, #[trigger] reserved_names()[i]),
{
    reveal_strlit("/");
    reveal_strlit(" ");
    reveal_strlit("audit");
    reveal_strlit("commands");
    reveal_strlit("context");
    reveal_strlit("delete");
    reveal_strlit("forget");
    reveal_strlit("jobs");
    reveal_strlit("memory");
    reveal_strlit("model");
    reveal_strlit("models");
    reveal_strlit("new");
    reveal_strlit("provider");
    reveal_strlit("providers");
    reveal_strlit("reminders");
    reveal_strlit("resume");
    reveal_strlit("rtk");
    reveal_strlit("sessions");
    reveal_strlit("status");
    reveal_strlit("workspace");
    let names = reserved_names();
    if text == "/new"@ {
        reveal_strlit("/new");
        assert("/new"@ =~= "/"@ + names[9]);
        assert(addresses(text, names[9]));
    }
    if text == "/status"@ {
        reveal_strlit("/status");
        assert("/status"@ =~= "/"@ + names[16]);
        assert(addresses(text, names[16]));
    }
    if text == "/sessions"@ {
        reveal_strlit("/sessions");
        assert("/sessions"@ =~= "/"@ + names[15]);
        assert(addresses(text, names[15]));
    }
    if text == "/memory"@ {
        reveal_strlit("/memory");
        assert("/memory"@ =~= "/"@ + names[6]);
        assert(addresses(text, names[6]));
    }
    if text == "/workspace"@ {
        reveal_strlit("/workspace");
        assert("/workspace"@ =~= "/"@ + names[17]);
        assert(addresses(text, names[17]));
    }
    if text == "/audit"@ {
        reveal_strlit("/audit");
        assert("/audit"@ =~= "/"@ + names[0]);
        assert(addresses(text, names[0]));
    }
    if text == "/jobs"@ {
        reveal_strlit("/jobs");
        assert("/jobs"@ =~= "/"@ + names[5]);
        assert(addresses(text, names[5]));
    }
    if text == "/reminders"@ {
        reveal_strlit("/reminders");
        assert("/reminders"@ =~= "/"@ + names[12]);
        assert(addresses(text, names[12]));
    }
    if text == "/models"@ {
        reveal_strlit("/models");
        assert("/models"@ =~= "/"@ + names[8]);
        assert(addresses(text, names[8]));
    }
    if text == "/model"@ {
        reveal_strlit("/model");
        assert("/model"@ =~= "/"@ + names[7]);
        assert(addresses(text, names[7]));
    }
    if text == "/providers"@ {
        reveal_strlit("/providers");
        assert("/providers"@ =~= "/"@ + names[11]);
        assert(addresses(text, names[11]));
    }
    if text == "/provider"@ {
        reveal_strlit("/provider");
        assert("/provider"@ =~= "/"@ + names[10]);
        assert(addresses(text, names[10]));
    }
    if text == "/context"@ {
        reveal_strlit("/context");
        assert("/context"@ =~= "/"@ + names[2]);
        assert(addresses(text, names[2]));
    }
    if text == "/rtk"@ {
        reveal_strlit("/rtk");
        assert("/rtk"@ =~= "/"@ + names[14]);
        assert(addresses(text, names[14]));
    }
    if text == "/commands"@ {
        reveal_strlit("/commands");
        assert("/commands"@ =~= "/"@ + names[1]);
        assert(addresses(text, names[1]));
    }
    if text == "/models refresh"@ {
        reveal_strlit("/models refresh");
        assert(occurs_at(text, "/"@ + names[8] + " "@, 0)) by {
            assert(text.subrange(0, 8) =~= "/"@ + names[8] + " "@);
        }
        assert(addresses(text, names[8]));
    }
    if occurs_at(text, "/resume "@, 0) {
        reveal_strlit("/resume ");
        assert("/resume "@ =~= "/"@ + names[13] + " "@);
        assert(addresses(text, names[13]));
    }
    if occurs_at(text, "/delete "@, 0) {
        reveal_strlit("/delete ");
        assert("/delete "@ =~= "/"@ + names[3] + " "@);
        assert(addresses(text, names[3]));
    }
    if occurs_at(text, "/forget "@, 0) {
        reveal_strlit("/forget ");
        assert("/forget "@ =~= "/"@ + names[4] + " "@);
        assert(addresses(text, names[4]));
    }
    if occurs_at(text, "/workspace "@, 0) {
        reveal_strlit("/workspace ");
        assert("/workspace "@ =~= "/"@ + names[17] + " "@);
        assert(addresses(text, names[17]));
    }
    if occurs_at(text, "/model "@, 0) {
        reveal_strlit("/model ");
        assert("/model "@ =~= "/"@ + names[7] + " "@);
        assert(addresses(text, names[7]));
    }
    if occurs_at(text, "/provider "@, 0) {
        reveal_strlit("/provider ");
        assert("/provider "@ =~= "/"@ + names[10] + " "@);
        assert(addresses(text, names[10]));
    }
    if occurs_at(text, "/context "@, 0) {
        reveal_strlit("/context ");
        assert("/context "@ =~= "/"@ + names[2] + " "@);
        assert(addresses(text, names[2]));
    }
    if occurs_at(text, "/rtk "@, 0) {
        reveal_strlit("/rtk ");
        assert("/rtk "@ =~= "/"@ + names[14] + " "@);
        assert(addresses(text, names[14]));
    }
    if occurs_at(text, "/memory edit "@, 0) {
        reveal_strlit("/memory edit ");
        assert(occurs_at("/memory edit "@, "/"@ + names[6] + " "@, 0)) by {
            assert("/memory edit "@.subrange(0, 8) =~= "/"@ + names[6] + " "@);
        }
        lemma_prefix(text, "/memory edit "@, "/"@ + names[6] + " "@);
        assert(addresses(text, names[6]));
    }
    if occurs_at(text, "/jobs stop "@, 0) {
        reveal_strlit("/jobs stop ");
        assert(occurs_at("/jobs stop "@, "/"@ + names[5] + " "@, 0)) by {
            assert("/jobs stop "@.subrange(0, 6) =~= "/"@ + names[5] + " "@);
        }
        lemma_prefix(text, "/jobs stop "@, "/"@ + names[5] + " "@);
        assert(addresses(text, names[5]));
    }
    if occurs_at(text, "/reminders cancel "@, 0) {
        reveal_strlit("/reminders cancel ");
        assert(occurs_at("/reminders cancel "@, "/"@ + names[12] + " "@, 0)) by {
            assert("/reminders cancel "@.subrange(0, 11) =~= "/"@ + names[12] + " "@);
        }
        lemma_prefix(text, "/reminders cancel "@, "/"@ + names[12] + " "@);
        assert(addresses(text, names[12]));
    }
}

/// A template that is not named after a built-in is reachable: no built-in answers in its place.
pub proof fn law_other_names_reach_their_template(text: Seq<char>, name: Seq<char>)
    requires
        is_valid_name(name),
        !reserved_names().contains(name),
        addresses(text, name),
    ensures
        route_of(text) is Template,
{
    reveal_strlit("/");
    assert(text[0] == '/') by {
        if text != "/"@ + name {
            assert(text.subrange(0, ("/"@ + name + " "@).len() as int)[0] == '/');
        }
    }
    if !(route_of(text) is Template) {
        if route_of(text) is Prompt {
            assert(text.len() > 0);
            assert(false);
        }
        law_every_builtin_is_reserved(text);
        let i = choose|i: int|
            0 <= i < reserved_names().len() && addresses(text, #[trigger] reserved_names()[i]);
        reveal_strlit("audit");
        reveal_strlit("commands");
        reveal_strlit("context");
        reveal_strlit("delete");
        reveal_strlit("forget");
        reveal_strlit("jobs");
        reveal_strlit("memory");
        reveal_strlit("model");
        reveal_strlit("models");
        reveal_strlit("new");
        reveal_strlit("provider");
        reveal_strlit("providers");
        reveal_strlit("reminders");
        reveal_strlit("resume");
        reveal_strlit("rtk");
        reveal_strlit("sessions");
        reveal_strlit("status");
        reveal_strlit("workspace");
        assert(!reserved_names()[i].contains(' '));
        assert(!name.contains(' '));
        lemma_one_name(text, reserved_names()[i], name);
        assert(reserved_names().contains(name));
    }
}

/// What an incoming message is.
#[derive(Debug)]
pub enum Incoming {
    /// Not from the owner, or with nothing in it that is understood.
    Ignored,
    /// The answer to the question that the chat was asked.
    Answer(String),
    Photo,
    Document,
    Text(Route),
}

/// Whether a message is the owner's.
pub open spec fn is_owners(user: Option<u64>, owner: u64) -> bool {
    user == Some(owner)
}

/// Sorts an incoming message: `asked` says whether a question waits for an answer from its chat,
/// which the next text then is rather than a command or a prompt.
pub fn classify(
    user: Option<u64>,
    owner: u64,
    photo: bool,
    document: bool,
    text: Option<&str>,
    asked: bool,
) -> (r: Incoming)
    ensures
        match r {
            Incoming::Ignored => !is_owners(user, owner) || (!photo && !document && text is None),
            Incoming::Answer(answer) => is_owners(user, owner) && asked && text is Some && answer@
                == text->0@,
            Incoming::Photo => is_owners(user, owner) && photo && !(asked && text is Some),
            Incoming::Document => is_owners(user, owner) && !photo && document && !(asked
                && text is Some),
            Incoming::Text(route) => {
                &&& is_owners(user, owner)
                &&& !photo
                &&& !document
                &&& !asked
                &&& text is Some
                &&& route@ == route_of(text->0@)
            },
        },
        !is_owners(user, owner) ==> r is Ignored,
{
    match user {
        Some(user) => {
            if user != owner {
                return Incoming::Ignored;
            }
        },
        None => {
            return Incoming::Ignored;
        },
    }
    if asked {
        if let Some(text) = text {
            return Incoming::Answer(text.to_owned());
        }
    }
    if photo {
        return Incoming::Photo;
    }
    if document {
        return Incoming::Document;
    }
    match text {
        Some(text) => Incoming::Text(route(text)),
        None => Incoming::Ignored,
    }
}

/// Why a photo of this size is refused, if it is.
pub open spec fn photo_refusal(size: u64) -> Option<Seq<char>> {
    if size > MAX_IMAGE_BYTES {
        Some(
            "That photo is too large ("@ + decimal(size as nat)
                + " bytes); the limit is 5242880 bytes."@,
        )
    } else {
        None
    }
}

/// Why a document of this size is refused, if it is.
pub open spec fn document_refusal(size: u64) -> Option<Seq<char>> {
    if size > MAX_DOCUMENT_BYTES {
        Some(
            "That document is too large ("@ + decimal(size as nat)
                + " bytes); the limit is 20971520 bytes."@,
        )
    } else {
        None
    }
}

/// Refuses a photo that is too large; one whose size is not known is let through.
pub fn check_photo(size: u64) -> (r: Result<(), String>)
    ensures
        match r {
            Ok(_) => photo_refusal(size) is None,
            Err(message) => photo_refusal(size) == Some(message@),
        },
{
    if size > MAX_IMAGE_BYTES {
        let mut message = "That photo is too large (".to_owned();
        message.push_str(decimal_u64(size).as_str());
        message.push_str(" bytes); the limit is 5242880 bytes.");
        return Err(message);
    }
    Ok(())
}

/// Refuses a document that is too large; one whose size is not known is let through.
pub fn check_document_size(size: u64) -> (r: Result<(), String>)
    ensures
        match r {
            Ok(_) => document_refusal(size) is None,
            Err(message) => document_refusal(size) == Some(message@),
        },
{
    if size > MAX_DOCUMENT_BYTES {
        let mut message = "That document is too large (".to_owned();
        message.push_str(decimal_u64(size).as_str());
        message.push_str(" bytes); the limit is 20971520 bytes.");
        return Err(message);
    }
    Ok(())
}

/// Refuses a download that turned out to be too large.
pub fn check_download(size: u64) -> (r: Result<(), String>)
    ensures
        match r {
            Ok(_) => size <= MAX_DOCUMENT_BYTES,
            Err(message) => size > MAX_DOCUMENT_BYTES && message@
                == "downloaded document exceeds the 20971520-byte limit"@,
        },
{
    if size > MAX_DOCUMENT_BYTES {
        return Err("downloaded document exceeds the 20971520-byte limit".to_owned());
    }
    Ok(())
}

/// What an upload is called, `given` being the last component of the name that came with it, if it
/// came with a name that has one.
pub open spec fn upload_name(given: Option<Seq<char>>) -> Seq<char> {
    match given {
        None => "upload.bin"@,
        Some(name) => name,
    }
}

/// What an upload is called.
pub fn upload_file_name(given: Option<&str>) -> (r: String)
    ensures
        r@ == upload_name(opt_view(given)),
{
    match given {
        Some(name) => name.to_owned(),
        None => "upload.bin".to_owned(),
    }
}

/// The file that an upload is stored in, under an id of its own.
pub open spec fn stored_name(id: Seq<char>, name: Seq<char>) -> Seq<char> {
    id + "-"@ + name
}

/// The file that an upload is stored in.
pub fn stored_file_name(id: &str, name: &str) -> (r: String)
    ensures
        r@ == stored_name(id@, name@),
{
    let mut r = id.to_owned();
    r.push_str("-");
    r.push_str(name);
    r
}

/// An upload stays in its directory: where neither the id nor the given component holds a separator
/// of path components, the file's name does not, and it is neither `.` nor `..`.
pub proof fn law_uploads_stay_in_their_directory(
    id: Seq<char>,
    given: Option<Seq<char>>,
    separator: char,
)
    requires
        separator == '/' || separator == '\\',
        !id.contains(separator),
        given is Some ==> !given->0.contains(separator),
    ensures
        !stored_name(id, upload_name(given)).contains(separator),
        stored_name(id, upload_name(given)) != "."@,
        stored_name(id, upload_name(given)) != ".."@,
{
    reveal_strlit("-");
    reveal_strlit(".");
    reveal_strlit("..");
    reveal_strlit("upload.bin");
    let name = upload_name(given);
    let stored = stored_name(id, name);
    assert(stored[id.len() as int] == '-');
    if stored.contains(separator) {
        let k = choose|k: int| 0 <= k < stored.len() && stored[k] == separator;
        if k < id.len() {
            assert(id[k] == separator);
        } else if k > id.len() {
            assert(name[k - id.len() - 1] == separator);
        }
    }
    assert("."@[0] == '.' && ".."@[0] == '.' && ".."@[1] == '.');
}

/// Where the extension of a file name starts: behind its last dot, unless that is its first
/// character.
pub open spec fn extension_of(name: Seq<char>) -> Seq<char> {
    match crate::prompts::last_index(name, '.', name.len() as int) {
        Some(at) => if at > 0 && name != ".."@ {
            name.skip(at + 1)
        } else {
            seq![]
        },
        None => seq![],
    }
}

/// Whether an upload is one that can be worked with.
pub open spec fn is_supported(name: Seq<char>) -> bool {
    let extension = lower(extension_of(name));
    extension == "csv"@ || extension == "xlsx"@ || extension == "xlsm"@
}

/// Refuses an upload that cannot be worked with.
pub fn check_extension(name: &str) -> (r: Result<(), String>)
    ensures
        match r {
            Ok(_) => is_supported(name@),
            Err(message) => !is_supported(name@) && message@
                == "Only CSV, XLSX, and XLSM documents are currently supported."@,
        },
{
    let chars = to_chars(name);
    let mut extension = String::new();
    assert(extension@ =~= seq![]);
    if let Some(at) = crate::prompts::last_index_of(&chars, '.') {
        if at > 0 && !same(name, "..") {
            extension = slice(&chars, at + 1, chars.len());
            assert(extension@ =~= name@.skip(at + 1));
        }
    }
    let extension = lowered(extension.as_str());
    if same(extension.as_str(), "csv") || same(extension.as_str(), "xlsx") || same(
        extension.as_str(),
        "xlsm",
    ) {
        Ok(())
    } else {
        Err("Only CSV, XLSX, and XLSM documents are currently supported.".to_owned())
    }
}

/// What is asked for with an upload: its caption, or else a first look.
pub open spec fn wish(caption: Seq<char>) -> Seq<char> {
    if caption.len() == 0 {
        "Inspect its columns and ask what analysis or chart they want if the request is unclear."@
    } else {
        caption
    }
}

/// What the model is asked to do with an upload: what the user wrote along with it, if anything.
pub fn upload_instruction(caption: &str) -> (r: String)
    ensures
        r@ == wish(caption@),
{
    if caption.is_empty() {
        "Inspect its columns and ask what analysis or chart they want if the request is unclear.".to_owned()
    } else {
        caption.to_owned()
    }
}

/// A path relative to the workspace, with forward slashes; the whole path where it does not lie
/// there. The path and the workspace are given by their components, the path also as it is shown.
pub open spec fn relative_path(
    workspace: Seq<Seq<char>>,
    components: Seq<Seq<char>>,
    shown: Seq<char>,
) -> Seq<char> {
    replace_all(
        if lies_in(components, workspace) {
            join(components.skip(workspace.len() as int), "/"@)
        } else {
            shown
        },
        "\\"@,
        "/"@,
    )
}

/// What the model is told of an upload.
pub open spec fn upload_text(
    workspace: Seq<Seq<char>>,
    components: Seq<Seq<char>>,
    path: Seq<char>,
    instruction: Seq<char>,
) -> Seq<char> {
    "The user uploaded a data file at `"@ + relative_path(workspace, components, path)
        + "` (relative to the workspace — use this path with read_file). Its absolute path, for tools that run outside the workspace, is `"@
        + path + "`. "@ + instruction
}

/// The prompt an upload turns into, naming the file both ways.
///
/// The two kinds of reader need different spellings and the model cannot tell them apart from one
/// path: the built-in `read_file` requires a workspace-relative path and rejects an absolute one
/// outright, while an MCP server is a separate process with its own working directory and can only
/// use the absolute form.
pub fn upload_prompt(
    workspace: &Vec<String>,
    components: &Vec<String>,
    path: &str,
    instruction: &str,
) -> (r: String)
    ensures
        r@ == upload_text(texts(workspace@), texts(components@), path@, instruction@),
{
    let relative = if is_within(components, workspace) {
        let mut rest: Vec<String> = Vec::new();
        let ghost all = texts(components@);
        let mut i: usize = workspace.len();
        assert(texts(workspace@).len() == workspace@.len() && all.len() == components@.len());
        while i < components.len()
            invariant
                workspace@.len() <= i <= components@.len(),
                all == texts(components@),
                texts(rest@) == all.subrange(workspace@.len() as int, i as int),
            decreases components@.len() - i,
        {
            let ghost earlier = rest@;
            rest.push(components[i].clone());
            i = i + 1;
            assert(texts(rest@) =~= texts(earlier).push(all[i - 1]));
            assert(texts(rest@) =~= all.subrange(workspace@.len() as int, i as int));
        }
        assert(all.skip(workspace@.len() as int) =~= all.subrange(
            workspace@.len() as int,
            all.len() as int,
        ));
        joined(&rest, "/")
    } else {
        path.to_owned()
    };
    proof {
        reveal_strlit("\\");
    }
    let mut r = "The user uploaded a data file at `".to_owned();
    r.push_str(replaced(relative.as_str(), "\\", "/").as_str());
    r.push_str(
        "` (relative to the workspace — use this path with read_file). Its absolute path, for tools that run outside the workspace, is `",
    );
    r.push_str(path);
    r.push_str("`. ");
    r.push_str(instruction);
    r
}

/// Whether a call's progress is shown in the chat: only visible external work is.
pub open spec fn shows_progress(name: Seq<char>) -> bool {
    contains(name, "__"@) || name == "delegate_to_kamui"@ || name == "run_command"@
}

pub fn should_show_tool_progress(name: &str) -> (r: bool)
    ensures
        r == shows_progress(name@),
{
    has(name, "__") || same(name, "delegate_to_kamui") || same(name, "run_command")
}

/// What stands behind the last occurrence of `part` that ends at or before `to`; all of it where
/// there is none.
pub open spec fn after_last(s: Seq<char>, part: Seq<char>, to: int) -> Seq<char>
    decreases to,
{
    if to < part.len() || to > s.len() {
        s
    } else if occurs_at(s, part, to - part.len()) {
        s.skip(to)
    } else if to == 0 {
        s
    } else {
        after_last(s, part, to - 1)
    }
}

/// What a tool is called in front of the owner.
pub open spec fn shown_name(name: Seq<char>) -> Seq<char> {
    replace_all(after_last(name, "__"@, name.len() as int), "_"@, " "@)
}

/// A tool's name as the user knows it: without the server's name, in words.
pub fn user_facing_tool_name(name: &str) -> (r: String)
    ensures
        r@ == shown_name(name@),
{
    proof {
        reveal_strlit("__");
        reveal_strlit("_");
    }
    let chars = to_chars(name);
    let part = to_chars("__");
    let mut to: usize = chars.len();
    while to >= 2
        invariant
            chars@ == name@,
            part@ == "__"@,
            part@.len() == 2,
            to <= chars@.len(),
            "_"@.len() == 1,
            after_last(name@, part@, name@.len() as int) == after_last(name@, part@, to as int),
        decreases to,
    {
        if crate::text::matches_at(&chars, &part, to - 2) {
            let rest = slice(&chars, to, chars.len());
            assert(rest@ =~= name@.skip(to as int));
            return replaced(rest.as_str(), "_", " ");
        }
        to = to - 1;
    }
    replaced(name, "_", " ")
}

/// That a tool runs.
pub open spec fn started_text(name: Seq<char>) -> Seq<char> {
    "🛠️ Sedang menjalankan "@ + shown_name(name) + "..."@
}

/// The message that announces a tool at work.
pub fn progress_started(name: &str) -> (r: String)
    ensures
        r@ == started_text(name@),
{
    let mut r = "🛠️ Sedang menjalankan ".to_owned();
    r.push_str(user_facing_tool_name(name).as_str());
    r.push_str("...");
    r
}

/// That a tool has run, and how long it took.
pub open spec fn finished_text(name: Seq<char>, failed: bool, elapsed: Seq<char>) -> Seq<char> {
    (if failed {
        "❌ "@
    } else {
        "✅ "@
    }) + shown_name(name) + (if failed {
        " gagal dalam "@
    } else {
        " selesai dalam "@
    }) + elapsed + " detik."@
}

/// The message that tells how a tool's work ended, `elapsed` being the seconds it took as they are
/// shown.
pub fn progress_finished(name: &str, failed: bool, elapsed: &str) -> (r: String)
    ensures
        r@ == finished_text(name@, failed, elapsed@),
{
    let mut r = (if failed {
        "❌ "
    } else {
        "✅ "
    }).to_owned();
    r.push_str(user_facing_tool_name(name).as_str());
    r.push_str(
        if failed {
            " gagal dalam "
        } else {
            " selesai dalam "
        },
    );
    r.push_str(elapsed);
    r.push_str(" detik.");
    r
}

/// Whether an image that a tool returned can be sent to the chat.
pub fn is_sendable(mime_type: &str) -> (r: bool)
    ensures
        r == occurs_at(mime_type@, "image/"@, 0),
{
    starts_with(mime_type, "image/")
}

/// A photo with its caption, `data` being the photo in base64.
pub open spec fn photo_view(caption: Seq<char>, data: Seq<char>) -> MessageView {
    MessageView {
        images: seq![ImageView { media_type: "image/jpeg"@, data }],
        ..text_message(Role::User, caption)
    }
}

/// A photo that the user sent, with its caption, as a message to the model. Telegram always
/// transcodes photos to JPEG.
pub fn photo_message(caption: &str, photo: &Vec<u8>) -> (r: Message)
    ensures
        r@ == photo_view(caption@, base64_text(photo@)),
        base64_bytes(r@.images[0].data) == Some(photo@),
{
    let image = ImageAttachment {
        media_type: "image/jpeg".to_owned(),
        data: base64_encode(photo),
    };
    let mut images: Vec<ImageAttachment> = Vec::new();
    images.push(image);
    assert(crate::text::seq_view(images@) =~= seq![image@]);
    Message::user_with_images(caption, images)
}

/// The tool call that `/jobs stop` makes.
pub fn stop_job_call(id: &str) -> (r: ToolCall)
    ensures
        r.id@ == "telegram-jobs"@,
        r.name@ == "stop_command"@,
        r.arguments@ == json_text(JsonView::object().with("id"@, JsonView::Text(id@))),
        json_value(r.arguments@) == Some(JsonView::object().with("id"@, JsonView::Text(id@))),
{
    let arguments = Json::object().with("id", Json::text(id));
    let text = print(&arguments);
    assert(arguments@.storable(100)) by {
        reveal_with_fuel(JsonView::storable, 2);
    }
    ToolCall {
        id: "telegram-jobs".to_owned(),
        name: "stop_command".to_owned(),
        arguments: text,
    }
}

/// A command reaches what it is for, with the argument that was written behind it, without the blanks
/// around it, whatever the argument is.
pub proof fn law_commands_carry_their_argument(argument: Seq<char>)
    ensures
        route_of("/resume "@ + argument) == RouteView::Resume(trim(argument)),
        route_of("/delete "@ + argument) == RouteView::Delete(trim(argument)),
        route_of("/memory edit "@ + argument) == RouteView::EditMemory(trim(argument)),
        route_of("/forget "@ + argument) == RouteView::Forget(trim(argument)),
        route_of("/workspace "@ + argument) == RouteView::SetWorkspace(trim(argument)),
        route_of("/jobs stop "@ + argument) == RouteView::StopJob(trim(argument)),
        route_of("/reminders cancel "@ + argument) == RouteView::CancelReminder(trim(argument)),
        route_of("/model "@ + argument) == RouteView::SwitchModel(trim(argument)),
        route_of("/provider "@ + argument) == RouteView::SwitchProvider(trim(argument)),
        route_of("/context "@ + argument) == RouteView::SetContext(trim(argument)),
        route_of("/rtk "@ + argument) == RouteView::SetRtk(trim(argument)),
{
    lemma_route_resume(argument);
    lemma_route_delete(argument);
    lemma_route_editmemory(argument);
    lemma_route_forget(argument);
    lemma_route_setworkspace(argument);
    lemma_route_stopjob(argument);
    lemma_route_cancelreminder(argument);
    lemma_route_switchmodel(argument);
    lemma_route_switchprovider(argument);
    lemma_route_setcontext(argument);
    lemma_route_setrtk(argument);
}

/// A text with another character in one place neither is the word nor starts with it.
proof fn lemma_other_start(text: Seq<char>, word: Seq<char>, k: int)
    requires
        0 <= k < word.len(),
        k < text.len(),
        text[k] != word[k],
    ensures
        text != word,
        !occurs_at(text, word, 0),
{
    if occurs_at(text, word, 0) {
        assert(text.subrange(0, word.len() as int)[k] == text[k]);
    }
}

proof fn lemma_route_resume(argument: Seq<char>)
    ensures
        route_of("/resume "@ + argument) == RouteView::Resume(trim(argument)),
{
    let text = "/resume "@ + argument;
    reveal_strlit("/resume ");
    reveal_strlit("/new");
    lemma_other_start(text, "/new"@, 1);
    reveal_strlit("/status");
    lemma_other_start(text, "/status"@, 1);
    reveal_strlit("/sessions");
    lemma_other_start(text, "/sessions"@, 1);
    lemma_starts("/resume "@, argument);
    assert(text.skip("/resume "@.len() as int) =~= argument);
}

proof fn lemma_route_delete(argument: Seq<char>)
    ensures
        route_of("/delete "@ + argument) == RouteView::Delete(trim(argument)),
{
    let text = "/delete "@ + argument;
    reveal_strlit("/delete ");
    reveal_strlit("/new");
    lemma_other_start(text, "/new"@, 1);
    reveal_strlit("/status");
    lemma_other_start(text, "/status"@, 1);
    reveal_strlit("/sessions");
    lemma_other_start(text, "/sessions"@, 1);
    reveal_strlit("/resume ");
    lemma_other_start(text, "/resume "@, 1);
    lemma_starts("/delete "@, argument);
    assert(text.skip("/delete "@.len() as int) =~= argument);
}

proof fn lemma_route_editmemory(argument: Seq<char>)
    ensures
        route_of("/memory edit "@ + argument) == RouteView::EditMemory(trim(argument)),
{
    let text = "/memory edit "@ + argument;
    reveal_strlit("/memory edit ");
    reveal_strlit("/new");
    lemma_other_start(text, "/new"@, 1);
    reveal_strlit("/status");
    lemma_other_start(text, "/status"@, 1);
    reveal_strlit("/sessions");
    lemma_other_start(text, "/sessions"@, 1);
    reveal_strlit("/resume ");
    lemma_other_start(text, "/resume "@, 1);
    reveal_strlit("/delete ");
    lemma_other_start(text, "/delete "@, 1);
    reveal_strlit("/memory");
    assert(text.len() > "/memory"@.len());
    lemma_starts("/memory edit "@, argument);
    assert(text.skip("/memory edit "@.len() as int) =~= argument);
}

proof fn lemma_route_forget(argument: Seq<char>)
    ensures
        route_of("/forget "@ + argument) == RouteView::Forget(trim(argument)),
{
    let text = "/forget "@ + argument;
    reveal_strlit("/forget ");
    reveal_strlit("/new");
    lemma_other_start(text, "/new"@, 1);
    reveal_strlit("/status");
    lemma_other_start(text, "/status"@, 1);
    reveal_strlit("/sessions");
    lemma_other_start(text, "/sessions"@, 1);
    reveal_strlit("/resume ");
    lemma_other_start(text, "/resume "@, 1);
    reveal_strlit("/delete ");
    lemma_other_start(text, "/delete "@, 1);
    reveal_strlit("/memory");
    lemma_other_start(text, "/memory"@, 1);
    reveal_strlit("/memory edit ");
    lemma_other_start(text, "/memory edit "@, 1);
    lemma_starts("/forget "@, argument);
    assert(text.skip("/forget "@.len() as int) =~= argument);
}

proof fn lemma_route_setworkspace(argument: Seq<char>)
    ensures
        route_of("/workspace "@ + argument) == RouteView::SetWorkspace(trim(argument)),
{
    let text = "/workspace "@ + argument;
    reveal_strlit("/workspace ");
    reveal_strlit("/new");
    lemma_other_start(text, "/new"@, 1);
    reveal_strlit("/status");
    lemma_other_start(text, "/status"@, 1);
    reveal_strlit("/sessions");
    lemma_other_start(text, "/sessions"@, 1);
    reveal_strlit("/resume ");
    lemma_other_start(text, "/resume "@, 1);
    reveal_strlit("/delete ");
    lemma_other_start(text, "/delete "@, 1);
    reveal_strlit("/memory");
    lemma_other_start(text, "/memory"@, 1);
    reveal_strlit("/memory edit ");
    lemma_other_start(text, "/memory edit "@, 1);
    reveal_strlit("/forget ");
    lemma_other_start(text, "/forget "@, 1);
    reveal_strlit("/workspace");
    assert(text.len() > "/workspace"@.len());
    lemma_starts("/workspace "@, argument);
    assert(text.skip("/workspace "@.len() as int) =~= argument);
}

proof fn lemma_route_stopjob(argument: Seq<char>)
    ensures
        route_of("/jobs stop "@ + argument) == RouteView::StopJob(trim(argument)),
{
    let text = "/jobs stop "@ + argument;
    reveal_strlit("/jobs stop ");
    reveal_strlit("/new");
    lemma_other_start(text, "/new"@, 1);
    reveal_strlit("/status");
    lemma_other_start(text, "/status"@, 1);
    reveal_strlit("/sessions");
    lemma_other_start(text, "/sessions"@, 1);
    reveal_strlit("/resume ");
    lemma_other_start(text, "/resume "@, 1);
    reveal_strlit("/delete ");
    lemma_other_start(text, "/delete "@, 1);
    reveal_strlit("/memory");
    lemma_other_start(text, "/memory"@, 1);
    reveal_strlit("/memory edit ");
    lemma_other_start(text, "/memory edit "@, 1);
    reveal_strlit("/forget ");
    lemma_other_start(text, "/forget "@, 1);
    reveal_strlit("/workspace");
    lemma_other_start(text, "/workspace"@, 1);
    reveal_strlit("/workspace ");
    lemma_other_start(text, "/workspace "@, 1);
    reveal_strlit("/audit");
    lemma_other_start(text, "/audit"@, 1);
    reveal_strlit("/jobs");
    assert(text.len() > "/jobs"@.len());
    lemma_starts("/jobs stop "@, argument);
    assert(text.skip("/jobs stop "@.len() as int) =~= argument);
}

proof fn lemma_route_cancelreminder(argument: Seq<char>)
    ensures
        route_of("/reminders cancel "@ + argument) == RouteView::CancelReminder(trim(argument)),
{
    let text = "/reminders cancel "@ + argument;
    reveal_strlit("/reminders cancel ");
    reveal_strlit("/new");
    lemma_other_start(text, "/new"@, 1);
    reveal_strlit("/status");
    lemma_other_start(text, "/status"@, 1);
    reveal_strlit("/sessions");
    lemma_other_start(text, "/sessions"@, 1);
    reveal_strlit("/resume ");
    lemma_other_start(text, "/resume "@, 3);
    reveal_strlit("/delete ");
    lemma_other_start(text, "/delete "@, 1);
    reveal_strlit("/memory");
    lemma_other_start(text, "/memory"@, 1);
    reveal_strlit("/memory edit ");
    lemma_other_start(text, "/memory edit "@, 1);
    reveal_strlit("/forget ");
    lemma_other_start(text, "/forget "@, 1);
    reveal_strlit("/workspace");
    lemma_other_start(text, "/workspace"@, 1);
    reveal_strlit("/workspace ");
    lemma_other_start(text, "/workspace "@, 1);
    reveal_strlit("/audit");
    lemma_other_start(text, "/audit"@, 1);
    reveal_strlit("/jobs");
    lemma_other_start(text, "/jobs"@, 1);
    reveal_strlit("/jobs stop ");
    lemma_other_start(text, "/jobs stop "@, 1);
    reveal_strlit("/reminders");
    assert(text.len() > "/reminders"@.len());
    lemma_starts("/reminders cancel "@, argument);
    assert(text.skip("/reminders cancel "@.len() as int) =~= argument);
}

proof fn lemma_route_switchmodel(argument: Seq<char>)
    ensures
        route_of("/model "@ + argument) == RouteView::SwitchModel(trim(argument)),
{
    let text = "/model "@ + argument;
    reveal_strlit("/model ");
    reveal_strlit("/new");
    lemma_other_start(text, "/new"@, 1);
    reveal_strlit("/status");
    lemma_other_start(text, "/status"@, 1);
    reveal_strlit("/sessions");
    lemma_other_start(text, "/sessions"@, 1);
    reveal_strlit("/resume ");
    lemma_other_start(text, "/resume "@, 1);
    reveal_strlit("/delete ");
    lemma_other_start(text, "/delete "@, 1);
    reveal_strlit("/memory");
    lemma_other_start(text, "/memory"@, 2);
    reveal_strlit("/memory edit ");
    lemma_other_start(text, "/memory edit "@, 2);
    reveal_strlit("/forget ");
    lemma_other_start(text, "/forget "@, 1);
    reveal_strlit("/workspace");
    lemma_other_start(text, "/workspace"@, 1);
    reveal_strlit("/workspace ");
    lemma_other_start(text, "/workspace "@, 1);
    reveal_strlit("/audit");
    lemma_other_start(text, "/audit"@, 1);
    reveal_strlit("/jobs");
    lemma_other_start(text, "/jobs"@, 1);
    reveal_strlit("/jobs stop ");
    lemma_other_start(text, "/jobs stop "@, 1);
    reveal_strlit("/reminders");
    lemma_other_start(text, "/reminders"@, 1);
    reveal_strlit("/reminders cancel ");
    lemma_other_start(text, "/reminders cancel "@, 1);
    reveal_strlit("/models");
    lemma_other_start(text, "/models"@, 6);
    reveal_strlit("/models refresh");
    lemma_other_start(text, "/models refresh"@, 6);
    reveal_strlit("/model");
    assert(text.len() > "/model"@.len());
    lemma_starts("/model "@, argument);
    assert(text.skip("/model "@.len() as int) =~= argument);
}

proof fn lemma_route_switchprovider(argument: Seq<char>)
    ensures
        route_of("/provider "@ + argument) == RouteView::SwitchProvider(trim(argument)),
{
    let text = "/provider "@ + argument;
    reveal_strlit("/provider ");
    reveal_strlit("/new");
    lemma_other_start(text, "/new"@, 1);
    reveal_strlit("/status");
    lemma_other_start(text, "/status"@, 1);
    reveal_strlit("/sessions");
    lemma_other_start(text, "/sessions"@, 1);
    reveal_strlit("/resume ");
    lemma_other_start(text, "/resume "@, 1);
    reveal_strlit("/delete ");
    lemma_other_start(text, "/delete "@, 1);
    reveal_strlit("/memory");
    lemma_other_start(text, "/memory"@, 1);
    reveal_strlit("/memory edit ");
    lemma_other_start(text, "/memory edit "@, 1);
    reveal_strlit("/forget ");
    lemma_other_start(text, "/forget "@, 1);
    reveal_strlit("/workspace");
    lemma_other_start(text, "/workspace"@, 1);
    reveal_strlit("/workspace ");
    lemma_other_start(text, "/workspace "@, 1);
    reveal_strlit("/audit");
    lemma_other_start(text, "/audit"@, 1);
    reveal_strlit("/jobs");
    lemma_other_start(text, "/jobs"@, 1);
    reveal_strlit("/jobs stop ");
    lemma_other_start(text, "/jobs stop "@, 1);
    reveal_strlit("/reminders");
    lemma_other_start(text, "/reminders"@, 1);
    reveal_strlit("/reminders cancel ");
    lemma_other_start(text, "/reminders cancel "@, 1);
    reveal_strlit("/models");
    lemma_other_start(text, "/models"@, 1);
    reveal_strlit("/models refresh");
    lemma_other_start(text, "/models refresh"@, 1);
    reveal_strlit("/model");
    lemma_other_start(text, "/model"@, 1);
    reveal_strlit("/model ");
    lemma_other_start(text, "/model "@, 1);
    reveal_strlit("/providers");
    lemma_other_start(text, "/providers"@, 9);
    reveal_strlit("/provider");
    assert(text.len() > "/provider"@.len());
    lemma_starts("/provider "@, argument);
    assert(text.skip("/provider "@.len() as int) =~= argument);
}

proof fn lemma_route_setcontext(argument: Seq<char>)
    ensures
        route_of("/context "@ + argument) == RouteView::SetContext(trim(argument)),
{
    let text = "/context "@ + argument;
    reveal_strlit("/context ");
    reveal_strlit("/new");
    lemma_other_start(text, "/new"@, 1);
    reveal_strlit("/status");
    lemma_other_start(text, "/status"@, 1);
    reveal_strlit("/sessions");
    lemma_other_start(text, "/sessions"@, 1);
    reveal_strlit("/resume ");
    lemma_other_start(text, "/resume "@, 1);
    reveal_strlit("/delete ");
    lemma_other_start(text, "/delete "@, 1);
    reveal_strlit("/memory");
    lemma_other_start(text, "/memory"@, 1);
    reveal_strlit("/memory edit ");
    lemma_other_start(text, "/memory edit "@, 1);
    reveal_strlit("/forget ");
    lemma_other_start(text, "/forget "@, 1);
    reveal_strlit("/workspace");
    lemma_other_start(text, "/workspace"@, 1);
    reveal_strlit("/workspace ");
    lemma_other_start(text, "/workspace "@, 1);
    reveal_strlit("/audit");
    lemma_other_start(text, "/audit"@, 1);
    reveal_strlit("/jobs");
    lemma_other_start(text, "/jobs"@, 1);
    reveal_strlit("/jobs stop ");
    lemma_other_start(text, "/jobs stop "@, 1);
    reveal_strlit("/reminders");
    lemma_other_start(text, "/reminders"@, 1);
    reveal_strlit("/reminders cancel ");
    lemma_other_start(text, "/reminders cancel "@, 1);
    reveal_strlit("/models");
    lemma_other_start(text, "/models"@, 1);
    reveal_strlit("/models refresh");
    lemma_other_start(text, "/models refresh"@, 1);
    reveal_strlit("/model");
    lemma_other_start(text, "/model"@, 1);
    reveal_strlit("/model ");
    lemma_other_start(text, "/model "@, 1);
    reveal_strlit("/providers");
    lemma_other_start(text, "/providers"@, 1);
    reveal_strlit("/provider");
    lemma_other_start(text, "/provider"@, 1);
    reveal_strlit("/provider ");
    lemma_other_start(text, "/provider "@, 1);
    reveal_strlit("/context");
    assert(text.len() > "/context"@.len());
    lemma_starts("/context "@, argument);
    assert(text.skip("/context "@.len() as int) =~= argument);
}

proof fn lemma_route_setrtk(argument: Seq<char>)
    ensures
        route_of("/rtk "@ + argument) == RouteView::SetRtk(trim(argument)),
{
    let text = "/rtk "@ + argument;
    reveal_strlit("/rtk ");
    reveal_strlit("/new");
    lemma_other_start(text, "/new"@, 1);
    reveal_strlit("/status");
    lemma_other_start(text, "/status"@, 1);
    reveal_strlit("/sessions");
    lemma_other_start(text, "/sessions"@, 1);
    reveal_strlit("/resume ");
    lemma_other_start(text, "/resume "@, 2);
    reveal_strlit("/delete ");
    lemma_other_start(text, "/delete "@, 1);
    reveal_strlit("/memory");
    lemma_other_start(text, "/memory"@, 1);
    reveal_strlit("/memory edit ");
    lemma_other_start(text, "/memory edit "@, 1);
    reveal_strlit("/forget ");
    lemma_other_start(text, "/forget "@, 1);
    reveal_strlit("/workspace");
    lemma_other_start(text, "/workspace"@, 1);
    reveal_strlit("/workspace ");
    lemma_other_start(text, "/workspace "@, 1);
    reveal_strlit("/audit");
    lemma_other_start(text, "/audit"@, 1);
    reveal_strlit("/jobs");
    lemma_other_start(text, "/jobs"@, 1);
    reveal_strlit("/jobs stop ");
    lemma_other_start(text, "/jobs stop "@, 1);
    reveal_strlit("/reminders");
    lemma_other_start(text, "/reminders"@, 2);
    reveal_strlit("/reminders cancel ");
    lemma_other_start(text, "/reminders cancel "@, 2);
    reveal_strlit("/models");
    lemma_other_start(text, "/models"@, 1);
    reveal_strlit("/models refresh");
    lemma_other_start(text, "/models refresh"@, 1);
    reveal_strlit("/model");
    lemma_other_start(text, "/model"@, 1);
    reveal_strlit("/model ");
    lemma_other_start(text, "/model "@, 1);
    reveal_strlit("/providers");
    lemma_other_start(text, "/providers"@, 1);
    reveal_strlit("/provider");
    lemma_other_start(text, "/provider"@, 1);
    reveal_strlit("/provider ");
    lemma_other_start(text, "/provider "@, 1);
    reveal_strlit("/context");
    lemma_other_start(text, "/context"@, 1);
    reveal_strlit("/context ");
    lemma_other_start(text, "/context "@, 1);
    reveal_strlit("/rtk");
    assert(text.len() > "/rtk"@.len());
    lemma_starts("/rtk "@, argument);
    assert(text.skip("/rtk "@.len() as int) =~= argument);
}

/// What does not start with a slash is said to the model.
pub proof fn law_words_are_said_to_the_model(text: Seq<char>)
    requires
        text.len() == 0 || text[0] != '/',
    ensures
        route_of(text) == RouteView::Prompt,
{
    lemma_slash("/new"@, text);
    reveal_strlit("/new");
    reveal_strlit("/status");
    reveal_strlit("/sessions");
    reveal_strlit("/resume ");
    reveal_strlit("/delete ");
    reveal_strlit("/memory");
    reveal_strlit("/memory edit ");
    reveal_strlit("/forget ");
    reveal_strlit("/workspace");
    reveal_strlit("/workspace ");
    reveal_strlit("/audit");
    reveal_strlit("/jobs");
    reveal_strlit("/jobs stop ");
    reveal_strlit("/reminders");
    reveal_strlit("/reminders cancel ");
    reveal_strlit("/models");
    reveal_strlit("/models refresh");
    reveal_strlit("/model");
    reveal_strlit("/model ");
    reveal_strlit("/providers");
    reveal_strlit("/provider");
    reveal_strlit("/provider ");
    reveal_strlit("/context");
    reveal_strlit("/context ");
    reveal_strlit("/rtk");
    reveal_strlit("/rtk ");
    reveal_strlit("/commands");
    lemma_slash("/resume "@, text);
    lemma_slash("/delete "@, text);
    lemma_slash("/memory edit "@, text);
    lemma_slash("/forget "@, text);
    lemma_slash("/workspace "@, text);
    lemma_slash("/jobs stop "@, text);
    lemma_slash("/reminders cancel "@, text);
    lemma_slash("/model "@, text);
    lemma_slash("/provider "@, text);
    lemma_slash("/context "@, text);
    lemma_slash("/rtk "@, text);
}

proof fn lemma_slash(word: Seq<char>, text: Seq<char>)
    requires
        text.len() == 0 || text[0] != '/',
    ensures
        word.len() > 0 && word[0] == '/' ==> text != word && !occurs_at(text, word, 0),
{
    if word.len() > 0 && text.len() > 0 && text[0] != word[0] {
        lemma_other_start(text, word, 0);
    }
}

/// Nobody but the owner is served.
pub proof fn law_only_the_owner_is_served(user: u64, owner: u64)
    ensures
        !is_owners(None, owner),
        is_owners(Some(user), owner) <==> user == owner,
{
}

/// An upload keeps its name behind an id of its own: uploads under different ids, or of different
/// names, are stored apart.
pub proof fn law_uploads_are_stored_apart(
    id: Seq<char>,
    name: Seq<char>,
    other: Seq<char>,
    other_name: Seq<char>,
)
    requires
        id.len() == other.len(),
        id != other || name != other_name,
    ensures
        stored_name(id, name) != stored_name(other, other_name),
        ends_in(stored_name(id, name), name),
        occurs_at(stored_name(id, name), id, 0),
        upload_name(Some(name)) == name,
{
    let a = stored_name(id, name);
    let b = stored_name(other, other_name);
    lemma_ends_in(id + "-"@, name);
    lemma_starts(id, "-"@ + name);
    assert(a =~= id + ("-"@ + name));
    if a == b {
        let at = id.len() as int;
        assert(id =~= a.take(at));
        assert(other =~= b.take(at));
        assert(name =~= a.skip(at + "-"@.len()));
        assert(other_name =~= b.skip(at + "-"@.len()));
    }
}

/// A spreadsheet is taken by the last part of its name, in capitals or not, and nothing else is.
pub proof fn law_spreadsheets_are_known_by_their_ending(stem: Seq<char>, ending: Seq<char>)
    requires
        stem.len() > 0,
        ending.len() > 0,
        !ending.contains('.'),
    ensures
        is_supported(stem + "."@ + ending) <==> (lower(ending) == "csv"@ || lower(ending)
            == "xlsx"@ || lower(ending) == "xlsm"@),
{
    reveal_strlit(".");
    reveal_strlit("..");
    let name = stem + "."@ + ending;
    let at = stem.len() as int;
    crate::prompts::lemma_last_index(name, '.', at, name.len() as int);
    assert(name.skip(at + 1) =~= ending);
    if name == ".."@ {
        assert(name[1] == '.');
        if at == 1 {
            assert(name.len() >= 3);
        }
    }
}

/// A file in the workspace is named to the model by its path from there, part by part; another file
/// by its whole path. (Names are taken to hold no backslash.)
pub proof fn law_uploads_are_named_from_the_workspace(
    workspace: Seq<Seq<char>>,
    below: Seq<Seq<char>>,
    components: Seq<Seq<char>>,
    shown: Seq<char>,
)
    ensures
        !contains(join(below, "/"@), "\\"@) ==> relative_path(workspace, workspace + below, shown)
            == join(below, "/"@) && in_turn(
            relative_path(workspace, workspace + below, shown),
            below,
        ),
        !lies_in(components, workspace) && !contains(shown, "\\"@) ==> relative_path(
            workspace,
            components,
            shown,
        ) == shown,
{
    reveal_strlit("\\");
    let all = workspace + below;
    assert(all.take(workspace.len() as int) =~= workspace);
    assert(all.skip(workspace.len() as int) =~= below);
    if !contains(join(below, "/"@), "\\"@) {
        law_replacing_spares_the_rest(join(below, "/"@), "\\"@, "/"@);
        lemma_join_in_turn(below, "/"@);
    }
    if !contains(shown, "\\"@) {
        law_replacing_spares_the_rest(shown, "\\"@, "/"@);
    }
}

/// The model is told of an upload where it lies, seen from the workspace and as a whole, and what the
/// owner wants with it.
pub proof fn law_uploads_are_told_with_the_wish(
    workspace: Seq<Seq<char>>,
    components: Seq<Seq<char>>,
    path: Seq<char>,
    instruction: Seq<char>,
)
    ensures
        in_turn(
            upload_text(workspace, components, path, instruction),
            seq![relative_path(workspace, components, path), path, instruction],
        ),
        ends_in(upload_text(workspace, components, path, instruction), instruction),
        instruction.len() > 0 ==> wish(instruction) == instruction,
        wish(seq![]).len() > 0,
{
    let empty: Seq<char> = seq![];
    let front = "The user uploaded a data file at `"@;
    let middle = "` (relative to the workspace — use this path with read_file). Its absolute path, for tools that run outside the workspace, is `"@;
    let relative = relative_path(workspace, components, path);
    let all = upload_text(workspace, components, path, instruction);
    lemma_three(front, relative, middle, path, "`. "@, instruction, empty);
    assert(all =~= front + relative + middle + path + "`. "@ + instruction + empty);
    lemma_ends_in(front + relative + middle + path + "`. "@, instruction);
    reveal_strlit(
        "Inspect its columns and ask what analysis or chart they want if the request is unclear.",
    );
}

/// A tool is shown by its own name, without the server it comes from and with blanks between its
/// words.
pub proof fn law_tools_are_shown_by_their_own_name(server: Seq<char>, tool: Seq<char>)
    requires
        !contains(tool, "__"@),
        tool.len() == 0 || tool[0] != '_',
    ensures
        shown_name(server + "__"@ + tool) == shown_name(tool),
        shown_name(tool) == replace_all(tool, "_"@, " "@),
{
    reveal_strlit("__");
    let name = server + "__"@ + tool;
    let at = server.len() + 2int;
    assert("__"@ =~= seq!['_', '_']);
    assert(name.skip(at) =~= tool);
    assert(name.subrange(at - 2, at) =~= "__"@);
    lemma_after_last(name, '_', name.len() as int, at);
    lemma_after_none(tool, "__"@, tool.len() as int);
}

/// What stands behind the last copy of a doubled character.
pub proof fn lemma_after_last(s: Seq<char>, c: char, to: int, at: int)
    requires
        2 <= at <= to <= s.len(),
        occurs_at(s, seq![c, c], at - 2),
        !contains(s.skip(at), seq![c, c]),
        at == s.len() || s[at] != c,
    ensures
        after_last(s, seq![c, c], to) == s.skip(at),
    decreases to,
{
    let part = seq![c, c];
    if to > at {
        let k = to - part.len();
        if occurs_at(s, part, k) {
            assert(s.subrange(k, k + 2)[0] == s[k]);
            assert(s.subrange(k, k + 2)[1] == s[k + 1]);
            if k >= at {
                assert(s.skip(at).subrange(k - at, k - at + 2) =~= s.subrange(k, k + 2));
                assert(occurs_at(s.skip(at), part, k - at));
            }
        }
        lemma_after_last(s, c, to - 1, at);
    }
}

proof fn lemma_after_none(s: Seq<char>, part: Seq<char>, to: int)
    requires
        !contains(s, part),
        part.len() > 0,
        0 <= to <= s.len(),
    ensures
        after_last(s, part, to) == s,
    decreases to,
{
    if to >= part.len() {
        assert(!occurs_at(s, part, to - part.len()));
        if to > 0 {
            lemma_after_none(s, part, to - 1);
        }
    }
}

/// The owner sees which tool runs, whether it went well, and how long it took.
pub proof fn law_progress_names_the_tool(name: Seq<char>, elapsed: Seq<char>, failed: bool)
    ensures
        contains(started_text(name), shown_name(name)),
        in_turn(finished_text(name, failed, elapsed), seq![shown_name(name), elapsed]),
        finished_text(name, true, elapsed) != finished_text(name, false, elapsed),
{
    lemma_one("🛠️ Sedang menjalankan "@, shown_name(name), "..."@);
    lemma_in_turn_contains(started_text(name), seq![shown_name(name)], 0);
    let mark = if failed {
        "❌ "@
    } else {
        "✅ "@
    };
    let verb = if failed {
        " gagal dalam "@
    } else {
        " selesai dalam "@
    };
    lemma_two(mark, shown_name(name), verb, elapsed, " detik."@);
    reveal_strlit("❌ ");
    reveal_strlit("✅ ");
    assert(finished_text(name, true, elapsed)[0] == '❌');
    assert(finished_text(name, false, elapsed)[0] == '✅');
}

/// A photo reaches the model with its caption and with all its bytes.
pub proof fn law_photos_keep_their_caption_and_bytes(caption: Seq<char>, data: Seq<char>)
    ensures
        photo_view(caption, data).role == Role::User,
        photo_view(caption, data).content == caption,
        photo_view(caption, data).images.len() == 1,
        photo_view(caption, data).images[0].data == data,
        photo_view(caption, data).images[0].media_type == "image/jpeg"@,
        photo_view(caption, data).tool_calls.len() == 0,
        photo_view(caption, data).tool_call_id is None,
{
}

/// Progress is shown for the tools that take their time: those of servers, commands and the coding
/// agent.
pub proof fn law_slow_tools_show_progress(server: Seq<char>, tool: Seq<char>, name: Seq<char>)
    ensures
        shows_progress(server + "__"@ + tool),
        shows_progress("run_command"@),
        shows_progress("delegate_to_kamui"@),
        shows_progress(name) && name != "run_command"@ && name != "delegate_to_kamui"@ ==> contains(
            name,
            "__"@,
        ),
{
    lemma_one(server, "__"@, tool);
    lemma_in_turn_contains(server + "__"@ + tool, seq!["__"@], 0);
}

/// Photos are taken up to 5 MiB and documents up to 20 MiB, and what is larger is refused with its
/// size.
pub proof fn law_uploads_are_taken_up_to_their_limit(size: u64)
    ensures
        photo_refusal(size) is None <==> size <= 5 * 1024 * 1024,
        document_refusal(size) is None <==> size <= 20 * 1024 * 1024,
        photo_refusal(size) matches Some(reason) ==> contains(reason, decimal(size as nat)),
        document_refusal(size) matches Some(reason) ==> contains(reason, decimal(size as nat)),
{
    let number = decimal(size as nat);
    let photo = " bytes); the limit is 5242880 bytes."@;
    let document = " bytes); the limit is 20971520 bytes."@;
    lemma_one("That photo is too large ("@, number, photo);
    lemma_one("That document is too large ("@, number, document);
    lemma_in_turn_contains("That photo is too large ("@ + number + photo, seq![number], 0);
    lemma_in_turn_contains("That document is too large ("@ + number + document, seq![number], 0);
}

} // verus!
