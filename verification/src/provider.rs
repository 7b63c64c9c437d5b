//! Messages, tool calls and model listings, independent of how a provider spells them, and the
//! OpenAI-compatible wire form of a request and its reply.
use vstd::prelude::*;
use vstd::string::*;

use crate::json::{
    json_text, lemma_field_with, lemma_no_field, lemma_three_fields, lemma_two_fields, print, Json,
    JsonView,
};
use crate::table::Table;
use crate::text::{
    before, byte_len, clamped, clone_text, ends_in, first_chars, in_turn, lemma_ends_in,
    lemma_starts, lemma_two, lemma_utf8_len_add, occurs_at, opt_view, same, seq_view, take_chars,
    trim, trim_end_char, trimmed, trimmed_end_char, utf8_len,
};

verus! {

#[derive(Clone, Copy, Debug, PartialEq, Eq, Structural)]
pub enum Role {
    System,
    User,
    Assistant,
    Tool,
}

/// An image attached to a user message, carried as base64 so it stays provider-independent until
/// the wire layer encodes it as a data URL.
#[derive(Debug)]
pub struct ImageAttachment {
    /// MIME type, e.g. `image/jpeg`.
    pub media_type: String,
    pub data: String,
}

#[derive(Debug)]
pub struct ToolCall {
    pub id: String,
    pub name: String,
    pub arguments: String,
}

#[derive(Debug)]
pub struct Message {
    pub role: Role,
    pub content: String,
    pub images: Vec<ImageAttachment>,
    pub tool_calls: Vec<ToolCall>,
    pub tool_call_id: Option<String>,
}

#[verifier::ext_equal]
pub struct ImageView {
    pub media_type: Seq<char>,
    pub data: Seq<char>,
}

#[verifier::ext_equal]
pub struct CallView {
    pub id: Seq<char>,
    pub name: Seq<char>,
    pub arguments: Seq<char>,
}

#[verifier::ext_equal]
pub struct MessageView {
    pub role: Role,
    pub content: Seq<char>,
    pub images: Seq<ImageView>,
    pub tool_calls: Seq<CallView>,
    pub tool_call_id: Option<Seq<char>>,
}

impl View for ImageAttachment {
    type V = ImageView;

    open spec fn view(&self) -> ImageView {
        ImageView { media_type: self.media_type@, data: self.data@ }
    }
}

impl View for ToolCall {
    type V = CallView;

    open spec fn view(&self) -> CallView {
        CallView { id: self.id@, name: self.name@, arguments: self.arguments@ }
    }
}

impl View for Message {
    type V = MessageView;

    open spec fn view(&self) -> MessageView {
        MessageView {
            role: self.role,
            content: self.content@,
            images: seq_view(self.images@),
            tool_calls: seq_view(self.tool_calls@),
            tool_call_id: opt_view(self.tool_call_id),
        }
    }
}

/// A message of text alone.
pub open spec fn text_message(role: Role, content: Seq<char>) -> MessageView {
    MessageView { role, content, images: seq![], tool_calls: seq![], tool_call_id: None }
}

pub open spec fn tool_request_message(content: Seq<char>, calls: Seq<CallView>) -> MessageView {
    MessageView {
        role: Role::Assistant,
        content,
        images: seq![],
        tool_calls: calls,
        tool_call_id: None,
    }
}

pub open spec fn tool_result_message(call: Seq<char>, content: Seq<char>) -> MessageView {
    MessageView {
        role: Role::Tool,
        content,
        images: seq![],
        tool_calls: seq![],
        tool_call_id: Some(call),
    }
}

impl Clone for ImageAttachment {
    fn clone(&self) -> (r: Self)
        ensures
            r@ == self@,
    {
        ImageAttachment { media_type: self.media_type.clone(), data: self.data.clone() }
    }
}

impl Clone for ToolCall {
    fn clone(&self) -> (r: Self)
        ensures
            r@ == self@,
    {
        ToolCall {
            id: self.id.clone(),
            name: self.name.clone(),
            arguments: self.arguments.clone(),
        }
    }
}

pub fn clone_calls(calls: &Vec<ToolCall>) -> (r: Vec<ToolCall>)
    ensures
        seq_view(r@) == seq_view(calls@),
{
    let mut r: Vec<ToolCall> = Vec::new();
    let mut i: usize = 0;
    while i < calls.len()
        invariant
            i <= calls@.len(),
            r@.len() == i,
            forall|k: int| 0 <= k < i ==> (#[trigger] r@[k])@ == calls@[k]@,
        decreases calls@.len() - i,
    {
        r.push(calls[i].clone());
        i = i + 1;
    }
    assert(seq_view(r@) =~= seq_view(calls@));
    r
}

fn clone_images(images: &Vec<ImageAttachment>) -> (r: Vec<ImageAttachment>)
    ensures
        seq_view(r@) == seq_view(images@),
{
    let mut r: Vec<ImageAttachment> = Vec::new();
    let mut i: usize = 0;
    while i < images.len()
        invariant
            i <= images@.len(),
            r@.len() == i,
            forall|k: int| 0 <= k < i ==> (#[trigger] r@[k])@ == images@[k]@,
        decreases images@.len() - i,
    {
        r.push(images[i].clone());
        i = i + 1;
    }
    assert(seq_view(r@) =~= seq_view(images@));
    r
}

impl Clone for Message {
    fn clone(&self) -> (r: Self)
        ensures
            r@ == self@,
    {
        Message {
            role: self.role,
            content: self.content.clone(),
            images: clone_images(&self.images),
            tool_calls: clone_calls(&self.tool_calls),
            tool_call_id: clone_text(&self.tool_call_id),
        }
    }
}

/// The name that a role is stored and sent under.
pub open spec fn role_text(role: Role) -> Seq<char> {
    match role {
        Role::System => "system"@,
        Role::User => "user"@,
        Role::Assistant => "assistant"@,
        Role::Tool => "tool"@,
    }
}

/// The role that is stored under a name.
pub open spec fn role_of(name: Seq<char>) -> Option<Role> {
    if name == "system"@ {
        Some(Role::System)
    } else if name == "user"@ {
        Some(Role::User)
    } else if name == "assistant"@ {
        Some(Role::Assistant)
    } else if name == "tool"@ {
        Some(Role::Tool)
    } else {
        None
    }
}

/// A role is read back from the name it is stored under.
pub proof fn law_role_names_round_trip(role: Role)
    ensures
        role_of(role_text(role)) == Some(role),
{
    reveal_strlit("system");
    reveal_strlit("user");
    reveal_strlit("assistant");
    reveal_strlit("tool");
    assert("system"@.len() == 6 && "user"@.len() == 4 && "assistant"@.len() == 9 && "tool"@.len()
        == 4);
    assert("user"@[0] == 'u' && "tool"@[0] == 't');
}

impl Message {
    fn of_text(role: Role, content: &str) -> (r: Self)
        ensures
            r@ == text_message(role, content@),
    {
        let r = Message {
            role,
            content: content.to_owned(),
            images: Vec::new(),
            tool_calls: Vec::new(),
            tool_call_id: None,
        };
        assert(r@ =~= text_message(role, content@));
        r
    }

    pub fn system(content: &str) -> (r: Self)
        ensures
            r@ == text_message(Role::System, content@),
    {
        Self::of_text(Role::System, content)
    }

    pub fn user(content: &str) -> (r: Self)
        ensures
            r@ == text_message(Role::User, content@),
    {
        Self::of_text(Role::User, content)
    }

    /// A user message with one or more images attached (e.g. a Telegram photo). `content` may be
    /// empty when the user sent an image with no caption.
    pub fn user_with_images(content: &str, images: Vec<ImageAttachment>) -> (r: Self)
        ensures
            r@ == (MessageView {
                images: seq_view(images@),
                ..text_message(Role::User, content@)
            }),
    {
        let r = Message {
            role: Role::User,
            content: content.to_owned(),
            images,
            tool_calls: Vec::new(),
            tool_call_id: None,
        };
        assert(r@.tool_calls =~= seq![]);
        r
    }

    pub fn assistant(content: &str) -> (r: Self)
        ensures
            r@ == text_message(Role::Assistant, content@),
    {
        Self::of_text(Role::Assistant, content)
    }

    pub fn tool_request(content: &str, tool_calls: Vec<ToolCall>) -> (r: Self)
        ensures
            r@ == tool_request_message(content@, seq_view(tool_calls@)),
    {
        let r = Message {
            role: Role::Assistant,
            content: content.to_owned(),
            images: Vec::new(),
            tool_calls,
            tool_call_id: None,
        };
        assert(r@.images =~= seq![]);
        r
    }

    pub fn tool_result(tool_call_id: &str, content: &str) -> (r: Self)
        ensures
            r@ == tool_result_message(tool_call_id@, content@),
    {
        let r = Message {
            role: Role::Tool,
            content: content.to_owned(),
            images: Vec::new(),
            tool_calls: Vec::new(),
            tool_call_id: Some(tool_call_id.to_owned()),
        };
        assert(r@ =~= tool_result_message(tool_call_id@, content@));
        r
    }

    pub fn role_name(&self) -> (r: &'static str)
        ensures
            r@ == role_text(self.role),
    {
        match self.role {
            Role::System => "system",
            Role::User => "user",
            Role::Assistant => "assistant",
            Role::Tool => "tool",
        }
    }

    /// A message as it was stored. Images are per-request only, never persisted, so a message
    /// loaded back from storage never carries any.
    pub fn from_stored(
        role: &str,
        content: String,
        tool_calls: Vec<ToolCall>,
        tool_call_id: Option<String>,
    ) -> (r: Result<Self, String>)
        ensures
            match r {
                Ok(message) => role_of(role@) is Some && message@ == (MessageView {
                    role: role_of(role@)->0,
                    content: content@,
                    images: seq![],
                    tool_calls: seq_view(tool_calls@),
                    tool_call_id: opt_view(tool_call_id),
                }),
                Err(message) => role_of(role@) is None && message@
                    == "unknown stored message role: "@ + role@,
            },
    {
        let role = if same(role, "system") {
            Role::System
        } else if same(role, "user") {
            Role::User
        } else if same(role, "assistant") {
            Role::Assistant
        } else if same(role, "tool") {
            Role::Tool
        } else {
            let mut message = "unknown stored message role: ".to_owned();
            message.push_str(role);
            return Err(message);
        };
        let r = Message { role, content, images: Vec::new(), tool_calls, tool_call_id };
        assert(r@.images =~= seq![]);
        Ok(r)
    }
}

#[derive(Debug)]
pub struct ToolDefinition {
    pub name: String,
    pub description: String,
    pub parameters: Json,
}

#[verifier::ext_equal]
pub struct DefinitionView {
    pub name: Seq<char>,
    pub description: Seq<char>,
    pub parameters: JsonView,
}

impl View for ToolDefinition {
    type V = DefinitionView;

    open spec fn view(&self) -> DefinitionView {
        DefinitionView {
            name: self.name@,
            description: self.description@,
            parameters: self.parameters@,
        }
    }
}

/// What a definition costs in a request.
pub open spec fn definition_bytes(definition: DefinitionView) -> nat {
    utf8_len(definition.name) + utf8_len(definition.description) + utf8_len(
        json_text(definition.parameters),
    )
}

impl ToolDefinition {
    /// What this definition costs in a request, for compaction's accounting. The JSON scaffolding
    /// the wire layer wraps it in is a few dozen fixed bytes per tool, small enough against a
    /// schema to leave out of the estimate.
    pub fn payload_bytes(&self) -> (n: usize)
        ensures
            n == clamped(definition_bytes(self@)),
    {
        byte_len(self.name.as_str()).saturating_add(
            byte_len(self.description.as_str()),
        ).saturating_add(byte_len(print(&self.parameters).as_str()))
    }
}

impl Clone for ToolDefinition {
    fn clone(&self) -> (r: Self)
        ensures
            r@ == self@,
    {
        ToolDefinition {
            name: self.name.clone(),
            description: self.description.clone(),
            parameters: self.parameters.duplicate(),
        }
    }
}

#[derive(Clone, Copy, Debug, PartialEq, Eq, Structural)]
pub struct Usage {
    pub prompt_tokens: u64,
    pub completion_tokens: u64,
    pub total_tokens: u64,
}

impl Default for Usage {
    fn default() -> (r: Self)
        ensures
            r == (Usage { prompt_tokens: 0, completion_tokens: 0, total_tokens: 0 }),
    {
        Usage { prompt_tokens: 0, completion_tokens: 0, total_tokens: 0 }
    }
}

#[derive(Debug)]
pub struct ChatResponse {
    pub content: String,
    pub tool_calls: Vec<ToolCall>,
    pub usage: Usage,
    pub finish_reason: String,
}

/// One of the alternatives that a provider replies with.
#[derive(Debug)]
pub struct Choice {
    pub content: Option<String>,
    pub tool_calls: Vec<ToolCall>,
    pub finish_reason: String,
}

/// Whether a provider's choices, and what they cost, amount to this reply.
pub open spec fn amounts_to(choices: Seq<Choice>, usage: Usage, response: ChatResponse) -> bool {
    &&& choices.len() > 0
    &&& response.content@ == (match choices.last().content {
        Some(content) => content@,
        None => seq![],
    })
    &&& response.tool_calls == choices.last().tool_calls
    &&& response.finish_reason == choices.last().finish_reason
    &&& response.usage == usage
}

/// The reply that a provider's choices amount to: the last one, an absent text read as empty.
pub fn chat_response(choices: Vec<Choice>, usage: Usage) -> (r: Result<ChatResponse, String>)
    ensures
        match r {
            Ok(response) => amounts_to(choices@, usage, response),
            Err(message) => choices@.len() == 0 && message@ == "provider returned no choices"@,
        },
{
    let mut choices = choices;
    match choices.pop() {
        Some(choice) => Ok(
            ChatResponse {
                content: match choice.content {
                    Some(content) => content,
                    None => String::new(),
                },
                tool_calls: choice.tool_calls,
                usage,
                finish_reason: choice.finish_reason,
            },
        ),
        None => Err("provider returned no choices".to_owned()),
    }
}

/// The summary that a provider's reply carries; a blank one is an error.
pub fn summary_text(content: String) -> (r: Result<String, String>)
    ensures
        match r {
            Ok(summary) => trim(content@).len() > 0 && summary@ == content@,
            Err(message) => trim(content@).len() == 0 && message@
                == "provider returned an empty summary"@,
        },
{
    if trimmed(content.as_str()).as_str().is_empty() {
        Err("provider returned an empty summary".to_owned())
    } else {
        Ok(content)
    }
}

/// One entry of a provider's model listing.
#[derive(Debug, PartialEq, Eq)]
pub struct ModelInfo {
    pub id: String,
    /// The model's context window in tokens, when the provider reports one.
    pub context_window: Option<u64>,
}

/// A model as a provider lists it. Groq reports a model's window under `context_window`,
/// OpenRouter under `context_length`, and the OpenAI API itself reports neither.
#[derive(Debug)]
pub struct ListedModel {
    pub id: String,
    pub context_window: Option<u64>,
    pub context_length: Option<u64>,
}

/// The window a provider reports for a model, under either spelling.
pub open spec fn listed_window(model: ListedModel) -> Option<u64> {
    match model.context_window {
        Some(window) => Some(window),
        None => model.context_length,
    }
}

/// Whether `data[i]` is the first entry that lists its model.
pub open spec fn first_listed(data: Seq<ListedModel>, i: int) -> bool {
    0 <= i < data.len() && forall|k: int| 0 <= k < i ==> (#[trigger] data[k]).id@ != data[i].id@
}

/// Whether a model is one of `data`, with what the first entry for it reports.
pub open spec fn is_reported(model: ModelInfo, data: Seq<ListedModel>) -> bool {
    exists|k: int| #[trigger]
        first_listed(data, k) && data[k].id@ == model.id@ && listed_window(data[k])
            == model.context_window
}

/// Whether a model of the given id is among `models`.
pub open spec fn is_listed(models: Seq<ModelInfo>, id: Seq<char>) -> bool {
    exists|i: int| 0 <= i < models.len() && (#[trigger] models[i]).id@ == id
}

/// Whether `models` lists every model of `data` once, in the order of the ids, with what the first
/// entry for it reports.
pub open spec fn is_listing_of(models: Seq<ModelInfo>, data: Seq<ListedModel>) -> bool {
    &&& forall|i: int, j: int|
        0 <= i < j < models.len() ==> before(
            (#[trigger] models[i]).id@,
            (#[trigger] models[j]).id@,
        )
    &&& forall|i: int| 0 <= i < models.len() ==> is_reported(#[trigger] models[i], data)
    &&& forall|k: int| 0 <= k < data.len() ==> is_listed(models, (#[trigger] data[k]).id@)
}

/// A provider's model listing, ordered by id and without duplicates.
pub fn model_listing(data: Vec<ListedModel>) -> (models: Vec<ModelInfo>)
    ensures
        is_listing_of(models@, data@),
{
    let mut table: Table<Option<u64>> = Table::new();
    let mut i: usize = 0;
    while i < data.len()
        invariant
            i <= data@.len(),
            table.wf(),
            forall|name: Seq<char>| #[trigger]
                table@.contains_key(name) ==> exists|k: int|
                    k < i && #[trigger] first_listed(data@, k) && data@[k].id@ == name
                        && listed_window(data@[k]) == table@[name],
            forall|k: int| 0 <= k < i ==> table@.contains_key((#[trigger] data@[k]).id@),
        decreases data@.len() - i,
    {
        let ghost before_step = table@;
        if !table.contains(data[i].id.as_str()) {
            let window: Option<u64> = match data[i].context_window {
                Some(window) => Some(window),
                None => data[i].context_length,
            };
            assert(first_listed(data@, i as int));
            table.insert(data[i].id.clone(), window);
            assert forall|name: Seq<char>| #[trigger] table@.contains_key(name) implies exists|k: int|
                k < i + 1 && #[trigger] first_listed(data@, k) && data@[k].id@ == name
                    && listed_window(data@[k]) == table@[name] by {
                if name == data@[i as int].id@ {
                    assert(first_listed(data@, i as int));
                } else {
                    assert(before_step.contains_key(name));
                }
            }
        }
        i = i + 1;
    }
    let mut models: Vec<ModelInfo> = Vec::new();
    let mut j: usize = 0;
    proof {
        table.lemma_names();
    }
    while j < table.len()
        invariant
            j <= table.names().len(),
            table.wf(),
            models@.len() == j,
            forall|k: int|
                0 <= k < j ==> (#[trigger] models@[k]).id@ == table.names()[k]
                    && models@[k].context_window == table@[table.names()[k]],
        decreases table.names().len() - j,
    {
        let window: Option<u64> = *table.value_at(j);
        models.push(ModelInfo { id: table.name_at(j).clone(), context_window: window });
        j = j + 1;
    }
    proof {
        assert forall|i: int, j: int| 0 <= i < j < models@.len() implies before(
            (#[trigger] models@[i]).id@,
            (#[trigger] models@[j]).id@,
        ) by {
            assert(before(table.names()[i], table.names()[j]));
        }
        assert forall|i: int| 0 <= i < models@.len() implies is_reported(
            #[trigger] models@[i],
            data@,
        ) by {
            let name = table.names()[i];
            assert(table@.contains_key(name));
            let k = choose|k: int|
                k < data@.len() && #[trigger] first_listed(data@, k) && data@[k].id@ == name
                    && listed_window(data@[k]) == table@[name];
            assert(first_listed(data@, k));
        }
        assert forall|k: int| 0 <= k < data@.len() implies is_listed(
            models@,
            (#[trigger] data@[k]).id@,
        ) by {
            assert(table@.contains_key(data@[k].id@));
            let i = choose|i: int|
                0 <= i < table.names().len() && table.names()[i] == data@[k].id@;
            assert(models@[i].id@ == data@[k].id@);
        }
    }
    models
}

/// The models that a provider offers; an empty listing is an error.
pub fn offered_models(data: Vec<ListedModel>) -> (r: Result<Vec<ModelInfo>, String>)
    ensures
        match r {
            Ok(models) => data@.len() > 0 && is_listing_of(models@, data@),
            Err(message) => data@.len() == 0 && message@ == "provider returned no models"@,
        },
{
    let models = model_listing(data);
    proof {
        if models@.len() == 0 && data@.len() > 0 {
            assert(is_listed(models@, data@[0].id@));
        }
        if models@.len() > 0 {
            assert(is_reported(models@[0], data@));
        }
    }
    if models.len() == 0 {
        Err("provider returned no models".to_owned())
    } else {
        Ok(models)
    }
}

/// The address of one of a provider's endpoints.
pub open spec fn endpoint_of(base: Seq<char>, path: Seq<char>) -> Seq<char> {
    trim_end_char(base, '/') + "/"@ + path
}

/// The address of one of a provider's endpoints.
pub fn endpoint(base_url: &str, path: &str) -> (r: String)
    ensures
        r@ == endpoint_of(base_url@, path@),
{
    let mut r = trimmed_end_char(base_url, '/');
    r.push_str("/");
    r.push_str(path);
    r
}

/// What a provider's error reply says: the message it reports, or else the start of the reply.
pub open spec fn error_text(body: Seq<char>, reported: Option<Seq<char>>) -> Seq<char> {
    match reported {
        Some(message) if trim(message).len() > 0 => message,
        _ => first_chars(body, 300),
    }
}

/// What to tell of an error reply whose body is `body`, `reported` being the message that the body
/// holds in the provider's error format, if it is in that format.
pub fn describe_error(body: &str, reported: Option<String>) -> (r: String)
    ensures
        r@ == error_text(body@, opt_view(reported)),
{
    if let Some(message) = reported {
        if !trimmed(message.as_str()).as_str().is_empty() {
            return message;
        }
    }
    take_chars(body, 300)
}

/// An image as a data URL.
pub open spec fn data_url(image: ImageView) -> Seq<char> {
    "data:"@ + image.media_type + ";base64,"@ + image.data
}

pub open spec fn text_part(content: Seq<char>) -> JsonView {
    JsonView::object().with("type"@, JsonView::Text("text"@)).with(
        "text"@,
        JsonView::Text(content),
    )
}

pub open spec fn image_part(image: ImageView) -> JsonView {
    JsonView::object().with("type"@, JsonView::Text("image_url"@)).with(
        "image_url"@,
        JsonView::object().with("url"@, JsonView::Text(data_url(image))),
    )
}

pub open spec fn with_image_parts(parts: JsonView, images: Seq<ImageView>) -> JsonView
    decreases images.len(),
{
    if images.len() == 0 {
        parts
    } else {
        with_image_parts(parts, images.drop_last()).item(image_part(images.last()))
    }
}

/// The content of a message on the wire: a plain string unless images are attached, in which case
/// it is an array of typed parts; nothing at all where there are only tool calls.
pub open spec fn wire_content(message: MessageView) -> Option<JsonView> {
    if message.images.len() > 0 {
        let text_parts = if message.content.len() > 0 {
            JsonView::array().item(text_part(message.content))
        } else {
            JsonView::array()
        };
        Some(with_image_parts(text_parts, message.images))
    } else if message.content.len() == 0 && message.tool_calls.len() > 0 {
        None
    } else {
        Some(JsonView::Text(message.content))
    }
}

pub open spec fn wire_call(call: CallView) -> JsonView {
    JsonView::object().with("id"@, JsonView::Text(call.id)).with(
        "type"@,
        JsonView::Text("function"@),
    ).with(
        "function"@,
        JsonView::object().with("name"@, JsonView::Text(call.name)).with(
            "arguments"@,
            JsonView::Text(call.arguments),
        ),
    )
}

pub open spec fn wire_calls(calls: Seq<CallView>) -> JsonView
    decreases calls.len(),
{
    if calls.len() == 0 {
        JsonView::array()
    } else {
        wire_calls(calls.drop_last()).item(wire_call(calls.last()))
    }
}

/// A message on the wire.
pub open spec fn wire_message(message: MessageView) -> JsonView {
    let role = JsonView::object().with("role"@, JsonView::Text(role_text(message.role)));
    let content = match wire_content(message) {
        Some(content) => role.with("content"@, content),
        None => role,
    };
    let calls = if message.tool_calls.len() > 0 {
        content.with("tool_calls"@, wire_calls(message.tool_calls))
    } else {
        content
    };
    match message.tool_call_id {
        Some(id) => calls.with("tool_call_id"@, JsonView::Text(id)),
        None => calls,
    }
}

pub open spec fn wire_tool(tool: DefinitionView) -> JsonView {
    JsonView::object().with("type"@, JsonView::Text("function"@)).with(
        "function"@,
        JsonView::object().with("name"@, JsonView::Text(tool.name)).with(
            "description"@,
            JsonView::Text(tool.description),
        ).with("parameters"@, tool.parameters),
    )
}

pub open spec fn wire_messages(messages: Seq<MessageView>) -> JsonView
    decreases messages.len(),
{
    if messages.len() == 0 {
        JsonView::array()
    } else {
        wire_messages(messages.drop_last()).item(wire_message(messages.last()))
    }
}

pub open spec fn wire_tools(tools: Seq<DefinitionView>) -> JsonView
    decreases tools.len(),
{
    if tools.len() == 0 {
        JsonView::array()
    } else {
        wire_tools(tools.drop_last()).item(wire_tool(tools.last()))
    }
}

fn image_json(image: &ImageAttachment) -> (r: Json)
    ensures
        r@ == image_part(image@),
{
    let mut url = "data:".to_owned();
    url.push_str(image.media_type.as_str());
    url.push_str(";base64,");
    url.push_str(image.data.as_str());
    Json::object().with("type", Json::text("image_url")).with(
        "image_url",
        Json::object().with("url", Json::Text(url)),
    )
}

fn call_json(call: &ToolCall) -> (r: Json)
    ensures
        r@ == wire_call(call@),
{
    Json::object().with("id", Json::text(call.id.as_str())).with(
        "type",
        Json::text("function"),
    ).with(
        "function",
        Json::object().with("name", Json::text(call.name.as_str())).with(
            "arguments",
            Json::text(call.arguments.as_str()),
        ),
    )
}

fn content_json(message: &Message) -> (r: Option<Json>)
    ensures
        opt_view(r) == wire_content(message@),
{
    if message.images.len() > 0 {
        let mut parts = if message.content.as_str().is_empty() {
            Json::array()
        } else {
            Json::array().item(
                Json::object().with("type", Json::text("text")).with(
                    "text",
                    Json::text(message.content.as_str()),
                ),
            )
        };
        let ghost start = parts@;
        let ghost images = message@.images;
        let mut i: usize = 0;
        assert(images.take(0) =~= seq![]);
        while i < message.images.len()
            invariant
                i <= message.images@.len(),
                images == seq_view(message.images@),
                parts@ == with_image_parts(start, images.take(i as int)),
            decreases message.images@.len() - i,
        {
            parts = parts.item(image_json(&message.images[i]));
            i = i + 1;
            assert(images.take(i as int).drop_last() =~= images.take(i - 1));
        }
        assert(images.take(i as int) =~= images);
        Some(parts)
    } else if message.content.as_str().is_empty() && message.tool_calls.len() > 0 {
        None
    } else {
        Some(Json::text(message.content.as_str()))
    }
}

/// A message as the provider's API takes it.
pub fn message_json(message: &Message) -> (r: Json)
    ensures
        r@ == wire_message(message@),
{
    let mut r = Json::object().with("role", Json::text(message.role_name()));
    if let Some(content) = content_json(message) {
        r = r.with("content", content);
    }
    if message.tool_calls.len() > 0 {
        let ghost calls = message@.tool_calls;
        let mut list = Json::array();
        let mut i: usize = 0;
        assert(calls.take(0) =~= seq![]);
        while i < message.tool_calls.len()
            invariant
                i <= message.tool_calls@.len(),
                calls == seq_view(message.tool_calls@),
                list@ == wire_calls(calls.take(i as int)),
            decreases message.tool_calls@.len() - i,
        {
            list = list.item(call_json(&message.tool_calls[i]));
            i = i + 1;
            assert(calls.take(i as int).drop_last() =~= calls.take(i - 1));
        }
        assert(calls.take(i as int) =~= calls);
        r = r.with("tool_calls", list);
    }
    if let Some(id) = &message.tool_call_id {
        r = r.with("tool_call_id", Json::text(id.as_str()));
    }
    r
}

/// A request to a model.
pub open spec fn request_of(
    model: Seq<char>,
    messages: Seq<MessageView>,
    tools: Seq<DefinitionView>,
) -> JsonView {
    JsonView::object().with("model"@, JsonView::Text(model)).with(
        "messages"@,
        wire_messages(messages),
    ).with("tools"@, wire_tools(tools))
}

/// The body of a chat request.
pub fn request_json(model: &str, messages: &Vec<Message>, tools: &Vec<ToolDefinition>) -> (r: Json)
    ensures
        r@ == request_of(model@, seq_view(messages@), seq_view(tools@)),
{
    let ghost all = seq_view(messages@);
    let mut message_list = Json::array();
    let mut i: usize = 0;
    assert(all.take(0) =~= seq![]);
    while i < messages.len()
        invariant
            i <= messages@.len(),
            all == seq_view(messages@),
            message_list@ == wire_messages(all.take(i as int)),
        decreases messages@.len() - i,
    {
        message_list = message_list.item(message_json(&messages[i]));
        i = i + 1;
        assert(all.take(i as int).drop_last() =~= all.take(i - 1));
    }
    assert(all.take(i as int) =~= all);
    let ghost offered = seq_view(tools@);
    let mut tool_list = Json::array();
    let mut j: usize = 0;
    assert(offered.take(0) =~= seq![]);
    while j < tools.len()
        invariant
            j <= tools@.len(),
            offered == seq_view(tools@),
            tool_list@ == wire_tools(offered.take(j as int)),
        decreases tools@.len() - j,
    {
        let tool = Json::object().with("type", Json::text("function")).with(
            "function",
            Json::object().with("name", Json::text(tools[j].name.as_str())).with(
                "description",
                Json::text(tools[j].description.as_str()),
            ).with("parameters", tools[j].parameters.duplicate()),
        );
        tool_list = tool_list.item(tool);
        j = j + 1;
        assert(offered.take(j as int).drop_last() =~= offered.take(j - 1));
    }
    assert(offered.take(j as int) =~= offered);
    Json::object().with("model", Json::text(model)).with("messages", message_list).with(
        "tools",
        tool_list,
    )
}

/// A message holds what it is made of, and nothing else.
pub proof fn law_messages_hold_what_they_are_given(
    role: Role,
    content: Seq<char>,
    calls: Seq<CallView>,
    id: Seq<char>,
)
    ensures
        text_message(role, content).role == role,
        text_message(role, content).content == content,
        text_message(role, content).images.len() == 0,
        text_message(role, content).tool_calls.len() == 0,
        text_message(role, content).tool_call_id is None,
        tool_request_message(content, calls).role == Role::Assistant,
        tool_request_message(content, calls).content == content,
        tool_request_message(content, calls).tool_calls == calls,
        tool_request_message(content, calls).images.len() == 0,
        tool_request_message(content, calls).tool_call_id is None,
        tool_result_message(id, content).role == Role::Tool,
        tool_result_message(id, content).content == content,
        tool_result_message(id, content).tool_call_id == Some(id),
        tool_result_message(id, content).tool_calls.len() == 0,
        tool_result_message(id, content).images.len() == 0,
{
}

/// The keys of a written message differ from each other.
proof fn lemma_keys()
    ensures
        "role"@ != "content"@,
        "role"@ != "tool_calls"@,
        "role"@ != "tool_call_id"@,
        "content"@ != "tool_calls"@,
        "content"@ != "tool_call_id"@,
        "tool_calls"@ != "tool_call_id"@,
        "id"@ != "type"@,
        "id"@ != "function"@,
        "type"@ != "function"@,
        "name"@ != "arguments"@,
        "name"@ != "description"@,
        "name"@ != "parameters"@,
        "description"@ != "parameters"@,
        "model"@ != "messages"@,
        "model"@ != "tools"@,
        "messages"@ != "tools"@,
        "type"@ != "text"@,
        "type"@ != "image_url"@,
{
    reveal_strlit("role");
    reveal_strlit("content");
    reveal_strlit("tool_calls");
    reveal_strlit("tool_call_id");
    reveal_strlit("id");
    reveal_strlit("type");
    reveal_strlit("function");
    reveal_strlit("name");
    reveal_strlit("arguments");
    reveal_strlit("description");
    reveal_strlit("parameters");
    reveal_strlit("model");
    reveal_strlit("messages");
    reveal_strlit("tools");
    reveal_strlit("text");
    reveal_strlit("image_url");
    assert("role"@.len() == 4 && "content"@.len() == 7 && "tool_calls"@.len() == 10
        && "tool_call_id"@.len() == 12);
    assert("id"@.len() == 2 && "type"@.len() == 4 && "function"@.len() == 8);
    assert("name"@.len() == 4 && "arguments"@.len() == 9);
    assert("description"@.len() == 11 && "parameters"@.len() == 10);
    assert("model"@.len() == 5 && "messages"@.len() == 8 && "tools"@.len() == 5);
    assert("model"@[0] == 'm' && "tools"@[0] == 't');
    assert("type"@[1] == 'y' && "text"@[1] == 'e');
    assert("image_url"@.len() == 9);
}

/// A call can be read back from its wire form.
pub proof fn law_calls_read_back_from_the_wire(call: CallView)
    ensures
        wire_call(call).text_field("id"@) == Some(call.id),
        wire_call(call).text_field("type"@) == Some("function"@),
        wire_call(call).field("function"@) matches Some(function) && {
            &&& function.text_field("name"@) == Some(call.name)
            &&& function.text_field("arguments"@) == Some(call.arguments)
        },
{
    lemma_keys();
    let function = JsonView::object().with("name"@, JsonView::Text(call.name)).with(
        "arguments"@,
        JsonView::Text(call.arguments),
    );
    lemma_two_fields(
        "name"@,
        JsonView::Text(call.name),
        "arguments"@,
        JsonView::Text(call.arguments),
    );
    lemma_three_fields(
        "id"@,
        JsonView::Text(call.id),
        "type"@,
        JsonView::Text("function"@),
        "function"@,
        function,
    );
}

/// The calls of a message stand on the wire one by one, in their order.
proof fn lemma_wire_calls(calls: Seq<CallView>)
    ensures
        wire_calls(calls) is Array,
        wire_calls(calls)->Array_0.len() == calls.len(),
        forall|k: int|
            0 <= k < calls.len() ==> #[trigger] wire_calls(calls)->Array_0[k] == wire_call(
                calls[k],
            ),
    decreases calls.len(),
{
    if calls.len() > 0 {
        lemma_wire_calls(calls.drop_last());
    }
}

proof fn lemma_image_parts(parts: JsonView, images: Seq<ImageView>)
    requires
        parts is Array,
    ensures
        with_image_parts(parts, images) is Array,
        with_image_parts(parts, images)->Array_0 == parts->Array_0 + images.map_values(
            |image: ImageView| image_part(image),
        ),
    decreases images.len(),
{
    if images.len() > 0 {
        lemma_image_parts(parts, images.drop_last());
        let f = |image: ImageView| image_part(image);
        assert(images.map_values(f) =~= images.drop_last().map_values(f).push(
            image_part(images.last()),
        ));
        assert(with_image_parts(parts, images)->Array_0 =~= parts->Array_0 + images.map_values(f));
    } else {
        assert(with_image_parts(parts, images)->Array_0 =~= parts->Array_0 + images.map_values(
            |image: ImageView| image_part(image),
        ));
    }
}

/// A message can be read back from its wire form: the written object names the role, the text, the
/// calls in their order and the call that is answered, and names no call or answer where the message
/// has none. The text is left out only where the message says nothing and calls tools.
pub proof fn law_messages_read_back_from_the_wire(message: MessageView)
    ensures
        wire_message(message).text_field("role"@) == Some(role_text(message.role)),
        message.images.len() == 0 && (message.content.len() > 0 || message.tool_calls.len() == 0)
            ==> wire_message(message).text_field("content"@) == Some(message.content),
        message.images.len() == 0 && message.content.len() == 0 && message.tool_calls.len() > 0
            ==> wire_message(message).field("content"@) is None,
        message.tool_calls.len() == 0 ==> wire_message(message).field("tool_calls"@) is None,
        message.tool_calls.len() > 0 ==> (wire_message(message).field("tool_calls"@) matches Some(
            JsonView::Array(items),
        ) && items.len() == message.tool_calls.len() && forall|k: int|
            0 <= k < items.len() ==> {
                &&& (#[trigger] items[k]).text_field("id"@) == Some(message.tool_calls[k].id)
                &&& items[k].field("function"@) matches Some(function) && {
                    &&& function.text_field("name"@) == Some(message.tool_calls[k].name)
                    &&& function.text_field("arguments"@) == Some(message.tool_calls[k].arguments)
                }
            }),
        message.tool_call_id matches Some(id) ==> wire_message(message).field("tool_call_id"@)
            == Some(JsonView::Text(id)),
        message.tool_call_id is None ==> wire_message(message).field("tool_call_id"@) is None,
{
    lemma_wire_message(message);
    lemma_wire_calls(message.tool_calls);
    assert forall|k: int| 0 <= k < message.tool_calls.len() implies {
        &&& (#[trigger] wire_calls(message.tool_calls)->Array_0[k]).text_field("id"@) == Some(
            message.tool_calls[k].id,
        )
        &&& wire_calls(message.tool_calls)->Array_0[k].field("function"@) matches Some(function)
            && {
            &&& function.text_field("name"@) == Some(message.tool_calls[k].name)
            &&& function.text_field("arguments"@) == Some(message.tool_calls[k].arguments)
        }
    } by {
        law_calls_read_back_from_the_wire(message.tool_calls[k]);
    }
}

/// What each key of a written message names.
proof fn lemma_wire_message(message: MessageView)
    ensures
        wire_message(message).field("role"@) == Some(JsonView::Text(role_text(message.role))),
        wire_message(message).field("content"@) == wire_content(message),
        wire_message(message).field("tool_calls"@) == (if message.tool_calls.len() > 0 {
            Some(wire_calls(message.tool_calls))
        } else {
            None
        }),
        wire_message(message).field("tool_call_id"@) == (match message.tool_call_id {
            Some(id) => Some(JsonView::Text(id)),
            None => None,
        }),
{
    lemma_keys();
    let none = JsonView::object();
    let name = JsonView::Text(role_text(message.role));
    let role = none.with("role"@, name);
    let content = match wire_content(message) {
        Some(content) => role.with("content"@, content),
        None => role,
    };
    let calls = if message.tool_calls.len() > 0 {
        content.with("tool_calls"@, wire_calls(message.tool_calls))
    } else {
        content
    };
    assert forall|key: Seq<char>| true implies {
        &&& none is Object && role is Object && content is Object && calls is Object
        &&& #[trigger] role.field(key) == (if key == "role"@ {
            Some(name)
        } else {
            None
        })
        &&& content.field(key) == (if role.field(key) is Some {
            role.field(key)
        } else if key == "content"@ {
            wire_content(message)
        } else {
            None
        })
        &&& calls.field(key) == (if content.field(key) is Some {
            content.field(key)
        } else if key == "tool_calls"@ && message.tool_calls.len() > 0 {
            Some(wire_calls(message.tool_calls))
        } else {
            None
        })
        &&& wire_message(message).field(key) == (if calls.field(key) is Some {
            calls.field(key)
        } else if key == "tool_call_id"@ {
            match message.tool_call_id {
                Some(id) => Some(JsonView::Text(id)),
                None => None,
            }
        } else {
            None
        })
    } by {
        lemma_no_field(key);
        lemma_field_with(none, "role"@, name, key);
        if let Some(written) = wire_content(message) {
            lemma_field_with(role, "content"@, written, key);
        }
        if message.tool_calls.len() > 0 {
            lemma_field_with(content, "tool_calls"@, wire_calls(message.tool_calls), key);
        }
        if let Some(id) = message.tool_call_id {
            lemma_field_with(calls, "tool_call_id"@, JsonView::Text(id), key);
        }
    }
    assert(role.field("role"@) is Some);
    assert(role.field("content"@) is None);
    assert(role.field("tool_calls"@) is None);
    assert(role.field("tool_call_id"@) is None);
}

/// The images of a message reach the model: the written content lists the text first, where there is
/// any, and then every image in its order, as a data URL that holds its kind and its bytes.
pub proof fn law_images_reach_the_model(message: MessageView)
    requires
        message.images.len() > 0,
    ensures
        wire_message(message).field("content"@) matches Some(JsonView::Array(parts)) && {
            let texts: nat = if message.content.len() > 0 {
                1
            } else {
                0
            };
            &&& parts.len() == texts + message.images.len()
            &&& texts == 1 ==> parts[0].text_field("type"@) == Some("text"@)
                && parts[0].text_field("text"@) == Some(message.content)
            &&& forall|k: int|
                0 <= k < message.images.len() ==> {
                    &&& (#[trigger] parts[texts + k]).text_field("type"@) == Some("image_url"@)
                    &&& parts[texts + k].field("image_url"@) matches Some(image)
                        && image.text_field("url"@) matches Some(url) && {
                        &&& in_turn(url, seq![message.images[k].media_type, message.images[k].data])
                        &&& occurs_at(url, "data:"@, 0)
                        &&& ends_in(url, ";base64,"@ + message.images[k].data)
                    }
                }
        },
{
    lemma_keys();
    lemma_wire_message(message);
    let text_parts = if message.content.len() > 0 {
        JsonView::array().item(text_part(message.content))
    } else {
        JsonView::array()
    };
    lemma_image_parts(text_parts, message.images);
    lemma_two_fields(
        "type"@,
        JsonView::Text("text"@),
        "text"@,
        JsonView::Text(message.content),
    );
    let texts: nat = if message.content.len() > 0 {
        1
    } else {
        0
    };
    let parts = with_image_parts(text_parts, message.images)->Array_0;
    assert forall|k: int| 0 <= k < message.images.len() implies {
        &&& (#[trigger] parts[texts + k]).text_field("type"@) == Some("image_url"@)
        &&& parts[texts + k].field("image_url"@) matches Some(image) && image.text_field("url"@)
            matches Some(url) && {
            &&& in_turn(url, seq![message.images[k].media_type, message.images[k].data])
            &&& occurs_at(url, "data:"@, 0)
            &&& ends_in(url, ";base64,"@ + message.images[k].data)
        }
    } by {
        let image = message.images[k];
        assert(parts[texts + k] == image_part(image));
        let held = JsonView::object().with("url"@, JsonView::Text(data_url(image)));
        lemma_two_fields("type"@, JsonView::Text("image_url"@), "image_url"@, held);
        lemma_no_field("url"@);
        lemma_field_with(JsonView::object(), "url"@, JsonView::Text(data_url(image)), "url"@);
        let empty: Seq<char> = seq![];
        lemma_two("data:"@, image.media_type, ";base64,"@, image.data, empty);
        assert("data:"@ + image.media_type + ";base64,"@ + image.data + empty =~= data_url(image));
        lemma_starts("data:"@, image.media_type + ";base64,"@ + image.data);
        assert("data:"@ + (image.media_type + ";base64,"@ + image.data) =~= data_url(image));
        lemma_ends_in("data:"@ + image.media_type, ";base64,"@ + image.data);
        assert("data:"@ + image.media_type + (";base64,"@ + image.data) =~= data_url(image));
    }
}

/// A request asks the named model, with every message in its order and every tool that is offered,
/// each with its name, its description and its schema.
pub proof fn law_requests_hold_everything(
    model: Seq<char>,
    messages: Seq<MessageView>,
    tools: Seq<DefinitionView>,
)
    ensures
        request_of(model, messages, tools).text_field("model"@) == Some(model),
        request_of(model, messages, tools).field("messages"@) matches Some(JsonView::Array(items))
            && items.len() == messages.len() && forall|i: int|
            0 <= i < items.len() ==> #[trigger] items[i] == wire_message(messages[i]),
        request_of(model, messages, tools).field("tools"@) matches Some(JsonView::Array(items))
            && items.len() == tools.len() && forall|i: int|
            0 <= i < items.len() ==> {
                &&& (#[trigger] items[i]).text_field("type"@) == Some("function"@)
                &&& items[i].field("function"@) matches Some(function) && {
                    &&& function.text_field("name"@) == Some(tools[i].name)
                    &&& function.text_field("description"@) == Some(tools[i].description)
                    &&& function.field("parameters"@) == Some(tools[i].parameters)
                }
            },
{
    lemma_keys();
    lemma_three_fields(
        "model"@,
        JsonView::Text(model),
        "messages"@,
        wire_messages(messages),
        "tools"@,
        wire_tools(tools),
    );
    lemma_wire_messages(messages);
    lemma_wire_tools(tools);
    assert forall|i: int| 0 <= i < tools.len() implies {
        &&& (#[trigger] wire_tools(tools)->Array_0[i]).text_field("type"@) == Some("function"@)
        &&& wire_tools(tools)->Array_0[i].field("function"@) matches Some(function) && {
            &&& function.text_field("name"@) == Some(tools[i].name)
            &&& function.text_field("description"@) == Some(tools[i].description)
            &&& function.field("parameters"@) == Some(tools[i].parameters)
        }
    } by {
        lemma_keys();
        let tool = tools[i];
        lemma_three_fields(
            "name"@,
            JsonView::Text(tool.name),
            "description"@,
            JsonView::Text(tool.description),
            "parameters"@,
            tool.parameters,
        );
        lemma_two_fields(
            "type"@,
            JsonView::Text("function"@),
            "function"@,
            JsonView::object().with("name"@, JsonView::Text(tool.name)).with(
                "description"@,
                JsonView::Text(tool.description),
            ).with("parameters"@, tool.parameters),
        );
    }
}

proof fn lemma_wire_messages(messages: Seq<MessageView>)
    ensures
        wire_messages(messages) is Array,
        wire_messages(messages)->Array_0.len() == messages.len(),
        forall|k: int|
            0 <= k < messages.len() ==> #[trigger] wire_messages(messages)->Array_0[k]
                == wire_message(messages[k]),
    decreases messages.len(),
{
    if messages.len() > 0 {
        lemma_wire_messages(messages.drop_last());
    }
}

proof fn lemma_wire_tools(tools: Seq<DefinitionView>)
    ensures
        wire_tools(tools) is Array,
        wire_tools(tools)->Array_0.len() == tools.len(),
        forall|k: int|
            0 <= k < tools.len() ==> #[trigger] wire_tools(tools)->Array_0[k] == wire_tool(
                tools[k],
            ),
    decreases tools.len(),
{
    if tools.len() > 0 {
        lemma_wire_tools(tools.drop_last());
    }
}

/// What a provider says is passed on: the message it reports, word for word, or else the start of
/// what it sent, as much as fits.
pub proof fn law_errors_are_told_in_the_providers_words(body: Seq<char>, reported: Seq<char>)
    ensures
        trim(reported).len() > 0 ==> error_text(body, Some(reported)) == reported,
        trim(reported).len() == 0 ==> error_text(body, Some(reported)) == error_text(body, None),
        occurs_at(body, error_text(body, None), 0),
        body.len() <= 300 ==> error_text(body, None) == body,
        body.len() > 300 ==> error_text(body, None).len() == 300,
{
    if body.len() <= 300 {
        assert(body.subrange(0, body.len() as int) =~= body);
    } else {
        assert(body.subrange(0, 300) =~= body.take(300));
    }
}

/// A tool costs more with every character of its name, its description and its schema.
pub proof fn law_definitions_cost_what_they_hold(definition: DefinitionView, more: Seq<char>)
    ensures
        definition_bytes((DefinitionView { name: definition.name + more, ..definition }))
            == definition_bytes(definition) + utf8_len(more),
        definition_bytes(
            (DefinitionView { description: definition.description + more, ..definition }),
        ) == definition_bytes(definition) + utf8_len(more),
        definition_bytes(definition) >= utf8_len(json_text(definition.parameters)),
{
    lemma_utf8_len_add(definition.name, more);
    lemma_utf8_len_add(definition.description, more);
}

/// An endpoint lies below the base address, with one slash in between however many end the base.
pub proof fn law_endpoints_lie_below_the_base(base: Seq<char>, path: Seq<char>)
    ensures
        ends_in(endpoint_of(base, path), "/"@ + path),
        base.len() > 0 && base.last() != '/' ==> endpoint_of(base, path) == base + "/"@ + path,
        endpoint_of(base + "/"@, path) == endpoint_of(base, path),
{
    let kept = trim_end_char(base, '/');
    reveal_strlit("/");
    lemma_ends_in(kept, "/"@ + path);
    assert(endpoint_of(base, path) =~= kept + ("/"@ + path));
    assert((base + "/"@).drop_last() =~= base);
    assert((base + "/"@).last() == '/');
    reveal_with_fuel(trim_end_char, 2);
}

/// The size that a model is listed with is the window that it reports, and else the length.
pub proof fn law_windows_come_before_lengths(model: ListedModel)
    ensures
        model.context_window is Some ==> listed_window(model) == model.context_window,
        model.context_window is None ==> listed_window(model) == model.context_length,
{
}

/// The models are offered in the order of their ids, each once, with the size that its first entry
/// reports, and none that was not listed.
pub proof fn law_every_model_is_offered_once(models: Seq<ModelInfo>, data: Seq<ListedModel>, k: int)
    requires
        is_listing_of(models, data),
        0 <= k < data.len(),
    ensures
        exists|i: int| 0 <= i < models.len() && (#[trigger] models[i]).id@ == data[k].id@,
        forall|i: int, j: int|
            0 <= i < j < models.len() ==> (#[trigger] models[i]).id@ != (#[trigger] models[j]).id@
                && before(models[i].id@, models[j].id@),
        forall|i: int|
            0 <= i < models.len() ==> exists|n: int|
                0 <= n < data.len() && (#[trigger] data[n]).id@ == (#[trigger] models[i]).id@,
        (forall|n: int| 0 <= n < k ==> (#[trigger] data[n]).id@ != data[k].id@) ==> forall|i: int|
            0 <= i < models.len() && (#[trigger] models[i]).id@ == data[k].id@
                ==> models[i].context_window == (match data[k].context_window {
                Some(window) => Some(window),
                None => data[k].context_length,
            }),
{
    assert(is_listed(models, data[k].id@));
    assert forall|i: int, j: int| 0 <= i < j < models.len() implies (#[trigger] models[i]).id@ != (
    #[trigger] models[j]).id@ && before(models[i].id@, models[j].id@) by {
        assert(before(models[i].id@, models[j].id@));
        crate::text::lemma_before_total(models[i].id@, models[j].id@);
    }
    assert forall|i: int| 0 <= i < models.len() implies exists|n: int|
        0 <= n < data.len() && (#[trigger] data[n]).id@ == (#[trigger] models[i]).id@ by {
        assert(is_reported(models[i], data));
        let n = choose|n: int| #[trigger]
            first_listed(data, n) && data[n].id@ == models[i].id@ && listed_window(data[n])
                == models[i].context_window;
        assert(data[n].id@ == models[i].id@);
    }
    if forall|n: int| 0 <= n < k ==> (#[trigger] data[n]).id@ != data[k].id@ {
        assert forall|i: int|
            0 <= i < models.len() && (#[trigger] models[i]).id@
                == data[k].id@ implies models[i].context_window == (match data[k].context_window {
            Some(window) => Some(window),
            None => data[k].context_length,
        }) by {
            assert(is_reported(models[i], data));
            let n = choose|n: int| #[trigger]
                first_listed(data, n) && data[n].id@ == models[i].id@ && listed_window(data[n])
                    == models[i].context_window;
            assert(data[n].id@ == data[k].id@);
            if k < n {
                assert(data[k].id@ != data[n].id@);
            }
            assert(n == k);
        }
    }
}

/// A reply is the last of the provider's choices, whatever stands in front of it, with what the
/// request cost.
pub proof fn law_the_last_choice_is_the_reply(
    choices: Seq<Choice>,
    choice: Choice,
    usage: Usage,
    response: ChatResponse,
)
    requires
        amounts_to(choices.push(choice), usage, response),
    ensures
        choice.content matches Some(content) ==> response.content@ == content@,
        choice.content is None ==> response.content@.len() == 0,
        response.tool_calls@ == choice.tool_calls@,
        response.finish_reason@ == choice.finish_reason@,
        response.usage.prompt_tokens == usage.prompt_tokens,
        response.usage.completion_tokens == usage.completion_tokens,
        response.usage.total_tokens == usage.total_tokens,
{
}

} // verus!
