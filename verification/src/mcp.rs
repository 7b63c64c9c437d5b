//! Tools of MCP servers: how they are offered, and what is made of their results.
use vstd::prelude::*;
use vstd::string::*;

use crate::config::McpServerConfig;
use crate::json::{
    complain, json_read, json_text, json_value, parse, print, read, views, with_reason, Json,
    JsonView,
};
use crate::text::{
    contains, decimal, decimal_usize, ends_in, in_turn, index_of, join, joined, lemma_ends_in,
    lemma_in_turn_contains, lemma_in_turn_within, lemma_index_from, lemma_join_in_turn, lemma_one,
    lemma_starts, lemma_three, occurs_at, opt_view, seq_view, split, split_char, strip_prefix, texts, to_chars,
};
use crate::tools::arguments::INVALID;
use crate::tools::ExternalTool;

verus! {

/// What a result that carries images starts with.
pub const MEDIA_RESULT_PREFIX: &'static str = "__KUMO_MCP_MEDIA__";

/// The largest image that is passed on, in bytes: 10 MiB.
pub const MAX_MCP_IMAGE_BYTES: usize = 10485760;

/// An image that a tool returned.
#[derive(Debug)]
pub struct McpImage {
    pub mime_type: String,
    pub data: Vec<u8>,
}

#[verifier::ext_equal]
pub struct McpImageView {
    pub mime_type: Seq<char>,
    pub data: Seq<u8>,
}

impl View for McpImage {
    type V = McpImageView;

    open spec fn view(&self) -> McpImageView {
        McpImageView { mime_type: self.mime_type@, data: self.data@ }
    }
}

#[derive(Debug)]
pub struct ConnectionStatus {
    pub name: String,
    pub tool_count: usize,
    /// How many of this server's tools skip the approval prompt — all of them when the server
    /// itself is `trusted`, otherwise however many `trusted_tools` named.
    pub trusted_count: usize,
    pub error: Option<String>,
}

impl ConnectionStatus {
    pub open spec fn label(&self) -> Seq<char> {
        if self.trusted_count == 0 {
            seq![]
        } else if self.trusted_count == self.tool_count {
            " [trusted]"@
        } else {
            " ["@ + decimal(self.trusted_count as nat) + " trusted]"@
        }
    }

    /// " [trusted]" when nothing this server offers needs approval, " [n trusted]" when only some
    /// of it does, and nothing at all when every call is gated.
    pub fn trust_label(&self) -> (r: String)
        ensures
            r@ == self.label(),
    {
        if self.trusted_count == 0 {
            String::new()
        } else if self.trusted_count == self.tool_count {
            " [trusted]".to_owned()
        } else {
            let mut r = " [".to_owned();
            r.push_str(decimal_usize(self.trusted_count).as_str());
            r.push_str(" trusted]");
            r
        }
    }
}

/// How many tools skip the approval prompt.
pub open spec fn ungated(tools: Seq<ExternalTool>) -> nat
    decreases tools.len(),
{
    if tools.len() == 0 {
        0
    } else {
        ungated(tools.drop_last()) + if tools.last().requires_confirmation {
            0nat
        } else {
            1
        }
    }
}

/// The status of a server that is connected and offers `tools`.
pub fn connected_status(name: &str, tools: &Vec<ExternalTool>) -> (r: ConnectionStatus)
    ensures
        r.name@ == name@,
        r.tool_count == tools@.len(),
        r.trusted_count == ungated(tools@),
        r.error is None,
{
    let mut trusted: usize = 0;
    let mut i: usize = 0;
    assert(tools@.take(0) =~= seq![]);
    while i < tools.len()
        invariant
            i <= tools@.len(),
            trusted <= i,
            trusted == ungated(tools@.take(i as int)),
        decreases tools@.len() - i,
    {
        assert(tools@.take(i + 1).drop_last() =~= tools@.take(i as int));
        if !tools[i].requires_confirmation {
            trusted = trusted + 1;
        }
        i = i + 1;
    }
    assert(tools@.take(i as int) =~= tools@);
    ConnectionStatus {
        name: name.to_owned(),
        tool_count: tools.len(),
        trusted_count: trusted,
        error: None,
    }
}

/// The status of a server that could not be connected.
pub fn failed_status(name: &str, error: &str) -> (r: ConnectionStatus)
    ensures
        r.name@ == name@,
        r.tool_count == 0,
        r.trusted_count == 0,
        opt_view(r.error) == Some(error@),
{
    ConnectionStatus {
        name: name.to_owned(),
        tool_count: 0,
        trusted_count: 0,
        error: Some(error.to_owned()),
    }
}

/// The name that a server's tool is offered under.
pub open spec fn offered_name(server: Seq<char>, tool: Seq<char>) -> Seq<char> {
    server + "__"@ + tool
}

/// Whether a server's tool waits for the owner's consent.
pub open spec fn asks_first(config: McpServerConfig, tool: Seq<char>) -> bool {
    !(config.trusted || texts(config.trusted_tools@).contains(tool))
}

/// A server's tool as it is offered to the model: under a name qualified by the server's, and
/// gated unless the server's configuration trusts it.
pub fn offered_tool(
    server: &str,
    config: &McpServerConfig,
    name: &str,
    description: &Option<String>,
    schema: Json,
) -> (r: ExternalTool)
    ensures
        r.name@ == offered_name(server@, name@),
        r.description@ == (match description {
            Some(text) => text@,
            None => seq![],
        }),
        r.parameters@ == schema@,
        r.requires_confirmation == asks_first(*config, name@),
        r.label@ == "MCP "@ + name@,
{
    let mut qualified = server.to_owned();
    qualified.push_str("__");
    qualified.push_str(name);
    let mut label = "MCP ".to_owned();
    label.push_str(name);
    ExternalTool {
        name: qualified,
        description: match description {
            Some(text) => text.clone(),
            None => String::new(),
        },
        parameters: schema,
        requires_confirmation: !config.trusts(name),
        label,
    }
}

/// The texts of a result's content.
pub open spec fn content_texts(items: Seq<JsonView>) -> Seq<Seq<char>>
    decreases items.len(),
{
    if items.len() == 0 {
        seq![]
    } else {
        let rest = content_texts(items.drop_last());
        match items.last().text_field("text"@) {
            Some(text) => rest.push(text),
            None => rest,
        }
    }
}

/// The images of a result's content.
pub open spec fn content_images(items: Seq<JsonView>) -> Seq<JsonView> {
    items.filter(|item: JsonView| item.text_field("type"@) == Some("image"@))
}

/// The items of a result's content.
pub open spec fn content_of(value: JsonView) -> Seq<JsonView> {
    match value.field("content"@) {
        Some(content) => match content.as_items() {
            Some(items) => items,
            None => seq![],
        },
        None => seq![],
    }
}

/// A result's text, marked where the result is an error.
pub open spec fn marked(value: JsonView, body: Seq<char>) -> Seq<char> {
    if value.field("isError"@) == Some(JsonView::Bool(true)) {
        "Error: "@ + body
    } else {
        body
    }
}

/// The text of a result: that of its content, or the whole result where that holds neither text nor
/// images; errors are marked.
pub open spec fn result_body(value: JsonView) -> Seq<char> {
    let items = content_of(value);
    let found = content_texts(items);
    marked(
        value,
        if found.len() == 0 && content_images(items).len() == 0 {
            json_text(value)
        } else {
            join(found, "\n"@)
        },
    )
}

/// A result's text and images as one JSON value.
pub open spec fn media_payload(body: Seq<char>, images: Seq<JsonView>) -> JsonView {
    JsonView::object().with("images"@, JsonView::Array(images)).with("text"@, JsonView::Text(body))
}

/// What is made of a tool's result: its text, or, where it carries images, a marked JSON text that
/// holds both.
pub open spec fn rendered(value: JsonView) -> Seq<char> {
    let images = content_images(content_of(value));
    if images.len() == 0 {
        result_body(value)
    } else {
        MEDIA_RESULT_PREFIX@ + json_text(media_payload(result_body(value), images))
    }
}

/// Renders a tool's result.
pub fn render_result(value: &Json) -> (r: String)
    ensures
        r@ == rendered(value@),
        ({
            let images = content_images(content_of(value@));
            let payload = media_payload(result_body(value@), images);
            images.len() > 0 && payload.storable(100) ==> json_value(json_text(payload)) == Some(
                payload,
            )
        }),
{
    let is_error = match value.field("isError") {
        Some(Json::Bool(flag)) => *flag,
        _ => false,
    };
    let ghost items = content_of(value@);
    let ghost is_image = |item: JsonView| item.text_field("type"@) == Some("image"@);
    let mut found: Vec<String> = Vec::new();
    let mut images: Vec<Json> = Vec::new();
    proof {
        reveal(Seq::filter);
        assert(texts(found@) =~= content_texts(items.take(0)));
        assert(views(images@) =~= items.take(0).filter(is_image));
    }
    if let Some(content) = value.field("content") {
        if let Some(list) = content.as_items() {
            assert(items == views(list@));
            let mut i: usize = 0;
            while i < list.len()
                invariant
                    i <= list@.len(),
                    items == views(list@),
                    is_image == (|item: JsonView| item.text_field("type"@) == Some("image"@)),
                    texts(found@) == content_texts(items.take(i as int)),
                    views(images@) == items.take(i as int).filter(is_image),
                decreases list@.len() - i,
            {
                let ghost found_before = found@;
                let ghost images_before = images@;
                proof {
                    reveal(Seq::filter);
                    assert(items.take(i + 1).drop_last() =~= items.take(i as int));
                    assert(items.take(i + 1).last() == list@[i as int]@);
                }
                if let Some(text) = list[i].text_field("text") {
                    found.push(text.clone());
                    assert(texts(found@) =~= texts(found_before).push(text@));
                }
                if let Some(kind) = list[i].text_field("type") {
                    if crate::text::same(kind.as_str(), "image") {
                        let image = list[i].duplicate();
                        images.push(image);
                        assert(views(images@) =~= views(images_before).push(image@));
                    }
                }
                i = i + 1;
            }
            assert(items.take(i as int) =~= items);
        }
    }
    proof {
        if items.len() == 0 {
            assert(items.take(0) =~= items);
        }
    }
    assert(texts(found@) == content_texts(items));
    assert(views(images@) == content_images(items));
    let mut body = String::new();
    if is_error {
        body.push_str("Error: ");
    }
    if found.len() == 0 && images.len() == 0 {
        body.push_str(print(value).as_str());
    } else {
        body.push_str(joined(&found, "\n").as_str());
    }
    assert(texts(found@).len() == found@.len());
    assert(views(images@).len() == images@.len());
    assert(body@ =~= result_body(value@));
    if images.len() == 0 {
        body
    } else {
        let list = Json::Array(images);
        assert(list@->Array_0 =~= content_images(items));
        let payload = Json::object().with("images", list).with("text", Json::Text(body));
        let mut r = MEDIA_RESULT_PREFIX.to_owned();
        r.push_str(print(&payload).as_str());
        r
    }
}

/// Renders a tool's result that arrives as JSON text.
pub fn render_result_text(result: &str) -> (r: String)
    ensures
        r@ == rendered(
            match json_value(result@) {
                Some(value) => value,
                None => JsonView::Null,
            },
        ),
{
    match parse(result) {
        Some(value) => render_result(&value),
        None => render_result(&Json::Null),
    }
}

/// The bytes that a base64 text stands for, if it is one.
pub uninterp spec fn base64_bytes(text: Seq<char>) -> Option<Seq<u8>>;

/// The base64 text of bytes.
pub uninterp spec fn base64_text(bytes: Seq<u8>) -> Seq<char>;

/// `STANDARD.decode` of the `base64` crate: reads padded standard base64. The coding is not written
/// out here; the result is only given a name.
#[verifier::external_body]
pub(crate) fn base64_decode(text: &str) -> (r: Option<Vec<u8>>)
    ensures
        opt_view(r) == base64_bytes(text@),
{
    base64::Engine::decode(&base64::engine::general_purpose::STANDARD, text).ok()
}

/// `STANDARD.encode` of the `base64` crate: writes padded standard base64, which reads back as the
/// bytes it was written from.
#[verifier::external_body]
pub(crate) fn base64_encode(bytes: &Vec<u8>) -> (r: String)
    ensures
        r@ == base64_text(bytes@),
        base64_bytes(r@) == Some(bytes@),
{
    base64::Engine::encode(&base64::engine::general_purpose::STANDARD, bytes)
}

/// The image that an item of a result stands for: none where its type or its data is missing,
/// where the data is not base64, or where it is too large.
pub open spec fn decoded_image(item: JsonView) -> Option<McpImageView> {
    match (item.text_field("mimeType"@), item.text_field("data"@)) {
        (Some(mime_type), Some(data)) => match base64_bytes(data) {
            Some(bytes) => if bytes.len() <= MAX_MCP_IMAGE_BYTES {
                Some(McpImageView { mime_type, data: bytes })
            } else {
                None
            },
            None => None,
        },
        _ => None,
    }
}

pub open spec fn decoded_images(items: Seq<JsonView>) -> Seq<McpImageView>
    decreases items.len(),
{
    if items.len() == 0 {
        seq![]
    } else {
        let rest = decoded_images(items.drop_last());
        match decoded_image(items.last()) {
            Some(image) => rest.push(image),
            None => rest,
        }
    }
}

/// The text and the images of a JSON value made for a result with images.
pub open spec fn payload_media(value: JsonView) -> (Seq<char>, Seq<McpImageView>) {
    (
        match value.text_field("text"@) {
            Some(text) => text,
            None => seq![],
        },
        match value.field("images"@) {
            Some(images) => match images.as_items() {
                Some(items) => decoded_images(items),
                None => seq![],
            },
            None => seq![],
        },
    )
}

/// The text that goes to the model and the images that go to the chat.
pub open spec fn media_of(output: Seq<char>) -> (Seq<char>, Seq<McpImageView>) {
    if occurs_at(output, MEDIA_RESULT_PREFIX@, 0) {
        match json_value(output.skip(MEDIA_RESULT_PREFIX@.len() as int)) {
            Some(value) => payload_media(value),
            None => (output, seq![]),
        }
    } else {
        (output, seq![])
    }
}

fn decode_image(item: &Json) -> (r: Option<McpImage>)
    ensures
        opt_view(r) == decoded_image(item@),
{
    match (item.text_field("mimeType"), item.text_field("data")) {
        (Some(mime_type), Some(encoded)) => match base64_decode(encoded.as_str()) {
            Some(data) => if data.len() <= MAX_MCP_IMAGE_BYTES {
                Some(McpImage { mime_type: mime_type.clone(), data })
            } else {
                None
            },
            None => None,
        },
        _ => None,
    }
}

/// Splits the JSON value made for a result with images.
pub fn split_payload(value: &Json) -> (r: (String, Vec<McpImage>))
    ensures
        (r.0@, seq_view(r.1@)) == payload_media(value@),
{
    let text = match value.text_field("text") {
        Some(text) => text.clone(),
        None => String::new(),
    };
    let mut images: Vec<McpImage> = Vec::new();
    assert(seq_view(images@) =~= seq![]);
    if let Some(list) = value.field("images") {
        if let Some(items) = list.as_items() {
            let ghost all = views(items@);
            let mut i: usize = 0;
            assert(all.take(0) =~= seq![]);
            while i < items.len()
                invariant
                    i <= items@.len(),
                    all == views(items@),
                    seq_view(images@) == decoded_images(all.take(i as int)),
                decreases items@.len() - i,
            {
                let ghost before = images@;
                assert(all.take(i + 1).drop_last() =~= all.take(i as int));
                assert(all.take(i + 1).last() == items@[i as int]@);
                if let Some(image) = decode_image(&items[i]) {
                    let ghost view = image@;
                    images.push(image);
                    assert(seq_view(images@) =~= seq_view(before).push(view));
                }
                i = i + 1;
            }
            assert(all.take(i as int) =~= all);
        }
    }
    (text, images)
}

/// Splits what a tool call returned into the text that goes to the model and the images that go to
/// the chat.
pub fn extract_media(output: String) -> (r: (String, Vec<McpImage>))
    ensures
        (r.0@, seq_view(r.1@)) == media_of(output@),
{
    if let Some(payload) = strip_prefix(output.as_str(), MEDIA_RESULT_PREFIX) {
        if let Some(value) = parse(payload.as_str()) {
            return split_payload(&value);
        }
    }
    let none: Vec<McpImage> = Vec::new();
    assert(seq_view(none@) =~= seq![]);
    (output, none)
}

/// Images reach the chat and never the model: of a result with images the model is given the texts
/// that accompany them and nothing else, and the chat the images. (That the rendering reads back as
/// the value it was written from is what `render_result` ensures of it.)
pub proof fn law_images_do_not_leak_into_text(value: JsonView)
    requires
        ({
            let payload = media_payload(
                result_body(value),
                content_images(content_of(value)),
            );
            json_value(json_text(payload)) == Some(payload)
        }),
        content_images(content_of(value)).len() > 0,
    ensures
        media_of(rendered(value)) == (
            marked(value, join(content_texts(content_of(value)), "\n"@)),
            decoded_images(content_images(content_of(value))),
        ),
{
    let images = content_images(content_of(value));
    let body = result_body(value);
    let payload = media_payload(body, images);
    let prefix = MEDIA_RESULT_PREFIX@;
    let output = prefix + json_text(payload);
    assert(output.subrange(0, prefix.len() as int) =~= prefix);
    assert(output.skip(prefix.len() as int) =~= json_text(payload));
    reveal_strlit("images");
    reveal_strlit("text");
    assert("images"@.len() == 6 && "text"@.len() == 4);
    let fields = payload->Object_0;
    assert(fields =~= seq![("images"@, JsonView::Array(images)), ("text"@, JsonView::Text(body))]);
    reveal_with_fuel(crate::json::first_field, 3);
    assert(fields.skip(1)[0] == fields[1]);
    assert(payload.field("images"@) == Some(JsonView::Array(images)));
    assert(payload.field("text"@) == Some(JsonView::Text(body)));
}

/// The arguments that are sent along with a call of a server's tool: the object that the model
/// gave, or none where it gave something else.
pub fn call_arguments(arguments: &str) -> (r: Result<Option<Json>, String>)
    ensures
        match r {
            Ok(Some(object)) => json_value(arguments@) == Some(object@) && object@ is Object,
            Ok(None) => json_value(arguments@) is Some && !(json_value(arguments@)->0 is Object),
            Err(message) => json_read(arguments@) is Err && message@ == with_reason(
                INVALID@,
                json_read(arguments@),
            ),
        },
{
    let value = read(arguments);
    match value {
        Ok(Json::Object(fields)) => Ok(Some(Json::Object(fields))),
        Ok(_) => Ok(None),
        Err(_) => Err(complain(INVALID, &value)),
    }
}

/// The endings that a shell on Windows tries for a program's name, where its settings name none.
pub const PROGRAM_ENDINGS: &'static str = ".COM;.EXE;.BAT;.CMD";

/// A name with each of the endings that are not empty.
pub open spec fn with_endings(name: Seq<char>, endings: Seq<Seq<char>>) -> Seq<Seq<char>>
    decreases endings.len(),
{
    if endings.len() == 0 {
        seq![]
    } else {
        let rest = with_endings(name, endings.drop_last());
        if endings.last().len() == 0 {
            rest
        } else {
            rest.push(name + endings.last())
        }
    }
}

/// The file names under which a shell on Windows would look for a program, in order. Spawning a
/// process tries none of them, and most servers are launched through `.cmd` shims. A name that
/// carries a path or an extension is looked for under no other.
pub fn program_names(command: &str, has_extension: bool, endings: Option<&str>) -> (r: Vec<String>)
    ensures
        texts(r@) == (if has_extension || command@.contains('/') || command@.contains('\\') {
            seq![]
        } else {
            with_endings(
                command@,
                split_char(
                    match endings {
                        Some(endings) => endings@,
                        None => PROGRAM_ENDINGS@,
                    },
                    ';',
                ),
            )
        }),
{
    let mut r: Vec<String> = Vec::new();
    assert(texts(r@) =~= seq![]);
    let chars = to_chars(command);
    proof {
        lemma_index_from(command@, '/', 0);
        lemma_index_from(command@, '\\', 0);
    }
    if has_extension || index_of(&chars, '/', 0).is_some() || index_of(&chars, '\\', 0).is_some() {
        return r;
    }
    let endings = split(
        match endings {
            Some(endings) => endings,
            None => PROGRAM_ENDINGS,
        },
        ';',
    );
    let ghost all = texts(endings@);
    let mut i: usize = 0;
    assert(all.take(0) =~= seq![]);
    while i < endings.len()
        invariant
            i <= endings@.len(),
            all == texts(endings@),
            texts(r@) == with_endings(command@, all.take(i as int)),
        decreases endings@.len() - i,
    {
        assert(all.take(i + 1).drop_last() =~= all.take(i as int));
        assert(all.take(i + 1).last() == endings@[i as int]@);
        if !endings[i].as_str().is_empty() {
            let mut name = command.to_owned();
            name.push_str(endings[i].as_str());
            let ghost before = r@;
            r.push(name);
            assert(texts(r@) =~= texts(before).push(name@));
        }
        i = i + 1;
    }
    assert(all.take(i as int) =~= all);
    r
}

/// The text of a result is every text that it holds, in their order, one on a line; one that failed
/// is marked as an error. A result without texts and images is told whole.
pub proof fn law_every_text_of_a_result_is_told(value: JsonView)
    ensures
        content_texts(content_of(value)).len() > 0 ==> in_turn(
            result_body(value),
            content_texts(content_of(value)),
        ),
        content_images(content_of(value)).len() == 0 ==> rendered(value) == result_body(value),
        value.field("isError"@) == Some(JsonView::Bool(true)) ==> occurs_at(
            result_body(value),
            "Error: "@,
            0,
        ),
        value.field("isError"@) != Some(JsonView::Bool(true)) && content_texts(
            content_of(value),
        ).len() == 1 ==> result_body(value) == content_texts(content_of(value))[0],
        content_texts(content_of(value)).len() == 0 && content_images(content_of(value)).len() == 0
            ==> ends_in(result_body(value), json_text(value)),
{
    let found = content_texts(content_of(value));
    let empty: Seq<char> = seq![];
    let body = if found.len() == 0 && content_images(content_of(value)).len() == 0 {
        json_text(value)
    } else {
        join(found, "\n"@)
    };
    lemma_join_in_turn(found, "\n"@);
    lemma_starts("Error: "@, body);
    lemma_ends_in("Error: "@, body);
    lemma_ends_in(empty, body);
    assert(empty + body =~= body);
    if found.len() > 0 {
        lemma_in_turn_within("Error: "@, body, empty, found);
        assert("Error: "@ + body + empty =~= "Error: "@ + body);
    }
}

/// An item adds its text, and one without a text adds nothing.
pub proof fn law_items_add_their_text(items: Seq<JsonView>, item: JsonView, text: Seq<char>)
    ensures
        content_texts(Seq::empty()).len() == 0,
        item.text_field("text"@) == Some(text) ==> content_texts(items.push(item))
            == content_texts(items).push(text),
        item.text_field("text"@) is None ==> content_texts(items.push(item)) == content_texts(
            items,
        ),
{
    assert(items.push(item).drop_last() =~= items);
}

/// The images of a result are the items that say they are, all of them and in their order.
pub proof fn law_images_are_known_by_their_kind(items: Seq<JsonView>, k: int)
    requires
        0 <= k < items.len(),
    ensures
        items[k].text_field("type"@) == Some("image"@) ==> content_images(items).contains(items[k]),
        forall|i: int|
            0 <= i < content_images(items).len() ==> (#[trigger] content_images(
                items,
            )[i]).text_field("type"@) == Some("image"@),
        content_images(items).len() <= items.len(),
{
    broadcast use vstd::seq_lib::group_filter_ensures;

    let is_image = |item: JsonView| item.text_field("type"@) == Some("image"@);
    assert forall|i: int| 0 <= i < content_images(items).len() implies (#[trigger] content_images(
        items,
    )[i]).text_field("type"@) == Some("image"@) by {
        assert(is_image(items.filter(is_image)[i]));
    }
    if is_image(items[k]) {
        assert(items.filter(is_image).contains(items[k]));
    }
}

/// An image is passed on with its kind and all its bytes, unless it is too large or cannot be read.
pub proof fn law_images_are_passed_on_whole(
    items: Seq<JsonView>,
    item: JsonView,
    mime_type: Seq<char>,
    data: Seq<char>,
    bytes: Seq<u8>,
)
    requires
        item.text_field("mimeType"@) == Some(mime_type),
        item.text_field("data"@) == Some(data),
        base64_bytes(data) == Some(bytes),
    ensures
        bytes.len() <= 10 * 1024 * 1024 ==> {
            let passed = decoded_images(items.push(item));
            &&& passed.len() == decoded_images(items).len() + 1
            &&& passed.drop_last() == decoded_images(items)
            &&& passed.last().mime_type == mime_type
            &&& passed.last().data == bytes
        },
        bytes.len() > 10 * 1024 * 1024 ==> decoded_images(items.push(item)) == decoded_images(
            items,
        ),
{
    assert(items.push(item).drop_last() =~= items);
    if bytes.len() <= 10 * 1024 * 1024 {
        assert(decoded_images(items.push(item)).drop_last() =~= decoded_images(items));
    }
}

/// An output that carries no images is taken as it is.
pub proof fn law_plain_outputs_are_taken_whole(output: Seq<char>)
    requires
        !occurs_at(output, MEDIA_RESULT_PREFIX@, 0),
    ensures
        media_of(output).0 == output,
        media_of(output).1.len() == 0,
{
}

/// How many of a server's tools run unasked is counted one by one.
pub proof fn law_trusted_tools_are_counted(tools: Seq<ExternalTool>, tool: ExternalTool)
    ensures
        ungated(Seq::empty()) == 0,
        tool.requires_confirmation ==> ungated(tools.push(tool)) == ungated(tools),
        !tool.requires_confirmation ==> ungated(tools.push(tool)) == ungated(tools) + 1,
        ungated(tools) <= tools.len(),
    decreases tools.len(),
{
    assert(tools.push(tool).drop_last() =~= tools);
    if tools.len() > 0 {
        law_trusted_tools_are_counted(tools.drop_last(), tool);
    }
}

/// A server's label tells whether all of its tools, some, or none run unasked.
pub proof fn law_labels_tell_what_is_trusted(status: ConnectionStatus)
    ensures
        status.trusted_count == 0 <==> status.label().len() == 0,
        status.trusted_count > 0 && status.trusted_count != status.tool_count ==> contains(
            status.label(),
            decimal(status.trusted_count as nat),
        ),
{
    reveal_strlit(" [trusted]");
    reveal_strlit(" [");
    let count = decimal(status.trusted_count as nat);
    lemma_one(" ["@, count, " trusted]"@);
    lemma_in_turn_contains(" ["@ + count + " trusted]"@, seq![count], 0);
}

/// A program is looked for under its name with each ending, in their order.
pub proof fn law_programs_are_looked_for_with_each_ending(
    name: Seq<char>,
    endings: Seq<Seq<char>>,
    ending: Seq<char>,
)
    ensures
        with_endings(name, Seq::empty()).len() == 0,
        ending.len() > 0 ==> with_endings(name, endings.push(ending)) == with_endings(
            name,
            endings,
        ).push(name + ending),
        ending.len() == 0 ==> with_endings(name, endings.push(ending)) == with_endings(
            name,
            endings,
        ),
{
    assert(endings.push(ending).drop_last() =~= endings);
}

/// A server's tool runs unasked exactly where the owner trusts the server or names the tool, and is
/// offered under its server's name and its own.
pub proof fn law_trust_has_to_be_given(config: McpServerConfig, server: Seq<char>, tool: Seq<char>)
    ensures
        config.trusted ==> !asks_first(config, tool),
        texts(config.trusted_tools@).contains(tool) ==> !asks_first(config, tool),
        !config.trusted && !texts(config.trusted_tools@).contains(tool) ==> asks_first(config, tool),
        in_turn(offered_name(server, tool), seq![server, "__"@, tool]),
        offered_name(server, tool).len() == server.len() + 2 + tool.len(),
{
    reveal_strlit("__");
    let empty: Seq<char> = seq![];
    lemma_three(empty, server, empty, "__"@, empty, tool, empty);
    assert(offered_name(server, tool) =~= empty + server + empty + "__"@ + empty + tool + empty);
}

} // verus!
