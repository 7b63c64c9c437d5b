use kumo::json::Json;
use kumo::provider::{
    endpoint, message_json, model_listing, ImageAttachment, Message, ModelInfo, ToolCall,
};
use kumo::wire::{error_message, read_models};

fn part<'a>(value: &'a Json, key: &str, index: usize) -> &'a Json {
    &value.field(key).unwrap().as_items().unwrap()[index]
}

#[test]
fn reads_a_context_window_under_either_provider_spelling() {
    let response = read_models(
        r#"{"data": [
            {"id": "groq-style", "context_window": 131072},
            {"id": "openrouter-style", "context_length": 200000},
            {"id": "openai-style"}
        ]}"#,
    )
    .unwrap();

    let listing = model_listing(response);

    assert_eq!(
        listing,
        vec![
            ModelInfo {
                id: "groq-style".into(),
                context_window: Some(131_072)
            },
            ModelInfo {
                id: "openai-style".into(),
                context_window: None
            },
            ModelInfo {
                id: "openrouter-style".into(),
                context_window: Some(200_000)
            },
        ]
    );
}

#[test]
fn joins_provider_endpoints() {
    assert_eq!(
        endpoint("https://api.example.com/v1/", "models"),
        "https://api.example.com/v1/models"
    );
}

#[test]
fn extracts_structured_provider_errors() {
    assert_eq!(
        error_message(r#"{"error":{"message":"bad key"}}"#),
        "bad key"
    );
}

#[test]
fn tool_only_assistant_message_uses_null_content() {
    let message = Message::tool_request(
        "",
        vec![ToolCall {
            id: "1".into(),
            name: "read_file".into(),
            arguments: "{}".into(),
        }],
    );
    let value = message_json(&message);

    assert!(value.field("content").is_none());
    assert_eq!(part(&value, "tool_calls", 0).field("function").unwrap().text_field("name").unwrap(), "read_file");
}

#[test]
fn plain_text_message_serializes_content_as_a_string() {
    let message = Message::user("hello");
    let value = message_json(&message);

    assert_eq!(value.text_field("content").unwrap(), "hello");
}

#[test]
fn serializes_images_as_content_parts() {
    let message = Message::user_with_images(
        "what is this?",
        vec![ImageAttachment {
            media_type: "image/jpeg".into(),
            data: "AAAA".into(),
        }],
    );
    let value = message_json(&message);

    assert_eq!(part(&value, "content", 0).text_field("type").unwrap(), "text");
    assert_eq!(part(&value, "content", 0).text_field("text").unwrap(), "what is this?");
    assert_eq!(part(&value, "content", 1).text_field("type").unwrap(), "image_url");
    assert_eq!(
        part(&value, "content", 1).field("image_url").unwrap().text_field("url").unwrap(),
        "data:image/jpeg;base64,AAAA"
    );
}

#[test]
fn an_image_with_no_caption_omits_the_text_part() {
    let message = Message::user_with_images(
        "",
        vec![ImageAttachment {
            media_type: "image/jpeg".into(),
            data: "AAAA".into(),
        }],
    );
    let value = message_json(&message);

    // Only the image part should be present, no leading empty text part.
    assert_eq!(value.field("content").unwrap().as_items().unwrap().len(), 1);
    assert_eq!(part(&value, "content", 0).text_field("type").unwrap(), "image_url");
}
