use kumo::json::{parse, Json};
use kumo::mcp::{extract_media, program_names, render_result};

fn json(text: &str) -> Json {
    parse(text).unwrap()
}

#[test]
fn renders_text_content_parts() {
    let result = json(
        r#"{
            "content": [{"type": "text", "text": "first"}, {"type": "text", "text": "second"}]
        }"#,
    );
    assert_eq!(render_result(&result), "first\nsecond");
}

#[test]
fn marks_error_results() {
    let result = json(
        r#"{
            "content": [{"type": "text", "text": "failed"}],
            "isError": true
        }"#,
    );
    assert_eq!(render_result(&result), "Error: failed");
}

#[test]
fn extracts_image_content_without_leaking_base64_into_text() {
    let result = json(
        r#"{
            "content": [
                {"type": "text", "text": "chart metadata"},
                {"type": "image", "mimeType": "image/png", "data": "iVBORw=="}
            ]
        }"#,
    );
    let (text, images) = extract_media(render_result(&result));
    assert_eq!(text, "chart metadata");
    assert_eq!(images.len(), 1);
    assert_eq!(images[0].mime_type, "image/png");
    assert_eq!(images[0].data, b"\x89PNG");
}

#[test]
fn an_explicit_path_or_extension_is_never_rewritten() {
    assert!(program_names("node.exe", true, None).is_empty());
    assert!(program_names("C:/tools/thing", false, None).is_empty());
    assert!(program_names("tools\\thing", false, None).is_empty());
}

#[test]
fn a_bare_shim_name_is_looked_for_with_each_ending() {
    assert_eq!(
        program_names("npx", false, None),
        ["npx.COM", "npx.EXE", "npx.BAT", "npx.CMD"]
    );
    assert_eq!(program_names("npx", false, Some(";.CMD;;.PS1")), ["npx.CMD", "npx.PS1"]);
    assert!(program_names("npx", false, Some("")).is_empty());
}

#[test]
fn an_image_without_text_leaves_the_model_no_text() {
    let result = json(r#"{"content": [{"type": "image", "mimeType": "image/png", "data": "iVBORw=="}]}"#);
    let (text, images) = extract_media(render_result(&result));
    assert_eq!(text, "");
    assert_eq!(images.len(), 1);
    assert_eq!(images[0].mime_type, "image/png");
    assert_eq!(images[0].data, b"\x89PNG");

    let result = json(
        r#"{"content": [{"type": "image", "mimeType": "image/png", "data": "iVBORw=="}], "isError": true}"#,
    );
    assert_eq!(extract_media(render_result(&result)).0, "Error: ");

    // A result with neither is shown as it is.
    assert_eq!(render_result(&json(r#"{"content": []}"#)), r#"{"content":[]}"#);
}
