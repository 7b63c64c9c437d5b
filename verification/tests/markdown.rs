use kumo::markdown::to_telegram_markdown_v2;

#[test]
fn escapes_plain_reserved_characters() {
    let rendered = to_telegram_markdown_v2("Cost: $5.00 (really!)");
    assert_eq!(rendered, "Cost: $5\\.00 \\(really\\!\\)");
}

/// The one emphasis syntax Kumo keeps. Underscore emphasis is deliberately gone (see below),
/// so this is what has to keep working.
#[test]
fn converts_bold() {
    assert_eq!(to_telegram_markdown_v2("**bold**"), "*bold*");
    assert_eq!(to_telegram_markdown_v2("a **bold** word"), "a *bold* word");
}

/// An identifier must survive the round trip: the underscores reach Telegram escaped, which
/// renders as the literal name rather than as an italic entity.
#[test]
fn leaves_underscores_in_identifiers_literal() {
    assert_eq!(
        to_telegram_markdown_v2("snake_case_name"),
        "snake\\_case\\_name"
    );
    assert_eq!(to_telegram_markdown_v2("a_b_c"), "a\\_b\\_c");
    // Word-boundary delimiters: this is strong emphasis under CommonMark's flanking rules,
    // which is why flanking alone would not have been enough.
    assert_eq!(to_telegram_markdown_v2("__init__"), "\\_\\_init\\_\\_");
    assert_eq!(
        to_telegram_markdown_v2("call __init__ on Foo_Bar first"),
        "call \\_\\_init\\_\\_ on Foo\\_Bar first"
    );
}

/// Prose emphasis written with underscores is under-styled on purpose, not mangled: the text
/// itself still arrives intact.
#[test]
fn underscore_emphasis_is_not_an_entity() {
    assert_eq!(to_telegram_markdown_v2("_italic_"), "\\_italic\\_");
    assert_eq!(
        to_telegram_markdown_v2("__also bold__"),
        "\\_\\_also bold\\_\\_"
    );
}

/// Bold still applies around an identifier, and the underscore inside it stays escaped.
#[test]
fn bold_containing_an_identifier_keeps_both() {
    assert_eq!(to_telegram_markdown_v2("**snake_case**"), "*snake\\_case*");
}

#[test]
fn converts_inline_code_without_interpreting_its_contents() {
    let rendered = to_telegram_markdown_v2("`a_b*c`");
    assert_eq!(rendered, "`a_b*c`");
}

#[test]
fn converts_fenced_code_blocks_and_drops_the_language_tag() {
    let rendered = to_telegram_markdown_v2("```rust\nfn main() {}\n```");
    assert_eq!(rendered, "```\nfn main() {}\n```");
}

#[test]
fn escapes_backticks_inside_fenced_code() {
    let rendered = to_telegram_markdown_v2("```\nlet s = `x`;\n```");
    assert_eq!(rendered, "```\nlet s = \\`x\\`;\n```");
}

#[test]
fn converts_links_and_escapes_the_url() {
    let rendered = to_telegram_markdown_v2("[docs](https://example.com/a/b)");
    assert_eq!(rendered, "[docs](https://example.com/a/b)");
}

#[test]
fn handles_an_unterminated_fence_without_dropping_content() {
    let rendered = to_telegram_markdown_v2("```\nno closing fence");
    assert_eq!(rendered, "```\nno closing fence```");
}

#[test]
fn leaves_plain_text_without_markdown_untouched_in_meaning() {
    assert_eq!(to_telegram_markdown_v2("hello world"), "hello world");
}
