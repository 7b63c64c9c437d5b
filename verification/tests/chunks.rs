use kumo::chunks::message_chunks;

#[test]
fn splits_long_unicode_messages_without_corruption() {
    assert_eq!(message_chunks("abé日", 2), vec!["ab", "é日"]);
}

/// Every chunk is converted and sent on its own, so a chunk that ends inside a fenced block
/// hands `markdown::to_telegram_markdown_v2` an opening fence with no close (and the next
/// chunk a body with no opening fence). Splitting has to close and re-open the block instead.
#[test]
fn a_split_inside_a_code_fence_closes_and_reopens_it() {
    let code: String = (0..40)
        .map(|line| format!("let value_{line} = compute({line});\n"))
        .collect();
    let message = format!("Here is the code:\n\n```rust\n{code}```\n\nThat is all.");

    let chunks = message_chunks(&message, 400);

    assert!(chunks.len() > 1, "the fixture has to actually split");
    for chunk in &chunks {
        assert!(
            chunk.matches("```").count() % 2 == 0,
            "a chunk must not leave a fence open: {chunk:?}"
        );
        assert!(
            chunk.chars().count() <= 400,
            "chunk over the limit: {chunk:?}"
        );
    }
    // Every line of code still arrives, and the re-opened fences carry the info string.
    for line in code.lines() {
        assert!(
            chunks.iter().any(|chunk| chunk.contains(line)),
            "lost code line {line:?}"
        );
    }
    assert!(
        chunks
            .iter()
            .skip(1)
            .any(|chunk| chunk.starts_with("```rust")),
        "a continued block has to re-open with its own info string: {chunks:?}"
    );
}

/// The plain-prose case: a boundary belongs at a line break, not in the middle of a sentence.
#[test]
fn prose_is_split_at_line_boundaries() {
    let message: String = (0..60)
        .map(|line| format!("Line number {line}.\n"))
        .collect();

    let chunks = message_chunks(&message, 200);

    assert!(chunks.len() > 1);
    for chunk in chunks.iter().take(chunks.len() - 1) {
        assert!(chunk.ends_with('\n'), "chunk cut mid-line: {chunk:?}");
    }
    assert_eq!(chunks.concat(), message, "no content added or lost");
}

/// A link cut in half stops being a link: `[label](htt` renders as literal text and the rest
/// of the URL lands in the next message.
#[test]
fn a_link_is_never_cut_in_half() {
    // The padding puts the link across the 240-character mark, so a plain count-to-the-limit
    // split lands inside its URL.
    let message = format!(
        "{}[the docs](https://example.com/a/very/long/path/to/documentation) and more text",
        "padding ".repeat(24)
    );

    let chunks = message_chunks(&message, 120);

    assert!(chunks.len() > 1);
    for chunk in &chunks {
        assert_eq!(
            chunk.matches('[').count(),
            chunk.matches(']').count(),
            "half a link in {chunk:?}"
        );
        assert!(
            !chunk.contains("](") || chunk.contains(')'),
            "a link target was cut: {chunk:?}"
        );
    }
    assert!(
        chunks.iter().any(|chunk| chunk
            .contains("[the docs](https://example.com/a/very/long/path/to/documentation)")),
        "the link has to survive whole: {chunks:?}"
    );
}

/// An inline code span is an entity too, and the same rule applies to it.
#[test]
fn an_inline_code_span_is_not_split() {
    // The span straddles the 100-character mark, which is where a count-only split would cut.
    let message = format!(
        "{}`cargo test --all-features` finishes the job",
        "word ".repeat(19)
    );

    let chunks = message_chunks(&message, 100);

    for chunk in &chunks {
        assert!(
            chunk.matches('`').count() % 2 == 0,
            "an unclosed code span in {chunk:?}"
        );
    }
}

/// The fallback: one token longer than a whole chunk still has to be delivered, not dropped or
/// looped over.
#[test]
fn an_unbroken_token_still_gets_chunked() {
    let message = "x".repeat(250);

    let chunks = message_chunks(&message, 100);

    assert_eq!(chunks.len(), 3);
    assert_eq!(chunks.concat(), message);
    assert!(chunks.iter().all(|chunk| chunk.chars().count() <= 100));
}

#[test]
fn an_empty_message_produces_no_chunks() {
    assert!(message_chunks("", 4000).is_empty());
    assert_eq!(message_chunks("short", 4000), vec!["short"]);
}

/// A line that closes a code block may carry text behind the marker, and that text is part of the
/// message.
#[test]
fn text_behind_a_closing_fence_is_kept() {
    assert_eq!(
        message_chunks("```\na\n``` tail", 4000),
        vec!["```\na\n``` tail"]
    );
    assert_eq!(
        message_chunks("```\na\n  ```\nb", 4000),
        vec!["```\na\n  ```\nb"]
    );
    // Where it does not fit, it goes into the next chunk.
    assert_eq!(
        message_chunks("```\naaaaaa\n``` tail of it\nend", 20),
        vec!["```\naaaaaa\n```", " tail of it\nend"]
    );
    // What looks like a fence line itself never starts a chunk.
    assert_eq!(
        message_chunks("```\naaaaaaaaaaaa\n``````\n", 22),
        vec!["```\naaaaaaaaaaaa\n```", "```\n``````\n"]
    );
}
