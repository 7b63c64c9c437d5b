use kumo::commands::{expand, invocation, is_reserved, list, reserved, TemplateFile};

fn file(directory: &str, name: &str, content: &str) -> TemplateFile {
    TemplateFile {
        file_name: name.to_owned(),
        path: format!("{directory}/{name}"),
        content: content.to_owned(),
    }
}

#[test]
fn local_template_expands_arguments_and_frontmatter() {
    let workspace = vec![file(
        "/work/.kumo/commands",
        "review.md",
        "---\ndescription: Review a target\n---\nReview {{args}} carefully.",
    )];
    let global = Vec::new();

    let expanded = expand("/review src/main.rs", &global, &workspace).unwrap();
    assert_eq!(expanded, "Review src/main.rs carefully.");
    let listed = list(&global, &workspace);
    let review = listed
        .templates
        .iter()
        .find(|item| item.name == "review")
        .unwrap();
    assert_eq!(review.description.as_deref(), Some("Review a target"));
    assert!(listed.shadowed.is_empty());
}

#[test]
fn rejects_path_like_command_names() {
    assert!(invocation("/../../secret").is_none());
    assert!(invocation("normal text").is_none());
}

/// A template named after a built-in can never be reached — `/status` is answered by the
/// built-in block long before template expansion runs. It must therefore come back as a named
/// collision, not as a loaded command that quietly never runs.
#[test]
fn a_template_named_after_a_builtin_is_reported_not_loaded() {
    let directory = "/work/.kumo/commands";
    let workspace = vec![
        file(directory, "status.md", "Summarise the host status."),
        file(directory, "standup.md", "Write a standup note."),
    ];
    let global = Vec::new();
    let listed = list(&global, &workspace);

    assert!(
        !listed.templates.iter().any(|item| item.name == "status"),
        "a shadowed template must not be offered as if it worked"
    );
    assert!(listed.templates.iter().any(|item| item.name == "standup"));
    let shadowed = listed
        .shadowed
        .iter()
        .find(|item| item.name == "status")
        .expect("the collision has to be reported");
    assert!(shadowed.path.ends_with("status.md"), "{:?}", shadowed.path);
    // Expansion agrees with the listing: the file is not silently preferred either.
    assert!(expand("/status", &global, &workspace).is_none());
}

/// The collision is about the *name*, not the directory: a global template is refused for the
/// same reason a workspace one is.
#[test]
fn a_global_template_named_after_a_builtin_is_reported_too() {
    let global = vec![file("/home/commands", "jobs.md", "List my jobs.")];

    let listed = list(&global, &Vec::new());

    assert!(listed.templates.is_empty());
    assert_eq!(listed.shadowed.len(), 1);
    assert_eq!(listed.shadowed[0].name, "jobs");
}

#[test]
fn reserved_names_are_sorted_and_unique() {
    let mut sorted = reserved();
    sorted.sort_unstable();
    sorted.dedup();
    assert_eq!(
        sorted,
        reserved(),
        "keep the reserved names sorted and free of duplicates"
    );
    assert!(is_reserved("status"));
    assert!(!is_reserved("standup"));
}
