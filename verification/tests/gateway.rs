use kumo::commands::{is_reserved, reserved};
use kumo::config::{Config, ProviderConfig, TelegramConfig};
use kumo::gateway::{
    route, should_show_tool_progress, upload_prompt, user_facing_tool_name, Route,
};
use kumo::settings::{context_window_message, models_message};
use kumo::table::Table;

fn components(path: &str) -> Vec<String> {
    std::path::Path::new(path)
        .components()
        .map(|component| component.as_os_str().to_string_lossy().into_owned())
        .collect()
}

/// `read_file` refuses an absolute path, so the file just delivered has to be announced by the
/// path that the tool most likely to be reached for next will accept.
#[test]
fn an_upload_is_announced_by_a_path_read_file_will_accept() {
    let workspace = "/srv/kumo/workspace";
    let path = "/srv/kumo/workspace/uploads/abc-sales.csv";
    let prompt = upload_prompt(&components(workspace), &components(path), path, "Summarise it.");

    assert!(
        prompt.contains("`uploads/abc-sales.csv`"),
        "the workspace-relative path must be offered: {prompt}"
    );
    assert!(
        !prompt.contains("`/srv/kumo/workspace/uploads/abc-sales.csv` (relative"),
        "the relative slot must not be filled with an absolute path: {prompt}"
    );
    assert!(
        prompt.contains(path),
        "the absolute path still has to reach tools outside the workspace: {prompt}"
    );
    assert!(
        prompt.ends_with("Summarise it."),
        "the caption survives: {prompt}"
    );
}

/// Onboarding a second provider moves the flat `[provider]` block into `[providers.*]` and
/// leaves the field itself `None`: the message builders have to follow it there.
#[test]
fn listing_models_and_context_survives_a_second_provider() {
    let mut config = Config {
        telegram: TelegramConfig {
            bot_token: "123:secret".into(),
            bot_username: "bot".into(),
            owner_user_id: 42,
        },
        provider: None,
        providers: Table::new(),
        active_provider: Some("b".into()),
        tools: None,
        timezone: None,
        mcp: Table::new(),
    };
    config.providers.insert(
        "b".into(),
        ProviderConfig {
            base_url: "https://b.example.com/v1".into(),
            api_key: "k".into(),
            active_model: "model-b".into(),
            models: vec!["model-b".into()],
            context_window: None,
            context_windows: Table::new(),
        },
    );
    assert!(
        config.provider.is_none(),
        "the flat block is what onboarding empties"
    );

    assert!(models_message(&config).contains("model-b"));
    assert!(!context_window_message(&config).is_empty());
}

#[test]
fn progress_is_shown_only_for_visible_external_work() {
    assert!(should_show_tool_progress("mcptools__render_plantuml"));
    assert!(should_show_tool_progress("delegate_to_kamui"));
    assert!(should_show_tool_progress("run_command"));
    assert!(!should_show_tool_progress("read_file"));
    assert!(!should_show_tool_progress("remember"));
    assert_eq!(
        user_facing_tool_name("mcptools__render_plantuml"),
        "render plantuml"
    );
}

/// A built-in without a matching reserved entry would leave a template of that name silently
/// unreachable.
#[test]
fn builtin_commands_are_all_reserved() {
    let routed = [
        "new", "status", "sessions", "resume", "delete", "memory", "forget", "workspace", "audit",
        "jobs", "reminders", "models", "model", "providers", "provider", "context", "rtk",
        "commands",
    ];
    let mut builtins = 0;
    for name in routed {
        let bare = route(&format!("/{name}"));
        let with_argument = route(&format!("/{name} x"));
        assert!(
            !matches!(bare, Route::Template) || !matches!(with_argument, Route::Template),
            "/{name} is not routed as a built-in"
        );
        assert!(
            is_reserved(name),
            "/{name} is routed as a built-in but not reserved, so a {name}.md template would be \
             silently unreachable"
        );
        builtins += 1;
    }
    assert!(builtins > 10);
    assert_eq!(reserved().len() >= builtins, true);
}
