use std::collections::BTreeMap;

use kumo::config::{
    Config, McpServerConfig, ProviderConfig, TelegramConfig,
};
use kumo::provider::ModelInfo;
use kumo::table::Table;

fn table(windows: BTreeMap<String, u64>) -> Table<u64> {
    let mut table = Table::new();
    for (name, window) in windows {
        table.insert(name, window);
    }
    table
}

/// A configuration with nothing in it but the pairing.
fn telegram_only() -> Config {
    Config {
        telegram: TelegramConfig {
            bot_token: "123:secret".into(),
            bot_username: "bot".into(),
            owner_user_id: 42,
        },
        provider: None,
        providers: Table::new(),
        active_provider: None,
        tools: None,
        timezone: None,
        mcp: Table::new(),
    }
}

fn at(host: &str, model: &str) -> ProviderConfig {
    ProviderConfig {
        base_url: format!("https://{host}.example.com/v1"),
        api_key: "k".into(),
        active_model: model.into(),
        models: vec![model.into()],
        context_window: None,
        context_windows: Table::new(),
    }
}

fn provider(active: &str, windows: BTreeMap<String, u64>) -> ProviderConfig {
    ProviderConfig {
        base_url: "https://api.example.com/v1".into(),
        api_key: "secret".into(),
        active_model: active.into(),
        models: windows.keys().cloned().collect(),
        context_window: None,
        context_windows: table(windows),
    }
}

#[test]
fn the_active_window_follows_the_active_model() {
    let config = provider(
        "small",
        BTreeMap::from([("small".into(), 8_000), ("large".into(), 200_000)]),
    );

    assert_eq!(config.active_context_window(), Some(8_000));

    let switched = provider(
        "large",
        BTreeMap::from([("small".into(), 8_000), ("large".into(), 200_000)]),
    );

    assert_eq!(switched.active_context_window(), Some(200_000));
}

#[test]
fn a_hand_set_window_covers_a_model_the_provider_says_nothing_about() {
    let mut config = provider("unreported", BTreeMap::new());
    config.context_window = Some(32_000);

    assert_eq!(config.active_context_window(), Some(32_000));
}

#[test]
fn a_refreshed_listing_replaces_the_cached_models_and_windows() {
    let mut config = provider("model-a", BTreeMap::from([("model-a".into(), 8_000)]));

    let still_available = config.apply_model_listing(vec![
        ModelInfo {
            id: "model-a".into(),
            context_window: Some(128_000),
        },
        ModelInfo {
            id: "model-c".into(),
            context_window: None,
        },
    ]);

    assert!(still_available);
    assert_eq!(config.models, vec!["model-a", "model-c"]);
    assert_eq!(config.active_context_window(), Some(128_000));
    // A model the provider reports no window for must not inherit a stale one.
    assert!(!config.context_windows.contains("model-c"));
}

#[test]
fn a_refresh_reports_an_active_model_the_provider_dropped() {
    let mut config = provider("retired", BTreeMap::from([("retired".into(), 8_000)]));

    let still_available = config.apply_model_listing(vec![ModelInfo {
        id: "model-a".into(),
        context_window: Some(128_000),
    }]);

    assert!(!still_available);
    // The selection is left alone: replacing it is the owner's call, not a silent swap.
    assert_eq!(config.active_model, "retired");
    assert_eq!(config.active_context_window(), None);
}

#[test]
fn a_named_provider_wins_over_the_flat_one() {
    let mut config = telegram_only();
    config.provider = Some(at("old", "old"));
    config.providers.insert("new".into(), at("new", "new"));

    assert_eq!(config.provider().unwrap().active_model, "new");
    assert_eq!(config.active_provider_name().as_deref(), Some("new"));
}

#[test]
fn active_provider_selects_between_named_ones() {
    let mut config = telegram_only();
    config.active_provider = Some("b".into());
    config.providers.insert("a".into(), at("a", "model-a"));
    config.providers.insert("b".into(), at("b", "model-b"));

    assert_eq!(config.provider().unwrap().active_model, "model-b");
}

#[test]
fn a_stale_active_provider_still_resolves_to_something() {
    let mut config = telegram_only();
    config.active_provider = Some("renamed-away".into());
    config.providers.insert("a".into(), at("a", "model-a"));

    // A hand-edited name that no longer exists must not leave the gateway provider-less.
    assert_eq!(config.provider().unwrap().active_model, "model-a");
    assert!(config.provider_mut().is_some());
}

#[test]
fn a_config_with_no_providers_at_all_reports_it() {
    let config = telegram_only();

    assert!(config.provider().is_err());
    assert!(config.active_provider_name().is_none());
}

#[test]
fn trusts_named_tools_without_trusting_the_whole_server() {
    let mut decoded = telegram_only();
    decoded.mcp.insert(
        "tools".into(),
        McpServerConfig {
            command: "server".into(),
            args: Vec::new(),
            trusted: false,
            trusted_tools: vec!["get_price".into()],
        },
    );

    let server = decoded.mcp.get("tools").unwrap();
    assert!(!server.trusted);
    assert!(server.trusts("get_price"));
    assert!(!server.trusts("send_email"));
}

#[test]
fn a_trusted_server_trusts_every_tool() {
    let server = McpServerConfig {
        command: "server".into(),
        args: Vec::new(),
        trusted: true,
        trusted_tools: Vec::new(),
    };

    assert!(server.trusts("send_email"));
}

#[test]
fn loads_legacy_telegram_only_config() {
    let decoded = telegram_only();

    assert!(decoded.provider.is_none());
    assert!(decoded.tools.is_none());
    assert!(decoded.mcp.len() == 0);
    assert!(decoded.timezone.is_none());
    assert_eq!(decoded.timezone(), "UTC");
}

#[test]
fn timezone_resolves_a_configured_iana_name() {
    let mut decoded = telegram_only();
    decoded.timezone = Some("Asia/Jakarta".into());

    assert_eq!(decoded.timezone(), "Asia/Jakarta");
}
