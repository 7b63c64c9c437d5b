//! The commands that show and change the configuration: models, providers, the context window and
//! command compression.
use vstd::prelude::*;
use vstd::string::*;

use crate::config::{edited, model_ids, reported_windows, Config, ProviderConfig, ToolsConfig};
use crate::provider::ModelInfo;
use crate::text::{
    all_digits, byte_len, contains, decimal, decimal_u64, decimal_usize, ends_in, in_turn, is_digit,
    law_decimals_read_back, law_lower_case_changes_capitals_alone, lemma_ends_in, lemma_in_turn,
    lemma_in_turn_contains, lemma_in_turn_push, lemma_in_turn_within, lemma_one, lemma_starts,
    lemma_two, lower, lowered, occurs_at, opt_view, parse_nat, parse_u64, same, texts, to_chars,
    utf8_len,
};

verus! {

/// What becomes of a request to change the configuration.
#[derive(Debug)]
pub enum Edit {
    /// Nothing changes, and this is the answer.
    Rejected(String),
    /// The configuration has changed and is to be saved; the answer depends on whether that works.
    Changed { saved: String, unsaved: String },
}

#[verifier::ext_equal]
pub enum EditView {
    Rejected(Seq<char>),
    Changed { saved: Seq<char>, unsaved: Seq<char> },
}

impl View for Edit {
    type V = EditView;

    open spec fn view(&self) -> EditView {
        match self {
            Edit::Rejected(text) => EditView::Rejected(text@),
            Edit::Changed { saved, unsaved } => EditView::Changed {
                saved: saved@,
                unsaved: unsaved@,
            },
        }
    }
}

/// What is told of a request to change the configuration.
pub open spec fn reply_of(edit: EditView, was_saved: bool) -> Seq<char> {
    match edit {
        EditView::Rejected(text) => text,
        EditView::Changed { saved, unsaved } => if was_saved {
            saved
        } else {
            unsaved
        },
    }
}

/// The answer to a request to change the configuration, once saving it has been tried.
pub fn edit_reply(edit: Edit, was_saved: bool) -> (r: String)
    ensures
        r@ == reply_of(edit@, was_saved),
{
    match edit {
        Edit::Rejected(text) => text,
        Edit::Changed { saved, unsaved } => if was_saved {
            saved
        } else {
            unsaved
        },
    }
}

pub open spec fn rtk_value(value: Seq<char>) -> Option<bool> {
    if lower(value) == "on"@ {
        Some(true)
    } else if lower(value) == "off"@ {
        Some(false)
    } else {
        None
    }
}

/// What turning command compression on or off amounts to.
pub open spec fn rtk_edit(config: Config, value: Seq<char>) -> EditView {
    match rtk_value(value) {
        None => EditView::Rejected("Usage: /rtk on or /rtk off."@),
        Some(enabled) => if config.tools is None {
            EditView::Rejected("Tools are not configured."@)
        } else {
            EditView::Changed {
                saved: if enabled {
                    "RTK command compression enabled."@
                } else {
                    "RTK command compression disabled."@
                },
                unsaved: "RTK setting changed for this run, but Kumo could not save it."@,
            }
        },
    }
}

/// Turns command compression on or off.
pub fn set_rtk(config: &mut Config, value: &str) -> (r: Edit)
    ensures
        r@ == rtk_edit(*old(config), value@),
        match r@ {
            EditView::Rejected(_) => *final(config) == *old(config),
            EditView::Changed { .. } => *final(config) == (Config {
                tools: Some(
                    ToolsConfig { rtk: rtk_value(value@)->0, ..old(config).tools->0 },
                ),
                ..*old(config)
            }),
        },
{
    let word = lowered(value);
    let enabled = if same(word.as_str(), "on") {
        true
    } else if same(word.as_str(), "off") {
        proof {
            reveal_strlit("on");
            reveal_strlit("off");
            assert("on"@.len() != "off"@.len());
        }
        false
    } else {
        return Edit::Rejected("Usage: /rtk on or /rtk off.".to_owned());
    };
    match &mut config.tools {
        Some(tools) => {
            tools.rtk = enabled;
        },
        None => {
            return Edit::Rejected("Tools are not configured.".to_owned());
        },
    }
    Edit::Changed {
        saved: (if enabled {
            "RTK command compression enabled."
        } else {
            "RTK command compression disabled."
        }).to_owned(),
        unsaved: "RTK setting changed for this run, but Kumo could not save it.".to_owned(),
    }
}

/// The state of command compression.
pub fn rtk_message(enabled: bool) -> (r: String)
    ensures
        r@ == (if enabled {
            "RTK command compression: on. Use /rtk on or /rtk off."@
        } else {
            "RTK command compression: off. Use /rtk on or /rtk off."@
        }),
{
    (if enabled {
        "RTK command compression: on. Use /rtk on or /rtk off."
    } else {
        "RTK command compression: off. Use /rtk on or /rtk off."
    }).to_owned()
}

/// The model in use, as it is shown.
pub open spec fn model_text(model: Seq<char>) -> Seq<char> {
    "Current model: "@ + model + "\n\nUse /models to list models or /model <id> to switch."@
}

/// The model in use.
pub fn model_message(model: &str) -> (r: String)
    ensures
        r@ == model_text(model@),
{
    let mut r = "Current model: ".to_owned();
    r.push_str(model);
    r.push_str("\n\nUse /models to list models or /model <id> to switch.");
    r
}

/// What no provider being configured is answered.
pub const NOT_CONFIGURED: &'static str = "model provider is not configured; run `kumo onboard`";

pub open spec fn model_line(provider: ProviderConfig, model: Seq<char>) -> Seq<char> {
    if provider.context_windows@.contains_key(model) {
        "\n"@ + model + " ("@ + decimal(provider.context_windows@[model] as nat) + " tokens)"@
    } else {
        "\n"@ + model
    }
}

/// The models from `from` on, as far as they fit behind `message`.
pub open spec fn model_lines(
    provider: ProviderConfig,
    models: Seq<Seq<char>>,
    from: int,
    message: Seq<char>,
) -> Seq<char>
    decreases models.len() - from,
{
    if from < 0 || from >= models.len() {
        message
    } else {
        let line = model_line(provider, models[from]);
        if utf8_len(message) + utf8_len(line) > 3800 {
            message + "\n\nList truncated."@
        } else {
            model_lines(provider, models, from + 1, message + line)
        }
    }
}

pub open spec fn models_text(config: Config) -> Seq<char> {
    match config.active() {
        None => NOT_CONFIGURED@,
        Some(provider) => model_lines(
            provider,
            texts(provider.models@),
            0,
            "Available models (current: "@ + provider.active_model@ + "):\n"@,
        ) + "\n\nSwitch with /model <id>, or re-read the list with /models refresh."@,
    }
}

/// The models that the provider in use offers.
pub fn models_message(config: &Config) -> (r: String)
    requires
        config.wf(),
    ensures
        r@ == models_text(*config),
{
    let provider = match config.provider() {
        Ok(provider) => provider,
        Err(error) => {
            return error;
        },
    };
    let ghost models = texts(provider.models@);
    let mut message = "Available models (current: ".to_owned();
    message.push_str(provider.active_model.as_str());
    message.push_str("):\n");
    let ghost start = message@;
    let mut i: usize = 0;
    let mut truncated = false;
    while i < provider.models.len() && !truncated
        invariant
            i <= provider.models@.len(),
            provider.wf(),
            models == texts(provider.models@),
            model_lines(*provider, models, 0, start) == (if truncated {
                message@
            } else {
                model_lines(*provider, models, i as int, message@)
            }),
        decreases
            (if truncated {
                0
            } else {
                provider.models@.len() - i + 1
            }),
    {
        let model = provider.models[i].as_str();
        let mut line = "\n".to_owned();
        line.push_str(model);
        if let Some(window) = provider.context_windows.get(model) {
            line.push_str(" (");
            line.push_str(decimal_u64(*window).as_str());
            line.push_str(" tokens)");
        }
        assert(line@ =~= model_line(*provider, models[i as int]));
        let length = byte_len(message.as_str());
        if length > 3800 || byte_len(line.as_str()) > 3800 - length {
            message.push_str("\n\nList truncated.");
            truncated = true;
        } else {
            message.push_str(line.as_str());
            i = i + 1;
        }
    }
    message.push_str("\n\nSwitch with /model <id>, or re-read the list with /models refresh.");
    message
}

pub open spec fn provider_lines(config: Config, n: int) -> Seq<char>
    decreases n,
{
    if n <= 0 {
        "Configured providers:\n"@
    } else {
        let name = config.providers.names()[n - 1];
        provider_lines(config, n - 1) + "\n"@ + name + (if config.active_name() == Some(name) {
            " (active)"@
        } else {
            seq![]
        }) + " — "@ + config.providers@[name].active_model@
    }
}

pub const ONE_PROVIDER: &'static str = "One provider is configured, without a name.\n\nRun `kumo onboard` on the host to add a second one: Kumo keeps this one under a name of its own, and /provider switches between them from here.";

pub open spec fn providers_text(config: Config) -> Seq<char> {
    if config.providers.names().len() == 0 {
        ONE_PROVIDER@
    } else {
        provider_lines(config, config.providers.names().len() as int)
            + "\n\nSwitch with /provider <name>."@
    }
}

/// The configured providers.
pub fn providers_message(config: &Config) -> (r: String)
    requires
        config.wf(),
    ensures
        r@ == providers_text(*config),
{
    if config.providers.len() == 0 {
        return ONE_PROVIDER.to_owned();
    }
    let active = config.active_provider_name();
    let mut message = "Configured providers:\n".to_owned();
    let mut i: usize = 0;
    while i < config.providers.len()
        invariant
            i <= config.providers.names().len(),
            config.wf(),
            opt_view(active) == config.active_name(),
            message@ == provider_lines(*config, i as int),
        decreases config.providers.names().len() - i,
    {
        let ghost before = message@;
        let name = config.providers.name_at(i);
        message.push_str("\n");
        message.push_str(name.as_str());
        if let Some(active) = &active {
            if same(active.as_str(), name.as_str()) {
                message.push_str(" (active)");
            }
        }
        message.push_str(" — ");
        message.push_str(config.providers.value_at(i).active_model.as_str());
        i = i + 1;
        assert(message@ =~= provider_lines(*config, i as int));
    }
    message.push_str("\n\nSwitch with /provider <name>.");
    message
}

pub open spec fn provider_switch(config: Config, name: Seq<char>) -> EditView {
    if config.providers.names().len() == 0 {
        EditView::Rejected(
            "Only one provider is configured, so there is nothing to switch to."@,
        )
    } else if !config.providers@.contains_key(name) {
        EditView::Rejected(
            "Unknown provider: "@ + name + "\n\nUse /providers to see the configured ones."@,
        )
    } else {
        EditView::Changed {
            saved: "Switched to "@ + name + " ("@ + config.providers@[name].active_model@ + ")."@,
            unsaved: "Switched to "@ + name
                + " for this run, but Kumo could not save the selection."@,
        }
    }
}

/// Switches to another of the configured providers: the model, the credentials, and the context
/// budget go together.
pub fn switch_provider(config: &mut Config, name: &str) -> (r: Edit)
    requires
        old(config).wf(),
    ensures
        final(config).wf(),
        r@ == provider_switch(*old(config), name@),
        match r@ {
            EditView::Rejected(_) => *final(config) == *old(config),
            EditView::Changed { .. } => {
                &&& *final(config) == (Config {
                    active_provider: final(config).active_provider,
                    ..*old(config)
                })
                &&& final(config).active_name() == Some(name@)
                &&& final(config).active() == Some(old(config).providers@[name@])
            },
        },
{
    if config.providers.len() == 0 {
        return Edit::Rejected(
            "Only one provider is configured, so there is nothing to switch to.".to_owned(),
        );
    }
    let model = match config.providers.get(name) {
        Some(provider) => provider.active_model.clone(),
        None => {
            let mut text = "Unknown provider: ".to_owned();
            text.push_str(name);
            text.push_str("\n\nUse /providers to see the configured ones.");
            return Edit::Rejected(text);
        },
    };
    config.active_provider = Some(name.to_owned());
    let mut saved = "Switched to ".to_owned();
    saved.push_str(name);
    saved.push_str(" (");
    saved.push_str(model.as_str());
    saved.push_str(").");
    let mut unsaved = "Switched to ".to_owned();
    unsaved.push_str(name);
    unsaved.push_str(" for this run, but Kumo could not save the selection.");
    Edit::Changed { saved, unsaved }
}

pub open spec fn context_text(config: Config) -> Seq<char> {
    match config.active() {
        None => NOT_CONFIGURED@,
        Some(provider) => match provider.window() {
            Some(window) => "Context window for "@ + provider.active_model@ + ": "@ + decimal(
                window as nat,
            ) + " tokens ("@ + (if provider.context_windows@.contains_key(provider.active_model@) {
                "reported by the provider"@
            } else {
                "set with /context"@
            })
                + ").\n\nHistory is compacted once it passes about half of that. Change it with /context <tokens>."@,
            None => "This provider reports no context window for "@ + provider.active_model@
                + ", so Kumo compacts history using its conservative default.\n\nSet the real one with /context <tokens>."@,
        },
    }
}

/// The context window that compaction goes by.
pub fn context_window_message(config: &Config) -> (r: String)
    requires
        config.wf(),
    ensures
        r@ == context_text(*config),
{
    let provider = match config.provider() {
        Ok(provider) => provider,
        Err(error) => {
            return error;
        },
    };
    match provider.active_context_window() {
        Some(window) => {
            let mut r = "Context window for ".to_owned();
            r.push_str(provider.active_model.as_str());
            r.push_str(": ");
            r.push_str(decimal_u64(window).as_str());
            r.push_str(" tokens (");
            r.push_str(
                if provider.context_windows.contains(provider.active_model.as_str()) {
                    "reported by the provider"
                } else {
                    "set with /context"
                },
            );
            r.push_str(
                ").\n\nHistory is compacted once it passes about half of that. Change it with /context <tokens>.",
            );
            r
        },
        None => {
            let mut r = "This provider reports no context window for ".to_owned();
            r.push_str(provider.active_model.as_str());
            r.push_str(
                ", so Kumo compacts history using its conservative default.\n\nSet the real one with /context <tokens>.",
            );
            r
        },
    }
}

/// A text without the separators that people write into numbers.
pub open spec fn without_separators(s: Seq<char>) -> Seq<char>
    decreases s.len(),
{
    if s.len() == 0 {
        s
    } else {
        let rest = without_separators(s.drop_last());
        if s.last() == ',' || s.last() == '_' {
            rest
        } else {
            rest.push(s.last())
        }
    }
}

/// The number of tokens that a text gives.
pub open spec fn token_count(text: Seq<char>) -> Option<u64> {
    match parse_nat(without_separators(text)) {
        Some(n) => if n <= u64::MAX {
            Some(n as u64)
        } else {
            None
        },
        None => None,
    }
}

pub open spec fn context_edit(config: Config, text: Seq<char>) -> EditView {
    match token_count(text) {
        None => EditView::Rejected(
            "Not a number of tokens: "@ + text
                + "\n\nUse /context <tokens>, e.g. /context 128000."@,
        ),
        Some(window) => if window < 4000 {
            EditView::Rejected(
                "A context window under 4000 tokens would leave no room for a conversation."@,
            )
        } else if config.active() is None {
            EditView::Rejected("Model provider is not configured."@)
        } else {
            EditView::Changed {
                saved: "Context window set to "@ + decimal(window as nat) + " tokens."@,
                unsaved: "Context window changed for this run, but Kumo could not save it."@,
            }
        },
    }
}

/// Whether `later` is `earlier` with a context window set by hand, which then holds for the model
/// in use whatever the provider reported.
pub open spec fn window_set(earlier: ProviderConfig, later: ProviderConfig, window: u64) -> bool {
    &&& later.wf()
    &&& later.context_window == Some(window)
    &&& later.context_windows@ == earlier.context_windows@.remove(earlier.active_model@)
    &&& later.base_url == earlier.base_url
    &&& later.api_key == earlier.api_key
    &&& later.active_model == earlier.active_model
    &&& later.models == earlier.models
}

fn read_tokens(text: &str) -> (r: Option<u64>)
    ensures
        r == token_count(text@),
{
    let chars = to_chars(text);
    let mut digits = String::new();
    let mut i: usize = 0;
    assert(digits@ =~= without_separators(text@.take(0)));
    while i < chars.len()
        invariant
            chars@ == text@,
            i <= chars@.len(),
            digits@ == without_separators(text@.take(i as int)),
        decreases chars@.len() - i,
    {
        assert(text@.take(i + 1).drop_last() =~= text@.take(i as int));
        if chars[i] != ',' && chars[i] != '_' {
            digits.push(chars[i]);
        }
        i = i + 1;
    }
    assert(text@.take(i as int) =~= text@);
    parse_u64(digits.as_str())
}

/// Sets the context window of the provider in use.
pub fn set_context_window(config: &mut Config, tokens: &str) -> (r: Edit)
    requires
        old(config).wf(),
    ensures
        final(config).wf(),
        r@ == context_edit(*old(config), tokens@),
        match r@ {
            EditView::Rejected(_) => *final(config) == *old(config),
            EditView::Changed { .. } => {
                let provider = final(config).active()->0;
                &&& final(config).active() is Some
                &&& edited(*old(config), *final(config), provider)
                &&& window_set(old(config).active()->0, provider, token_count(tokens@)->0)
                &&& provider.window() == token_count(tokens@)
            },
        },
{
    let window: u64 = match read_tokens(tokens) {
        Some(window) => window,
        None => {
            let mut text = "Not a number of tokens: ".to_owned();
            text.push_str(tokens);
            text.push_str("\n\nUse /context <tokens>, e.g. /context 128000.");
            return Edit::Rejected(text);
        },
    };
    if window < 4000 {
        return Edit::Rejected(
            "A context window under 4000 tokens would leave no room for a conversation.".to_owned(),
        );
    }
    let ghost earlier = *config;
    let ghost mut changed: Option<ProviderConfig> = None;
    match config.provider_mut() {
        Some(provider) => {
            let model = provider.active_model.clone();
            provider.context_window = Some(window);
            provider.context_windows.remove(model.as_str());
            proof {
                changed = Some(*provider);
            }
        },
        None => {
            return Edit::Rejected("Model provider is not configured.".to_owned());
        },
    }
    proof {
        crate::config::law_edits_reach_the_active_provider(earlier, *config, changed->0);
    }
    let mut saved = "Context window set to ".to_owned();
    saved.push_str(decimal_u64(window).as_str());
    saved.push_str(" tokens.");
    Edit::Changed {
        saved,
        unsaved: "Context window changed for this run, but Kumo could not save it.".to_owned(),
    }
}

pub open spec fn model_switch(config: Config, model: Seq<char>) -> EditView {
    match config.active() {
        None => EditView::Rejected("Model provider is not configured."@),
        Some(provider) => if !texts(provider.models@).contains(model) {
            EditView::Rejected(
                "Unknown model: "@ + model
                    + "\n\nUse /models to see available models, or /models refresh if the list is out of date."@,
            )
        } else {
            EditView::Changed {
                saved: "Switched to "@ + model + "."@,
                unsaved: "Model changed for this run, but Kumo could not save the selection."@,
            }
        },
    }
}

/// Whether `later` is `earlier` with another model selected.
pub open spec fn model_set(earlier: ProviderConfig, later: ProviderConfig, model: Seq<char>) -> bool {
    &&& later.active_model@ == model
    &&& later.base_url == earlier.base_url
    &&& later.api_key == earlier.api_key
    &&& later.models == earlier.models
    &&& later.context_window == earlier.context_window
    &&& later.context_windows == earlier.context_windows
}

fn offers(models: &Vec<String>, model: &str) -> (r: bool)
    ensures
        r == texts(models@).contains(model@),
{
    let ghost all = texts(models@);
    let mut i: usize = 0;
    while i < models.len()
        invariant
            i <= models@.len(),
            all == texts(models@),
            forall|k: int| 0 <= k < i ==> #[trigger] all[k] != model@,
        decreases models@.len() - i,
    {
        if same(models[i].as_str(), model) {
            assert(all[i as int] == model@);
            return true;
        }
        i = i + 1;
    }
    false
}

/// Selects another model of the provider in use.
pub fn switch_model(config: &mut Config, model: &str) -> (r: Edit)
    requires
        old(config).wf(),
    ensures
        final(config).wf(),
        r@ == model_switch(*old(config), model@),
        match r@ {
            EditView::Rejected(_) => *final(config) == *old(config),
            EditView::Changed { .. } => {
                let provider = final(config).active()->0;
                &&& final(config).active() is Some
                &&& edited(*old(config), *final(config), provider)
                &&& model_set(old(config).active()->0, provider, model@)
            },
        },
{
    let ghost earlier = *config;
    match config.provider() {
        Ok(provider) => {
            if !offers(&provider.models, model) {
                let mut text = "Unknown model: ".to_owned();
                text.push_str(model);
                text.push_str(
                    "\n\nUse /models to see available models, or /models refresh if the list is out of date.",
                );
                return Edit::Rejected(text);
            }
        },
        Err(_) => {
            return Edit::Rejected("Model provider is not configured.".to_owned());
        },
    }
    let ghost mut changed: Option<ProviderConfig> = None;
    if let Some(provider) = config.provider_mut() {
        provider.active_model = model.to_owned();
        proof {
            changed = Some(*provider);
        }
    }
    proof {
        crate::config::law_edits_reach_the_active_provider(earlier, *config, changed->0);
    }
    let mut saved = "Switched to ".to_owned();
    saved.push_str(model);
    saved.push_str(".");
    Edit::Changed {
        saved,
        unsaved: "Model changed for this run, but Kumo could not save the selection.".to_owned(),
    }
}

/// What re-reading the provider's models amounts to.
pub open spec fn refreshed_text(provider: ProviderConfig, count: nat, offered: bool) -> Seq<char> {
    "Refreshed: "@ + decimal(count) + " model(s) available."@ + (if offered {
        seq![]
    } else {
        "\n\nThe active model ("@ + provider.active_model@
            + ") is no longer offered by this provider. Switch with /model <id>."@
    }) + (match provider.window() {
        Some(window) => "\n\nContext window: "@ + decimal(window as nat) + " tokens ("@
            + provider.active_model@ + ")."@,
        None => "\n\nThis provider reports no context window, so compaction keeps using Kumo's default."@,
    })
}

/// Whether `later` is `earlier` with what the provider now lists.
pub open spec fn relisted(
    earlier: ProviderConfig,
    later: ProviderConfig,
    listing: Seq<ModelInfo>,
) -> bool {
    &&& later.wf()
    &&& texts(later.models@) == model_ids(listing)
    &&& later.context_windows@ == reported_windows(listing)
    &&& later.active_model == earlier.active_model
    &&& later.base_url == earlier.base_url
    &&& later.api_key == earlier.api_key
    &&& later.context_window == earlier.context_window
}

/// Takes over what the provider in use now lists.
pub fn refresh_models(config: &mut Config, listing: Vec<ModelInfo>) -> (r: Edit)
    requires
        old(config).wf(),
    ensures
        final(config).wf(),
        match r@ {
            EditView::Rejected(text) => text == "Model provider is not configured."@ && old(
                config,
            ).active() is None && *final(config) == *old(config),
            EditView::Changed { saved, unsaved } => {
                let provider = final(config).active()->0;
                let text = refreshed_text(
                    provider,
                    listing@.len(),
                    model_ids(listing@).contains(provider.active_model@),
                );
                &&& final(config).active() is Some
                &&& edited(*old(config), *final(config), provider)
                &&& relisted(old(config).active()->0, provider, listing@)
                &&& saved == text
                &&& unsaved == text
                    + "\n\nThe list is updated for this run, but Kumo could not save it."@
            },
        },
{
    let ghost earlier = *config;
    let ghost mut changed: Option<ProviderConfig> = None;
    let count = listing.len();
    let ghost listed = listing@;
    let mut saved = "Refreshed: ".to_owned();
    saved.push_str(decimal_usize(count).as_str());
    saved.push_str(" model(s) available.");
    match config.provider_mut() {
        Some(provider) => {
            let offered = provider.apply_model_listing(listing);
            if !offered {
                saved.push_str("\n\nThe active model (");
                saved.push_str(provider.active_model.as_str());
                saved.push_str(
                    ") is no longer offered by this provider. Switch with /model <id>.",
                );
            }
            match provider.active_context_window() {
                Some(window) => {
                    saved.push_str("\n\nContext window: ");
                    saved.push_str(decimal_u64(window).as_str());
                    saved.push_str(" tokens (");
                    saved.push_str(provider.active_model.as_str());
                    saved.push_str(").");
                },
                None => {
                    saved.push_str(
                        "\n\nThis provider reports no context window, so compaction keeps using Kumo's default.",
                    );
                },
            }
            proof {
                changed = Some(*provider);
                assert(saved@ =~= refreshed_text(
                    *provider,
                    listed.len(),
                    model_ids(listed).contains(provider.active_model@),
                ));
            }
        },
        None => {
            return Edit::Rejected("Model provider is not configured.".to_owned());
        },
    }
    proof {
        crate::config::law_edits_reach_the_active_provider(earlier, *config, changed->0);
    }
    let mut unsaved = saved.clone();
    unsaved.push_str("\n\nThe list is updated for this run, but Kumo could not save it.");
    Edit::Changed { saved, unsaved }
}

/// A context window that the owner types in wins over what the provider reports for the model in
/// use.
pub proof fn law_a_typed_window_wins(earlier: ProviderConfig, later: ProviderConfig, window: u64)
    requires
        window_set(earlier, later, window),
    ensures
        later.window() == Some(window),
{
}

/// Whether a setting was changed is told as it turned out: a change that could be saved is told
/// otherwise than one that could not, and a refusal is told as it is.
pub proof fn law_edits_are_told_as_they_turned_out(
    text: Seq<char>,
    saved: Seq<char>,
    unsaved: Seq<char>,
    was_saved: bool,
)
    ensures
        reply_of(EditView::Rejected(text), was_saved) == text,
        reply_of((EditView::Changed { saved, unsaved }), true) == saved,
        reply_of((EditView::Changed { saved, unsaved }), false) == unsaved,
{
}

/// Compression is switched by the words for on and off, in capitals or not, and by nothing else; and
/// only where there are tools to compress for.
pub proof fn law_compression_is_switched_by_two_words(config: Config, value: Seq<char>)
    ensures
        rtk_value("on"@) == Some(true),
        rtk_value("off"@) == Some(false),
        rtk_value(lower(value)) == rtk_value(value),
        rtk_value(value) is Some ==> value.len() == 2 || value.len() == 3,
        rtk_edit(config, value) is Changed <==> rtk_value(value) is Some && config.tools is Some,
{
    reveal_strlit("on");
    reveal_strlit("off");
    assert(lower("on"@) =~= "on"@);
    assert(lower("off"@) =~= "off"@);
    assert("on"@.len() != "off"@.len());
    if value.len() > 0 {
        law_lower_case_changes_capitals_alone(value, 0);
    } else {
        assert(lower(lower(value)) =~= lower(value));
    }
    assert(lower(value).len() == value.len());
}

/// A listing of models names them in their order behind what stands there already, each with its
/// window where one is known; only one that would be too long stops short, and says so.
pub proof fn law_models_are_listed_or_cut_short(
    provider: ProviderConfig,
    models: Seq<Seq<char>>,
    from: int,
    message: Seq<char>,
)
    requires
        0 <= from <= models.len(),
    ensures
        ({
            let all = model_lines(provider, models, from, message);
            &&& occurs_at(all, message, 0)
            &&& ends_in(all, "\n\nList truncated."@) || in_turn(
                all.skip(message.len() as int),
                models.skip(from),
            )
        }),
    decreases models.len() - from,
{
    let all = model_lines(provider, models, from, message);
    let empty: Seq<char> = seq![];
    if from >= models.len() {
        assert(message.subrange(0, message.len() as int) =~= message);
        assert(models.skip(from) =~= seq![]);
    } else {
        let line = model_line(provider, models[from]);
        if utf8_len(message) + utf8_len(line) > 3800 {
            lemma_starts(message, "\n\nList truncated."@);
            lemma_ends_in(message, "\n\nList truncated."@);
        } else {
            law_models_are_listed_or_cut_short(provider, models, from + 1, message + line);
            let longer = message + line;
            let tail = all.skip(longer.len() as int);
            assert(all =~= longer + tail) by {
                assert(all.subrange(0, longer.len() as int) =~= all.take(longer.len() as int));
            }
            lemma_starts(message, line + tail);
            assert(all =~= message + (line + tail));
            if !ends_in(all, "\n\nList truncated."@) {
                let rest = line.skip(1 + models[from].len() as int);
                let start: Seq<char> = seq!['\n'];
                reveal_strlit("\n");
                assert("\n"@ =~= start);
                assert(line =~= start + models[from] + rest);
                lemma_in_turn_within(rest, tail, empty, models.skip(from + 1));
                assert(rest + tail + empty =~= rest + tail);
                lemma_in_turn(start, models[from], rest + tail, models.skip(from + 1));
                assert(start + models[from] + (rest + tail) =~= all.skip(message.len() as int));
                assert(seq![models[from]] + models.skip(from + 1) =~= models.skip(from));
            }
        }
    }
}

/// The models are listed under the one in use.
pub proof fn law_the_model_in_use_is_named(config: Config, provider: ProviderConfig)
    requires
        config.active() == Some(provider),
    ensures
        contains(models_text(config), provider.active_model@),
{
    let head = "Available models (current: "@ + provider.active_model@ + "):\n"@;
    let names = texts(provider.models@);
    law_models_are_listed_or_cut_short(provider, names, 0, head);
    let listed = model_lines(provider, names, 0, head);
    let rest = listed.skip(head.len() as int);
    assert(listed =~= head + rest) by {
        assert(listed.subrange(0, head.len() as int) =~= listed.take(head.len() as int));
    }
    let foot = "\n\nSwitch with /model <id>, or re-read the list with /models refresh."@;
    lemma_one(
        "Available models (current: "@,
        provider.active_model@,
        "):\n"@ + rest + foot,
    );
    assert("Available models (current: "@ + provider.active_model@ + ("):\n"@ + rest + foot)
        =~= models_text(config));
    lemma_in_turn_contains(models_text(config), seq![provider.active_model@], 0);
}

/// Every provider is listed with its model, and the one in use is marked.
pub proof fn law_every_provider_is_listed(config: Config, n: int)
    requires
        0 <= n <= config.providers.names().len(),
    ensures
        in_turn(provider_lines(config, n), config.providers.names().take(n)),
        n > 0 ==> ({
            let name = config.providers.names()[n - 1];
            &&& in_turn(
                provider_lines(config, n).skip(provider_lines(config, n - 1).len() as int),
                seq![name, config.providers@[name].active_model@],
            )
            &&& config.active_name() == Some(name) <==> contains(
                provider_lines(config, n).skip(provider_lines(config, n - 1).len() as int).take(
                    provider_lines(config, n).len() - provider_lines(config, n - 1).len()
                        - config.providers@[name].active_model@.len(),
                ).skip(name.len() as int + 1),
                "active"@,
            )
        }),
    decreases n,
{
    let names = config.providers.names();
    let empty: Seq<char> = seq![];
    if n > 0 {
        law_every_provider_is_listed(config, n - 1);
        let name = names[n - 1];
        let model = config.providers@[name].active_model@;
        let before = provider_lines(config, n - 1);
        let mark = if config.active_name() == Some(name) {
            " (active)"@
        } else {
            empty
        };
        let all = provider_lines(config, n);
        let tail = mark + " — "@ + model;
        lemma_in_turn_push(before, names.take(n - 1), "\n"@, name, tail);
        assert(all =~= before + "\n"@ + name + tail);
        assert(names.take(n - 1).push(name) =~= names.take(n));
        let added = "\n"@ + name + (mark + " — "@) + model + empty;
        lemma_two("\n"@, name, mark + " — "@, model, empty);
        assert(all.skip(before.len() as int) =~= added);
        reveal_strlit("\n");
        reveal_strlit(" — ");
        reveal_strlit(" (active)");
        reveal_strlit("active");
        let between = mark + " — "@;
        assert(added.take(added.len() - model.len()).skip(name.len() as int + 1) =~= between);
        if config.active_name() == Some(name) {
            assert(between.subrange(2, 8) =~= "active"@);
            assert(occurs_at(between, "active"@, 2));
        } else {
            assert(between.len() == 3);
        }
    }
}

/// A provider is switched to exactly where it is configured.
pub proof fn law_only_configured_providers_are_switched_to(config: Config, name: Seq<char>)
    requires
        config.providers.names().len() > 0,
    ensures
        provider_switch(config, name) is Changed <==> config.providers@.contains_key(name),
        provider_switch(config, name) matches EditView::Changed { saved, unsaved } ==> in_turn(
            saved,
            seq![name, config.providers@[name].active_model@],
        ) && contains(unsaved, name),
        provider_switch(config, name) matches EditView::Rejected(text) ==> contains(text, name),
{
    let model = config.providers@[name].active_model@;
    lemma_two("Switched to "@, name, " ("@, model, ")."@);
    let unsaved = "Switched to "@ + name + " for this run, but Kumo could not save the selection."@;
    lemma_one("Switched to "@, name, " for this run, but Kumo could not save the selection."@);
    lemma_in_turn_contains(unsaved, seq![name], 0);
    let refused = "Unknown provider: "@ + name + "\n\nUse /providers to see the configured ones."@;
    lemma_one("Unknown provider: "@, name, "\n\nUse /providers to see the configured ones."@);
    lemma_in_turn_contains(refused, seq![name], 0);
}

/// A model is switched to exactly where the provider in use offers it.
pub proof fn law_only_offered_models_are_switched_to(config: Config, provider: ProviderConfig, model: Seq<char>)
    requires
        config.active() == Some(provider),
    ensures
        model_switch(config, model) is Changed <==> texts(provider.models@).contains(model),
        model_switch(config, model) matches EditView::Changed { saved, unsaved } ==> contains(
            saved,
            model,
        ),
        model_switch(config, model) matches EditView::Rejected(text) ==> contains(text, model),
{
    lemma_one("Switched to "@, model, "."@);
    lemma_in_turn_contains("Switched to "@ + model + "."@, seq![model], 0);
    let help = "\n\nUse /models to see available models, or /models refresh if the list is out of date."@;
    lemma_one("Unknown model: "@, model, help);
    lemma_in_turn_contains("Unknown model: "@ + model + help, seq![model], 0);
}

/// The window is told for the model in use, with its size.
pub proof fn law_the_window_is_told_with_its_model(config: Config, provider: ProviderConfig, window: u64)
    requires
        config.active() == Some(provider),
        provider.window() == Some(window),
    ensures
        in_turn(context_text(config), seq![provider.active_model@, decimal(window as nat)]),
{
    let source = if provider.context_windows@.contains_key(provider.active_model@) {
        "reported by the provider"@
    } else {
        "set with /context"@
    };
    let foot = ").\n\nHistory is compacted once it passes about half of that. Change it with /context <tokens>."@;
    lemma_two(
        "Context window for "@,
        provider.active_model@,
        ": "@,
        decimal(window as nat),
        " tokens ("@ + source + foot,
    );
    assert("Context window for "@ + provider.active_model@ + ": "@ + decimal(window as nat) + (
    " tokens ("@ + source + foot) =~= context_text(config));
}

/// A number of tokens is read as it is written, and separators in it do not matter.
pub proof fn law_token_counts_are_read(n: u64, front: Seq<char>, back: Seq<char>)
    ensures
        token_count(decimal(n as nat)) == Some(n),
        token_count(front + ","@ + back) == token_count(front + back),
        token_count(front + "_"@ + back) == token_count(front + back),
{
    reveal_strlit(",");
    reveal_strlit("_");
    law_decimals_read_back(n as nat);
    lemma_no_separators(decimal(n as nat));
    lemma_separators_apart(front + ","@, back);
    lemma_separators_apart(front, ","@);
    lemma_separators_apart(front + "_"@, back);
    lemma_separators_apart(front, "_"@);
    lemma_separators_apart(front, back);
    let empty: Seq<char> = seq![];
    assert(","@.drop_last() =~= empty);
    assert("_"@.drop_last() =~= empty);
    reveal_with_fuel(without_separators, 2);
    assert(without_separators(","@) =~= empty);
    assert(without_separators("_"@) =~= empty);
    assert(without_separators(front) + empty =~= without_separators(front));
}

proof fn lemma_separators_apart(a: Seq<char>, b: Seq<char>)
    ensures
        without_separators(a + b) == without_separators(a) + without_separators(b),
    decreases b.len(),
{
    if b.len() == 0 {
        assert(a + b =~= a);
        assert(without_separators(a) + without_separators(b) =~= without_separators(a));
    } else {
        lemma_separators_apart(a, b.drop_last());
        assert((a + b).drop_last() =~= a + b.drop_last());
        assert(without_separators(a + b) =~= without_separators(a) + without_separators(b));
    }
}

proof fn lemma_no_separators(s: Seq<char>)
    requires
        all_digits(s),
    ensures
        without_separators(s) == s,
    decreases s.len(),
{
    if s.len() > 0 {
        assert(is_digit(s[s.len() - 1]));
        assert forall|i: int| 0 <= i < s.drop_last().len() implies is_digit(
            #[trigger] s.drop_last()[i],
        ) by {
            assert(is_digit(s[i]));
        }
        lemma_no_separators(s.drop_last());
        assert(s.drop_last().push(s.last()) =~= s);
    }
}

/// A window is set exactly where it is a number that leaves room for a conversation, for a provider
/// that is configured.
pub proof fn law_windows_leave_room(config: Config, text: Seq<char>)
    ensures
        context_edit(config, text) is Changed <==> (token_count(text) matches Some(window) && window
            >= 4000) && config.active() is Some,
        context_edit(config, text) matches EditView::Changed { saved, unsaved } ==> contains(
            saved,
            decimal(token_count(text)->0 as nat),
        ),
{
    if let Some(window) = token_count(text) {
        let saved = "Context window set to "@ + decimal(window as nat) + " tokens."@;
        lemma_one("Context window set to "@, decimal(window as nat), " tokens."@);
        lemma_in_turn_contains(saved, seq![decimal(window as nat)], 0);
    }
}

/// A refreshed listing is told with its size, and that the model in use is no longer offered exactly
/// where it is not.
pub proof fn law_refreshes_tell_what_is_offered(provider: ProviderConfig, count: nat)
    ensures
        in_turn(refreshed_text(provider, count, true), seq![decimal(count)]),
        in_turn(
            refreshed_text(provider, count, false),
            seq![decimal(count), provider.active_model@],
        ),
        refreshed_text(provider, count, false).len() > refreshed_text(provider, count, true).len(),
{
    let window = match provider.window() {
        Some(window) => "\n\nContext window: "@ + decimal(window as nat) + " tokens ("@
            + provider.active_model@ + ")."@,
        None => "\n\nThis provider reports no context window, so compaction keeps using Kumo's default."@,
    };
    let empty: Seq<char> = seq![];
    let gone = ") is no longer offered by this provider. Switch with /model <id>."@;
    lemma_one("Refreshed: "@, decimal(count), " model(s) available."@ + empty + window);
    assert("Refreshed: "@ + decimal(count) + (" model(s) available."@ + empty + window)
        =~= refreshed_text(provider, count, true));
    lemma_two(
        "Refreshed: "@,
        decimal(count),
        " model(s) available."@ + "\n\nThe active model ("@,
        provider.active_model@,
        gone + window,
    );
    assert("Refreshed: "@ + decimal(count) + (" model(s) available."@ + "\n\nThe active model ("@)
        + provider.active_model@ + (gone + window) =~= refreshed_text(provider, count, false));
    reveal_strlit(") is no longer offered by this provider. Switch with /model <id>.");
}

/// Choosing a model, setting a window or reading the list anew changes just that of a provider: its
/// address and its key stay, and so does all that was not asked for.
pub proof fn law_edits_touch_what_they_are_for(
    earlier: ProviderConfig,
    later: ProviderConfig,
    model: Seq<char>,
    window: u64,
    listing: Seq<ModelInfo>,
)
    ensures
        model_set(earlier, later, model) ==> later.active_model@ == model && same_account(
            earlier,
            later,
        ) && later.models == earlier.models && later.context_window == earlier.context_window
            && later.context_windows == earlier.context_windows,
        window_set(earlier, later, window) ==> later.window() == Some(window) && same_account(
            earlier,
            later,
        ) && later.active_model == earlier.active_model && later.models == earlier.models,
        relisted(earlier, later, listing) ==> same_account(earlier, later) && later.active_model
            == earlier.active_model && texts(later.models@).len() == listing.len() && (forall|i: int|
            0 <= i < listing.len() ==> #[trigger] texts(later.models@)[i] == listing[i].id@)
            && later.context_window == earlier.context_window,
{
}

/// Whether two configurations are of one account with a provider.
pub open spec fn same_account(a: ProviderConfig, b: ProviderConfig) -> bool {
    a.base_url == b.base_url && a.api_key == b.api_key
}

/// The providers are all named to the owner.
pub proof fn law_the_owner_sees_every_provider(config: Config)
    requires
        config.providers.names().len() > 0,
    ensures
        in_turn(providers_text(config), config.providers.names()),
{
    let names = config.providers.names();
    let n = names.len() as int;
    let empty: Seq<char> = seq![];
    law_every_provider_is_listed(config, n);
    assert(names.take(n) =~= names);
    lemma_in_turn_within(
        empty,
        provider_lines(config, n),
        "\n\nSwitch with /provider <name>."@,
        names,
    );
    assert(empty + provider_lines(config, n) + "\n\nSwitch with /provider <name>."@
        =~= providers_text(config));
}

/// The owner sees which model is in use.
pub proof fn law_the_current_model_is_shown(model: Seq<char>)
    ensures
        contains(model_text(model), model),
{
    lemma_one(
        "Current model: "@,
        model,
        "\n\nUse /models to list models or /model <id> to switch."@,
    );
    lemma_in_turn_contains(model_text(model), seq![model], 0);
}

} // verus!
