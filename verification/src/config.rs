//! The gateway's configuration: the Telegram bot, the model providers and the one in use, the
//! tools and the MCP servers.
use vstd::prelude::*;
use vstd::string::*;

use crate::provider::ModelInfo;
use crate::table::Table;
use crate::text::{opt_view, same, texts};

verus! {

pub const CONFIG_FILE: &'static str = "kumo.toml";

#[derive(Debug)]
pub struct Config {
    pub telegram: TelegramConfig,
    /// The single-provider form, kept for installs that never defined a named one. When
    /// `providers` is non-empty this is ignored.
    pub provider: Option<ProviderConfig>,
    /// Named provider configurations, each a complete `[provider]` block of its own, so a second
    /// provider can be set up without discarding the first.
    pub providers: Table<ProviderConfig>,
    /// Which entry of `providers` is in use. Only meaningful when more than one exists — a single
    /// named provider is selected by being the only one.
    pub active_provider: Option<String>,
    pub tools: Option<ToolsConfig>,
    /// IANA timezone name (e.g. "Asia/Jakarta"), used to interpret relative times in scheduled
    /// tasks. Missing on installs that predate scheduling; `Config::timezone` falls back to UTC.
    pub timezone: Option<String>,
    pub mcp: Table<McpServerConfig>,
}

#[derive(Debug)]
pub struct TelegramConfig {
    pub bot_token: String,
    pub bot_username: String,
    pub owner_user_id: u64,
}

#[derive(Debug)]
pub struct ProviderConfig {
    pub base_url: String,
    pub api_key: String,
    pub active_model: String,
    pub models: Vec<String>,
    /// A hand-set window, and the fallback for any model the provider does not report one for.
    pub context_window: Option<u64>,
    /// Context windows as the provider reported them, keyed by model id. Kept per model rather
    /// than as one number so switching models with `/model` does not silently keep the previous
    /// model's compaction budget.
    pub context_windows: Table<u64>,
}

#[derive(Debug)]
pub struct ToolsConfig {
    pub workspace: String,
    /// Rewrite supported shell commands through RTK before execution to reduce model-facing
    /// output. Disabled by default for existing configurations.
    pub rtk: bool,
    /// The longest that a background command may run, in seconds.
    pub background_max_secs: Option<u64>,
}

#[derive(Debug)]
pub struct McpServerConfig {
    pub command: String,
    pub args: Vec<String>,
    /// Skip the Telegram approval prompt for every tool this server advertises.
    pub trusted: bool,
    /// Skip the approval prompt for these tools only, named as the server advertises them (no
    /// server prefix). Lets a server mix read-only tools with tools that send mail or drop rows
    /// without having to trust all of them at once.
    pub trusted_tools: Vec<String>,
}

/// The windows that a listing reports, by model; where a model is listed twice the later report
/// stands.
pub open spec fn reported_windows(listing: Seq<ModelInfo>) -> Map<Seq<char>, u64>
    decreases listing.len(),
{
    if listing.len() == 0 {
        Map::empty()
    } else {
        let rest = reported_windows(listing.drop_last());
        match listing.last().context_window {
            Some(window) => rest.insert(listing.last().id@, window),
            None => rest,
        }
    }
}

pub open spec fn model_ids(listing: Seq<ModelInfo>) -> Seq<Seq<char>> {
    Seq::new(listing.len(), |i: int| listing[i].id@)
}

impl ProviderConfig {
    pub open spec fn wf(&self) -> bool {
        self.context_windows.wf()
    }

    /// The window that compaction budgets against.
    pub open spec fn window(&self) -> Option<u64> {
        if self.context_windows@.contains_key(self.active_model@) {
            Some(self.context_windows@[self.active_model@])
        } else {
            self.context_window
        }
    }

    /// The window compaction should budget against: what the provider reported for the model in
    /// use, or the hand-set `context_window` when it reported nothing.
    pub fn active_context_window(&self) -> (r: Option<u64>)
        requires
            self.wf(),
        ensures
            r == self.window(),
    {
        match self.context_windows.get(self.active_model.as_str()) {
            Some(window) => Some(*window),
            None => self.context_window,
        }
    }

    /// Replaces the cached listing with what the provider currently advertises. The active model
    /// is left selected either way — a model that has disappeared upstream is reported rather than
    /// silently swapped, since picking a replacement is the owner's call.
    pub fn apply_model_listing(&mut self, listing: Vec<ModelInfo>) -> (still_offered: bool)
        ensures
            final(self).wf(),
            texts(final(self).models@) == model_ids(listing@),
            final(self).context_windows@ == reported_windows(listing@),
            still_offered == model_ids(listing@).contains(old(self).active_model@),
            final(self).active_model == old(self).active_model,
            final(self).base_url == old(self).base_url,
            final(self).api_key == old(self).api_key,
            final(self).context_window == old(self).context_window,
    {
        let mut windows: Table<u64> = Table::new();
        let mut models: Vec<String> = Vec::new();
        let mut still_offered = false;
        let mut i: usize = 0;
        assert(listing@.take(0) =~= seq![]);
        while i < listing.len()
            invariant
                i <= listing@.len(),
                *self == *old(self),
                windows.wf(),
                windows@ == reported_windows(listing@.take(i as int)),
                models@.len() == i,
                forall|k: int| 0 <= k < i ==> (#[trigger] models@[k])@ == listing@[k].id@,
                still_offered ==> exists|k: int|
                    0 <= k < i && (#[trigger] listing@[k]).id@ == self.active_model@,
                !still_offered ==> forall|k: int|
                    0 <= k < i ==> (#[trigger] listing@[k]).id@ != self.active_model@,
            decreases listing@.len() - i,
        {
            let id = listing[i].id.clone();
            assert(listing@.take(i + 1).drop_last() =~= listing@.take(i as int));
            if let Some(window) = listing[i].context_window {
                windows.insert(id.clone(), window);
            }
            if same(id.as_str(), self.active_model.as_str()) {
                still_offered = true;
                assert(listing@[i as int].id@ == self.active_model@);
            }
            models.push(id);
            i = i + 1;
        }
        assert(listing@.take(i as int) =~= listing@);
        assert(texts(models@) =~= model_ids(listing@));
        proof {
            let ids = model_ids(listing@);
            if still_offered {
                let k = choose|k: int|
                    0 <= k < listing@.len() && (#[trigger] listing@[k]).id@ == self.active_model@;
                assert(ids[k] == self.active_model@);
            } else if ids.contains(self.active_model@) {
                let k = choose|k: int| 0 <= k < ids.len() && ids[k] == self.active_model@;
                assert(listing@[k].id@ == self.active_model@);
            }
        }
        self.context_windows = windows;
        self.models = models;
        still_offered
    }
}

impl McpServerConfig {
    /// Whether a tool of this server skips the approval prompt.
    pub fn trusts(&self, tool: &str) -> (r: bool)
        ensures
            r == (self.trusted || texts(self.trusted_tools@).contains(tool@)),
    {
        let ghost names = texts(self.trusted_tools@);
        if self.trusted {
            return true;
        }
        let mut i: usize = 0;
        while i < self.trusted_tools.len()
            invariant
                i <= self.trusted_tools@.len(),
                names == texts(self.trusted_tools@),
                forall|k: int| 0 <= k < i ==> #[trigger] names[k] != tool@,
            decreases self.trusted_tools@.len() - i,
        {
            if same(self.trusted_tools[i].as_str(), tool) {
                assert(names[i as int] == tool@);
                return true;
            }
            i = i + 1;
        }
        false
    }
}

/// The names of the IANA timezone database.
pub uninterp spec fn known_timezone(name: Seq<char>) -> bool;

/// `chrono_tz::Tz`'s `FromStr`: accepts exactly the names of the timezone database that the crate
/// carries. The names are not listed here.
#[verifier::external_body]
pub(crate) fn is_timezone(name: &str) -> (r: bool)
    ensures
        r == known_timezone(name@),
{
    name.parse::<chrono_tz::Tz>().is_ok()
}

impl Config {
    pub open spec fn wf(&self) -> bool {
        &&& self.providers.wf()
        &&& self.mcp.wf()
        &&& self.provider is Some ==> self.provider->0.wf()
        &&& forall|name: Seq<char>| #[trigger]
            self.providers@.contains_key(name) ==> self.providers@[name].wf()
    }

    /// The name of the provider in use, when there are named ones to choose between.
    pub open spec fn active_name(&self) -> Option<Seq<char>> {
        if self.providers.names().len() == 0 {
            None
        } else if self.active_provider is Some && self.providers@.contains_key(
            self.active_provider->0@,
        ) {
            Some(self.active_provider->0@)
        } else {
            Some(self.providers.names()[0])
        }
    }

    /// The provider in use: the active one of the named providers, or else the unnamed one.
    pub open spec fn active(&self) -> Option<ProviderConfig> {
        match self.active_name() {
            Some(name) => Some(self.providers@[name]),
            None => self.provider,
        }
    }

    /// A named active provider is always one of those configured.
    pub proof fn lemma_active_name(&self)
        requires
            self.wf(),
        ensures
            self.active_name() is Some ==> self.providers@.contains_key(self.active_name()->0),
            self.active() is Some ==> self.active()->0.wf(),
    {
        self.providers.lemma_names();
    }

    /// The name of the provider in use, when there are named ones to choose between. A config with
    /// exactly one named provider does not need to say which is active, and a stale
    /// `active_provider` (renamed or removed by hand) resolves the same way rather than leaving the
    /// gateway with no provider at all.
    pub fn active_provider_name(&self) -> (r: Option<String>)
        requires
            self.wf(),
        ensures
            opt_view(r) == self.active_name(),
    {
        if self.providers.len() == 0 {
            return None;
        }
        if let Some(name) = &self.active_provider {
            if self.providers.contains(name.as_str()) {
                return Some(name.clone());
            }
        }
        Some(self.providers.name_at(0).clone())
    }

    pub fn provider(&self) -> (r: Result<&ProviderConfig, String>)
        requires
            self.wf(),
        ensures
            match r {
                Ok(provider) => self.active() == Some(*provider) && provider.wf(),
                Err(message) => self.active() is None && message@
                    == "model provider is not configured; run `kumo onboard`"@,
            },
    {
        proof {
            self.lemma_active_name();
        }
        if let Some(name) = self.active_provider_name() {
            if let Some(provider) = self.providers.get(name.as_str()) {
                return Ok(provider);
            }
        }
        match &self.provider {
            Some(provider) => Ok(provider),
            None => Err("model provider is not configured; run `kumo onboard`".to_owned()),
        }
    }

    /// The same resolution as `provider`, for the commands that edit it (`/model`, `/context`,
    /// `/models refresh`) — they must write to whichever entry is actually in use.
    pub fn provider_mut(&mut self) -> (r: Option<&mut ProviderConfig>)
        requires
            old(self).wf(),
        ensures
            match r {
                Some(provider) => {
                    &&& old(self).active() == Some(*provider)
                    &&& provider.wf()
                    &&& edited(*old(self), *final(self), *final(provider))
                },
                None => old(self).active() is None && *final(self) == *old(self),
            },
    {
        proof {
            self.lemma_active_name();
        }
        match self.active_provider_name() {
            Some(name) => self.providers.get_mut(name.as_str()),
            None => self.provider.as_mut(),
        }
    }

    /// The name of the configured IANA timezone, or UTC on installs from before scheduling existed.
    pub fn timezone(&self) -> (r: String)
        ensures
            r@ == self.timezone_name(),
    {
        if let Some(name) = &self.timezone {
            if is_timezone(name.as_str()) {
                return name.clone();
            }
        }
        "UTC".to_owned()
    }

    pub open spec fn timezone_name(&self) -> Seq<char> {
        match self.timezone {
            Some(name) if known_timezone(name@) => name@,
            _ => "UTC"@,
        }
    }
}

/// Where the configuration is kept, `config_dir` being the operating system's directory for
/// configuration, if it has one: the parts of the path, to be put below one another.
pub fn path(config_dir: Option<&str>) -> (r: Result<Vec<String>, String>)
    ensures
        match r {
            Ok(parts) => config_dir is Some && texts(parts@) == seq![
                config_dir->0@,
                "kumo"@,
                CONFIG_FILE@,
            ],
            Err(message) => config_dir is None && message@
                == "could not determine the operating system config directory"@,
        },
{
    match config_dir {
        Some(directory) => {
            let mut parts: Vec<String> = Vec::new();
            parts.push(directory.to_owned());
            parts.push("kumo".to_owned());
            parts.push(CONFIG_FILE.to_owned());
            assert(texts(parts@) =~= seq![directory@, "kumo"@, CONFIG_FILE@]);
            Ok(parts)
        },
        None => Err("could not determine the operating system config directory".to_owned()),
    }
}

/// Whether `later` is `earlier` with the provider in use replaced by `provider`.
pub open spec fn edited(earlier: Config, later: Config, provider: ProviderConfig) -> bool {
    &&& later.telegram == earlier.telegram
    &&& later.active_provider == earlier.active_provider
    &&& later.tools == earlier.tools
    &&& later.timezone == earlier.timezone
    &&& later.mcp == earlier.mcp
    &&& later.providers.wf()
    &&& later.providers.names() == earlier.providers.names()
    &&& match earlier.active_name() {
        Some(name) => later.provider == earlier.provider && later.providers@
            == earlier.providers@.insert(name, provider),
        None => later.provider == Some(provider) && later.providers@ == earlier.providers@,
    }
}

/// Editing the provider in use changes the provider in use, and keeps the configuration valid.
pub proof fn law_edits_reach_the_active_provider(
    earlier: Config,
    later: Config,
    provider: ProviderConfig,
)
    requires
        earlier.wf(),
        provider.wf(),
        earlier.active() is Some,
        edited(earlier, later, provider),
    ensures
        later.wf(),
        later.active_name() == earlier.active_name(),
        later.active() == Some(provider),
{
    earlier.lemma_active_name();
}

/// The size of a model is the one that its provider reports, and else the one that the owner set.
pub proof fn law_reported_sizes_come_first(provider: ProviderConfig)
    ensures
        provider.context_windows@.contains_key(provider.active_model@) ==> provider.window()
            == Some(provider.context_windows@[provider.active_model@]),
        !provider.context_windows@.contains_key(provider.active_model@) ==> provider.window()
            == provider.context_window,
{
}

/// A listing gives every model that reports a size its size, and no other model one.
pub proof fn law_reported_sizes_are_kept(listing: Seq<ModelInfo>)
    ensures
        forall|id: Seq<char>| #[trigger]
            reported_windows(listing).contains_key(id) ==> exists|i: int|
                0 <= i < listing.len() && (#[trigger] listing[i]).id@ == id
                    && listing[i].context_window == Some(reported_windows(listing)[id]),
        forall|i: int|
            0 <= i < listing.len() && (#[trigger] listing[i]).context_window is Some
                ==> reported_windows(listing).contains_key(listing[i].id@),
        forall|i: int|
            0 <= i < listing.len() ==> model_ids(listing).contains((#[trigger] listing[i]).id@),
        model_ids(listing).len() == listing.len(),
    decreases listing.len(),
{
    assert forall|i: int| 0 <= i < listing.len() implies model_ids(listing).contains(
        (#[trigger] listing[i]).id@,
    ) by {
        assert(model_ids(listing)[i] == listing[i].id@);
    }
    if listing.len() > 0 {
        let front = listing.drop_last();
        law_reported_sizes_are_kept(front);
        let last = listing.last();
        assert forall|id: Seq<char>| #[trigger]
            reported_windows(listing).contains_key(id) implies exists|i: int|
            0 <= i < listing.len() && (#[trigger] listing[i]).id@ == id
                && listing[i].context_window == Some(reported_windows(listing)[id]) by {
            if last.context_window is Some && last.id@ == id {
                assert(listing[listing.len() - 1].id@ == id);
            } else {
                assert(reported_windows(front).contains_key(id));
                let i = choose|i: int|
                    0 <= i < front.len() && (#[trigger] front[i]).id@ == id
                        && front[i].context_window == Some(reported_windows(front)[id]);
                assert(listing[i].id@ == id);
            }
        }
        assert forall|i: int|
            0 <= i < listing.len() && (#[trigger] listing[i]).context_window
                is Some implies reported_windows(listing).contains_key(listing[i].id@) by {
            if i < front.len() {
                assert(front[i].context_window is Some);
            }
        }
    }
}

/// The provider in use is the chosen one where it is configured, else the first; where only one is
/// configured on its own it is that.
pub proof fn law_the_chosen_provider_is_used(config: Config, name: String)
    ensures
        config.providers.names().len() > 0 && config.active_provider == Some(name)
            && config.providers@.contains_key(name@) ==> config.active() == Some(
            config.providers@[name@],
        ) && config.active_name() == Some(name@),
        config.providers.names().len() > 0 && config.active_provider is None ==> config.active()
            == Some(config.providers@[config.providers.names()[0]]),
        config.providers.names().len() == 0 ==> config.active() == config.provider,
{
}

/// The zone is the owner's wherever it is known, and UTC only where it is not.
pub proof fn law_the_owners_zone_is_used(config: Config, name: String)
    requires
        config.timezone == Some(name),
    ensures
        known_timezone(name@) ==> config.timezone_name() == name@,
        !known_timezone(name@) ==> config.timezone_name() == "UTC"@,
{
}

} // verus!
