//! First-time setup: naming and filing providers, and pairing with the owner's account.
use vstd::prelude::*;
use vstd::string::*;

use crate::config::{model_ids, reported_windows, Config, ProviderConfig, TelegramConfig};
use crate::gateway::{after_last, lemma_after_last};
use crate::provider::ModelInfo;
use crate::table::Table;
use crate::text::{
    contains, decimal, decimal_u64, ends_in, in_turn, index_from, law_decimals_read_back,
    lemma_ends_in, lemma_index_from, lemma_two, occurs_at, opt_view, same, slice, split, split_char, texts,
    to_chars, trim, trim_end_char, trimmed, trimmed_end_char,
};

verus! {

pub const BOTFATHER_URL: &'static str = "https://t.me/BotFather";

pub const DEFAULT_BASE_URL: &'static str = "https://api.openai.com/v1";

/// How long pairing waits for the owner, in seconds.
pub const PAIRING_TIMEOUT: u64 = 300;

/// How long each poll waits for Telegram to hand over an update, in seconds.
pub const PAIRING_POLL_TIMEOUT: u64 = 20;

/// The HTTP client has to outlive the long poll it carries: in seconds.
pub const TELEGRAM_HTTP_TIMEOUT: u64 = 60;

/// Pause before retrying after a failed poll, in seconds, so a flaky link does not spin.
pub const PAIRING_RETRY_DELAY: u64 = 2;

/// Whether a part of a host's name tells providers apart.
pub open spec fn is_telling(label: Seq<char>) -> bool {
    label.len() > 0 && label != "api"@ && label != "www"@
}

/// The first part of a host's name that tells providers apart.
pub open spec fn first_telling(labels: Seq<Seq<char>>, from: int) -> Option<Seq<char>>
    decreases labels.len() - from,
{
    if from < 0 || from >= labels.len() {
        None
    } else if is_telling(labels[from]) {
        Some(labels[from])
    } else {
        first_telling(labels, from + 1)
    }
}

/// The host that an address names.
pub open spec fn host_of(url: Seq<char>) -> Seq<char> {
    split_char(split_char(after_last(url, "//"@, url.len() as int), '/')[0], ':')[0]
}

pub open spec fn suggested_name(url: Seq<char>) -> Seq<char> {
    match first_telling(split_char(host_of(url), '.'), 0) {
        Some(label) => label,
        None => "provider"@,
    }
}

proof fn lemma_split_nonempty(s: Seq<char>, c: char)
    ensures
        split_char(s, c).len() > 0,
{
}

/// A short name derived from the provider's host: `https://api.groq.com/openai/v1` becomes
/// `groq`. Only a starting point — onboarding offers it as an editable default.
pub fn suggest_provider_name(base_url: &str) -> (r: String)
    ensures
        r@ == suggested_name(base_url@),
{
    proof {
        reveal_strlit("//");
    }
    let chars = to_chars(base_url);
    let part = to_chars("//");
    let mut rest = base_url.to_owned();
    let mut to: usize = chars.len();
    let mut found = false;
    while to >= 2 && !found
        invariant
            chars@ == base_url@,
            part@ == "//"@,
            part@.len() == 2,
            to <= chars@.len(),
            found ==> rest@ == after_last(base_url@, part@, base_url@.len() as int),
            !found ==> rest@ == base_url@ && after_last(base_url@, part@, base_url@.len() as int)
                == after_last(base_url@, part@, to as int),
        decreases
            to + (if found {
                0int
            } else {
                1
            }),
    {
        if crate::text::matches_at(&chars, &part, to - 2) {
            rest = slice(&chars, to, chars.len());
            assert(rest@ =~= base_url@.skip(to as int));
            found = true;
        } else {
            to = to - 1;
        }
    }
    assert(rest@ == after_last(base_url@, "//"@, base_url@.len() as int));
    let pieces = split(rest.as_str(), '/');
    proof {
        lemma_split_nonempty(rest@, '/');
        assert(texts(pieces@).len() == pieces@.len());
        assert(texts(pieces@)[0] == pieces@[0]@);
    }
    let hosts = split(pieces[0].as_str(), ':');
    proof {
        lemma_split_nonempty(pieces@[0]@, ':');
        assert(texts(hosts@).len() == hosts@.len());
        assert(texts(hosts@)[0] == hosts@[0]@);
    }
    let labels = split(hosts[0].as_str(), '.');
    let ghost all = texts(labels@);
    let mut i: usize = 0;
    while i < labels.len()
        invariant
            i <= labels@.len(),
            all == texts(labels@),
            all == split_char(host_of(base_url@), '.'),
            first_telling(all, 0) == first_telling(all, i as int),
        decreases labels@.len() - i,
    {
        assert(all[i as int] == labels@[i as int]@);
        let label = labels[i].as_str();
        if !label.is_empty() && !same(label, "api") && !same(label, "www") {
            return label.to_owned();
        }
        i = i + 1;
    }
    "provider".to_owned()
}

/// A name with a number behind it.
pub open spec fn numbered(name: Seq<char>, n: nat) -> Seq<char> {
    name + "-"@ + decimal(n)
}

/// Whether `name` is the preferred name, or with the least number from two on that makes it unused.
pub open spec fn is_unique_name(name: Seq<char>, preferred: Seq<char>, used: Set<Seq<char>>) -> bool {
    if !used.contains(preferred) {
        name == preferred
    } else {
        exists|n: nat|
            n >= 2 && name == #[trigger] numbered(preferred, n) && !used.contains(name) && forall|m: nat|
                2 <= m < n ==> used.contains(#[trigger] numbered(preferred, m))
    }
}

proof fn lemma_numbered_differ(name: Seq<char>, a: nat, b: nat)
    requires
        a != b,
    ensures
        numbered(name, a) != numbered(name, b),
{
    if numbered(name, a) == numbered(name, b) {
        let k = (name + "-"@).len() as int;
        assert(numbered(name, a).skip(k) =~= decimal(a));
        assert(numbered(name, b).skip(k) =~= decimal(b));
        law_decimals_read_back(a);
        law_decimals_read_back(b);
    }
}

/// An unused name can be found among as many numbers as there are names in use, and one more.
proof fn lemma_some_number_is_free<V>(table: Table<V>, preferred: Seq<char>, count: nat)
    requires
        table.wf(),
        table@.contains_key(preferred),
        count == table.names().len(),
    ensures
        exists|m: nat| 2 <= m < 2 + count && !table@.contains_key(#[trigger] numbered(preferred, m)),
{
    table.lemma_names();
    let names = table.names();
    if forall|m: nat| 2 <= m < 2 + count ==> table@.contains_key(#[trigger] numbered(preferred, m)) {
        let tried = Seq::new(count, |i: int| numbered(preferred, (i + 2) as nat)).push(preferred);
        assert(tried.no_duplicates()) by {
            assert forall|i: int, j: int| 0 <= i < tried.len() && 0 <= j < tried.len() && i
                != j implies tried[i] != tried[j] by {
                reveal_strlit("-");
                if i < count && j < count {
                    lemma_numbered_differ(preferred, (i + 2) as nat, (j + 2) as nat);
                } else if i < count {
                    assert(tried[i].len() > preferred.len());
                } else {
                    assert(tried[j].len() > preferred.len());
                }
            }
        }
        assert(tried.to_set().subset_of(names.to_set())) by {
            assert forall|x: Seq<char>| tried.to_set().contains(x) implies names.to_set().contains(x) by {
                let i = choose|i: int| 0 <= i < tried.len() && tried[i] == x;
                if i < count {
                    assert(table@.contains_key(numbered(preferred, (i + 2) as nat)));
                }
                assert(table@.contains_key(x));
            }
        }
        tried.unique_seq_to_set();
        vstd::seq_lib::seq_to_set_is_finite(names);
        vstd::set_lib::lemma_len_subset(tried.to_set(), names.to_set());
        names.lemma_cardinality_of_set();
        assert(false);
    }
}

/// A name that no configured provider has: the preferred one where it is free, and otherwise with
/// the least number that makes it so.
pub fn unique_provider_name(preferred: &str, providers: &Table<ProviderConfig>) -> (r: String)
    requires
        providers.wf(),
    ensures
        is_unique_name(r@, preferred@, providers@.dom()),
        !providers@.contains_key(r@),
{
    if !providers.contains(preferred) {
        return preferred.to_owned();
    }
    let count = providers.len();
    proof {
        lemma_some_number_is_free(*providers, preferred@, count as nat);
    }
    let ghost free = choose|m: nat|
        2 <= m < 2 + count && !providers@.contains_key(#[trigger] numbered(preferred@, m));
    let mut i: usize = 0;
    loop
        invariant
            providers.wf(),
            providers@.contains_key(preferred@),
            count == providers.names().len(),
            2 <= free < 2 + count,
            !providers@.contains_key(numbered(preferred@, free)),
            i + 2 <= free,
            forall|m: nat|
                2 <= m < i + 2 ==> providers@.contains_key(#[trigger] numbered(preferred@, m)),
        decreases count - i,
    {
        let mut name = preferred.to_owned();
        name.push_str("-");
        let suffix: u64 = i as u64;
        name.push_str(next_but_one(suffix).as_str());
        assert(name@ =~= numbered(preferred@, (i + 2) as nat));
        if !providers.contains(name.as_str()) {
            assert(is_unique_name(name@, preferred@, providers@.dom())) by {
                let n = (i + 2) as nat;
                assert(n >= 2 && name@ == numbered(preferred@, n));
                assert forall|m: nat| 2 <= m < n implies providers@.dom().contains(
                    #[trigger] numbered(preferred@, m),
                ) by {
                    assert(providers@.contains_key(numbered(preferred@, m)));
                }
            }
            return name;
        }
        assert(i + 2 != free);
        i = i + 1;
    }
}

/// The number two above `n`, in decimal.
fn next_but_one(n: u64) -> (r: String)
    ensures
        r@ == decimal((n + 2) as nat),
{
    if n <= u64::MAX - 2 {
        decimal_u64(n + 2)
    } else if n == u64::MAX - 1 {
        proof {
            assert(decimal(18446744073709551616nat) == decimal(1844674407370955161nat).push('6'));
        }
        let mut r = decimal_u64(1844674407370955161);
        r.push('6');
        r
    } else {
        proof {
            assert(decimal(18446744073709551617nat) == decimal(1844674407370955161nat).push('7'));
        }
        let mut r = decimal_u64(1844674407370955161);
        r.push('7');
        r
    }
}

/// Puts a first provider in the simple form, which needs no name. Returns the provider where there
/// already is one: then the new one needs a name.
pub fn install_first(config: &mut Config, provider: ProviderConfig) -> (r: Option<ProviderConfig>)
    ensures
        if old(config).provider is None && old(config).providers.names().len() == 0 {
            r is None && *final(config) == (Config { provider: Some(provider), ..*old(config) })
        } else {
            r == Some(provider) && *final(config) == *old(config)
        },
{
    if config.provider.is_none() && config.providers.len() == 0 {
        config.provider = Some(provider);
        return None;
    }
    Some(provider)
}

/// Gives the unnamed provider, if there is one, a name of its own, so that a second one does not
/// replace it. Returns the name.
pub fn keep_previous(config: &mut Config) -> (r: Option<String>)
    requires
        old(config).wf(),
    ensures
        final(config).wf(),
        final(config).provider is None,
        final(config).telegram == old(config).telegram,
        final(config).active_provider == old(config).active_provider,
        final(config).tools == old(config).tools,
        final(config).timezone == old(config).timezone,
        final(config).mcp == old(config).mcp,
        match r {
            None => old(config).provider is None && final(config).providers@ == old(
                config,
            ).providers@,
            Some(name) => {
                &&& old(config).provider is Some
                &&& is_unique_name(
                    name@,
                    suggested_name(old(config).provider->0.base_url@),
                    old(config).providers@.dom(),
                )
                &&& !old(config).providers@.contains_key(name@)
                &&& final(config).providers@ == old(config).providers@.insert(
                    name@,
                    old(config).provider->0,
                )
            },
        },
{
    match config.provider.take() {
        None => None,
        Some(previous) => {
            let name = unique_provider_name(
                suggest_provider_name(previous.base_url.as_str()).as_str(),
                &config.providers,
            );
            config.providers.insert(name.clone(), previous);
            Some(name)
        },
    }
}

/// The name that a new provider is offered.
pub fn suggested_for(config: &Config, base_url: &str) -> (r: String)
    requires
        config.wf(),
    ensures
        is_unique_name(r@, suggested_name(base_url@), config.providers@.dom()),
        !config.providers@.contains_key(r@),
{
    unique_provider_name(suggest_provider_name(base_url).as_str(), &config.providers)
}

/// Files a provider under the name that was chosen for it, and switches to it.
pub fn install_named(config: &mut Config, chosen: &str, provider: ProviderConfig)
    requires
        old(config).wf(),
        provider.wf(),
    ensures
        final(config).wf(),
        *final(config) == (Config {
            providers: final(config).providers,
            active_provider: final(config).active_provider,
            ..*old(config)
        }),
        final(config).providers@ == old(config).providers@.insert(trim(chosen@), provider),
        opt_view(final(config).active_provider) == Some(trim(chosen@)),
        final(config).active() == Some(provider),
{
    let name = trimmed(chosen);
    config.providers.insert(name.clone(), provider);
    config.active_provider = Some(name);
    proof {
        config.providers.lemma_names();
        assert(config.providers@.contains_key(trim(chosen@)));
        assert(config.providers.names().len() > 0);
    }
}

/// A second provider never costs the first one: whatever was configured before is still there
/// afterwards, under some name.
pub proof fn law_a_second_provider_keeps_the_first(
    earlier: Map<Seq<char>, ProviderConfig>,
    previous: ProviderConfig,
    kept_as: Seq<char>,
    chosen: Seq<char>,
    provider: ProviderConfig,
)
    requires
        !earlier.contains_key(kept_as),
        chosen != kept_as,
    ensures
        ({
            let later = earlier.insert(kept_as, previous).insert(chosen, provider);
            &&& later.contains_key(kept_as) && later[kept_as] == previous
            &&& later.contains_key(chosen) && later[chosen] == provider
            &&& forall|name: Seq<char>| #[trigger]
                earlier.contains_key(name) && name != chosen ==> later.contains_key(name)
                    && later[name] == earlier[name]
        }),
{
}

/// A provider as it was set up: the address without a slash at its end, the key trimmed, and the
/// models that it lists, the chosen one selected.
pub fn new_provider(base_url: &str, api_key: &str, selected: usize, listing: Vec<ModelInfo>) -> (r:
    ProviderConfig)
    requires
        selected < listing@.len(),
    ensures
        r.wf(),
        r.base_url@ == trim_end_char(base_url@, '/'),
        r.api_key@ == trim(api_key@),
        r.active_model@ == listing@[selected as int].id@,
        texts(r.models@) == model_ids(listing@),
        r.context_windows@ == reported_windows(listing@),
        r.context_window is None,
{
    let mut provider = ProviderConfig {
        base_url: trimmed_end_char(base_url, '/'),
        api_key: trimmed(api_key),
        active_model: listing[selected].id.clone(),
        models: Vec::new(),
        context_window: None,
        context_windows: Table::new(),
    };
    provider.apply_model_listing(listing);
    provider
}

/// A configuration with nothing but the bot in it.
pub fn new_config(telegram: TelegramConfig) -> (r: Config)
    ensures
        r.wf(),
        r.telegram == telegram,
        r.active() is None,
        r.active_provider is None,
        r.tools is None,
        r.timezone is None,
        r.mcp@ == Map::<Seq<char>, crate::config::McpServerConfig>::empty(),
{
    Config {
        telegram,
        provider: None,
        providers: Table::new(),
        active_provider: None,
        tools: None,
        timezone: None,
        mcp: Table::new(),
    }
}

/// The link that pairs a chat with the agent.
pub open spec fn link_text(bot: Seq<char>, nonce: Seq<char>) -> Seq<char> {
    "https://t.me/"@ + bot + "?start=kumo_"@ + nonce
}

/// The link that opens the bot with the pairing word in it.
pub fn pairing_link(bot_username: &str, nonce: &str) -> (r: String)
    ensures
        r@ == link_text(bot_username@, nonce@),
{
    let mut r = "https://t.me/".to_owned();
    r.push_str(bot_username);
    r.push_str("?start=kumo_");
    r.push_str(nonce);
    r
}

/// Whether a message pairs its chat with the agent.
pub open spec fn pairs(private: bool, text: Option<Seq<char>>, nonce: Seq<char>) -> bool {
    private && text == Some("/start kumo_"@ + nonce)
}

/// Whether a message is the one that the owner's pairing sends: in private, with the pairing word.
pub fn is_pairing(private: bool, text: Option<&str>, nonce: &str) -> (r: bool)
    ensures
        r == pairs(private, opt_view(text), nonce@),
{
    match text {
        Some(text) => {
            let mut expected = "/start kumo_".to_owned();
            expected.push_str(nonce);
            private && same(text, expected.as_str())
        },
        None => false,
    }
}

/// The pieces of a text end where the character stands.
proof fn lemma_split_piece(a: Seq<char>, c: char, rest: Seq<char>)
    requires
        !a.contains(c),
    ensures
        split_char(a + seq![c] + rest, c) == seq![a] + split_char(rest, c),
{
    let s = a + seq![c] + rest;
    lemma_index_from(s, c, 0);
    assert(s[a.len() as int] == c);
    assert(index_from(s, c, 0) == Some(a.len() as int)) by {
        let at = index_from(s, c, 0)->0;
        if at < a.len() {
            assert(a[at] == c);
        }
    }
    assert(s.take(a.len() as int) =~= a);
    assert(s.skip(a.len() + 1int) =~= rest);
}

/// The first piece of a text starts with whatever does not hold the character.
proof fn lemma_first_piece(a: Seq<char>, c: char, rest: Seq<char>)
    requires
        !a.contains(c),
    ensures
        split_char(a + rest, c)[0] == a + split_char(rest, c)[0],
{
    let s = a + rest;
    lemma_index_from(s, c, 0);
    lemma_index_from(rest, c, 0);
    let n = a.len() as int;
    assert forall|k: int| 0 <= k < n implies s[k] != c by {
        assert(a.contains(a[k]));
    }
    assert forall|k: int| 0 <= k < rest.len() implies s[n + k] == #[trigger] rest[k] by {}
    match index_from(rest, c, 0) {
        Some(at) => {
            assert(s[n + at] == c);
            let found = index_from(s, c, 0)->0;
            assert(found == n + at) by {
                assert(found >= n);
                if found < n + at {
                    assert(rest[found - n] == s[found]);
                }
                if found > n + at {
                    assert(s[n + at] != c);
                }
            }
            assert(s.take(n + at) =~= a + rest.take(at));
        },
        None => {
            if let Some(found) = index_from(s, c, 0) {
                assert(rest[found - n] == s[found]);
            }
        },
    }
}

/// A provider is named after its host: the first part of the host that tells something, that is, the
/// first where it is no common one, and else the one behind it.
pub proof fn law_providers_are_named_after_their_host(label: Seq<char>, rest: Seq<char>)
    requires
        is_telling(label),
        !label.contains('.'),
        !label.contains('/'),
        !label.contains(':'),
        !contains(label + "."@ + rest, "//"@),
        !contains("api."@ + label + "."@ + rest, "//"@),
    ensures
        suggested_name("https://"@ + label + "."@ + rest) == label,
        suggested_name("https://api."@ + label + "."@ + rest) == label,
{
    reveal_strlit("https://");
    reveal_strlit("https://api.");
    reveal_strlit("api.");
    reveal_strlit("api");
    reveal_strlit("//");
    reveal_strlit(".");
    reveal_strlit("https:");
    let dot: Seq<char> = seq!['.'];
    assert("."@ =~= dot);
    assert("https://"@ =~= "https:"@ + "//"@);
    let plain = label + dot + rest;
    lemma_host(plain);
    lemma_telling_first(label, rest);
    assert("https://"@ + label + "."@ + rest =~= "https:"@ + "//"@ + plain);
    let common = "api."@ + label + "."@ + rest;
    assert("https://api."@ + label + "."@ + rest =~= "https:"@ + "//"@ + common);
    assert(common[0] == 'a');
    lemma_host(common);
    lemma_telling_second(label, rest);
}

/// What is left of an address behind its scheme.
proof fn lemma_host(rest: Seq<char>)
    requires
        !contains(rest, "//"@),
        rest.len() > 0,
        rest[0] != '/',
    ensures
        host_of("https:"@ + "//"@ + rest) == split_char(split_char(rest, '/')[0], ':')[0],
{
    reveal_strlit("https:");
    reveal_strlit("//");
    let url = "https:"@ + "//"@ + rest;
    assert("//"@ =~= seq!['/', '/']);
    assert(url.skip(8) =~= rest);
    assert(url.subrange(6, 8) =~= "//"@);
    lemma_after_last(url, '/', url.len() as int, 8);
}

proof fn lemma_telling_first(label: Seq<char>, rest: Seq<char>)
    requires
        is_telling(label),
        !label.contains('.'),
        !label.contains('/'),
        !label.contains(':'),
    ensures
        ({
            let host = split_char(split_char(label + seq!['.'] + rest, '/')[0], ':')[0];
            first_telling(split_char(host, '.'), 0) == Some(label)
        }),
{
    let front = label + seq!['.'];
    lemma_lacks(front, label, '/');
    lemma_lacks(front, label, ':');
    lemma_first_piece(front, '/', rest);
    let inner = split_char(rest, '/')[0];
    lemma_first_piece(front, ':', inner);
    let tail = split_char(inner, ':')[0];
    assert(front + tail =~= label + seq!['.'] + tail);
    lemma_split_piece(label, '.', tail);
    let labels = split_char(label + seq!['.'] + tail, '.');
    assert(labels[0] == label);
}

proof fn lemma_telling_second(label: Seq<char>, rest: Seq<char>)
    requires
        is_telling(label),
        !label.contains('.'),
        !label.contains('/'),
        !label.contains(':'),
    ensures
        ({
            let all = "api."@ + label + "."@ + rest;
            let host = split_char(split_char(all, '/')[0], ':')[0];
            first_telling(split_char(host, '.'), 0) == Some(label)
        }),
{
    reveal_strlit("api.");
    reveal_strlit("api");
    reveal_strlit(".");
    let all = "api."@ + label + "."@ + rest;
    let head = "api."@;
    assert(!head.contains('/') && !head.contains(':'));
    let after = label + seq!['.'] + rest;
    assert(all =~= head + after);
    lemma_first_piece(head, '/', after);
    let first = split_char(after, '/')[0];
    lemma_first_piece(head, ':', first);
    let host = split_char(first, ':')[0];
    lemma_telling_first(label, rest);
    assert(!"api"@.contains('.'));
    assert(head + host =~= "api"@ + seq!['.'] + host);
    lemma_split_piece("api"@, '.', host);
    let labels = seq!["api"@] + split_char(host, '.');
    lemma_telling_skip(split_char(host, '.'), 0);
}

/// A common first part is passed over.
proof fn lemma_telling_skip(labels: Seq<Seq<char>>, from: int)
    requires
        0 <= from,
    ensures
        first_telling(seq!["api"@] + labels, from + 1) == first_telling(labels, from),
        from == 0 ==> first_telling(seq!["api"@] + labels, 0) == first_telling(labels, 0),
    decreases labels.len() - from,
{
    let all = seq!["api"@] + labels;
    assert(all[0] == "api"@);
    if from < labels.len() {
        assert(all[from + 1] == labels[from]);
        if !is_telling(labels[from]) {
            lemma_telling_skip(labels, from + 1);
        }
    }
}

proof fn lemma_lacks(front: Seq<char>, label: Seq<char>, c: char)
    requires
        front == label + seq!['.'],
        !label.contains(c),
        c != '.',
    ensures
        !front.contains(c),
{
    assert forall|k: int| 0 <= k < front.len() implies front[k] != c by {
        if k < label.len() {
            assert(label.contains(label[k]));
        }
    }
}

/// The link that pairs a chat with the agent carries the agent's name and the secret, and just the
/// message that the link makes is taken for it.
pub proof fn law_pairing_links_carry_the_secret(bot: Seq<char>, nonce: Seq<char>, text: Seq<char>)
    ensures
        in_turn(link_text(bot, nonce), seq![bot, nonce]),
        ends_in(link_text(bot, nonce), "kumo_"@ + nonce),
        pairs(true, Some("/start kumo_"@ + nonce), nonce),
        pairs(true, Some("/start kumo_"@ + text), nonce) ==> text == nonce,
        !pairs(false, Some(text), nonce),
{
    let empty: Seq<char> = seq![];
    let all = link_text(bot, nonce);
    lemma_two("https://t.me/"@, bot, "?start=kumo_"@, nonce, empty);
    assert(all =~= "https://t.me/"@ + bot + "?start=kumo_"@ + nonce + empty);
    reveal_strlit("?start=kumo_");
    reveal_strlit("?start=");
    reveal_strlit("kumo_");
    assert("?start=kumo_"@ =~= "?start="@ + "kumo_"@);
    lemma_ends_in("https://t.me/"@ + bot + "?start="@, "kumo_"@ + nonce);
    assert(all =~= "https://t.me/"@ + bot + "?start="@ + ("kumo_"@ + nonce));
    let n = "/start kumo_"@.len() as int;
    if "/start kumo_"@ + text == "/start kumo_"@ + nonce {
        assert(("/start kumo_"@ + text).skip(n) =~= text);
        assert(("/start kumo_"@ + nonce).skip(n) =~= nonce);
    }
}

/// A new provider's name is a free one that starts with the name it was to have, and is that name
/// where it is free.
pub proof fn law_new_names_are_free(name: Seq<char>, preferred: Seq<char>, used: Set<Seq<char>>)
    requires
        is_unique_name(name, preferred, used),
    ensures
        !used.contains(name),
        !used.contains(preferred) ==> name == preferred,
        used.contains(preferred) ==> name.len() > preferred.len() + 1 && name[preferred.len() as int]
            == '-',
        occurs_at(name, preferred, 0),
{
    reveal_strlit("-");
    if used.contains(preferred) {
        let n = choose|n: nat|
            n >= 2 && name == #[trigger] numbered(preferred, n) && !used.contains(name) && forall|
                m: nat,
            |
                2 <= m < n ==> used.contains(#[trigger] numbered(preferred, m));
        law_decimals_read_back(n);
    }
    assert(name.subrange(0, preferred.len() as int) =~= preferred);
}

} // verus!
