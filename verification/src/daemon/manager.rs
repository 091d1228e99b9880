//! The provider orchestration manager: what it is made of, and what it decides about
//! a search before any provider is asked.

use crate::anti_blocking::page_delay::PageDelay;
use crate::anti_blocking::retry::RetryConfig;
use crate::cache::entries::{StoredEntry, effective_ttl};
use crate::cache::keys::request_cache_key;
use crate::config::{Config, ProviderConfig, RankingConfig, TierDef};
use crate::daemon::catalog;
use crate::daemon::catalog::{ProviderCatalog, ProviderEntry};
use crate::daemon::dispatch;
use crate::daemon::dispatch::{DispatchMode, GroupView, ProviderGroup};
use crate::daemon::health::HealthState;
use crate::double::Double;
use crate::named::NamedList;
use crate::search::provider::{ProviderClientConfig, ProviderError, Tag};
use crate::search::providers::answer;
use crate::search::providers::answer::{HttpRequest, HttpView, StatusPolicy};
use crate::search::providers::brave::BraveProvider;
use crate::search::providers::duckduckgo::DuckDuckGoProvider;
use crate::search::providers::jina::JinaProvider;
use crate::search::providers::searxng::SearxngProvider;
use crate::search::request::{SearchRequest, SearchResponse, copy_option};
use crate::text;
use vstd::prelude::*;

verus! {

/// Consecutive failures that mark a provider unhealthy.
pub const FAILURE_THRESHOLD: u32 = 3;

/// Requests per minute of a provider that is configured with none.
pub const DEFAULT_RPM: u32 = 30;

/// A search provider of one of the kinds that there are.
#[derive(Debug)]
pub enum SearchProvider {
    /// `duckduckgo`
    DuckDuckGo(DuckDuckGoProvider),
    /// `brave`
    Brave(BraveProvider),
    /// `jina`
    Jina(JinaProvider),
    /// `searxng`
    Searxng(SearxngProvider),
}

/// Whether there is a kind of provider with the given name.
pub open spec fn is_known_provider(name: Seq<char>) -> bool {
    name == "duckduckgo"@ || name == "brave"@ || name == "jina"@ || name == "searxng"@
}

impl SearchProvider {
    /// The provider's name.
    pub open spec fn label(&self) -> Seq<char> {
        match self {
            SearchProvider::DuckDuckGo(_) => "duckduckgo"@,
            SearchProvider::Brave(_) => "brave"@,
            SearchProvider::Jina(_) => "jina"@,
            SearchProvider::Searxng(_) => "searxng"@,
        }
    }

    /// Whether the provider is configured and ready.
    pub open spec fn ready(&self) -> bool {
        match self {
            SearchProvider::DuckDuckGo(p) => p.available,
            SearchProvider::Brave(p) => p.api_key is Some,
            SearchProvider::Jina(p) => p.api_key@.len() > 0,
            SearchProvider::Searxng(p) => p.available,
        }
    }

    /// Whether a catalog entry is that of the provider.
    pub open spec fn is_described_by(&self, entry: ProviderEntry) -> bool {
        &&& entry.name@ == self.label()
        &&& entry.available == self.ready()
        &&& match self {
            SearchProvider::DuckDuckGo(_) => entry.tags@ == seq![Tag::Web, Tag::Privacy]
                && entry.description@
                == "DuckDuckGo HTML search (scraping-based, no API key required)"@,
            SearchProvider::Brave(_) => entry.tags@ == seq![Tag::Web] && entry.description@
                == "Brave Search API (API key required, free tier: 20 RPM)"@,
            SearchProvider::Jina(_) => entry.tags@ == seq![Tag::Web] && entry.description@
                == "Jina AI search (API-based, API key required, 100 RPM free tier)"@,
            SearchProvider::Searxng(_) => entry.tags@ == seq![Tag::Web, Tag::Privacy]
                && entry.description@
                == "SearXNG self-hosted metasearch engine (JSON API, no API key required)"@,
        }
    }

    /// Whether the outcome of preparing a search is what it should be.
    pub open spec fn is_call(
        &self,
        request: SearchRequest,
        r: Result<HttpRequest, ProviderError>,
    ) -> bool {
        match self {
            SearchProvider::DuckDuckGo(_) => r matches Ok(http) && http@ == (HttpView {
                post: true,
                url: "https://html.duckduckgo.com/html/"@,
                headers: Seq::empty(),
                params: seq![("q"@, request.query@)],
                body: None,
            }),
            SearchProvider::Brave(p) => p.is_call(request, r),
            SearchProvider::Jina(p) => p.is_call(request, r),
            SearchProvider::Searxng(p) => r matches Ok(http) && http@ == (HttpView {
                post: false,
                url: crate::search::providers::searxng::search_url(p.base_url@, request),
                headers: Seq::empty(),
                params: Seq::empty(),
                body: None,
            }),
        }
    }

    /// How statuses of the provider's answers are read.
    pub open spec fn status_policy(&self) -> StatusPolicy {
        let by_key = self is Brave || self is Jina;
        StatusPolicy { unauthorized_is_denied: by_key, reads_retry_after: by_key }
    }

    /// What is said of a request that could not be sent, or a body that could not be read.
    pub open spec fn failure_text(&self, what: Seq<char>, own: Seq<char>, message: Seq<char>) -> Seq<
        char,
    > {
        if self is Searxng {
            own
        } else {
            what + message
        }
    }

    /// The HTTP request of a search.
    pub fn prepare(&self, request: &SearchRequest) -> (r: Result<HttpRequest, ProviderError>)
        ensures
            self.is_call(*request, r),
    {
        match self {
            SearchProvider::DuckDuckGo(p) => Ok(p.prepare(request)),
            SearchProvider::Brave(p) => p.prepare(request),
            SearchProvider::Jina(p) => p.prepare(request),
            SearchProvider::Searxng(p) => Ok(p.prepare(request)),
        }
    }

    /// What the status of the provider's answer amounts to.
    pub fn check_status(
        &self,
        status: u16,
        reason: Option<&str>,
        retry_after: Option<&str>,
    ) -> (r: Result<(), ProviderError>)
        ensures
            match r {
                Ok(_) => answer::is_success(status),
                Err(e) => !answer::is_success(status) && answer::is_status_error(
                    self.status_policy(),
                    status,
                    match reason {
                        Some(words) => Some(words@),
                        None => None,
                    },
                    match retry_after {
                        Some(value) => Some(value@),
                        None => None,
                    },
                    e,
                ),
            },
    {
        let by_key = match self {
            SearchProvider::Brave(_) => true,
            SearchProvider::Jina(_) => true,
            _ => false,
        };
        let policy = StatusPolicy { unauthorized_is_denied: by_key, reads_retry_after: by_key };
        answer::check_status(&policy, status, reason, retry_after)
    }

    /// What a request to the provider that could not be sent amounts to.
    pub fn transport_failure(&self, is_timeout: bool, elapsed_secs: u64, message: &str) -> (r:
        ProviderError)
        ensures
            if is_timeout {
                r == (ProviderError::Timeout { elapsed_secs })
            } else {
                r matches ProviderError::Internal(msg) && msg@ == self.failure_text(
                    "HTTP request failed: "@,
                    "SearXNG HTTP request failed"@,
                    message@,
                )
            },
    {
        let said = match self {
            SearchProvider::Searxng(_) => "SearXNG HTTP request failed".to_owned(),
            _ => text::concat("HTTP request failed: ", message),
        };
        answer::transport_error(is_timeout, elapsed_secs, said)
    }

    /// What an answer of the provider whose body could not be read amounts to.
    pub fn body_failure(&self, message: &str) -> (r: ProviderError)
        ensures
            r matches ProviderError::Internal(msg) && msg@ == self.failure_text(
                "failed to read response body: "@,
                "failed to read SearXNG response body"@,
                message@,
            ),
    {
        let said = match self {
            SearchProvider::Searxng(_) => "failed to read SearXNG response body".to_owned(),
            _ => text::concat("failed to read response body: ", message),
        };
        ProviderError::Internal(said)
    }

    /// The provider as the catalog knows it.
    pub fn entry(&self) -> (r: ProviderEntry)
        ensures
            self.is_described_by(r),
    {
        match self {
            SearchProvider::DuckDuckGo(p) => ProviderEntry {
                name: p.name().to_owned(),
                tags: p.tags(),
                description: p.description().to_owned(),
                available: p.is_available(),
            },
            SearchProvider::Brave(p) => ProviderEntry {
                name: p.name().to_owned(),
                tags: p.tags(),
                description: p.description().to_owned(),
                available: p.is_available(),
            },
            SearchProvider::Jina(p) => ProviderEntry {
                name: p.name().to_owned(),
                tags: p.tags(),
                description: p.description().to_owned(),
                available: p.is_available(),
            },
            SearchProvider::Searxng(p) => ProviderEntry {
                name: p.name().to_owned(),
                tags: p.tags(),
                description: p.description().to_owned(),
                available: p.is_available(),
            },
        }
    }
}

/// A configured provider and the settings that go with it.
#[derive(Debug)]
pub struct ProviderSetup {
    /// The provider.
    pub provider: SearchProvider,
    /// What its HTTP client is built from.
    pub client: ProviderClientConfig,
    /// Its rate limit in requests per minute.
    pub rpm: u32,
    /// Its weight in the ranking.
    pub weight: Double,
    /// For how many seconds its responses are cached.
    pub cache_ttl_secs: u64,
    /// How many attempts a request to it gets, where that is configured for it.
    pub max_attempts: Option<u32>,
}

/// The characters of the strings of an optional list.
pub open spec fn list_view(list: Option<Vec<String>>) -> Option<Seq<Seq<char>>> {
    match list {
        Some(names) => Some(text::views(names@)),
        None => None,
    }
}

/// Whether a setup is what a provider configuration asks for.
pub open spec fn is_setup_for(setup: ProviderSetup, cfg: ProviderConfig, default_ttl: u64) -> bool {
    &&& setup.provider.label() == cfg.name@
    &&& match setup.provider {
        SearchProvider::DuckDuckGo(p) => p.available,
        SearchProvider::Brave(p) => p.api_key == cfg.api_key,
        SearchProvider::Jina(p) => p.api_key@ == (match cfg.api_key {
            Some(key) => key@,
            None => Seq::empty(),
        }) && p.base_url@ == (match cfg.base_url {
            Some(url) => url@,
            None => "https://s.jina.ai"@,
        }),
        SearchProvider::Searxng(p) => p.available == (cfg.base_url is Some) && p.base_url@ == (
        match cfg.base_url {
            Some(url) => url@,
            None => Seq::empty(),
        }),
    }
    &&& setup.client.tls_shuffle_ciphers == (cfg.tls_shuffle_ciphers == Some(true))
    &&& setup.client.ip_rotation_strategy == cfg.ip_rotation_strategy
    &&& setup.client.ipv6_subnet == cfg.ipv6_subnet
    &&& list_view(setup.client.proxies) == list_view(cfg.proxies)
    &&& setup.client.timeout_secs == cfg.timeout_secs
    &&& setup.rpm == (match cfg.rate_limit_rpm {
        Some(rpm) => rpm,
        None => DEFAULT_RPM,
    })
    &&& setup.weight.pattern() == (match cfg.weight {
        Some(weight) => weight.pattern(),
        None => 0x3FF0_0000_0000_0000,
    })
    &&& setup.cache_ttl_secs == (match cfg.cache_ttl_secs {
        Some(secs) => secs,
        None => default_ttl,
    })
    &&& setup.max_attempts == cfg.retry_max_attempts
}

/// The configurations that are enabled, in order.
pub open spec fn enabled_configs(cfgs: Seq<ProviderConfig>) -> Seq<ProviderConfig> {
    cfgs.filter(|c: ProviderConfig| c.enabled)
}

/// The name of the first enabled provider of which there is no kind.
pub open spec fn first_unknown(cfgs: Seq<ProviderConfig>) -> Option<Seq<char>>
    decreases cfgs.len(),
{
    if cfgs.len() == 0 {
        None
    } else {
        match first_unknown(cfgs.drop_last()) {
            Some(name) => Some(name),
            None => if cfgs.last().enabled && !is_known_provider(cfgs.last().name@) {
                Some(cfgs.last().name@)
            } else {
                None
            },
        }
    }
}

/// The client settings of a provider configuration.
pub fn client_config(cfg: &ProviderConfig) -> (r: ProviderClientConfig)
    ensures
        r.tls_shuffle_ciphers == (cfg.tls_shuffle_ciphers == Some(true)),
        r.ip_rotation_strategy == cfg.ip_rotation_strategy,
        r.ipv6_subnet == cfg.ipv6_subnet,
        list_view(r.proxies) == list_view(cfg.proxies),
        r.timeout_secs == cfg.timeout_secs,
{
    ProviderClientConfig {
        tls_shuffle_ciphers: match cfg.tls_shuffle_ciphers {
            Some(shuffle) => shuffle,
            None => false,
        },
        ip_rotation_strategy: copy_option(&cfg.ip_rotation_strategy),
        ipv6_subnet: copy_option(&cfg.ipv6_subnet),
        proxies: match &cfg.proxies {
            Some(urls) => Some(text::copy_strings(urls)),
            None => None,
        },
        timeout_secs: cfg.timeout_secs,
    }
}

/// Factory: create a provider from its configuration.
///
/// Dispatches on `cfg.name`; a name of which there is no kind is an error.
pub fn create_provider(cfg: &ProviderConfig) -> (r: Result<SearchProvider, String>)
    ensures
        match r {
            Ok(provider) => is_known_provider(cfg.name@) && provider.label() == cfg.name@
                && match provider {
                SearchProvider::DuckDuckGo(p) => p.available,
                SearchProvider::Brave(p) => p.api_key == cfg.api_key,
                SearchProvider::Jina(p) => p.api_key@ == (match cfg.api_key {
                    Some(key) => key@,
                    None => Seq::empty(),
                }) && p.base_url@ == (match cfg.base_url {
                    Some(url) => url@,
                    None => "https://s.jina.ai"@,
                }),
                SearchProvider::Searxng(p) => p.available == (cfg.base_url is Some) && p.base_url@
                    == (match cfg.base_url {
                    Some(url) => url@,
                    None => Seq::empty(),
                }),
            },
            Err(e) => !is_known_provider(cfg.name@) && e@ == "unknown provider type: '"@ + cfg.name@
                + "'"@,
        },
{
    let name = cfg.name.as_str();
    if text::same(name, "duckduckgo") {
        Ok(SearchProvider::DuckDuckGo(DuckDuckGoProvider::new(true)))
    } else if text::same(name, "brave") {
        Ok(SearchProvider::Brave(BraveProvider::new(copy_option(&cfg.api_key))))
    } else if text::same(name, "jina") {
        Ok(
            SearchProvider::Jina(
                JinaProvider::new(copy_option(&cfg.api_key), copy_option(&cfg.base_url)),
            ),
        )
    } else if text::same(name, "searxng") {
        Ok(SearchProvider::Searxng(SearxngProvider::new(copy_option(&cfg.base_url))))
    } else {
        Err(text::concat3("unknown provider type: '", name, "'"))
    }
}

/// The setups of the enabled providers, in order; an error for the first of them of
/// which there is no kind.
pub fn set_up_providers(cfgs: &Vec<ProviderConfig>, default_ttl: u64) -> (r: Result<
    Vec<ProviderSetup>,
    String,
>)
    ensures
        match r {
            Ok(setups) => {
                &&& first_unknown(cfgs@) is None
                &&& setups@.len() == enabled_configs(cfgs@).len()
                &&& forall|i: int|
                    0 <= i < setups@.len() ==> is_setup_for(
                        #[trigger] setups@[i],
                        enabled_configs(cfgs@)[i],
                        default_ttl,
                    )
            },
            Err(e) => first_unknown(cfgs@) is Some && e@ == "unknown provider type: '"@
                + first_unknown(cfgs@)->0 + "'"@,
        },
{
    let ghost pred = |c: ProviderConfig| c.enabled;
    let mut setups: Vec<ProviderSetup> = Vec::new();
    let mut i: usize = 0;
    proof {
        reveal(Seq::filter);
        assert(cfgs@.take(0) =~= Seq::empty());
    }
    while i < cfgs.len()
        invariant
            i <= cfgs@.len(),
            pred == (|c: ProviderConfig| c.enabled),
            first_unknown(cfgs@.take(i as int)) is None,
            setups@.len() == cfgs@.take(i as int).filter(pred).len(),
            forall|k: int|
                0 <= k < setups@.len() ==> is_setup_for(
                    #[trigger] setups@[k],
                    cfgs@.take(i as int).filter(pred)[k],
                    default_ttl,
                ),
        decreases cfgs.len() - i,
    {
        let cfg = &cfgs[i];
        proof {
            catalog::lemma_filter_next(cfgs@, i as int, pred);
            assert(cfgs@.take(i + 1).drop_last() =~= cfgs@.take(i as int));
            assert(cfgs@.take(i + 1).last() == *cfg);
        }
        if cfg.enabled {
            match create_provider(cfg) {
                Ok(provider) => {
                    let rpm: u32 = match cfg.rate_limit_rpm {
                        Some(rpm) => rpm,
                        None => DEFAULT_RPM,
                    };
                    let weight = match cfg.weight {
                        Some(weight) => weight,
                        None => Double::one(),
                    };
                    setups.push(
                        ProviderSetup {
                            provider,
                            client: client_config(cfg),
                            rpm,
                            weight,
                            cache_ttl_secs: effective_ttl(cfg.cache_ttl_secs, default_ttl),
                            max_attempts: cfg.retry_max_attempts,
                        },
                    );
                },
                Err(e) => {
                    proof {
                        lemma_first_unknown_stays(cfgs@, i + 1);
                    }
                    return Err(e);
                },
            }
        }
        i = i + 1;
    }
    assert(cfgs@.take(cfgs@.len() as int) =~= cfgs@);
    Ok(setups)
}

proof fn lemma_first_unknown_stays(cfgs: Seq<ProviderConfig>, n: int)
    requires
        0 <= n <= cfgs.len(),
        first_unknown(cfgs.take(n)) is Some,
    ensures
        first_unknown(cfgs) == first_unknown(cfgs.take(n)),
    decreases cfgs.len(),
{
    if n < cfgs.len() {
        assert(cfgs.drop_last().take(n) =~= cfgs.take(n));
        lemma_first_unknown_stays(cfgs.drop_last(), n);
    } else {
        assert(cfgs.take(n) =~= cfgs);
    }
}

/// The names of the providers of setups, each once, in the order in which they first come.
pub open spec fn first_names(setups: Seq<ProviderSetup>) -> Seq<Seq<char>>
    decreases setups.len(),
{
    if setups.len() == 0 {
        Seq::empty()
    } else {
        let names = first_names(setups.drop_last());
        let name = setups.last().provider.label();
        if names.contains(name) {
            names
        } else {
            names.push(name)
        }
    }
}

/// Whether catalog entries are those of setups, registered in order: one for each name, that
/// of the last setup with it.
pub open spec fn is_catalog_of(entries: Seq<ProviderEntry>, setups: Seq<ProviderSetup>) -> bool {
    &&& catalog::distinct_names(entries)
    &&& catalog::names_of(entries) == first_names(setups)
    &&& forall|name: Seq<char>|
        match #[trigger] catalog::entry_named(entries, name) {
            Some(entry) => last_setup(setups, name) is Some && setups[last_setup(
                setups,
                name,
            )->0].provider.is_described_by(entry),
            None => last_setup(setups, name) is None,
        }
}

/// The index of the last setup of a provider.
pub open spec fn last_setup(setups: Seq<ProviderSetup>, name: Seq<char>) -> Option<int>
    decreases setups.len(),
{
    if setups.len() == 0 {
        None
    } else if setups.last().provider.label() == name {
        Some(setups.len() - 1)
    } else {
        last_setup(setups.drop_last(), name)
    }
}

/// The provider orchestration manager.
///
/// Holds the provider catalog, the per-provider health states and the settings that
/// decide how a search is dispatched.
#[derive(Debug)]
pub struct Manager {
    /// Provider catalog with all registered providers.
    pub catalog: ProviderCatalog,
    /// Per-provider health states.
    pub health: NamedList<HealthState>,
    /// The configured providers, in order.
    pub setups: Vec<ProviderSetup>,
    /// Retry configuration.
    pub retry_config: RetryConfig,
    /// The bounds of the delay between two requests to a provider.
    pub page_delay: PageDelay,
    /// Global request timeout in seconds.
    pub request_timeout_secs: u64,
    /// Default dispatch mode ("concurrent" or "tiered").
    pub dispatch_mode: String,
    /// Default result limit.
    pub default_limit: usize,
    /// Hard cap on the number of results.
    pub max_limit: usize,
    /// Default cache TTL in seconds.
    pub cache_ttl_secs: u64,
    /// Ranking configuration.
    pub ranking: RankingConfig,
    /// The configured tiers, in order.
    pub ladder: Vec<TierDef>,
}

/// What was decided about a search before any provider is asked.
#[derive(Debug)]
pub struct SearchPlan {
    /// How the providers are run.
    pub mode: DispatchMode,
    /// How many results are returned.
    pub limit: usize,
    /// The providers that are asked.
    pub providers: Vec<String>,
    /// The same providers in tiers, for tiered dispatch; all in one for concurrent.
    pub tiers: Vec<ProviderGroup>,
    /// The cache key of the answer of all of them.
    pub cache_key: String,
}

impl Manager {
    /// How the providers of a request are run: as it says, or as is configured.
    pub open spec fn mode_for(&self, request: SearchRequest) -> DispatchMode {
        if (match request.dispatch_mode {
            Some(mode) => mode@,
            None => self.dispatch_mode@,
        }) == "tiered"@ {
            DispatchMode::Tiered
        } else {
            DispatchMode::Concurrent
        }
    }

    /// How many results a request gets: as many as it asks for, or the default where it asks
    /// for none, and never more than the cap.
    pub open spec fn limit_for(&self, request: SearchRequest) -> usize {
        let wanted = if request.limit > 0 {
            request.limit
        } else {
            self.default_limit
        };
        if wanted < self.max_limit {
            wanted
        } else {
            self.max_limit
        }
    }

    /// The names of the providers that a request goes to.
    pub open spec fn names_for(&self, request: SearchRequest) -> Seq<Seq<char>> {
        dispatch::candidates(
            self.catalog.registrations(),
            text::views(request.providers@),
            self.health,
            self.mode_for(request) == DispatchMode::Concurrent,
        )
    }

    /// The same names in the groups that are asked one after the other: in tiers, or all at
    /// once in concurrent mode.
    pub open spec fn tiers_for(&self, request: SearchRequest) -> Seq<GroupView> {
        if self.mode_for(request) == DispatchMode::Tiered {
            dispatch::groups_of(
                dispatch::ladder_views(self.ladder@),
                self.catalog.registrations(),
                self.names_for(request),
            )
        } else {
            seq![GroupView { names: self.names_for(request), timeout_secs: None }]
        }
    }

    /// The key under which the answer to a request is cached.
    pub open spec fn key_for(&self, request: SearchRequest) -> Seq<char> {
        crate::cache::keys::key_of(
            crate::cache::keys::request_material(request, self.names_for(request)),
        )
    }

    /// Whether weights are those of the configured providers, in order.
    pub open spec fn are_weights(&self, weights: Seq<(String, Double)>) -> bool {
        &&& weights.len() == self.setups@.len()
        &&& forall|i: int|
            0 <= i < weights.len() ==> (#[trigger] weights[i]).0@ == self.setups@[i].provider.label()
                && weights[i].1 == self.setups@[i].weight
    }

    /// Create a new [`Manager`] from configuration.
    ///
    /// Reads provider configurations from `config.providers`, constructs each enabled
    /// provider, and registers it in the catalog with a fresh health state. A provider
    /// of which there is no kind is an error.
    pub fn new(config: &Config) -> (r: Result<Self, String>)
        ensures
            match r {
                Err(e) => first_unknown(config.providers@) is Some && e@
                    == "unknown provider type: '"@ + first_unknown(config.providers@)->0 + "'"@,
                Ok(manager) => {
                    &&& first_unknown(config.providers@) is None
                    &&& manager.setups@.len() == enabled_configs(config.providers@).len()
                    &&& forall|i: int|
                        0 <= i < manager.setups@.len() ==> is_setup_for(
                            #[trigger] manager.setups@[i],
                            enabled_configs(config.providers@)[i],
                            config.cache.default_ttl_secs,
                        )
                    &&& is_catalog_of(manager.catalog.registrations(), manager.setups@)
                    &&& forall|name: Seq<char>|
                        match #[trigger] manager.health.value_of(name) {
                            Some(state) => last_setup(manager.setups@, name) is Some && state@ == (
                            crate::daemon::health::HealthView {
                                events: Seq::empty(),
                                consecutive_failures: 0,
                                status: crate::daemon::health::HealthStatus::Healthy,
                                threshold: FAILURE_THRESHOLD,
                                successes: 0,
                                failures: 0,
                                last_error: None,
                            }),
                            None => last_setup(manager.setups@, name) is None,
                        }
                    &&& manager.retry_config == (RetryConfig {
                        base_delay_secs: config.anti_blocking.retry_base_delay_secs,
                        max_attempts: config.anti_blocking.retry_max_attempts,
                        cap_secs: config.anti_blocking.retry_cap_secs,
                    })
                    &&& manager.page_delay == (PageDelay {
                        min_ms: config.anti_blocking.page_delay_min_ms,
                        max_ms: config.anti_blocking.page_delay_max_ms,
                    })
                    &&& manager.request_timeout_secs == config.search.request_timeout_secs
                    &&& manager.dispatch_mode@ == config.dispatch.mode@
                    &&& manager.default_limit == config.search.default_limit
                    &&& manager.max_limit == config.search.max_limit
                    &&& manager.cache_ttl_secs == config.cache.default_ttl_secs
                    &&& manager.ranking == config.ranking
                    &&& dispatch::ladder_views(manager.ladder@) == crate::config::ladder_of(
                        config.tiers.order@,
                        config.tiers.tiers@,
                    )
                },
            },
    {
        let setups = match set_up_providers(&config.providers, config.cache.default_ttl_secs) {
            Ok(setups) => setups,
            Err(e) => {
                return Err(e);
            },
        };
        let (catalog, health) = register_all(&setups);
        let retry_config = RetryConfig::from(&config.anti_blocking);
        Ok(
            Manager {
                catalog,
                health,
                setups,
                retry_config,
                page_delay: PageDelay::of(&config.anti_blocking),
                request_timeout_secs: config.search.request_timeout_secs,
                dispatch_mode: config.dispatch.mode.clone(),
                default_limit: config.search.default_limit as usize,
                max_limit: config.search.max_limit as usize,
                cache_ttl_secs: config.cache.default_ttl_secs,
                ranking: config.ranking,
                ladder: config.tiers.ladder(),
            },
        )
    }

    /// The index of the setup of a provider: the last where there are several.
    fn setup_index(&self, name: &str) -> (r: Option<usize>)
        ensures
            match r {
                Some(i) => last_setup(self.setups@, name@) == Some(i as int) && i
                    < self.setups@.len(),
                None => last_setup(self.setups@, name@) is None,
            },
    {
        let mut i: usize = self.setups.len();
        assert(self.setups@.take(i as int) =~= self.setups@);
        while i > 0
            invariant
                i <= self.setups@.len(),
                last_setup(self.setups@, name@) == last_setup(self.setups@.take(i as int), name@),
            decreases i,
        {
            proof {
                assert(self.setups@.take(i as int).last() == self.setups@[i - 1]);
                assert(self.setups@.take(i as int).drop_last() =~= self.setups@.take(i - 1));
            }
            if text::same(provider_label(&self.setups[i - 1].provider), name) {
                return Some(i - 1);
            }
            i = i - 1;
        }
        None
    }

    /// The setup of a provider: the last where there are several.
    pub fn setup_of(&self, name: &str) -> (r: Option<&ProviderSetup>)
        ensures
            match r {
                Some(setup) => last_setup(self.setups@, name@) is Some && *setup
                    == self.setups@[last_setup(self.setups@, name@)->0],
                None => last_setup(self.setups@, name@) is None,
            },
    {
        match self.setup_index(name) {
            Some(i) => Some(&self.setups[i]),
            None => None,
        }
    }

    /// The rate limit of a provider in requests per minute.
    pub fn rpm_of(&self, name: &str) -> (r: u32)
        ensures
            r == (match last_setup(self.setups@, name@) {
                Some(i) => self.setups@[i].rpm,
                None => DEFAULT_RPM,
            }),
    {
        match self.setup_of(name) {
            Some(setup) => setup.rpm,
            None => DEFAULT_RPM,
        }
    }

    /// For how many seconds the responses of a provider are cached.
    pub fn ttl_of(&self, name: &str) -> (r: u64)
        ensures
            r == (match last_setup(self.setups@, name@) {
                Some(i) => self.setups@[i].cache_ttl_secs,
                None => self.cache_ttl_secs,
            }),
    {
        match self.setup_of(name) {
            Some(setup) => setup.cache_ttl_secs,
            None => self.cache_ttl_secs,
        }
    }

    /// How requests to a provider are retried: as is configured for all, with its own number
    /// of attempts where it has one.
    pub fn retry_for(&self, name: &str) -> (r: RetryConfig)
        ensures
            r == (RetryConfig {
                max_attempts: match last_setup(self.setups@, name@) {
                    Some(i) => match self.setups@[i].max_attempts {
                        Some(n) => n,
                        None => self.retry_config.max_attempts,
                    },
                    None => self.retry_config.max_attempts,
                },
                ..self.retry_config
            }),
    {
        let max_attempts: u32 = match self.setup_of(name) {
            Some(setup) => match setup.max_attempts {
                Some(n) => n,
                None => self.retry_config.max_attempts,
            },
            None => self.retry_config.max_attempts,
        };
        RetryConfig { max_attempts, ..self.retry_config }
    }

    /// The weights of the providers in the ranking, in order.
    pub fn provider_weights(&self) -> (r: Vec<(String, Double)>)
        ensures
            self.are_weights(r@),
    {
        let mut weights: Vec<(String, Double)> = Vec::new();
        let mut i: usize = 0;
        while i < self.setups.len()
            invariant
                i <= self.setups@.len(),
                weights@.len() == i,
                forall|k: int|
                    0 <= k < i ==> (#[trigger] weights@[k]).0@ == self.setups@[k].provider.label()
                        && weights@[k].1 == self.setups@[k].weight,
            decreases self.setups.len() - i,
        {
            let setup = &self.setups[i];
            weights.push((provider_label(&setup.provider).to_owned(), setup.weight));
            i = i + 1;
        }
        weights
    }

    /// What is decided about a search before any provider is asked.
    ///
    /// Dispatches based on `request.dispatch_mode` (falling back to the configured
    /// default). The providers are those that the request names, or all; of these the
    /// ones that are available and healthy, and in concurrent mode no browser
    /// automation.
    pub fn plan_search(&self, request: &SearchRequest) -> (r: SearchPlan)
        ensures
            r.mode == self.mode_for(*request),
            r.limit == self.limit_for(*request),
            text::views(r.providers@) == self.names_for(*request),
            request.providers@.len() > 0 ==> forall|i: int|
                0 <= i < r.providers@.len() ==> text::views(request.providers@).contains(
                    (#[trigger] r.providers@[i])@,
                ),
            dispatch::group_views(r.tiers@) == self.tiers_for(*request),
            r.cache_key@ == self.key_for(*request),
    {
        let mode = dispatch::dispatch_mode(&request.dispatch_mode, self.dispatch_mode.as_str());
        let limit: usize = dispatch::effective_limit(
            request.limit,
            self.default_limit,
            self.max_limit,
        );
        let providers = dispatch::select_providers(
            &self.catalog,
            &self.health,
            &request.providers,
            mode,
        );
        let tiers = if mode == DispatchMode::Tiered {
            dispatch::group_tiers(&self.ladder, &self.catalog, &providers)
        } else {
            let mut all: Vec<ProviderGroup> = Vec::new();
            let group = ProviderGroup { names: text::copy_strings(&providers), timeout_secs: None };
            let ghost view = group@;
            all.push(group);
            assert(dispatch::group_views(all@) =~= seq![view]);
            all
        };
        let cache_key = request_cache_key(request, providers.as_slice());
        let plan = SearchPlan { mode, limit, providers, tiers, cache_key };
        proof {
            plans_name_whom_the_request_allows(*self, *request, plan);
        }
        plan
    }

    /// The cache entry of the answer to a search: under the key of the request to the providers
    /// that contributed to it, with the default time to live.
    pub fn entry_for_answer(
        &self,
        request: &SearchRequest,
        answer: &SearchResponse,
        response_json: String,
        now: i64,
    ) -> (r: StoredEntry)
        ensures
            dispatch::is_entry_for(
                r,
                *request,
                text::views(answer.providers_used@),
                response_json,
                now,
                self.cache_ttl_secs,
            ),
    {
        dispatch::entry_for(
            request,
            answer.providers_used.as_slice(),
            response_json,
            now,
            self.cache_ttl_secs,
        )
    }

    /// The cache entry of what one provider answered: under the key of the request to it alone,
    /// with the time to live of its responses.
    pub fn entry_for_provider(
        &self,
        request: &SearchRequest,
        name: &str,
        response_json: String,
        now: i64,
    ) -> (r: StoredEntry)
        ensures
            dispatch::is_entry_for(
                r,
                *request,
                seq![name@],
                response_json,
                now,
                match last_setup(self.setups@, name@) {
                    Some(i) => self.setups@[i].cache_ttl_secs,
                    None => self.cache_ttl_secs,
                },
            ),
    {
        let mut providers: Vec<String> = Vec::new();
        providers.push(name.to_owned());
        assert(text::views(providers@) =~= seq![name@]);
        dispatch::entry_for(request, providers.as_slice(), response_json, now, self.ttl_of(name))
    }

    /// The key under which what one provider answers to a request is cached.
    pub fn provider_key(&self, request: &SearchRequest, name: &str) -> (r: String)
        ensures
            r@ == crate::cache::keys::key_of(
                crate::cache::keys::request_material(*request, seq![name@]),
            ),
    {
        let mut providers: Vec<String> = Vec::new();
        providers.push(name.to_owned());
        assert(text::views(providers@) =~= seq![name@]);
        request_cache_key(request, providers.as_slice())
    }

    /// Records what a provider came back with in its health state.
    pub fn record(&mut self, name: &str, outcome: &Result<SearchResponse, ProviderError>)
        ensures
            match old(self).health.value_of(name@) {
                None => *final(self) == *old(self),
                Some(state) => final(self).health.value_of(name@) matches Some(after)
                    && match *outcome {
                    Ok(_) => crate::daemon::health::follows_success(state@, after@),
                    Err(e) => crate::daemon::health::follows_failure(
                        dispatch::with_error(state@, e.text()),
                        after@,
                    ),
                },
            },
            forall|other: Seq<char>|
                other != name@ ==> #[trigger] final(self).health.value_of(other) == old(
                    self,
                ).health.value_of(other),
            *final(self) == (Manager { health: final(self).health, ..*old(self) }),
    {
        dispatch::record_outcome(&mut self.health, name, outcome);
    }
}

/// A plan names whom the request allows. Where the request names providers, each provider of
/// the plan is one of them. A provider is in the plan exactly where it is registered and
/// available, named if any are, not known to be unhealthy, and no browser automation in a
/// concurrent search.
pub proof fn plans_name_whom_the_request_allows(
    manager: Manager,
    request: SearchRequest,
    plan: SearchPlan,
)
    requires
        plan.mode == manager.mode_for(request),
        text::views(plan.providers@) == manager.names_for(request),
    ensures
        request.providers@.len() > 0 ==> forall|i: int|
            0 <= i < plan.providers@.len() ==> text::views(request.providers@).contains(
                (#[trigger] plan.providers@[i])@,
            ),
        forall|name: Seq<char>|
            (exists|i: int| 0 <= i < plan.providers@.len() && (#[trigger] plan.providers@[i])@ == name)
                <==> {
                &&& exists|k: int|
                    0 <= k < manager.catalog.registrations().len() && (
                    #[trigger] manager.catalog.registrations()[k]).name@ == name
                        && manager.catalog.registrations()[k].available && (plan.mode
                        == DispatchMode::Concurrent
                        ==> !manager.catalog.registrations()[k].tags@.contains(Tag::Playwright))
                &&& request.providers@.len() > 0 ==> exists|j: int|
                    0 <= j < request.providers@.len() && (#[trigger] request.providers@[j])@ == name
                &&& #[trigger] manager.health.value_of(name) matches Some(state) ==> state@.status
                    == crate::daemon::health::HealthStatus::Healthy
            },
{
    let entries = manager.catalog.registrations();
    let wanted = text::views(request.providers@);
    let asked = manager.names_for(request);
    let alone = plan.mode == DispatchMode::Concurrent;
    assert(wanted.len() == request.providers@.len());
    assert(asked.len() == plan.providers@.len());
    assert forall|name: Seq<char>|
        (exists|i: int| 0 <= i < plan.providers@.len() && (#[trigger] plan.providers@[i])@ == name)
            <==> {
            &&& exists|k: int|
                0 <= k < entries.len() && (#[trigger] entries[k]).name@ == name
                    && entries[k].available && (alone ==> !entries[k].tags@.contains(Tag::Playwright))
            &&& request.providers@.len() > 0 ==> exists|j: int|
                0 <= j < request.providers@.len() && (#[trigger] request.providers@[j])@ == name
            &&& #[trigger] manager.health.value_of(name) matches Some(state) ==> state@.status
                == crate::daemon::health::HealthStatus::Healthy
        } by {
        dispatch::providers_are_left_out_for_a_reason(entries, wanted, manager.health, alone, name);
        lemma_named_in(plan.providers@, name);
        lemma_named_in(request.providers@, name);
    }
    if request.providers@.len() > 0 {
        dispatch::only_named_providers_are_asked(entries, wanted, manager.health, alone);
        assert forall|i: int| 0 <= i < plan.providers@.len() implies wanted.contains(
            (#[trigger] plan.providers@[i])@,
        ) by {
            assert(asked[i] == plan.providers@[i]@);
        }
    }
}

proof fn lemma_named_in(list: Seq<String>, name: Seq<char>)
    ensures
        text::views(list).contains(name) <==> exists|i: int|
            0 <= i < list.len() && (#[trigger] list[i])@ == name,
{
    if text::views(list).contains(name) {
        let i = choose|i: int| 0 <= i < text::views(list).len() && text::views(list)[i] == name;
        assert(list[i]@ == name);
    }
    if exists|i: int| 0 <= i < list.len() && (#[trigger] list[i])@ == name {
        let i = choose|i: int| 0 <= i < list.len() && (#[trigger] list[i])@ == name;
        assert(text::views(list)[i] == name);
    }
}

/// There are four kinds of providers, told apart by their names.
pub proof fn there_are_four_kinds_of_providers(name: Seq<char>)
    ensures
        is_known_provider(name) <==> name == "duckduckgo"@ || name == "brave"@ || name == "jina"@
            || name == "searxng"@,
{
}

/// A setup is what its configuration asks for: the kind by its name, the key and the address
/// where the kind has them, and each setting from its own field, or the default where the
/// configuration has none: 30 requests per minute, a weight of one, the common time to live.
pub proof fn setups_follow_their_configuration(
    setup: ProviderSetup,
    cfg: ProviderConfig,
    default_ttl: u64,
)
    requires
        is_setup_for(setup, cfg, default_ttl),
    ensures
        cfg.name@ == "duckduckgo"@ <==> setup.provider is DuckDuckGo,
        cfg.name@ == "brave"@ <==> setup.provider is Brave,
        cfg.name@ == "jina"@ <==> setup.provider is Jina,
        cfg.name@ == "searxng"@ <==> setup.provider is Searxng,
        setup.provider matches SearchProvider::Brave(p) ==> p.api_key == cfg.api_key,
        setup.provider matches SearchProvider::Jina(p) ==> (cfg.api_key is Some ==> p.api_key@
            == cfg.api_key->0@) && (cfg.api_key is None ==> p.api_key@.len() == 0) && (
        cfg.base_url is Some ==> p.base_url@ == cfg.base_url->0@) && (cfg.base_url is None
            ==> p.base_url@ == "https://s.jina.ai"@),
        setup.provider matches SearchProvider::Searxng(p) ==> (cfg.base_url is Some ==> p.available
            && p.base_url@ == cfg.base_url->0@) && (cfg.base_url is None ==> !p.available),
        cfg.rate_limit_rpm is Some ==> setup.rpm == cfg.rate_limit_rpm->0,
        cfg.rate_limit_rpm is None ==> setup.rpm == 30,
        cfg.weight is Some ==> setup.weight.pattern() == cfg.weight->0.pattern(),
        cfg.weight is None ==> setup.weight.pattern() == 0x3FF0_0000_0000_0000,
        cfg.cache_ttl_secs is Some ==> setup.cache_ttl_secs == cfg.cache_ttl_secs->0,
        cfg.cache_ttl_secs is None ==> setup.cache_ttl_secs == default_ttl,
        setup.max_attempts == cfg.retry_max_attempts,
        setup.client.tls_shuffle_ciphers <==> cfg.tls_shuffle_ciphers == Some(true),
        setup.client.ip_rotation_strategy == cfg.ip_rotation_strategy,
        setup.client.ipv6_subnet == cfg.ipv6_subnet,
        setup.client.timeout_secs == cfg.timeout_secs,
        setup.client.proxies is Some <==> cfg.proxies is Some,
        cfg.proxies is Some ==> text::views(setup.client.proxies->0@) == text::views(
            cfg.proxies->0@,
        ),
{
    lemma_kinds_differ();
}

proof fn lemma_kinds_differ()
    ensures
        "duckduckgo"@ != "brave"@,
        "duckduckgo"@ != "jina"@,
        "duckduckgo"@ != "searxng"@,
        "brave"@ != "jina"@,
        "brave"@ != "searxng"@,
        "jina"@ != "searxng"@,
{
    reveal_strlit("duckduckgo");
    reveal_strlit("brave");
    reveal_strlit("jina");
    reveal_strlit("searxng");
    assert("duckduckgo"@.len() == 10 && "brave"@.len() == 5 && "jina"@.len() == 4
        && "searxng"@.len() == 7);
}

/// Exactly the enabled configurations count, in their order; and there is an unknown provider
/// exactly where one of them has none of the four names, of which the first is named.
pub proof fn exactly_the_enabled_count(cfgs: Seq<ProviderConfig>)
    ensures
        forall|i: int|
            0 <= i < enabled_configs(cfgs).len() ==> (#[trigger] enabled_configs(cfgs)[i]).enabled,
        forall|k: int|
            0 <= k < cfgs.len() && (#[trigger] cfgs[k]).enabled ==> enabled_configs(cfgs).contains(
                cfgs[k],
            ),
        first_unknown(cfgs) is None <==> forall|k: int|
            0 <= k < cfgs.len() && (#[trigger] cfgs[k]).enabled ==> cfgs[k].name@ == "duckduckgo"@
                || cfgs[k].name@ == "brave"@ || cfgs[k].name@ == "jina"@ || cfgs[k].name@
                == "searxng"@,
        forall|k: int|
            0 <= k < cfgs.len() && (#[trigger] cfgs[k]).enabled && cfgs[k].name@ != "duckduckgo"@
                && cfgs[k].name@ != "brave"@ && cfgs[k].name@ != "jina"@ && cfgs[k].name@
                != "searxng"@ && (forall|j: int|
                0 <= j < k && (#[trigger] cfgs[j]).enabled ==> cfgs[j].name@ == "duckduckgo"@
                    || cfgs[j].name@ == "brave"@ || cfgs[j].name@ == "jina"@ || cfgs[j].name@
                    == "searxng"@) ==> first_unknown(cfgs) == Some(cfgs[k].name@),
    decreases cfgs.len(),
{
    broadcast use vstd::seq_lib::group_filter_ensures;

    let on = |c: ProviderConfig| c.enabled;
    assert forall|i: int| 0 <= i < enabled_configs(cfgs).len() implies (
    #[trigger] enabled_configs(cfgs)[i]).enabled by {
        assert(on(cfgs.filter(on)[i]));
    }
    assert forall|k: int| 0 <= k < cfgs.len() && (
    #[trigger] cfgs[k]).enabled implies enabled_configs(cfgs).contains(cfgs[k]) by {
        assert(on(cfgs[k]));
    }
    if cfgs.len() > 0 {
        let front = cfgs.drop_last();
        exactly_the_enabled_count(front);
        let n = front.len() as int;
        assert(cfgs[n] == cfgs.last());
        assert forall|k: int| 0 <= k < front.len() implies #[trigger] front[k] == cfgs[k] by {}
        if first_unknown(front) is None {
            assert forall|k: int| 0 <= k < front.len() && (
            #[trigger] cfgs[k]).enabled implies cfgs[k].name@ == "duckduckgo"@ || cfgs[k].name@
                == "brave"@ || cfgs[k].name@ == "jina"@ || cfgs[k].name@ == "searxng"@ by {
                assert(front[k].enabled);
            }
        } else {
            let k = choose|k: int|
                0 <= k < front.len() && (#[trigger] front[k]).enabled && !(front[k].name@
                    == "duckduckgo"@ || front[k].name@ == "brave"@ || front[k].name@ == "jina"@
                    || front[k].name@ == "searxng"@);
            assert(cfgs[k].enabled);
        }
        assert forall|k: int|
            0 <= k < cfgs.len() && (#[trigger] cfgs[k]).enabled && cfgs[k].name@ != "duckduckgo"@
                && cfgs[k].name@ != "brave"@ && cfgs[k].name@ != "jina"@ && cfgs[k].name@
                != "searxng"@ && (forall|j: int|
                0 <= j < k && (#[trigger] cfgs[j]).enabled ==> cfgs[j].name@ == "duckduckgo"@
                    || cfgs[j].name@ == "brave"@ || cfgs[j].name@ == "jina"@ || cfgs[j].name@
                    == "searxng"@) implies first_unknown(cfgs) == Some(cfgs[k].name@) by {
            if k < n {
                assert(front[k].enabled);
                assert forall|j: int| 0 <= j < k && (
                #[trigger] front[j]).enabled implies front[j].name@ == "duckduckgo"@
                    || front[j].name@ == "brave"@ || front[j].name@ == "jina"@ || front[j].name@
                    == "searxng"@ by {
                    assert(cfgs[j].enabled);
                }
            } else {
                assert forall|j: int| 0 <= j < front.len() && (
                #[trigger] front[j]).enabled implies front[j].name@ == "duckduckgo"@
                    || front[j].name@ == "brave"@ || front[j].name@ == "jina"@ || front[j].name@
                    == "searxng"@ by {
                    assert(cfgs[j].enabled);
                }
            }
        }
    }
}

/// Whatever the kind of the provider, a search that is sent to it asks for the query: in a form
/// field, a parameter, a JSON body or the URL.
pub proof fn every_provider_is_asked_for_the_query(
    provider: SearchProvider,
    request: SearchRequest,
    http: HttpRequest,
)
    requires
        provider.is_call(request, Ok(http)),
    ensures
        provider is DuckDuckGo ==> http.post && http.url@ == "https://html.duckduckgo.com/html/"@
            && http@.params == seq![("q"@, request.query@)] && http.body is None,
        provider is Brave ==> !http.post && http@.params.contains(("q"@, request.query@)),
        provider matches SearchProvider::Jina(p) ==> http.post && http.url@ == p.base_url@
            && http.body is Some,
        provider matches SearchProvider::Searxng(p) ==> !http.post && (p.base_url@ + "/search?q="@
            + crate::search::providers::searxng::encoded(request.query@)).is_prefix_of(http.url@),
{
    match provider {
        SearchProvider::Brave(p) => {
            assert(http@.params[0] == ("q"@, request.query@));
        },
        SearchProvider::Searxng(p) => {
            let parts = crate::search::providers::searxng::the_url_says_what_the_request_says(
                p.base_url@,
                request,
            );
            let start = p.base_url@ + "/search?q="@
                + crate::search::providers::searxng::encoded(request.query@);
            assert(http.url@.subrange(0, start.len() as int) =~= start);
        },
        _ => {},
    }
}

/// Only providers with keys are denied by 401 and say how long to wait; a provider is ready where
/// what it needs is there: the key, or the address.
pub proof fn keys_decide(provider: SearchProvider)
    ensures
        provider.status_policy().unauthorized_is_denied <==> provider is Brave || provider is Jina,
        provider.status_policy().reads_retry_after <==> provider is Brave || provider is Jina,
        provider matches SearchProvider::Brave(p) ==> (provider.ready() <==> p.api_key is Some),
        provider matches SearchProvider::Jina(p) ==> (provider.ready() <==> p.api_key@.len() > 0),
        provider matches SearchProvider::Searxng(p) ==> provider.ready() == p.available,
        provider matches SearchProvider::DuckDuckGo(p) ==> provider.ready() == p.available,
{
}

/// What could not be sent or read is said with what the system says, but by the self-hosted
/// instance, which keeps to its own words.
pub proof fn failures_are_passed_on(
    provider: SearchProvider,
    what: Seq<char>,
    own: Seq<char>,
    message: Seq<char>,
)
    ensures
        provider is Searxng ==> provider.failure_text(what, own, message) == own,
        !(provider is Searxng) ==> provider.failure_text(what, own, message) == what + message,
{
}

/// The setup of a provider is the last one with its name.
pub proof fn the_last_setup_counts(setups: Seq<ProviderSetup>, name: Seq<char>, k: int)
    requires
        -1 <= k < setups.len(),
        k >= 0 ==> setups[k].provider.label() == name,
        forall|j: int| k < j < setups.len() ==> (#[trigger] setups[j]).provider.label() != name,
    ensures
        last_setup(setups, name) == (if k >= 0 {
            Some(k)
        } else {
            None
        }),
    decreases setups.len(),
{
    if setups.len() > 0 && k < setups.len() - 1 {
        assert(setups[setups.len() - 1].provider.label() != name);
        the_last_setup_counts(setups.drop_last(), name, k);
    }
}

/// In a concurrent search all providers of the plan are one group without a time limit; in a
/// tiered one they are grouped by the configured tiers and their tags. Either way each of them is
/// in one of the groups, and no other is.
pub proof fn groups_hold_the_providers_of_the_plan(
    manager: Manager,
    request: SearchRequest,
    plan: SearchPlan,
)
    requires
        plan.mode == manager.mode_for(request),
        text::views(plan.providers@) == manager.names_for(request),
        dispatch::group_views(plan.tiers@) == manager.tiers_for(request),
    ensures
        plan.mode == DispatchMode::Concurrent ==> plan.tiers@.len() == 1 && text::views(
            plan.tiers@[0].names@,
        ) == text::views(plan.providers@) && plan.tiers@[0].timeout_secs is None,
        forall|name: Seq<char>| #[trigger]
            text::views(plan.providers@).contains(name) <==> exists|k: int|
                0 <= k < plan.tiers@.len() && text::views(
                    (#[trigger] plan.tiers@[k]).names@,
                ).contains(name),
        plan.mode == DispatchMode::Tiered ==> forall|k: int|
            0 <= k < plan.tiers@.len() ==> (#[trigger] plan.tiers@[k]).names@.len() > 0,
        plan.mode == DispatchMode::Tiered ==> dispatch::group_views(plan.tiers@)
            == dispatch::groups_of(
            dispatch::ladder_views(manager.ladder@),
            manager.catalog.registrations(),
            text::views(plan.providers@),
        ),
{
    let views = dispatch::group_views(plan.tiers@);
    let ladder = dispatch::ladder_views(manager.ladder@);
    let entries = manager.catalog.registrations();
    let names = manager.names_for(request);
    assert(views.len() == plan.tiers@.len());
    assert forall|k: int| 0 <= k < plan.tiers@.len() implies (#[trigger] views[k]).names
        == text::views(plan.tiers@[k].names@) && views[k].timeout_secs
        == plan.tiers@[k].timeout_secs && views[k].names.len() == plan.tiers@[k].names@.len() by {}
    if plan.mode == DispatchMode::Tiered {
        dispatch::tiers_partition_by_priority(ladder, entries, names);
    } else {
        assert(views[0].names == names);
    }
    assert forall|name: Seq<char>| #[trigger]
        text::views(plan.providers@).contains(name) <==> exists|k: int|
            0 <= k < plan.tiers@.len() && text::views(
                (#[trigger] plan.tiers@[k]).names@,
            ).contains(name) by {
        if text::views(plan.providers@).contains(name) {
            if plan.mode == DispatchMode::Tiered {
                let k = choose|k: int|
                    0 <= k < views.len() && (#[trigger] views[k]).names.contains(name);
                assert(text::views(plan.tiers@[k].names@).contains(name));
            } else {
                assert(text::views(plan.tiers@[0].names@).contains(name));
            }
        }
        if exists|k: int|
            0 <= k < plan.tiers@.len() && text::views(
                (#[trigger] plan.tiers@[k]).names@,
            ).contains(name) {
            let k = choose|k: int|
                0 <= k < plan.tiers@.len() && text::views(
                    (#[trigger] plan.tiers@[k]).names@,
                ).contains(name);
            assert(views[k].names.contains(name));
        }
    }
    if plan.mode == DispatchMode::Tiered {
        assert forall|k: int| 0 <= k < plan.tiers@.len() implies (
        #[trigger] plan.tiers@[k]).names@.len() > 0 by {
            assert(views[k].names.len() > 0);
        }
    }
}

/// A request is run in tiers exactly where its own word is `tiered`, or where it has none and
/// the configured word is.
pub proof fn the_word_of_the_request_goes_first(manager: Manager, request: SearchRequest)
    ensures
        request.dispatch_mode is Some ==> (manager.mode_for(request) == DispatchMode::Tiered <==>
            request.dispatch_mode->0@ == "tiered"@),
        request.dispatch_mode is None ==> (manager.mode_for(request) == DispatchMode::Tiered <==>
            manager.dispatch_mode@ == "tiered"@),
        manager.mode_for(request) != DispatchMode::Tiered ==> manager.mode_for(request)
            == DispatchMode::Concurrent,
{
}

/// A search wants as many results as were asked for, the default where none were, and the cap
/// where that is less: it wants no more than either, and one of the two.
pub proof fn limits_are_asked_for_and_capped(manager: Manager, request: SearchRequest)
    ensures
        manager.limit_for(request) <= manager.max_limit,
        request.limit > 0 ==> manager.limit_for(request) <= request.limit && (manager.limit_for(
            request,
        ) == request.limit || manager.limit_for(request) == manager.max_limit),
        request.limit == 0 ==> manager.limit_for(request) <= manager.default_limit && (
        manager.limit_for(request) == manager.default_limit || manager.limit_for(request)
            == manager.max_limit),
{
}

/// What asking a provider that is not registered amounts to.
pub fn missing_provider(name: &str) -> (r: ProviderError)
    ensures
        r matches ProviderError::Internal(msg) && msg@ == "provider '"@ + name@
            + "' not found in catalog"@,
{
    ProviderError::Internal(text::concat3("provider '", name, "' not found in catalog"))
}

/// The name of a provider.
pub fn provider_label(provider: &SearchProvider) -> (r: &'static str)
    ensures
        r@ == provider.label(),
{
    match provider {
        SearchProvider::DuckDuckGo(p) => p.name(),
        SearchProvider::Brave(p) => p.name(),
        SearchProvider::Jina(p) => p.name(),
        SearchProvider::Searxng(p) => p.name(),
    }
}

fn register_all(setups: &Vec<ProviderSetup>) -> (r: (ProviderCatalog, NamedList<HealthState>))
    ensures
        is_catalog_of(r.0.registrations(), setups@),
        forall|name: Seq<char>|
            match #[trigger] r.1.value_of(name) {
                Some(state) => last_setup(setups@, name) is Some && is_fresh(state),
                None => last_setup(setups@, name) is None,
            },
{
    let mut catalog = ProviderCatalog::new();
    let mut health: NamedList<HealthState> = NamedList::new();
    let mut i: usize = 0;
    assert(setups@.take(0) =~= Seq::empty());
    assert(catalog::names_of(catalog.registrations()) =~= first_names(setups@.take(0)));
    while i < setups.len()
        invariant
            i <= setups@.len(),
            is_catalog_of(catalog.registrations(), setups@.take(i as int)),
            forall|name: Seq<char>|
                match #[trigger] health.value_of(name) {
                    Some(state) => last_setup(setups@.take(i as int), name) is Some && is_fresh(
                        state,
                    ),
                    None => last_setup(setups@.take(i as int), name) is None,
                },
        decreases setups.len() - i,
    {
        let entry = setups[i].provider.entry();
        let ghost before = catalog.registrations();
        let ghost done = setups@.take(i as int);
        let ghost now = setups@.take(i + 1);
        proof {
            assert(now.drop_last() =~= done);
            assert(now.last() == setups@[i as int]);
            lemma_registered_catalog(before, done, entry, setups@[i as int]);
            assert(now =~= done.push(setups@[i as int]));
        }
        health.set(entry.name.clone(), HealthState::new(FAILURE_THRESHOLD));
        catalog.register(entry);
        i = i + 1;
    }
    assert(setups@.take(setups@.len() as int) =~= setups@);
    (catalog, health)
}

/// Whether a health state is new.
pub open spec fn is_fresh(state: HealthState) -> bool {
    state@ == (crate::daemon::health::HealthView {
        events: Seq::empty(),
        consecutive_failures: 0,
        status: crate::daemon::health::HealthStatus::Healthy,
        threshold: FAILURE_THRESHOLD,
        successes: 0,
        failures: 0,
        last_error: None,
    })
}

proof fn lemma_last_setup_range(setups: Seq<ProviderSetup>, name: Seq<char>)
    ensures
        last_setup(setups, name) is Some ==> 0 <= last_setup(setups, name)->0 < setups.len(),
    decreases setups.len(),
{
    if setups.len() > 0 {
        lemma_last_setup_range(setups.drop_last(), name);
    }
}

proof fn lemma_registered_catalog(
    entries: Seq<ProviderEntry>,
    setups: Seq<ProviderSetup>,
    entry: ProviderEntry,
    setup: ProviderSetup,
)
    requires
        is_catalog_of(entries, setups),
        setup.provider.is_described_by(entry),
    ensures
        is_catalog_of(catalog::registered(entries, entry), setups.push(setup)),
{
    let now = catalog::registered(entries, entry);
    let more = setups.push(setup);
    assert(more.drop_last() =~= setups);
    catalog::last_registration_counts(entries, entry, entry.name@);
    catalog::lemma_registered_names(entries, entry);
    assert forall|name: Seq<char>|
        match #[trigger] catalog::entry_named(now, name) {
            Some(e) => last_setup(more, name) is Some && more[last_setup(
                more,
                name,
            )->0].provider.is_described_by(e),
            None => last_setup(more, name) is None,
        } by {
        catalog::last_registration_counts(entries, entry, name);
        lemma_last_setup_range(setups, name);
        assert(catalog::entry_named(entries, name) is Some ==> last_setup(setups, name) is Some);
    }
}

/// The key of a plan is that of the entry of an answer to the same request by the providers of
/// the plan, in whatever order they answered, so that such an answer is found again.
pub proof fn plans_look_where_answers_are_stored(
    manager: Manager,
    request: SearchRequest,
    plan: SearchPlan,
    entry: StoredEntry,
    answered: Seq<Seq<char>>,
    response_json: String,
    created_at: i64,
    ttl_secs: u64,
)
    requires
        text::views(plan.providers@) == manager.names_for(request),
        plan.cache_key@ == manager.key_for(request),
        dispatch::is_entry_for(entry, request, answered, response_json, created_at, ttl_secs),
        answered.to_multiset() == text::views(plan.providers@).to_multiset(),
    ensures
        plan.cache_key@ == entry.key@,
{
    crate::cache::keys::lemma_material_order(request, answered, text::views(plan.providers@));
}

/// The weight of a provider in the ranking is that of its last setup, and a provider without a
/// setup has none.
pub proof fn weights_are_those_of_the_setups(
    manager: Manager,
    weights: Seq<(String, Double)>,
    name: Seq<char>,
)
    requires
        manager.are_weights(weights),
    ensures
        last_setup(manager.setups@, name) matches Some(i) ==> crate::search::rank::weight_of(
            weights,
            name,
        ) == Some(manager.setups@[i].weight),
        last_setup(manager.setups@, name) is None ==> crate::search::rank::weight_of(weights, name)
            is None,
{
    lemma_weights(manager.setups@, weights, name);
}

proof fn lemma_weights(
    setups: Seq<ProviderSetup>,
    weights: Seq<(String, Double)>,
    name: Seq<char>,
)
    requires
        weights.len() == setups.len(),
        forall|i: int|
            0 <= i < weights.len() ==> (#[trigger] weights[i]).0@ == setups[i].provider.label()
                && weights[i].1 == setups[i].weight,
    ensures
        last_setup(setups, name) matches Some(i) ==> crate::search::rank::weight_of(weights, name)
            == Some(setups[i].weight),
        last_setup(setups, name) is None ==> crate::search::rank::weight_of(weights, name) is None,
    decreases setups.len(),
{
    if setups.len() > 0 {
        let n = setups.len() - 1;
        assert(weights[n].0@ == setups[n].provider.label());
        let front = setups.drop_last();
        assert forall|i: int| 0 <= i < front.len() implies (#[trigger] weights.drop_last()[i]).0@
            == front[i].provider.label() && weights.drop_last()[i].1 == front[i].weight by {
            assert(weights.drop_last()[i] == weights[i]);
        }
        lemma_weights(front, weights.drop_last(), name);
        lemma_last_setup_range(front, name);
    }
}

/// A provider of which nothing is known yet is healthy, stays so for two failures in a row, and is
/// taken out by the third.
pub proof fn the_third_failure_in_a_row_takes_a_provider_out(
    state: HealthState,
    first: u64,
    second: u64,
    third: u64,
)
    requires
        is_fresh(state),
    ensures
        state@.status == crate::daemon::health::HealthStatus::Healthy,
        ({
            let once = crate::daemon::health::after_failure(state@, first);
            let twice = crate::daemon::health::after_failure(once, second);
            let thrice = crate::daemon::health::after_failure(twice, third);
            &&& once.status == crate::daemon::health::HealthStatus::Healthy
            &&& twice.status == crate::daemon::health::HealthStatus::Healthy
            &&& thrice.status == crate::daemon::health::HealthStatus::Unhealthy
        }),
{
    let once = crate::daemon::health::after_failure(state@, first);
    let twice = crate::daemon::health::after_failure(once, second);
    crate::daemon::health::only_old_events_leave(state@.events, first);
    crate::daemon::health::only_old_events_leave(once.events, second);
    assert(once.events.len() <= 1);
    assert(twice.events.len() <= 2);
}

/// Every provider that is set up is in the catalog, and nothing else is.
pub proof fn the_catalog_holds_what_is_set_up(
    entries: Seq<ProviderEntry>,
    setups: Seq<ProviderSetup>,
)
    requires
        is_catalog_of(entries, setups),
    ensures
        forall|i: int|
            0 <= i < setups.len() ==> catalog::names_of(entries).contains(
                (#[trigger] setups[i]).provider.label(),
            ),
        forall|k: int|
            0 <= k < entries.len() ==> exists|i: int|
                0 <= i < setups.len() && (#[trigger] setups[i]).provider.label() == (
                #[trigger] entries[k]).name@,
        forall|j: int, k: int|
            0 <= j < k < entries.len() ==> (#[trigger] entries[j]).name@ != (
            #[trigger] entries[k]).name@,
{
    lemma_first_names(setups);
    let names = catalog::names_of(entries);
    assert forall|k: int| 0 <= k < entries.len() implies exists|i: int|
        0 <= i < setups.len() && (#[trigger] setups[i]).provider.label() == (
        #[trigger] entries[k]).name@ by {
        assert(names[k] == entries[k].name@);
        assert(names.contains(names[k]));
    }
}

proof fn lemma_first_names(setups: Seq<ProviderSetup>)
    ensures
        forall|i: int|
            0 <= i < setups.len() ==> first_names(setups).contains(
                (#[trigger] setups[i]).provider.label(),
            ),
        forall|name: Seq<char>| #[trigger]
            first_names(setups).contains(name) ==> exists|i: int|
                0 <= i < setups.len() && (#[trigger] setups[i]).provider.label() == name,
    decreases setups.len(),
{
    if setups.len() > 0 {
        let front = setups.drop_last();
        let before = first_names(front);
        let now = first_names(setups);
        let n = setups.len() - 1;
        lemma_first_names(front);
        assert forall|i: int| 0 <= i < setups.len() implies now.contains(
            (#[trigger] setups[i]).provider.label(),
        ) by {
            if i < n {
                assert(before.contains(front[i].provider.label()));
                let k = choose|k: int|
                    0 <= k < before.len() && before[k] == front[i].provider.label();
                assert(now[k] == before[k]);
            } else if !before.contains(setups[n].provider.label()) {
                assert(now[now.len() - 1] == setups[n].provider.label());
            }
        }
        assert forall|name: Seq<char>| #[trigger] now.contains(name) implies exists|i: int|
            0 <= i < setups.len() && (#[trigger] setups[i]).provider.label() == name by {
            let k = choose|k: int| 0 <= k < now.len() && now[k] == name;
            if k < before.len() {
                assert(before[k] == name);
                assert(before.contains(name));
                let i = choose|i: int|
                    0 <= i < front.len() && (#[trigger] front[i]).provider.label() == name;
                assert(setups[i].provider.label() == name);
            } else {
                assert(setups[n].provider.label() == name);
            }
        }
    }
}

/// How the catalog describes the four kinds: each by its name, with its tags, and available where
/// it is ready.
pub proof fn providers_are_described_as_they_are(provider: SearchProvider, entry: ProviderEntry)
    requires
        provider.is_described_by(entry),
    ensures
        provider is DuckDuckGo ==> entry.name@ == "duckduckgo"@ && entry.tags@ == seq![
            Tag::Web,
            Tag::Privacy,
        ],
        provider is Brave ==> entry.name@ == "brave"@ && entry.tags@ == seq![Tag::Web],
        provider is Jina ==> entry.name@ == "jina"@ && entry.tags@ == seq![Tag::Web],
        provider is Searxng ==> entry.name@ == "searxng"@ && entry.tags@ == seq![
            Tag::Web,
            Tag::Privacy,
        ],
        provider matches SearchProvider::Brave(p) ==> (entry.available <==> p.api_key is Some),
        provider matches SearchProvider::Jina(p) ==> (entry.available <==> p.api_key@.len() > 0),
        provider matches SearchProvider::Searxng(p) ==> entry.available == p.available,
        provider matches SearchProvider::DuckDuckGo(p) ==> entry.available == p.available,
{
}

} // verus!
