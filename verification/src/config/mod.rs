//! The configuration: its sections, their defaults, and how provider keys are
//! resolved.

use crate::double::Double;
use crate::text;
use std::collections::HashMap;
use std::sync::Arc;
use vstd::prelude::*;

pub mod overrides;

verus! {

/// Configuration for the daemon process lifecycle.
#[derive(Debug)]
pub struct DaemonConfig {
    /// Process name used for PID file and socket file naming.
    pub name: String,
    /// Directory for the Unix domain socket.
    pub socket_dir: String,
    /// Directory for the PID file.
    pub pid_dir: String,
    /// Seconds to wait for in-flight requests before force-shutdown.
    pub shutdown_grace_period_secs: u64,
    /// Log level: trace, debug, info, warn, error.
    pub log_level: String,
    /// Log file path. Empty string means stdout.
    pub log_file: String,
}

impl Default for DaemonConfig {
    fn default() -> (r: Self)
        ensures
            r.name@ == "skipjackd"@,
            r.socket_dir@ == "/tmp"@,
            r.pid_dir@ == "/tmp"@,
            r.shutdown_grace_period_secs == 30,
            r.log_level@ == "info"@,
            r.log_file@ == Seq::<char>::empty(),
    {
        DaemonConfig {
            name: "skipjackd".to_owned(),
            socket_dir: "/tmp".to_owned(),
            pid_dir: "/tmp".to_owned(),
            shutdown_grace_period_secs: 30,
            log_level: "info".to_owned(),
            log_file: String::new(),
        }
    }
}

/// Configuration for the local SQLite result cache.
#[derive(Debug)]
pub struct CacheConfig {
    /// Path to the SQLite cache database.
    pub db_path: String,
    /// Default TTL in seconds for cache entries.
    pub default_ttl_secs: u64,
    /// Interval in seconds between background eviction runs.
    pub eviction_interval_secs: u64,
}

/// Where the cache database lies by default, for a given home directory: under
/// the working directory where there is none.
pub open spec fn cache_db_path(home: Option<Seq<char>>) -> Seq<char> {
    let base = match home {
        Some(dir) => dir,
        None => "."@,
    };
    text::joined_path(
        text::joined_path(text::joined_path(base, ".cache"@), "skipjackd"@),
        "cache.db"@,
    )
}

/// `dirs::home_dir`: the home directory of the user, if there is one. It comes
/// from the environment of the process, so nothing is said of it.
#[verifier::external_body]
fn home_dir() -> (r: Option<String>)
{
    dirs::home_dir().map(|dir| dir.to_string_lossy().to_string())
}

/// Where the cache database lies by default, for a given home directory.
pub fn default_cache_db_path(home: Option<String>) -> (r: String)
    ensures
        r@ == cache_db_path(
            match home {
                Some(dir) => Some(dir@),
                None => None,
            },
        ),
{
    let base = match home {
        Some(dir) => dir,
        None => ".".to_owned(),
    };
    let cache = text::join_path(base.as_str(), ".cache");
    let own = text::join_path(cache.as_str(), "skipjackd");
    text::join_path(own.as_str(), "cache.db")
}

/// Where the configuration file lies by default, for a given home directory: under
/// the working directory where there is none.
pub open spec fn config_file_path(home: Option<Seq<char>>) -> Seq<char> {
    let base = match home {
        Some(dir) => dir,
        None => "."@,
    };
    text::joined_path(
        text::joined_path(text::joined_path(base, ".config"@), "skipjackd"@),
        "config.toml"@,
    )
}

/// Where the configuration file lies by default, for a given home directory.
pub fn default_config_path(home: Option<String>) -> (r: String)
    ensures
        r@ == config_file_path(
            match home {
                Some(dir) => Some(dir@),
                None => None,
            },
        ),
{
    let base = match home {
        Some(dir) => dir,
        None => ".".to_owned(),
    };
    let config = text::join_path(base.as_str(), ".config");
    let own = text::join_path(config.as_str(), "skipjackd");
    text::join_path(own.as_str(), "config.toml")
}

/// The configuration file to read: the given one, else the one in the user's home
/// directory.
pub fn config_path(given: Option<&str>) -> (r: String)
    ensures
        match given {
            Some(path) => r@ == path@,
            None => exists|home: Option<Seq<char>>| r@ == #[trigger] config_file_path(home),
        },
{
    match given {
        Some(path) => path.to_owned(),
        None => default_config_path(home_dir()),
    }
}

impl Default for CacheConfig {
    fn default() -> (r: Self)
        ensures
            exists|home: Option<Seq<char>>| r.db_path@ == #[trigger] cache_db_path(home),
            r.default_ttl_secs == 3600,
            r.eviction_interval_secs == 300,
    {
        CacheConfig {
            db_path: default_cache_db_path(home_dir()),
            default_ttl_secs: 3600,
            eviction_interval_secs: 300,
        }
    }
}

/// Global search request defaults and limits.
#[derive(Debug, Clone, Copy, PartialEq, Eq, Structural)]
pub struct SearchConfig {
    /// Default number of results to return.
    pub default_limit: u32,
    /// Hard cap on the number of results per request.
    pub max_limit: u32,
    /// Maximum time in seconds to wait for all providers.
    pub request_timeout_secs: u64,
}

impl Default for SearchConfig {
    fn default() -> (r: Self)
        ensures
            r == (SearchConfig { default_limit: 10, max_limit: 100, request_timeout_secs: 60 }),
    {
        SearchConfig { default_limit: 10, max_limit: 100, request_timeout_secs: 60 }
    }
}

/// Provider dispatch mode configuration.
#[derive(Debug)]
pub struct DispatchConfig {
    /// Dispatch mode: "concurrent" or "tiered".
    pub mode: String,
}

impl Default for DispatchConfig {
    fn default() -> (r: Self)
        ensures
            r.mode@ == "concurrent"@,
    {
        DispatchConfig { mode: "concurrent".to_owned() }
    }
}

/// Anti-blocking countermeasure parameters.
#[derive(Debug)]
pub struct AntiBlockingConfig {
    /// Pool of realistic browser User-Agent strings.
    pub user_agents: Vec<String>,
    /// Minimum delay in milliseconds between paginated page requests.
    pub page_delay_min_ms: u64,
    /// Maximum delay in milliseconds between paginated page requests.
    pub page_delay_max_ms: u64,
    /// Base delay in seconds for exponential backoff.
    pub retry_base_delay_secs: u64,
    /// Maximum retry attempts per provider per request.
    pub retry_max_attempts: u32,
    /// Cap in seconds for exponential backoff computation.
    pub retry_cap_secs: u64,
}

impl Default for AntiBlockingConfig {
    fn default() -> (r: Self)
        ensures
            text::views(r.user_agents@) == user_agent_list(),
            r.page_delay_min_ms == 500,
            r.page_delay_max_ms == 2000,
            r.retry_base_delay_secs == 1,
            r.retry_max_attempts == 3,
            r.retry_cap_secs == 60,
    {
        AntiBlockingConfig {
            user_agents: default_user_agents(),
            page_delay_min_ms: 500,
            page_delay_max_ms: 2000,
            retry_base_delay_secs: 1,
            retry_max_attempts: 3,
            retry_cap_secs: 60,
        }
    }
}

/// The browser User-Agent strings that requests carry by default.
pub open spec fn user_agent_list() -> Seq<Seq<char>> {
    seq![
        "Mozilla/5.0 (Windows NT 10.0; Win64; x64) AppleWebKit/537.36 (KHTML, like Gecko) Chrome/131.0.0.0 Safari/537.36"@,
        "Mozilla/5.0 (Macintosh; Intel Mac OS X 10_15_7) AppleWebKit/537.36 (KHTML, like Gecko) Chrome/131.0.0.0 Safari/537.36"@,
        "Mozilla/5.0 (Windows NT 10.0; Win64; x64; rv:134.0) Gecko/20100101 Firefox/134.0"@,
        "Mozilla/5.0 (Macintosh; Intel Mac OS X 10.15; rv:134.0) Gecko/20100101 Firefox/134.0"@,
        "Mozilla/5.0 (Macintosh; Intel Mac OS X 10_15_7) AppleWebKit/605.1.15 (KHTML, like Gecko) Version/18.2 Safari/605.1.15"@,
        "Mozilla/5.0 (X11; Linux x86_64) AppleWebKit/537.36 (KHTML, like Gecko) Chrome/131.0.0.0 Safari/537.36"@,
        "Mozilla/5.0 (X11; Linux x86_64; rv:134.0) Gecko/20100101 Firefox/134.0"@,
        "Mozilla/5.0 (Windows NT 10.0; Win64; x64) AppleWebKit/537.36 (KHTML, like Gecko) Chrome/131.0.0.0 Safari/537.36 Edg/131.0.0.0"@,
        "Mozilla/5.0 (Windows NT 10.0; Win64; x64) AppleWebKit/537.36 (KHTML, like Gecko) Chrome/130.0.0.0 Safari/537.36"@,
        "Mozilla/5.0 (Macintosh; Intel Mac OS X 10_15_7) AppleWebKit/537.36 (KHTML, like Gecko) Chrome/130.0.0.0 Safari/537.36"@,
        "Mozilla/5.0 (Windows NT 10.0; Win64; x64; rv:133.0) Gecko/20100101 Firefox/133.0"@,
        "Mozilla/5.0 (Macintosh; Intel Mac OS X 10_15_7) AppleWebKit/605.1.15 (KHTML, like Gecko) Version/17.6 Safari/605.1.15"@,
        "Mozilla/5.0 (Windows NT 10.0; Win64; x64) AppleWebKit/537.36 (KHTML, like Gecko) Chrome/129.0.0.0 Safari/537.36"@,
        "Mozilla/5.0 (X11; Linux x86_64; rv:132.0) Gecko/20100101 Firefox/132.0"@,
        "Mozilla/5.0 (Windows NT 10.0; Win64; x64) AppleWebKit/537.36 (KHTML, like Gecko) Chrome/131.0.0.0 Safari/537.36"@,
        "Mozilla/5.0 (Windows NT 10.0; Win64; x64; rv:134.0) Gecko/20100101 Firefox/134.0"@,
        "Mozilla/5.0 (Macintosh; Intel Mac OS X 10_15_7) AppleWebKit/537.36 (KHTML, like Gecko) Chrome/128.0.0.0 Safari/537.36"@,
        "Mozilla/5.0 (X11; Linux x86_64; rv:128.0) Gecko/20100101 Firefox/128.0"@,
        "Mozilla/5.0 (X11; Linux x86_64) AppleWebKit/537.36 (KHTML, like Gecko) Chrome/127.0.0.0 Safari/537.36"@,
        "Mozilla/5.0 (Macintosh; Intel Mac OS X 10_15_7) AppleWebKit/605.1.15 (KHTML, like Gecko) Version/16.6 Safari/605.1.15"@,
    ]
}

/// The browser User-Agent strings that requests carry by default.
pub fn default_user_agents() -> (r: Vec<String>)
    ensures
        text::views(r@) == user_agent_list(),
{
    let mut agents: Vec<String> = Vec::new();
    // Chrome 131 on Windows 10
    agents.push("Mozilla/5.0 (Windows NT 10.0; Win64; x64) AppleWebKit/537.36 (KHTML, like Gecko) Chrome/131.0.0.0 Safari/537.36".to_owned());
    // Chrome 131 on macOS
    agents.push("Mozilla/5.0 (Macintosh; Intel Mac OS X 10_15_7) AppleWebKit/537.36 (KHTML, like Gecko) Chrome/131.0.0.0 Safari/537.36".to_owned());
    // Firefox 134 on Windows 10
    agents.push("Mozilla/5.0 (Windows NT 10.0; Win64; x64; rv:134.0) Gecko/20100101 Firefox/134.0".to_owned());
    // Firefox 134 on macOS
    agents.push("Mozilla/5.0 (Macintosh; Intel Mac OS X 10.15; rv:134.0) Gecko/20100101 Firefox/134.0".to_owned());
    // Safari 18 on macOS
    agents.push("Mozilla/5.0 (Macintosh; Intel Mac OS X 10_15_7) AppleWebKit/605.1.15 (KHTML, like Gecko) Version/18.2 Safari/605.1.15".to_owned());
    // Chrome 131 on Linux
    agents.push("Mozilla/5.0 (X11; Linux x86_64) AppleWebKit/537.36 (KHTML, like Gecko) Chrome/131.0.0.0 Safari/537.36".to_owned());
    // Firefox 134 on Linux
    agents.push("Mozilla/5.0 (X11; Linux x86_64; rv:134.0) Gecko/20100101 Firefox/134.0".to_owned());
    // Edge 131 on Windows 10
    agents.push("Mozilla/5.0 (Windows NT 10.0; Win64; x64) AppleWebKit/537.36 (KHTML, like Gecko) Chrome/131.0.0.0 Safari/537.36 Edg/131.0.0.0".to_owned());
    // Chrome 130 on Windows 10
    agents.push("Mozilla/5.0 (Windows NT 10.0; Win64; x64) AppleWebKit/537.36 (KHTML, like Gecko) Chrome/130.0.0.0 Safari/537.36".to_owned());
    // Chrome 130 on macOS
    agents.push("Mozilla/5.0 (Macintosh; Intel Mac OS X 10_15_7) AppleWebKit/537.36 (KHTML, like Gecko) Chrome/130.0.0.0 Safari/537.36".to_owned());
    // Firefox 133 on Windows 10
    agents.push("Mozilla/5.0 (Windows NT 10.0; Win64; x64; rv:133.0) Gecko/20100101 Firefox/133.0".to_owned());
    // Safari 17 on macOS
    agents.push("Mozilla/5.0 (Macintosh; Intel Mac OS X 10_15_7) AppleWebKit/605.1.15 (KHTML, like Gecko) Version/17.6 Safari/605.1.15".to_owned());
    // Chrome 129 on Windows 10
    agents.push("Mozilla/5.0 (Windows NT 10.0; Win64; x64) AppleWebKit/537.36 (KHTML, like Gecko) Chrome/129.0.0.0 Safari/537.36".to_owned());
    // Firefox 132 on Linux
    agents.push("Mozilla/5.0 (X11; Linux x86_64; rv:132.0) Gecko/20100101 Firefox/132.0".to_owned());
    // Chrome 131 on Windows 11 ARM
    agents.push("Mozilla/5.0 (Windows NT 10.0; Win64; x64) AppleWebKit/537.36 (KHTML, like Gecko) Chrome/131.0.0.0 Safari/537.36".to_owned());
    // Firefox 134 on Windows 11
    agents.push("Mozilla/5.0 (Windows NT 10.0; Win64; x64; rv:134.0) Gecko/20100101 Firefox/134.0".to_owned());
    // Chrome 128 on macOS
    agents.push("Mozilla/5.0 (Macintosh; Intel Mac OS X 10_15_7) AppleWebKit/537.36 (KHTML, like Gecko) Chrome/128.0.0.0 Safari/537.36".to_owned());
    // Firefox ESR 128 on Linux
    agents.push("Mozilla/5.0 (X11; Linux x86_64; rv:128.0) Gecko/20100101 Firefox/128.0".to_owned());
    // Chrome 127 on Linux
    agents.push("Mozilla/5.0 (X11; Linux x86_64) AppleWebKit/537.36 (KHTML, like Gecko) Chrome/127.0.0.0 Safari/537.36".to_owned());
    // Safari 16 on macOS
    agents.push("Mozilla/5.0 (Macintosh; Intel Mac OS X 10_15_7) AppleWebKit/605.1.15 (KHTML, like Gecko) Version/16.6 Safari/605.1.15".to_owned());
    assert(text::views(agents@) =~= user_agent_list());
    agents
}

/// Configuration for result ranking weight dimensions.
#[derive(Debug, Clone, Copy, PartialEq, Eq, Structural)]
pub struct RankingConfig {
    /// The weight of the provider a result came from.
    pub provider_reputation: RankingDimension,
    /// The weight of a result's place among those of its provider.
    pub result_position: RankingDimension,
    /// The weight of a recent publication date.
    pub freshness_bonus: FreshnessBonusDimension,
}

/// A single ranking weight dimension with an enable toggle and weight.
#[derive(Debug, Clone, Copy, PartialEq, Eq, Structural)]
pub struct RankingDimension {
    /// Whether this dimension contributes to the composite score.
    pub enabled: bool,
    /// Weight multiplier for this dimension.
    pub weight: Double,
}

/// Freshness bonus dimension: a ranking dimension with a time window.
#[derive(Debug, Clone, Copy, PartialEq, Eq, Structural)]
pub struct FreshnessBonusDimension {
    /// Whether the freshness bonus is active.
    pub enabled: bool,
    /// Weight multiplier for the freshness bonus.
    pub weight: Double,
    /// Number of days within which results receive a freshness boost.
    pub window_days: u32,
}

impl Default for RankingConfig {
    fn default() -> (r: Self)
        ensures
            !r.provider_reputation.enabled,
            r.provider_reputation.weight.pattern() == 0x3FF0_0000_0000_0000,
            r.result_position.enabled,
            r.result_position.weight.pattern() == 0x3FF0_0000_0000_0000,
            !r.freshness_bonus.enabled,
            r.freshness_bonus.weight.pattern() == 0,
            r.freshness_bonus.window_days == 7,
    {
        RankingConfig {
            provider_reputation: RankingDimension { enabled: false, weight: Double::one() },
            result_position: RankingDimension { enabled: true, weight: Double::one() },
            freshness_bonus: FreshnessBonusDimension {
                enabled: false,
                weight: Double::zero(),
                window_days: 7,
            },
        }
    }
}

impl Default for RankingDimension {
    fn default() -> (r: Self)
        ensures
            !r.enabled,
            r.weight.pattern() == 0,
    {
        RankingDimension { enabled: false, weight: Double::zero() }
    }
}

impl Default for FreshnessBonusDimension {
    fn default() -> (r: Self)
        ensures
            !r.enabled,
            r.weight.pattern() == 0,
            r.window_days == 7,
    {
        FreshnessBonusDimension { enabled: false, weight: Double::zero(), window_days: 7 }
    }
}

/// Per-provider configuration.
#[derive(Debug)]
pub struct ProviderConfig {
    /// Unique provider name (e.g., "duckduckgo", "brave").
    pub name: String,
    /// Whether this provider participates in dispatch.
    pub enabled: bool,
    /// API key (literal value in config).
    pub api_key: Option<String>,
    /// Name of environment variable holding the API key.
    pub api_key_env: Option<String>,
    /// Override the provider's default base URL.
    pub base_url: Option<String>,
    /// Per-provider timeout in seconds.
    pub timeout_secs: Option<u64>,
    /// Provider weight for ranking.
    pub weight: Option<Double>,
    /// Per-provider cache TTL override in seconds.
    pub cache_ttl_secs: Option<u64>,
    /// Whether to shuffle TLS cipher suites for this provider.
    pub tls_shuffle_ciphers: Option<bool>,
    /// IP rotation strategy: "static", "ipv6_pool", "proxy_pool".
    pub ip_rotation_strategy: Option<String>,
    /// IPv6 subnet in CIDR notation (for ipv6_pool strategy).
    pub ipv6_subnet: Option<String>,
    /// List of proxy URLs (for proxy_pool strategy).
    pub proxies: Option<Vec<String>>,
    /// Rate limit in requests per minute.
    pub rate_limit_rpm: Option<u32>,
    /// Per-provider override for max retry attempts.
    pub retry_max_attempts: Option<u32>,
    /// Semantic tags for provider categorization.
    pub tags: Option<Vec<String>>,
}

impl Default for ProviderConfig {
    fn default() -> (r: Self)
        ensures
            r.name@ == Seq::<char>::empty(),
            r.enabled,
            r.api_key is None,
            r.api_key_env is None,
            r.base_url is None,
            r.timeout_secs is None,
            r.weight is None,
            r.cache_ttl_secs is None,
            r.tls_shuffle_ciphers is None,
            r.ip_rotation_strategy is None,
            r.ipv6_subnet is None,
            r.proxies is None,
            r.rate_limit_rpm is None,
            r.retry_max_attempts is None,
            r.tags is None,
    {
        ProviderConfig {
            name: String::new(),
            enabled: true,
            api_key: None,
            api_key_env: None,
            base_url: None,
            timeout_secs: None,
            weight: None,
            cache_ttl_secs: None,
            tls_shuffle_ciphers: None,
            ip_rotation_strategy: None,
            ipv6_subnet: None,
            proxies: None,
            rate_limit_rpm: None,
            retry_max_attempts: None,
            tags: None,
        }
    }
}

/// Tiered dispatch configuration.
#[derive(Debug)]
pub struct TierConfig {
    /// Ordered list of tier numbers (e.g., [0, 1, 2, 3, 4, 5]).
    pub order: Vec<u32>,
    /// Map of tier number to tier definition.
    pub tiers: HashMap<u32, TierDef>,
}

impl Default for TierConfig {
    fn default() -> (r: Self)
        ensures
            r.order@.len() == 0,
            r.tiers@ == Map::<u32, TierDef>::empty(),
    {
        TierConfig { order: Vec::new(), tiers: HashMap::new() }
    }
}

/// Definition for a single dispatch tier.
#[derive(Debug)]
pub struct TierDef {
    /// Provider names in this tier.
    pub providers: Vec<String>,
    /// Maximum time in seconds for this tier to complete.
    pub timeout_secs: u64,
}

/// A dispatch tier by what it holds.
#[verifier::ext_equal]
pub struct TierView {
    /// Provider names in this tier.
    pub providers: Seq<Seq<char>>,
    /// Maximum time in seconds for this tier to complete.
    pub timeout_secs: u64,
}

impl View for TierDef {
    type V = TierView;

    open spec fn view(&self) -> TierView {
        TierView { providers: text::views(self.providers@), timeout_secs: self.timeout_secs }
    }
}

/// The tiers in the configured order. A number without a definition stands for none.
pub open spec fn ladder_of(order: Seq<u32>, tiers: Map<u32, TierDef>) -> Seq<TierView>
    decreases order.len(),
{
    if order.len() == 0 {
        Seq::empty()
    } else {
        let before = ladder_of(order.drop_last(), tiers);
        if tiers.contains_key(order.last()) {
            before.push(tiers[order.last()]@)
        } else {
            before
        }
    }
}

impl TierConfig {
    /// The tiers in the configured order. A number without a definition stands for none.
    pub fn ladder(&self) -> (r: Vec<TierDef>)
        ensures
            r@.map_values(|t: TierDef| t@) == ladder_of(self.order@, self.tiers@),
    {
        broadcast use vstd::std_specs::hash::group_hash_axioms;

        let ghost view = |t: TierDef| t@;
        let mut steps: Vec<TierDef> = Vec::new();
        let mut i: usize = 0;
        assert(self.order@.take(0) =~= Seq::empty());
        assert(steps@.map_values(view) =~= Seq::empty());
        while i < self.order.len()
            invariant
                i <= self.order@.len(),
                view == (|t: TierDef| t@),
                steps@.map_values(view) == ladder_of(self.order@.take(i as int), self.tiers@),
            decreases self.order.len() - i,
        {
            proof {
                let now = self.order@.take(i + 1);
                assert(now.drop_last() =~= self.order@.take(i as int));
                assert(now.last() == self.order@[i as int]);
            }
            if let Some(tier) = self.tiers.get(&self.order[i]) {
                let ghost prior = steps@;
                let step = TierDef {
                    providers: text::copy_strings(&tier.providers),
                    timeout_secs: tier.timeout_secs,
                };
                let ghost held = step@;
                assert(held == tier@);
                steps.push(step);
                assert(steps@.map_values(view) =~= prior.map_values(view).push(held));
            }
            i = i + 1;
        }
        assert(self.order@.take(self.order@.len() as int) =~= self.order@);
        steps
    }
}

impl Default for TierDef {
    fn default() -> (r: Self)
        ensures
            r.providers@.len() == 0,
            r.timeout_secs == 10,
    {
        TierDef { providers: Vec::new(), timeout_secs: 10 }
    }
}

/// Root configuration combining all sections.
#[derive(Debug)]
pub struct Config {
    /// Daemon lifecycle settings.
    pub daemon: DaemonConfig,
    /// Local cache settings.
    pub cache: CacheConfig,
    /// Global search defaults.
    pub search: SearchConfig,
    /// Provider dispatch mode.
    pub dispatch: DispatchConfig,
    /// Anti-blocking countermeasure parameters.
    pub anti_blocking: AntiBlockingConfig,
    /// Ranking weight dimensions.
    pub ranking: RankingConfig,
    /// Configured search providers.
    pub providers: Vec<ProviderConfig>,
    /// Tiered dispatch configuration.
    pub tiers: TierConfig,
}

impl Default for Config {
    fn default() -> (r: Self)
        ensures
            call_ensures(<DaemonConfig as Default>::default, (), r.daemon),
            call_ensures(<CacheConfig as Default>::default, (), r.cache),
            call_ensures(<SearchConfig as Default>::default, (), r.search),
            call_ensures(<DispatchConfig as Default>::default, (), r.dispatch),
            call_ensures(<AntiBlockingConfig as Default>::default, (), r.anti_blocking),
            call_ensures(<RankingConfig as Default>::default, (), r.ranking),
            r.providers@.len() == 0,
            call_ensures(<TierConfig as Default>::default, (), r.tiers),
    {
        Config {
            daemon: DaemonConfig::default(),
            cache: CacheConfig::default(),
            search: SearchConfig::default(),
            dispatch: DispatchConfig::default(),
            anti_blocking: AntiBlockingConfig::default(),
            ranking: RankingConfig::default(),
            providers: Vec::new(),
            tiers: TierConfig::default(),
        }
    }
}

/// The value of an environment variable: that of the first entry with its name.
pub open spec fn lookup_var(env: Seq<(String, String)>, name: Seq<char>) -> Option<String>
    decreases env.len(),
{
    if env.len() == 0 {
        None
    } else if env[0].0@ == name {
        Some(env[0].1)
    } else {
        lookup_var(env.drop_first(), name)
    }
}

/// A provider once its key is resolved: from the variable that it names where it
/// holds no key itself, and disabled where that variable is not set.
pub open spec fn resolved_provider(p: ProviderConfig, env: Seq<(String, String)>) -> ProviderConfig {
    if p.api_key is Some || p.api_key_env is None {
        p
    } else {
        match lookup_var(env, p.api_key_env->0@) {
            Some(key) => ProviderConfig { api_key: Some(key), ..p },
            None => ProviderConfig { enabled: false, ..p },
        }
    }
}

/// The value of an environment variable.
fn find_var(env: &Vec<(String, String)>, name: &str) -> (r: Option<String>)
    ensures
        r == lookup_var(env@, name@),
{
    let mut i: usize = 0;
    assert(env@.skip(0) =~= env@);
    while i < env.len()
        invariant
            i <= env.len(),
            lookup_var(env@, name@) == lookup_var(env@.skip(i as int), name@),
        decreases env.len() - i,
    {
        assert(env@.skip(i as int)[0] == env@[i as int]);
        assert(env@.skip(i as int).drop_first() =~= env@.skip(i + 1));
        if text::same(env[i].0.as_str(), name) {
            return Some(env[i].1.clone());
        }
        i = i + 1;
    }
    None
}

impl Config {
    /// Validate provider configurations after loading.
    ///
    /// A provider that has `api_key_env` set but no `api_key` gets the value of that
    /// variable of `env`; where it is not set, the provider is disabled. Providers
    /// without either an API key or an `api_key_env` are assumed to be keyless (e.g.,
    /// HTML scraping providers) and are left as-is.
    pub fn validate_providers(&mut self, env: &Vec<(String, String)>)
        ensures
            final(self).providers@ == old(self).providers@.map_values(
                |p: ProviderConfig| resolved_provider(p, env@),
            ),
            *final(self) == (Config { providers: final(self).providers, ..*old(self) }),
    {
        let ghost before = self.providers@;
        let mut i: usize = 0;
        while i < self.providers.len()
            invariant
                i <= self.providers.len(),
                before == old(self).providers@,
                self.providers@.len() == before.len(),
                forall|j: int|
                    0 <= j < i ==> self.providers@[j] == resolved_provider(before[j], env@),
                forall|j: int| i <= j < before.len() ==> self.providers@[j] == before[j],
                *self == (Config { providers: self.providers, ..*old(self) }),
            decreases self.providers.len() - i,
        {
            if self.providers[i].api_key.is_none() {
                if let Some(var) = &self.providers[i].api_key_env {
                    match find_var(env, var.as_str()) {
                        Some(key) => {
                            self.providers[i].api_key = Some(key);
                        },
                        None => {
                            self.providers[i].enabled = false;
                        },
                    }
                }
            }
            i = i + 1;
        }
        assert(self.providers@ =~= before.map_values(
            |p: ProviderConfig| resolved_provider(p, env@),
        ));
    }

    /// Consume the config and wrap it in an `Arc` for sharing across threads.
    pub fn freeze(self) -> (r: Arc<Config>)
        ensures
            *r == self,
    {
        Arc::new(self)
    }
}

/// A provider without a key that names no variable is left as it is; one that names a
/// variable gets its value, or is switched off where the variable is not set; and resolving
/// twice is resolving once.
pub proof fn keys_are_resolved_or_the_provider_is_off(
    p: ProviderConfig,
    env: Seq<(String, String)>,
)
    ensures
        p.api_key is Some || p.api_key_env is None ==> resolved_provider(p, env) == p,
        p.api_key is None && p.api_key_env is Some ==> {
            &&& lookup_var(env, p.api_key_env->0@) is Some ==> resolved_provider(p, env).api_key
                == lookup_var(env, p.api_key_env->0@) && resolved_provider(p, env).enabled
                == p.enabled
            &&& lookup_var(env, p.api_key_env->0@) is None ==> !resolved_provider(p, env).enabled
        },
        resolved_provider(resolved_provider(p, env), env) == resolved_provider(p, env),
{
}

/// A variable has the value of the first entry with its name, and none where there is no such
/// entry.
pub proof fn the_first_entry_of_a_variable_counts(
    env: Seq<(String, String)>,
    name: Seq<char>,
    i: int,
)
    requires
        0 <= i <= env.len(),
        forall|j: int| 0 <= j < i ==> (#[trigger] env[j]).0@ != name,
        i < env.len() ==> env[i].0@ == name,
    ensures
        i < env.len() ==> lookup_var(env, name) == Some(env[i].1),
        i == env.len() ==> lookup_var(env, name) is None,
    decreases env.len(),
{
    if i > 0 {
        let rest = env.drop_first();
        assert(env[0].0@ != name);
        assert forall|j: int| 0 <= j < i - 1 implies (#[trigger] rest[j]).0@ != name by {
            assert(rest[j] == env[j + 1]);
        }
        the_first_entry_of_a_variable_counts(rest, name, i - 1);
    }
}

/// Resolving a key changes nothing but the key, or whether the provider is on; a key that the
/// provider holds is never replaced, and a provider that is off stays off.
pub proof fn resolving_touches_nothing_else(p: ProviderConfig, env: Seq<(String, String)>)
    ensures
        ({
            let r = resolved_provider(p, env);
            &&& r.name == p.name
            &&& r.api_key_env == p.api_key_env
            &&& r.base_url == p.base_url
            &&& r.timeout_secs == p.timeout_secs
            &&& r.weight == p.weight
            &&& r.cache_ttl_secs == p.cache_ttl_secs
            &&& r.tls_shuffle_ciphers == p.tls_shuffle_ciphers
            &&& r.ip_rotation_strategy == p.ip_rotation_strategy
            &&& r.ipv6_subnet == p.ipv6_subnet
            &&& r.proxies == p.proxies
            &&& r.rate_limit_rpm == p.rate_limit_rpm
            &&& r.retry_max_attempts == p.retry_max_attempts
            &&& r.tags == p.tags
            &&& p.api_key is Some ==> r.api_key == p.api_key && r.enabled == p.enabled
            &&& !p.enabled ==> !r.enabled
            &&& r.enabled && r.api_key_env is Some ==> r.api_key is Some
        }),
{
}

/// The tiers are those that the order names and that are defined, in that order.
pub proof fn tiers_come_in_the_configured_order(order: Seq<u32>, tiers: Map<u32, TierDef>)
    ensures
        ladder_of(order, tiers) == order.filter(|n: u32| tiers.contains_key(n)).map_values(
            |n: u32| TierView {
                providers: text::views(tiers[n].providers@),
                timeout_secs: tiers[n].timeout_secs,
            },
        ),
    decreases order.len(),
{
    let defined = |n: u32| tiers.contains_key(n);
    let view = |n: u32| TierView {
        providers: text::views(tiers[n].providers@),
        timeout_secs: tiers[n].timeout_secs,
    };
    reveal(Seq::filter);
    if order.len() > 0 {
        let front = order.drop_last();
        tiers_come_in_the_configured_order(front, tiers);
        if tiers.contains_key(order.last()) {
            assert(front.filter(defined).push(order.last()).map_values(view) =~= front.filter(
                defined,
            ).map_values(view).push(view(order.last())));
        }
    } else {
        assert(ladder_of(order, tiers) =~= order.filter(defined).map_values(view));
    }
}

} // verus!
