use skipjackd::anti_blocking::agents::ua_pool;
use skipjackd::anti_blocking::ip_rotation::{Route, RotationStrategy};
use skipjackd::anti_blocking::page_delay::{next_page_delay_ms, page_delay_ms};
use skipjackd::anti_blocking::rate_limiter::{Slot, WINDOW_NANOS};
use skipjackd::anti_blocking::retry::{RetryStep, computed_backoff, next_retry, retry_step};
use skipjackd::anti_blocking::tls::shuffled_order;
use skipjackd::anti_blocking::{
    ClassifyRetry, IpRotationStrategy, Ipv6PoolStrategy, PageDelay, ProxyPoolStrategy,
    RateLimiter, RequestPacer, RetryConfig, RotatingClient, StaticIpStrategy, UserAgentPool, build_ip_rotation_strategy,
    build_shuffled_tls_config, can_shuffle_ciphers,
};
use skipjackd::config::AntiBlockingConfig;
use skipjackd::net::IpAddr;
use skipjackd::search::ProviderError;
use std::collections::HashSet;
use std::sync::Arc;
use std::sync::atomic::{AtomicUsize, Ordering};

// ---------------------------------------------------------------------------
// User agents
// ---------------------------------------------------------------------------

#[test]
fn pool_has_expected_minimum_size() {
    let pool = ua_pool();
    assert!(
        pool.len() >= 20,
        "expected at least 20 user-agent strings, got {}",
        pool.len()
    );
}

#[test]
fn pool_entries_are_non_empty() {
    for ua in ua_pool() {
        assert!(!ua.is_empty(), "found empty user-agent string in pool");
        assert!(
            ua.contains("Mozilla"),
            "UA string does not contain 'Mozilla': {}",
            ua
        );
    }
}

#[test]
fn random_ua_returns_different_values_over_multiple_calls() {
    let samples: Vec<String> = (0..100).map(|_| UserAgentPool::random_ua()).collect();
    let unique: HashSet<&str> = samples.iter().map(|s| s.as_str()).collect();
    assert!(
        unique.len() > 1,
        "expected multiple distinct user agents, but all calls returned the same value"
    );
}

#[test]
fn all_returned_uas_belong_to_pool() {
    let pool_set: HashSet<String> = ua_pool().into_iter().collect();
    for _ in 0..50 {
        let ua = UserAgentPool::random_ua();
        assert!(
            pool_set.contains(&ua),
            "random_ua returned '{ua}' which is not in the pool"
        );
    }
}

// ---------------------------------------------------------------------------
// IP rotation
// ---------------------------------------------------------------------------

#[test]
fn static_strategy_always_returns_none() {
    let mut strategy = StaticIpStrategy;
    for _ in 0..10 {
        assert_eq!(strategy.next_bind_addr(), None);
    }
}

#[test]
fn static_strategy_configure_client_is_pass_through() {
    let mut strategy = StaticIpStrategy;
    assert!(matches!(strategy.next_route(), Route::Direct));
}

#[test]
fn ipv6_pool_valid_cidr() {
    let strategy = Ipv6PoolStrategy::new("2001:db8::/120").expect("valid CIDR should parse");
    assert!(strategy.pool_size() > 0);
    assert_eq!(strategy.pool_size(), 254);
}

#[test]
fn ipv6_pool_cidr_too_short_prefix() {
    let err = Ipv6PoolStrategy::new("2001:db8::/48").expect_err("short prefix should be rejected");
    assert!(
        err.contains("too large"),
        "expected 'too large' error, got: {}",
        err
    );
    assert_eq!(
        err,
        "IPv6 prefix /48 is too large for practical iteration (use /64 or longer)"
    );
}

#[test]
fn ipv6_pool_round_robin_iterates_different_addresses() {
    let mut strategy = Ipv6PoolStrategy::new("2001:db8::/120").expect("valid CIDR");
    let mut seen: HashSet<IpAddr> = HashSet::new();
    for _ in 0..20 {
        let addr = strategy.next_bind_addr().expect("should produce addresses");
        seen.insert(addr);
    }
    assert_eq!(
        seen.len(),
        20,
        "expected 20 distinct addresses from round-robin, got {}",
        seen.len()
    );
}

#[test]
fn ipv6_pool_wraps_around() {
    let mut strategy = Ipv6PoolStrategy::new("2001:db8::/120").expect("valid CIDR");
    let mut first_pass: Vec<IpAddr> = Vec::new();
    for _ in 0..strategy.pool_size() {
        first_pass.push(strategy.next_bind_addr().unwrap());
    }
    let wrapped = strategy.next_bind_addr().unwrap();
    assert_eq!(
        wrapped, first_pass[0],
        "after {} iterations, cursor should wrap to first address",
        strategy.pool_size()
    );
}

#[test]
fn ipv6_pool_first_host_is_network_plus_one() {
    let mut strategy = Ipv6PoolStrategy::new("2001:db8::/120").expect("valid CIDR");
    let first = strategy.next_bind_addr().expect("should have addresses");
    assert_eq!(first, IpAddr::V6(0x2001_0db8_0000_0000_0000_0000_0000_0001u128));
}

#[test]
fn ipv6_pool_rejects_invalid_cidr() {
    assert!(Ipv6PoolStrategy::new("not-a-cidr").is_err());
    assert!(Ipv6PoolStrategy::new("192.168.1.0/24").is_err()); // IPv4
    assert!(Ipv6PoolStrategy::new("2001:db8::/129").is_err()); // bad prefix
    assert_eq!(
        Ipv6PoolStrategy::new("not-a-cidr").unwrap_err(),
        "invalid IPv6 CIDR 'not-a-cidr': invalid IP address syntax"
    );
}

#[test]
fn ipv6_pool_edges() {
    assert_eq!(
        Ipv6PoolStrategy::new("2001:db8::1/128").unwrap_err(),
        "IPv6 prefix /128 has no usable host addresses (use /127 or shorter)"
    );
    let mut empty = Ipv6PoolStrategy::new("2001:db8::/127").unwrap();
    assert_eq!(empty.pool_size(), 0);
    assert_eq!(empty.next_bind_addr(), None);
    assert!(matches!(empty.next_route(), Route::Direct));
    let huge = Ipv6PoolStrategy::new("2001:db8::/64").unwrap();
    assert_eq!(huge.pool_size(), u32::MAX);
    // Host bits of the text are not part of the network address.
    let mut offset = Ipv6PoolStrategy::new("2001:db8::77/120").unwrap();
    assert_eq!(
        offset.next_bind_addr(),
        Some(IpAddr::V6(0x2001_0db8_0000_0000_0000_0000_0000_0001u128))
    );
}

#[test]
fn pools_are_made_of_networks() {
    let network = 0x2001_0db8u128 << 96;
    let mut pool = Ipv6PoolStrategy::of_network(network, 126).unwrap();
    assert_eq!(pool.pool_size(), 2);
    assert_eq!(pool.next_bind_addr(), Some(IpAddr::V6(network + 1)));
    assert_eq!(pool.next_bind_addr(), Some(IpAddr::V6(network + 2)));
    assert_eq!(pool.next_bind_addr(), Some(IpAddr::V6(network + 1)));
    assert!(Ipv6PoolStrategy::of_network(network, 63).is_err());
    assert!(Ipv6PoolStrategy::of_network(network, 128).is_err());
}

#[test]
fn proxy_pool_round_robin_cycles_through_proxies() {
    let proxies = vec![
        "http://proxy1.example.com:8080".to_string(),
        "http://proxy2.example.com:8080".to_string(),
        "http://proxy3.example.com:8080".to_string(),
    ];
    let mut strategy = ProxyPoolStrategy::new(proxies.clone());
    assert_eq!(strategy.next_bind_addr(), None);
    let indices: Vec<u32> = (0..6)
        .map(|_| match strategy.next_route() {
            Route::Proxy(url) => proxies.iter().position(|p| *p == url).unwrap() as u32,
            other => panic!("expected a proxy, got {:?}", other),
        })
        .collect();
    let expected: Vec<u32> = (0..6).map(|i| i as u32 % 3).collect();
    assert_eq!(indices, expected);
}

#[test]
fn factory_static_strategy() {
    let strategy = build_ip_rotation_strategy("static", None, None).expect("static should build");
    let mut dummy = strategy;
    assert_eq!(dummy.next_bind_addr(), None);
    assert!(matches!(
        build_ip_rotation_strategy("", None, None),
        Ok(RotationStrategy::Static(_))
    ));
}

#[test]
fn factory_ipv6_pool_strategy() {
    let strategy = build_ip_rotation_strategy("ipv6_pool", Some("fd12:3456:789a::/64"), None)
        .expect("ipv6_pool should build with valid subnet");
    let mut dummy = strategy;
    let addr = dummy.next_bind_addr();
    assert!(addr.is_some());
}

#[test]
fn factory_ipv6_pool_missing_subnet_errors() {
    let result = build_ip_rotation_strategy("ipv6_pool", None, None);
    match result {
        Ok(_) => panic!("expected error for missing subnet"),
        Err(err) => assert!(err.contains("ipv6_subnet"), "got: {}", err),
    }
}

#[test]
fn factory_proxy_pool_strategy() {
    let proxies = vec!["socks5://proxy1:1080".to_string()];
    let strategy = build_ip_rotation_strategy("proxy_pool", None, Some(&proxies))
        .expect("proxy_pool should build with valid proxies");
    let mut dummy = strategy;
    assert_eq!(dummy.next_bind_addr(), None);
}

#[test]
fn factory_proxy_pool_missing_proxies_errors() {
    let result = build_ip_rotation_strategy("proxy_pool", None, None);
    match result {
        Ok(_) => panic!("expected error for missing proxies"),
        Err(err) => assert!(err.contains("proxies"), "got: {}", err),
    }
    let result = build_ip_rotation_strategy("proxy_pool", None, Some(&vec![]));
    assert_eq!(
        result.unwrap_err(),
        "proxy_pool strategy requires at least one proxy URL"
    );
}

#[test]
fn factory_unknown_strategy_errors() {
    let result = build_ip_rotation_strategy("unicorn", None, None);
    match result {
        Ok(_) => panic!("expected error for unknown strategy"),
        Err(err) => assert!(err.contains("unknown"), "got: {}", err),
    }
}

// ---------------------------------------------------------------------------
// Rate limiter
// ---------------------------------------------------------------------------

const SECOND: u64 = 1_000_000_000;

#[test]
fn acquire_returns_immediately_below_limit() {
    let mut limiter = RateLimiter::new();
    assert_eq!(limiter.try_acquire("test_provider", 100, 0), Slot::Granted);
}

#[test]
fn sequential_acquires_within_limit() {
    let mut limiter = RateLimiter::new();
    for i in 0..5 {
        assert_eq!(limiter.try_acquire("seq_provider", 60, i), Slot::Granted);
    }
}

#[test]
fn blocks_when_limit_reached() {
    let mut limiter = RateLimiter::new();
    for _ in 0..3 {
        assert_eq!(limiter.try_acquire("block_test", 3, 0), Slot::Granted);
    }
    // 59 seconds later the oldest entry expires in one second.
    assert_eq!(
        limiter.try_acquire("block_test", 3, 59 * SECOND),
        Slot::Wait { nanos: SECOND }
    );
    assert_eq!(
        limiter.try_acquire("block_test", 3, 60 * SECOND),
        Slot::Granted
    );
}

#[test]
fn expired_entries_are_pruned() {
    let mut limiter = RateLimiter::new();
    for _ in 0..10 {
        assert_eq!(limiter.try_acquire("prune_test", 10, 0), Slot::Granted);
    }
    assert_eq!(
        limiter.try_acquire("prune_test", 5, 61 * SECOND),
        Slot::Granted
    );
}

#[test]
fn independent_buckets_dont_block_each_other() {
    let mut limiter = RateLimiter::new();
    for _ in 0..5 {
        limiter.try_acquire("A", 5, 0);
    }
    assert!(matches!(limiter.try_acquire("A", 5, 0), Slot::Wait { .. }));
    assert_eq!(limiter.try_acquire("B", 10, 0), Slot::Granted);
}

#[test]
fn no_minute_sees_more_grants_than_the_limit() {
    let mut limiter = RateLimiter::default();
    let mut grants: Vec<u64> = Vec::new();
    let mut now = 0;
    for _ in 0..500 {
        match limiter.try_acquire("p", 7, now) {
            Slot::Granted => grants.push(now),
            Slot::Wait { nanos } => assert!(nanos > 0 && nanos <= WINDOW_NANOS),
        }
        now += SECOND;
    }
    for pair in grants.windows(8) {
        assert!(pair[7] - pair[0] >= 60 * SECOND);
    }
    assert_eq!(grants.len(), 63);
}

// ---------------------------------------------------------------------------
// Retry
// ---------------------------------------------------------------------------

/// A test error type implementing `ClassifyRetry`.
#[derive(Debug, PartialEq, Clone)]
enum TestError {
    Transient,
    Fatal,
    WithRetryAfter(u64),
}

impl ClassifyRetry for TestError {
    fn retryable(&self) -> bool {
        self.is_retryable()
    }

    fn hint(&self) -> Option<u64> {
        self.retry_after_hint()
    }

    fn is_retryable(&self) -> bool {
        matches!(self, TestError::Transient | TestError::WithRetryAfter(_))
    }

    fn retry_after_hint(&self) -> Option<u64> {
        match self {
            TestError::WithRetryAfter(secs) => Some(*secs),
            _ => None,
        }
    }
}

#[test]
fn non_retryable_error_returned_immediately() {
    let config = RetryConfig::new(1, 3, 60);
    assert_eq!(
        next_retry(&TestError::Fatal, 0, &config),
        RetryStep::GiveUp,
        "fatal errors must not be retried"
    );
}

#[test]
fn retries_up_to_max_attempts() {
    let config = RetryConfig::new(0, 3, 60);
    let mut call_count = 0u32;
    let mut attempt = 0;
    loop {
        call_count += 1;
        match next_retry(&TestError::Transient, attempt, &config) {
            RetryStep::GiveUp => break,
            RetryStep::Wait { nanos } => assert_eq!(nanos, 0),
        }
        attempt += 1;
    }
    assert_eq!(call_count, 3, "should have tried max_attempts times");
}

#[test]
fn provider_error_classification() {
    // Non-retryable
    assert!(!ProviderError::AccessDenied.is_retryable());
    assert!(!ProviderError::CaptchaDetected {
        provider: "test".into()
    }
    .is_retryable());
    assert!(!ProviderError::HttpError {
        status: 404,
        body: "not found".into()
    }
    .is_retryable());
    assert!(!ProviderError::HttpError {
        status: 403,
        body: "forbidden".into()
    }
    .is_retryable());
    assert!(!ProviderError::NotConfigured("nope".into()).is_retryable());
    assert!(!ProviderError::ParseError("bad json".into()).is_retryable());

    // Retryable
    assert!(ProviderError::RateLimited { retry_after: None }.is_retryable());
    assert!(ProviderError::RateLimited {
        retry_after: Some(30)
    }
    .is_retryable());
    assert!(ProviderError::HttpError {
        status: 500,
        body: "boom".into()
    }
    .is_retryable());
    assert!(ProviderError::HttpError {
        status: 503,
        body: "unavailable".into()
    }
    .is_retryable());
    assert!(ProviderError::Timeout { elapsed_secs: 10 }.is_retryable());
    assert!(ProviderError::Internal("something broke".into()).is_retryable());
}

#[test]
fn rate_limited_carries_retry_after_hint() {
    let err = ProviderError::RateLimited {
        retry_after: Some(42),
    };
    assert_eq!(err.retry_after_hint(), Some(42));

    let err = ProviderError::RateLimited { retry_after: None };
    assert_eq!(err.retry_after_hint(), None);

    let err = ProviderError::Timeout { elapsed_secs: 5 };
    assert_eq!(err.retry_after_hint(), None);
}

#[test]
fn test_error_with_retry_after_is_classified_correctly() {
    let err = TestError::WithRetryAfter(30);
    assert!(err.is_retryable());
    assert_eq!(err.retry_after_hint(), Some(30));
}

#[test]
fn backoff_doubles_up_to_the_cap() {
    let config = RetryConfig::new(1, 10, 60);
    let delays: Vec<u64> = (0..8).map(|a| computed_backoff(&config, a)).collect();
    assert_eq!(delays, vec![1, 2, 4, 8, 16, 32, 60, 60]);
    assert_eq!(computed_backoff(&config, u32::MAX), 60);
    assert_eq!(computed_backoff(&RetryConfig::new(0, 3, 60), u32::MAX), 0);
    assert_eq!(computed_backoff(&RetryConfig::new(100, 3, 60), 0), 60);
}

#[test]
fn delay_is_a_share_of_the_backoff_or_what_the_server_asks() {
    let config = RetryConfig::new(4, 5, 60);
    let half = 1u64 << 52;
    // Half of 4 * 2^1 seconds.
    assert_eq!(
        retry_step(&TestError::Transient, 1, &config, half),
        RetryStep::Wait {
            nanos: 4_000_000_000
        }
    );
    assert_eq!(
        retry_step(&TestError::WithRetryAfter(30), 1, &config, half),
        RetryStep::Wait {
            nanos: 30_000_000_000
        }
    );
    assert_eq!(
        retry_step(&TestError::WithRetryAfter(1), 1, &config, half),
        RetryStep::Wait {
            nanos: 4_000_000_000
        }
    );
    for _ in 0..100 {
        match next_retry(&TestError::Transient, 1, &config) {
            RetryStep::Wait { nanos } => assert!(nanos < 8_000_000_000),
            RetryStep::GiveUp => panic!("an attempt is left"),
        }
    }
    // Draws differ from one call to the next.
    let draws: HashSet<u128> = (0..50)
        .map(|_| match next_retry(&TestError::Transient, 1, &config) {
            RetryStep::Wait { nanos } => nanos,
            RetryStep::GiveUp => panic!("an attempt is left"),
        })
        .collect();
    assert!(draws.len() > 1);
}

#[test]
fn retry_config_comes_from_anti_blocking_settings() {
    let config = RetryConfig::from(&AntiBlockingConfig::default());
    assert_eq!(config, RetryConfig::new(1, 3, 60));
}

// ---------------------------------------------------------------------------
// Rotating client
// ---------------------------------------------------------------------------

fn counting(
    count: &Arc<AtomicUsize>,
) -> impl Fn() -> Result<reqwest::Client, ProviderError> + use<> {
    let count = count.clone();
    move || {
        count.fetch_add(1, Ordering::SeqCst);
        Ok(reqwest::Client::builder().build().expect("build test client"))
    }
}

#[test]
fn new_creates_client() {
    let build_count = Arc::new(AtomicUsize::new(0));
    let mut rc = RotatingClient::new(10, counting(&build_count)).expect("create RotatingClient");
    assert_eq!(build_count.load(Ordering::SeqCst), 1);
    let _c = rc.client();
    assert_eq!(build_count.load(Ordering::SeqCst), 1);
}

#[test]
fn no_rotation_when_threshold_zero() {
    let build_count = Arc::new(AtomicUsize::new(0));
    let mut rc = RotatingClient::new(0, counting(&build_count)).expect("create RotatingClient");
    let initial_count = build_count.load(Ordering::SeqCst);
    for _ in 0..100 {
        let _c = rc.client();
    }
    assert_eq!(build_count.load(Ordering::SeqCst), initial_count);
}

#[test]
fn rotates_at_threshold() {
    let build_count = Arc::new(AtomicUsize::new(0));
    let mut rc = RotatingClient::new(5, counting(&build_count)).expect("create RotatingClient");
    let initial = build_count.load(Ordering::SeqCst);
    for _ in 0..4 {
        let _c = rc.client();
    }
    assert_eq!(build_count.load(Ordering::SeqCst), initial);
    let _c = rc.client();
    assert_eq!(build_count.load(Ordering::SeqCst), initial + 1);
    for _ in 0..4 {
        let _c = rc.client();
    }
    assert_eq!(build_count.load(Ordering::SeqCst), initial + 1);
    let _c = rc.client();
    assert_eq!(build_count.load(Ordering::SeqCst), initial + 2);
}

#[test]
fn keeps_old_client_on_rotation_failure() {
    let count = Arc::new(AtomicUsize::new(0));
    let shared = count.clone();
    let build = move || {
        let c = shared.fetch_add(1, Ordering::SeqCst);
        if c >= 1 {
            return Err(ProviderError::Internal("simulated build failure".into()));
        }
        Ok(17)
    };
    let mut rc = RotatingClient::new(1, build).expect("create RotatingClient");
    assert_eq!(*rc.client(), 17);
    assert_eq!(*rc.client(), 17);
    assert_eq!(count.load(Ordering::SeqCst), 3);
}

#[test]
fn first_build_failure_is_returned() {
    let result = RotatingClient::<u8, _>::new(1, || Err(ProviderError::AccessDenied));
    assert!(matches!(result.err(), Some(ProviderError::AccessDenied)));
}

#[test]
fn threshold_one_rotates_every_call() {
    let build_count = Arc::new(AtomicUsize::new(0));
    let mut rc = RotatingClient::new(1, counting(&build_count)).expect("create RotatingClient");
    let initial = build_count.load(Ordering::SeqCst);
    let _c = rc.client();
    assert_eq!(build_count.load(Ordering::SeqCst), initial + 1);
    let _c = rc.client();
    assert_eq!(build_count.load(Ordering::SeqCst), initial + 2);
    let _c = rc.client();
    assert_eq!(build_count.load(Ordering::SeqCst), initial + 3);
}

// ---------------------------------------------------------------------------
// TLS
// ---------------------------------------------------------------------------

fn suite_order(config: &rustls::ClientConfig) -> Vec<u16> {
    config
        .crypto_provider()
        .cipher_suites
        .iter()
        .map(|cs| u16::from(cs.suite()))
        .collect()
}

#[test]
fn build_shuffled_tls_config_returns_ok() {
    let result = build_shuffled_tls_config();
    assert!(
        result.is_ok(),
        "build_shuffled_tls_config() should return Ok, got: {:?}",
        result.err()
    );
}

#[test]
fn shuffled_configs_produce_different_cipher_orders() {
    let mut seen_orders: HashSet<Vec<u16>> = HashSet::new();
    let iterations = 10;
    for _ in 0..iterations {
        seen_orders.insert(suite_order(&build_shuffled_tls_config().unwrap()));
    }
    assert!(
        seen_orders.len() >= 2,
        "expected at least 2 distinct cipher orderings across {} shuffles, got {}",
        iterations,
        seen_orders.len()
    );
}

#[test]
fn first_three_ciphers_are_stable() {
    let defaults: Vec<u16> = rustls::crypto::ring::default_provider()
        .cipher_suites
        .iter()
        .map(|cs| u16::from(cs.suite()))
        .collect();
    assert_eq!(
        defaults,
        vec![0x1302, 0x1301, 0x1303, 0xc02c, 0xc02b, 0xcca9, 0xc030, 0xc02f, 0xcca8]
    );
    for _ in 0..10 {
        let order = suite_order(&build_shuffled_tls_config().unwrap());
        assert_eq!(
            order[..3],
            defaults[..3],
            "first 3 cipher suites must remain in the same order after shuffling"
        );
        let mut sorted = order.clone();
        sorted.sort();
        let mut all = defaults.clone();
        all.sort();
        assert_eq!(sorted, all);
    }
}

#[test]
fn can_shuffle_ciphers_reports_truthfully() {
    let provider = rustls::crypto::ring::default_provider();
    let expected = provider.cipher_suites.len() > 3;
    assert_eq!(can_shuffle_ciphers(), expected);
}

#[test]
fn shuffled_order_of_few_suites_stays() {
    assert_eq!(shuffled_order(0), Vec::<usize>::new());
    assert_eq!(shuffled_order(3), vec![0, 1, 2]);
    assert_eq!(shuffled_order(4), vec![0, 1, 2, 3]);
}

// ---------------------------------------------------------------------------
// Page delays
// ---------------------------------------------------------------------------

#[test]
fn page_delays_are_drawn_within_the_bounds() {
    let delay = PageDelay::of(&AntiBlockingConfig::default());
    let parts = 1u64 << 53;
    assert_eq!(page_delay_ms(&delay, 0), 500);
    assert_eq!(page_delay_ms(&delay, parts / 2), 1250);
    assert_eq!(page_delay_ms(&delay, parts - 1), 2000);
    let mut seen = HashSet::new();
    for _ in 0..200 {
        let ms = next_page_delay_ms(&delay);
        assert!((500..=2000).contains(&ms), "{ms}");
        seen.insert(ms);
    }
    assert!(seen.len() > 1);

    let fixed = PageDelay { min_ms: 7, max_ms: 7 };
    assert_eq!(next_page_delay_ms(&fixed), 7);
    let reversed = PageDelay { min_ms: 9, max_ms: 3 };
    assert_eq!(page_delay_ms(&reversed, parts - 1), 9);
    let widest = PageDelay { min_ms: 0, max_ms: u64::MAX };
    assert_eq!(page_delay_ms(&widest, parts / 2), 1 << 63);
}

#[test]
fn requests_to_a_provider_are_kept_apart() {
    let milli = 1_000_000;
    let mut pacer = RequestPacer::new();
    // The first request goes out at once, the next ones a delay after the one before.
    assert_eq!(pacer.reserve("a", 10, 500), 0);
    assert_eq!(pacer.reserve("a", 10, 700), 500 * milli);
    assert_eq!(pacer.reserve("a", 10 + 200 * milli, 600), 1000 * milli);
    // Other providers do not wait, nor does one that was quiet for long enough.
    assert_eq!(pacer.reserve("b", 10, 500), 0);
    assert_eq!(pacer.reserve("a", 10 + 1800 * milli, 500), 0);
    // No delay goes beyond what the clock can tell.
    assert_eq!(pacer.reserve("c", 5, u64::MAX), 0);
    assert_eq!(pacer.reserve("c", 5, 1), u64::MAX - 5);
}
