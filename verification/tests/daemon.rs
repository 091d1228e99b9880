use skipjackd::anti_blocking::RetryConfig;
use skipjackd::cache::{CacheCounters, StoredEntry};
use skipjackd::config::{Config, ProviderConfig, TierConfig, TierDef};
use skipjackd::daemon::dispatch::{
    DispatchMode, Pipeline, PipelineAction, completed, dispatch_mode, effective_limit,
    empty_response, entry_for, group_tiers, tag_priority,
};
use skipjackd::daemon::fetch::{
    CappedBody, FetchFailure, MAX_FETCH_BODY_SIZE, check_timeout, fetch_failure, finish_fetch,
    follow_redirect, start_fetch,
};
use skipjackd::daemon::frames::{FrameStep, LineReader, MAX_MESSAGE_SIZE, frame_line};
use skipjackd::daemon::guard::{is_hostname_blocked, is_ip_blocked, validate_url};
use skipjackd::daemon::lifecycle::{
    check_daemon_name, check_running, is_alive, is_daemon_command, pid_line, pid_path, read_pid,
    read_stop_pid, socket_path,
};
use skipjackd::daemon::page::{detect_spa, strip_tags};
use skipjackd::daemon::protocol::{Request, Response};
use skipjackd::daemon::run::{SearchAction, SearchRun};
use skipjackd::daemon::server::{
    ConnectionEvent, ConnectionStep, Effect, cache_clear_reply, dispatch_request,
    on_connection_event, search_reply,
};
use skipjackd::daemon::{HealthState, HealthStatus, Manager, ProviderCatalog, ProviderEntry};
use skipjackd::double::{Double, Ratio};
use skipjackd::net::IpAddr;
use skipjackd::search::rank::ScoreTerm;
use skipjackd::urls::UrlHost;
use skipjackd::search::{ProviderError, SearchRequest, SearchResponse, SearchResult, Tag};

fn rate(r: Ratio) -> f64 {
    r.part as f64 / r.whole as f64
}

fn request(query: &str) -> SearchRequest {
    SearchRequest {
        request_id: "req".into(),
        query: query.into(),
        limit: 10,
        providers: Vec::new(),
        language: None,
        country: None,
        safe_search: true,
        freshness: None,
        dispatch_mode: None,
    }
}

/// What a provider that finds `n` pages answers.
fn answer(provider: &str, n: usize) -> SearchResponse {
    SearchResponse {
        request_id: "req".into(),
        results: (0..n)
            .map(|i| SearchResult {
                title: format!("{provider} {i}"),
                url: format!("https://{provider}.example/{i}"),
                snippet: "s".into(),
                published_date: None,
                provider_name: provider.into(),
                rank_score: Double::reciprocal(i as u64 + 1),
            })
            .collect(),
        total_found: n,
        providers_used: vec![provider.into()],
        cache_hit: false,
        elapsed_ms: 1,
    }
}

fn entry(name: &str, tags: Vec<Tag>) -> ProviderEntry {
    ProviderEntry {
        name: name.into(),
        tags,
        description: format!("{name} description"),
        available: true,
    }
}

fn manager_with(entries: Vec<ProviderEntry>) -> Manager {
    let mut manager = Manager::new(&Config::default()).unwrap();
    for e in entries {
        manager.health.set(e.name.clone(), HealthState::new(3));
        manager.catalog.register(e);
    }
    manager
}

// ---------------------------------------------------------------------------
// Health
// ---------------------------------------------------------------------------

#[test]
fn health_state_starts_healthy() {
    let state = HealthState::new(3);
    assert!(state.is_healthy());
    assert_eq!(state.status(), HealthStatus::Healthy);
    assert!((rate(state.health_score()) - 1.0).abs() < f64::EPSILON);
}

#[test]
fn health_score_computes_success_rate() {
    let mut state = HealthState::new(3);
    state.record_success();
    state.record_failure();
    state.record_success();
    state.record_failure();
    // 2 successes out of 4 = 0.5
    assert!((rate(state.health_score()) - 0.5).abs() < f64::EPSILON);
}

#[test]
fn health_score_drops_to_0_5_after_50_percent_failures() {
    let mut state = HealthState::new(3);
    for _ in 0..2 {
        state.record_success();
    }
    for _ in 0..2 {
        state.record_failure();
    }
    assert!((rate(state.health_score()) - 0.5).abs() < f64::EPSILON);
    // 50% is not below 0.5, and consecutive failures (2) < threshold (3),
    // so still healthy.
    assert!(state.is_healthy());
    assert_eq!(state.status(), HealthStatus::Healthy);
}

#[test]
fn consecutive_failures_marks_unhealthy() {
    let mut state = HealthState::new(3);
    state.record_failure();
    state.record_failure();
    state.record_failure();
    assert_eq!(state.status(), HealthStatus::Unhealthy);
    assert!(!state.is_healthy());
    assert_eq!(state.consecutive_failures(), 3);
}

#[test]
fn success_recovers_unhealthy_provider() {
    let mut state = HealthState::new(3);
    for _ in 0..3 {
        state.record_failure();
    }
    assert_eq!(state.status(), HealthStatus::Unhealthy);
    // A success should recover.
    state.record_success();
    assert_eq!(state.status(), HealthStatus::Healthy);
    assert!(state.is_healthy());
    assert_eq!(state.consecutive_failures(), 0);
}

#[test]
fn health_score_below_0_5_marks_degraded() {
    let mut state = HealthState::new(5);
    // 1 success, 3 failures = 25% success rate
    state.record_success();
    for _ in 0..3 {
        state.record_failure();
    }
    assert!((rate(state.health_score()) - 0.25).abs() < 0.01);
    assert_eq!(state.status(), HealthStatus::Degraded);
    assert!(!state.is_healthy());
}

#[test]
fn health_score_defaults_to_1_0_with_no_events() {
    let state = HealthState::new(3);
    assert!((rate(state.health_score()) - 1.0).abs() < f64::EPSILON);
    assert!(state.is_healthy());
}

#[test]
fn old_events_leave_the_window() {
    const SECOND: u64 = 1_000_000_000;
    let mut state = HealthState::new(10);
    for _ in 0..5 {
        state.record_failure_at(SECOND);
    }
    assert_eq!(state.health_score_at(2 * SECOND).part, 0);
    let later = 302 * SECOND;
    state.record_success_at(later);
    assert_eq!(rate(state.health_score_at(later)), 1.0);
    assert_eq!(state.success_count(), 1);
    assert_eq!(state.failure_count(), 5);
    state.note_error("boom".into());
    assert_eq!(state.last_error().as_deref(), Some("boom"));
}

// ---------------------------------------------------------------------------
// Catalog
// ---------------------------------------------------------------------------

#[test]
fn catalog_register_and_lookup() {
    let mut catalog = ProviderCatalog::new();
    assert!(catalog.is_empty());
    catalog.register(entry("test-provider", vec![Tag::Web]));
    assert_eq!(catalog.len(), 1);

    let enabled = catalog.enabled_providers(None, None);
    assert_eq!(enabled.len(), 1);
    assert_eq!(enabled[0].name, "test-provider");

    // Also test direct lookup.
    let found = catalog.get("test-provider");
    assert!(found.is_some());
    assert_eq!(found.unwrap().name, "test-provider");

    // Missing provider returns None.
    assert!(catalog.get("nonexistent").is_none());
}

#[test]
fn catalog_filters_by_tag() {
    let mut catalog = ProviderCatalog::new();
    catalog.register(entry("web-provider", vec![Tag::Web]));
    catalog.register(entry("news-provider", vec![Tag::News]));

    let web = catalog.enabled_providers(None, Some(Tag::Web));
    assert_eq!(web.len(), 1);
    assert_eq!(web[0].name, "web-provider");

    let news = catalog.enabled_providers(None, Some(Tag::News));
    assert_eq!(news.len(), 1);
    assert_eq!(news[0].name, "news-provider");
}

#[test]
fn catalog_filters_by_name_list() {
    let mut catalog = ProviderCatalog::new();
    catalog.register(entry("a", vec![Tag::Web]));
    catalog.register(entry("b", vec![Tag::Web]));

    let filtered = catalog.enabled_providers(Some(&["a".to_string()]), None);
    assert_eq!(filtered.len(), 1);
    assert_eq!(filtered[0].name, "a");
}

#[test]
fn unavailable_providers_are_left_out() {
    let mut catalog = ProviderCatalog::new();
    catalog.register(ProviderEntry {
        available: false,
        ..entry("a", vec![Tag::Web])
    });
    assert!(catalog.enabled_providers(None, None).is_empty());
    assert_eq!(catalog.all_providers().len(), 1);
}

#[test]
fn the_last_registration_of_a_name_counts() {
    let mut catalog = ProviderCatalog::new();
    catalog.register(entry("a", vec![Tag::Web]));
    catalog.register(entry("a", vec![Tag::News]));
    assert_eq!(catalog.get("a").unwrap().tags, vec![Tag::News]);
}

// ---------------------------------------------------------------------------
// Dispatch
// ---------------------------------------------------------------------------

#[test]
fn error_provider_degrades_health() {
    let mut manager = manager_with(vec![entry("error-prv", vec![Tag::Web])]);
    for failures in 1..=3 {
        assert_eq!(manager.plan_search(&request("error test")).providers.len(), 1);
        manager.record(
            "error-prv",
            &Err(ProviderError::Timeout { elapsed_secs: 5 }),
        );
        let state = manager.health.get("error-prv").expect("health state exists");
        assert_eq!(state.consecutive_failures(), failures);
        if failures < 3 {
            assert_eq!(state.status(), HealthStatus::Healthy);
            assert!(state.is_healthy());
        } else {
            assert_eq!(state.status(), HealthStatus::Unhealthy);
            assert!(!state.is_healthy());
        }
    }
    // Fourth call: provider should be skipped (unhealthy).
    assert!(manager.plan_search(&request("error test")).providers.is_empty());
    assert!(empty_response(&request("error test")).results.is_empty());
}

#[test]
fn playwright_excluded_from_concurrent_dispatch() {
    let manager = manager_with(vec![
        entry("web-prv", vec![Tag::Web]),
        entry("playwright-prv", vec![Tag::Playwright]),
    ]);
    let plan = manager.plan_search(&request("playwright exclusion"));
    assert_eq!(plan.mode, DispatchMode::Concurrent);
    assert_eq!(plan.providers, vec!["web-prv".to_string()]);
}

#[test]
fn tiered_dispatch_stops_early() {
    let manager = manager_with(vec![
        entry("tier-a", vec![Tag::Web]),
        entry("tier-b", vec![Tag::News]),
    ]);
    let mut request = request("tiered test");
    request.limit = 3;
    request.dispatch_mode = Some("tiered".into());
    let plan = manager.plan_search(&request);
    assert_eq!(plan.mode, DispatchMode::Tiered);
    assert_eq!(plan.limit, 3);

    let response = searched(&manager, &request, |name| Ok(answer(name, 3)));
    // tier-a (Web, priority 0) produces 3 results, meeting the limit of 3.
    // tier-b (News, priority 1) should be skipped by early-stop.
    assert!(response.results.len() <= 3);
    assert_eq!(
        response.providers_used,
        vec!["tier-a".to_string()],
        "tier-b should not have been dispatched"
    );
}

/// Adds up the terms of each result's score.
fn scores(terms: &[Vec<ScoreTerm>]) -> Vec<Double> {
    let value = |d: Double| f64::from_bits(d.to_bits());
    terms
        .iter()
        .map(|list| {
            let sum: f64 = list.iter().map(|t| value(t.weight) * value(t.factor)).sum();
            Double::from_bits(sum.to_bits()).unwrap()
        })
        .collect()
}

/// Runs a search to its end with providers that answer at once and an empty cache.
fn searched(
    manager: &Manager,
    request: &SearchRequest,
    ask: impl Fn(&str) -> Result<SearchResponse, ProviderError>,
) -> SearchResponse {
    let (mut run, mut action) = SearchRun::begin(manager, request);
    loop {
        action = match action {
            SearchAction::LookUp(key) => {
                assert_eq!(key, manager.plan_search(request).cache_key);
                run.on_cached(None, true)
            }
            SearchAction::Launch(group) => {
                for name in group.names {
                    let outcome = ask(&name);
                    run.on_outcome(outcome);
                }
                run.on_group_done(true)
            }
            SearchAction::Wait => panic!("nothing is running"),
            SearchAction::Score(terms) => return run.answer(&scores(&terms)),
            SearchAction::Answer(response) => return response,
        };
    }
}

#[test]
fn a_tier_that_finds_too_little_is_followed_by_the_next() {
    let manager = manager_with(vec![
        entry("tier-a", vec![Tag::Web]),
        entry("tier-b", vec![Tag::News]),
        entry("tier-c", vec![Tag::Code]),
    ]);
    let mut request = request("tiered test");
    request.limit = 3;
    request.dispatch_mode = Some("tiered".into());
    let response = searched(&manager, &request, |name| {
        if name == "tier-a" {
            Err(ProviderError::AccessDenied)
        } else {
            Ok(answer(name, 4))
        }
    });
    assert_eq!(response.providers_used, vec!["tier-b".to_string()]);
    assert_eq!(response.results.len(), 3);
    assert_eq!(response.total_found, 4);
    assert!(!response.cache_hit);

    // Without time no further tier is asked.
    let (mut run, _) = SearchRun::begin(&manager, &request);
    assert!(matches!(run.on_cached(None, true), SearchAction::Launch(_)));
    assert!(matches!(run.on_timeout(), SearchAction::Wait));
    run.on_outcome(Ok(answer("tier-a", 1)));
    assert_eq!(run.found(), 1);
    match run.on_group_done(false) {
        SearchAction::Score(terms) => assert_eq!(run.answer(&scores(&terms)).results.len(), 1),
        other => panic!("expected scores, got {:?}", other),
    }
}

#[test]
fn a_tier_that_takes_too_long_is_followed_by_the_next() {
    let manager = manager_with(vec![
        entry("tier-a", vec![Tag::Web]),
        entry("tier-b", vec![Tag::News]),
    ]);
    let mut request = request("slow tier");
    request.limit = 3;
    request.dispatch_mode = Some("tiered".into());

    let (mut run, _) = SearchRun::begin(&manager, &request);
    assert!(matches!(run.on_cached(None, true), SearchAction::Launch(_)));
    run.on_outcome(Ok(answer("tier-a", 1)));
    match run.on_group_timeout(true) {
        SearchAction::Launch(group) => assert_eq!(group.names, vec!["tier-b".to_string()]),
        other => panic!("expected the next tier, got {:?}", other),
    }
    // Behind the last tier what was found is scored.
    match run.on_group_timeout(true) {
        SearchAction::Score(terms) => assert_eq!(run.answer(&scores(&terms)).results.len(), 1),
        other => panic!("expected scores, got {:?}", other),
    }

    // Without time no further tier is asked, nor where there are results enough.
    let (mut run, _) = SearchRun::begin(&manager, &request);
    run.on_cached(None, true);
    assert!(matches!(run.on_group_timeout(false), SearchAction::Score(_)));
    let (mut run, _) = SearchRun::begin(&manager, &request);
    run.on_cached(None, true);
    run.on_outcome(Ok(answer("tier-a", 3)));
    assert!(matches!(run.on_group_timeout(true), SearchAction::Score(_)));
}

#[test]
fn the_manager_has_the_configured_page_delays() {
    let mut config = Config::default();
    let manager = Manager::new(&config).unwrap();
    assert_eq!((manager.page_delay.min_ms, manager.page_delay.max_ms), (500, 2000));
    config.anti_blocking.page_delay_min_ms = 7;
    config.anti_blocking.page_delay_max_ms = 9;
    let manager = Manager::new(&config).unwrap();
    assert_eq!((manager.page_delay.min_ms, manager.page_delay.max_ms), (7, 9));
}

#[test]
fn tiers_go_by_the_best_tag() {
    assert_eq!(tag_priority(Tag::Web), 0);
    let mut catalog = ProviderCatalog::new();
    catalog.register(entry("p", vec![Tag::Playwright]));
    catalog.register(entry("n", vec![Tag::News]));
    catalog.register(entry("w", vec![Tag::Web, Tag::Privacy]));
    catalog.register(entry("x", vec![Tag::Privacy, Tag::Web]));
    let names: Vec<String> = ["p", "n", "w", "x"].iter().map(|s| s.to_string()).collect();
    assert_eq!(
        group_tiers(&vec![], &catalog, &names)
            .into_iter()
            .map(|group| group.names)
            .collect::<Vec<_>>(),
        vec![
            vec!["w".to_string(), "x".to_string()],
            vec!["n".to_string()],
            vec!["p".to_string()]
        ]
    );
}

#[test]
fn configured_tiers_come_in_their_order() {
    let tier = |names: &[&str], timeout_secs| TierDef {
        providers: names.iter().map(|s| s.to_string()).collect(),
        timeout_secs,
    };
    let mut config = Config::default();
    config.tiers = TierConfig {
        order: vec![5, 9, 0],
        tiers: [
            (0, tier(&["a", "b"], 3)),
            (5, tier(&["b", "nobody"], 7)),
            (8, tier(&["c"], 1)),
        ]
        .into(),
    };
    let mut manager = Manager::new(&config).unwrap();
    for e in [
        entry("a", vec![Tag::Web]),
        entry("b", vec![Tag::Playwright]),
        entry("c", vec![Tag::News]),
        entry("d", vec![Tag::Web]),
    ] {
        manager.catalog.register(e);
    }
    let mut r = request("q");
    r.dispatch_mode = Some("tiered".into());
    let groups: Vec<(Vec<String>, Option<u64>)> = manager
        .plan_search(&r)
        .tiers
        .into_iter()
        .map(|group| (group.names, group.timeout_secs))
        .collect();
    let named = |name: &str| vec![name.to_string()];
    assert_eq!(
        groups,
        vec![
            (named("b"), Some(7)),
            (named("a"), Some(3)),
            (named("d"), None),
            (named("c"), None),
        ]
    );
}

#[test]
fn cached_answers_keep_to_the_limit() {
    let manager = manager_with(vec![entry("a", vec![Tag::Web])]);
    let mut r = request("q");
    r.limit = 3;
    let (mut run, _) = SearchRun::begin(&manager, &r);
    match run.on_cached(Some(answer("a", 10)), true) {
        SearchAction::Answer(cut) => {
            let titles: Vec<&str> = cut.results.iter().map(|r| r.title.as_str()).collect();
            assert_eq!(titles, vec!["a 0", "a 1", "a 2"]);
            assert_eq!(cut.total_found, 10);
        }
        other => panic!("expected an answer, got {:?}", other),
    }
}

#[test]
fn answers_are_stored_under_what_contributed() {
    let manager = manager_with(vec![]);
    let r = request("q");
    let mut found = answer("b", 1);
    found.providers_used = vec!["b".into(), "a".into()];
    let e = manager.entry_for_answer(&r, &found, "{}".into(), 7);
    assert_eq!(
        e.key,
        skipjackd::cache::request_cache_key(&r, &["a".into(), "b".into()])
    );
    assert_eq!((e.provider_list.as_str(), e.created_at, e.ttl_secs), ("a,b", 7, 3600));
    let own = manager.entry_for_provider(&r, "b", "{}".into(), 7);
    assert_eq!(own.key, manager.provider_key(&r, "b"));
    assert_eq!(
        own.key,
        skipjackd::cache::request_cache_key(&r, &["b".into()])
    );
    assert_eq!(own.provider_list, "b");
}

#[test]
fn concurrent_dispatch_keeps_what_came_in() {
    let manager = manager_with(vec![
        entry("fast-a", vec![Tag::Web]),
        entry("slow", vec![Tag::Web]),
        entry("fast-b", vec![Tag::News]),
    ]);
    let (mut run, _) = SearchRun::begin(&manager, &request("parallel test"));
    match run.on_cached(None, false) {
        SearchAction::Launch(group) => {
            assert_eq!(group.names, vec!["fast-a", "slow", "fast-b"]);
            assert_eq!(group.timeout_secs, None);
        }
        other => panic!("expected a launch, got {:?}", other),
    }
    run.on_outcome(Ok(answer("fast-a", 3)));
    run.on_outcome(Err(ProviderError::AccessDenied));
    run.on_outcome(Ok(answer("fast-b", 3)));
    match run.on_timeout() {
        SearchAction::Score(terms) => {
            let response = run.answer(&scores(&terms));
            assert_eq!(response.results.len(), 6);
            let ranks: Vec<u64> = response
                .results
                .iter()
                .map(|r| (1.0 / f64::from_bits(r.rank_score.to_bits())).round() as u64)
                .collect();
            assert_eq!(ranks, vec![1, 1, 2, 2, 3, 3]);
        }
        other => panic!("expected scores, got {:?}", other),
    }
}

#[test]
fn a_search_without_providers_is_empty() {
    let manager = manager_with(vec![]);
    let mut r = request("q");
    assert!(matches!(
        SearchRun::begin(&manager, &r).1,
        SearchAction::Answer(response) if response.results.is_empty()
    ));
    r.dispatch_mode = Some("tiered".into());
    assert!(matches!(SearchRun::begin(&manager, &r).1, SearchAction::LookUp(_)));
    assert!(searched(&manager, &r, |_| panic!("nobody to ask")).results.is_empty());
}

#[test]
fn cache_hit_skips_provider_dispatch() {
    let manager = manager_with(vec![entry("cached-prv", vec![Tag::Web])]);
    let request = request("cache hit test");

    // First call: miss, populates cache via combined key.
    let resp1 = searched(&manager, &request, |name| Ok(answer(name, 1)));
    assert!(!resp1.cache_hit);
    let stored = entry_for(&request, &resp1.providers_used, "{}".into(), 0, 3600);

    // Second call: should hit the combined cache.
    let (mut run, action) = SearchRun::begin(&manager, &request);
    match action {
        SearchAction::LookUp(key) => assert_eq!(key, stored.key),
        other => panic!("expected a lookup, got {:?}", other),
    }
    let cached = CacheCounters::new().serve(resp1);
    match run.on_cached(Some(cached), true) {
        SearchAction::Answer(resp2) => {
            assert!(resp2.cache_hit, "second call should be a cache hit");
            assert_eq!(resp2.results.len(), 1);
        }
        other => panic!("expected an answer, got {:?}", other),
    }

    let pipeline = Pipeline::new(RetryConfig::new(0, 3, 1));
    assert!(matches!(pipeline.on_cache(None), PipelineAction::AcquireSlot));
    match pipeline.on_cache(Some(answer("cached-prv", 1))) {
        PipelineAction::Return(response) => {
            assert!(response.cache_hit);
            assert_eq!(response.results.len(), 1);
        }
        other => panic!("expected the cached response, got {:?}", other),
    }
}

#[test]
fn success_on_first_attempt() {
    let mut pipeline = Pipeline::new(RetryConfig::new(0, 3, 1));
    assert!(matches!(
        pipeline.on_attempt(Ok(answer("a", 1)), 0),
        PipelineAction::StoreAndReturn(_)
    ));
}

#[test]
fn succeeds_on_retry() {
    let mut pipeline = Pipeline::new(RetryConfig::new(0, 3, 60));
    let transient = || Err(ProviderError::Timeout { elapsed_secs: 1 });
    assert!(matches!(
        pipeline.on_attempt(transient(), 5),
        PipelineAction::Sleep { nanos: 0 }
    ));
    assert!(matches!(
        pipeline.on_attempt(transient(), 5),
        PipelineAction::Sleep { nanos: 0 }
    ));
    assert!(matches!(
        pipeline.on_attempt(Ok(answer("a", 1)), 5),
        PipelineAction::StoreAndReturn(_)
    ));
}

#[test]
fn waits_are_drawn_below_the_backoff() {
    let mut pipeline = Pipeline::new(RetryConfig::new(4, 3, 60));
    match pipeline.after_attempt(Err(ProviderError::Timeout { elapsed_secs: 1 })) {
        PipelineAction::Sleep { nanos } => assert!(nanos < 4_000_000_000),
        other => panic!("expected a wait, got {:?}", other),
    }
    assert_eq!(pipeline.attempt, 1);
    assert!(matches!(
        pipeline.after_attempt(Err(ProviderError::AccessDenied)),
        PipelineAction::Fail(ProviderError::AccessDenied)
    ));
}

#[test]
fn the_last_error_is_returned() {
    let mut pipeline = Pipeline::new(RetryConfig::new(0, 1, 60));
    assert!(matches!(
        pipeline.on_attempt(Err(ProviderError::Timeout { elapsed_secs: 1 }), 5),
        PipelineAction::Fail(ProviderError::Timeout { elapsed_secs: 1 })
    ));
}

#[test]
fn limits_are_bounded() {
    assert_eq!(effective_limit(0, 10, 100), 10);
    assert_eq!(effective_limit(7, 10, 100), 7);
    assert_eq!(effective_limit(500, 10, 100), 100);
}

#[test]
fn the_request_overrides_the_mode() {
    assert_eq!(dispatch_mode(&None, "tiered"), DispatchMode::Tiered);
    assert_eq!(dispatch_mode(&None, "anything"), DispatchMode::Concurrent);
    assert_eq!(
        dispatch_mode(&Some("concurrent".into()), "tiered"),
        DispatchMode::Concurrent
    );
}

#[test]
fn stored_entries_are_found_again() {
    let r = request("q");
    let e: StoredEntry = entry_for(&r, &["b".into(), "a".into()], "{}".into(), 50, 60);
    assert_eq!(
        e.key,
        skipjackd::cache::request_cache_key(&r, &["a".into(), "b".into()])
    );
    assert_eq!(e.provider_list, "a,b");
    assert_eq!(e.response_json, "{}");
    assert_eq!((e.created_at, e.ttl_secs), (50, 60));
}

#[test]
fn completed_answers_carry_the_request_id() {
    let mut r = request("q");
    r.request_id = "mine".into();
    let done = completed(answer("a", 1), &r, 42);
    assert_eq!(done.request_id, "mine");
    assert_eq!(done.elapsed_ms, 42);
}

// ---------------------------------------------------------------------------
// Manager
// ---------------------------------------------------------------------------

fn config_with(providers: Vec<ProviderConfig>) -> Config {
    let mut config = Config::default();
    config.providers = providers;
    config
}

#[test]
fn manager_new_registers_duckduckgo() {
    let config = config_with(vec![ProviderConfig {
        name: "duckduckgo".into(),
        enabled: true,
        rate_limit_rpm: Some(30),
        ..Default::default()
    }]);
    let manager = Manager::new(&config).expect("create manager");
    assert_eq!(manager.catalog.len(), 1);

    let providers = manager.catalog.enabled_providers(None, None);
    assert_eq!(providers.len(), 1);
    assert_eq!(providers[0].name, "duckduckgo");
    assert!(providers[0].available);
    assert_eq!(manager.rpm_of("duckduckgo"), 30);
}

#[test]
fn manager_sets_up_every_provider() {
    let named = |name: &str| ProviderConfig {
        name: name.into(),
        enabled: true,
        ..Default::default()
    };
    let manager = Manager::new(&config_with(vec![
        named("duckduckgo"),
        ProviderConfig {
            api_key: Some("k".into()),
            cache_ttl_secs: Some(5),
            retry_max_attempts: Some(7),
            ..named("brave")
        },
        named("jina"),
        ProviderConfig {
            base_url: Some("http://s".into()),
            ..named("searxng")
        },
        ProviderConfig {
            enabled: false,
            ..named("searxng2")
        },
    ]))
    .unwrap();
    let plan = manager.plan_search(&request("q"));
    assert_eq!(plan.providers, vec!["duckduckgo", "brave", "searxng"]);
    assert_eq!(manager.ttl_of("brave"), 5);
    assert_eq!(manager.ttl_of("duckduckgo"), 3600);
    assert_eq!(manager.retry_for("brave"), RetryConfig::new(1, 7, 60));
    assert_eq!(manager.retry_for("duckduckgo"), RetryConfig::new(1, 3, 60));
    assert!(Manager::new(&config_with(vec![named("nobody")])).is_err());
}

// ---------------------------------------------------------------------------
// Lifecycle
// ---------------------------------------------------------------------------

#[test]
fn socket_path_from_config() {
    let mut config = Config::default();
    config.daemon.socket_dir = "/var/run".into();
    config.daemon.name = "testd".into();
    assert_eq!(socket_path(&config), "/var/run/testd.sock");
}

#[test]
fn pid_path_from_config() {
    let mut config = Config::default();
    config.daemon.pid_dir = "/var/run".into();
    config.daemon.name = "testd".into();
    assert_eq!(pid_path(&config), "/var/run/testd.pid");
    config.daemon.pid_dir = "/var/run/".into();
    assert_eq!(pid_path(&config), "/var/run/testd.pid");
}

#[test]
fn pid_files_are_read_back() {
    for pid in [0u32, 1, 4711, u32::MAX] {
        assert_eq!(pid_line(pid), format!("{pid}\n"));
        assert_eq!(read_pid(&pid_line(pid)), Ok(pid));
    }
    assert_eq!(
        read_pid(" x \n"),
        Err("Invalid PID in pid file: x".to_string())
    );
    assert!(read_pid("4294967296").is_err());
    assert_eq!(read_stop_pid(" 17\n", "d"), Ok(17));
    assert!(read_stop_pid("2147483648", "d").is_err());
    assert_eq!(
        read_stop_pid("abc", "d").unwrap_err(),
        "invalid PID in PID file for daemon 'd': abc"
    );
}

#[test]
fn a_process_is_gone_only_if_the_system_says_so() {
    assert!(is_alive(0, None, 3));
    assert!(!is_alive(-1, Some(3), 3));
    assert!(is_alive(-1, Some(1), 3));
    assert_eq!(
        check_running(12, true),
        Err("daemon already running (pid 12)".to_string())
    );
    assert_eq!(check_running(12, false), Ok(()));
    assert!(is_daemon_command("skipjackd\n", "skipjackd"));
    assert!(!is_daemon_command("other\n", "skipjackd"));
}

#[test]
fn daemon_names_hold_no_path() {
    assert!(check_daemon_name("skip_jack-d1").is_ok());
    assert_eq!(
        check_daemon_name("../x").unwrap_err(),
        "invalid daemon name: '../x'. Daemon name must contain only alphanumeric characters, \
         underscores, and hyphens."
    );
}

// ---------------------------------------------------------------------------
// Frames and connections
// ---------------------------------------------------------------------------

#[test]
fn test_read_line_limited_normal() {
    let mut reader = LineReader::new(1024);
    match reader.feed(b"hello world\n") {
        FrameStep::Line { text, consumed } => {
            assert_eq!(consumed, 12);
            assert_eq!(text, "hello world");
        }
        other => panic!("expected a line, got {:?}", other),
    }
}

#[test]
fn test_read_line_limited_eof() {
    let mut reader = LineReader::new(1024);
    assert!(matches!(reader.feed(b""), FrameStep::NeedMore));
}

#[test]
fn test_read_line_limited_oversized() {
    let mut reader = LineReader::new(5);
    assert!(
        matches!(reader.feed(b"abcdefghij\n"), FrameStep::TooLarge),
        "11 bytes including newline"
    );
}

#[test]
fn frames_may_come_in_pieces() {
    let mut reader = LineReader::new(5);
    assert!(matches!(reader.feed(b"a\xc3"), FrameStep::NeedMore));
    match reader.feed(b"\xa4b\nrest\n") {
        FrameStep::Line { text, consumed } => {
            assert_eq!(text, "aäb");
            assert_eq!(consumed, 3);
        }
        other => panic!("expected a line, got {:?}", other),
    }
    match reader.feed(b"rest\n") {
        FrameStep::Line { text, .. } => assert_eq!(text, "rest"),
        other => panic!("expected a line, got {:?}", other),
    }
    assert!(matches!(reader.feed(b"abcde"), FrameStep::NeedMore));
    assert!(matches!(reader.feed(b"\n"), FrameStep::Line { .. }));
    assert!(matches!(reader.feed(b"abcdef\n"), FrameStep::TooLarge));
}

#[test]
fn written_frames_are_read_back() {
    let message = "{\"type\":\"Health\"}";
    let line = frame_line(message.to_string());
    match LineReader::new(MAX_MESSAGE_SIZE).feed(line.as_bytes()) {
        FrameStep::Line { text, consumed } => {
            assert_eq!(text, message);
            assert_eq!(consumed, line.len());
        }
        other => panic!("expected a line, got {:?}", other),
    }
}

#[test]
fn oversized_message_returns_error() {
    let padding = "A".repeat(MAX_MESSAGE_SIZE + 1024);
    let req_json = format!("{{\"type\":\"Health\",\"pad\":\"{}\"}}\n", padding);
    let step = LineReader::new(MAX_MESSAGE_SIZE).feed(req_json.as_bytes());
    assert!(matches!(step, FrameStep::TooLarge));
    match on_connection_event(ConnectionEvent::TooLarge) {
        ConnectionStep::ReplyAndClose(Response::Error { code, message }) => {
            assert_eq!(code, -32600, "expected invalid request code -32600");
            assert!(
                message.to_lowercase().contains("too large"),
                "expected 'too large' message, got: {}",
                message
            );
        }
        other => panic!("expected Error response, got: {:?}", other),
    }
}

#[test]
fn malformed_request_returns_error() {
    match on_connection_event(ConnectionEvent::Message(Err("expected value".into()))) {
        ConnectionStep::Reply(Response::Error { code, message }) => {
            assert_eq!(code, -32700);
            assert_eq!(message, "Parse error: expected value");
        }
        other => panic!("expected Error response, got: {:?}", other),
    }
}

#[test]
fn client_disconnect_without_data() {
    assert!(matches!(
        on_connection_event(ConnectionEvent::Closed),
        ConnectionStep::Close
    ));
}

#[test]
fn multiple_requests_on_same_connection() {
    for _ in 0..3 {
        assert!(matches!(
            on_connection_event(ConnectionEvent::Message(Ok(Request::Health))),
            ConnectionStep::Serve(Request::Health)
        ));
    }
}

fn served(request: Request, manager: &Manager) -> Effect {
    dispatch_request(request, manager, 77, "0.1.0")
}

#[test]
fn health_request_returns_ok() {
    match served(Request::Health, &manager_with(vec![])) {
        Effect::Reply(Response::Health {
            status,
            uptime_secs,
            version,
        }) => {
            assert_eq!(status, "ok");
            assert_eq!(uptime_secs, 77);
            assert_eq!(version, "0.1.0");
        }
        other => panic!("expected Health response, got: {:?}", other),
    }
}

#[test]
fn search_request_empty_catalog_returns_empty_results() {
    let manager = manager_with(vec![]);
    match served(Request::Search(request("test query")), &manager) {
        Effect::Search(r) => {
            assert!(manager.plan_search(&r).providers.is_empty());
            match search_reply(Ok(empty_response(&r))) {
                Response::SearchResult(resp) => {
                    assert_eq!(resp.request_id, "req");
                    assert!(resp.results.is_empty());
                    assert_eq!(resp.total_found, 0);
                }
                other => panic!("expected SearchResult, got: {:?}", other),
            }
        }
        other => panic!("expected a search, got: {:?}", other),
    }
}

#[test]
fn shutdown_returns_ack() {
    assert!(matches!(
        served(Request::Shutdown, &manager_with(vec![])),
        Effect::ReplyAndShutDown(Response::ShutdownAck)
    ));
}

#[test]
fn requests_map_to_effects_and_replies() {
    let mut manager = manager_with(vec![entry("a", vec![Tag::Web, Tag::Privacy])]);
    manager.record("a", &Err(ProviderError::AccessDenied));
    match served(Request::ListProviders, &manager) {
        Effect::Reply(Response::ProviderList { listed }) => {
            assert_eq!(listed.len(), 1);
            assert_eq!(listed[0].name, "a");
            assert_eq!(listed[0].description, "a description");
            assert_eq!(listed[0].tags, vec!["Web", "Privacy"]);
            assert!(listed[0].available && listed[0].healthy);
        }
        other => panic!("expected ProviderList, got: {:?}", other),
    }
    match served(Request::ProviderStatus, &manager) {
        Effect::Reply(Response::ProviderStatus { providers }) => {
            assert_eq!(providers.len(), 1);
            assert_eq!(providers[0].failure_count, 1);
            assert_eq!(
                providers[0].last_error.as_deref(),
                Some("Access denied (403)")
            );
        }
        other => panic!("expected ProviderStatus, got: {:?}", other),
    }
    assert!(matches!(
        served(Request::CacheStats, &manager),
        Effect::ReadCacheStats
    ));
    match served(Request::CacheClear { provider: Some("a".into()) }, &manager) {
        Effect::ClearCache(Some(p)) => assert_eq!(p, "a"),
        other => panic!("expected ClearCache, got: {:?}", other),
    }
    assert!(matches!(
        served(Request::Fetch { url: "u".into(), timeout_secs: 3 }, &manager),
        Effect::Fetch { timeout_secs: 3, .. }
    ));
    match search_reply(Err(ProviderError::AccessDenied)) {
        Response::Error { code, message } => {
            assert_eq!(code, -32603);
            assert_eq!(message, "Search failed: Access denied (403)");
        }
        other => panic!("expected Error, got: {:?}", other),
    }
    assert!(matches!(
        cache_clear_reply(Ok(4)),
        Response::CacheCleared { removed: 4 }
    ));
    match cache_clear_reply(Err("locked".into())) {
        Response::Error { code, message } => {
            assert_eq!(code, -32603);
            assert_eq!(message, "Failed to clear cache: locked");
        }
        other => panic!("expected Error, got: {:?}", other),
    }
}

// ---------------------------------------------------------------------------
// Pages
// ---------------------------------------------------------------------------

#[test]
fn detect_spa_combined_flags() {
    let html = "<html><body><div id=\"root\">Loading...</div></body></html>";
    let (is_spa, warning) = detect_spa(html);
    assert!(
        is_spa,
        "SPA with short body, spa root, and no semantics should be detected"
    );
    assert!(warning.contains("SKIPJACKD_SPA_DETECTED"));
}

#[test]
fn detect_spa_normal_page_not_flagged() {
    let long_text = "x".repeat(1024);
    let html = format!(
        "<html><body><p>{}</p><section><h1>Title</h1><article>Content</article></section></body></html>",
        long_text
    );
    let (is_spa, warning) = detect_spa(&html);
    assert!(
        !is_spa,
        "Normal page with semantic content should not be flagged as SPA"
    );
    assert_eq!(warning, "");
}

#[test]
fn detect_spa_body_text_too_short() {
    let html = "<html><body><script>lots of noise here but stripped</script> short </body></html>";
    let (is_spa, warning) = detect_spa(html);
    assert!(is_spa);
    assert!(warning.contains("SKIPJACKD_SPA_DETECTED"));
}

#[test]
fn detect_spa_no_semantic_elements() {
    let long_text = "x".repeat(1024);
    let html = format!("<html><body><div>{}</div></body></html>", long_text);
    let (is_spa, _) = detect_spa(&html);
    assert!(
        is_spa,
        "Page with no p/h/article/main/section tags should be flagged"
    );
}

#[test]
fn detect_spa_root_elements() {
    let roots = [
        "<div id=\"root\">",
        "<div id='app'>",
        r#"<div id="__next">"#,
        "<div id='__nuxt'>",
    ];
    let long_text = "x".repeat(1024);
    for root in &roots {
        let html = format!("<html><body>{}<p>{}</p></body></html>", root, long_text);
        let (is_spa, _) = detect_spa(&html);
        assert!(
            is_spa,
            "SPA root element '{}' should trigger detection",
            root
        );
    }
}

#[test]
fn strip_tags_removes_targeted_tags() {
    let html = "<html><head><style>body { color: red; }</style></head><body><script>alert(1)</script><p>Hello</p><noscript>No JS</noscript></body></html>";
    let result = strip_tags(html, &["script", "style", "noscript"]);
    assert!(!result.contains("<script"));
    assert!(!result.contains("alert(1)"));
    assert!(!result.contains("<style"));
    assert!(!result.contains("color: red"));
    assert!(!result.contains("<noscript"));
    assert!(!result.contains("No JS"));
    assert!(result.contains("<p>Hello</p>"));
}

#[test]
fn strip_tags_leaves_other_content_intact() {
    let html = "<html><body><p>Para</p><div>Div</div></body></html>";
    let result = strip_tags(html, &["script", "style"]);
    assert!(result.contains("<p>Para</p>"));
    assert!(result.contains("<div>Div</div>"));
}

#[test]
fn strip_tags_ignores_case_and_unclosed_elements() {
    assert_eq!(strip_tags("a<SCRIPT>x</Script>b", &["script"]), "ab");
    assert_eq!(strip_tags("a<script>x", &["script"]), "a<script>x");
    assert_eq!(strip_tags("a<style>x</style>b", &["style"]), "ab");
    // Characters whose lowercase form has another length.
    assert_eq!(strip_tags("\u{130}<script>x</script>", &["script"]), "\u{130}");
    assert_eq!(strip_tags("\u{130}<script>x</script>y", &["script"]), "\u{130}y");
    assert_eq!(strip_tags("ä\u{130}<Style>ö</STYLE>ü", &["style"]), "ä\u{130}ü");
    assert!(detect_spa("\u{130}<script>x</script>").0);
}

// ---------------------------------------------------------------------------
// URLs
// ---------------------------------------------------------------------------

const RESTRICTED: &str = "URL resolves to a restricted network address";

/// Resolves every name to a public address.
fn public(_name: &str, _port: u16) -> Option<Vec<IpAddr>> {
    Some(vec![IpAddr::V4(0x5db8_d822)])
}

fn restricted(url: &str) {
    let result = validate_url(url, public);
    assert!(result.is_err());
    assert_eq!(result.unwrap_err(), RESTRICTED);
}

#[test]
fn validate_url_accepts_https() {
    assert!(validate_url("https://example.com", public).is_ok());
}

#[test]
fn validate_url_accepts_http() {
    assert!(validate_url("http://example.com", public).is_ok());
}

#[test]
fn validate_url_rejects_file_scheme() {
    let result = validate_url("file:///etc/passwd", public);
    assert!(result.is_err());
    assert!(result.unwrap_err().contains("Unsupported URL scheme"));
}

#[test]
fn validate_url_rejects_ftp_scheme() {
    let result = validate_url("ftp://example.com", public);
    assert!(result.is_err());
    assert!(result.unwrap_err().contains("Unsupported URL scheme"));
}

#[test]
fn validate_url_rejects_localhost() {
    restricted("http://localhost:8080/admin");
}

#[test]
fn validate_url_rejects_loopback_ip() {
    restricted("http://127.0.0.1:8080/admin");
}

#[test]
fn validate_url_rejects_loopback_range() {
    restricted("http://127.0.0.2:9999/");
}

#[test]
fn validate_url_rejects_private_192_168() {
    restricted("http://192.168.1.1/");
}

#[test]
fn validate_url_rejects_private_10() {
    restricted("http://10.0.0.1/admin");
}

#[test]
fn validate_url_rejects_private_172_16() {
    restricted("http://172.16.0.1/");
}

#[test]
fn validate_url_rejects_link_local() {
    restricted("http://169.254.169.254/latest/meta-data/");
}

#[test]
fn validate_url_rejects_current_network() {
    restricted("http://0.0.0.0:9200/");
}

#[test]
fn validate_url_rejects_ipv6_loopback() {
    restricted("http://[::1]:8080/admin");
}

#[test]
fn validate_url_rejects_ipv6_link_local() {
    restricted("http://[fe80::1]:8080/");
}

#[test]
fn validate_url_rejects_gcp_metadata_hostname() {
    restricted("http://metadata.google.internal/computeMetadata/v1/");
}

#[test]
fn validate_url_rejects_malformed() {
    let result = validate_url("not a url at all", public);
    assert!(result.is_err());
    assert!(result.unwrap_err().contains("Invalid URL"));
}

#[test]
fn validate_url_rejects_no_host() {
    let result = validate_url("http://", public);
    assert!(result.is_err());
}

#[test]
fn every_resolved_address_counts() {
    let mixed = |_: &str, _: u16| Some(vec![IpAddr::V4(0x5db8_d822), IpAddr::V4(0x0a00_0001)]);
    assert_eq!(
        validate_url("http://example.com", mixed).unwrap_err(),
        RESTRICTED
    );
    let fails = |_: &str, _: u16| None;
    assert_eq!(
        validate_url("http://example.com", fails).unwrap_err(),
        "DNS resolution failed"
    );
    let asks = |name: &str, port: u16| {
        assert_eq!((name, port), ("example.com", 443));
        Some(vec![])
    };
    let url = validate_url("HTTPS://Example.com/a b", asks).unwrap();
    assert_eq!(url.text, "https://example.com/a%20b");
    assert_eq!(url.scheme, "https");
    assert!(matches!(url.host, Some(UrlHost::Domain(d)) if d == "example.com"));
    assert_eq!(url.port, None);
    assert_eq!(
        validate_url("http://h:81", |_: &str, p: u16| {
            assert_eq!(p, 81);
            Some(vec![])
        })
        .unwrap()
        .port,
        Some(81)
    );
}

#[test]
fn blocked_ranges_have_exact_ends() {
    let v4 = |a: u32, b: u32, c: u32, d: u32| {
        is_ip_blocked(&IpAddr::V4((a << 24) | (b << 16) | (c << 8) | d))
    };
    assert!(v4(0, 255, 255, 255) && !v4(1, 0, 0, 0));
    assert!(!v4(9, 255, 255, 255) && v4(10, 0, 0, 0) && v4(10, 255, 255, 255) && !v4(11, 0, 0, 0));
    assert!(!v4(172, 15, 255, 255) && v4(172, 16, 0, 0) && v4(172, 31, 255, 255));
    assert!(!v4(172, 32, 0, 0) && !v4(192, 167, 255, 255) && v4(192, 168, 0, 0));
    assert!(v4(169, 254, 0, 0) && !v4(169, 255, 0, 0) && v4(127, 1, 2, 3) && !v4(128, 0, 0, 0));
    let v6 = |high: u128, low: u128| is_ip_blocked(&IpAddr::V6((high << 112) | low));
    assert!(v6(0, 1) && !v6(0, 2) && !v6(0, 0));
    assert!(v6(0xfc00, 0) && v6(0xfdff, 9) && !v6(0xfe00, 0) && !v6(0xfbff, 0));
    assert!(v6(0xfe80, 5) && v6(0xfebf, 5) && !v6(0xfec0, 0));
}

#[test]
fn local_names_are_blocked() {
    assert!(is_hostname_blocked("LocalHost"));
    assert!(is_hostname_blocked("printer.LOCAL"));
    assert!(is_hostname_blocked("metadata.google.internal"));
    assert!(!is_hostname_blocked("example.com"));
    assert!(!is_hostname_blocked("local"));
}

// ---------------------------------------------------------------------------
// Fetching
// ---------------------------------------------------------------------------

#[test]
fn fetches_check_timeout_and_url() {
    assert!(check_timeout(0).is_err());
    assert!(check_timeout(1).is_ok());
    assert!(check_timeout(120).is_ok());
    assert_eq!(
        check_timeout(121).unwrap_err(),
        "Timeout must be between 1 and 120 seconds"
    );
    assert!(start_fetch("https://example.com", 10, public).is_ok());
    let refused = start_fetch("http://10.0.0.1", 10, public).unwrap_err();
    assert_eq!(refused.url, "http://10.0.0.1");
    assert_eq!(refused.status, "error");
    assert_eq!(refused.http_status, 0);
    assert_eq!(refused.error.as_deref(), Some(RESTRICTED));
    let late = start_fetch("http://10.0.0.1", 0, public).unwrap_err();
    assert_eq!(
        late.error.as_deref(),
        Some("Timeout must be between 1 and 120 seconds")
    );
}

#[test]
fn redirects_are_few_and_checked() {
    assert!(follow_redirect(0, true));
    assert!(follow_redirect(4, true));
    assert!(!follow_redirect(5, true));
    assert!(!follow_redirect(0, false));
}

#[test]
fn bodies_are_capped() {
    const MB: usize = 1024 * 1024;
    assert_eq!(MAX_FETCH_BODY_SIZE, 5 * MB);
    assert_eq!(
        CappedBody::new(Some(5 * MB as u64 + 1), 5 * MB).unwrap_err(),
        "Response body (5242881 bytes) exceeds 5 MB limit"
    );
    let mut body = CappedBody::new(Some(3), 4).unwrap();
    assert!(body.push(b"abc").is_ok());
    assert!(body.push(b"d").is_ok());
    assert_eq!(body.finish(), b"abcd");
    let mut full = CappedBody::new(None, MB).unwrap();
    assert!(full.push(&vec![0; MB]).is_ok());
    assert_eq!(
        full.push(b"x").unwrap_err(),
        "Response body exceeds 1 MB limit"
    );
}

#[test]
fn fetch_failures_have_messages() {
    let message = |f: FetchFailure| fetch_failure("u", 7, &f, 30).error.unwrap();
    assert_eq!(message(FetchFailure::Tls("t".into())), "TLS config error: t");
    assert_eq!(
        message(FetchFailure::Client("c".into())),
        "Client build error: c"
    );
    let send = |is_timeout, is_redirect| FetchFailure::Send {
        is_timeout,
        is_redirect,
        message: "m".into(),
    };
    assert_eq!(message(send(true, true)), "Request timed out after 30s");
    assert_eq!(message(send(false, true)), "Too many redirects");
    assert_eq!(message(send(false, false)), "Request failed: m");
    assert_eq!(message(FetchFailure::Body("b".into())), "Body read error: b");
}

#[test]
fn fetched_pages_become_markdown() {
    let long = "word ".repeat(200);
    let html = format!("<html><body><h1>Title</h1><p>{long}</p></body></html>");
    let page = finish_fetch("https://e.com", 200, html.into_bytes());
    assert_eq!(page.status, "ok");
    assert!(!page.spa_detected);
    assert_eq!(page.http_status, 200);
    assert_eq!(page.error, None);
    assert!(page.markdown.contains("# Title"));
    assert!(!page.markdown.contains("<p>"));

    let spa = finish_fetch("https://e.com", 200, b"<div id=\"root\"></div>".to_vec());
    assert_eq!(spa.status, "spa_detected");
    assert!(spa.spa_detected);
    assert!(spa.markdown.contains("SKIPJACKD_SPA_DETECTED"));

    let bad = finish_fetch("https://e.com", 200, vec![0x61, 0xff]);
    assert_eq!(bad.status, "error");
    assert_eq!(bad.http_status, 200);
    assert_eq!(
        bad.error.as_deref(),
        Some("Invalid UTF-8: invalid utf-8 sequence of 1 bytes from index 1")
    );

    // Every page gets an answer.
    let dotted = "\u{130}<script>x</script>".to_string().into_bytes();
    assert_eq!(finish_fetch("https://e.com", 200, dotted).status, "spa_detected");
}
