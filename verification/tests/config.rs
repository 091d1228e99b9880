use skipjackd::config::overrides::{
    Setting, apply_env_overrides, parse_env_toml_value, path_of_variable, split_text,
};
use skipjackd::config::{
    Config, ProviderConfig, config_path, default_cache_db_path, default_config_path,
};
use std::sync::Arc;

fn value(d: skipjackd::double::Double) -> f64 {
    f64::from_bits(d.to_bits())
}

fn var(name: &str, value: &str) -> (String, String) {
    (name.to_string(), value.to_string())
}

/// A configuration with one table of the given name.
fn table(name: &str, items: &[(&str, &str)]) -> Vec<(String, Setting)> {
    vec![(
        name.to_string(),
        Setting::Table(
            items
                .iter()
                .map(|(k, v)| (k.to_string(), Setting::Value(v.to_string())))
                .collect(),
        ),
    )]
}

fn text_at<'a>(items: &'a [(String, Setting)], path: &[&str]) -> Option<&'a str> {
    let found = items.iter().find(|(k, _)| k == path[0])?;
    match &found.1 {
        Setting::Table(inner) if path.len() > 1 => text_at(inner, &path[1..]),
        Setting::Value(text) if path.len() == 1 => Some(text),
        _ => None,
    }
}

#[test]
fn roundtrip_default_config() {
    let parsed = Config::default();

    // Daemon defaults
    assert_eq!(parsed.daemon.name, "skipjackd");
    assert_eq!(parsed.daemon.socket_dir, "/tmp");
    assert_eq!(parsed.daemon.pid_dir, "/tmp");
    assert_eq!(parsed.daemon.shutdown_grace_period_secs, 30);
    assert_eq!(parsed.daemon.log_level, "info");
    assert_eq!(parsed.daemon.log_file, "");

    // Cache defaults
    assert!(parsed.cache.db_path.ends_with("cache.db"));
    assert_eq!(parsed.cache.default_ttl_secs, 3600);
    assert_eq!(parsed.cache.eviction_interval_secs, 300);

    // Search defaults
    assert_eq!(parsed.search.default_limit, 10);
    assert_eq!(parsed.search.max_limit, 100);
    assert_eq!(parsed.search.request_timeout_secs, 60);

    // Dispatch defaults
    assert_eq!(parsed.dispatch.mode, "concurrent");

    // Anti-blocking defaults
    assert!(
        parsed.anti_blocking.user_agents.len() >= 20,
        "expected >=20 user agents, got {}",
        parsed.anti_blocking.user_agents.len()
    );
    assert_eq!(parsed.anti_blocking.page_delay_min_ms, 500);
    assert_eq!(parsed.anti_blocking.page_delay_max_ms, 2000);
    assert_eq!(parsed.anti_blocking.retry_base_delay_secs, 1);
    assert_eq!(parsed.anti_blocking.retry_max_attempts, 3);
    assert_eq!(parsed.anti_blocking.retry_cap_secs, 60);

    // Ranking defaults
    assert!(!parsed.ranking.provider_reputation.enabled);
    assert!((value(parsed.ranking.provider_reputation.weight) - 1.0).abs() < f64::EPSILON);
    assert!(parsed.ranking.result_position.enabled);
    assert!((value(parsed.ranking.result_position.weight) - 1.0).abs() < f64::EPSILON);
    assert!(!parsed.ranking.freshness_bonus.enabled);
    assert!((value(parsed.ranking.freshness_bonus.weight) - 0.0).abs() < f64::EPSILON);
    assert_eq!(parsed.ranking.freshness_bonus.window_days, 7);

    // Providers and tiers are empty by default
    assert!(parsed.providers.is_empty());
    assert!(parsed.tiers.order.is_empty());
    assert!(parsed.tiers.tiers.is_empty());
}

fn with_provider(provider: ProviderConfig) -> Config {
    Config {
        providers: vec![provider],
        ..Config::default()
    }
}

#[test]
fn provider_api_key_resolved_from_env() {
    let mut config = with_provider(ProviderConfig {
        name: "jina".into(),
        enabled: true,
        api_key_env: Some("SKIPJACKD_TEST_JINA_KEY".into()),
        ..Default::default()
    });
    config.validate_providers(&vec![
        var("OTHER", "x"),
        var("SKIPJACKD_TEST_JINA_KEY", "test-jina-key-12345"),
    ]);

    assert_eq!(config.providers.len(), 1);
    assert_eq!(
        config.providers[0].api_key.as_deref(),
        Some("test-jina-key-12345")
    );
    assert!(config.providers[0].enabled);
}

#[test]
fn provider_missing_env_var_marks_unavailable() {
    let mut config = with_provider(ProviderConfig {
        name: "someapi".into(),
        enabled: true,
        api_key_env: Some("NONEXISTENT_API_KEY".into()),
        ..Default::default()
    });
    config.validate_providers(&vec![]);

    assert_eq!(config.providers.len(), 1);
    assert!(config.providers[0].api_key.is_none());
    // Provider with missing api_key_env is marked unavailable
    assert!(!config.providers[0].enabled);
}

#[test]
fn keyless_provider_not_flagged() {
    let mut config = with_provider(ProviderConfig {
        name: "duckduckgo".into(),
        enabled: true,
        ..Default::default()
    });
    config.validate_providers(&vec![]);

    assert_eq!(config.providers.len(), 1);
    assert!(config.providers[0].api_key.is_none());
    assert!(config.providers[0].api_key_env.is_none());
    assert!(config.providers[0].enabled);
}

#[test]
fn freeze_returns_arc() {
    let config = Config::default();
    let frozen = config.freeze();

    assert_eq!(frozen.daemon.name, "skipjackd");
    // Verify Arc reference count starts at 1
    assert_eq!(Arc::strong_count(&frozen), 1);
}

#[test]
fn env_override_sets_cache_ttl() {
    let items = table("cache", &[("default_ttl_secs", "3600"), ("db_path", "\"x\"")]);
    let now = apply_env_overrides(items, &vec![var("SKIPJACKD_CACHE__DEFAULT_TTL_SECS", "7200")])
        .expect("apply env overrides");
    assert_eq!(text_at(&now, &["cache", "default_ttl_secs"]), Some("7200"));
    assert_eq!(text_at(&now, &["cache", "db_path"]), Some("\"x\""));
}

#[test]
fn env_override_sets_ranking_dimension() {
    let now = apply_env_overrides(
        vec![],
        &vec![
            var("SKIPJACKD_RANKING__FRESHNESS_BONUS__ENABLED", "true"),
            var("SKIPJACKD_RANKING__FRESHNESS_BONUS__WEIGHT", "0.5"),
        ],
    )
    .expect("apply env overrides");
    assert_eq!(
        text_at(&now, &["ranking", "freshness_bonus", "enabled"]),
        Some("true")
    );
    assert_eq!(
        text_at(&now, &["ranking", "freshness_bonus", "weight"]),
        Some("0.5")
    );
}

#[test]
fn env_override_boolean_values() {
    let now = apply_env_overrides(
        table("ranking", &[]),
        &vec![var("SKIPJACKD_RANKING__RESULT_POSITION__ENABLED", "false")],
    )
    .expect("apply env overrides");
    assert_eq!(
        text_at(&now, &["ranking", "result_position", "enabled"]),
        Some("false")
    );
}

#[test]
fn env_override_string_value() {
    let now = apply_env_overrides(
        table("daemon", &[("log_level", "\"info\"")]),
        &vec![
            var("SKIPJACKD_DAEMON__LOG_LEVEL", "debug"),
            var("SKIPJACKD_DAEMON__LOG_FILE", "a \"b\" c"),
        ],
    )
    .expect("apply env overrides");
    let read = |key: &str| -> String {
        let line = format!("v = {}", text_at(&now, &["daemon", key]).unwrap());
        let parsed: toml::Table = line.parse().unwrap();
        parsed["v"].as_str().unwrap().to_string()
    };
    assert_eq!(read("log_level"), "debug");
    assert_eq!(read("log_file"), "a \"b\" c");
}

#[test]
fn env_override_array_value() {
    let now = apply_env_overrides(
        table("tiers", &[("order", "[]")]),
        &vec![var("SKIPJACKD_TIERS__ORDER", "[0, 1, 2]")],
    )
    .expect("apply env overrides");
    let line = format!("v = {}", text_at(&now, &["tiers", "order"]).unwrap());
    let parsed: toml::Table = line.parse().unwrap();
    let order: Vec<i64> = parsed["v"]
        .as_array()
        .unwrap()
        .iter()
        .map(|v| v.as_integer().unwrap())
        .collect();
    assert_eq!(order, vec![0, 1, 2]);
}

#[test]
fn dispatch_mode_default_and_override() {
    // Default
    assert_eq!(Config::default().dispatch.mode, "concurrent");

    // Override
    let now = apply_env_overrides(
        table("dispatch", &[("mode", "\"concurrent\"")]),
        &vec![var("SKIPJACKD_DISPATCH__MODE", "tiered")],
    )
    .expect("apply env overrides");
    assert_eq!(text_at(&now, &["dispatch", "mode"]), Some("\"tiered\""));
}

#[test]
fn override_through_a_plain_value_is_refused() {
    let result = apply_env_overrides(
        table("cache", &[("ttl", "1")]),
        &vec![var("SKIPJACKD_CACHE__TTL__X", "2")],
    );
    assert_eq!(
        result.unwrap_err(),
        "Cannot apply env override 'SKIPJACKD_CACHE__TTL__X': 'ttl' is not a TOML table"
    );
}

#[test]
fn other_variables_are_ignored() {
    assert_eq!(path_of_variable("PATH"), None);
    assert_eq!(
        path_of_variable("SKIPJACKD_A__B_C"),
        Some(vec!["a".to_string(), "b_c".to_string()])
    );
    let now = apply_env_overrides(vec![], &vec![var("PATH", "/bin")]).unwrap();
    assert!(now.is_empty());
}

#[test]
fn values_of_variables_are_toml_or_text() {
    match parse_env_toml_value("{ a = 1, b = \"x\" }") {
        Setting::Table(items) => {
            assert_eq!(text_at(&items, &["a"]), Some("1"));
            assert_eq!(text_at(&items, &["b"]), Some("\"x\""));
        }
        other => panic!("expected a table, got {:?}", other),
    }
    assert!(matches!(parse_env_toml_value("plain"), Setting::Value(t) if t == "\"plain\""));
    // What follows the first value is not read.
    assert!(matches!(parse_env_toml_value("1\nw = 2"), Setting::Value(t) if t == "1"));
}

#[test]
fn text_splits_at_every_separator() {
    for s in ["", "a", "a__b", "__", "a____b", "___"] {
        let expected: Vec<String> = s.split("__").map(|p| p.to_string()).collect();
        assert_eq!(split_text(s, "__"), expected, "{s:?}");
    }
}

#[test]
fn cache_lives_under_the_home_directory() {
    assert_eq!(
        default_cache_db_path(Some("/home/u".into())),
        "/home/u/.cache/skipjackd/cache.db"
    );
    assert_eq!(default_cache_db_path(None), "./.cache/skipjackd/cache.db");
}

#[test]
fn configuration_lies_under_the_home_directory() {
    assert_eq!(
        default_config_path(Some("/home/u".into())),
        "/home/u/.config/skipjackd/config.toml"
    );
    assert_eq!(default_config_path(None), "./.config/skipjackd/config.toml");
    assert_eq!(config_path(Some("x.toml")), "x.toml");
    assert!(config_path(None).ends_with("/.config/skipjackd/config.toml"));
}
