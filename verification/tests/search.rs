use skipjackd::config::{FreshnessBonusDimension, RankingConfig, RankingDimension};
use skipjackd::double::Double;
use skipjackd::search::merge::is_tracking_param;
use skipjackd::search::rank::{ScoreTerm, freshness_factor, rank_terms, rank_terms_today};
use skipjackd::search::{ResultMerger, SearchResponse, SearchResult, compute_composite_score, rank};

fn double(x: f64) -> Double {
    Double::from_bits(x.to_bits()).unwrap()
}

fn value(d: Double) -> f64 {
    f64::from_bits(d.to_bits())
}

fn total(terms: &[ScoreTerm]) -> f64 {
    let mut score = 0.0;
    for t in terms {
        score += value(t.weight) * value(t.factor);
    }
    score
}

fn make_result(
    title: &str,
    provider: &str,
    published_date: Option<&str>,
    rank_score: f64,
) -> SearchResult {
    SearchResult {
        title: title.into(),
        url: format!("https://example.com/{}", title.to_lowercase()),
        snippet: "snippet".into(),
        published_date: published_date.map(|s| s.to_string()),
        provider_name: provider.into(),
        rank_score: double(rank_score),
    }
}

/// A config with all dimensions disabled: each test enables only what it needs.
fn all_disabled_config() -> RankingConfig {
    RankingConfig {
        provider_reputation: RankingDimension {
            enabled: false,
            weight: double(0.0),
        },
        result_position: RankingDimension {
            enabled: false,
            weight: double(0.0),
        },
        freshness_bonus: FreshnessBonusDimension {
            enabled: false,
            weight: double(0.0),
            window_days: 7,
        },
    }
}

fn by_position(weight: f64) -> RankingConfig {
    RankingConfig {
        result_position: RankingDimension {
            enabled: true,
            weight: double(weight),
        },
        ..all_disabled_config()
    }
}

fn by_freshness() -> RankingConfig {
    RankingConfig {
        freshness_bonus: FreshnessBonusDimension {
            enabled: true,
            weight: double(1.0),
            window_days: 7,
        },
        ..all_disabled_config()
    }
}

fn composite(result: &SearchResult, position: usize, config: &RankingConfig) -> f64 {
    total(&compute_composite_score(result, position, config, &vec![]))
}

fn ranked(results: Vec<SearchResult>, config: &RankingConfig) -> Vec<SearchResult> {
    let scores = rank_terms(&results, config, &vec![], 0)
        .iter()
        .map(|t| double(total(t)))
        .collect();
    rank(results, &scores)
}

#[test]
fn position_scoring_pos0_equals_1() {
    let result = make_result("test", "p", None, 0.0);
    let score = composite(&result, 0, &by_position(1.0));
    assert!((score - 1.0).abs() < f64::EPSILON);
}

#[test]
fn position_scoring_pos1_equals_0_5() {
    let result = make_result("test", "p", None, 0.0);
    let score = composite(&result, 1, &by_position(1.0));
    assert!((score - 0.5).abs() < f64::EPSILON);
}

#[test]
fn position_scoring_pos2_approx_0_333() {
    let result = make_result("test", "p", None, 0.0);
    let score = composite(&result, 2, &by_position(1.0));
    let expected = 1.0 / 3.0;
    assert!((score - expected).abs() < 1e-10);
}

#[test]
fn position_scoring_takes_any_position() {
    let result = make_result("test", "p", None, 0.0);
    let edge = 1usize << 53;
    for position in [edge - 1, edge, edge + 1, edge + 2, edge + 3, usize::MAX] {
        let score = composite(&result, position, &by_position(1.0));
        assert_eq!(score, 1.0 / (1.0 + position as f64), "{position}");
    }
}

#[test]
fn provider_reputation_with_weight() {
    let config = RankingConfig {
        provider_reputation: RankingDimension {
            enabled: true,
            weight: double(2.0),
        },
        ..all_disabled_config()
    };
    let result = make_result("test", "brave", None, 0.0);
    let weights = vec![("brave".to_string(), double(1.5))];
    let score = total(&compute_composite_score(&result, 0, &config, &weights));
    assert!((score - 2.0 * 1.5).abs() < f64::EPSILON);
}

#[test]
fn provider_reputation_defaults_to_1_when_missing() {
    let config = RankingConfig {
        provider_reputation: RankingDimension {
            enabled: true,
            weight: double(1.0),
        },
        ..all_disabled_config()
    };
    let result = make_result("test", "unknown", None, 0.0);
    let score = composite(&result, 0, &config);
    assert!((score - 1.0).abs() < f64::EPSILON);
}

#[test]
fn freshness_within_window_gets_1() {
    let today = chrono::Utc::now().date_naive();
    let result = make_result(
        "test",
        "p",
        Some(&today.format("%Y-%m-%d").to_string()),
        0.0,
    );
    let score = composite(&result, 0, &by_freshness());
    assert!((score - 1.0).abs() < f64::EPSILON);
}

#[test]
fn freshness_outside_window_gets_0() {
    let old_date = chrono::Utc::now().date_naive() - chrono::Duration::days(30);
    let result = make_result(
        "test",
        "p",
        Some(&old_date.format("%Y-%m-%d").to_string()),
        0.0,
    );
    let score = composite(&result, 0, &by_freshness());
    assert!((score - 0.0).abs() < f64::EPSILON);
}

#[test]
fn freshness_missing_date_gets_0_5() {
    let result = make_result("test", "p", None, 0.0);
    let score = composite(&result, 0, &by_freshness());
    assert!((score - 0.5).abs() < f64::EPSILON);
    let unreadable = make_result("test", "p", Some("last week"), 0.0);
    assert_eq!(composite(&unreadable, 0, &by_freshness()), 0.5);
}

#[test]
fn freshness_window_is_closed_at_both_ends() {
    let factor = |day: i32| value(freshness_factor(Some(day), 7, 1000));
    assert_eq!(factor(1000), 1.0);
    assert_eq!(factor(993), 1.0);
    assert_eq!(factor(992), 0.0);
    assert_eq!(factor(1001), 0.0);
    assert_eq!(value(freshness_factor(None, 7, 1000)), 0.5);
}

#[test]
fn terms_are_those_of_today() {
    let today = chrono::Utc::now().date_naive().format("%Y-%m-%d").to_string();
    let results = vec![
        make_result("a", "p", Some(&today), 0.0),
        make_result("b", "p", Some("1999-12-31"), 0.0),
    ];
    let totals: Vec<f64> = rank_terms_today(&results, &by_freshness(), &vec![])
        .iter()
        .map(|t| total(t))
        .collect();
    assert_eq!(totals, vec![1.0, 0.0]);
}

#[test]
fn disabled_dimension_contributes_zero() {
    let mut config = by_position(5.0);
    config.result_position.enabled = false;
    let result = make_result("test", "p", None, 0.0);
    let score = composite(&result, 0, &config);
    assert!((score - 0.0).abs() < f64::EPSILON);
}

#[test]
fn stable_sort_for_equal_scores() {
    let results = vec![
        make_result("A", "p1", None, 0.0),
        make_result("B", "p2", None, 0.0),
        make_result("C", "p3", None, 0.0),
    ];
    let ranked = ranked(results, &all_disabled_config());
    // With all equal scores, original order must be preserved.
    assert_eq!(ranked[0].title, "A");
    assert_eq!(ranked[1].title, "B");
    assert_eq!(ranked[2].title, "C");
}

#[test]
fn rank_produces_correct_descending_order() {
    let results = vec![
        make_result("A-pos0", "p1", None, 0.0),
        make_result("B-pos1", "p1", None, 0.0),
        make_result("C-pos0", "p2", None, 0.0),
    ];
    let ranked = ranked(results, &by_position(1.0));
    assert_eq!(ranked[0].title, "A-pos0");
    assert!((value(ranked[0].rank_score) - 1.0).abs() < f64::EPSILON);
    assert_eq!(ranked[1].title, "C-pos0");
    assert!((value(ranked[1].rank_score) - 1.0).abs() < f64::EPSILON);
    assert_eq!(ranked[2].title, "B-pos1");
    assert!((value(ranked[2].rank_score) - 0.5).abs() < f64::EPSILON);
}

#[test]
fn per_provider_positions_are_independent() {
    // Interleaved providers: p1, p2, p1
    let results = vec![
        make_result("p1-0", "p1", None, 0.0),
        make_result("p2-0", "p2", None, 0.0),
        make_result("p1-1", "p1", None, 0.0),
    ];
    let ranked = ranked(results, &by_position(1.0));
    assert_eq!(ranked[0].title, "p1-0");
    assert!((value(ranked[0].rank_score) - 1.0).abs() < f64::EPSILON);
    assert_eq!(ranked[1].title, "p2-0");
    assert!((value(ranked[1].rank_score) - 1.0).abs() < f64::EPSILON);
    assert_eq!(ranked[2].title, "p1-1");
    assert!((value(ranked[2].rank_score) - 0.5).abs() < f64::EPSILON);
}

// ---------------------------------------------------------------------------
// Merging
// ---------------------------------------------------------------------------

fn response(title: &str, url: &str, provider: &str, rank_score: f64) -> SearchResponse {
    SearchResponse {
        request_id: "req-1".into(),
        results: vec![SearchResult {
            title: title.into(),
            url: url.into(),
            snippet: "Snippet".into(),
            published_date: None,
            provider_name: provider.into(),
            rank_score: double(rank_score),
        }],
        total_found: 1,
        providers_used: vec![provider.into()],
        cache_hit: false,
        elapsed_ms: 10,
    }
}

#[test]
fn merger_deduplicates_by_url() {
    let responses = vec![
        response("First", "https://example.com/page", "a", 0.8),
        response("Second (dupe)", "https://example.com/page", "b", 0.9),
    ];
    let merged = ResultMerger::merge(responses, 10);
    assert_eq!(merged.results.len(), 1);
    // The higher-scoring result should win.
    assert_eq!(merged.results[0].title, "Second (dupe)");
    assert!((value(merged.results[0].rank_score) - 0.9).abs() < f64::EPSILON);
    assert_eq!(merged.providers_used, vec!["a".to_string(), "b".to_string()]);
}

#[test]
fn merger_respects_limit() {
    let mut responses = Vec::new();
    for i in 0..5 {
        responses.push(response(
            &format!("Result {}", i),
            &format!("https://example.com/{}", i),
            "p",
            (5 - i) as f64 / 5.0,
        ));
    }
    let merged = ResultMerger::merge(responses, 3);
    assert_eq!(merged.results.len(), 3);
    // Results should be sorted by rank_score descending.
    assert!((value(merged.results[0].rank_score) - 1.0).abs() < f64::EPSILON);
    let titles: Vec<&str> = merged.results.iter().map(|r| r.title.as_str()).collect();
    assert_eq!(titles, vec!["Result 0", "Result 1", "Result 2"]);
}

#[test]
fn merger_tracking_params_are_stripped() {
    let r1 = response("A", "https://example.com?utm_source=twitter&page=1", "p", 0.8);
    let r2 = response("B", "https://example.com?page=1&utm_campaign=ads", "q", 0.9);
    let merged = ResultMerger::merge(vec![r1, r2], 10);
    // Both URLs should canonicalize to "https://example.com?page=1"
    assert_eq!(merged.results.len(), 1);
    assert_eq!(merged.results[0].title, "B"); // higher score wins
}

#[test]
fn merging_nothing_gives_an_empty_answer() {
    let merged = ResultMerger::merge(vec![], 10);
    assert!(merged.results.is_empty());
    assert!(merged.providers_used.is_empty());
    assert_eq!(merged.total_found, 0);
    assert!(!merged.cache_hit);
}

#[test]
fn an_equal_score_does_not_replace_the_first() {
    let merged = ResultMerger::merge(
        vec![
            response("first", "https://e.com/x", "a", 0.5),
            response("second", "https://e.com/x/", "b", 0.5),
        ],
        10,
    );
    assert_eq!(merged.results.len(), 1);
    assert_eq!(merged.results[0].title, "first");
}

#[test]
fn urls_have_one_canonical_form() {
    for (raw, canonical) in [
        ("https://Example.COM/Path/", "https://example.com/Path"),
        ("HTTPS://example.com/#frag", "https://example.com"),
        ("https://example.com/?b=2&a=1", "https://example.com/?b=2&a=1"),
        ("https://example.com/?utm_source=x", "https://example.com"),
        ("https://example.com/?UTM_Source=x", "https://example.com/?UTM_Source=x"),
        ("https://example.com/?gclid=1&q=2", "https://example.com/?q=2"),
        ("foo://EXAMPLE.com/Path", "foo://example.com/Path"),
        ("not a URL/", "not a URL"),
        ("", ""),
    ] {
        assert_eq!(ResultMerger::canonicalize_url(raw), canonical, "{raw}");
        assert_eq!(
            ResultMerger::canonicalize_url(canonical),
            canonical,
            "{canonical}"
        );
    }
}

#[test]
fn tracking_parameters_are_known() {
    for name in ["utm_source", "utm_medium", "utm_anything", "gclid", "fbclid"] {
        assert!(is_tracking_param(name), "{name}");
    }
    for name in ["q", "page", "utm", "xutm_source"] {
        assert!(!is_tracking_param(name), "{name}");
    }
}
