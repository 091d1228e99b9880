use skipjackd::cache::CacheStats;
use skipjackd::cli::{
    DispatchModeCli, FreshnessCli, Invocation, SearchArgs, check_response_error, exit_code,
    extract_config_arg, format_bytes, format_duration, invocation, new_search_request, render_cache, render_cleared,
    render_daemon, render_health, render_notice, render_providers, render_results, search_request,
};
use skipjackd::client::{ClientFailure, DaemonClient, command_error, tool_error};
use skipjackd::config::Config;
use skipjackd::daemon::protocol::{ProviderHealth, ProviderInfo, Response};
use skipjackd::double::{Double, Ratio};
use skipjackd::mcp;
use skipjackd::search::{Freshness, SearchResponse, SearchResult};

#[test]
fn test_format_duration() {
    assert_eq!(format_duration(0), "0s");
    assert_eq!(format_duration(42), "42s");
    assert_eq!(format_duration(90), "1m 30s");
    assert_eq!(format_duration(3661), "1h 1m 1s");
    assert_eq!(format_duration(7200), "2h 0m 0s");
    assert_eq!(format_duration(86400), "24h 0m 0s");
}

#[test]
fn test_format_bytes() {
    assert_eq!(format_bytes(0), "0.0 B");
    assert_eq!(format_bytes(500), "500.0 B");
    assert_eq!(format_bytes(1024), "1.0 KB");
    assert_eq!(format_bytes(1536), "1.5 KB");
    assert_eq!(format_bytes(1048576), "1.0 MB");
    assert_eq!(format_bytes(1073741824), "1.0 GB");
}

#[test]
fn byte_counts_round_as_decimals_do() {
    let by_floats = |bytes: u64| {
        let units = ["B", "KB", "MB", "GB"];
        let mut size = bytes as f64;
        let mut unit = 0;
        while size >= 1024.0 && unit < units.len() - 1 {
            size /= 1024.0;
            unit += 1;
        }
        format!("{:.1} {}", size, units[unit])
    };
    let mut n: u64 = 1;
    for i in 0..3000u64 {
        assert_eq!(format_bytes(n), by_floats(n), "{n}");
        n = n.wrapping_mul(6364136223846793005).wrapping_add(i) >> (i % 60);
    }
    for n in [1023, 1075, 1076, 1126, 1177, 1280, 1331, 1048575, u64::MAX, u64::MAX - 1] {
        assert_eq!(format_bytes(n), by_floats(n), "{n}");
    }
}

#[test]
fn test_format_duration_zero_not_empty() {
    assert!(!format_duration(0).is_empty());
}

#[test]
fn test_freshness_cli_conversion() {
    let f: Freshness = FreshnessCli::Day.into();
    assert!(matches!(f, Freshness::Day));

    let f: Freshness = FreshnessCli::Week.into();
    assert!(matches!(f, Freshness::Week));

    let f: Freshness = FreshnessCli::Month.into();
    assert!(matches!(f, Freshness::Month));

    let f: Freshness = FreshnessCli::Year.into();
    assert!(matches!(f, Freshness::Year));
}

#[test]
fn test_dispatch_mode_conversion() {
    let s: String = DispatchModeCli::Concurrent.into();
    assert_eq!(s, "concurrent");

    let s: String = DispatchModeCli::Tiered.into();
    assert_eq!(s, "tiered");
}

#[test]
fn test_check_response_error_success() {
    let resp = Response::Health {
        status: "ok".into(),
        uptime_secs: 0,
        version: "0.1.0".into(),
    };
    let result = check_response_error(resp);
    assert!(
        result.is_ok(),
        "success response should pass through: {:?}",
        result.err()
    );
}

#[test]
fn test_check_response_error_error() {
    let resp = Response::Error {
        code: -32000,
        message: "something went wrong".into(),
    };
    let result = check_response_error(resp);
    assert!(result.is_err(), "error response should bail");
    assert!(
        result.unwrap_err().contains("something went wrong"),
        "error message should be preserved"
    );
}

#[test]
fn test_print_providers_table_empty() {
    assert_eq!(
        render_providers(&vec![], &vec![]),
        vec!["(no providers configured)".to_string()]
    );
}

#[test]
fn test_print_providers_table_with_data() {
    let providers = vec![ProviderInfo {
        name: "test-provider".into(),
        description: "A test provider".into(),
        tags: vec!["test".into()],
        available: true,
        healthy: true,
        health_score: Ratio { part: 1, whole: 1 },
    }];
    let lines = render_providers(&providers, &vec!["1.00".to_string()]);
    assert_eq!(
        lines,
        vec![
            format!(
                "{:<20} {:>10} {:>8} {:>6}  {}  Description",
                "Provider", "Available", "Healthy", "Score", "Tags"
            ),
            format!(
                "{:-<20} {:-<10} {:-<8} {:-<6}  {}  {:-<20}",
                "", "", "", "", "----", ""
            ),
            format!(
                "{:<20} {:>10} {:>8} {:>6.2}  {}  {}",
                "test-provider", "YES", "YES", 1.0, "test", "A test provider"
            ),
        ]
    );
}

#[test]
fn status_is_shown_in_tables() {
    assert_eq!(
        render_daemon("ok", "0.1.0", 90),
        vec![
            "=== Daemon Status ===",
            "  Status:   ok",
            "  Version:  0.1.0",
            "  Uptime:   1m 30s"
        ]
    );
    assert_eq!(
        render_health(&vec![], &vec![]),
        vec!["=== Provider Health ===", "  (no providers configured)"]
    );
    let health = vec![ProviderHealth {
        name: "a".into(),
        healthy: false,
        degraded: true,
        health_score: Ratio { part: 1, whole: 4 },
        success_count: 1,
        failure_count: 3,
        last_error: None,
    }];
    assert_eq!(
        render_health(&health, &vec!["0.25".to_string()]),
        vec![
            "=== Provider Health ===".to_string(),
            format!(
                "  {:<20} {:>8} {:>10} {:>8} {:>10}  Last Error",
                "Provider", "Healthy", "Degraded", "Score", "Succ/Fail"
            ),
            format!(
                "  {:-<20} {:-<8} {:-<10} {:-<8} {:-<10}  {:-<20}",
                "", "", "", "", "", ""
            ),
            format!(
                "  {:<20} {:>8} {:>10} {:>8.2} {:>4}/{:<5}  {}",
                "a", "no", "YES", 0.25, 1, 3, "-"
            ),
        ]
    );
    let mut stats = CacheStats {
        total_entries: 2,
        total_size_bytes: 2048,
        hit_count: 1,
        miss_count: 3,
        eviction_count: 0,
        hit_rate: Ratio { part: 1, whole: 4 },
    };
    assert_eq!(
        render_cache(&stats, "25.0%"),
        vec![
            "=== Cache Stats ===",
            "  Entries:     2",
            "  Size:        2.0 KB",
            "  Hits:        1 (4 total requests)",
            "  Hit rate:    25.0%"
        ]
    );
    stats.hit_count = 0;
    stats.miss_count = 0;
    assert_eq!(render_cache(&stats, "0.0%")[4], "  Hit rate:    N/A");
    assert_eq!(render_cleared(7), "Cache cleared: 7 entries removed.");
}

fn found(results: Vec<SearchResult>, cache_hit: bool) -> SearchResponse {
    SearchResponse {
        request_id: "r".into(),
        total_found: results.len(),
        results,
        providers_used: vec!["a".into(), "b".into()],
        cache_hit,
        elapsed_ms: 12,
    }
}

#[test]
fn results_are_listed() {
    let result = |date: Option<&str>| SearchResult {
        title: "T".into(),
        url: "U".into(),
        snippet: "S".into(),
        published_date: date.map(|d| d.to_string()),
        provider_name: "a".into(),
        rank_score: Double::one(),
    };
    let results = vec![result(None), result(Some("2024-01-02"))];
    let text = render_results(&results, &vec!["1.00".into(), "0.50".into()]).join("\n");
    assert_eq!(
        text,
        "\n1. T\n   U\n   S\n   (via a, score: 1.00)\n\n2. T\n   U\n   S\n   [2024-01-02]   (via a, score: 0.50)"
    );
    assert_eq!(
        render_results(&vec![], &vec![]),
        vec!["(no results found)".to_string()]
    );
    assert_eq!(
        render_notice(&found(results, false)),
        "\u{23f3} 12 ms, 2 results from a, b providers"
    );
    assert_eq!(render_notice(&found(vec![], true)), "\u{1f4e6} cached (12 ms)");
}

fn words(list: &[&str]) -> Vec<String> {
    list.iter().map(|s| s.to_string()).collect()
}

#[test]
fn arguments_choose_the_mode() {
    assert!(matches!(invocation(&words(&["p"])), Invocation::McpServer));
    assert!(matches!(invocation(&words(&[])), Invocation::McpServer));
    assert!(matches!(
        invocation(&words(&["p", "--daemon", "-c", "x"])),
        Invocation::Daemon
    ));
    assert!(matches!(
        invocation(&words(&["p", "search", "--daemon"])),
        Invocation::Command
    ));
    assert_eq!(
        extract_config_arg(&words(&["p", "--daemon", "-c", "x"])).as_deref(),
        Some("x")
    );
    assert_eq!(
        extract_config_arg(&words(&["p", "--config", "y", "-c", "x"])).as_deref(),
        Some("y")
    );
    assert_eq!(extract_config_arg(&words(&["p", "--config"])), None);
    assert_eq!(exit_code("daemon not running"), 2);
    assert_eq!(exit_code("anything else"), 1);
}

#[test]
fn command_line_becomes_a_request() {
    let request = search_request(
        SearchArgs {
            query: "rust async".into(),
            limit: 5,
            providers: words(&["duckduckgo", "brave"]),
            language: Some("en".into()),
            country: Some("us".into()),
            no_safe_search: true,
            freshness: Some(FreshnessCli::Month),
            dispatch_mode: Some(DispatchModeCli::Tiered),
        },
        "id".into(),
    );
    assert_eq!(request.request_id, "id");
    assert_eq!(request.query, "rust async");
    assert_eq!(request.limit, 5);
    assert_eq!(request.providers, words(&["duckduckgo", "brave"]));
    assert_eq!(request.language.as_deref(), Some("en"));
    assert_eq!(request.country.as_deref(), Some("us"));
    assert!(!request.safe_search);
    assert!(matches!(request.freshness, Some(Freshness::Month)));
    assert_eq!(request.dispatch_mode.as_deref(), Some("tiered"));
}

#[test]
fn requests_have_identifiers_of_their_own() {
    let args = || SearchArgs {
        query: "q".into(),
        limit: 5,
        providers: vec![],
        language: None,
        country: None,
        no_safe_search: false,
        freshness: None,
        dispatch_mode: None,
    };
    let a = new_search_request(args());
    let b = new_search_request(args());
    assert_eq!(a.query, "q");
    assert!(a.safe_search);
    assert_ne!(a.request_id, b.request_id);
    for id in [a.request_id, b.request_id] {
        assert_eq!(id.len(), 36);
        for (i, c) in id.chars().enumerate() {
            match i {
                8 | 13 | 18 | 23 => assert_eq!(c, '-'),
                14 => assert_eq!(c, '4'),
                _ => assert!(c.is_ascii_digit() || ('a'..='f').contains(&c)),
            }
        }
    }
    let c = mcp::new_search_request(params()).unwrap();
    assert_eq!(c.request_id.len(), 36);
    assert!(
        mcp::new_search_request(mcp::SearchParams {
            limit: 0,
            ..params()
        })
        .is_err()
    );
}

// ---------------------------------------------------------------------------
// Daemon client and tool server
// ---------------------------------------------------------------------------

#[test]
fn daemon_client_socket_path_from_config() {
    let mut config = Config::default();
    config.daemon.socket_dir = "/var/run".into();
    config.daemon.name = "searchd".into();
    config.search.request_timeout_secs = 45;

    let client = DaemonClient::new(&config);
    assert_eq!(client.socket_path, "/var/run/searchd.sock");
    assert_eq!(client.timeout_secs, 45);
}

#[test]
fn client_failures_have_codes() {
    let told = |f: ClientFailure| {
        let e = tool_error(&f, 45);
        (e.code, e.message)
    };
    assert_eq!(
        told(ClientFailure::Connect("x".into())),
        (-32000, "Daemon unreachable: x".to_string())
    );
    assert_eq!(
        told(ClientFailure::Serialize("x".into())),
        (-32602, "Failed to serialize request: x".to_string())
    );
    assert_eq!(
        told(ClientFailure::Send("x".into())),
        (-32000, "Failed to send request: x".to_string())
    );
    assert_eq!(
        told(ClientFailure::Flush("x".into())),
        (-32000, "Failed to flush: x".to_string())
    );
    assert_eq!(
        told(ClientFailure::Read("x".into())),
        (-32000, "Read error from daemon: x".to_string())
    );
    assert_eq!(
        told(ClientFailure::Closed),
        (
            -32000,
            "Daemon closed connection before sending response".to_string()
        )
    );
    assert_eq!(
        told(ClientFailure::TooLarge),
        (-32000, "Daemon response exceeded 1 MB limit".to_string())
    );
    assert_eq!(
        told(ClientFailure::Parse("x".into())),
        (-32602, "Failed to parse daemon response: x".to_string())
    );
    assert_eq!(
        told(ClientFailure::TimedOut),
        (-32001, "Search request timed out after 45s".to_string())
    );
    assert_eq!(
        command_error(&ClientFailure::Connect("x".into())),
        "daemon not running"
    );
    assert_eq!(
        command_error(&ClientFailure::TooLarge),
        "daemon response too large (>1048576 bytes)"
    );
    assert_eq!(exit_code(&command_error(&ClientFailure::Connect("x".into()))), 2);
}

fn params() -> mcp::SearchParams {
    mcp::SearchParams {
        query: "rust".into(),
        limit: mcp::default_limit(),
        providers: vec![],
        language: None,
        country: None,
        safe_search: mcp::default_safe_search(),
        freshness: None,
        dispatch_mode: None,
    }
}

#[test]
fn tool_parameters_are_checked() {
    assert_eq!((mcp::default_limit(), mcp::default_safe_search()), (10, true));
    let ok = mcp::search_request(
        mcp::SearchParams {
            freshness: Some("Week".into()),
            dispatch_mode: Some("tiered".into()),
            ..params()
        },
        "id".into(),
    )
    .unwrap();
    assert_eq!(ok.request_id, "id");
    assert!(matches!(ok.freshness, Some(Freshness::Week)));
    let refused = |p: mcp::SearchParams| {
        let e = mcp::search_request(p, "id".into()).unwrap_err();
        assert_eq!(e.code, -32602);
        e.message
    };
    assert_eq!(
        refused(mcp::SearchParams {
            query: " \t".into(),
            ..params()
        }),
        "Query must not be empty"
    );
    assert_eq!(
        refused(mcp::SearchParams {
            freshness: Some("week".into()),
            ..params()
        }),
        "Invalid freshness value 'week'. Must be one of: Day, Week, Month, Year"
    );
    assert_eq!(
        refused(mcp::SearchParams {
            dispatch_mode: Some("all".into()),
            ..params()
        }),
        "Invalid dispatch_mode 'all'. Must be 'concurrent' or 'tiered'"
    );
    assert_eq!(
        refused(mcp::SearchParams {
            limit: 0,
            ..params()
        }),
        "limit must be between 1 and 100, got 0"
    );
    assert_eq!(
        refused(mcp::SearchParams {
            limit: 101,
            ..params()
        }),
        "limit must be between 1 and 100, got 101"
    );
}

#[test]
fn daemon_answers_reach_the_tool() {
    assert!(mcp::search_answer(Response::SearchResult(found(vec![], false)), "").is_ok());
    let error = |code| Response::Error {
        code,
        message: "secret path /etc".into(),
    };
    let e = mcp::search_answer(error(-32601), "").unwrap_err();
    assert_eq!(e.code, -32000);
    assert_eq!(e.message, "An internal daemon error occurred");
    assert_eq!(mcp::cache_stats_answer(error(-32602), "").unwrap_err().code, -32602);
    assert_eq!(
        mcp::list_providers_answer(error(-32002), "").unwrap_err().code,
        -32002
    );
    let e = mcp::search_answer(Response::ShutdownAck, "ShutdownAck").unwrap_err();
    assert_eq!(e.code, -32000);
    assert_eq!(
        e.message,
        "Unexpected daemon response type for search: ShutdownAck"
    );
}
