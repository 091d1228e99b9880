use serde_json::Value;
use skipjackd::anti_blocking::ClassifyRetry;
use skipjackd::anti_blocking::ip_rotation::{Route, effective_route};
use skipjackd::daemon::manager::{SearchProvider, missing_provider};
use skipjackd::double::Double;
use skipjackd::search::providers::answer::{score_at, transport_error};
use skipjackd::search::providers::brave::{BraveProvider, BraveWebResult};
use skipjackd::search::providers::duckduckgo::DuckDuckGoProvider;
use skipjackd::search::providers::jina::{JinaProvider, JinaResponse, JinaResult, body_of};
use skipjackd::search::providers::searxng::{SearxngProvider, SearxngResult, urlencoding};
use skipjackd::search::{Freshness, ProviderClientConfig, ProviderError, SearchRequest, SearchResult, Tag};

fn score(r: &SearchResult) -> f64 {
    f64::from_bits(r.rank_score.to_bits())
}

fn request(query: &str) -> SearchRequest {
    SearchRequest {
        request_id: "test-id".into(),
        query: query.into(),
        limit: 10,
        providers: vec![],
        language: None,
        country: None,
        safe_search: false,
        freshness: None,
        dispatch_mode: None,
    }
}

fn opt(v: &Value, key: &str) -> Option<String> {
    v.get(key).and_then(|s| s.as_str()).map(|s| s.to_string())
}

fn pairs(list: &[(String, String)]) -> Vec<(&str, &str)> {
    list.iter().map(|(k, v)| (k.as_str(), v.as_str())).collect()
}

// ---------------------------------------------------------------------------
// Brave
// ---------------------------------------------------------------------------

fn brave_results(body: &str) -> Result<Vec<SearchResult>, ProviderError> {
    let decoded = match serde_json::from_str::<Value>(body) {
        Err(e) => Err(e.to_string()),
        Ok(v) => Ok(v["web"]["results"]
            .as_array()
            .map(|list| {
                list.iter()
                    .map(|r| BraveWebResult {
                        title: opt(r, "title").unwrap_or_default(),
                        url: opt(r, "url").unwrap_or_default(),
                        description: opt(r, "description").unwrap_or_default(),
                        page_age: opt(r, "page_age"),
                    })
                    .collect()
            })
            .unwrap_or_default()),
    };
    BraveProvider::parse_results(body, decoded)
}

#[test]
fn parses_page_age_into_published_date() {
    let json = r#"{
            "web": {
                "results": [
                    {
                        "title": "Test",
                        "url": "https://example.com",
                        "description": "A test result.",
                        "page_age": "2025-01-15T10:30:00Z"
                    }
                ]
            }
        }"#;
    let results = brave_results(json).expect("parse JSON with page_age");
    assert_eq!(results.len(), 1);
    assert_eq!(results[0].published_date.as_deref(), Some("2025-01-15"));
}

#[test]
fn brave_parse_results_empty_body_yields_empty_vec() {
    let results = brave_results("").expect("parse empty body");
    assert!(results.is_empty());
}

#[test]
fn brave_parse_results_skips_entries_with_empty_title() {
    let json = r#"{
            "web": {
                "results": [
                    {
                        "title": "",
                        "url": "https://example.com",
                        "description": "No title here."
                    },
                    {
                        "title": "Valid Title",
                        "url": "https://valid.com",
                        "description": "Valid snippet."
                    }
                ]
            }
        }"#;
    let results = brave_results(json).expect("parse JSON with empty title");
    assert_eq!(results.len(), 1);
    assert_eq!(results[0].title, "Valid Title");
    assert_eq!(results[0].url, "https://valid.com");
    assert_eq!(results[0].snippet, "Valid snippet.");
    assert_eq!(results[0].provider_name, "brave");
    // The skipped entry still counts for the position.
    assert_eq!(score(&results[0]), 0.5);
}

#[test]
fn brave_parse_results_skips_entries_with_empty_url() {
    let json = r#"{
            "web": {
                "results": [
                    {
                        "title": "No URL",
                        "url": "",
                        "description": "Missing URL."
                    },
                    {
                        "title": "Valid",
                        "url": "https://valid.com",
                        "description": "Has URL."
                    }
                ]
            }
        }"#;
    let results = brave_results(json).expect("parse JSON with empty URL");
    assert_eq!(results.len(), 1);
    assert_eq!(results[0].title, "Valid");
}

#[test]
fn parse_results_invalid_json_produces_parse_error() {
    let result = brave_results("not valid json {{{");
    assert!(result.is_err());
    match result {
        Err(ProviderError::ParseError(_)) => {} // expected
        other => panic!("expected ParseError, got {:?}", other),
    }
}

#[test]
fn safe_search_param_maps_correctly() {
    assert_eq!(BraveProvider::safe_search_param(true), "strict");
    assert_eq!(BraveProvider::safe_search_param(false), "off");
}

#[test]
fn freshness_param_maps_correctly() {
    assert_eq!(BraveProvider::freshness_param(&Freshness::Day), "pd");
    assert_eq!(BraveProvider::freshness_param(&Freshness::Week), "pw");
    assert_eq!(BraveProvider::freshness_param(&Freshness::Month), "pm");
    assert_eq!(BraveProvider::freshness_param(&Freshness::Year), "py");
}

#[test]
fn name_returns_brave() {
    assert_eq!(BraveProvider::new(Some("key123".into())).name(), "brave");
}

#[test]
fn is_available_true_only_with_api_key() {
    assert!(BraveProvider::new(Some("key".into())).is_available());
    assert!(!BraveProvider::new(None).is_available());
}

#[test]
fn brave_tags_returns_web() {
    let tags = BraveProvider::new(Some("key".into())).tags();
    assert_eq!(tags.len(), 1);
    assert!(tags.contains(&Tag::Web));
}

#[test]
fn brave_description_is_non_empty() {
    let provider = BraveProvider::new(Some("key".into()));
    assert!(!provider.description().is_empty());
    assert!(provider.description().contains("Brave"));
}

#[test]
fn search_without_api_key_returns_access_denied() {
    let result = BraveProvider::new(None).prepare(&request("rust programming"));
    match result {
        Err(ProviderError::NotConfigured(_)) => {} // expected
        other => panic!("expected NotConfigured, got {:?}", other),
    }
}

#[test]
fn brave_request_carries_every_parameter() {
    let mut r = request("rust async");
    r.language = Some("en".into());
    r.country = Some("us".into());
    r.safe_search = true;
    r.freshness = Some(Freshness::Week);
    let call = BraveProvider::new(Some("k".into())).prepare(&r).unwrap();
    assert!(!call.post);
    assert_eq!(call.url, "https://api.search.brave.com/res/v1/web/search");
    assert_eq!(
        pairs(&call.headers),
        vec![("X-Subscription-Token", "k"), ("Accept", "application/json")]
    );
    assert_eq!(
        pairs(&call.params),
        vec![
            ("q", "rust async"),
            ("count", "10"),
            ("safesearch", "strict"),
            ("search_lang", "en"),
            ("country", "us"),
            ("freshness", "pw"),
        ]
    );
}

#[test]
fn brave_counts_stay_between_one_and_twenty() {
    for (limit, count) in [(0, "1"), (1, "1"), (20, "20"), (21, "20"), (usize::MAX, "20")] {
        let mut r = request("q");
        r.limit = limit;
        let call = BraveProvider::new(Some("k".into())).prepare(&r).unwrap();
        assert_eq!(pairs(&call.params)[1], ("count", count));
    }
}

#[test]
fn brave_dates_end_before_the_time() {
    let entry = |age: &str| BraveWebResult {
        title: "t".into(),
        url: "u".into(),
        description: "d".into(),
        page_age: Some(age.into()),
    };
    let dates: Vec<Option<String>> = BraveProvider::parse_results(
        "x",
        Ok(vec![entry("2025-01-15T23:30:00-05:00"), entry("yesterday")]),
    )
    .unwrap()
    .into_iter()
    .map(|r| r.published_date)
    .collect();
    assert_eq!(dates, vec![Some("2025-01-15".to_string()), Some("yesterday".to_string())]);
}

// ---------------------------------------------------------------------------
// DuckDuckGo
// ---------------------------------------------------------------------------

#[test]
fn detect_captcha_returns_marker_when_present() {
    let body = "<html><body><div class=\"g-recaptcha\" data-sitekey=\"abc123\"></div></body></html>";
    assert!(DuckDuckGoProvider::detect_captcha(body).is_some());

    // Cloudflare challenge detection
    let cf_body = "<html>Checking your browser before accessing duckduckgo.com</html>";
    assert!(DuckDuckGoProvider::detect_captcha(cf_body).is_some());

    // cf-challenge marker
    let cf2 = "<!-- cf-challenge -->Please enable JavaScript.";
    assert!(DuckDuckGoProvider::detect_captcha(cf2).is_some());
}

const DDG_PAGE: &str = r#"
<html><body>
  <div class="result">
    <div class="result__body">
      <h2 class="result__title"><a class="result__a" href="https://example.com"></a></h2>
      <span class="result__url">example.com</span>
      <a class="result__snippet">Should be skipped.</a>
    </div>
  </div>
  <div class="result">
    <div class="result__body">
      <h2 class="result__title"><a class="result__a" href="https://valid.com">Valid Title</a></h2>
      <span class="result__url">valid.com</span>
      <a class="result__snippet">Valid snippet.</a>
    </div>
  </div>
</body></html>
"#;

#[test]
fn a_plain_result_page_is_no_captcha() {
    assert!(DuckDuckGoProvider::detect_captcha(DDG_PAGE).is_none());
}

#[test]
fn duckduckgo_parse_results_empty_body_yields_empty_vec() {
    let results = DuckDuckGoProvider::parse_results("<html></html>").expect("parse empty HTML");
    assert!(results.is_empty());
}

#[test]
fn duckduckgo_parse_results_skips_entries_with_empty_title() {
    let results = DuckDuckGoProvider::parse_results(DDG_PAGE).expect("parse");
    assert_eq!(results.len(), 1);
    assert_eq!(results[0].title, "Valid Title");
    assert_eq!(results[0].url, "https://valid.com");
    assert_eq!(results[0].snippet, "Valid snippet.");
    assert_eq!(results[0].provider_name, "duckduckgo");
    assert!(results[0].published_date.is_none());
}

#[test]
fn duckduckgo_falls_back_to_the_shown_url() {
    let html = r#"<div class="result"><h2 class="result__title"><a class="result__a"> Some <b>Title</b> </a></h2>
      <span class="result__url"> shown.example/path </span></div>"#;
    let results = DuckDuckGoProvider::parse_results(html).unwrap();
    assert_eq!(results.len(), 1);
    assert_eq!(results[0].title, "Some Title");
    assert_eq!(results[0].url, "shown.example/path");
    assert_eq!(results[0].snippet, "");
}

#[test]
fn name_returns_duckduckgo() {
    assert_eq!(DuckDuckGoProvider::new(true).name(), "duckduckgo");
}

#[test]
fn is_available_reflects_constructor_flag() {
    assert!(DuckDuckGoProvider::new(true).is_available());
    assert!(!DuckDuckGoProvider::new(false).is_available());
}

#[test]
fn duckduckgo_tags_returns_web_and_privacy() {
    let tags = DuckDuckGoProvider::new(true).tags();
    assert_eq!(tags.len(), 2);
    assert!(tags.contains(&Tag::Web));
    assert!(tags.contains(&Tag::Privacy));
}

#[test]
fn duckduckgo_answers_a_captcha_page_with_an_error() {
    let provider = DuckDuckGoProvider::new(true);
    let body = "<html>Checking Your Browser before accessing</html>";
    match provider.receive(&request("q"), body, 5) {
        Err(ProviderError::CaptchaDetected { provider }) => assert_eq!(provider, "duckduckgo"),
        other => panic!("expected CaptchaDetected, got {:?}", other),
    }
    let answer = provider.receive(&request("q"), DDG_PAGE, 5).unwrap();
    assert_eq!(answer.request_id, "test-id");
    assert_eq!(answer.total_found, 1);
    assert_eq!(answer.providers_used, vec!["duckduckgo".to_string()]);
    assert_eq!(answer.elapsed_ms, 5);
    assert!(!answer.cache_hit);
}

#[test]
fn duckduckgo_posts_the_query_as_a_form() {
    let call = DuckDuckGoProvider::new(true).prepare(&request("rust async"));
    assert!(call.post);
    assert_eq!(call.url, "https://html.duckduckgo.com/html/");
    assert_eq!(pairs(&call.params), vec![("q", "rust async")]);
}

// ---------------------------------------------------------------------------
// Jina
// ---------------------------------------------------------------------------

fn jina_results(body: &str) -> Result<Vec<SearchResult>, ProviderError> {
    let decoded = match serde_json::from_str::<Value>(body) {
        Err(e) => Err(e.to_string()),
        Ok(v) => Ok(JinaResponse {
            code: v["code"].as_u64().unwrap() as u16,
            data: v["data"]
                .as_array()
                .unwrap()
                .iter()
                .map(|r| JinaResult {
                    title: opt(r, "title"),
                    url: opt(r, "url"),
                    description: opt(r, "description"),
                    published_date: opt(r, "published_date"),
                })
                .collect(),
        }),
    };
    JinaProvider::parse_results(decoded)
}

#[test]
fn parse_results_empty_data_yields_empty_vec() {
    let json = r#"{"code": 200, "data": []}"#;
    let results = jina_results(json).expect("parse empty results");
    assert!(results.is_empty());
}

#[test]
fn jina_parse_results_skips_entries_with_empty_title() {
    let json = r#"{
  "code": 200,
  "data": [
    {"title": "", "url": "https://example.com", "description": "Should be skipped.", "published_date": null},
    {"title": "Valid Title", "url": "https://valid.com", "description": "Valid snippet.", "published_date": null}
  ]
}"#;
    let results = jina_results(json).expect("parse");
    assert_eq!(results.len(), 1);
    assert_eq!(results[0].title, "Valid Title");
    assert_eq!(results[0].url, "https://valid.com");
    assert_eq!(results[0].snippet, "Valid snippet.");
    assert_eq!(results[0].provider_name, "jina");
}

#[test]
fn jina_parse_results_skips_entries_with_empty_url() {
    let json = r#"{
  "code": 200,
  "data": [
    {"title": "No URL", "url": "", "description": "Should be skipped.", "published_date": null},
    {"title": "Has URL", "url": "https://hasurl.com", "description": "Valid.", "published_date": null}
  ]
}"#;
    let results = jina_results(json).expect("parse");
    assert_eq!(results.len(), 1);
    assert_eq!(results[0].title, "Has URL");
}

#[test]
fn parse_results_non_200_code_returns_error() {
    let json = r#"{"code": 500, "data": []}"#;
    let err = jina_results(json).unwrap_err();
    match err {
        ProviderError::HttpError { status, .. } => {
            assert_eq!(status, 500);
        }
        other => panic!("expected HttpError, got {:?}", other),
    }
}

#[test]
fn parse_results_malformed_json_returns_parse_error() {
    let err = jina_results("not valid json").unwrap_err();
    match err {
        ProviderError::ParseError(_) => {}
        other => panic!("expected ParseError, got {:?}", other),
    }
}

#[test]
fn name_returns_jina() {
    assert_eq!(
        JinaProvider::new(Some("jina_test_key".to_string()), None).name(),
        "jina"
    );
}

#[test]
fn is_available_true_when_api_key_provided() {
    assert!(JinaProvider::new(Some("my_api_key".to_string()), None).is_available());
}

#[test]
fn is_available_false_when_no_api_key() {
    assert!(!JinaProvider::new(None, None).is_available());
}

#[test]
fn is_available_false_when_api_key_empty() {
    assert!(!JinaProvider::new(Some(String::new()), None).is_available());
}

#[test]
fn jina_tags_returns_web() {
    let tags = JinaProvider::new(Some("jina_test_key".to_string()), None).tags();
    assert_eq!(tags.len(), 1);
    assert!(tags.contains(&Tag::Web));
}

#[test]
fn description_returns_non_empty() {
    assert!(
        !JinaProvider::new(Some("jina_test_key".to_string()), None)
            .description()
            .is_empty()
    );
}

#[test]
fn jina_call_goes_to_its_base_url() {
    let p = JinaProvider::new(Some("k".into()), None);
    assert_eq!(p.authorization().as_deref(), Some("Bearer k"));
    let mut r = request("say \"hi\"\n");
    r.limit = 7;
    let call = p.prepare(&r).unwrap();
    assert_eq!(call.url, "https://s.jina.ai");
    assert!(call.post);
    assert_eq!(
        pairs(&call.headers),
        vec![
            ("Content-Type", "application/json"),
            ("Accept", "application/json")
        ]
    );
    let body = call.body.unwrap();
    assert_eq!(body, r#"{"limit":7,"q":"say \"hi\"\n"}"#);
    let sent: Value = serde_json::from_str(&body).unwrap();
    assert_eq!(sent["q"].as_str(), Some("say \"hi\"\n"));
    assert_eq!(sent["limit"].as_u64(), Some(7));
    assert_eq!(body_of("\"q\"", 10), r#"{"limit":10,"q":"q"}"#);
    let other = JinaProvider::new(None, Some("http://localhost:9".into()));
    assert_eq!(other.authorization(), None);
    assert_eq!(other.prepare(&r).unwrap().url, "http://localhost:9");
}

// ---------------------------------------------------------------------------
// SearXNG
// ---------------------------------------------------------------------------

fn searxng_results(body: &str) -> Result<Vec<SearchResult>, ProviderError> {
    let decoded = match serde_json::from_str::<Value>(body) {
        Err(e) => Err(e.to_string()),
        Ok(v) => Ok(v["results"]
            .as_array()
            .unwrap()
            .iter()
            .map(|r| SearxngResult {
                url: opt(r, "url").unwrap(),
                title: opt(r, "title").unwrap(),
                content: opt(r, "content").unwrap_or_default(),
                score: r["score"]
                    .as_f64()
                    .map(|s| Double::from_bits(s.to_bits()).unwrap()),
                published_date: opt(r, "publishedDate"),
            })
            .collect()),
    };
    SearxngProvider::parse_results(decoded)
}

fn searxng() -> SearxngProvider {
    SearxngProvider::new(Some("https://search.example.com".to_string()))
}

#[test]
fn parse_results_uses_position_based_fallback_when_score_absent() {
    let json = r#"{
            "query": "test",
            "number_of_results": 2,
            "results": [
                {"url": "https://a.com", "title": "A", "content": "snippet a"},
                {"url": "https://b.com", "title": "B", "content": "snippet b"}
            ]
        }"#;
    let results = searxng_results(json).expect("parse");
    assert_eq!(results.len(), 2);
    // Position-based: 1.0, 0.5
    assert!((score(&results[0]) - 1.0).abs() < f64::EPSILON);
    assert!((score(&results[1]) - 0.5).abs() < f64::EPSILON);
}

#[test]
fn searxng_scores_are_kept() {
    let json = r#"{"results": [
        {"url": "u", "title": "t", "content": "c", "score": 0.75, "publishedDate": "2024-01-02"}
    ]}"#;
    let results = searxng_results(json).unwrap();
    assert_eq!(score(&results[0]), 0.75);
    assert_eq!(results[0].snippet, "c");
    assert_eq!(results[0].provider_name, "searxng");
    assert_eq!(results[0].published_date.as_deref(), Some("2024-01-02"));
}

#[test]
fn parse_results_empty_response_yields_empty_vec() {
    let json = r#"{"query": "empty", "number_of_results": 0, "results": []}"#;
    let results = searxng_results(json).expect("parse empty JSON");
    assert!(results.is_empty());
}

#[test]
fn parse_results_returns_parse_error_for_malformed_json() {
    let result = searxng_results("not json");
    assert!(matches!(result, Err(ProviderError::ParseError(_))));
}

#[test]
fn build_search_url_encodes_query_and_adds_format() {
    let url = searxng().build_search_url(&request("rust async"));
    assert!(url.starts_with("https://search.example.com/search?q="));
    assert!(url.contains("rust%20async"));
    assert!(url.contains("format=json"));
    // No safesearch param when safe_search is false.
    assert!(!url.contains("safesearch"));
}

#[test]
fn build_search_url_includes_safesearch_when_enabled() {
    let mut r = request("test");
    r.safe_search = true;
    assert!(searxng().build_search_url(&r).contains("safesearch=2"));
}

#[test]
fn build_search_url_includes_language_when_set() {
    let mut r = request("test");
    r.language = Some("fr".into());
    assert!(searxng().build_search_url(&r).contains("language=fr"));
}

#[test]
fn build_search_url_includes_time_range_for_freshness() {
    let mut r = request("test");
    r.freshness = Some(Freshness::Month);
    assert!(searxng().build_search_url(&r).contains("time_range=month"));
}

#[test]
fn name_returns_searxng() {
    assert_eq!(searxng().name(), "searxng");
}

#[test]
fn is_available_returns_true_when_base_url_configured() {
    assert!(searxng().is_available());
    assert!(!SearxngProvider::new(None).is_available());
}

#[test]
fn searxng_tags_returns_web_and_privacy() {
    let tags = searxng().tags();
    assert_eq!(tags.len(), 2);
    assert!(tags.contains(&Tag::Web));
    assert!(tags.contains(&Tag::Privacy));
}

#[test]
fn searxng_description_is_non_empty() {
    assert!(!searxng().description().is_empty());
}

#[test]
fn build_search_url_encodes_language_parameter() {
    // A language value that tries to inject a parameter.
    let mut r = request("test");
    r.language = Some("fr&safesearch=0".into());
    r.safe_search = true;
    let url = searxng().build_search_url(&r);
    // The ampersand in the language value must be percent-encoded, not
    // interpreted as a query parameter separator.
    assert!(!url.contains("&safesearch=0"));
    assert!(url.contains("language=fr%26safesearch%3D0"));
    // The legitimate safesearch=2 must still be present.
    assert!(url.contains("safesearch=2"));
}

#[test]
fn search_url_in_full() {
    let mut r = request("a b&c");
    r.language = Some("de".into());
    r.safe_search = true;
    r.freshness = Some(Freshness::Day);
    assert_eq!(
        searxng().build_search_url(&r),
        "https://search.example.com/search?q=a%20b%26c&format=json&language=de&safesearch=2&time_range=day"
    );
}

#[test]
fn encoding_keeps_only_unreserved_characters() {
    assert_eq!(urlencoding("azAZ09-_.~"), "azAZ09-_.~");
    assert_eq!(urlencoding("ü/€🦀"), "%C3%BC%2F%E2%82%AC%F0%9F%A6%80");
}

#[test]
fn searxng_sends_its_url() {
    let call = searxng().prepare(&request("a b"));
    assert!(!call.post);
    assert_eq!(
        call.url,
        "https://search.example.com/search?q=a%20b&format=json"
    );
    assert!(call.headers.is_empty() && call.params.is_empty() && call.body.is_none());
}

#[test]
fn oversized_answers_are_refused() {
    assert!(SearxngProvider::check_body_size(10 * 1024 * 1024).is_ok());
    assert!(SearxngProvider::check_body_size(10 * 1024 * 1024 + 1).is_err());
}

// ---------------------------------------------------------------------------
// Statuses and errors
// ---------------------------------------------------------------------------

#[test]
fn statuses_map_to_errors() {
    assert!(BraveProvider::check_status(200, Some("OK"), None).is_ok());
    assert!(matches!(
        BraveProvider::check_status(429, None, Some("17")),
        Err(ProviderError::RateLimited { retry_after: Some(17) })
    ));
    assert!(matches!(
        BraveProvider::check_status(429, None, Some("soon")),
        Err(ProviderError::RateLimited { retry_after: None })
    ));
    assert!(matches!(
        BraveProvider::check_status(401, None, None),
        Err(ProviderError::AccessDenied)
    ));
    assert!(matches!(
        BraveProvider::check_status(403, None, None),
        Err(ProviderError::AccessDenied)
    ));
    match DuckDuckGoProvider::check_status(503, Some("Service Unavailable")) {
        Err(ProviderError::HttpError { status, body }) => {
            assert_eq!(status, 503);
            assert_eq!(body, "Service Unavailable");
        }
        other => panic!("expected HttpError, got {:?}", other),
    }
    match SearxngProvider::check_status(599, None) {
        Err(ProviderError::HttpError { body, .. }) => assert_eq!(body, "Unknown"),
        other => panic!("expected HttpError, got {:?}", other),
    }
    assert!(matches!(
        JinaProvider::check_status(429, None, None),
        Err(ProviderError::RateLimited { .. })
    ));
}

#[test]
fn errors_have_messages() {
    let cases = [
        (
            ProviderError::RateLimited { retry_after: Some(3) },
            "Rate limited (429)",
        ),
        (
            ProviderError::RateLimited { retry_after: None },
            "Rate limited (429)",
        ),
        (ProviderError::AccessDenied, "Access denied (403)"),
        (
            ProviderError::CaptchaDetected { provider: "d".into() },
            "Captcha detected",
        ),
        (
            ProviderError::HttpError { status: 404, body: "b".into() },
            "HTTP error: status 404",
        ),
        (
            ProviderError::Timeout { elapsed_secs: 9 },
            "Timeout after 9s",
        ),
        (
            ProviderError::NotConfigured("n".into()),
            "Not configured: n",
        ),
        (
            ProviderError::ParseError("p".into()),
            "Parse error: p",
        ),
        (
            ProviderError::Internal("i".into()),
            "Internal: i",
        ),
    ];
    for (error, text) in cases {
        assert_eq!(error.message(), text);
    }
}

#[test]
fn transport_failures_are_timeouts_or_internal() {
    assert!(matches!(
        transport_error(true, 12, "x".into()),
        ProviderError::Timeout { elapsed_secs: 12 }
    ));
    match transport_error(false, 12, "x".into()) {
        e @ ProviderError::Internal(_) => assert!(e.is_retryable()),
        other => panic!("expected Internal, got {:?}", other),
    }
}

#[test]
fn providers_tell_their_failures_apart() {
    let brave = SearchProvider::Brave(BraveProvider::new(Some("k".into())));
    let own = SearchProvider::Searxng(searxng());
    assert_eq!(
        brave.transport_failure(false, 3, "reset").message(),
        "Internal: HTTP request failed: reset"
    );
    assert_eq!(
        own.transport_failure(false, 3, "reset").message(),
        "Internal: SearXNG HTTP request failed"
    );
    assert_eq!(own.transport_failure(true, 3, "x").message(), "Timeout after 3s");
    assert_eq!(
        brave.body_failure("cut").message(),
        "Internal: failed to read response body: cut"
    );
    assert_eq!(
        own.body_failure("cut").message(),
        "Internal: failed to read SearXNG response body"
    );
    assert!(matches!(
        brave.check_status(401, None, None),
        Err(ProviderError::AccessDenied)
    ));
    assert!(matches!(
        own.check_status(401, None, None),
        Err(ProviderError::HttpError { status: 401, .. })
    ));
    assert!(matches!(
        own.check_status(429, None, Some("3")),
        Err(ProviderError::RateLimited { retry_after: None })
    ));
    assert_eq!(
        own.prepare(&request("q")).unwrap().url,
        "https://search.example.com/search?q=q&format=json"
    );
    assert_eq!(
        missing_provider("x").message(),
        "Internal: provider 'x' not found in catalog"
    );
}

#[test]
fn client_config_gives_timeout_and_proxy() {
    let mut config = ProviderClientConfig {
        tls_shuffle_ciphers: false,
        ip_rotation_strategy: None,
        ipv6_subnet: None,
        proxies: Some(vec!["http://a".into(), "http://b".into()]),
        timeout_secs: Some(10),
    };
    assert_eq!(config.effective_timeout_secs(), 10);
    assert_eq!(config.first_proxy().map(|s| s.as_str()), Some("http://a"));
    assert!(matches!(
        effective_route(Route::Direct, &config),
        Route::Proxy(url) if url == "http://a"
    ));
    assert!(matches!(
        effective_route(Route::Proxy("http://b".into()), &config),
        Route::Proxy(url) if url == "http://b"
    ));
    config.timeout_secs = None;
    config.proxies = None;
    assert!(matches!(
        effective_route(Route::Direct, &config),
        Route::Direct
    ));
    assert_eq!(config.effective_timeout_secs(), 30);
    assert_eq!(config.first_proxy(), None);
}

#[test]
fn scores_fall_with_the_position() {
    let mut last = f64::INFINITY;
    for i in 0..2000usize {
        let s = f64::from_bits(score_at(i).to_bits());
        assert_eq!(s, 1.0 / (i as f64 + 1.0));
        assert!(s < last && s > 0.0);
        last = s;
    }
}
