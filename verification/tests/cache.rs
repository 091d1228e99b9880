use serde_json::Value;
use sha2::Digest;
use skipjackd::cache::entries::effective_ttl;
use skipjackd::cache::{
    CacheCounters, StoredEntry, cache_key, provider_list_string, request_cache_key,
};
use skipjackd::double::{Double, Ratio};
use skipjackd::search::{Freshness, SearchRequest, SearchResponse, SearchResult};
use std::collections::HashMap;

fn request(language: Option<&str>, country: Option<&str>) -> SearchRequest {
    SearchRequest {
        request_id: "id".into(),
        query: "hello".into(),
        limit: 10,
        providers: vec![],
        language: language.map(|s| s.to_string()),
        country: country.map(|s| s.to_string()),
        safe_search: true,
        freshness: None,
        dispatch_mode: None,
    }
}

fn entry(key: &str, provider_list: &str, json: &str, created_at: i64, ttl_secs: u64) -> StoredEntry {
    StoredEntry {
        key: key.into(),
        query: "q".into(),
        provider_list: provider_list.into(),
        response_json: json.into(),
        created_at,
        ttl_secs,
    }
}

/// A minimal response.
fn response(request_id: &str, provider: &str) -> SearchResponse {
    SearchResponse {
        request_id: request_id.into(),
        results: vec![SearchResult {
            title: "Test result".into(),
            url: "https://example.com".into(),
            snippet: "A test snippet".into(),
            published_date: None,
            provider_name: provider.into(),
            rank_score: Double::from_bits(0.9f64.to_bits()).unwrap(),
        }],
        total_found: 1,
        providers_used: vec![provider.into()],
        cache_hit: false,
        elapsed_ms: 100,
    }
}

fn text(s: &str) -> Value {
    Value::String(s.to_string())
}

/// A response in JSON.
fn encode(r: &SearchResponse) -> String {
    let mut map = serde_json::Map::new();
    map.insert("request_id".into(), text(&r.request_id));
    let results = r
        .results
        .iter()
        .map(|result| {
            let mut item = serde_json::Map::new();
            item.insert("title".into(), text(&result.title));
            item.insert("url".into(), text(&result.url));
            item.insert("snippet".into(), text(&result.snippet));
            item.insert("provider_name".into(), text(&result.provider_name));
            let score = f64::from_bits(result.rank_score.to_bits());
            item.insert("rank_score".into(), Value::from(score));
            Value::Object(item)
        })
        .collect();
    map.insert("results".into(), Value::Array(results));
    map.insert("total_found".into(), Value::from(r.total_found as u64));
    let providers = r.providers_used.iter().map(|p| text(p)).collect();
    map.insert("providers_used".into(), Value::Array(providers));
    map.insert("elapsed_ms".into(), Value::from(r.elapsed_ms));
    Value::Object(map).to_string()
}

/// The response that JSON stands for.
fn decode(json: &str) -> Result<SearchResponse, String> {
    let v: Value = serde_json::from_str(json).map_err(|e| e.to_string())?;
    let string = |v: &Value| v.as_str().unwrap().to_string();
    Ok(SearchResponse {
        request_id: string(&v["request_id"]),
        results: v["results"]
            .as_array()
            .unwrap()
            .iter()
            .map(|r| SearchResult {
                title: string(&r["title"]),
                url: string(&r["url"]),
                snippet: string(&r["snippet"]),
                published_date: None,
                provider_name: string(&r["provider_name"]),
                rank_score: Double::from_bits(r["rank_score"].as_f64().unwrap().to_bits()).unwrap(),
            })
            .collect(),
        total_found: v["total_found"].as_u64().unwrap() as usize,
        providers_used: v["providers_used"]
            .as_array()
            .unwrap()
            .iter()
            .map(string)
            .collect(),
        cache_hit: false,
        elapsed_ms: v["elapsed_ms"].as_u64().unwrap(),
    })
}

/// Entries under their keys, as the database holds them.
struct Store {
    rows: HashMap<String, StoredEntry>,
    counters: CacheCounters,
}

impl Store {
    fn new() -> Self {
        Store {
            rows: HashMap::new(),
            counters: CacheCounters::new(),
        }
    }

    fn set(&mut self, e: StoredEntry) {
        self.rows.insert(e.key.clone(), e);
    }

    fn get(&mut self, key: &str, now: i64) -> Option<SearchResponse> {
        let found = self.rows.get(key).map(|e| {
            entry(
                &e.key,
                &e.provider_list,
                &e.response_json,
                e.created_at,
                e.ttl_secs,
            )
        });
        self.counters.read(key, found, now, decode).unwrap()
    }

    fn clear(&mut self, filter: Option<&str>) -> usize {
        let before = self.rows.len();
        self.rows.retain(|_, e| !e.is_cleared_by(filter));
        before - self.rows.len()
    }

    fn evict_expired(&mut self, now: i64) -> usize {
        let before = self.rows.len();
        self.rows.retain(|_, e| !e.is_expired(now));
        let removed = before - self.rows.len();
        self.counters.record_evicted(removed as u64);
        removed
    }
}

#[test]
fn cache_key_order_independent() {
    let a = cache_key("hello", &["one".into(), "two".into()], None);
    let b = cache_key("hello", &["two".into(), "one".into()], None);
    assert_eq!(a, b);
}

#[test]
fn cache_key_different_queries() {
    let a = cache_key("hello", &["one".into()], None);
    let b = cache_key("world", &["one".into()], None);
    assert_ne!(a, b);
}

#[test]
fn cache_key_different_providers() {
    let a = cache_key("hello", &["one".into()], None);
    let b = cache_key("hello", &["one".into(), "two".into()], None);
    assert_ne!(a, b);
}

#[test]
fn cache_key_freshness_differs() {
    let day = cache_key("hello", &[], Some(&Freshness::Day));
    let week = cache_key("hello", &[], Some(&Freshness::Week));
    assert_ne!(day, week);
}

#[test]
fn cache_key_with_and_without_freshness() {
    let without = cache_key("hello", &[], None);
    let with = cache_key("hello", &[], Some(&Freshness::Day));
    assert_ne!(without, with);
}

#[test]
fn cache_key_is_the_hex_digest_of_its_material() {
    let hex = |s: &str| -> String {
        sha2::Sha256::digest(s.as_bytes())
            .iter()
            .map(|b| format!("{:02x}", b))
            .collect()
    };
    assert_eq!(
        cache_key("hello world", &[], None),
        "b94d27b9934d3e08a52e52d7da7dabfac484efe37a5380ee9088f7ace2efcde9"
    );
    assert_eq!(
        cache_key("héllo", &["b".into(), "a".into()], Some(&Freshness::Year)),
        hex("héllo|a|b|freshness=year")
    );
    assert_eq!(
        request_cache_key(&request(Some("en"), Some("us")), &["b".into(), "a".into()]),
        hex("5:hello2:1:a1:b-+2:en+2:us")
    );
}

#[test]
fn request_key_varies_with_language_and_country() {
    let keys = [
        request_cache_key(&request(None, None), &["a".into()]),
        request_cache_key(&request(None, None), &["a".into(), "b".into()]),
        request_cache_key(&request(None, None), &["a|b".into()]),
        request_cache_key(&request(Some("en"), None), &["a".into()]),
        request_cache_key(&request(Some("fr"), None), &["a".into()]),
        request_cache_key(&request(None, Some("us")), &["a".into()]),
        request_cache_key(&request(None, Some("en")), &["a".into()]),
        request_cache_key(&request(Some("en"), Some("us")), &["a".into()]),
        request_cache_key(&request(Some("en|country=us"), None), &["a".into()]),
    ];
    for i in 0..keys.len() {
        for j in 0..i {
            assert_ne!(keys[i], keys[j]);
        }
    }
}

#[test]
fn provider_list_empty_is_auto() {
    assert_eq!(provider_list_string(&[]), "auto");
}

#[test]
fn provider_list_sorted() {
    let s = provider_list_string(&["c".into(), "a".into(), "b".into()]);
    assert_eq!(s, "a,b,c");
}

#[test]
fn provider_list_single() {
    let s = provider_list_string(&["duckduckgo".into()]);
    assert_eq!(s, "duckduckgo");
}

#[test]
fn names_sort_as_strings_do() {
    let mut names: Vec<String> = ["b", "a", "", "ab", "a", "Z", "ä", "🦀", "z", "aa"]
        .iter()
        .map(|s| s.to_string())
        .collect();
    let joined = provider_list_string(&names);
    names.sort();
    assert_eq!(joined, names.join(","));
}

#[test]
fn get_miss_returns_none() {
    let mut store = Store::new();
    assert!(store.get("nonexistent-key", 0).is_none());
}

#[test]
fn set_and_get_roundtrip() {
    let mut store = Store::new();
    let resp = response("req-1", "duckduckgo");
    store.set(entry("key-1", "duckduckgo", &encode(&resp), 100, 3600));
    let cached = store.get("key-1", 101).expect("cache hit expected");
    assert!(cached.cache_hit, "cache_hit flag should be true");
    assert_eq!(cached.request_id, "req-1");
    assert_eq!(cached.providers_used, vec!["duckduckgo"]);
    assert_eq!(cached.results.len(), 1);
    assert_eq!(cached.results[0].title, "Test result");
    assert_eq!(cached.results[0].url, "https://example.com");
    assert_eq!(cached.results[0].rank_score.to_bits(), 0.9f64.to_bits());
    assert_eq!((cached.total_found, cached.elapsed_ms), (1, 100));
}

#[test]
fn insert_or_replace_is_idempotent() {
    let mut store = Store::new();
    // Both writers use the same key.
    for id in ["req-1", "req-2"] {
        store.set(entry("dup", "ddg", &encode(&response(id, "ddg")), 0, 3600));
    }
    // The second write wins.
    assert_eq!(store.get("dup", 1).unwrap().request_id, "req-2");
}

#[test]
fn set_with_different_key_does_not_clobber() {
    let mut store = Store::new();
    for (key, id, provider) in [("key-1", "req-1", "duckduckgo"), ("key-2", "req-2", "brave")] {
        let resp = response(id, provider);
        store.set(entry(key, provider, &encode(&resp), 0, 3600));
    }
    assert_eq!(store.get("key-1", 1).unwrap().request_id, "req-1");
    assert_eq!(store.get("key-2", 1).unwrap().request_id, "req-2");
}

#[test]
fn undecodable_entries_are_errors() {
    let mut counters = CacheCounters::new();
    let found = Some(entry("k", "a", "not json", 0, 10));
    assert_eq!(
        counters.read("k", found, 1, decode).unwrap_err(),
        "Failed to deserialize cached response for key 'k'"
    );
    assert_eq!(counters, CacheCounters::new());
}

#[test]
fn expired_entry_not_returned_by_get() {
    let mut store = Store::new();
    store.set(entry("exp-key", "ddg", &encode(&response("req-1", "ddg")), 1000, 0));
    assert!(
        store.get("exp-key", 1000).is_none(),
        "expired entry should be a miss"
    );
}

#[test]
fn evict_expired_removes_expired_rows() {
    let mut store = Store::new();
    store.set(entry("exp-1", "ddg", &encode(&response("req-1", "ddg")), 1000, 0));
    store.set(entry("exp-2", "ddg", &encode(&response("req-1", "ddg")), 1000, 3600));
    assert_eq!(store.evict_expired(1000), 1);
    assert!(store.get("exp-1", 1000).is_none());
    assert!(store.get("exp-2", 1000).is_some());
    assert_eq!(store.counters.stats(1, 5).eviction_count, 1);
}

#[test]
fn stats_tracks_hits_and_misses() {
    let mut store = Store::new();
    store.get("nope", 0); // miss
    store.get("nope", 0); // miss
    store.set(entry("hit-key", "ddg", &encode(&response("r", "ddg")), 0, 3600));
    store.get("hit-key", 1); // hit
    store.get("nope", 0); // miss

    let stats = store.counters.stats(1, 17);
    assert_eq!(stats.hit_count, 1);
    assert_eq!(stats.miss_count, 3);
    assert!(stats.total_entries >= 1);
    assert!(stats.total_size_bytes > 0);
    let rate = stats.hit_rate.part as f64 / stats.hit_rate.whole as f64;
    assert!((rate - 0.25).abs() < f64::EPSILON);
}

#[test]
fn stats_hit_rate_zero_when_no_requests() {
    let stats = CacheCounters::default().stats(0, 0);
    assert_eq!(stats.hit_count, 0);
    assert_eq!(stats.miss_count, 0);
    assert_eq!(stats.hit_rate, Ratio { part: 0, whole: 1 });
}

#[test]
fn clear_all_removes_everything() {
    let mut store = Store::new();
    store.set(entry("k1", "ddg", &encode(&response("r", "ddg")), 0, 3600));
    store.set(entry("k2", "brave", &encode(&response("r", "brave")), 0, 3600));
    assert_eq!(store.clear(None), 2);
    assert!(store.get("k1", 1).is_none());
    assert!(store.get("k2", 1).is_none());
}

#[test]
fn clear_by_provider() {
    let mut store = Store::new();
    store.set(entry("k1", "duckduckgo", &encode(&response("r", "duckduckgo")), 0, 3600));
    store.set(entry("k2", "brave", &encode(&response("r", "brave")), 0, 3600));
    assert_eq!(store.clear(Some("duckduckgo")), 1);
    assert!(store.get("k1", 1).is_none());
    assert!(store.get("k2", 1).is_some());
}

#[test]
fn clear_no_match_returns_zero() {
    let mut store = Store::new();
    store.set(entry("k1", "duckduckgo", &encode(&response("r", "duckduckgo")), 0, 3600));
    assert_eq!(store.clear(Some("nonexistent")), 0);
    assert!(store.get("k1", 1).is_some());
}

#[test]
fn clear_finds_a_provider_anywhere_in_the_list() {
    let in_list = |list: &str, name: &str| entry("k", list, "r", 0, 1).is_cleared_by(Some(name));
    assert!(in_list("a", "a"));
    assert!(in_list("a,b,c", "a"));
    assert!(in_list("a,b,c", "b"));
    assert!(in_list("a,b,c", "c"));
    assert!(!in_list("aa,bb", "a"));
    assert!(!in_list("abc", "b"));
    assert!(!in_list("brave", "br_ve"));
    assert!(!in_list("brave", "BRAVE"));
}

#[test]
fn entries_expire_when_their_time_is_over() {
    let e = entry("k", "a", "r", 100, 50);
    assert!(!e.is_expired(149));
    assert!(e.is_expired(150));
    assert!(e.is_expired(151));
    // An end beyond the clock counts as the last instant.
    let forever = entry("k", "a", "r", 100, u64::MAX);
    assert!(!forever.is_expired(i64::MAX - 1));
    assert!(forever.is_expired(i64::MAX));
}

#[test]
fn provider_ttl_goes_before_the_default() {
    assert_eq!(effective_ttl(Some(60), 3600), 60);
    assert_eq!(effective_ttl(None, 3600), 3600);
}
