//! What is asked of a provider and what it answers.

use crate::double::Double;
use vstd::prelude::*;

verus! {

/// A single search result from a provider, normalized to the canonical schema.
#[derive(Debug)]
pub struct SearchResult {
    /// Title of the search result (from the provider or extracted from the page).
    pub title: String,
    /// Canonical URL of the result.
    pub url: String,
    /// Text snippet summarizing or excerpting the result.
    pub snippet: String,
    /// Optional publication date in ISO 8601 format (YYYY-MM-DD), if the provider supplies one.
    pub published_date: Option<String>,
    /// Name of the provider that returned this result.
    pub provider_name: String,
    /// Provider-assigned relevance score, normalized to 0.0–1.0 (higher is better).
    pub rank_score: Double,
}

/// A copy of an optional string.
pub fn copy_option(s: &Option<String>) -> (r: Option<String>)
    ensures
        r == *s,
{
    match s {
        Some(text) => Some(text.clone()),
        None => None,
    }
}

impl Clone for SearchResult {
    fn clone(&self) -> (r: Self)
        ensures
            r == *self,
    {
        SearchResult {
            title: self.title.clone(),
            url: self.url.clone(),
            snippet: self.snippet.clone(),
            published_date: copy_option(&self.published_date),
            provider_name: self.provider_name.clone(),
            rank_score: self.rank_score,
        }
    }
}

/// Time-based freshness filter for search results.
#[derive(Debug, Clone, Copy, PartialEq, Eq, Structural)]
pub enum Freshness {
    /// Results from the past 24 hours.
    Day,
    /// Results from the past 7 days.
    Week,
    /// Results from the past 30 days.
    Month,
    /// Results from the past 365 days.
    Year,
}

/// Search parameters, as received from MCP or CLI.
#[derive(Debug)]
pub struct SearchRequest {
    /// Unique request identifier (UUIDv4).
    pub request_id: String,
    /// The search query string.
    pub query: String,
    /// Maximum number of results to return after deduplication and ranking.
    pub limit: usize,
    /// Explicit list of provider names to use. An empty vector means auto-tier
    /// dispatch using the configured fallback ladder.
    pub providers: Vec<String>,
    /// ISO 639-1 language code (e.g., "en", "fr").
    pub language: Option<String>,
    /// ISO 3166-1 alpha-2 country code (e.g., "us", "gb").
    pub country: Option<String>,
    /// Whether to enable safe search filtering.
    pub safe_search: bool,
    /// Optional time-based filter for result freshness.
    pub freshness: Option<Freshness>,
    /// Dispatch mode override. `None` means use the config default.
    /// Accepted values: `"concurrent"`, `"tiered"`.
    pub dispatch_mode: Option<String>,
}

/// Response returned to the MCP/CLI after a completed search.
#[derive(Debug)]
pub struct SearchResponse {
    /// Echoes the request_id from the original `SearchRequest`.
    pub request_id: String,
    /// Ranked, deduplicated results (at most `limit` entries).
    pub results: Vec<SearchResult>,
    /// Total number of results found across all providers before deduplication
    /// and capping to `limit`.
    pub total_found: usize,
    /// Names of providers that contributed results.
    pub providers_used: Vec<String>,
    /// Whether the response was served from the local cache.
    pub cache_hit: bool,
    /// Wall-clock elapsed time in milliseconds from receiving the request to
    /// producing the response.
    pub elapsed_ms: u64,
}

/// Whether a character is a lowercase hexadecimal digit.
pub open spec fn is_hex_digit(c: char) -> bool {
    '0' <= c <= '9' || 'a' <= c <= 'f'
}

/// Whether a text has the form of a random request identifier: five groups of lowercase
/// hexadecimal digits with hyphens between them, the third of which starts with a 4.
pub open spec fn is_request_id(id: Seq<char>) -> bool {
    &&& id.len() == 36
    &&& id[14] == '4'
    &&& forall|i: int|
        0 <= i < 36 ==> if i == 8 || i == 13 || i == 18 || i == 23 {
            #[trigger] id[i] == '-'
        } else {
            is_hex_digit(id[i])
        }
}

/// `uuid::Uuid::new_v4`, written out by its `to_string`: a version 4 UUID in lowercase
/// hyphenated form. Which one is chance.
#[verifier::external_body]
pub(crate) fn random_id() -> (r: String)
    ensures
        is_request_id(r@),
{
    uuid::Uuid::new_v4().to_string()
}

} // verus!
