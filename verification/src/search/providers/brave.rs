//! The Brave Search API.

use crate::search::provider::{ProviderError, Tag};
use crate::search::providers::answer;
use crate::search::providers::answer::{HttpRequest, HttpView, StatusPolicy};
use crate::search::request::{Freshness, SearchRequest, SearchResponse, SearchResult};
use crate::text;
use vstd::prelude::*;

verus! {

/// A single web result from the Brave Search API.
#[derive(Debug)]
pub struct BraveWebResult {
    /// The title.
    pub title: String,
    /// The URL.
    pub url: String,
    /// The snippet.
    pub description: String,
    /// Optional publication date in ISO 8601 format.
    pub page_age: Option<String>,
}

/// Brave Search API provider.
///
/// Uses the Brave Search REST API (`/res/v1/web/search`). Requires an API key
/// configured via `api_key` or `api_key_env` (typically `BRAVE_API_KEY`).
/// Requests are authenticated with the `X-Subscription-Token` header.
#[derive(Debug)]
pub struct BraveProvider {
    /// API key used in the `X-Subscription-Token` header.
    pub api_key: Option<String>,
}

/// The value of the API's safe search parameter.
pub open spec fn safe_search_word(safe_search: bool) -> Seq<char> {
    if safe_search {
        "strict"@
    } else {
        "off"@
    }
}

/// The value of the API's freshness parameter.
pub open spec fn freshness_word(freshness: Freshness) -> Seq<char> {
    match freshness {
        Freshness::Day => "pd"@,
        Freshness::Week => "pw"@,
        Freshness::Month => "pm"@,
        Freshness::Year => "py"@,
    }
}

/// How many results are asked for: the limit of the request, at least one and at
/// most the 20 that the API gives at once.
pub open spec fn page_size(limit: usize) -> usize {
    if limit < 1 {
        1
    } else if limit > 20 {
        20
    } else {
        limit
    }
}

/// An optional parameter.
pub open spec fn optional_param(key: Seq<char>, value: Option<Seq<char>>) -> Seq<
    (Seq<char>, Seq<char>),
> {
    match value {
        Some(v) => seq![(key, v)],
        None => Seq::empty(),
    }
}

/// The query parameters of a search.
pub open spec fn query_params(request: SearchRequest) -> Seq<(Seq<char>, Seq<char>)> {
    seq![
        ("q"@, request.query@),
        ("count"@, text::decimal(page_size(request.limit) as nat)),
        ("safesearch"@, safe_search_word(request.safe_search)),
    ] + optional_param(
        "search_lang"@,
        answer::option_view(request.language),
    ) + optional_param(
        "country"@,
        answer::option_view(request.country),
    ) + optional_param(
        "freshness"@,
        match request.freshness {
            Some(f) => Some(freshness_word(f)),
            None => None,
        },
    )
}

/// The result that an entry at position `i` stands for; none where it has no title
/// or no URL. The date is what stands before the time in the page age.
pub open spec fn entry_view(entry: BraveWebResult, i: int) -> Option<
    answer::ResultView,
> {
    if entry.title@.len() == 0 || entry.url@.len() == 0 {
        None
    } else {
        Some(
            answer::ResultView {
                title: entry.title@,
                url: entry.url@,
                snippet: entry.description@,
                published_date: match entry.page_age {
                    Some(age) => Some(text::before(age@, 'T')),
                    None => None,
                },
                provider_name: "brave"@,
                score: answer::position_score(i),
            },
        )
    }
}

/// The results that the entries stand for, in order.
pub open spec fn entry_views(entries: Seq<BraveWebResult>) -> Seq<
    answer::ResultView,
> {
    answer::present(
        Seq::new(entries.len(), |i: int| entry_view(entries[i], i)),
    )
}

impl BraveProvider {
    /// Create a new `BraveProvider`.
    ///
    /// The provider is available only when `api_key` is `Some(_)`.
    pub fn new(api_key: Option<String>) -> (r: Self)
        ensures
            r.api_key == api_key,
    {
        BraveProvider { api_key }
    }

    /// The provider's name.
    pub fn name(&self) -> (r: &'static str)
        ensures
            r@ == "brave"@,
    {
        "brave"
    }

    /// The provider's tags.
    pub fn tags(&self) -> (r: Vec<Tag>)
        ensures
            r@ == seq![Tag::Web],
    {
        let mut tags: Vec<Tag> = Vec::new();
        tags.push(Tag::Web);
        assert(tags@ =~= seq![Tag::Web]);
        tags
    }

    /// The provider's description.
    pub fn description(&self) -> (r: &'static str)
        ensures
            r@ == "Brave Search API (API key required, free tier: 20 RPM)"@,
    {
        "Brave Search API (API key required, free tier: 20 RPM)"
    }

    /// Whether an API key is configured.
    pub fn is_available(&self) -> (r: bool)
        ensures
            r == (self.api_key is Some),
    {
        self.api_key.is_some()
    }

    /// Build the `safe_search` query parameter value for the Brave API.
    ///
    /// Brave uses strings: `"strict"` (images + text), `"moderate"` (images only),
    /// or `"off"`. The boolean `safe_search` flag maps to `"strict"` when `true`
    /// and `"off"` when `false`.
    pub fn safe_search_param(safe_search: bool) -> (r: &'static str)
        ensures
            r@ == safe_search_word(safe_search),
    {
        if safe_search {
            "strict"
        } else {
            "off"
        }
    }

    /// Map the canonical [`Freshness`] enum to the Brave API `freshness` parameter.
    ///
    /// Brave uses: `pd` (past day), `pw` (past week), `pm` (past month),
    /// `py` (past year).
    pub fn freshness_param(freshness: &Freshness) -> (r: &'static str)
        ensures
            r@ == freshness_word(*freshness),
    {
        match freshness {
            Freshness::Day => "pd",
            Freshness::Week => "pw",
            Freshness::Month => "pm",
            Freshness::Year => "py",
        }
    }

    /// Whether the outcome of preparing a search is what it should be: an HTTP request, or an
    /// error without an API key.
    pub open spec fn is_call(
        &self,
        request: SearchRequest,
        r: Result<HttpRequest, ProviderError>,
    ) -> bool {
        match r {
            Ok(http) => self.api_key is Some && http@ == (HttpView {
                post: false,
                url: "https://api.search.brave.com/res/v1/web/search"@,
                headers: seq![
                    ("X-Subscription-Token"@, self.api_key->0@),
                    ("Accept"@, "application/json"@),
                ],
                params: query_params(request),
                body: None,
            }),
            Err(e) => self.api_key is None && (e matches ProviderError::NotConfigured(msg) && msg@
                == "Brave API key not set"@),
        }
    }

    /// The HTTP request of a search. Without an API key there is none.
    pub fn prepare(&self, request: &SearchRequest) -> (r: Result<HttpRequest, ProviderError>)
        ensures
            self.is_call(*request, r),
    {
        match &self.api_key {
            None => Err(ProviderError::NotConfigured("Brave API key not set".to_owned())),
            Some(key) => {
                let mut headers: Vec<(String, String)> = Vec::new();
                answer::push_pair(&mut headers, "X-Subscription-Token", key.as_str());
                answer::push_pair(&mut headers, "Accept", "application/json");
                assert(answer::pair_views(headers@) =~= seq![
                    ("X-Subscription-Token"@, key@),
                    ("Accept"@, "application/json"@),
                ]);
                Ok(
                    HttpRequest {
                        post: false,
                        url: "https://api.search.brave.com/res/v1/web/search".to_owned(),
                        headers,
                        params: build_params(request),
                        body: None,
                    },
                )
            },
        }
    }

    /// The Brave JSON response as canonical [`SearchResult`] entries.
    ///
    /// An empty body has none. `decoded` is what the JSON decoder makes of a body: the
    /// entries of its `web.results`, or the decoder's error.
    pub fn parse_results(body: &str, decoded: Result<Vec<BraveWebResult>, String>) -> (r: Result<
        Vec<SearchResult>,
        ProviderError,
    >)
        ensures
            if text::trimmed(body@).len() == 0 {
                r matches Ok(results) && results@.len() == 0
            } else {
                match decoded {
                    Ok(entries) => r matches Ok(results)
                        && answer::result_views(results@) == entry_views(
                        entries@,
                    ),
                    Err(e) => r matches Err(ProviderError::ParseError(msg)) && msg@
                        == "failed to parse Brave API response: "@ + e@,
                }
            },
    {
        let trimmed = text::trim(body);
        if trimmed.as_str().is_empty() {
            return Ok(Vec::new());
        }
        match decoded {
            Ok(entries) => Ok(map_entries(entries)),
            Err(e) => Err(
                ProviderError::ParseError(
                    text::concat("failed to parse Brave API response: ", e.as_str()),
                ),
            ),
        }
    }

    /// What an answer to a search amounts to, once its body was read and decoded.
    ///
    /// HTTP 401 (Unauthorized) or 403 (Forbidden) is a terminal error. HTTP 429 (Too
    /// Many Requests) carries the `Retry-After` header.
    pub fn receive(
        &self,
        request: &SearchRequest,
        body: &str,
        decoded: Result<Vec<BraveWebResult>, String>,
        elapsed_ms: u64,
    ) -> (r: Result<SearchResponse, ProviderError>)
        ensures
            match r {
                Ok(response) => answer::is_response_of(
                    response,
                    *request,
                    "brave"@,
                    response.results@,
                    elapsed_ms,
                ) && if text::trimmed(body@).len() == 0 {
                    response.results@.len() == 0
                } else {
                    decoded is Ok && answer::result_views(response.results@) == entry_views(
                        decoded->Ok_0@,
                    )
                },
                Err(e) => text::trimmed(body@).len() > 0 && decoded is Err
                    && (e matches ProviderError::ParseError(msg) && msg@
                    == "failed to parse Brave API response: "@ + decoded->Err_0@),
            },
    {
        match Self::parse_results(body, decoded) {
            Ok(results) => Ok(answer::response_of(request, "brave", results, elapsed_ms)),
            Err(e) => Err(e),
        }
    }

    /// What the status of an answer amounts to.
    pub fn check_status(status: u16, reason: Option<&str>, retry_after: Option<&str>) -> (r: Result<
        (),
        ProviderError,
    >)
        ensures
            match r {
                Ok(_) => answer::is_success(status),
                Err(e) => !answer::is_success(status)
                    && answer::is_status_error(
                    (StatusPolicy { unauthorized_is_denied: true, reads_retry_after: true }),
                    status,
                    match reason {
                        Some(words) => Some(words@),
                        None => None,
                    },
                    match retry_after {
                        Some(value) => Some(value@),
                        None => None,
                    },
                    e,
                ),
            },
    {
        let policy = StatusPolicy { unauthorized_is_denied: true, reads_retry_after: true };
        answer::check_status(&policy, status, reason, retry_after)
    }
}

fn build_params(request: &SearchRequest) -> (r: Vec<(String, String)>)
    ensures
        answer::pair_views(r@) == query_params(*request),
{
    let mut params: Vec<(String, String)> = Vec::new();
    answer::push_pair(&mut params, "q", request.query.as_str());
    let count: usize = if request.limit < 1 {
        1
    } else if request.limit > 20 {
        20
    } else {
        request.limit
    };
    answer::push_pair(&mut params, "count", text::decimal_of(count as u64).as_str());
    answer::push_pair(
        &mut params,
        "safesearch",
        BraveProvider::safe_search_param(request.safe_search),
    );
    if let Some(lang) = &request.language {
        answer::push_pair(&mut params, "search_lang", lang.as_str());
    }
    if let Some(country) = &request.country {
        answer::push_pair(&mut params, "country", country.as_str());
    }
    if let Some(freshness) = &request.freshness {
        answer::push_pair(&mut params, "freshness", BraveProvider::freshness_param(freshness));
    }
    assert(answer::pair_views(params@) =~= query_params(*request));
    params
}

fn map_entries(entries: Vec<BraveWebResult>) -> (r: Vec<SearchResult>)
    ensures
        answer::result_views(r@) == entry_views(entries@),
{
    let ghost all = entries@;
    let ghost mapped = Seq::new(all.len(), |k: int| entry_view(all[k], k));
    let n: usize = entries.len();
    let mut results: Vec<SearchResult> = Vec::new();
    let mut i: usize = 0;
    assert(mapped.take(0) =~= Seq::empty());
    assert(answer::result_views(results@) =~= Seq::empty());
    for entry in it: entries
        invariant
            it.seq() == all,
            n == all.len(),
            i == it.index(),
            mapped == Seq::new(all.len(), |k: int| entry_view(all[k], k)),
            answer::result_views(results@)
                == answer::present(mapped.take(i as int)),
    {
        proof {
            assert(mapped.take(i + 1).drop_last() =~= mapped.take(i as int));
            assert(mapped.take(i + 1).last() == entry_view(entry, i as int));
        }
        assert(i < n);
        if !entry.title.as_str().is_empty() && !entry.url.as_str().is_empty() {
            let published_date = match &entry.page_age {
                Some(age) => Some(text::part_before(age.as_str(), 'T')),
                None => None,
            };
            let result = SearchResult {
                title: entry.title,
                url: entry.url,
                snippet: entry.description,
                published_date,
                provider_name: "brave".to_owned(),
                rank_score: answer::score_at(i),
            };
            proof {
                answer::lemma_push_result(results@, result);
                assert(Some(answer::result_view(result)) == entry_view(
                    entry,
                    i as int,
                ));
            }
            results.push(result);
        }
        i = i + 1;
    }
    assert(mapped.take(mapped.len() as int) =~= mapped);
    results
}

/// The parameters of a search say what the request says, each under its own name: the query, how
/// many results, the safe search, and the language, the country and the freshness where the
/// request has them.
pub proof fn parameters_say_what_the_request_says(request: SearchRequest)
    ensures
        ({
            let params = query_params(request);
            &&& params[0] == ("q"@, request.query@)
            &&& params[1].0 == "count"@
            &&& 1 <= request.limit <= 20 ==> params[1].1 == text::decimal(request.limit as nat)
            &&& request.limit == 0 ==> params[1].1 == text::decimal(1)
            &&& request.limit > 20 ==> params[1].1 == text::decimal(20)
            &&& params[2].0 == "safesearch"@
            &&& request.safe_search ==> params[2].1 == "strict"@
            &&& !request.safe_search ==> params[2].1 == "off"@
            &&& request.language matches Some(lang) ==> params.contains(("search_lang"@, lang@))
            &&& request.country matches Some(country) ==> params.contains(("country"@, country@))
            &&& request.freshness == Some(Freshness::Day) ==> params.contains(
                ("freshness"@, "pd"@),
            )
            &&& request.freshness == Some(Freshness::Week) ==> params.contains(
                ("freshness"@, "pw"@),
            )
            &&& request.freshness == Some(Freshness::Month) ==> params.contains(
                ("freshness"@, "pm"@),
            )
            &&& request.freshness == Some(Freshness::Year) ==> params.contains(
                ("freshness"@, "py"@),
            )
            &&& params.len() == 3 + (if request.language is Some {
                1int
            } else {
                0int
            }) + (if request.country is Some {
                1int
            } else {
                0int
            }) + (if request.freshness is Some {
                1int
            } else {
                0int
            })
        }),
{
    let params = query_params(request);
    let a: int = if request.language is Some {
        1
    } else {
        0
    };
    let b: int = if request.country is Some {
        1
    } else {
        0
    };
    if let Some(lang) = request.language {
        assert(params[3] == ("search_lang"@, lang@));
    }
    if let Some(country) = request.country {
        assert(params[3 + a] == ("country"@, country@));
    }
    if let Some(f) = request.freshness {
        assert(params[3 + a + b] == ("freshness"@, freshness_word(f)));
    }
}

/// The key goes into its header, and with a key there is always a request, without one never.
pub proof fn the_key_is_sent(
    provider: BraveProvider,
    request: SearchRequest,
    r: Result<HttpRequest, ProviderError>,
)
    requires
        provider.is_call(request, r),
    ensures
        r is Ok <==> provider.api_key is Some,
        r matches Ok(http) ==> {
            &&& !http.post
            &&& http@.url == "https://api.search.brave.com/res/v1/web/search"@
            &&& http@.headers.contains(("X-Subscription-Token"@, provider.api_key->0@))
            &&& http@.headers.contains(("Accept"@, "application/json"@))
            &&& http@.params.contains(("q"@, request.query@))
            &&& http.body is None
        },
        r matches Err(e) ==> e is NotConfigured,
{
    if let Ok(http) = r {
        assert(http@.headers[0] == ("X-Subscription-Token"@, provider.api_key->0@));
        assert(http@.headers[1] == ("Accept"@, "application/json"@));
        assert(http@.params[0] == ("q"@, request.query@));
    }
}

/// Every entry with a title and a URL becomes a result, with its own title, URL, description and
/// day and the score of its place among the entries, and every result comes from such an entry.
pub proof fn entries_become_results(entries: Seq<BraveWebResult>, results: Seq<SearchResult>)
    requires
        answer::result_views(results) == entry_views(entries),
    ensures
        forall|k: int|
            0 <= k < entries.len() && (#[trigger] entries[k]).title@.len() > 0
                && entries[k].url@.len() > 0 ==> entry_views(entries).contains(
                answer::ResultView {
                    title: entries[k].title@,
                    url: entries[k].url@,
                    snippet: entries[k].description@,
                    published_date: match entries[k].page_age {
                        Some(age) => Some(text::before(age@, 'T')),
                        None => None,
                    },
                    provider_name: "brave"@,
                    score: answer::position_score(k),
                },
            ),
        forall|i: int|
            0 <= i < results.len() ==> exists|k: int|
                0 <= k < entries.len() && (#[trigger] entries[k]).title@.len() > 0
                    && entries[k].url@.len() > 0 && entries[k].title@ == (
                #[trigger] results[i]).title@ && entries[k].url@ == results[i].url@
                    && entries[k].description@ == results[i].snippet@
                    && results[i].provider_name@ == "brave"@
                    && results[i].rank_score.pattern() == answer::position_score(k)
                    && (entries[k].page_age is None ==> results[i].published_date is None) && (
                entries[k].page_age is Some ==> results[i].published_date is Some
                    && results[i].published_date->0@ == text::before(entries[k].page_age->0@, 'T')),
{
    let mapped = Seq::new(entries.len(), |i: int| entry_view(entries[i], i));
    let views = answer::result_views(results);
    answer::entries_that_are_there_stay_in_order(mapped);
    assert forall|k: int|
        0 <= k < entries.len() && (#[trigger] entries[k]).title@.len() > 0
            && entries[k].url@.len() > 0 implies entry_views(entries).contains(
        entry_view(entries[k], k)->0,
    ) by {
        assert(mapped[k] == Some(entry_view(entries[k], k)->0));
        assert(mapped.contains(Some(entry_view(entries[k], k)->0)));
    }
    assert forall|i: int| 0 <= i < results.len() implies exists|k: int|
        0 <= k < entries.len() && (#[trigger] entries[k]).title@.len() > 0
            && entries[k].url@.len() > 0 && entries[k].title@ == (#[trigger] results[i]).title@
            && entries[k].url@ == results[i].url@ && entries[k].description@ == results[i].snippet@
            && results[i].provider_name@ == "brave"@ && results[i].rank_score.pattern()
            == answer::position_score(k) && (entries[k].page_age is None
            ==> results[i].published_date is None) && (entries[k].page_age is Some
            ==> results[i].published_date is Some && results[i].published_date->0@ == text::before(
            entries[k].page_age->0@,
            'T',
        )) by {
        assert(views[i] == answer::result_view(results[i]));
        assert(views.contains(views[i]));
        assert(mapped.contains(Some(views[i])));
        let k = choose|k: int| 0 <= k < mapped.len() && mapped[k] == Some(views[i]);
        assert(entry_view(entries[k], k) == Some(answer::result_view(results[i])));
        assert(entries[k].title@ == results[i].title@);
    }
}

} // verus!
