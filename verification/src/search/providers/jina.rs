//! The Jina AI search API.

use crate::search::provider::{ProviderError, Tag};
use crate::search::providers::answer;
use crate::search::providers::answer::{HttpRequest, HttpView, StatusPolicy};
use crate::search::request::{SearchRequest, SearchResponse, SearchResult};
use crate::text;
use vstd::prelude::*;

verus! {

/// A single search result from the Jina AI API.
#[derive(Debug)]
pub struct JinaResult {
    /// Title of the result.
    pub title: Option<String>,
    /// URL of the result.
    pub url: Option<String>,
    /// Text description or snippet.
    pub description: Option<String>,
    /// Optional publication date in ISO 8601 format.
    pub published_date: Option<String>,
}

/// Top-level Jina AI API response envelope.
#[derive(Debug)]
pub struct JinaResponse {
    /// HTTP-equivalent status code from Jina.
    pub code: u16,
    /// Response data payload: flat array of search results.
    pub data: Vec<JinaResult>,
}

/// The JSON text that stands for a string, or the message of the error that
/// `serde_json` gives.
pub uninterp spec fn json_string(s: Seq<char>) -> Result<Seq<char>, Seq<char>>;

/// `serde_json::to_string` of a string: the JSON text that stands for it.
#[verifier::external_body]
fn quote_json(s: &str) -> (r: Result<String, String>)
    ensures
        match r {
            Ok(quoted) => json_string(s@) == Ok::<Seq<char>, Seq<char>>(quoted@),
            Err(e) => json_string(s@) == Err::<Seq<char>, Seq<char>>(e@),
        },
{
    serde_json::to_string(s).map_err(|e| e.to_string())
}

/// The body of the search request, given the JSON text of the query.
pub open spec fn search_body(quoted: Seq<char>, limit: usize) -> Seq<char> {
    "{\"limit\":"@ + text::decimal(limit as nat) + ",\"q\":"@ + quoted + "}"@
}

/// The body of the search request, given the JSON text of the query.
pub fn body_of(quoted: &str, limit: usize) -> (r: String)
    ensures
        r@ == search_body(quoted@, limit),
{
    let mut body = text::concat("{\"limit\":", text::decimal_of(limit as u64).as_str());
    body.push_str(",\"q\":");
    body.push_str(quoted);
    body.push_str("}");
    body
}

/// Jina AI search provider that calls the `s.jina.ai` API.
///
/// It requires an API key, configured either directly (`api_key`) or via an
/// environment variable (`api_key_env`). The key is sent as a Bearer token in the
/// `Authorization` header.
#[derive(Debug)]
pub struct JinaProvider {
    /// Base URL for the Jina AI search endpoint.
    pub base_url: String,
    /// The API key sent in the Authorization header; empty where there is none.
    pub api_key: String,
}

/// An optional text that is not empty.
pub open spec fn nonempty(s: Option<Seq<char>>) -> Option<Seq<char>> {
    match s {
        Some(v) => if v.len() > 0 {
            Some(v)
        } else {
            None
        },
        None => None,
    }
}

/// The result that an item at position `i` stands for; none where it has no title or
/// no URL.
pub open spec fn item_view(item: JinaResult, i: int) -> Option<answer::ResultView> {
    let title = text::trimmed(answer::or_empty(answer::option_view(item.title)));
    let url = text::trimmed(answer::or_empty(answer::option_view(item.url)));
    if title.len() == 0 || url.len() == 0 {
        None
    } else {
        Some(
            answer::ResultView {
                title,
                url,
                snippet: text::trimmed(answer::or_empty(answer::option_view(item.description))),
                published_date: nonempty(answer::option_view(item.published_date)),
                provider_name: "jina"@,
                score: answer::position_score(i),
            },
        )
    }
}

/// The results that the items stand for, in order.
pub open spec fn item_views(items: Seq<JinaResult>) -> Seq<answer::ResultView> {
    answer::present(Seq::new(items.len(), |i: int| item_view(items[i], i)))
}

/// Whether an error is what a decoded answer, or a failure to decode one, amounts to.
pub open spec fn is_decode_error(decoded: Result<JinaResponse, String>, error: ProviderError) -> bool {
    match decoded {
        Err(e) => error matches ProviderError::ParseError(msg) && msg@
            == "failed to parse Jina JSON response: "@ + e@,
        Ok(response) => response.code != 200 && (error matches ProviderError::HttpError {
            status,
            body,
        } && status == response.code && body@ == "Jina API returned non-200 code: "@
            + text::decimal(response.code as nat)),
    }
}

impl JinaProvider {
    /// Create a new `JinaProvider`.
    ///
    /// If `api_key` is `None`, the provider is constructed but unavailable. It will
    /// still be registered in the catalog so users can see it in `list_providers`
    /// output, but it will be skipped during dispatch.
    pub fn new(api_key: Option<String>, base_url: Option<String>) -> (r: Self)
        ensures
            r.api_key@ == answer::or_empty(answer::option_view(api_key)),
            r.base_url@ == (match base_url {
                Some(url) => url@,
                None => "https://s.jina.ai"@,
            }),
    {
        JinaProvider {
            base_url: match base_url {
                Some(url) => url,
                None => "https://s.jina.ai".to_owned(),
            },
            api_key: match api_key {
                Some(key) => key,
                None => String::new(),
            },
        }
    }

    /// The provider's name.
    pub fn name(&self) -> (r: &'static str)
        ensures
            r@ == "jina"@,
    {
        "jina"
    }

    /// The provider's tags.
    pub fn tags(&self) -> (r: Vec<Tag>)
        ensures
            r@ == seq![Tag::Web],
    {
        let mut tags: Vec<Tag> = Vec::new();
        tags.push(Tag::Web);
        assert(tags@ =~= seq![Tag::Web]);
        tags
    }

    /// The provider's description.
    pub fn description(&self) -> (r: &'static str)
        ensures
            r@ == "Jina AI search (API-based, API key required, 100 RPM free tier)"@,
    {
        "Jina AI search (API-based, API key required, 100 RPM free tier)"
    }

    /// Whether an API key is configured.
    pub fn is_available(&self) -> (r: bool)
        ensures
            r == (self.api_key@.len() > 0),
    {
        !self.api_key.as_str().is_empty()
    }

    /// The value of the `Authorization` header, where an API key is configured.
    pub fn authorization(&self) -> (r: Option<String>)
        ensures
            match r {
                Some(value) => self.api_key@.len() > 0 && value@ == "Bearer "@ + self.api_key@,
                None => self.api_key@.len() == 0,
            },
    {
        if self.is_available() {
            Some(text::concat("Bearer ", self.api_key.as_str()))
        } else {
            None
        }
    }

    /// Whether the outcome of preparing a search is what it should be: an HTTP request with a
    /// JSON body, or the error of writing that.
    pub open spec fn is_call(
        &self,
        request: SearchRequest,
        r: Result<HttpRequest, ProviderError>,
    ) -> bool {
        match (json_string(request.query@), r) {
            (Ok(quoted), Ok(http)) => http@ == (HttpView {
                post: true,
                url: self.base_url@,
                headers: seq![
                    ("Content-Type"@, "application/json"@),
                    ("Accept"@, "application/json"@),
                ],
                params: Seq::empty(),
                body: Some(search_body(quoted, request.limit)),
            }),
            (Err(e), Err(error)) => error matches ProviderError::Internal(msg) && msg@
                == "failed to serialize request body: "@ + e,
            _ => false,
        }
    }

    /// The HTTP request of a search.
    pub fn prepare(&self, request: &SearchRequest) -> (r: Result<HttpRequest, ProviderError>)
        ensures
            self.is_call(*request, r),
    {
        match quote_json(request.query.as_str()) {
            Ok(quoted) => {
                let mut headers: Vec<(String, String)> = Vec::new();
                answer::push_pair(&mut headers, "Content-Type", "application/json");
                answer::push_pair(&mut headers, "Accept", "application/json");
                let params: Vec<(String, String)> = Vec::new();
                assert(answer::pair_views(headers@) =~= seq![
                    ("Content-Type"@, "application/json"@),
                    ("Accept"@, "application/json"@),
                ]);
                assert(answer::pair_views(params@) =~= Seq::empty());
                Ok(
                    HttpRequest {
                        post: true,
                        url: self.base_url.clone(),
                        headers,
                        params,
                        body: Some(body_of(quoted.as_str(), request.limit)),
                    },
                )
            },
            Err(e) => Err(
                ProviderError::Internal(
                    text::concat("failed to serialize request body: ", e.as_str()),
                ),
            ),
        }
    }

    /// The Jina AI JSON response as canonical [`SearchResult`] entries, given what the
    /// JSON decoder makes of the body.
    ///
    /// Results with an empty title or URL are skipped. The rank score decays with
    /// position: rank_score = 1.0 / (position + 1).
    pub fn parse_results(decoded: Result<JinaResponse, String>) -> (r: Result<
        Vec<SearchResult>,
        ProviderError,
    >)
        ensures
            match r {
                Ok(results) => decoded is Ok && decoded->Ok_0.code == 200 && answer::result_views(
                    results@,
                ) == item_views(decoded->Ok_0.data@),
                Err(e) => is_decode_error(decoded, e),
            },
    {
        match decoded {
            Err(e) => Err(
                ProviderError::ParseError(
                    text::concat("failed to parse Jina JSON response: ", e.as_str()),
                ),
            ),
            Ok(response) => {
                if response.code != 200 {
                    return Err(
                        ProviderError::HttpError {
                            status: response.code,
                            body: text::concat(
                                "Jina API returned non-200 code: ",
                                text::decimal_of(response.code as u64).as_str(),
                            ),
                        },
                    );
                }
                Ok(map_items(response.data))
            },
        }
    }

    /// What an answer to a search amounts to, once its body was read and decoded.
    pub fn receive(
        &self,
        request: &SearchRequest,
        decoded: Result<JinaResponse, String>,
        elapsed_ms: u64,
    ) -> (r: Result<SearchResponse, ProviderError>)
        ensures
            match r {
                Ok(response) => answer::is_response_of(
                    response,
                    *request,
                    "jina"@,
                    response.results@,
                    elapsed_ms,
                ) && decoded is Ok && decoded->Ok_0.code == 200 && answer::result_views(
                    response.results@,
                ) == item_views(decoded->Ok_0.data@),
                Err(e) => is_decode_error(decoded, e),
            },
    {
        match Self::parse_results(decoded) {
            Ok(results) => Ok(answer::response_of(request, "jina", results, elapsed_ms)),
            Err(e) => Err(e),
        }
    }

    /// What the status of an answer amounts to.
    ///
    /// HTTP 401/403 is a terminal error; HTTP 429 carries the `Retry-After` header.
    pub fn check_status(status: u16, reason: Option<&str>, retry_after: Option<&str>) -> (r: Result<
        (),
        ProviderError,
    >)
        ensures
            match r {
                Ok(_) => answer::is_success(status),
                Err(e) => !answer::is_success(status) && answer::is_status_error(
                    (StatusPolicy { unauthorized_is_denied: true, reads_retry_after: true }),
                    status,
                    match reason {
                        Some(words) => Some(words@),
                        None => None,
                    },
                    match retry_after {
                        Some(value) => Some(value@),
                        None => None,
                    },
                    e,
                ),
            },
    {
        let policy = StatusPolicy { unauthorized_is_denied: true, reads_retry_after: true };
        answer::check_status(&policy, status, reason, retry_after)
    }
}

fn map_items(items: Vec<JinaResult>) -> (r: Vec<SearchResult>)
    ensures
        answer::result_views(r@) == item_views(items@),
{
    let ghost all = items@;
    let ghost mapped = Seq::new(all.len(), |k: int| item_view(all[k], k));
    let n: usize = items.len();
    let mut results: Vec<SearchResult> = Vec::new();
    let mut i: usize = 0;
    assert(mapped.take(0) =~= Seq::empty());
    assert(answer::result_views(results@) =~= Seq::empty());
    for item in it: items
        invariant
            it.seq() == all,
            n == all.len(),
            i == it.index(),
            mapped == Seq::new(all.len(), |k: int| item_view(all[k], k)),
            answer::result_views(results@) == answer::present(mapped.take(i as int)),
    {
        proof {
            assert(mapped.take(i + 1).drop_last() =~= mapped.take(i as int));
            assert(mapped.take(i + 1).last() == item_view(item, i as int));
        }
        assert(i < n);
        let title = answer::trim_or_empty(&item.title);
        let url = answer::trim_or_empty(&item.url);
        if !title.as_str().is_empty() && !url.as_str().is_empty() {
            let snippet = answer::trim_or_empty(&item.description);
            let published_date = match item.published_date {
                Some(date) => if date.as_str().is_empty() {
                    None
                } else {
                    Some(date)
                },
                None => None,
            };
            let result = SearchResult {
                title,
                url,
                snippet,
                published_date,
                provider_name: "jina".to_owned(),
                rank_score: answer::score_at(i),
            };
            proof {
                answer::lemma_push_result(results@, result);
                assert(Some(answer::result_view(result)) == item_view(item, i as int));
            }
            results.push(result);
        }
        i = i + 1;
    }
    assert(mapped.take(mapped.len() as int) =~= mapped);
    results
}

/// A search is a POST to the configured address with the query and the limit in a JSON body; the
/// query is left to `serde_json` to write.
pub proof fn the_query_and_the_limit_are_sent(
    provider: JinaProvider,
    request: SearchRequest,
    r: Result<HttpRequest, ProviderError>,
)
    requires
        provider.is_call(request, r),
    ensures
        r is Ok <==> json_string(request.query@) is Ok,
        r matches Ok(http) ==> {
            &&& http.post
            &&& http.url@ == provider.base_url@
            &&& http@.headers.contains(("Content-Type"@, "application/json"@))
            &&& http@.headers.contains(("Accept"@, "application/json"@))
            &&& http.params@.len() == 0
            &&& http.body is Some
            &&& http.body->0@ == "{\"limit\":"@ + text::decimal(request.limit as nat) + ",\"q\":"@
                + json_string(request.query@)->Ok_0 + "}"@
        },
        r matches Err(e) ==> e is Internal,
{
    if let Ok(http) = r {
        assert(http@.headers[0] == ("Content-Type"@, "application/json"@));
        assert(http@.headers[1] == ("Accept"@, "application/json"@));
        assert(http@.params.len() == http.params@.len());
    }
}

/// Every item with a title and a URL, but for the white at their ends, becomes a result with the
/// score of its place among the items, and every result comes from such an item.
pub proof fn items_become_results(items: Seq<JinaResult>, results: Seq<SearchResult>)
    requires
        answer::result_views(results) == item_views(items),
    ensures
        forall|k: int|
            0 <= k < items.len() && (#[trigger] items[k]).title is Some && items[k].url is Some
                && text::trimmed(items[k].title->0@).len() > 0 && text::trimmed(
                items[k].url->0@,
            ).len() > 0 ==> item_views(items).contains(
                answer::ResultView {
                    title: text::trimmed(items[k].title->0@),
                    url: text::trimmed(items[k].url->0@),
                    snippet: match items[k].description {
                        Some(words) => text::trimmed(words@),
                        None => text::trimmed(Seq::empty()),
                    },
                    published_date: match items[k].published_date {
                        Some(date) => if date@.len() == 0 {
                            None
                        } else {
                            Some(date@)
                        },
                        None => None,
                    },
                    provider_name: "jina"@,
                    score: answer::position_score(k),
                },
            ),
        forall|i: int|
            0 <= i < results.len() ==> exists|k: int|
                0 <= k < items.len() && (#[trigger] items[k]).title is Some && items[k].url is Some
                    && (#[trigger] results[i]).title@ == text::trimmed(items[k].title->0@)
                    && results[i].url@ == text::trimmed(items[k].url->0@)
                    && results[i].title@.len() > 0 && results[i].url@.len() > 0
                    && results[i].provider_name@ == "jina"@ && results[i].rank_score.pattern()
                    == answer::position_score(k),
{
    let mapped = Seq::new(items.len(), |i: int| item_view(items[i], i));
    let views = answer::result_views(results);
    answer::entries_that_are_there_stay_in_order(mapped);
    text::trimming_takes_the_white_at_the_ends(Seq::empty());
    assert forall|k: int|
        0 <= k < items.len() && (#[trigger] items[k]).title is Some && items[k].url is Some
            && text::trimmed(items[k].title->0@).len() > 0 && text::trimmed(
            items[k].url->0@,
        ).len() > 0 implies item_views(items).contains(item_view(items[k], k)->0) by {
        assert(mapped[k] == Some(item_view(items[k], k)->0));
        assert(mapped.contains(Some(item_view(items[k], k)->0)));
    }
    assert forall|i: int| 0 <= i < results.len() implies exists|k: int|
        0 <= k < items.len() && (#[trigger] items[k]).title is Some && items[k].url is Some && (
        #[trigger] results[i]).title@ == text::trimmed(items[k].title->0@) && results[i].url@
            == text::trimmed(items[k].url->0@) && results[i].title@.len() > 0
            && results[i].url@.len() > 0 && results[i].provider_name@ == "jina"@
            && results[i].rank_score.pattern() == answer::position_score(k) by {
        assert(views[i] == answer::result_view(results[i]));
        assert(views.contains(views[i]));
        assert(mapped.contains(Some(views[i])));
        let k = choose|k: int| 0 <= k < mapped.len() && mapped[k] == Some(views[i]);
        assert(item_view(items[k], k) == Some(answer::result_view(results[i])));
        assert(items[k].title is Some);
    }
}

/// What went wrong is told apart: a body that is no answer, and an answer with a code other than
/// 200.
pub proof fn decode_errors_are_told_apart(decoded: Result<JinaResponse, String>, error: ProviderError)
    requires
        is_decode_error(decoded, error),
    ensures
        decoded is Err <==> error is ParseError,
        decoded matches Ok(response) ==> response.code != 200 && (error matches
            ProviderError::HttpError { status, .. } && status == response.code),
{
}

} // verus!
