//! DuckDuckGo's HTML results page.

use crate::search::provider::{ProviderError, Tag};
use crate::search::providers::answer;
use crate::search::providers::answer::{HttpRequest, HttpView, StatusPolicy};
use crate::search::request::{SearchRequest, SearchResponse, SearchResult};
use crate::text;
use scraper::{ElementRef, Html, Selector};
use vstd::prelude::*;

verus! {

/// What the page holds for one result: the text of the title link, its target, the
/// text of the displayed URL and the text of the snippet, each if it is there.
#[derive(Debug)]
pub struct ResultRow {
    /// The text of the title link.
    pub title: Option<String>,
    /// The target of the title link.
    pub href: Option<String>,
    /// The text of the displayed URL.
    pub url: Option<String>,
    /// The text of the snippet.
    pub snippet: Option<String>,
}

/// What a row holds.
#[verifier::ext_equal]
pub struct RowView {
    /// The text of the title link.
    pub title: Option<Seq<char>>,
    /// The target of the title link.
    pub href: Option<Seq<char>>,
    /// The text of the displayed URL.
    pub url: Option<Seq<char>>,
    /// The text of the snippet.
    pub snippet: Option<Seq<char>>,
}

/// What each row of a list holds.
pub open spec fn row_views(rows: Seq<ResultRow>) -> Seq<RowView> {
    rows.map_values(
        |row: ResultRow|
            RowView {
                title: answer::option_view(row.title),
                href: answer::option_view(row.href),
                url: answer::option_view(row.url),
                snippet: answer::option_view(row.snippet),
            },
    )
}

/// What `scraper` finds in an HTML document: for each element that the container
/// selector matches, in document order, the text of the first element inside it that
/// the title selector matches and the value of the attribute of that element, and the
/// texts of the first elements that the URL and the snippet selectors match. `None`
/// where one of the selectors is not valid CSS.
pub uninterp spec fn selected_rows(
    html: Seq<char>,
    container: Seq<char>,
    title: Seq<char>,
    attribute: Seq<char>,
    url: Seq<char>,
    snippet: Seq<char>,
) -> Option<Seq<RowView>>;

/// `scraper::Html::parse_document` and `select`, with `scraper::Selector::parse` on each
/// selector. The result depends on the arguments alone.
#[verifier::external_body]
fn select_rows(
    html: &str,
    container: &str,
    title: &str,
    attribute: &str,
    url: &str,
    snippet: &str,
) -> (r: Option<Vec<ResultRow>>)
    ensures
        match r {
            Some(rows) => selected_rows(html@, container@, title@, attribute@, url@, snippet@)
                == Some(row_views(rows@)),
            None => selected_rows(html@, container@, title@, attribute@, url@, snippet@) is None,
        },
{
    let css = |selector| Selector::parse(selector).ok();
    let (outer, title, url, snippet) = (css(container)?, css(title)?, css(url)?, css(snippet)?);
    let text = |e: ElementRef| e.text().collect();
    let row = |e: ElementRef| {
        let link = e.select(&title).next();
        ResultRow {
            title: link.map(text), href: link.and_then(|a| a.attr(attribute)).map(String::from),
            url: e.select(&url).next().map(text), snippet: e.select(&snippet).next().map(text),
        }
    };
    Some(Html::parse_document(html).select(&outer).map(row).collect())
}

/// Body markers that indicate a CAPTCHA or Cloudflare challenge page was served
/// instead of search results.
pub open spec fn captcha_markers() -> Seq<Seq<char>> {
    seq![
        "g-recaptcha"@,
        "grecaptcha"@,
        "cf-challenge"@,
        "cf_captcha"@,
        "challenge-form"@,
        "/cdn-cgi/l/chk"@,
        "checking your browser"@,
    ]
}

/// The first of the markers that stands in a text.
pub open spec fn first_marker(lowered: Seq<char>, markers: Seq<Seq<char>>) -> Option<Seq<char>>
    decreases markers.len(),
{
    if markers.len() == 0 {
        None
    } else if text::has_substring(lowered, markers[0]) {
        Some(markers[0])
    } else {
        first_marker(lowered, markers.drop_first())
    }
}

/// The first marker that stands in a body in lowercase.
pub fn find_marker(lowered: &str) -> (r: Option<&'static str>)
    ensures
        match r {
            Some(marker) => first_marker(lowered@, captcha_markers()) == Some(marker@),
            None => first_marker(lowered@, captcha_markers()) is None,
        },
{
    let markers: [&'static str; 7] = [
        "g-recaptcha",
        "grecaptcha",
        "cf-challenge",
        "cf_captcha",
        "challenge-form",
        "/cdn-cgi/l/chk",
        "checking your browser",
    ];
    let ghost all = captcha_markers();
    let mut i: usize = 0;
    assert(all.skip(0) =~= all);
    while i < 7
        invariant
            i <= 7,
            all == captcha_markers(),
            all.len() == 7,
            forall|k: int| 0 <= k < 7 ==> (#[trigger] markers@[k])@ == all[k],
            first_marker(lowered@, all) == first_marker(lowered@, all.skip(i as int)),
        decreases 7 - i,
    {
        let marker: &'static str = markers[i];
        proof {
            assert(markers@[i as int]@ == all[i as int]);
            assert(all.skip(i as int)[0] == all[i as int]);
            assert(all.skip(i as int).drop_first() =~= all.skip(i + 1));
        }
        if text::contains_str(lowered, marker) {
            return Some(marker);
        }
        i = i + 1;
    }
    None
}

/// The URL of a row: the target of the title link, else the displayed URL.
pub open spec fn row_url(row: RowView) -> Seq<char> {
    match row.href {
        Some(href) => href,
        None => text::trimmed(answer::or_empty(row.url)),
    }
}

/// The result that a row at position `i` stands for; none where it has no title or no
/// URL.
pub open spec fn row_result(row: RowView, i: int) -> Option<answer::ResultView> {
    let title = text::trimmed(answer::or_empty(row.title));
    if title.len() == 0 || row_url(row).len() == 0 {
        None
    } else {
        Some(
            answer::ResultView {
                title,
                url: row_url(row),
                snippet: text::trimmed(answer::or_empty(row.snippet)),
                published_date: None,
                provider_name: "duckduckgo"@,
                score: answer::position_score(i),
            },
        )
    }
}

/// The results that the rows stand for, in order.
pub open spec fn row_results(rows: Seq<RowView>) -> Seq<answer::ResultView> {
    answer::present(Seq::new(rows.len(), |i: int| row_result(rows[i], i)))
}

/// What is selected in a results page.
pub open spec fn page_rows(html: Seq<char>) -> Option<Seq<RowView>> {
    selected_rows(
        html,
        ".result"@,
        ".result__title a.result__a"@,
        "href"@,
        ".result__url"@,
        ".result__snippet"@,
    )
}

/// The results that the rows stand for. Rows with an empty title or URL are skipped;
/// they count for the positions all the same.
pub fn results_from_rows(rows: Vec<ResultRow>) -> (r: Vec<SearchResult>)
    ensures
        answer::result_views(r@) == row_results(row_views(rows@)),
{
    let ghost all = rows@;
    let ghost seen = row_views(all);
    let ghost mapped = Seq::new(seen.len(), |k: int| row_result(seen[k], k));
    let n: usize = rows.len();
    let mut results: Vec<SearchResult> = Vec::new();
    let mut i: usize = 0;
    assert(mapped.take(0) =~= Seq::empty());
    assert(answer::result_views(results@) =~= Seq::empty());
    for row in it: rows
        invariant
            it.seq() == all,
            n == all.len(),
            i == it.index(),
            seen == row_views(all),
            mapped == Seq::new(seen.len(), |k: int| row_result(seen[k], k)),
            answer::result_views(results@) == answer::present(mapped.take(i as int)),
    {
        proof {
            assert(mapped.take(i + 1).drop_last() =~= mapped.take(i as int));
            assert(mapped.take(i + 1).last() == row_result(seen[i as int], i as int));
        }
        assert(i < n);
        let title = answer::trim_or_empty(&row.title);
        let url = match row.href {
            Some(href) => href,
            None => answer::trim_or_empty(&row.url),
        };
        if !title.as_str().is_empty() && !url.as_str().is_empty() {
            let snippet = answer::trim_or_empty(&row.snippet);
            let result = SearchResult {
                title,
                url,
                snippet,
                published_date: None,
                provider_name: "duckduckgo".to_owned(),
                rank_score: answer::score_at(i),
            };
            proof {
                answer::lemma_push_result(results@, result);
                assert(Some(answer::result_view(result)) == row_result(seen[i as int], i as int));
            }
            results.push(result);
        }
        i = i + 1;
    }
    assert(mapped.take(mapped.len() as int) =~= mapped);
    results
}

/// DuckDuckGo search provider that scrapes the HTML results page.
///
/// Unlike API-based providers, this requires no API key. It sends a POST
/// request to `https://html.duckduckgo.com/html/` and parses the returned HTML
/// using CSS selectors.
#[derive(Debug, Clone, Copy, PartialEq, Eq, Structural)]
pub struct DuckDuckGoProvider {
    /// Whether this provider is configured and enabled.
    pub available: bool,
}

impl DuckDuckGoProvider {
    /// Create a new `DuckDuckGoProvider`.
    pub fn new(available: bool) -> (r: Self)
        ensures
            r.available == available,
    {
        DuckDuckGoProvider { available }
    }

    /// The provider's name.
    pub fn name(&self) -> (r: &'static str)
        ensures
            r@ == "duckduckgo"@,
    {
        "duckduckgo"
    }

    /// The provider's tags.
    pub fn tags(&self) -> (r: Vec<Tag>)
        ensures
            r@ == seq![Tag::Web, Tag::Privacy],
    {
        let mut tags: Vec<Tag> = Vec::new();
        tags.push(Tag::Web);
        tags.push(Tag::Privacy);
        assert(tags@ =~= seq![Tag::Web, Tag::Privacy]);
        tags
    }

    /// The provider's description.
    pub fn description(&self) -> (r: &'static str)
        ensures
            r@ == "DuckDuckGo HTML search (scraping-based, no API key required)"@,
    {
        "DuckDuckGo HTML search (scraping-based, no API key required)"
    }

    /// Whether the provider is enabled.
    pub fn is_available(&self) -> (r: bool)
        ensures
            r == self.available,
    {
        self.available
    }

    /// The HTTP request of a search: a form with the query.
    pub fn prepare(&self, request: &SearchRequest) -> (r: HttpRequest)
        ensures
            r@ == (HttpView {
                post: true,
                url: "https://html.duckduckgo.com/html/"@,
                headers: Seq::empty(),
                params: seq![("q"@, request.query@)],
                body: None,
            }),
    {
        let mut params: Vec<(String, String)> = Vec::new();
        answer::push_pair(&mut params, "q", request.query.as_str());
        assert(answer::pair_views(params@) =~= seq![("q"@, request.query@)]);
        let headers: Vec<(String, String)> = Vec::new();
        assert(answer::pair_views(headers@) =~= Seq::empty());
        HttpRequest {
            post: true,
            url: "https://html.duckduckgo.com/html/".to_owned(),
            headers,
            params,
            body: None,
        }
    }

    /// Scan the response body for known CAPTCHA / challenge markers.
    ///
    /// Returns the text of the first matching marker, or `None` if the body
    /// appears to be legitimate search results.
    pub fn detect_captcha(body: &str) -> (r: Option<&'static str>)
        ensures
            match r {
                Some(marker) => first_marker(text::lowercase(body@), captcha_markers()) == Some(
                    marker@,
                ),
                None => first_marker(text::lowercase(body@), captcha_markers()) is None,
            },
            text::is_ascii(body@) ==> (r is Some <==> first_marker(
                text::ascii_lowercase(body@),
                captcha_markers(),
            ) is Some),
    {
        find_marker(text::to_lowercase(body).as_str())
    }

    /// Parse DuckDuckGo HTML into canonical [`SearchResult`] entries.
    ///
    /// Each `.result` container is mapped to one `SearchResult`. Results with
    /// an empty title or URL are skipped.
    pub fn parse_results(html: &str) -> (r: Result<Vec<SearchResult>, ProviderError>)
        ensures
            match r {
                Ok(results) => page_rows(html@) is Some && answer::result_views(results@)
                    == row_results(page_rows(html@)->0),
                Err(e) => page_rows(html@) is None && (e matches ProviderError::ParseError(msg)
                    && msg@ == "invalid selector"@),
            },
    {
        match select_rows(
            html,
            ".result",
            ".result__title a.result__a",
            "href",
            ".result__url",
            ".result__snippet",
        ) {
            Some(rows) => Ok(results_from_rows(rows)),
            None => Err(ProviderError::ParseError("invalid selector".to_owned())),
        }
    }

    /// What an answer to a search amounts to, once its body was read: an error where a
    /// CAPTCHA was served, else the results of the page.
    pub fn receive(&self, request: &SearchRequest, body: &str, elapsed_ms: u64) -> (r: Result<
        SearchResponse,
        ProviderError,
    >)
        ensures
            if first_marker(text::lowercase(body@), captcha_markers()) is Some {
                r matches Err(ProviderError::CaptchaDetected { provider }) && provider@
                    == "duckduckgo"@
            } else {
                match r {
                    Ok(response) => answer::is_response_of(
                        response,
                        *request,
                        "duckduckgo"@,
                        response.results@,
                        elapsed_ms,
                    ) && page_rows(body@) is Some && answer::result_views(response.results@)
                        == row_results(page_rows(body@)->0),
                    Err(e) => page_rows(body@) is None && (e matches ProviderError::ParseError(msg)
                        && msg@ == "invalid selector"@),
                }
            },
    {
        // Detect CAPTCHA before attempting to parse.
        if Self::detect_captcha(body).is_some() {
            return Err(ProviderError::CaptchaDetected { provider: "duckduckgo".to_owned() });
        }
        match Self::parse_results(body) {
            Ok(results) => Ok(answer::response_of(request, "duckduckgo", results, elapsed_ms)),
            Err(e) => Err(e),
        }
    }

    /// What the status of an answer amounts to.
    pub fn check_status(status: u16, reason: Option<&str>) -> (r: Result<(), ProviderError>)
        ensures
            match r {
                Ok(_) => answer::is_success(status),
                Err(e) => !answer::is_success(status) && answer::is_status_error(
                    (StatusPolicy { unauthorized_is_denied: false, reads_retry_after: false }),
                    status,
                    match reason {
                        Some(words) => Some(words@),
                        None => None,
                    },
                    None,
                    e,
                ),
            },
    {
        let policy = StatusPolicy { unauthorized_is_denied: false, reads_retry_after: false };
        answer::check_status(&policy, status, reason, None)
    }
}

/// A challenge is seen exactly where one of the seven markers stands in the page, and the first
/// of them is named.
pub proof fn challenges_are_seen_by_their_markers(lowered: Seq<char>)
    ensures
        first_marker(lowered, captcha_markers()) is Some <==> {
            ||| text::has_substring(lowered, "g-recaptcha"@)
            ||| text::has_substring(lowered, "grecaptcha"@)
            ||| text::has_substring(lowered, "cf-challenge"@)
            ||| text::has_substring(lowered, "cf_captcha"@)
            ||| text::has_substring(lowered, "challenge-form"@)
            ||| text::has_substring(lowered, "/cdn-cgi/l/chk"@)
            ||| text::has_substring(lowered, "checking your browser"@)
        },
        first_marker(lowered, captcha_markers()) matches Some(marker) ==> text::has_substring(
            lowered,
            marker,
        ),
        text::has_substring(lowered, "g-recaptcha"@) ==> first_marker(lowered, captcha_markers())
            == Some("g-recaptcha"@),
{
    let all = captcha_markers();
    lemma_first_marker(lowered, all);
    assert(all[0] == "g-recaptcha"@);
    assert(all[1] == "grecaptcha"@);
    assert(all[2] == "cf-challenge"@);
    assert(all[3] == "cf_captcha"@);
    assert(all[4] == "challenge-form"@);
    assert(all[5] == "/cdn-cgi/l/chk"@);
    assert(all[6] == "checking your browser"@);
}

proof fn lemma_first_marker(lowered: Seq<char>, markers: Seq<Seq<char>>)
    ensures
        match first_marker(lowered, markers) {
            Some(marker) => text::has_substring(lowered, marker) && exists|k: int|
                0 <= k < markers.len() && #[trigger] markers[k] == marker && forall|j: int|
                    0 <= j < k ==> !text::has_substring(lowered, #[trigger] markers[j]),
            None => forall|k: int|
                0 <= k < markers.len() ==> !text::has_substring(lowered, #[trigger] markers[k]),
        },
    decreases markers.len(),
{
    if markers.len() > 0 && !text::has_substring(lowered, markers[0]) {
        let rest = markers.drop_first();
        lemma_first_marker(lowered, rest);
        match first_marker(lowered, rest) {
            Some(marker) => {
                let k = choose|k: int|
                    0 <= k < rest.len() && #[trigger] rest[k] == marker && forall|j: int|
                        0 <= j < k ==> !text::has_substring(lowered, #[trigger] rest[j]);
                assert(markers[k + 1] == marker);
                assert forall|j: int| 0 <= j < k + 1 implies !text::has_substring(
                    lowered,
                    #[trigger] markers[j],
                ) by {
                    if j > 0 {
                        assert(markers[j] == rest[j - 1]);
                    }
                }
            },
            None => {
                assert forall|k: int| 0 <= k < markers.len() implies !text::has_substring(
                    lowered,
                    #[trigger] markers[k],
                ) by {
                    if k > 0 {
                        assert(markers[k] == rest[k - 1]);
                    }
                }
            },
        }
    } else if markers.len() > 0 {
        assert(markers[0] == markers[0]);
    }
}

/// Every row with a title and a target becomes a result, with the score of its place among the
/// rows: the link's target is the URL, and the displayed URL where there is none. Every result
/// comes from a row with a title and a URL.
pub proof fn rows_become_results(rows: Seq<RowView>, results: Seq<SearchResult>)
    requires
        answer::result_views(results) == row_results(rows),
    ensures
        forall|k: int|
            0 <= k < rows.len() && (#[trigger] rows[k]).title is Some && text::trimmed(
                rows[k].title->0,
            ).len() > 0 && rows[k].href is Some && rows[k].href->0.len() > 0 ==> row_results(
                rows,
            ).contains(
                answer::ResultView {
                    title: text::trimmed(rows[k].title->0),
                    url: rows[k].href->0,
                    snippet: match rows[k].snippet {
                        Some(words) => text::trimmed(words),
                        None => text::trimmed(Seq::empty()),
                    },
                    published_date: None,
                    provider_name: "duckduckgo"@,
                    score: answer::position_score(k),
                },
            ),
        forall|i: int|
            0 <= i < results.len() ==> exists|k: int|
                0 <= k < rows.len() && (#[trigger] rows[k]).title is Some && (
                #[trigger] results[i]).title@ == text::trimmed(rows[k].title->0)
                    && results[i].title@.len() > 0 && results[i].url@.len() > 0 && (
                rows[k].href is Some ==> results[i].url@ == rows[k].href->0) && (rows[k].href is None
                    ==> rows[k].url is Some && results[i].url@ == text::trimmed(rows[k].url->0))
                    && results[i].provider_name@ == "duckduckgo"@
                    && results[i].published_date is None && results[i].rank_score.pattern()
                    == answer::position_score(k),
{
    let mapped = Seq::new(rows.len(), |i: int| row_result(rows[i], i));
    let views = answer::result_views(results);
    answer::entries_that_are_there_stay_in_order(mapped);
    text::trimming_takes_the_white_at_the_ends(Seq::empty());
    assert forall|k: int|
        0 <= k < rows.len() && (#[trigger] rows[k]).title is Some && text::trimmed(
            rows[k].title->0,
        ).len() > 0 && rows[k].href is Some && rows[k].href->0.len() > 0 implies row_results(
        rows,
    ).contains(row_result(rows[k], k)->0) by {
        assert(mapped[k] == Some(row_result(rows[k], k)->0));
        assert(mapped.contains(Some(row_result(rows[k], k)->0)));
    }
    assert forall|i: int| 0 <= i < results.len() implies exists|k: int|
        0 <= k < rows.len() && (#[trigger] rows[k]).title is Some && (#[trigger] results[i]).title@
            == text::trimmed(rows[k].title->0) && results[i].title@.len() > 0
            && results[i].url@.len() > 0 && (rows[k].href is Some ==> results[i].url@
            == rows[k].href->0) && (rows[k].href is None ==> rows[k].url is Some && results[i].url@
            == text::trimmed(rows[k].url->0)) && results[i].provider_name@ == "duckduckgo"@
            && results[i].published_date is None && results[i].rank_score.pattern()
            == answer::position_score(k) by {
        assert(views[i] == answer::result_view(results[i]));
        assert(views.contains(views[i]));
        assert(mapped.contains(Some(views[i])));
        let k = choose|k: int| 0 <= k < mapped.len() && mapped[k] == Some(views[i]);
        assert(row_result(rows[k], k) == Some(answer::result_view(results[i])));
        assert(rows[k].title is Some);
    }
}

/// Where the results of a page are looked for: in the elements of class `result`, the title and
/// the target in the link of the title, the displayed URL and the snippet in elements of their
/// own.
pub proof fn results_are_looked_for_by_their_classes(html: Seq<char>)
    ensures
        page_rows(html) == selected_rows(
            html,
            ".result"@,
            ".result__title a.result__a"@,
            "href"@,
            ".result__url"@,
            ".result__snippet"@,
        ),
{
}

} // verus!
