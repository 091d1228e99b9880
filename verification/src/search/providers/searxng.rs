//! A self-hosted SearXNG instance.

use crate::double::Double;
use crate::search::provider::{ProviderError, Tag};
use crate::search::providers::answer;
use crate::search::providers::answer::{HttpRequest, HttpView, StatusPolicy};
use crate::search::request::{Freshness, SearchRequest, SearchResponse, SearchResult};
use crate::text;
use vstd::prelude::*;

verus! {

/// The largest body in bytes that is parsed.
pub const MAX_BODY_BYTES: usize = 10_485_760;

/// Raw result entry from SearXNG's JSON API.
#[derive(Debug)]
pub struct SearxngResult {
    /// The URL.
    pub url: String,
    /// The title.
    pub title: String,
    /// The snippet.
    pub content: String,
    /// The score, if the instance gives one.
    pub score: Option<Double>,
    /// The publication date, if the instance gives one.
    pub published_date: Option<String>,
}

/// SearXNG search provider that connects to a self-hosted external instance.
///
/// The `base_url` field must point to the SearXNG instance root (e.g.,
/// `https://search.example.com`). Search requests are sent to
/// `{base_url}/search?q=...&format=json`. No API key is needed since the instance is
/// self-hosted.
#[derive(Debug)]
pub struct SearxngProvider {
    /// Whether a base URL is configured.
    pub available: bool,
    /// Base URL of the SearXNG instance (e.g., `https://search.example.com`).
    pub base_url: String,
}

/// Whether a byte stands for itself in a URL: a letter, a digit, or one of `-._~`.
pub open spec fn is_unreserved(b: u8) -> bool {
    ||| 65 <= b <= 90
    ||| 97 <= b <= 122
    ||| 48 <= b <= 57
    ||| b == 45
    ||| b == 95
    ||| b == 46
    ||| b == 126
}

/// The uppercase hexadecimal digit of a number below 16.
pub open spec fn upper_hex(n: int) -> char {
    if n < 10 {
        (48 + n) as char
    } else {
        (55 + n) as char
    }
}

/// The bytes as they stand in a query parameter: unreserved ones as they are, every
/// other one as a percent sign and two hexadecimal digits.
pub open spec fn percent_encoded(bytes: Seq<u8>) -> Seq<char>
    decreases bytes.len(),
{
    if bytes.len() == 0 {
        Seq::empty()
    } else {
        let b = bytes.last();
        percent_encoded(bytes.drop_last()) + if is_unreserved(b) {
            seq![b as char]
        } else {
            seq!['%', upper_hex(b as int / 16), upper_hex(b as int % 16)]
        }
    }
}

/// A text as it stands in a query parameter.
pub open spec fn encoded(s: Seq<char>) -> Seq<char> {
    percent_encoded(vstd::utf8::encode_utf8(s))
}

/// The word for a freshness filter.
pub open spec fn time_range(freshness: Freshness) -> Seq<char> {
    match freshness {
        Freshness::Day => "day"@,
        Freshness::Week => "week"@,
        Freshness::Month => "month"@,
        Freshness::Year => "year"@,
    }
}

/// The URL of a search.
pub open spec fn search_url(base_url: Seq<char>, request: SearchRequest) -> Seq<char> {
    base_url + "/search?q="@ + encoded(request.query@) + "&format=json"@ + (match request.language {
        Some(lang) => "&language="@ + encoded(lang@),
        None => Seq::empty(),
    }) + (if request.safe_search {
        "&safesearch=2"@
    } else {
        Seq::empty()
    }) + (match request.freshness {
        Some(f) => "&time_range="@ + time_range(f),
        None => Seq::empty(),
    })
}

fn hex_char(n: u8) -> (c: char)
    requires
        n < 16,
    ensures
        c == upper_hex(n as int),
{
    if n < 10 {
        (48 + n) as char
    } else {
        (55 + n) as char
    }
}

/// Percent-encode a string for a URL query parameter value.
///
/// Encodes characters that are not unreserved per RFC 3986: space, quotes,
/// angle brackets, and other special characters that could break query strings.
pub fn urlencoding(input: &str) -> (r: String)
    ensures
        r@ == encoded(input@),
{
    let bytes = input.as_bytes();
    let mut result = String::new();
    let mut i: usize = 0;
    assert(bytes@.take(0) =~= Seq::empty());
    while i < bytes.len()
        invariant
            i <= bytes.len(),
            result@ == percent_encoded(bytes@.take(i as int)),
        decreases bytes.len() - i,
    {
        let b: u8 = bytes[i];
        let ghost prior = result@;
        proof {
            assert(bytes@.take(i + 1).drop_last() =~= bytes@.take(i as int));
            assert(bytes@.take(i + 1).last() == b);
        }
        if (b >= 65 && b <= 90) || (b >= 97 && b <= 122) || (b >= 48 && b <= 57) || b == 45 || b
            == 95 || b == 46 || b == 126 {
            result.push(b as char);
            assert(result@ =~= prior + seq![b as char]);
        } else {
            result.push('%');
            result.push(hex_char(b / 16));
            result.push(hex_char(b % 16));
            assert(result@ =~= prior + seq![
                '%',
                upper_hex(b as int / 16),
                upper_hex(b as int % 16),
            ]);
        }
        i = i + 1;
    }
    assert(bytes@.take(bytes@.len() as int) =~= bytes@);
    result
}

/// The result that an entry at position `i` stands for. The score is the instance's
/// own, or goes by position.
pub open spec fn entry_view(entry: SearxngResult, i: int) -> answer::ResultView {
    answer::ResultView {
        title: entry.title@,
        url: entry.url@,
        snippet: entry.content@,
        published_date: answer::option_view(entry.published_date),
        provider_name: "searxng"@,
        score: match entry.score {
            Some(score) => score.pattern(),
            None => answer::position_score(i),
        },
    }
}

/// Whether an error is what a failure to decode an answer amounts to.
pub open spec fn is_decode_error(decoded: Result<Vec<SearxngResult>, String>, error: ProviderError) -> bool {
    decoded is Err && (error matches ProviderError::ParseError(msg) && msg@
        == "failed to parse SearXNG JSON response: "@ + decoded->Err_0@)
}

impl SearxngProvider {
    /// Create a new `SearxngProvider`.
    ///
    /// The provider is only available when `base_url` is `Some`.
    pub fn new(base_url: Option<String>) -> (r: Self)
        ensures
            r.available == (base_url is Some),
            r.base_url@ == answer::or_empty(answer::option_view(base_url)),
    {
        match base_url {
            Some(url) => SearxngProvider { available: true, base_url: url },
            None => SearxngProvider { available: false, base_url: String::new() },
        }
    }

    /// The provider's name.
    pub fn name(&self) -> (r: &'static str)
        ensures
            r@ == "searxng"@,
    {
        "searxng"
    }

    /// The provider's tags.
    pub fn tags(&self) -> (r: Vec<Tag>)
        ensures
            r@ == seq![Tag::Web, Tag::Privacy],
    {
        let mut tags: Vec<Tag> = Vec::new();
        tags.push(Tag::Web);
        tags.push(Tag::Privacy);
        assert(tags@ =~= seq![Tag::Web, Tag::Privacy]);
        tags
    }

    /// The provider's description.
    pub fn description(&self) -> (r: &'static str)
        ensures
            r@ == "SearXNG self-hosted metasearch engine (JSON API, no API key required)"@,
    {
        "SearXNG self-hosted metasearch engine (JSON API, no API key required)"
    }

    /// Whether a base URL is configured.
    pub fn is_available(&self) -> (r: bool)
        ensures
            r == self.available,
    {
        self.available
    }

    /// Build the search URL with query parameters.
    pub fn build_search_url(&self, request: &SearchRequest) -> (r: String)
        ensures
            r@ == search_url(self.base_url@, *request),
    {
        let mut url = self.base_url.clone();
        url.push_str("/search?q=");
        url.push_str(urlencoding(request.query.as_str()).as_str());
        url.push_str("&format=json");
        let ghost u0 = url@;
        if let Some(lang) = &request.language {
            url.push_str("&language=");
            url.push_str(urlencoding(lang.as_str()).as_str());
            assert(url@ =~= u0 + ("&language="@ + encoded(lang@)));
        } else {
            assert(url@ =~= u0 + Seq::empty());
        }
        let ghost u1 = url@;
        if request.safe_search {
            // SearXNG: safesearch=2 (strict), 1 (moderate), 0 (off)
            url.push_str("&safesearch=2");
        } else {
            assert(url@ =~= u1 + Seq::empty());
        }
        let ghost u2 = url@;
        if let Some(freshness) = &request.freshness {
            let word = match freshness {
                Freshness::Day => "day",
                Freshness::Week => "week",
                Freshness::Month => "month",
                Freshness::Year => "year",
            };
            url.push_str("&time_range=");
            url.push_str(word);
            assert(url@ =~= u2 + ("&time_range="@ + time_range(*freshness)));
        } else {
            assert(url@ =~= u2 + Seq::empty());
        }
        url
    }

    /// The HTTP request of a search.
    pub fn prepare(&self, request: &SearchRequest) -> (r: HttpRequest)
        ensures
            r@ == (HttpView {
                post: false,
                url: search_url(self.base_url@, *request),
                headers: Seq::empty(),
                params: Seq::empty(),
                body: None,
            }),
    {
        let headers: Vec<(String, String)> = Vec::new();
        let params: Vec<(String, String)> = Vec::new();
        assert(answer::pair_views(headers@) =~= Seq::empty());
        assert(answer::pair_views(params@) =~= Seq::empty());
        HttpRequest { post: false, url: self.build_search_url(request), headers, params, body: None }
    }

    /// Whether a body is small enough to be parsed.
    pub fn check_body_size(bytes: usize) -> (r: Result<(), ProviderError>)
        ensures
            match r {
                Ok(_) => bytes <= MAX_BODY_BYTES,
                Err(e) => bytes > MAX_BODY_BYTES && (e matches ProviderError::ParseError(msg)
                    && msg@ == "response body too large"@),
            },
    {
        if bytes > MAX_BODY_BYTES {
            Err(ProviderError::ParseError("response body too large".to_owned()))
        } else {
            Ok(())
        }
    }

    /// The SearXNG JSON API response as canonical [`SearchResult`] entries, given what
    /// the JSON decoder makes of the body: its `results`, or the decoder's error.
    pub fn parse_results(decoded: Result<Vec<SearxngResult>, String>) -> (r: Result<
        Vec<SearchResult>,
        ProviderError,
    >)
        ensures
            match r {
                Ok(results) => decoded is Ok && answer::result_views(results@) == Seq::new(
                    decoded->Ok_0@.len(),
                    |i: int| entry_view(decoded->Ok_0@[i], i),
                ),
                Err(e) => is_decode_error(decoded, e),
            },
    {
        match decoded {
            Ok(entries) => Ok(map_entries(entries)),
            Err(e) => Err(
                ProviderError::ParseError(
                    text::concat("failed to parse SearXNG JSON response: ", e.as_str()),
                ),
            ),
        }
    }

    /// What an answer to a search amounts to, once its body was read and decoded.
    pub fn receive(
        &self,
        request: &SearchRequest,
        decoded: Result<Vec<SearxngResult>, String>,
        elapsed_ms: u64,
    ) -> (r: Result<SearchResponse, ProviderError>)
        ensures
            match r {
                Ok(response) => answer::is_response_of(
                    response,
                    *request,
                    "searxng"@,
                    response.results@,
                    elapsed_ms,
                ) && decoded is Ok && answer::result_views(response.results@) == Seq::new(
                    decoded->Ok_0@.len(),
                    |i: int| entry_view(decoded->Ok_0@[i], i),
                ),
                Err(e) => is_decode_error(decoded, e),
            },
    {
        match Self::parse_results(decoded) {
            Ok(results) => Ok(answer::response_of(request, "searxng", results, elapsed_ms)),
            Err(e) => Err(e),
        }
    }

    /// What the status of an answer amounts to.
    pub fn check_status(status: u16, reason: Option<&str>) -> (r: Result<(), ProviderError>)
        ensures
            match r {
                Ok(_) => answer::is_success(status),
                Err(e) => !answer::is_success(status) && answer::is_status_error(
                    (StatusPolicy { unauthorized_is_denied: false, reads_retry_after: false }),
                    status,
                    match reason {
                        Some(words) => Some(words@),
                        None => None,
                    },
                    None,
                    e,
                ),
            },
    {
        let policy = StatusPolicy { unauthorized_is_denied: false, reads_retry_after: false };
        answer::check_status(&policy, status, reason, None)
    }
}

fn map_entries(entries: Vec<SearxngResult>) -> (r: Vec<SearchResult>)
    ensures
        answer::result_views(r@) == Seq::new(
            entries@.len(),
            |i: int| entry_view(entries@[i], i),
        ),
{
    let ghost all = entries@;
    let n: usize = entries.len();
    let mut results: Vec<SearchResult> = Vec::new();
    let mut i: usize = 0;
    for entry in it: entries
        invariant
            it.seq() == all,
            n == all.len(),
            i == it.index(),
            answer::result_views(results@) =~= Seq::new(i as nat, |k: int| entry_view(all[k], k)),
    {
        assert(i < n);
        let rank_score = match entry.score {
            Some(score) => score,
            None => answer::score_at(i),
        };
        let result = SearchResult {
            title: entry.title,
            url: entry.url,
            snippet: entry.content,
            published_date: entry.published_date,
            provider_name: "searxng".to_owned(),
            rank_score,
        };
        proof {
            answer::lemma_push_result(results@, result);
            assert(answer::result_view(result) == entry_view(all[i as int], i as int));
        }
        results.push(result);
        i = i + 1;
    }
    results
}

/// An encoded text cannot break out of the parameter it stands in: it consists of
/// unreserved characters and percent signs, so it holds no `&`, `=`, `#` or space.
pub proof fn encoded_text_stays_in_its_parameter(s: Seq<char>)
    ensures
        forall|i: int|
            0 <= i < encoded(s).len() ==> {
                let c = #[trigger] encoded(s)[i];
                ('A' <= c <= 'Z' || 'a' <= c <= 'z' || '0' <= c <= '9' || c == '-' || c == '_' || c
                    == '.' || c == '~' || c == '%') && c != '&' && c != '=' && c != '#' && c != ' '
            },
{
    lemma_percent_encoded_chars(vstd::utf8::encode_utf8(s));
}

proof fn lemma_percent_encoded_chars(bytes: Seq<u8>)
    ensures
        forall|i: int|
            0 <= i < percent_encoded(bytes).len() ==> {
                let c = #[trigger] percent_encoded(bytes)[i];
                'A' <= c <= 'Z' || 'a' <= c <= 'z' || '0' <= c <= '9' || c == '-' || c == '_' || c
                    == '.' || c == '~' || c == '%'
            },
    decreases bytes.len(),
{
    if bytes.len() > 0 {
        lemma_percent_encoded_chars(bytes.drop_last());
        let init = percent_encoded(bytes.drop_last());
        let b = bytes.last();
        let piece = if is_unreserved(b) {
            seq![b as char]
        } else {
            seq!['%', upper_hex(b as int / 16), upper_hex(b as int % 16)]
        };
        assert(percent_encoded(bytes) == init + piece);
        assert forall|i: int| 0 <= i < percent_encoded(bytes).len() implies ({
            let c = #[trigger] percent_encoded(bytes)[i];
            'A' <= c <= 'Z' || 'a' <= c <= 'z' || '0' <= c <= '9' || c == '-' || c == '_' || c
                == '.' || c == '~' || c == '%'
        }) by {
            if i < init.len() {
                assert(percent_encoded(bytes)[i] == init[i]);
            } else {
                assert(percent_encoded(bytes)[i] == piece[i - init.len()]);
            }
        }
    }
}

/// Texts are encoded byte by byte: letters, digits and the four marks stay, every other byte
/// becomes a percent sign and its two hexadecimal digits, and the encodings follow one another.
pub proof fn bytes_are_encoded_one_by_one(a: Seq<u8>, b: u8)
    ensures
        ({
            let shown = 'A' <= b as char <= 'Z' || 'a' <= b as char <= 'z' || '0' <= b as char <= '9'
                || b as char == '-' || b as char == '_' || b as char == '.' || b as char == '~';
            let now = percent_encoded(a.push(b));
            let before = percent_encoded(a);
            &&& before.is_prefix_of(now)
            &&& shown ==> now.len() == before.len() + 1 && now.last() == b as char
            &&& !shown ==> now.len() == before.len() + 3 && now[before.len() as int] == '%'
                && read_hex(now[before.len() as int + 1]) * 16 + read_hex(now[before.len() as int + 2]) == b
        }),
{
    let now = percent_encoded(a.push(b));
    let before = percent_encoded(a);
    assert(a.push(b).drop_last() =~= a);
    assert(before =~= now.subrange(0, before.len() as int));
    lemma_read_hex(b as int / 16);
    lemma_read_hex(b as int % 16);
}

/// The number that an uppercase hexadecimal digit stands for.
pub open spec fn read_hex(c: char) -> int {
    if c <= '9' {
        c as u32 - '0' as u32
    } else {
        c as u32 - 'A' as u32 + 10
    }
}

proof fn lemma_read_hex(n: int)
    requires
        0 <= n < 16,
    ensures
        read_hex(upper_hex(n)) == n,
{
}

/// The URL of a search asks for the query, in JSON; for the language where the request has one;
/// for a safe search where it wants one; and for the time range of its freshness filter.
pub proof fn the_url_says_what_the_request_says(base_url: Seq<char>, request: SearchRequest) -> (r: (
    Seq<char>,
    Seq<char>,
    Seq<char>,
))
    ensures
        search_url(base_url, request) == base_url + "/search?q="@ + encoded(request.query@)
            + "&format=json"@ + r.0 + r.1 + r.2,
        request.language is None ==> r.0.len() == 0,
        request.language matches Some(lang) ==> r.0 == "&language="@ + encoded(lang@),
        !request.safe_search ==> r.1.len() == 0,
        request.safe_search ==> r.1 == "&safesearch=2"@,
        request.freshness is None ==> r.2.len() == 0,
        request.freshness == Some(Freshness::Day) ==> r.2 == "&time_range="@ + "day"@,
        request.freshness == Some(Freshness::Week) ==> r.2 == "&time_range="@ + "week"@,
        request.freshness == Some(Freshness::Month) ==> r.2 == "&time_range="@ + "month"@,
        request.freshness == Some(Freshness::Year) ==> r.2 == "&time_range="@ + "year"@,
{
    (
        match request.language {
            Some(lang) => "&language="@ + encoded(lang@),
            None => Seq::empty(),
        },
        if request.safe_search {
            "&safesearch=2"@
        } else {
            Seq::empty()
        },
        match request.freshness {
            Some(f) => "&time_range="@ + time_range(f),
            None => Seq::empty(),
        },
    )
}

/// Each entry becomes the result in its place, with its own title, URL, content and date, and
/// its own score or, where it has none, that of its place.
pub proof fn entries_become_results(
    entries: Seq<SearxngResult>,
    results: Seq<SearchResult>,
    i: int,
)
    requires
        answer::result_views(results) == Seq::new(
            entries.len(),
            |i: int| entry_view(entries[i], i),
        ),
        0 <= i < entries.len(),
    ensures
        results.len() == entries.len(),
        results[i].title@ == entries[i].title@,
        results[i].url@ == entries[i].url@,
        results[i].snippet@ == entries[i].content@,
        results[i].provider_name@ == "searxng"@,
        entries[i].score matches Some(score) ==> results[i].rank_score.pattern() == score.pattern(),
        entries[i].score is None ==> results[i].rank_score.pattern() == answer::position_score(i),
        entries[i].published_date is None <==> results[i].published_date is None,
        entries[i].published_date is Some ==> results[i].published_date->0@
            == entries[i].published_date->0@,
{
    let views = answer::result_views(results);
    assert(views.len() == results.len());
    assert(views[i] == answer::result_view(results[i]));
    assert(views[i] == entry_view(entries[i], i));
}

} // verus!
