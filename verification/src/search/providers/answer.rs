//! What the answers of all providers have in common.

use crate::double::Double;
use crate::search::provider::ProviderError;
use crate::search::request::{SearchRequest, SearchResponse, SearchResult};
use crate::text;
use vstd::prelude::*;

verus! {

/// A search result by what it holds.
#[verifier::ext_equal]
pub struct ResultView {
    /// The title.
    pub title: Seq<char>,
    /// The URL.
    pub url: Seq<char>,
    /// The snippet.
    pub snippet: Seq<char>,
    /// The publication date.
    pub published_date: Option<Seq<char>>,
    /// The provider.
    pub provider_name: Seq<char>,
    /// The bit pattern of the score.
    pub score: u64,
}

/// The characters of an optional string.
pub open spec fn option_view(s: Option<String>) -> Option<Seq<char>> {
    match s {
        Some(v) => Some(v@),
        None => None,
    }
}

/// What a search result holds.
pub open spec fn result_view(r: SearchResult) -> ResultView {
    ResultView {
        title: r.title@,
        url: r.url@,
        snippet: r.snippet@,
        published_date: option_view(r.published_date),
        provider_name: r.provider_name@,
        score: r.rank_score.pattern(),
    }
}

/// What each result of a list holds.
pub open spec fn result_views(results: Seq<SearchResult>) -> Seq<ResultView> {
    results.map_values(|r: SearchResult| result_view(r))
}

/// Those entries that are there, in order.
pub open spec fn present(entries: Seq<Option<ResultView>>) -> Seq<ResultView>
    decreases entries.len(),
{
    if entries.len() == 0 {
        Seq::empty()
    } else {
        match entries.last() {
            Some(v) => present(entries.drop_last()).push(v),
            None => present(entries.drop_last()),
        }
    }
}

/// The bit pattern of the score by position: one divided by the position counted
/// from one.
pub open spec fn position_score(i: int) -> u64 {
    crate::double::reciprocal_bits(crate::double::nearest_double((i + 1) as nat)) as u64
}

/// The score by position.
pub fn score_at(i: usize) -> (r: Double)
    requires
        i < usize::MAX,
    ensures
        r.pattern() == position_score(i as int),
{
    Double::reciprocal(i as u64 + 1)
}

/// A score by position is above zero and at most one, and a later position scores less.
/// From position `2^52` on, neighbours may share a double.
pub proof fn scores_fall_with_the_position(i: usize, j: usize)
    requires
        i < usize::MAX,
    ensures
        0 < crate::double::order_key(position_score(i as int)) <= crate::double::order_key(
            0x3FF0_0000_0000_0000,
        ),
        i < j < 0xF_FFFF_FFFF_FFFF ==> crate::double::order_key(position_score(j as int))
            < crate::double::order_key(position_score(i as int)),
{
    vstd::arithmetic::power2::lemma2_to64();
    vstd::arithmetic::power2::lemma2_to64_rest();
    crate::double::reciprocals_are_shares((i + 1) as nat);
    if i < j < 0xF_FFFF_FFFF_FFFF {
        crate::double::reciprocals_are_shares((j + 1) as nat);
        crate::double::reciprocals_fall((i + 1) as nat, (j + 1) as nat);
    }
}

/// A result put at the end of a list puts what it holds at the end.
pub proof fn lemma_push_result(results: Seq<SearchResult>, r: SearchResult)
    ensures
        result_views(results.push(r)) == result_views(results).push(result_view(r)),
{
    assert(result_views(results.push(r)) =~= result_views(results).push(result_view(r)));
}

/// The optional text, or nothing.
pub open spec fn or_empty(s: Option<Seq<char>>) -> Seq<char> {
    match s {
        Some(v) => v,
        None => Seq::empty(),
    }
}

/// The optional text without whitespace at its ends, or nothing.
pub fn trim_or_empty(s: &Option<String>) -> (r: String)
    ensures
        r@ == text::trimmed(or_empty(option_view(*s))),
{
    match s {
        Some(v) => text::trim(v.as_str()),
        None => {
            assert(text::trimmed(Seq::<char>::empty()) =~= Seq::<char>::empty());
            String::new()
        },
    }
}

/// An HTTP request that a provider wants sent.
#[derive(Debug)]
pub struct HttpRequest {
    /// Whether it is a POST rather than a GET.
    pub post: bool,
    /// The URL without query parameters other than those it holds already.
    pub url: String,
    /// The headers.
    pub headers: Vec<(String, String)>,
    /// The query parameters of a GET, or the form fields of a POST without a body.
    pub params: Vec<(String, String)>,
    /// The body of a POST, where it is no form.
    pub body: Option<String>,
}

/// An HTTP request by what it holds.
#[verifier::ext_equal]
pub struct HttpView {
    /// Whether it is a POST rather than a GET.
    pub post: bool,
    /// The URL.
    pub url: Seq<char>,
    /// The headers.
    pub headers: Seq<(Seq<char>, Seq<char>)>,
    /// The query parameters or form fields.
    pub params: Seq<(Seq<char>, Seq<char>)>,
    /// The body.
    pub body: Option<Seq<char>>,
}

impl View for HttpRequest {
    type V = HttpView;

    open spec fn view(&self) -> HttpView {
        HttpView {
            post: self.post,
            url: self.url@,
            headers: pair_views(self.headers@),
            params: pair_views(self.params@),
            body: option_view(self.body),
        }
    }
}

/// The characters of each pair of strings.
pub open spec fn pair_views(pairs: Seq<(String, String)>) -> Seq<(Seq<char>, Seq<char>)> {
    pairs.map_values(|p: (String, String)| (p.0@, p.1@))
}

/// Puts a pair at the end of a list.
pub fn push_pair(pairs: &mut Vec<(String, String)>, key: &str, value: &str)
    ensures
        pair_views(final(pairs)@) == pair_views(old(pairs)@).push((key@, value@)),
{
    let ghost prior = pairs@;
    pairs.push((key.to_owned(), value.to_owned()));
    assert(pair_views(pairs@) =~= pair_views(prior).push((key@, value@)));
}

/// How a provider says that a caller may not use it, and how long one who asks too
/// often is to wait.
#[derive(Debug, Clone, Copy, PartialEq, Eq, Structural)]
pub struct StatusPolicy {
    /// Whether 401 means access denied, as 403 does.
    pub unauthorized_is_denied: bool,
    /// Whether the `Retry-After` header of a 429 counts.
    pub reads_retry_after: bool,
}

/// Whether an HTTP status stands for an error, and for which.
pub open spec fn is_status_error(
    policy: StatusPolicy,
    status: u16,
    reason: Option<Seq<char>>,
    retry_after: Option<Seq<char>>,
    error: ProviderError,
) -> bool {
    if status == 403 || (status == 401 && policy.unauthorized_is_denied) {
        error == ProviderError::AccessDenied
    } else if status == 429 {
        error matches ProviderError::RateLimited { retry_after: hint } && match hint {
            Some(secs) => policy.reads_retry_after && retry_after is Some && text::parsed_number(
                retry_after->0,
                u64::MAX as nat,
            ) == Some(secs as nat),
            None => !policy.reads_retry_after || retry_after is None || text::parsed_number(
                retry_after->0,
                u64::MAX as nat,
            ) is None,
        }
    } else {
        error matches ProviderError::HttpError { status: s, body } && s == status && body@ == match reason {
            Some(words) => words,
            None => "Unknown"@,
        }
    }
}

/// Whether an HTTP status is one of success.
pub open spec fn is_success(status: u16) -> bool {
    200 <= status < 300
}

/// What an HTTP status amounts to: nothing for a success, else an error.
///
/// * `reason` — the canonical reason phrase of the status, if it has one.
/// * `retry_after` — the value of the `Retry-After` header, if it is a text.
pub fn check_status(
    policy: &StatusPolicy,
    status: u16,
    reason: Option<&str>,
    retry_after: Option<&str>,
) -> (r: Result<(), ProviderError>)
    ensures
        match r {
            Ok(_) => is_success(status),
            Err(e) => !is_success(status) && is_status_error(
                *policy,
                status,
                match reason {
                    Some(words) => Some(words@),
                    None => None,
                },
                match retry_after {
                    Some(value) => Some(value@),
                    None => None,
                },
                e,
            ),
        },
{
    if status == 403 || (status == 401 && policy.unauthorized_is_denied) {
        return Err(ProviderError::AccessDenied);
    }
    if status == 429 {
        let hint = match retry_after {
            Some(value) => if policy.reads_retry_after {
                text::parse_number(value, u64::MAX)
            } else {
                None
            },
            None => None,
        };
        return Err(ProviderError::RateLimited { retry_after: hint });
    }
    if status < 200 || status >= 300 {
        let body = match reason {
            Some(words) => words.to_owned(),
            None => "Unknown".to_owned(),
        };
        return Err(ProviderError::HttpError { status, body });
    }
    Ok(())
}

/// What a request that could not be sent amounts to.
pub fn transport_error(is_timeout: bool, elapsed_secs: u64, message: String) -> (r: ProviderError)
    ensures
        r == (if is_timeout {
            ProviderError::Timeout { elapsed_secs }
        } else {
            ProviderError::Internal(message)
        }),
{
    if is_timeout {
        ProviderError::Timeout { elapsed_secs }
    } else {
        ProviderError::Internal(message)
    }
}

/// Whether a response holds the given results of one provider.
pub open spec fn is_response_of(
    r: SearchResponse,
    request: SearchRequest,
    provider: Seq<char>,
    results: Seq<SearchResult>,
    elapsed_ms: u64,
) -> bool {
    &&& r.request_id@ == request.request_id@
    &&& r.results@ == results
    &&& r.total_found == results.len()
    &&& text::views(r.providers_used@) == seq![provider]
    &&& !r.cache_hit
    &&& r.elapsed_ms == elapsed_ms
}

/// The response of one provider.
pub fn response_of(
    request: &SearchRequest,
    provider: &str,
    results: Vec<SearchResult>,
    elapsed_ms: u64,
) -> (r: SearchResponse)
    ensures
        is_response_of(r, *request, provider@, results@, elapsed_ms),
{
    let total_found: usize = results.len();
    let mut providers_used: Vec<String> = Vec::new();
    providers_used.push(provider.to_owned());
    assert(text::views(providers_used@) =~= seq![provider@]);
    SearchResponse {
        request_id: request.request_id.clone(),
        results,
        total_found,
        providers_used,
        cache_hit: false,
        elapsed_ms,
    }
}

/// Entries that are there stay, in their order, and nothing is added: each that is kept stands
/// behind the one before it, and each entry that is there is kept.
pub proof fn entries_that_are_there_stay_in_order(entries: Seq<Option<ResultView>>)
    ensures
        present(entries) == entries.filter(|e: Option<ResultView>| e is Some).map_values(
            |e: Option<ResultView>| e->0,
        ),
        forall|v: ResultView| #[trigger] present(entries).contains(v) <==> entries.contains(Some(v)),
    decreases entries.len(),
{
    let there = |e: Option<ResultView>| e is Some;
    let value = |e: Option<ResultView>| e->0;
    reveal(Seq::filter);
    if entries.len() > 0 {
        let front = entries.drop_last();
        let last = entries.last();
        let before = present(front);
        let now = present(entries);
        entries_that_are_there_stay_in_order(front);
        if last is Some {
            assert(front.filter(there).push(last).map_values(value) =~= front.filter(
                there,
            ).map_values(value).push(last->0));
        }
        assert forall|v: ResultView| #[trigger] now.contains(v) <==> entries.contains(Some(v)) by {
            if now.contains(v) {
                let k = choose|k: int| 0 <= k < now.len() && now[k] == v;
                if k < before.len() {
                    assert(before[k] == v);
                    assert(before.contains(v));
                    let m = choose|m: int| 0 <= m < front.len() && front[m] == Some(v);
                    assert(entries[m] == Some(v));
                } else {
                    assert(entries[entries.len() - 1] == Some(v));
                }
            }
            if entries.contains(Some(v)) {
                let m = choose|m: int| 0 <= m < entries.len() && entries[m] == Some(v);
                if m < front.len() {
                    assert(front[m] == Some(v));
                    assert(front.contains(Some(v)));
                    assert(before.contains(v));
                    let k = choose|k: int| 0 <= k < before.len() && before[k] == v;
                    assert(now[k] == v);
                } else {
                    assert(now[now.len() - 1] == v);
                }
            }
        }
    } else {
        assert(present(entries) =~= entries.filter(there).map_values(value));
    }
}

/// The score by position is the double nearest to one divided by the position counted from one.
pub proof fn scores_are_reciprocals(i: int)
    requires
        0 <= i < 0x20_0000_0000_0000 - 1,
    ensures
        position_score(i) as int == crate::double::reciprocal_bits((i + 1) as nat),
        position_score(0) == 0x3FF0_0000_0000_0000,
        position_score(1) == 0x3FE0_0000_0000_0000,
        position_score(3) == 0x3FD0_0000_0000_0000,
{
    vstd::arithmetic::power2::lemma2_to64();
    vstd::arithmetic::power2::lemma2_to64_rest();
    crate::double::reciprocals_are_shares((i + 1) as nat);
    reveal_with_fuel(crate::double::magnitude, 4);
    assert(vstd::arithmetic::power2::pow2(53) == 0x20_0000_0000_0000);
    assert(vstd::arithmetic::power2::pow2(54) == 0x40_0000_0000_0000);
    assert(vstd::arithmetic::power2::pow2(55) == 0x80_0000_0000_0000);
}

/// What statuses mean: 403 is a denial, and so is 401 where keys are used; 429 is a rate limit,
/// with the seconds of the header where it counts and is a number; everything else that is no
/// success is an error with its status.
pub proof fn statuses_mean_what_http_says(
    policy: StatusPolicy,
    status: u16,
    reason: Option<Seq<char>>,
    retry_after: Option<Seq<char>>,
    error: ProviderError,
)
    requires
        !is_success(status),
        is_status_error(policy, status, reason, retry_after, error),
    ensures
        status < 200 || status > 299,
        error is AccessDenied <==> status == 403 || (status == 401 && policy.unauthorized_is_denied),
        error is RateLimited <==> status == 429,
        error is HttpError <==> status != 403 && status != 429 && !(status == 401
            && policy.unauthorized_is_denied),
        error matches ProviderError::HttpError { status: s, body } ==> s == status && (
        reason is Some ==> body@ == reason->0) && (reason is None ==> body@ == "Unknown"@),
        error matches ProviderError::RateLimited { retry_after: hint } ==> {
            &&& hint is Some ==> policy.reads_retry_after && retry_after is Some
            &&& !policy.reads_retry_after || retry_after is None ==> hint is None
            &&& policy.reads_retry_after && retry_after is Some ==> forall|secs: u64|
                #![trigger text::decimal(secs as nat)]
                retry_after->0 == text::decimal(secs as nat) ==> hint == Some(secs)
        },
{
    assert forall|secs: u64| #![trigger text::decimal(secs as nat)]
        retry_after is Some && retry_after->0 == text::decimal(
            secs as nat,
        ) implies text::parsed_number(retry_after->0, u64::MAX as nat) == Some(secs as nat) by {
        text::written_numbers_are_read_back(secs as nat, u64::MAX as nat);
    }
}

/// Exactly the statuses from 200 to 299 are successes.
pub proof fn two_hundreds_are_successes(status: u16)
    ensures
        is_success(status) <==> status as int / 100 == 2,
{
}

/// The response of a provider echoes the request, holds the results and counts them, and names
/// that provider alone.
pub proof fn responses_name_their_provider(
    r: SearchResponse,
    request: SearchRequest,
    provider: Seq<char>,
    results: Seq<SearchResult>,
    elapsed_ms: u64,
)
    requires
        is_response_of(r, request, provider, results, elapsed_ms),
    ensures
        r.request_id@ == request.request_id@,
        r.results@ == results,
        r.total_found == r.results@.len(),
        r.providers_used@.len() == 1,
        r.providers_used@[0]@ == provider,
        !r.cache_hit,
        r.elapsed_ms == elapsed_ms,
{
    assert(text::views(r.providers_used@).len() == r.providers_used@.len());
    assert(text::views(r.providers_used@)[0] == r.providers_used@[0]@);
}

} // verus!
