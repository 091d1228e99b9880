//! The tools of the MCP server: which searches they accept, and what they answer.

use crate::cache::entries::CacheStats;
use crate::client::ToolError;
use crate::daemon::protocol::{ProviderInfo, Response};
use crate::search::request::{Freshness, SearchRequest, SearchResponse, random_id};
use crate::text;
use vstd::prelude::*;

verus! {

/// Parameters for the `search` tool.
#[derive(Debug)]
pub struct SearchParams {
    /// The search query string (required).
    pub query: String,
    /// Maximum number of results to return (default 10, max 100).
    pub limit: usize,
    /// Specific provider names to use. Empty means auto-tier dispatch.
    pub providers: Vec<String>,
    /// ISO 639-1 language code (e.g., "en", "fr").
    pub language: Option<String>,
    /// ISO 3166-1 alpha-2 country code (e.g., "us", "gb").
    pub country: Option<String>,
    /// Whether to enable safe search filtering (default true).
    pub safe_search: bool,
    /// Time-based freshness filter: "Day", "Week", "Month", or "Year".
    pub freshness: Option<String>,
    /// Dispatch mode override: "concurrent" or "tiered". None uses config default.
    pub dispatch_mode: Option<String>,
}

/// The limit of a search that sets none.
pub fn default_limit() -> (r: usize)
    ensures
        r == 10,
{
    10
}

/// Whether a search that does not say so is a safe search.
pub fn default_safe_search() -> (r: bool)
    ensures
        r,
{
    true
}

/// The freshness filter that a word stands for.
pub open spec fn freshness_of(word: Seq<char>) -> Option<Freshness> {
    if word == "Day"@ {
        Some(Freshness::Day)
    } else if word == "Week"@ {
        Some(Freshness::Week)
    } else if word == "Month"@ {
        Some(Freshness::Month)
    } else if word == "Year"@ {
        Some(Freshness::Year)
    } else {
        None
    }
}

/// What is wrong with the parameters of a search: the first of an empty query, an unknown
/// freshness filter, an unknown dispatch mode and a limit that is not between 1 and 100.
pub open spec fn params_error(params: SearchParams) -> Option<Seq<char>> {
    if text::trimmed(params.query@).len() == 0 {
        Some("Query must not be empty"@)
    } else if params.freshness is Some && freshness_of(params.freshness->0@) is None {
        Some(
            "Invalid freshness value '"@ + params.freshness->0@
                + "'. Must be one of: Day, Week, Month, Year"@,
        )
    } else if params.dispatch_mode is Some && params.dispatch_mode->0@ != "concurrent"@
        && params.dispatch_mode->0@ != "tiered"@ {
        Some(
            "Invalid dispatch_mode '"@ + params.dispatch_mode->0@
                + "'. Must be 'concurrent' or 'tiered'"@,
        )
    } else if params.limit == 0 || params.limit > 100 {
        Some("limit must be between 1 and 100, got "@ + text::decimal(params.limit as nat))
    } else {
        None
    }
}

/// The freshness filter that a word stands for.
pub fn parse_freshness(word: &str) -> (r: Option<Freshness>)
    ensures
        r == freshness_of(word@),
{
    if text::same(word, "Day") {
        Some(Freshness::Day)
    } else if text::same(word, "Week") {
        Some(Freshness::Week)
    } else if text::same(word, "Month") {
        Some(Freshness::Month)
    } else if text::same(word, "Year") {
        Some(Freshness::Year)
    } else {
        None
    }
}

fn invalid_params(message: String) -> (r: ToolError)
    ensures
        r.code == -32602,
        r.message == message,
{
    ToolError { code: -32602, message }
}

/// Whether a request asks for what the parameters of the `search` tool say.
pub open spec fn asks_for(request: SearchRequest, params: SearchParams) -> bool {
    &&& request.query == params.query
    &&& request.limit == params.limit
    &&& request.providers == params.providers
    &&& request.language == params.language
    &&& request.country == params.country
    &&& request.safe_search == params.safe_search
    &&& request.freshness == (match params.freshness {
        Some(word) => freshness_of(word@),
        None => None,
    })
    &&& request.dispatch_mode == params.dispatch_mode
}

/// The request that the parameters of the `search` tool stand for, with the given
/// identifier; an error where they are not valid.
pub fn search_request(params: SearchParams, request_id: String) -> (r: Result<
    SearchRequest,
    ToolError,
>)
    ensures
        match r {
            Ok(request) => params_error(params) is None && request.request_id == request_id
                && asks_for(request, params)
                && request.query == params.query && request.limit == params.limit
                && request.providers == params.providers && request.language == params.language
                && request.country == params.country && request.safe_search == params.safe_search
                && request.dispatch_mode == params.dispatch_mode && (request.freshness is None
                <==> params.freshness is None),
            Err(e) => e.code == -32602 && params_error(params) == Some(e.message@),
        },
{
    let trimmed = text::trim(params.query.as_str());
    if trimmed.as_str().is_empty() {
        return Err(invalid_params("Query must not be empty".to_owned()));
    }
    let freshness = match &params.freshness {
        None => None,
        Some(word) => match parse_freshness(word.as_str()) {
            Some(f) => Some(f),
            None => {
                return Err(
                    invalid_params(
                        text::concat3(
                            "Invalid freshness value '",
                            word.as_str(),
                            "'. Must be one of: Day, Week, Month, Year",
                        ),
                    ),
                );
            },
        },
    };
    if let Some(mode) = &params.dispatch_mode {
        if !text::same(mode.as_str(), "concurrent") && !text::same(mode.as_str(), "tiered") {
            return Err(
                invalid_params(
                    text::concat3(
                        "Invalid dispatch_mode '",
                        mode.as_str(),
                        "'. Must be 'concurrent' or 'tiered'",
                    ),
                ),
            );
        }
    }
    if params.limit == 0 || params.limit > 100 {
        return Err(
            invalid_params(
                text::concat(
                    "limit must be between 1 and 100, got ",
                    text::decimal_of(params.limit as u64).as_str(),
                ),
            ),
        );
    }
    Ok(
        SearchRequest {
            request_id,
            query: params.query,
            limit: params.limit,
            providers: params.providers,
            language: params.language,
            country: params.country,
            safe_search: params.safe_search,
            freshness,
            dispatch_mode: params.dispatch_mode,
        },
    )
}

/// The request that the parameters of the `search` tool stand for, with an identifier drawn
/// at random; an error where they are not valid.
pub fn new_search_request(params: SearchParams) -> (r: Result<SearchRequest, ToolError>)
    ensures
        match r {
            Ok(request) => params_error(params) is None && crate::search::request::is_request_id(
                request.request_id@,
            ) && asks_for(request, params)
                && request.query == params.query && request.limit == params.limit
                && request.providers == params.providers && request.language == params.language
                && request.country == params.country && request.safe_search == params.safe_search
                && request.dispatch_mode == params.dispatch_mode && (request.freshness is None
                <==> params.freshness is None),
            Err(e) => e.code == -32602 && params_error(params) == Some(e.message@),
        },
{
    search_request(params, random_id())
}

/// Map a daemon-level error code to the appropriate MCP error code.
///
/// - `-32602` (invalid params) passes through unchanged.
/// - `-32601` (not implemented) downgrades to `-32000` (daemon issue).
/// - All other daemon codes (e.g., `-32002` "no providers available") pass through.
pub fn map_daemon_error(code: i32) -> (r: i32)
    ensures
        r == (if code == -32601 {
            -32000
        } else {
            code as int
        }),
{
    if code == -32601 {
        -32000
    } else {
        code
    }
}

/// Sanitize a daemon error message before forwarding to the MCP client.
///
/// Returns a generic message whatever the daemon says, so internal details (paths,
/// provider config, partial stack traces) are not exposed to the MCP client or the LLM it
/// serves.
pub fn sanitize_daemon_error(raw_message: &str) -> (r: String)
    ensures
        r@ == "An internal daemon error occurred"@,
{
    let _ = raw_message;
    "An internal daemon error occurred".to_owned()
}

fn daemon_error(code: i32, message: &str) -> (r: ToolError)
    ensures
        r.code == (if code == -32601 {
            -32000
        } else {
            code as int
        }),
        r.message@ == "An internal daemon error occurred"@,
{
    ToolError { code: map_daemon_error(code), message: sanitize_daemon_error(message) }
}

/// Whether a tool answers a response that it does not expect with the given error: that of
/// the daemon without its details, or that the response is of the wrong type.
pub open spec fn is_refusal(
    response: Response,
    tool: Seq<char>,
    described: Seq<char>,
    e: ToolError,
) -> bool {
    match response {
        Response::Error { code, message } => e.code == (if code == -32601 {
            -32000
        } else {
            code as int
        }) && e.message@ == "An internal daemon error occurred"@,
        _ => e.code == -32000 && e.message@ == "Unexpected daemon response type for "@ + tool
            + ": "@ + described,
    }
}

fn refusal(response: &Response, tool: &str, described: &str) -> (r: ToolError)
    ensures
        is_refusal(*response, tool@, described@, r),
{
    match response {
        Response::Error { code, message } => daemon_error(*code, message.as_str()),
        _ => {
            let start = text::concat3("Unexpected daemon response type for ", tool, ": ");
            ToolError { code: -32000, message: text::concat(start.as_str(), described) }
        },
    }
}

/// What the `search` tool makes of the daemon's response; `described` is how the response
/// is shown where it is of the wrong type.
pub fn search_answer(response: Response, described: &str) -> (r: Result<SearchResponse, ToolError>)
    ensures
        match r {
            Ok(found) => response == Response::SearchResult(found),
            Err(e) => !(response is SearchResult) && is_refusal(
                response,
                "search"@,
                described@,
                e,
            ),
        },
{
    match response {
        Response::SearchResult(found) => Ok(found),
        other => Err(refusal(&other, "search", described)),
    }
}

/// What the `list_providers` tool makes of the daemon's response.
pub fn list_providers_answer(response: Response, described: &str) -> (r: Result<
    Vec<ProviderInfo>,
    ToolError,
>)
    ensures
        match r {
            Ok(listed) => response == (Response::ProviderList { listed }),
            Err(e) => !(response is ProviderList) && is_refusal(
                response,
                "list_providers"@,
                described@,
                e,
            ),
        },
{
    match response {
        Response::ProviderList { listed } => Ok(listed),
        other => Err(refusal(&other, "list_providers", described)),
    }
}

/// What the `cache_stats` tool makes of the daemon's response.
pub fn cache_stats_answer(response: Response, described: &str) -> (r: Result<CacheStats, ToolError>)
    ensures
        match r {
            Ok(stats) => response == Response::CacheStats(stats),
            Err(e) => !(response is CacheStats) && is_refusal(
                response,
                "cache_stats"@,
                described@,
                e,
            ),
        },
{
    match response {
        Response::CacheStats(stats) => Ok(stats),
        other => Err(refusal(&other, "cache_stats", described)),
    }
}

/// Nothing that the daemon says in an error reaches the MCP client: two errors of one code
/// are answered alike.
pub proof fn daemon_errors_leak_nothing(
    code: i32,
    a: String,
    b: String,
    tool: Seq<char>,
    described: Seq<char>,
    e: ToolError,
)
    ensures
        is_refusal(Response::Error { code, message: a }, tool, described, e) <==> is_refusal(
            Response::Error { code, message: b },
            tool,
            described,
            e,
        ),
{
}

/// A request asks for what the parameters say, field by field: the query, the limit, the
/// providers, the language, the country, the safe search and the dispatch mode are theirs, and
/// the freshness filter is the one that their word names.
pub proof fn requests_say_what_the_parameters_say(request: SearchRequest, params: SearchParams)
    requires
        params_error(params) is None,
        asks_for(request, params),
    ensures
        request.query == params.query,
        request.limit == params.limit,
        request.providers == params.providers,
        request.language == params.language,
        request.country == params.country,
        request.safe_search == params.safe_search,
        request.dispatch_mode == params.dispatch_mode,
        params.freshness is None <==> request.freshness is None,
        params.freshness is Some ==> {
            &&& params.freshness->0@ == "Day"@ <==> request.freshness == Some(Freshness::Day)
            &&& params.freshness->0@ == "Week"@ <==> request.freshness == Some(Freshness::Week)
            &&& params.freshness->0@ == "Month"@ <==> request.freshness == Some(Freshness::Month)
            &&& params.freshness->0@ == "Year"@ <==> request.freshness == Some(Freshness::Year)
        },
{
    lemma_freshness_words();
}

/// The words for freshness filters are four.
proof fn lemma_freshness_words()
    ensures
        "Day"@ != "Week"@,
        "Day"@ != "Month"@,
        "Day"@ != "Year"@,
        "Week"@ != "Month"@,
        "Week"@ != "Year"@,
        "Month"@ != "Year"@,
{
    reveal_strlit("Day");
    reveal_strlit("Week");
    reveal_strlit("Month");
    reveal_strlit("Year");
    assert("Day"@.len() == 3 && "Month"@.len() == 5);
    assert("Week"@[0] == 'W' && "Year"@[0] == 'Y');
}

/// A search is accepted exactly where its query is not blank, its freshness filter and its
/// dispatch mode are known words where they are given, and its limit is between 1 and 100.
pub proof fn exactly_valid_searches_are_accepted(params: SearchParams)
    ensures
        params_error(params) is None <==> {
            &&& exists|i: int| 0 <= i < params.query@.len() && !text::is_white(#[trigger] params.query@[i])
            &&& params.freshness is Some ==> (params.freshness->0@ == "Day"@
                || params.freshness->0@ == "Week"@ || params.freshness->0@ == "Month"@
                || params.freshness->0@ == "Year"@)
            &&& params.dispatch_mode is Some ==> (params.dispatch_mode->0@ == "concurrent"@
                || params.dispatch_mode->0@ == "tiered"@)
            &&& 1 <= params.limit <= 100
        },
{
    text::trimming_takes_the_white_at_the_ends(params.query@);
}

/// Each error says what is wrong: a blank query goes before an unknown filter, that before an
/// unknown mode, and that before a limit that is out of bounds. What is refused is quoted.
pub proof fn refused_searches_are_told_why(params: SearchParams)
    requires
        params_error(params) is Some,
    ensures
        ({
            let message = params_error(params)->0;
            let blank = forall|i: int|
                0 <= i < params.query@.len() ==> text::is_white(#[trigger] params.query@[i]);
            let stale = params.freshness is Some && params.freshness->0@ != "Day"@
                && params.freshness->0@ != "Week"@ && params.freshness->0@ != "Month"@
                && params.freshness->0@ != "Year"@;
            let lost = params.dispatch_mode is Some && params.dispatch_mode->0@ != "concurrent"@
                && params.dispatch_mode->0@ != "tiered"@;
            &&& blank ==> message == "Query must not be empty"@
            &&& !blank && stale ==> message == "Invalid freshness value '"@ + params.freshness->0@
                + "'. Must be one of: Day, Week, Month, Year"@
            &&& !blank && !stale && lost ==> message == "Invalid dispatch_mode '"@
                + params.dispatch_mode->0@ + "'. Must be 'concurrent' or 'tiered'"@
            &&& !blank && !stale && !lost ==> message == "limit must be between 1 and 100, got "@
                + text::decimal(params.limit as nat) && (params.limit == 0 || params.limit > 100)
        }),
{
    text::trimming_takes_the_white_at_the_ends(params.query@);
}

/// An error of the daemon keeps its code but for the one of methods that are not there, and its
/// message is a fixed one; a response of another kind is shown.
pub proof fn tools_answer_errors_with_errors(
    response: Response,
    tool: Seq<char>,
    described: Seq<char>,
    e: ToolError,
)
    requires
        is_refusal(response, tool, described, e),
    ensures
        response matches Response::Error { code, message } ==> {
            &&& code != -32601 ==> e.code == code
            &&& code == -32601 ==> e.code == -32000
            &&& e.message@ == "An internal daemon error occurred"@
        },
        !(response is Error) ==> e.code == -32000 && e.message@
            == "Unexpected daemon response type for "@ + tool + ": "@ + described,
{
}

} // verus!
