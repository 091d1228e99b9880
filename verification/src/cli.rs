//! The command line: how the program was invoked, and what its commands print.

use crate::cache::entries::CacheStats;
use crate::daemon::protocol::{ProviderHealth, ProviderInfo, Response};
use crate::double;
use crate::search::request::{Freshness, SearchRequest, SearchResponse, SearchResult, random_id};
use crate::text;
use vstd::prelude::*;

verus! {

/// What the program was started as.
#[derive(Debug, Clone, Copy, PartialEq, Eq, Structural)]
pub enum Invocation {
    /// An MCP server on standard input and output.
    McpServer,
    /// The daemon.
    Daemon,
    /// A command.
    Command,
}

/// What the program was started as: an MCP server without arguments, the daemon if the
/// first argument says so, else a command.
pub fn invocation(args: &Vec<String>) -> (r: Invocation)
    ensures
        r == (if args@.len() <= 1 {
            Invocation::McpServer
        } else if args@[1]@ == "--daemon"@ {
            Invocation::Daemon
        } else {
            Invocation::Command
        }),
{
    if args.len() <= 1 {
        Invocation::McpServer
    } else if text::same(args[1].as_str(), "--daemon") {
        Invocation::Daemon
    } else {
        Invocation::Command
    }
}

/// Whether argument `i` is a configuration flag with a value behind it.
pub open spec fn is_config_flag(args: Seq<String>, i: int) -> bool {
    0 <= i && i + 1 < args.len() && (args[i]@ == "--config"@ || args[i]@ == "-c"@)
}

/// Extract the value of `--config <path>` or `-c <path>` from raw args: that of the first
/// such flag.
///
/// Returns `None` if no config flag is present. This is used before the arguments are
/// parsed in daemon mode, so the config path can be used again when the configuration is
/// reloaded.
pub fn extract_config_arg(args: &[String]) -> (r: Option<String>)
    ensures
        match r {
            Some(path) => exists|i: int| #[trigger]
                is_config_flag(args@, i) && path == args@[i + 1] && forall|j: int|
                    0 <= j < i ==> !is_config_flag(args@, j),
            None => forall|i: int| !is_config_flag(args@, i),
        },
{
    let n: usize = args.len();
    let mut i: usize = 0;
    while i < n
        invariant
            i <= n,
            n == args@.len(),
            forall|j: int| 0 <= j < i ==> !is_config_flag(args@, j),
        decreases n - i,
    {
        if (text::same(args[i].as_str(), "--config") || text::same(args[i].as_str(), "-c")) && i + 1
            < n {
            assert(is_config_flag(args@, i as int));
            return Some(args[i + 1].clone());
        }
        i = i + 1;
    }
    None
}

/// The exit code for an error: 2 where the daemon cannot be reached, else 1.
pub fn exit_code(message: &str) -> (r: i32)
    ensures
        r == (if text::has_substring(message@, "daemon not running"@) {
            2int
        } else {
            1int
        }),
{
    if text::contains_str(message, "daemon not running") {
        2
    } else {
        1
    }
}

/// Freshness filter of the command line.
#[derive(Debug, Clone, Copy, PartialEq, Eq, Structural)]
pub enum FreshnessCli {
    /// Results from the past 24 hours.
    Day,
    /// Results from the past 7 days.
    Week,
    /// Results from the past 30 days.
    Month,
    /// Results from the past 365 days.
    Year,
}

impl From<FreshnessCli> for Freshness {
    fn from(f: FreshnessCli) -> (r: Self) {
        match f {
            FreshnessCli::Day => Freshness::Day,
            FreshnessCli::Week => Freshness::Week,
            FreshnessCli::Month => Freshness::Month,
            FreshnessCli::Year => Freshness::Year,
        }
    }
}

impl vstd::std_specs::convert::FromSpecImpl<FreshnessCli> for Freshness {
    open spec fn obeys_from_spec() -> bool {
        true
    }

    open spec fn from_spec(f: FreshnessCli) -> Self {
        match f {
            FreshnessCli::Day => Freshness::Day,
            FreshnessCli::Week => Freshness::Week,
            FreshnessCli::Month => Freshness::Month,
            FreshnessCli::Year => Freshness::Year,
        }
    }
}

/// Dispatch mode of the command line.
#[derive(Debug, Clone, Copy, PartialEq, Eq, Structural)]
pub enum DispatchModeCli {
    /// Fire all non-Playwright providers at once, wait for completion, merge results.
    Concurrent,
    /// Execute providers grouped by tiers, moving to next tier only if results are below limit.
    Tiered,
}

impl DispatchModeCli {
    /// The word for the mode.
    pub fn word(&self) -> (r: String)
        ensures
            r@ == (match *self {
                DispatchModeCli::Concurrent => "concurrent"@,
                DispatchModeCli::Tiered => "tiered"@,
            }),
    {
        match self {
            DispatchModeCli::Concurrent => "concurrent".to_owned(),
            DispatchModeCli::Tiered => "tiered".to_owned(),
        }
    }
}

impl From<DispatchModeCli> for String {
    fn from(m: DispatchModeCli) -> (r: Self)
        ensures
            r@ == (match m {
                DispatchModeCli::Concurrent => "concurrent"@,
                DispatchModeCli::Tiered => "tiered"@,
            }),
    {
        m.word()
    }
}

impl vstd::std_specs::convert::FromSpecImpl<DispatchModeCli> for String {
    open spec fn obeys_from_spec() -> bool {
        false
    }

    open spec fn from_spec(m: DispatchModeCli) -> Self {
        arbitrary()
    }
}

/// The arguments of the `search` command.
#[derive(Debug)]
pub struct SearchArgs {
    /// The search query.
    pub query: String,
    /// Maximum number of results to return.
    pub limit: usize,
    /// Explicit provider names to use.
    pub providers: Vec<String>,
    /// ISO 639-1 language code.
    pub language: Option<String>,
    /// ISO 3166-1 alpha-2 country code.
    pub country: Option<String>,
    /// Whether safe search is disabled.
    pub no_safe_search: bool,
    /// Time-based freshness filter.
    pub freshness: Option<FreshnessCli>,
    /// Provider dispatch mode.
    pub dispatch_mode: Option<DispatchModeCli>,
}

/// Whether a request asks for what the arguments of the `search` command say.
pub open spec fn asks_for(r: SearchRequest, args: SearchArgs) -> bool {
    &&& r.query == args.query
    &&& r.limit == args.limit
    &&& r.providers == args.providers
    &&& r.language == args.language
    &&& r.country == args.country
    &&& r.safe_search == !args.no_safe_search
    &&& r.freshness == (match args.freshness {
        Some(FreshnessCli::Day) => Some(Freshness::Day),
        Some(FreshnessCli::Week) => Some(Freshness::Week),
        Some(FreshnessCli::Month) => Some(Freshness::Month),
        Some(FreshnessCli::Year) => Some(Freshness::Year),
        None => None,
    })
    &&& match args.dispatch_mode {
        Some(DispatchModeCli::Concurrent) => r.dispatch_mode is Some && r.dispatch_mode->0@
            == "concurrent"@,
        Some(DispatchModeCli::Tiered) => r.dispatch_mode is Some && r.dispatch_mode->0@
            == "tiered"@,
        None => r.dispatch_mode is None,
    }
}

/// The request of the `search` command, with the given identifier.
pub fn search_request(args: SearchArgs, request_id: String) -> (r: SearchRequest)
    ensures
        r.request_id == request_id,
        asks_for(r, args),
        r.query == args.query,
        r.limit == args.limit,
        r.providers == args.providers,
        r.language == args.language,
        r.country == args.country,
        r.safe_search == !args.no_safe_search,
{
    SearchRequest {
        request_id,
        query: args.query,
        limit: args.limit,
        providers: args.providers,
        language: args.language,
        country: args.country,
        safe_search: !args.no_safe_search,
        freshness: match args.freshness {
            Some(f) => Some(Freshness::from(f)),
            None => None,
        },
        dispatch_mode: match args.dispatch_mode {
            Some(mode) => Some(mode.word()),
            None => None,
        },
    }
}

/// The request of the `search` command, with an identifier drawn at random.
pub fn new_search_request(args: SearchArgs) -> (r: SearchRequest)
    ensures
        crate::search::request::is_request_id(r.request_id@),
        asks_for(r, args),
        r.query == args.query,
        r.limit == args.limit,
        r.providers == args.providers,
        r.language == args.language,
        r.country == args.country,
        r.safe_search == !args.no_safe_search,
{
    search_request(args, random_id())
}

/// Check the response for errors: the message of an error response becomes the error,
/// every other response is passed through.
pub fn check_response_error(response: Response) -> (r: Result<Response, String>)
    ensures
        match response {
            Response::Error { code, message } => r == Err::<Response, String>(message),
            _ => r == Ok::<Response, String>(response),
        },
{
    match response {
        Response::Error { code: _, message } => Err(message),
        other => Ok(other),
    }
}

/// A duration in seconds for people: seconds alone, minutes and seconds, or hours, minutes
/// and seconds.
pub open spec fn duration_text(secs: nat) -> Seq<char> {
    if secs < 60 {
        text::decimal(secs) + "s"@
    } else if secs < 3600 {
        text::decimal(secs / 60) + "m "@ + text::decimal(secs % 60) + "s"@
    } else {
        text::decimal(secs / 3600) + "h "@ + text::decimal((secs % 3600) / 60) + "m "@
            + text::decimal(secs % 60) + "s"@
    }
}

/// Format a duration in seconds into a human-readable string.
pub fn format_duration(secs: u64) -> (r: String)
    ensures
        r@ == duration_text(secs as nat),
{
    if secs < 60 {
        text::concat(text::decimal_of(secs).as_str(), "s")
    } else if secs < 3600 {
        let mut r = text::decimal_of(secs / 60);
        r.push_str("m ");
        r.push_str(text::decimal_of(secs % 60).as_str());
        r.push_str("s");
        r
    } else {
        let mut r = text::decimal_of(secs / 3600);
        r.push_str("h ");
        r.push_str(text::decimal_of((secs % 3600) / 60).as_str());
        r.push_str("m ");
        r.push_str(text::decimal_of(secs % 60).as_str());
        r.push_str("s");
        r
    }
}

/// The unit in which a size is shown: each is 1024 times the one before.
pub open spec fn unit_bytes(index: int) -> nat {
    if index <= 0 {
        1
    } else if index == 1 {
        1024
    } else if index == 2 {
        1_048_576
    } else {
        1_073_741_824
    }
}

/// The name of a unit.
pub open spec fn unit_name(index: int) -> Seq<char> {
    if index <= 0 {
        "B"@
    } else if index == 1 {
        "KB"@
    } else if index == 2 {
        "MB"@
    } else {
        "GB"@
    }
}

/// The largest unit of which there is at least one, and bytes where there is none.
pub open spec fn unit_index(size: nat) -> int {
    if size < 1024 {
        0
    } else if size < 1_048_576 {
        1
    } else if size < 1_073_741_824 {
        2
    } else {
        3
    }
}

/// A size for people: in the largest unit of which there is at least one, rounded to one
/// decimal, a tie to the even digit. Of a size that takes more than 53 binary digits, the
/// nearest double is shown.
pub open spec fn bytes_text(bytes: nat) -> Seq<char> {
    let size = double::nearest_double(bytes);
    let index = unit_index(size);
    let tenths = double::nearest_quotient(10 * size, unit_bytes(index));
    text::decimal(tenths / 10) + "."@ + text::decimal(tenths % 10) + " "@ + unit_name(index)
}

/// Format a byte count into a human-readable string.
pub fn format_bytes(bytes: u64) -> (r: String)
    ensures
        r@ == bytes_text(bytes as nat),
{
    let size: u128 = double::round_to_double(bytes);
    let (unit, name): (u128, &str) = if size < 1024 {
        (1, "B")
    } else if size < 1_048_576 {
        (1024, "KB")
    } else if size < 1_073_741_824 {
        (1_048_576, "MB")
    } else {
        (1_073_741_824, "GB")
    };
    let tenths: u128 = double::rounded_quotient(10 * size, unit);
    proof {
        double::lemma_nearest_quotient((10 * size) as nat, unit as nat);
        assert(tenths <= 0x10_0000_0000_0000_0000) by (nonlinear_arith)
            requires
                2 * (tenths * unit - 10 * size) <= unit,
                unit >= 1,
                size <= 0x1_0000_0000_0000_0000,
                unit == 1 ==> size < 1024,
                unit == 1 || unit >= 1024,
        ;
        assert(tenths / 10 <= u64::MAX) by {
            assert(unit == 1 || unit == 1024 || unit == 1_048_576 || unit == 1_073_741_824);
            if unit == 1 {
                assert(tenths * 1 == tenths);
            } else if unit == 1024 {
                assert(2 * (tenths * 1024 - 10 * size) <= 1024);
            } else if unit == 1_048_576 {
                assert(2 * (tenths * 1_048_576 - 10 * size) <= 1_048_576);
            } else {
                assert(2 * (tenths * 1_073_741_824 - 10 * size) <= 1_073_741_824);
            }
        }
    }
    let mut r = text::decimal_of((tenths / 10) as u64);
    r.push_str(".");
    r.push_str(text::decimal_of((tenths % 10) as u64).as_str());
    r.push_str(" ");
    r.push_str(name);
    r
}

/// So many times the same character.
pub open spec fn repeated(c: char, n: int) -> Seq<char> {
    if n > 0 {
        Seq::new(n as nat, |i: int| c)
    } else {
        Seq::empty()
    }
}

/// A text with spaces behind it up to a width.
pub open spec fn padded_right(s: Seq<char>, width: int) -> Seq<char> {
    s + repeated(' ', width - s.len())
}

/// A text with spaces before it up to a width.
pub open spec fn padded_left(s: Seq<char>, width: int) -> Seq<char> {
    repeated(' ', width - s.len()) + s
}

/// So many times the same character.
fn repeat(c: char, n: usize) -> (r: String)
    ensures
        r@ == repeated(c, n as int),
{
    let mut r = String::new();
    let mut i: usize = 0;
    while i < n
        invariant
            i <= n,
            r@ =~= repeated(c, i as int),
        decreases n - i,
    {
        r.push(c);
        i = i + 1;
    }
    r
}

/// A text with spaces behind it up to a width.
pub fn pad_right(s: &str, width: usize) -> (r: String)
    ensures
        r@ == padded_right(s@, width as int),
{
    let n: usize = text::chars_of(s).len();
    let mut r = s.to_owned();
    let missing: usize = if n < width {
        width - n
    } else {
        0
    };
    r.push_str(repeat(' ', missing).as_str());
    r
}

/// A text with spaces before it up to a width.
pub fn pad_left(s: &str, width: usize) -> (r: String)
    ensures
        r@ == padded_left(s@, width as int),
{
    let n: usize = text::chars_of(s).len();
    let missing: usize = if n < width {
        width - n
    } else {
        0
    };
    let mut r = repeat(' ', missing);
    r.push_str(s);
    r
}

/// `YES` or `no`.
pub open spec fn yes_or_no(b: bool) -> Seq<char> {
    if b {
        "YES"@
    } else {
        "no"@
    }
}

fn yes_no(b: bool) -> (r: &'static str)
    ensures
        r@ == yes_or_no(b),
{
    if b {
        "YES"
    } else {
        "no"
    }
}

/// What is said of a search before its results are listed.
pub open spec fn search_notice(response: SearchResponse) -> Seq<char> {
    if response.cache_hit {
        "\u{1f4e6} cached ("@ + text::decimal(response.elapsed_ms as nat) + " ms)"@
    } else {
        "\u{23f3} "@ + text::decimal(response.elapsed_ms as nat) + " ms, "@ + text::decimal(
            response.total_found as nat,
        ) + " results from "@ + text::join_seq(text::views(response.providers_used@), ", "@)
            + " providers"@
    }
}

/// What is said of a search before its results are listed.
pub fn render_notice(response: &SearchResponse) -> (r: String)
    ensures
        r@ == search_notice(*response),
{
    if response.cache_hit {
        text::concat3(
            "\u{1f4e6} cached (",
            text::decimal_of(response.elapsed_ms).as_str(),
            " ms)",
        )
    } else {
        let mut r = "\u{23f3} ".to_owned();
        r.push_str(text::decimal_of(response.elapsed_ms).as_str());
        r.push_str(" ms, ");
        r.push_str(text::decimal_of(response.total_found as u64).as_str());
        r.push_str(" results from ");
        r.push_str(text::join(&response.providers_used, ", ").as_str());
        r.push_str(" providers");
        r
    }
}

/// The lines of one result: a blank one, the number and the title, the URL, the snippet,
/// and the date if there is one with the provider and the score.
pub open spec fn result_lines(result: SearchResult, number: nat, score: Seq<char>) -> Seq<Seq<char>> {
    seq![
        Seq::empty(),
        text::decimal(number) + ". "@ + result.title@,
        "   "@ + result.url@,
        "   "@ + result.snippet@,
        (match result.published_date {
            Some(date) => "   ["@ + date@ + "]"@,
            None => Seq::empty(),
        }) + "   (via "@ + result.provider_name@ + ", score: "@ + score + ")"@,
    ]
}

/// The lines of the first `n` results.
pub open spec fn listed_lines(results: Seq<SearchResult>, scores: Seq<String>, n: int) -> Seq<Seq<char>>
    decreases n,
{
    if n <= 0 {
        Seq::empty()
    } else {
        listed_lines(results, scores, n - 1) + result_lines(
            results[n - 1],
            n as nat,
            scores[n - 1]@,
        )
    }
}

/// The lines of a list of results.
pub open spec fn search_lines(results: Seq<SearchResult>, scores: Seq<String>) -> Seq<Seq<char>> {
    if results.len() == 0 {
        seq!["(no results found)"@]
    } else {
        listed_lines(results, scores, results.len() as int)
    }
}

/// Puts a line at the end of a list.
fn push_line(lines: &mut Vec<String>, line: String)
    ensures
        text::views(final(lines)@) == text::views(old(lines)@).push(line@),
{
    let ghost prior = lines@;
    lines.push(line);
    assert(text::views(lines@) =~= text::views(prior).push(line@));
}

fn push_result(lines: &mut Vec<String>, result: &SearchResult, number: u64, score: &str)
    ensures
        text::views(final(lines)@) == text::views(old(lines)@) + result_lines(
            *result,
            number as nat,
            score@,
        ),
{
    let ghost prior = text::views(lines@);
    push_line(lines, String::new());
    push_line(
        lines,
        text::concat3(text::decimal_of(number).as_str(), ". ", result.title.as_str()),
    );
    push_line(lines, text::concat("   ", result.url.as_str()));
    push_line(lines, text::concat("   ", result.snippet.as_str()));
    let mut last = match &result.published_date {
        Some(date) => text::concat3("   [", date.as_str(), "]"),
        None => String::new(),
    };
    last.push_str("   (via ");
    last.push_str(result.provider_name.as_str());
    last.push_str(", score: ");
    last.push_str(score);
    last.push_str(")");
    push_line(lines, last);
    assert(text::views(lines@) =~= prior + result_lines(*result, number as nat, score@));
}

/// The lines of a list of results. `scores` holds the score of each result as it is shown.
pub fn render_results(results: &Vec<SearchResult>, scores: &Vec<String>) -> (r: Vec<String>)
    requires
        scores.len() == results.len(),
    ensures
        text::views(r@) == search_lines(results@, scores@),
{
    let mut lines: Vec<String> = Vec::new();
    if results.len() == 0 {
        push_line(&mut lines, "(no results found)".to_owned());
        assert(text::views(lines@) =~= seq!["(no results found)"@]);
        return lines;
    }
    let mut i: usize = 0;
    assert(text::views(lines@) =~= listed_lines(results@, scores@, 0));
    while i < results.len()
        invariant
            i <= results.len(),
            scores.len() == results.len(),
            text::views(lines@) == listed_lines(results@, scores@, i as int),
        decreases results.len() - i,
    {
        push_result(&mut lines, &results[i], i as u64 + 1, scores[i].as_str());
        i = i + 1;
    }
    lines
}

/// The lines about the daemon itself.
pub open spec fn daemon_lines(status: Seq<char>, version: Seq<char>, uptime_secs: nat) -> Seq<
    Seq<char>,
> {
    seq![
        "=== Daemon Status ==="@,
        "  Status:   "@ + status,
        "  Version:  "@ + version,
        "  Uptime:   "@ + duration_text(uptime_secs),
    ]
}

/// The lines about the daemon itself.
pub fn render_daemon(status: &str, version: &str, uptime_secs: u64) -> (r: Vec<String>)
    ensures
        text::views(r@) == daemon_lines(status@, version@, uptime_secs as nat),
{
    let mut lines: Vec<String> = Vec::new();
    push_line(&mut lines, "=== Daemon Status ===".to_owned());
    push_line(&mut lines, text::concat("  Status:   ", status));
    push_line(&mut lines, text::concat("  Version:  ", version));
    push_line(&mut lines, text::concat("  Uptime:   ", format_duration(uptime_secs).as_str()));
    assert(text::views(lines@) =~= daemon_lines(status@, version@, uptime_secs as nat));
    lines
}

/// The row of a provider in the health table.
pub open spec fn health_row(p: ProviderHealth, score: Seq<char>) -> Seq<char> {
    "  "@ + padded_right(p.name@, 20) + " "@ + padded_left(yes_or_no(p.healthy), 8) + " "@
        + padded_left(yes_or_no(p.degraded), 10) + " "@ + padded_left(score, 8) + " "@
        + padded_left(text::decimal(p.success_count as nat), 4) + "/"@ + padded_right(
        text::decimal(p.failure_count as nat),
        5,
    ) + "  "@ + (match p.last_error {
        Some(message) => message@,
        None => "-"@,
    })
}

/// The header of the health table.
pub open spec fn health_header() -> Seq<char> {
    "  "@ + padded_right("Provider"@, 20) + " "@ + padded_left("Healthy"@, 8) + " "@ + padded_left(
        "Degraded"@,
        10,
    ) + " "@ + padded_left("Score"@, 8) + " "@ + padded_left("Succ/Fail"@, 10) + "  Last Error"@
}

/// The rule under the header of the health table.
pub open spec fn health_rule() -> Seq<char> {
    "  "@ + repeated('-', 20) + " "@ + repeated('-', 8) + " "@ + repeated('-', 10) + " "@ + repeated(
        '-',
        8,
    ) + " "@ + repeated('-', 10) + "  "@ + repeated('-', 20)
}

/// The lines about the health of the providers.
pub open spec fn health_lines(providers: Seq<ProviderHealth>, scores: Seq<String>) -> Seq<Seq<char>> {
    if providers.len() == 0 {
        seq!["=== Provider Health ==="@, "  (no providers configured)"@]
    } else {
        seq!["=== Provider Health ==="@, health_header(), health_rule()] + Seq::new(
            providers.len(),
            |i: int| health_row(providers[i], scores[i]@),
        )
    }
}

fn render_health_row(p: &ProviderHealth, score: &str) -> (r: String)
    ensures
        r@ == health_row(*p, score@),
{
    let mut r = "  ".to_owned();
    r.push_str(pad_right(p.name.as_str(), 20).as_str());
    r.push_str(" ");
    r.push_str(pad_left(yes_no(p.healthy), 8).as_str());
    r.push_str(" ");
    r.push_str(pad_left(yes_no(p.degraded), 10).as_str());
    r.push_str(" ");
    r.push_str(pad_left(score, 8).as_str());
    r.push_str(" ");
    r.push_str(pad_left(text::decimal_of(p.success_count).as_str(), 4).as_str());
    r.push_str("/");
    r.push_str(pad_right(text::decimal_of(p.failure_count).as_str(), 5).as_str());
    r.push_str("  ");
    match &p.last_error {
        Some(message) => r.push_str(message.as_str()),
        None => r.push_str("-"),
    }
    r
}

fn render_health_header() -> (r: String)
    ensures
        r@ == health_header(),
{
    let mut r = "  ".to_owned();
    r.push_str(pad_right("Provider", 20).as_str());
    r.push_str(" ");
    r.push_str(pad_left("Healthy", 8).as_str());
    r.push_str(" ");
    r.push_str(pad_left("Degraded", 10).as_str());
    r.push_str(" ");
    r.push_str(pad_left("Score", 8).as_str());
    r.push_str(" ");
    r.push_str(pad_left("Succ/Fail", 10).as_str());
    r.push_str("  Last Error");
    r
}

fn render_health_rule() -> (r: String)
    ensures
        r@ == health_rule(),
{
    let mut r = "  ".to_owned();
    r.push_str(repeat('-', 20).as_str());
    r.push_str(" ");
    r.push_str(repeat('-', 8).as_str());
    r.push_str(" ");
    r.push_str(repeat('-', 10).as_str());
    r.push_str(" ");
    r.push_str(repeat('-', 8).as_str());
    r.push_str(" ");
    r.push_str(repeat('-', 10).as_str());
    r.push_str("  ");
    r.push_str(repeat('-', 20).as_str());
    r
}

/// The lines about the health of the providers. `scores` holds the score of each as it is
/// shown.
pub fn render_health(providers: &Vec<ProviderHealth>, scores: &Vec<String>) -> (r: Vec<String>)
    requires
        scores.len() == providers.len(),
    ensures
        text::views(r@) == health_lines(providers@, scores@),
{
    let mut lines: Vec<String> = Vec::new();
    push_line(&mut lines, "=== Provider Health ===".to_owned());
    if providers.len() == 0 {
        push_line(&mut lines, "  (no providers configured)".to_owned());
        assert(text::views(lines@) =~= health_lines(providers@, scores@));
        return lines;
    }
    push_line(&mut lines, render_health_header());
    push_line(&mut lines, render_health_rule());
    let ghost head = seq!["=== Provider Health ==="@, health_header(), health_rule()];
    let mut i: usize = 0;
    assert(text::views(lines@) =~= head + Seq::new(
        0,
        |k: int| health_row(providers@[k], scores@[k]@),
    ));
    while i < providers.len()
        invariant
            i <= providers.len(),
            scores.len() == providers.len(),
            text::views(lines@) =~= head + Seq::new(
                i as nat,
                |k: int| health_row(providers@[k], scores@[k]@),
            ),
        decreases providers.len() - i,
    {
        push_line(&mut lines, render_health_row(&providers[i], scores[i].as_str()));
        i = i + 1;
    }
    lines
}

/// The lines about the cache. The hit rate is shown where there were requests.
pub open spec fn cache_lines(stats: CacheStats, rate: Seq<char>) -> Seq<Seq<char>> {
    let total = stats.hit_count + stats.miss_count;
    seq![
        "=== Cache Stats ==="@,
        "  Entries:     "@ + text::decimal(stats.total_entries as nat),
        "  Size:        "@ + bytes_text(stats.total_size_bytes as nat),
        "  Hits:        "@ + text::decimal(stats.hit_count as nat) + " ("@ + text::decimal(
            total as nat,
        ) + " total requests)"@,
        "  Hit rate:    "@ + (if total > 0 {
            rate
        } else {
            "N/A"@
        }),
    ]
}

/// The lines about the cache. `rate` is the hit rate as it is shown.
pub fn render_cache(stats: &CacheStats, rate: &str) -> (r: Vec<String>)
    requires
        stats.hit_count + stats.miss_count <= u64::MAX,
    ensures
        text::views(r@) == cache_lines(*stats, rate@),
{
    let total: u64 = stats.hit_count + stats.miss_count;
    let mut lines: Vec<String> = Vec::new();
    push_line(&mut lines, "=== Cache Stats ===".to_owned());
    push_line(
        &mut lines,
        text::concat("  Entries:     ", text::decimal_of(stats.total_entries).as_str()),
    );
    push_line(
        &mut lines,
        text::concat("  Size:        ", format_bytes(stats.total_size_bytes).as_str()),
    );
    let mut hits = text::concat3(
        "  Hits:        ",
        text::decimal_of(stats.hit_count).as_str(),
        " (",
    );
    hits.push_str(text::decimal_of(total).as_str());
    hits.push_str(" total requests)");
    push_line(&mut lines, hits);
    let shown = if total > 0 {
        rate
    } else {
        "N/A"
    };
    push_line(&mut lines, text::concat("  Hit rate:    ", shown));
    assert(text::views(lines@) =~= cache_lines(*stats, rate@));
    lines
}

/// The row of a provider in the provider table.
pub open spec fn provider_row(p: ProviderInfo, score: Seq<char>) -> Seq<char> {
    padded_right(p.name@, 20) + " "@ + padded_left(yes_or_no(p.available), 10) + " "@ + padded_left(
        yes_or_no(p.healthy),
        8,
    ) + " "@ + padded_left(score, 6) + "  "@ + text::join_seq(text::views(p.tags@), ", "@) + "  "@
        + p.description@
}

/// The header of the provider table.
pub open spec fn provider_header() -> Seq<char> {
    padded_right("Provider"@, 20) + " "@ + padded_left("Available"@, 10) + " "@ + padded_left(
        "Healthy"@,
        8,
    ) + " "@ + padded_left("Score"@, 6) + "  Tags  Description"@
}

/// The rule under the header of the provider table.
pub open spec fn provider_rule() -> Seq<char> {
    repeated('-', 20) + " "@ + repeated('-', 10) + " "@ + repeated('-', 8) + " "@ + repeated('-', 6)
        + "  ----  "@ + repeated('-', 20)
}

/// The lines of the provider table.
pub open spec fn provider_lines(providers: Seq<ProviderInfo>, scores: Seq<String>) -> Seq<Seq<char>> {
    if providers.len() == 0 {
        seq!["(no providers configured)"@]
    } else {
        seq![provider_header(), provider_rule()] + Seq::new(
            providers.len(),
            |i: int| provider_row(providers[i], scores[i]@),
        )
    }
}

fn render_provider_row(p: &ProviderInfo, score: &str) -> (r: String)
    ensures
        r@ == provider_row(*p, score@),
{
    let mut r = pad_right(p.name.as_str(), 20);
    r.push_str(" ");
    r.push_str(pad_left(yes_no(p.available), 10).as_str());
    r.push_str(" ");
    r.push_str(pad_left(yes_no(p.healthy), 8).as_str());
    r.push_str(" ");
    r.push_str(pad_left(score, 6).as_str());
    r.push_str("  ");
    r.push_str(text::join(&p.tags, ", ").as_str());
    r.push_str("  ");
    r.push_str(p.description.as_str());
    r
}

fn render_provider_header() -> (r: String)
    ensures
        r@ == provider_header(),
{
    let mut r = pad_right("Provider", 20);
    r.push_str(" ");
    r.push_str(pad_left("Available", 10).as_str());
    r.push_str(" ");
    r.push_str(pad_left("Healthy", 8).as_str());
    r.push_str(" ");
    r.push_str(pad_left("Score", 6).as_str());
    r.push_str("  Tags  Description");
    r
}

fn render_provider_rule() -> (r: String)
    ensures
        r@ == provider_rule(),
{
    let mut r = repeat('-', 20);
    r.push_str(" ");
    r.push_str(repeat('-', 10).as_str());
    r.push_str(" ");
    r.push_str(repeat('-', 8).as_str());
    r.push_str(" ");
    r.push_str(repeat('-', 6).as_str());
    r.push_str("  ----  ");
    r.push_str(repeat('-', 20).as_str());
    r
}

/// The lines of the provider table. `scores` holds the score of each provider as it is
/// shown.
pub fn render_providers(providers: &Vec<ProviderInfo>, scores: &Vec<String>) -> (r: Vec<String>)
    requires
        scores.len() == providers.len(),
    ensures
        text::views(r@) == provider_lines(providers@, scores@),
{
    let mut lines: Vec<String> = Vec::new();
    if providers.len() == 0 {
        push_line(&mut lines, "(no providers configured)".to_owned());
        assert(text::views(lines@) =~= provider_lines(providers@, scores@));
        return lines;
    }
    push_line(&mut lines, render_provider_header());
    push_line(&mut lines, render_provider_rule());
    let ghost head = seq![provider_header(), provider_rule()];
    let mut i: usize = 0;
    assert(text::views(lines@) =~= head + Seq::new(
        0,
        |k: int| provider_row(providers@[k], scores@[k]@),
    ));
    while i < providers.len()
        invariant
            i <= providers.len(),
            scores.len() == providers.len(),
            text::views(lines@) =~= head + Seq::new(
                i as nat,
                |k: int| provider_row(providers@[k], scores@[k]@),
            ),
        decreases providers.len() - i,
    {
        push_line(&mut lines, render_provider_row(&providers[i], scores[i].as_str()));
        i = i + 1;
    }
    lines
}

/// What is said when entries were removed from the cache.
pub fn render_cleared(removed: u64) -> (r: String)
    ensures
        r@ == "Cache cleared: "@ + text::decimal(removed as nat) + " entries removed."@,
{
    text::concat3("Cache cleared: ", text::decimal_of(removed).as_str(), " entries removed.")
}

/// A request asks for what the arguments say, field by field: a search is safe unless that is
/// switched off, the filter is the one that was named, and so is the mode, by its word.
pub proof fn requests_say_what_the_arguments_say(r: SearchRequest, args: SearchArgs)
    requires
        asks_for(r, args),
    ensures
        r.query == args.query,
        r.limit == args.limit,
        r.providers == args.providers,
        r.language == args.language,
        r.country == args.country,
        r.safe_search <==> !args.no_safe_search,
        r.freshness is None <==> args.freshness is None,
        r.freshness == Some(Freshness::Day) <==> args.freshness == Some(FreshnessCli::Day),
        r.freshness == Some(Freshness::Week) <==> args.freshness == Some(FreshnessCli::Week),
        r.freshness == Some(Freshness::Month) <==> args.freshness == Some(FreshnessCli::Month),
        r.freshness == Some(Freshness::Year) <==> args.freshness == Some(FreshnessCli::Year),
        r.dispatch_mode is None <==> args.dispatch_mode is None,
        args.dispatch_mode == Some(DispatchModeCli::Concurrent) ==> r.dispatch_mode->0@
            == "concurrent"@,
        args.dispatch_mode == Some(DispatchModeCli::Tiered) ==> r.dispatch_mode->0@ == "tiered"@,
{
}

/// The command line and the tool ask alike: arguments and parameters that say the same lead to
/// requests that differ in nothing but how the words of the mode are held.
pub proof fn both_ways_of_asking_agree(
    args: SearchArgs,
    params: crate::mcp::SearchParams,
    a: SearchRequest,
    b: SearchRequest,
)
    requires
        asks_for(a, args),
        crate::mcp::asks_for(b, params),
        args.query == params.query,
        args.limit == params.limit,
        args.providers == params.providers,
        args.language == params.language,
        args.country == params.country,
        args.no_safe_search == !params.safe_search,
    ensures
        a.query == b.query,
        a.limit == b.limit,
        a.providers == b.providers,
        a.language == b.language,
        a.country == b.country,
        a.safe_search == b.safe_search,
{
}

/// A duration is shown in hours, minutes and seconds that add up to it, with fewer than 60 of
/// the last two, and without units that are not needed.
pub proof fn durations_add_up(h: nat, m: nat, s: nat)
    requires
        m < 60,
        s < 60,
    ensures
        h > 0 ==> duration_text(3600 * h + 60 * m + s) == text::decimal(h) + "h "@ + text::decimal(m)
            + "m "@ + text::decimal(s) + "s"@,
        m > 0 ==> duration_text(60 * m + s) == text::decimal(m) + "m "@ + text::decimal(s) + "s"@,
        duration_text(s) == text::decimal(s) + "s"@,
{
    let whole = 3600 * h + 60 * m + s;
    assert(whole / 3600 == h);
    assert((whole % 3600) / 60 == m);
    assert(whole % 60 == s);
}

/// A size is shown in bytes below 1024 of them, then in units each 1024 times the one before,
/// up to gigabytes, to the nearest tenth: what is shown is off by no more than half a tenth.
pub proof fn sizes_are_shown_to_the_nearest_tenth(bytes: nat) -> (r: (nat, Seq<char>, nat))
    requires
        bytes < 0x20_0000_0000_0000,
    ensures
        ({
            let (unit, name, tenths) = r;
            &&& bytes < 1024 ==> unit == 1 && name == "B"@
            &&& 1024 <= bytes < 1024 * 1024 ==> unit == 1024 && name == "KB"@
            &&& 1024 * 1024 <= bytes < 1024 * 1024 * 1024 ==> unit == 1024 * 1024 && name == "MB"@
            &&& bytes >= 1024 * 1024 * 1024 ==> unit == 1024 * 1024 * 1024 && name == "GB"@
            &&& -(unit as int) <= 2 * (tenths * unit - 10 * bytes) <= unit
            &&& bytes_text(bytes) == text::decimal(tenths / 10) + "."@ + text::decimal(tenths % 10)
                + " "@ + name
        }),
{
    let unit = unit_bytes(unit_index(bytes));
    let tenths = double::nearest_quotient(10 * bytes, unit);
    double::lemma_nearest_quotient(10 * bytes, unit);
    (unit, unit_name(unit_index(bytes)), tenths)
}

/// Each result takes five lines, in order, numbered from one: a blank one, its title, its URL, its
/// snippet, and its provider and score with its date before them where it has one.
pub proof fn results_are_listed_in_order(results: Seq<SearchResult>, scores: Seq<String>, n: int, i: int)
    requires
        0 <= i < n <= results.len(),
        scores.len() == results.len(),
    ensures
        listed_lines(results, scores, n).len() == 5 * n,
        listed_lines(results, scores, n)[5 * i].len() == 0,
        listed_lines(results, scores, n)[5 * i + 1] == text::decimal((i + 1) as nat) + ". "@
            + results[i].title@,
        listed_lines(results, scores, n)[5 * i + 2] == "   "@ + results[i].url@,
        listed_lines(results, scores, n)[5 * i + 3] == "   "@ + results[i].snippet@,
        results[i].published_date is None ==> listed_lines(results, scores, n)[5 * i + 4]
            == "   (via "@ + results[i].provider_name@ + ", score: "@ + scores[i]@ + ")"@,
        results[i].published_date is Some ==> listed_lines(results, scores, n)[5 * i + 4] == "   ["@
            + results[i].published_date->0@ + "]"@ + "   (via "@ + results[i].provider_name@
            + ", score: "@ + scores[i]@ + ")"@,
    decreases n,
{
    let before = listed_lines(results, scores, n - 1);
    let own = result_lines(results[n - 1], n as nat, scores[n - 1]@);
    let lines = listed_lines(results, scores, n);
    assert(lines == before + own);
    lemma_listed_len(results, scores, n - 1);
    lemma_listed_len(results, scores, n);
    if i < n - 1 {
        results_are_listed_in_order(results, scores, n - 1, i);
        assert forall|k: int| 0 <= k < 5 implies #[trigger] lines[5 * i + k] == before[5 * i + k] by {}
        assert(lines[5 * i + 0] == before[5 * i + 0]);
    } else {
        assert forall|k: int| 0 <= k < 5 implies #[trigger] lines[5 * i + k] == own[k] by {}
        assert(lines[5 * i + 0] == own[0]);
        assert(lines[5 * i + 1] == own[1]);
        assert(lines[5 * i + 2] == own[2]);
        assert(lines[5 * i + 3] == own[3]);
        assert(lines[5 * i + 4] == own[4]);
        let tail = "   (via "@ + results[i].provider_name@ + ", score: "@ + scores[i]@ + ")"@;
        if results[i].published_date is None {
            assert(own[4] =~= tail);
        }
    }
}

proof fn lemma_listed_len(results: Seq<SearchResult>, scores: Seq<String>, n: int)
    requires
        0 <= n,
    ensures
        listed_lines(results, scores, n).len() == 5 * n,
    decreases n,
{
    if n > 0 {
        lemma_listed_len(results, scores, n - 1);
    }
}

/// A list without results says so, and one with results lists all of them.
pub proof fn all_results_are_listed(results: Seq<SearchResult>, scores: Seq<String>)
    ensures
        results.len() == 0 ==> search_lines(results, scores) == seq!["(no results found)"@],
        results.len() > 0 ==> search_lines(results, scores) == listed_lines(
            results,
            scores,
            results.len() as int,
        ),
{
}

/// What is said of a search: how long it took, whether it came from the cache, and if it did not,
/// how much was found and by whom.
pub proof fn notices_tell_cached_answers_apart(response: SearchResponse)
    ensures
        response.cache_hit ==> search_notice(response) == "\u{1f4e6} cached ("@ + text::decimal(
            response.elapsed_ms as nat,
        ) + " ms)"@,
        !response.cache_hit ==> search_notice(response) == "\u{23f3} "@ + text::decimal(
            response.elapsed_ms as nat,
        ) + " ms, "@ + text::decimal(response.total_found as nat) + " results from "@
            + text::join_seq(text::views(response.providers_used@), ", "@) + " providers"@,
{
}

/// Padding keeps the text and fills up with spaces on the other side, to the width and no
/// further.
pub proof fn padding_fills_up(s: Seq<char>, width: int)
    requires
        width >= 0,
    ensures
        s.is_prefix_of(padded_right(s, width)),
        s.is_suffix_of(padded_left(s, width)),
        s.len() <= width ==> padded_right(s, width).len() == width && padded_left(s, width).len()
            == width,
        s.len() >= width ==> padded_right(s, width) == s && padded_left(s, width) == s,
        forall|i: int|
            s.len() <= i < padded_right(s, width).len() ==> #[trigger] padded_right(s, width)[i]
                == ' ',
{
    let right = padded_right(s, width);
    let left = padded_left(s, width);
    assert(right.subrange(0, s.len() as int) =~= s);
    assert(left.subrange(left.len() - s.len(), left.len() as int) =~= s);
    if s.len() >= width {
        assert(right =~= s);
        assert(left =~= s);
    }
}

/// The row of a provider shows its name, whether it is healthy and whether it is degraded, its
/// score, how often it succeeded and failed, and its last error, each in its own column.
pub proof fn health_rows_have_their_columns(p: ProviderHealth, score: Seq<char>)
    requires
        p.name@.len() <= 20,
        score.len() <= 8,
    ensures
        ({
            let row = health_row(p, score);
            &&& row.subrange(2, 22) == padded_right(p.name@, 20)
            &&& p.healthy ==> row.subrange(23, 31) == padded_left("YES"@, 8)
            &&& !p.healthy ==> row.subrange(23, 31) == padded_left("no"@, 8)
            &&& p.degraded ==> row.subrange(32, 42) == padded_left("YES"@, 10)
            &&& !p.degraded ==> row.subrange(32, 42) == padded_left("no"@, 10)
            &&& row.subrange(43, 51) == padded_left(score, 8)
            &&& row.skip(52) == padded_left(text::decimal(p.success_count as nat), 4) + "/"@
                + padded_right(text::decimal(p.failure_count as nat), 5) + "  "@ + (
            match p.last_error {
                Some(message) => message@,
                None => "-"@,
            })
        }),
{
    reveal_strlit("  ");
    reveal_strlit(" ");
    reveal_strlit("YES");
    reveal_strlit("no");
    let row = health_row(p, score);
    padding_fills_up(p.name@, 20);
    padding_fills_up(yes_or_no(p.healthy), 8);
    padding_fills_up(yes_or_no(p.degraded), 10);
    padding_fills_up(score, 8);
    assert(row.subrange(2, 22) =~= padded_right(p.name@, 20));
    assert(row.subrange(23, 31) =~= padded_left(yes_or_no(p.healthy), 8));
    assert(row.subrange(32, 42) =~= padded_left(yes_or_no(p.degraded), 10));
    assert(row.subrange(43, 51) =~= padded_left(score, 8));
    assert(row.skip(52) =~= padded_left(text::decimal(p.success_count as nat), 4) + "/"@
        + padded_right(text::decimal(p.failure_count as nat), 5) + "  "@ + (match p.last_error {
        Some(message) => message@,
        None => "-"@,
    }));
}

/// The row of a provider in the list shows its name, whether it is available and healthy, its
/// score, its tags and what it is.
pub proof fn provider_rows_have_their_columns(p: ProviderInfo, score: Seq<char>)
    requires
        p.name@.len() <= 20,
        score.len() <= 6,
    ensures
        ({
            let row = provider_row(p, score);
            &&& row.subrange(0, 20) == padded_right(p.name@, 20)
            &&& p.available ==> row.subrange(21, 31) == padded_left("YES"@, 10)
            &&& !p.available ==> row.subrange(21, 31) == padded_left("no"@, 10)
            &&& p.healthy ==> row.subrange(32, 40) == padded_left("YES"@, 8)
            &&& !p.healthy ==> row.subrange(32, 40) == padded_left("no"@, 8)
            &&& row.subrange(41, 47) == padded_left(score, 6)
            &&& row.skip(47) == "  "@ + text::join_seq(text::views(p.tags@), ", "@) + "  "@
                + p.description@
        }),
{
    reveal_strlit("  ");
    reveal_strlit(" ");
    reveal_strlit("YES");
    reveal_strlit("no");
    let row = provider_row(p, score);
    padding_fills_up(p.name@, 20);
    padding_fills_up(yes_or_no(p.available), 10);
    padding_fills_up(yes_or_no(p.healthy), 8);
    padding_fills_up(score, 6);
    assert(row.subrange(0, 20) =~= padded_right(p.name@, 20));
    assert(row.subrange(21, 31) =~= padded_left(yes_or_no(p.available), 10));
    assert(row.subrange(32, 40) =~= padded_left(yes_or_no(p.healthy), 8));
    assert(row.subrange(41, 47) =~= padded_left(score, 6));
    assert(row.skip(47) =~= "  "@ + text::join_seq(text::views(p.tags@), ", "@) + "  "@
        + p.description@);
}

/// Every provider has its row, in order, under the header.
pub proof fn every_provider_has_its_row(
    providers: Seq<ProviderInfo>,
    reports: Seq<ProviderHealth>,
    scores: Seq<String>,
    i: int,
)
    ensures
        0 <= i < providers.len() ==> provider_lines(providers, scores).len() == providers.len() + 2
            && provider_lines(providers, scores)[i + 2] == provider_row(providers[i], scores[i]@),
        0 <= i < reports.len() ==> health_lines(reports, scores).len() == reports.len() + 3
            && health_lines(reports, scores)[i + 3] == health_row(reports[i], scores[i]@),
{
}

/// The lines about the cache show its entries, its size, its hits among all requests, and the
/// rate, which is shown only where there were requests.
pub proof fn the_cache_is_shown_as_it_is(stats: CacheStats, rate: Seq<char>)
    ensures
        cache_lines(stats, rate)[1] == "  Entries:     "@ + text::decimal(
            stats.total_entries as nat,
        ),
        cache_lines(stats, rate)[2] == "  Size:        "@ + bytes_text(
            stats.total_size_bytes as nat,
        ),
        cache_lines(stats, rate)[3] == "  Hits:        "@ + text::decimal(stats.hit_count as nat)
            + " ("@ + text::decimal((stats.hit_count + stats.miss_count) as nat)
            + " total requests)"@,
        stats.hit_count + stats.miss_count > 0 ==> cache_lines(stats, rate)[4] == "  Hit rate:    "@
            + rate,
        stats.hit_count + stats.miss_count == 0 ==> cache_lines(stats, rate)[4]
            == "  Hit rate:    "@ + "N/A"@,
{
}

/// The configuration flag is `--config` or `-c`, and has a value where an argument follows it.
pub proof fn the_configuration_has_two_flags(args: Seq<String>, i: int)
    requires
        0 <= i < args.len(),
    ensures
        is_config_flag(args, i) <==> (args[i]@ == "--config"@ || args[i]@ == "-c"@) && i
            < args.len() - 1,
{
}

/// The lines about the daemon show its status, its version and how long it has been up.
pub proof fn the_daemon_is_shown_as_it_is(status: Seq<char>, version: Seq<char>, uptime_secs: nat)
    ensures
        daemon_lines(status, version, uptime_secs).len() == 4,
        daemon_lines(status, version, uptime_secs)[1] == "  Status:   "@ + status,
        daemon_lines(status, version, uptime_secs)[2] == "  Version:  "@ + version,
        daemon_lines(status, version, uptime_secs)[3] == "  Uptime:   "@ + duration_text(
            uptime_secs,
        ),
{
}

} // verus!
