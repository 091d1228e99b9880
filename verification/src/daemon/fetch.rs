//! Fetching a page: what is checked before, how much of the body is read, and what
//! the answer is.

use crate::daemon::guard;
use crate::daemon::guard::Verdict;
use crate::urls::ParsedUrl;
use crate::daemon::page;
use crate::net::IpAddr;
use crate::text;
use vstd::prelude::*;

verus! {

/// Maximum time in seconds that a fetch may be asked to take.
pub const MAX_FETCH_TIMEOUT_SECS: u64 = 120;

/// Maximum size of a fetched HTML body, in bytes (5 MB).
pub const MAX_FETCH_BODY_SIZE: usize = 5_242_880;

/// Maximum number of HTTP redirects to follow.
pub const MAX_REDIRECTS: usize = 5;

/// The answer to a fetch.
#[derive(Debug)]
pub struct FetchResult {
    /// The URL: where the page was found, or where it was looked for.
    pub url: String,
    /// The page as markdown.
    pub markdown: String,
    /// `ok`, `spa_detected` or `error`.
    pub status: String,
    /// Whether the page seems to need JavaScript.
    pub spa_detected: bool,
    /// The HTTP status; zero where there was no answer.
    pub http_status: u16,
    /// What went wrong.
    pub error: Option<String>,
}

/// Whether a fetch failed with the given message.
pub open spec fn is_failure(
    r: FetchResult,
    url: Seq<char>,
    http_status: u16,
    message: Seq<char>,
) -> bool {
    &&& r.url@ == url
    &&& r.markdown@.len() == 0
    &&& r.status@ == "error"@
    &&& !r.spa_detected
    &&& r.http_status == http_status
    &&& r.error is Some
    &&& r.error->0@ == message
}

/// The answer to a fetch that failed.
pub fn failed(url: &str, http_status: u16, message: String) -> (r: FetchResult)
    ensures
        is_failure(r, url@, http_status, message@),
{
    FetchResult {
        url: url.to_owned(),
        markdown: String::new(),
        status: "error".to_owned(),
        spa_detected: false,
        http_status,
        error: Some(message),
    }
}

/// Whether a fetch may be asked to take the given time.
pub fn check_timeout(timeout_secs: u64) -> (r: Result<(), String>)
    ensures
        match r {
            Ok(_) => 1 <= timeout_secs <= MAX_FETCH_TIMEOUT_SECS,
            Err(e) => !(1 <= timeout_secs <= MAX_FETCH_TIMEOUT_SECS) && e@
                == timeout_text(),
        },
        r is Ok <==> 1 <= timeout_secs <= 120,
{
    if timeout_secs == 0 || timeout_secs > MAX_FETCH_TIMEOUT_SECS {
        Err(
            text::concat3(
                "Timeout must be between 1 and ",
                text::decimal_of(MAX_FETCH_TIMEOUT_SECS).as_str(),
                " seconds",
            ),
        )
    } else {
        Ok(())
    }
}

/// Whether a redirect is followed: after fewer than five, to a URL that is accepted.
pub fn follow_redirect(previous: usize, target_accepted: bool) -> (r: bool)
    ensures
        r == (previous < MAX_REDIRECTS && target_accepted),
{
    previous < MAX_REDIRECTS && target_accepted
}

/// What is said of a request that could not be sent.
pub fn request_error(is_timeout: bool, is_redirect: bool, timeout_secs: u64, message: &str) -> (r:
    String)
    ensures
        r@ == (if is_timeout {
            "Request timed out after "@ + text::decimal(timeout_secs as nat) + "s"@
        } else if is_redirect {
            "Too many redirects"@
        } else {
            "Request failed: "@ + message@
        }),
{
    if is_timeout {
        text::concat3("Request timed out after ", text::decimal_of(timeout_secs).as_str(), "s")
    } else if is_redirect {
        "Too many redirects".to_owned()
    } else {
        text::concat("Request failed: ", message)
    }
}

/// Where a fetch came to an end before there was a page.
#[derive(Debug)]
pub enum FetchFailure {
    /// No TLS configuration could be built.
    Tls(String),
    /// No HTTP client could be built.
    Client(String),
    /// The request could not be sent, or was not answered.
    Send {
        /// Whether the time was over.
        is_timeout: bool,
        /// Whether a redirect was not followed.
        is_redirect: bool,
        /// What the client says.
        message: String,
    },
    /// The body could not be read.
    Body(String),
}

/// What is said of a fetch that came to an end before there was a page.
pub open spec fn failure_text(failure: FetchFailure, timeout_secs: u64) -> Seq<char> {
    match failure {
        FetchFailure::Tls(e) => "TLS config error: "@ + e@,
        FetchFailure::Client(e) => "Client build error: "@ + e@,
        FetchFailure::Send { is_timeout, is_redirect, message } => if is_timeout {
            "Request timed out after "@ + text::decimal(timeout_secs as nat) + "s"@
        } else if is_redirect {
            "Too many redirects"@
        } else {
            "Request failed: "@ + message@
        },
        FetchFailure::Body(e) => "Body read error: "@ + e@,
    }
}

/// The answer to a fetch that came to an end before there was a page.
pub fn fetch_failure(url: &str, http_status: u16, failure: &FetchFailure, timeout_secs: u64) -> (r:
    FetchResult)
    ensures
        is_failure(r, url@, http_status, failure_text(*failure, timeout_secs)),
{
    let message = match failure {
        FetchFailure::Tls(e) => text::concat("TLS config error: ", e.as_str()),
        FetchFailure::Client(e) => text::concat("Client build error: ", e.as_str()),
        FetchFailure::Send { is_timeout, is_redirect, message } => request_error(
            *is_timeout,
            *is_redirect,
            timeout_secs,
            message.as_str(),
        ),
        FetchFailure::Body(e) => text::concat("Body read error: ", e.as_str()),
    };
    failed(url, http_status, message)
}

/// What is said of a time that a fetch may not be asked to take.
pub open spec fn timeout_text() -> Seq<char> {
    "Timeout must be between 1 and "@ + text::decimal(MAX_FETCH_TIMEOUT_SECS as nat)
        + " seconds"@
}

/// What is checked before a page is fetched: the time it may take, then its URL. Where
/// either is refused, the answer says so.
pub fn start_fetch<F: Fn(&str, u16) -> Option<Vec<IpAddr>>>(
    url: &str,
    timeout_secs: u64,
    resolve: F,
) -> (r: Result<ParsedUrl, FetchResult>)
    requires
        forall|name: &str, port: u16| call_requires(resolve, (name, port)),
    ensures
        if !(1 <= timeout_secs <= MAX_FETCH_TIMEOUT_SECS) {
            r matches Err(answer) && is_failure(answer, url@, 0, timeout_text())
        } else {
            match guard::verdict(crate::urls::parsed_url(url@)) {
                Verdict::Refuse(message) => r matches Err(answer) && is_failure(
                    answer,
                    url@,
                    0,
                    message,
                ),
                Verdict::Accept => r matches Ok(u) && crate::urls::parsed_url(url@) == Some(u@),
                Verdict::Resolve(name, number) => exists|domain: &str, found: Option<Vec<IpAddr>>|
                    domain@ == name && #[trigger] call_ensures(resolve, (domain, number), found)
                        && match guard::address_error(guard::address_list(found)) {
                        Some(message) => r matches Err(answer) && is_failure(
                            answer,
                            url@,
                            0,
                            message,
                        ),
                        None => r matches Ok(u) && crate::urls::parsed_url(url@) == Some(u@),
                    },
            }
        },
{
    match check_timeout(timeout_secs) {
        Err(message) => Err(failed(url, 0, message)),
        Ok(_) => match guard::validate_url(url, resolve) {
            Ok(parsed) => Ok(parsed),
            Err(message) => Err(failed(url, 0, message)),
        },
    }
}

/// A size in whole megabytes.
pub open spec fn megabytes(bytes: usize) -> nat {
    (bytes / 1_048_576) as nat
}

/// A body that is read piece by piece, up to a number of bytes.
#[derive(Debug)]
pub struct CappedBody {
    bytes: Vec<u8>,
    max_bytes: usize,
}

impl CappedBody {
    /// What was read so far.
    pub closed spec fn content(&self) -> Seq<u8> {
        self.bytes@
    }

    /// How many bytes the body may have.
    pub closed spec fn cap(&self) -> usize {
        self.max_bytes
    }

    /// A body of which nothing was read, given the length that the server announced. An
    /// announced length over the cap is an error.
    pub fn new(content_length: Option<u64>, max_bytes: usize) -> (r: Result<Self, String>)
        ensures
            match r {
                Ok(body) => body.content() == Seq::<u8>::empty() && body.cap() == max_bytes && (
                content_length is Some ==> content_length->0 <= max_bytes),
                Err(e) => content_length is Some && content_length->0 > max_bytes && e@
                    == "Response body ("@ + text::decimal(content_length->0 as nat)
                    + " bytes) exceeds "@ + text::decimal(megabytes(max_bytes)) + " MB limit"@,
            },
    {
        if let Some(announced) = content_length {
            if announced > max_bytes as u64 {
                let start = text::concat3(
                    "Response body (",
                    text::decimal_of(announced).as_str(),
                    " bytes) exceeds ",
                );
                return Err(
                    text::concat3(
                        start.as_str(),
                        text::decimal_of((max_bytes / 1_048_576) as u64).as_str(),
                        " MB limit",
                    ),
                );
            }
        }
        Ok(CappedBody { bytes: Vec::new(), max_bytes })
    }

    /// Takes in a piece of the body; an error as soon as there are more bytes than the
    /// cap allows.
    pub fn push(&mut self, chunk: &[u8]) -> (r: Result<(), String>)
        ensures
            final(self).cap() == old(self).cap(),
            final(self).content() == old(self).content() + chunk@,
            match r {
                Ok(_) => final(self).content().len() <= old(self).cap(),
                Err(e) => final(self).content().len() > old(self).cap() && e@
                    == "Response body exceeds "@ + text::decimal(megabytes(old(self).cap()))
                    + " MB limit"@,
            },
    {
        let ghost before = self.bytes@;
        let mut i: usize = 0;
        assert(self.bytes@ =~= before + chunk@.take(0));
        while i < chunk.len()
            invariant
                i <= chunk@.len(),
                self.bytes@ == before + chunk@.take(i as int),
                self.max_bytes == old(self).max_bytes,
            decreases chunk.len() - i,
        {
            self.bytes.push(chunk[i]);
            assert(self.bytes@ =~= before + chunk@.take(i + 1));
            i = i + 1;
        }
        assert(chunk@.take(chunk@.len() as int) =~= chunk@);
        if self.bytes.len() > self.max_bytes {
            Err(
                text::concat3(
                    "Response body exceeds ",
                    text::decimal_of((self.max_bytes / 1_048_576) as u64).as_str(),
                    " MB limit",
                ),
            )
        } else {
            Ok(())
        }
    }

    /// The whole body.
    pub fn finish(self) -> (r: Vec<u8>)
        ensures
            r@ == self.content(),
    {
        self.bytes
    }
}

/// The markdown that `html-to-markdown-rs` makes of a page; `None` where it fails.
pub uninterp spec fn markdown_of(html: Seq<char>) -> Option<Seq<char>>;

/// `html_to_markdown_rs::convert` with the default options: the content of its result,
/// empty where that holds none. The result depends on the page alone.
#[verifier::external_body]
fn html_to_markdown(html: &str) -> (r: Option<String>)
    ensures
        match r {
            Some(markdown) => markdown_of(html@) == Some(markdown@),
            None => markdown_of(html@) is None,
        },
{
    html_to_markdown_rs::convert(html, None).ok().map(|r| r.content.unwrap_or_default())
}

/// Whether an answer is that of a page whose markdown is known, with a warning behind it
/// where the page seems to need JavaScript.
pub open spec fn is_page(
    r: FetchResult,
    url: Seq<char>,
    http_status: u16,
    markdown: Option<Seq<char>>,
    spa: bool,
) -> bool {
    let content = match markdown {
        Some(m) => m,
        None => Seq::empty(),
    };
    &&& r.url@ == url
    &&& r.markdown@ == (if spa {
        content + page::spa_warning()
    } else {
        content
    })
    &&& r.status@ == (if spa {
        "spa_detected"@
    } else {
        "ok"@
    })
    &&& r.spa_detected == spa
    &&& r.http_status == http_status
    &&& r.error is None
}

/// The answer to a fetch of a page, given its markdown and what the heuristics say of it.
pub fn page_answer(
    url: &str,
    http_status: u16,
    markdown: Option<String>,
    spa: bool,
    warning: &str,
) -> (r: FetchResult)
    requires
        warning@ == (if spa {
            page::spa_warning()
        } else {
            Seq::empty()
        }),
    ensures
        is_page(
            r,
            url@,
            http_status,
            match markdown {
                Some(m) => Some(m@),
                None => None,
            },
            spa,
        ),
{
    let mut content = match markdown {
        Some(m) => m,
        None => String::new(),
    };
    let status = if spa {
        content.push_str(warning);
        "spa_detected"
    } else {
        "ok"
    };
    FetchResult {
        url: url.to_owned(),
        markdown: content,
        status: status.to_owned(),
        spa_detected: spa,
        http_status,
        error: None,
    }
}

/// The answer to a fetch whose body was read: an error where it is not valid UTF-8, else
/// the page as markdown.
pub fn finish_fetch(url: &str, http_status: u16, body: Vec<u8>) -> (r: FetchResult)
    ensures
        if !vstd::utf8::valid_utf8(body@) {
            is_failure(r, url@, http_status, "Invalid UTF-8: "@ + text::utf8_error(body@))
        } else {
            let html = vstd::utf8::decode_utf8(body@);
            is_page(r, url@, http_status, markdown_of(html), page::page_is_spa(html))
        },
{
    match text::from_utf8(body) {
        Err(e) => failed(url, http_status, text::concat("Invalid UTF-8: ", e.as_str())),
        Ok(html) => {
            let (spa, warning) = page::detect_spa(html.as_str());
            let markdown = html_to_markdown(html.as_str());
            page_answer(url, http_status, markdown, spa, warning.as_str())
        },
    }
}

/// What every answer to a fetch is like: an error, a page, or a page that seems to need
/// JavaScript, told apart by its status; an error has a message and no markdown.
pub proof fn answers_say_what_they_are(
    r: FetchResult,
    url: Seq<char>,
    http_status: u16,
    message: Seq<char>,
    markdown: Option<Seq<char>>,
    spa: bool,
)
    requires
        is_failure(r, url, http_status, message) || is_page(r, url, http_status, markdown, spa),
    ensures
        r.status@ == "ok"@ || r.status@ == "spa_detected"@ || r.status@ == "error"@,
        r.status@ == "error"@ <==> r.error is Some,
        r.spa_detected <==> r.status@ == "spa_detected"@,
        r.status@ == "error"@ ==> r.markdown@.len() == 0,
{
    reveal_strlit("ok");
    reveal_strlit("spa_detected");
    reveal_strlit("error");
    assert("ok"@.len() == 2 && "error"@.len() == 5 && "spa_detected"@.len() == 12);
}

/// A page is answered with its address, its HTTP status and its markdown, as it is; behind the
/// markdown of a page that seems to need JavaScript stands the warning, and nothing else. A page
/// of which no markdown could be made is empty.
pub proof fn pages_are_answered_with_their_markdown(
    r: FetchResult,
    url: Seq<char>,
    http_status: u16,
    markdown: Option<Seq<char>>,
    spa: bool,
)
    requires
        is_page(r, url, http_status, markdown, spa),
    ensures
        r.url@ == url,
        r.http_status == http_status,
        r.error is None,
        r.spa_detected == spa,
        !spa && markdown is Some ==> r.markdown@ == markdown->0 && r.status@ == "ok"@,
        !spa && markdown is None ==> r.markdown@.len() == 0 && r.status@ == "ok"@,
        spa && markdown is Some ==> r.markdown@ == markdown->0 + page::spa_warning() && r.status@
            == "spa_detected"@,
        spa && markdown is None ==> r.markdown@ == page::spa_warning() && r.status@
            == "spa_detected"@,
{
    assert(Seq::<char>::empty() + page::spa_warning() =~= page::spa_warning());
}

/// A failure is answered with the address that was asked for, the HTTP status, and what went
/// wrong: a timeout before a redirect, and a redirect before anything else.
pub proof fn failures_say_what_went_wrong(
    r: FetchResult,
    url: Seq<char>,
    http_status: u16,
    failure: FetchFailure,
    timeout_secs: u64,
)
    requires
        is_failure(r, url, http_status, failure_text(failure, timeout_secs)),
    ensures
        r.url@ == url,
        r.http_status == http_status,
        r.markdown@.len() == 0,
        r.status@ == "error"@,
        !r.spa_detected,
        r.error is Some,
        failure matches FetchFailure::Tls(e) ==> r.error->0@ == "TLS config error: "@ + e@,
        failure matches FetchFailure::Client(e) ==> r.error->0@ == "Client build error: "@ + e@,
        failure matches FetchFailure::Body(e) ==> r.error->0@ == "Body read error: "@ + e@,
        failure matches FetchFailure::Send { is_timeout, is_redirect, message } ==> {
            &&& is_timeout ==> r.error->0@ == "Request timed out after "@ + text::decimal(
                timeout_secs as nat,
            ) + "s"@
            &&& !is_timeout && is_redirect ==> r.error->0@ == "Too many redirects"@
            &&& !is_timeout && !is_redirect ==> r.error->0@ == "Request failed: "@ + message@
        },
{
}

/// A fetch may take two minutes, follow five redirects and read five megabytes, and what is said
/// of these bounds names them.
pub proof fn fetches_are_bounded(bytes: usize)
    ensures
        MAX_FETCH_TIMEOUT_SECS == 2 * 60,
        MAX_REDIRECTS == 5,
        MAX_FETCH_BODY_SIZE == 5 * 1024 * 1024,
        timeout_text() == "Timeout must be between 1 and "@ + text::decimal(120) + " seconds"@,
        megabytes(bytes) * 1024 * 1024 <= bytes < (megabytes(bytes) + 1) * 1024 * 1024,
{
}

} // verus!
