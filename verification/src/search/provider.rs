//! What providers are: their tags, their errors and the client settings they use.

use crate::text;
use vstd::prelude::*;

verus! {

/// Minimal client configuration that a provider builds its HTTP client from.
#[derive(Debug)]
pub struct ProviderClientConfig {
    /// Whether to randomize TLS cipher suite order (anti-fingerprinting).
    /// Maps to `tls_shuffle_ciphers` in the provider config TOML section.
    pub tls_shuffle_ciphers: bool,
    /// IP rotation strategy: `"static"`, `"ipv6_pool"`, or `"proxy_pool"`.
    pub ip_rotation_strategy: Option<String>,
    /// IPv6 subnet in CIDR notation (e.g., `"2001:db8::/64"`) for `ipv6_pool` strategy.
    pub ipv6_subnet: Option<String>,
    /// SOCKS5/HTTP proxy URLs for `proxy_pool` strategy.
    pub proxies: Option<Vec<String>>,
    /// Per-provider request timeout override in seconds. Falls back to the
    /// global default (30 s) when `None`.
    pub timeout_secs: Option<u64>,
}

impl ProviderClientConfig {
    /// The request timeout in seconds: the override, or 30 s.
    pub fn effective_timeout_secs(&self) -> (r: u64)
        ensures
            r == match self.timeout_secs {
                Some(secs) => secs,
                None => 30,
            },
    {
        match self.timeout_secs {
            Some(secs) => secs,
            None => 30,
        }
    }

    /// The proxy that a client is built with: the first of the list. Rotation over
    /// the whole list is the business of the IP rotation strategy.
    pub fn first_proxy(&self) -> (r: Option<&String>)
        ensures
            match r {
                Some(url) => self.proxies is Some && self.proxies->0@.len() > 0 && *url
                    == self.proxies->0@[0],
                None => self.proxies is None || self.proxies->0@.len() == 0,
            },
    {
        match &self.proxies {
            Some(urls) => if urls.len() > 0 {
                Some(&urls[0])
            } else {
                None
            },
            None => None,
        }
    }
}

/// Semantic tags describing a provider's capabilities and data domain.
///
/// Tags are used by the provider catalog to filter and select providers
/// based on the type of search requested, and to assign providers to
/// tiers in the fallback ladder.
#[derive(Debug, Clone, Copy, PartialEq, Eq, Hash, Structural)]
pub enum Tag {
    /// General web search.
    Web,
    /// News articles and current events.
    News,
    /// Academic papers, journals, and scholarly sources.
    Academic,
    /// Source code, documentation, and developer resources.
    Code,
    /// Privacy-respecting search engines (no tracking, no logs).
    Privacy,
    /// Financial data, stock quotes, market information.
    Finance,
    /// Image search results.
    Images,
    /// Video search results.
    Video,
    /// Shopping and product search.
    Shopping,
    /// Encyclopedic knowledge, facts, and reference material.
    Knowledge,
    /// Browser-automation scraping (Playwright-based). Tier-5 only; excluded
    /// from concurrent dispatch.
    Playwright,
}

/// Errors that can occur during a provider search.
///
/// Used uniformly across all provider implementations so the dispatch engine can
/// handle errors consistently.
#[derive(Debug)]
pub enum ProviderError {
    /// An HTTP error response (e.g., 500, 503). Retryable depending on status.
    HttpError {
        /// The HTTP status code returned by the provider.
        status: u16,
        /// The response body, truncated for logging.
        body: String,
    },
    /// Rate limit hit (HTTP 429).
    RateLimited {
        /// Value of the `Retry-After` header in seconds, if the provider sent one.
        retry_after: Option<u64>,
    },
    /// Access denied (HTTP 403). Terminal: not retried.
    AccessDenied,
    /// A CAPTCHA challenge was detected in the provider's response.
    CaptchaDetected {
        /// Name of the provider that returned the CAPTCHA.
        provider: String,
    },
    /// The request exceeded the configured timeout.
    Timeout {
        /// Elapsed wall-clock time in seconds.
        elapsed_secs: u64,
    },
    /// Failed to parse the provider's response into the canonical format.
    ParseError(String),
    /// The provider is referenced in the catalog or request but is not
    /// configured (missing API key, missing URL, etc.).
    NotConfigured(String),
    /// An internal error within the provider implementation.
    Internal(String),
}

impl ProviderError {
    /// The error as it is shown to a user.
    pub open spec fn text(&self) -> Seq<char> {
        match self {
            ProviderError::HttpError { status, .. } => "HTTP error: status "@ + text::decimal(
                *status as nat,
            ),
            ProviderError::RateLimited { .. } => "Rate limited (429)"@,
            ProviderError::AccessDenied => "Access denied (403)"@,
            ProviderError::CaptchaDetected { .. } => "Captcha detected"@,
            ProviderError::Timeout { elapsed_secs } => "Timeout after "@ + text::decimal(
                *elapsed_secs as nat,
            ) + "s"@,
            ProviderError::ParseError(msg) => "Parse error: "@ + msg@,
            ProviderError::NotConfigured(msg) => "Not configured: "@ + msg@,
            ProviderError::Internal(msg) => "Internal: "@ + msg@,
        }
    }

    /// The error as it is shown to a user.
    pub fn message(&self) -> (r: String)
        ensures
            r@ == self.text(),
    {
        match self {
            ProviderError::HttpError { status, .. } => text::concat(
                "HTTP error: status ",
                text::decimal_of(*status as u64).as_str(),
            ),
            ProviderError::RateLimited { .. } => "Rate limited (429)".to_owned(),
            ProviderError::AccessDenied => "Access denied (403)".to_owned(),
            ProviderError::CaptchaDetected { .. } => "Captcha detected".to_owned(),
            ProviderError::Timeout { elapsed_secs } => text::concat3(
                "Timeout after ",
                text::decimal_of(*elapsed_secs).as_str(),
                "s",
            ),
            ProviderError::ParseError(msg) => text::concat("Parse error: ", msg.as_str()),
            ProviderError::NotConfigured(msg) => text::concat("Not configured: ", msg.as_str()),
            ProviderError::Internal(msg) => text::concat("Internal: ", msg.as_str()),
        }
    }
}

/// What is said of each error: the status, the limit, the denial, the challenge, the seconds that
/// passed, or the message behind what kind of error it is.
pub proof fn errors_say_what_they_are(e: ProviderError)
    ensures
        e matches ProviderError::HttpError { status, .. } ==> e.text() == "HTTP error: status "@
            + text::decimal(status as nat),
        e is RateLimited ==> e.text() == "Rate limited (429)"@,
        e is AccessDenied ==> e.text() == "Access denied (403)"@,
        e is CaptchaDetected ==> e.text() == "Captcha detected"@,
        e matches ProviderError::Timeout { elapsed_secs } ==> e.text() == "Timeout after "@
            + text::decimal(elapsed_secs as nat) + "s"@,
        e matches ProviderError::ParseError(msg) ==> e.text() == "Parse error: "@ + msg@,
        e matches ProviderError::NotConfigured(msg) ==> e.text() == "Not configured: "@ + msg@,
        e matches ProviderError::Internal(msg) ==> e.text() == "Internal: "@ + msg@,
{
}

} // verus!
