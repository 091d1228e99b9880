//! Daemon wire protocol types: messages over the Unix domain socket.

use crate::cache::entries::CacheStats;
use crate::daemon::fetch::FetchResult;
use crate::double::Ratio;
use crate::search::request::{SearchRequest, SearchResponse};
use vstd::prelude::*;

verus! {

/// A request sent from the MCP server or CLI client to the daemon.
#[derive(Debug)]
pub enum Request {
    /// Execute a search across configured providers.
    Search(SearchRequest),
    /// List all configured providers with descriptions, tags, and health.
    ListProviders,
    /// Retrieve cache statistics (hit rate, entry count, total size).
    CacheStats,
    /// Get detailed provider health statuses.
    ProviderStatus,
    /// Clear cache entries, optionally filtered by provider name.
    CacheClear {
        /// If `Some`, only clear entries from this provider.
        /// If `None`, clear all cache entries.
        provider: Option<String>,
    },
    /// Fetch a page as markdown.
    Fetch {
        /// The URL of the page.
        url: String,
        /// For how many seconds the fetch may take.
        timeout_secs: u64,
    },
    /// Health check: returns daemon status, uptime, and version.
    Health,
    /// Gracefully shut down the daemon.
    Shutdown,
}

/// A response sent from the daemon to the MCP server or CLI client.
///
/// Every [`Request`] produces exactly one [`Response`]. Errors are
/// communicated via the [`Response::Error`] variant, not by closing the
/// connection. The connection remains open for additional requests after
/// any response (including errors).
#[derive(Debug)]
pub enum Response {
    /// Successful search response with ranked, deduplicated results.
    SearchResult(SearchResponse),
    /// List of all configured providers with metadata.
    ProviderList {
        /// Configured providers with current availability and health.
        listed: Vec<ProviderInfo>,
    },
    /// Cache statistics.
    CacheStats(CacheStats),
    /// Detailed provider health information.
    ProviderStatus {
        /// Health status for each configured provider.
        providers: Vec<ProviderHealth>,
    },
    /// Result of a cache-clear operation.
    CacheCleared {
        /// Number of cache entries that were removed.
        removed: u64,
    },
    /// A fetched page.
    FetchResult(FetchResult),
    /// Daemon health check response.
    Health {
        /// Always `"ok"` when the daemon is running.
        status: String,
        /// Seconds since the daemon started.
        uptime_secs: u64,
        /// Daemon version string.
        version: String,
    },
    /// An error occurred while processing the request.
    Error {
        /// JSON-RPC-compatible error code (negative for standard errors).
        code: i32,
        /// Human-readable error message.
        message: String,
    },
    /// Acknowledgment that the daemon is shutting down.
    ShutdownAck,
}

/// Information about a single search provider, returned by [`Request::ListProviders`].
#[derive(Debug)]
pub struct ProviderInfo {
    /// Unique provider name (matches the key in the provider catalog).
    pub name: String,
    /// Human-readable description of the provider.
    pub description: String,
    /// Semantic tags categorizing the provider's capabilities.
    pub tags: Vec<String>,
    /// Whether the provider is configured and available for use.
    pub available: bool,
    /// Whether the provider is currently healthy (not degraded or unhealthy).
    pub healthy: bool,
    /// Current health score (0–1), based on recent success/failure ratio.
    pub health_score: Ratio,
}

/// Detailed health information for a single provider, returned by [`Request::ProviderStatus`].
#[derive(Debug)]
pub struct ProviderHealth {
    /// Unique provider name.
    pub name: String,
    /// Whether the provider is healthy (success rate above threshold).
    pub healthy: bool,
    /// Whether the provider is degraded (success rate below threshold but not yet unhealthy).
    pub degraded: bool,
    /// Current health score (0–1).
    pub health_score: Ratio,
    /// Total successful requests since daemon start (or last reset).
    pub success_count: u64,
    /// Total failed requests since daemon start (or last reset).
    pub failure_count: u64,
    /// The last error message, if any.
    pub last_error: Option<String>,
}

} // verus!
