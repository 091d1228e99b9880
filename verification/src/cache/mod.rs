//! The result cache: how entries are keyed, how long they live, and what is
//! counted. The entries themselves lie in a database, which the caller queries.

pub mod entries;
pub mod keys;

pub use entries::{CacheCounters, CacheStats, StoredEntry};
pub use keys::{cache_key, provider_list_string, request_cache_key};
