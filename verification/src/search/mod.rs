//! Search requests and responses, and what is done with the results of many
//! providers: merging, deduplication and ranking.

pub mod merge;
pub mod order;
pub mod provider;
pub mod providers;
pub mod rank;
pub mod request;

pub use merge::ResultMerger;
pub use provider::{ProviderClientConfig, ProviderError, Tag};
pub use rank::{compute_composite_score, rank};
pub use request::{Freshness, SearchRequest, SearchResponse, SearchResult};
