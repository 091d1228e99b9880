//! Anti-blocking countermeasures: user-agent rotation, exponential backoff
//! retry, sliding-window rate limiting, page delays, TLS cipher shuffling, and IP rotation.

pub mod agents;
pub mod ip_rotation;
pub mod page_delay;
pub mod rate_limiter;
pub mod retry;
pub mod rotating_client;
pub mod tls;

pub use agents::UserAgentPool;
pub use ip_rotation::{
    IpRotationStrategy, Ipv6PoolStrategy, ProxyPoolStrategy, StaticIpStrategy,
    build_ip_rotation_strategy,
};
pub use page_delay::{PageDelay, RequestPacer};
pub use rate_limiter::RateLimiter;
pub use retry::{ClassifyRetry, RetryConfig};
pub use rotating_client::RotatingClient;
pub use tls::{build_shuffled_tls_config, can_shuffle_ciphers};
