//! The daemon: provider orchestration, the socket protocol, and what the server
//! decides about requests and pages.

pub mod catalog;
pub mod dispatch;
pub mod fetch;
pub mod frames;
pub mod guard;
pub mod health;
pub mod lifecycle;
pub mod manager;
pub mod page;
pub mod protocol;
pub mod run;
pub mod server;

pub use catalog::{ProviderCatalog, ProviderEntry};
pub use health::{HealthEvent, HealthState, HealthStatus};
pub use manager::Manager;
