//! The verified core of `skipjackd`, a multi-provider web search daemon with anti-blocking
//! countermeasures, local caching and MCP integration.
//!
//! Everything that the daemon, its command line and its MCP server decide stands here, with
//! contracts that Verus proves. The program around it does the input and output: it performs
//! what the library asks for and hands back what came of it.
//!
//! - [`search`]: requests and results, the providers, merging and ranking
//! - [`anti_blocking`]: rate limits, retries, rotation of addresses, clients and user agents,
//!   cipher shuffling
//! - [`cache`]: keys and lifetimes of cached responses
//! - [`config`]: the configuration, its defaults and its environment overrides
//! - [`daemon`]: dispatch of searches, health tracking, the socket protocol, page fetching
//! - [`cli`], [`client`], [`mcp`]: the command line and the tools
//! - [`double`], [`named`], [`net`], [`text`], [`urls`]: what the rest is built on

pub mod anti_blocking;
pub mod cache;
pub mod cli;
pub mod client;
pub mod config;
pub mod daemon;
pub mod double;
pub mod mcp;
pub mod named;
pub mod net;
pub mod search;
pub mod text;
pub mod urls;
