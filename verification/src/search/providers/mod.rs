//! Search providers: what each of them is asked, and what is made of its answers.
//!
//! The caller sends the requests and decodes JSON bodies; which request is sent, and
//! which results or error an answer amounts to, is decided here.

pub mod answer;
pub mod brave;
pub mod duckduckgo;
pub mod jina;
pub mod searxng;
