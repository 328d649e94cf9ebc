//! A semantic router for chat completions: each request goes to the backend of
//! the category that its text is closest to.
//!
//! Requests are screened for forbidden phrases and for personal data,
//! near-duplicates are answered from a cache, and the rest is routed by its
//! embedding. What needs floating point, files or the network is handed in from
//! outside: scores are bit patterns, embeddings are opaque, and the arithmetic
//! on them comes as closures.
pub mod cache;
pub mod classifier;
pub mod config;
pub mod embeddings;
pub mod json;
pub mod laws;
pub mod pii;
pub mod prompt_guard;
pub mod proxy;
pub mod redaction;
pub mod routing;
pub mod score;
pub mod server;
pub mod text;
