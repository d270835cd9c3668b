//! Conversation state and streaming-response engine.
//!
//! The crate owns multi-conversation chat history, derives titles, plans
//! durable transcript persistence as JSON lines, resolves provider
//! configuration, and reassembles incremental model responses. All logic is
//! verified; filesystem and network edges live outside the crate and exchange
//! plain values with it.

pub mod auth;
pub mod clock;
pub mod codec;
pub mod config;
pub mod ids;
pub mod llm;
pub mod mcp;
pub mod project;
pub mod state;
pub mod store;
pub mod stream;
pub mod strutil;
pub mod ui;
