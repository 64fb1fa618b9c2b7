//! Talking to a chat-completions server.

pub mod auth;
pub mod client;
pub mod exchange;
pub mod response;
pub mod sse;
pub mod wire;
