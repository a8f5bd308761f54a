//! Client-side logic for an OpenAI-compatible streaming chat endpoint:
//! configuration resolution, input aggregation, request construction, and an
//! incremental decoder for Server-Sent-Events response streams.

pub mod config;
pub mod errors;
pub mod json;
pub mod input;
pub mod request;
pub mod sse;
pub mod stream;
mod text;
