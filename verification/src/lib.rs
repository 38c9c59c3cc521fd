//! Verified core of a chat backend that stores conversations and relays
//! streamed completions: data model, persistence statements, stream
//! decoding and response buffering.

pub mod text;
pub mod models;
mod runtime;
pub mod api;
