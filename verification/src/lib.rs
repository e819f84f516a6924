//! Assembly of Chat Completions streaming requests from a conversation history.
//!
//! [`chat`] holds the builder of a request, [`messages`] and [`tool_calls`] what
//! its messages are, [`reasoning`] which of them carry reasoning, and [`headers`]
//! its headers. What holds of every request is stated in [`laws`],
//! [`request_laws`] (its body and headers), [`message_laws`] (what is sent for
//! each item), [`history_laws`] (the texts and turns of a history),
//! [`reasoning_laws`] and [`anchor_laws`] (which reasoning is sent, and where).
//! What is relied on of other crates is stated in [`json`], [`headers`] and
//! [`text`].
pub mod anchor_laws;
pub mod chat;
pub mod headers;
pub mod history_laws;
pub mod json;
pub mod laws;
pub mod message_laws;
pub mod messages;
pub mod models;
pub mod provider;
pub mod reasoning;
pub mod reasoning_laws;
pub mod request_laws;
pub mod text;
pub mod tool_calls;

pub use chat::{ChatRequest, ChatRequestBuilder};
