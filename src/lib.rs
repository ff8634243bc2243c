//! Client-side processing of streamed chat completions.
//!
//! - [`api`]: the records of the stream and of the assembled response.
//! - [`chat`]: per-output phase tracking and the events each chunk calls for.
//! - [`consumer`]: the caller's bundle of optional callbacks.
//! - [`assembler`]: reassembly of a complete response from its chunks.
//! - [`followup`]: assembled outputs as request messages for the next turn.
//! - [`buffer`]: per-output token buffers for block-wise display.
//! - [`interceptor`]: request interceptors, such as the bearer-token one.
pub mod api;
pub mod assembler;
pub mod buffer;
pub mod chat;
pub mod consumer;
pub mod followup;
pub mod interceptor;
