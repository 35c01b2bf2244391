//! The shapes of both protocols.
//!
//! [`cw`] holds what the IDE sends (CodeWhisperer / KiroRuntimeService shapes), with the fields
//! that are read and no others. [`openai`] holds the chat-completions request that goes upstream
//! and the stream chunks that come back.

pub mod cw;
pub mod openai;
