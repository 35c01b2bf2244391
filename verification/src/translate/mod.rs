//! Translation between the two protocols: the conversation that the IDE sends becomes a
//! chat-completions request, and the streamed answer becomes an AWS EventStream.

pub mod calls;
pub mod closing;
pub mod fidelity;
pub mod limits;
pub mod payloads;
pub mod request;
pub mod response;
pub mod sse;
pub mod stream;
pub mod thinking;

pub use request::to_chat_request;
pub use response::StreamState;
pub use sse::SseReader;
