//! MITM engine for redirecting the traffic of an IDE to a provider of the user's own.
//!
//! Pipeline: IDE -> hosts-file hijack -> local TLS :443 (leaf certificate signed by a local root
//! CA) -> classify request -> either translate to an OpenAI-compatible provider and re-encode the
//! reply as an AWS EventStream, or pass through untouched to the real upstream.

pub mod appconfig;
pub mod base64;
pub mod cache;
pub mod calendar;
pub mod cert;
pub mod command;
pub mod config;
pub mod daemon;
pub mod desktop;
pub mod dns;
pub mod error;
pub mod eventstream;
pub mod hosts;
pub mod json;
pub mod mapping;
pub mod net;
pub mod paths;
pub mod platform;
pub mod privilege;
pub mod provider;
pub mod proxy;
pub mod session;
pub mod text;
pub mod translate;
pub mod types;
pub mod utf8;

pub use config::{Tool, TOOL_HOSTS};
pub use error::Error;
