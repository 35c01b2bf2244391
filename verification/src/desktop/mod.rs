//! The desktop application: a control panel around the engine, which delegates privileged work to
//! the daemon process.

pub mod commands;
pub mod daemon;
pub mod journal;
pub mod stopping;
pub mod supervisor;
