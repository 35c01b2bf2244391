//! The operating systems that are told apart.

use vstd::prelude::*;

verus! {

/// The operating system that commands and paths are meant for.
#[derive(Debug, Clone, Copy, PartialEq, Eq, Structural)]
pub enum Platform {
    MacOs,
    Linux,
    Windows,
}

} // verus!
