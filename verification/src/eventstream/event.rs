//! The names of the events that a client dispatches on.

use vstd::prelude::*;

verus! {

pub const ASSISTANT_RESPONSE: &'static str = "assistantResponseEvent";

pub const REASONING_CONTENT: &'static str = "reasoningContentEvent";

pub const TOOL_USE: &'static str = "toolUseEvent";

pub const USAGE: &'static str = "usageEvent";

pub const MESSAGE_STOP: &'static str = "messageStopEvent";

} // verus!
