//! Session-bound executable definitions shared by independent processes.

use crate::agent::Tools;
use crate::capabilities::Capabilities;
use crate::prompt::SystemPrompt;
use crate::subagents::{SubAgentMode, SubAgents};
use vstd::prelude::*;

verus! {

/// What a process runs.
pub struct Program {
    pub capabilities: Capabilities,
    pub name: String,
    pub mode: SubAgentMode,
    pub system_prompt: SystemPrompt,
    pub tools: Tools,
    pub subagents: SubAgents,
}

}
