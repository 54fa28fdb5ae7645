//! Agents that talk to a language model, call tools and hand work to each other.

pub mod agent;
pub mod capabilities;
pub mod compaction;
pub mod config;
pub mod execution;
pub mod ids;
pub mod laws;
pub mod lists;
pub mod llm;
pub mod message_view;
pub mod persist;
pub mod process;
pub mod program;
pub mod prompt;
pub mod runtime;
pub mod string_map;
pub mod subagents;
pub mod task;
pub mod text;

pub use agent::{
    AbortedTarget, AgentEvent, Envelope, HistoryEntry, PendingApproval, ResumeDecision, Sender,
    ToolCallResolution,
};
pub use capabilities::{Capabilities, Capability};
pub use config::{ModelProfile, RunConfig, ToolApprovalMode};
pub use persist::{StoredCheckpoint, StoredRuntimeSnapshot};
pub use process::{Process, ProcessId};
pub use program::Program;
pub use prompt::{substitute, SharedSystemPrompt, SystemPrompt, VarsProvider};
pub use subagents::{SubAgentMode, SubAgentTool, SUBAGENT_TOOL_PREFIX};
