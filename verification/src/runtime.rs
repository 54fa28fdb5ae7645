//! The runtime of a session: its turns, its drivers, and what it keeps across restarts.

pub mod agent_loop;
pub mod auto_compact;
pub mod bootstrap;
pub mod cleanup;
pub mod delivery;
pub mod driver;
pub mod error;
pub mod generation;
pub mod protocol;
pub mod recovery;
pub mod scopes;
pub mod storage;
pub mod tools;
pub mod turn;
pub mod turn_run;

pub use crate::persist::AgentRuntimeSnapshot;
pub use error::SendCommandError;
pub use storage::{MemoryStorage, SessionStorage};
