//! What the operations are for, stated of their inputs and results.
//!
//! Each law takes the arguments and the result of a call, and says what the result has to satisfy in
//! terms of the messages, calls and replies that went in: what is kept, what is passed on unchanged, and
//! how two calls relate.

pub mod answers;
pub mod bootstrap;
pub mod compaction;
pub mod copies;
pub mod delivery;
pub mod driver;
pub mod endings;
pub mod envelopes;
pub mod history;
pub mod prompts;
pub mod protocol;
pub mod recovery;
pub mod request;
pub mod results;
pub mod scopes;
pub mod setup;
pub mod storage;
pub mod tool_calls;
pub mod turns;
