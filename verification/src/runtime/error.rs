//! Why a message or a command could not be sent.

use vstd::prelude::*;

verus! {

/// Why a message or a command could not be sent.
#[derive(Debug, Clone, Copy, PartialEq, Eq, Structural)]
pub enum SendCommandError {
    TurnAlreadyActive,
    ThreadBusy,
    AwaitingCleanup,
    PendingApprovals,
    ScopeClosed,
    StaleApproval,
    AgentNotFound,
    ChannelClosed,
}

impl SendCommandError {
    /// The error in words.
    pub open spec fn words(self) -> Seq<char> {
        match self {
            SendCommandError::TurnAlreadyActive => "A turn is already active"@,
            SendCommandError::ThreadBusy =>
                "Subagent thread is busy; wait for its current call to finish"@,
            SendCommandError::AwaitingCleanup => "Thread is waiting for abort cleanup"@,
            SendCommandError::PendingApprovals => "Session has pending approvals"@,
            SendCommandError::ScopeClosed => "Execution scope is closed"@,
            SendCommandError::StaleApproval =>
                "Approval is stale or does not match its pending calls"@,
            SendCommandError::AgentNotFound => "Agent not found"@,
            SendCommandError::ChannelClosed => "Channel closed"@,
        }
    }

    /// The error in words.
    pub fn describe(&self) -> (res: &'static str)
        ensures
            res@ == self.words(),
    {
        match self {
            SendCommandError::TurnAlreadyActive => "A turn is already active",
            SendCommandError::ThreadBusy =>
                "Subagent thread is busy; wait for its current call to finish",
            SendCommandError::AwaitingCleanup => "Thread is waiting for abort cleanup",
            SendCommandError::PendingApprovals => "Session has pending approvals",
            SendCommandError::ScopeClosed => "Execution scope is closed",
            SendCommandError::StaleApproval =>
                "Approval is stale or does not match its pending calls",
            SendCommandError::AgentNotFound => "Agent not found",
            SendCommandError::ChannelClosed => "Channel closed",
        }
    }
}

}
