use coda_agent::agent::ThreadId;
use coda_agent::ids::TurnId;
use coda_agent::runtime::turn::{CallLedger, TurnAlreadyActive, TurnGate};
use coda_agent::runtime::SendCommandError;

const ONE: TurnId = TurnId { value: 1 };
const TWO: TurnId = TurnId { value: 2 };

fn thread(id: &str) -> ThreadId {
    ThreadId::from(id.to_string())
}

#[test]
fn one_turn_at_a_time() {
    let mut gate = TurnGate::new();
    assert_eq!(gate.active_id(), None);
    assert_eq!(gate.open(ONE), Ok(()));
    assert_eq!(gate.open(TWO), Err(TurnAlreadyActive));
    assert_eq!(gate.open(ONE), Err(TurnAlreadyActive));
    gate.close(TWO);
    assert_eq!(gate.active_id(), Some(ONE));
    gate.close(ONE);
    assert_eq!(gate.open(TWO), Ok(()));
}

#[test]
fn a_request_to_stop_ends_with_its_turn() {
    let mut gate = TurnGate::new();
    gate.cancel_active();
    assert!(!gate.is_cancelled(ONE));
    gate.open(ONE).unwrap();
    gate.cancel(TWO);
    assert!(!gate.is_cancelled(ONE));
    gate.cancel(ONE);
    assert!(gate.is_cancelled(ONE));
    assert!(!gate.is_cancelled(TWO));
    gate.close(ONE);
    gate.open(TWO).unwrap();
    assert!(!gate.is_cancelled(TWO));
    gate.cancel_active();
    assert!(gate.is_cancelled(TWO));
}

#[test]
fn restored_work_has_to_agree_on_its_turn() {
    let mut gate = TurnGate::default();
    assert_eq!(gate.restore(ONE), Ok(()));
    assert_eq!(gate.restore(ONE), Ok(()));
    assert!(gate.restore(TWO).is_err());
    assert_eq!(gate.active_id(), Some(ONE));
}

#[test]
fn answers_are_owed_until_they_are_settled() {
    let mut calls = CallLedger::new();
    assert!(!calls.is_answering(&thread("a")));
    assert!(calls.try_begin(&thread("a")));
    assert!(!calls.try_begin(&thread("a")));
    calls.begin(&thread("a"));
    calls.end(&thread("a"));
    assert!(calls.is_answering(&thread("a")));
    calls.end(&thread("a"));
    assert!(!calls.is_answering(&thread("a")));
    calls.end(&thread("a"));
    assert!(!calls.is_answering(&thread("a")));
}

#[test]
fn clearing_a_thread_forgets_only_its_answers() {
    let mut calls = CallLedger::default();
    calls.begin(&thread("a"));
    calls.begin(&thread("b"));
    calls.begin(&thread("a"));
    calls.clear(&thread("a"));
    assert!(!calls.is_answering(&thread("a")));
    assert!(calls.is_answering(&thread("b")));
}

#[test]
fn send_errors_in_words() {
    for (error, words) in [
        (SendCommandError::TurnAlreadyActive, "A turn is already active"),
        (
            SendCommandError::ThreadBusy,
            "Subagent thread is busy; wait for its current call to finish",
        ),
        (
            SendCommandError::AwaitingCleanup,
            "Thread is waiting for abort cleanup",
        ),
        (
            SendCommandError::PendingApprovals,
            "Session has pending approvals",
        ),
        (
            SendCommandError::StaleApproval,
            "Approval is stale or does not match its pending calls",
        ),
        (SendCommandError::ScopeClosed, "Execution scope is closed"),
        (SendCommandError::AgentNotFound, "Agent not found"),
        (SendCommandError::ChannelClosed, "Channel closed"),
    ] {
        assert_eq!(error.describe(), words);
    }
}
