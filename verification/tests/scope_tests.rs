use coda_agent::agent::{
    AbortedTarget, AgentEvent, AgentState, Envelope, EnvelopeBody, HistoryEntry, PendingApproval,
    Receiver, ResumeDecision, Sender, ThreadId, ToolCallResolution,
};
use coda_agent::execution::{CompletionTarget, ProcessGroupId, StoredExecution};
use coda_agent::ids::{MessageId, Timestamp, TurnId};
use coda_agent::llm::{AssistantMessage, Message, ToolCall, ToolOutput, UserMessage};
use coda_agent::persist::{AgentRuntimeSnapshot, StoredCheckpoint, StoredResumePoint};
use coda_agent::runtime::cleanup::{discard_members, CleanupAttempts, CleanupNext, StopPlan};
use coda_agent::runtime::delivery::{
    archive, begin_delivery, begin_send, decided_turn, end_delivery, finish_send, live_messages,
    record_before_delivery, retire_foreground_driver, save_agent_snapshot, thread_turn_cancelled,
    Delivery, ExitBarrier,
};
use coda_agent::runtime::scopes::{
    removal_event, BackgroundScope, Executions, LiveExecution,
};
use coda_agent::runtime::turn::{CallLedger, TurnGate};
use coda_agent::runtime::SendCommandError;
use coda_agent::task::{ScopeMember, TaskId};

const BATCH: MessageId = MessageId { value: 70 };

fn task(id: &str) -> TaskId {
    TaskId { id: id.to_string() }
}

fn thread(id: &str) -> ThreadId {
    ThreadId::from(id.to_string())
}

fn member(thread: &str, invocation: &str) -> ScopeMember {
    ScopeMember {
        thread_id: thread.to_string(),
        invocation_id: invocation.to_string(),
    }
}

fn call(id: &str) -> ToolCall {
    ToolCall {
        id: id.to_string(),
        name: "shell".to_string(),
        arguments: None,
    }
}

fn approval(thread: &str, parent: MessageId, calls: &[&str], task_id: Option<&str>) -> PendingApproval {
    PendingApproval {
        thread_id: thread.to_string(),
        agent_name: "coda".to_string(),
        parent_message_id: parent,
        calls: calls.iter().map(|id| call(id)).collect(),
        suspended_at: Timestamp::default(),
        task_id: task_id.map(task),
    }
}

fn envelope(id: &str, from: Sender, to: &str, body: EnvelopeBody) -> Envelope {
    Envelope {
        id: id.to_string(),
        from,
        to: Receiver {
            name: "coda".to_string(),
            thread_id: thread(to),
        },
        reply_to: None,
        body,
    }
}

fn prompt(id: &str, message: u128) -> Envelope {
    envelope(
        id,
        Sender::User,
        "root",
        EnvelopeBody::Task {
            message_id: MessageId { value: message },
            task: "go".to_string(),
            images: vec![],
        },
    )
}

fn tool_call(id: &str, from: &str, to: &str) -> Envelope {
    envelope(
        id,
        Sender::Agent {
            name: "coda".to_string(),
            thread_id: thread(from),
        },
        to,
        EnvelopeBody::ToolCall {
            call_id: "c".to_string(),
            parent_message_id: BATCH,
            derivation_key: "key".to_string(),
            turn_id: TurnId { value: 7 },
            task: "look".to_string(),
        },
    )
}

fn reply(to: &str) -> Envelope {
    envelope(
        "reply",
        Sender::Agent {
            name: "scout".to_string(),
            thread_id: thread("scout"),
        },
        to,
        EnvelopeBody::Reply {
            call_id: "c".to_string(),
            output: ToolOutput::Success("seen".to_string()),
            aborted: false,
        },
    )
}

fn decision(ids: &[&str]) -> ResumeDecision {
    ResumeDecision {
        parent_message_id: BATCH,
        resolutions: ids
            .iter()
            .map(|id| (id.to_string(), ToolCallResolution::Execute))
            .collect(),
    }
}

fn resume(to: &str, ids: &[&str]) -> Envelope {
    envelope("resume", Sender::User, to, EnvelopeBody::Resume(decision(ids)))
}

fn in_background(task_id: &str, invocation: &str) -> LiveExecution {
    LiveExecution {
        stored: StoredExecution {
            invocation_id: invocation.to_string(),
            scope: ProcessGroupId::Background {
                task_id: task(task_id),
            },
            completion: CompletionTarget::BackgroundTask(task(task_id)),
            agent_path: vec!["coda".to_string()],
        },
        cancelled: false,
    }
}

/// A session whose thread `worker` works on the background task `job`.
fn with_job() -> Executions {
    let mut executions = Executions::new();
    executions
        .threads
        .insert("worker".to_string(), in_background("job", "w1"));
    executions.background.insert(
        "job".to_string(),
        BackgroundScope {
            members: vec![member("worker", "w1")],
            stopping: false,
            closed: false,
            reason: None,
        },
    );
    executions
}

fn kinds(events: &[AgentEvent]) -> Vec<&'static str> {
    events
        .iter()
        .map(|event| match event {
            AgentEvent::ApprovalRemoved { .. } => "removed",
            AgentEvent::Suspended(_) => "suspended",
            AgentEvent::Aborted(_) => "aborted",
            AgentEvent::Error(_) => "error",
            AgentEvent::LLMEnd(_) => "end",
            AgentEvent::BackgroundError { .. } => "background error",
            AgentEvent::PersistFailed(_) => "persist failed",
            _ => "other",
        })
        .collect()
}

fn answer(tool_calls: Vec<ToolCall>) -> AssistantMessage {
    AssistantMessage {
        message_id: MessageId { value: 1 },
        content: "done".to_string(),
        tool_calls,
        usage: None,
        reasoning_content: None,
        reasoning_continuation: None,
        reasoning_ended_at: None,
        aborted: false,
        started_at: Timestamp::default(),
        ended_at: Timestamp::default(),
    }
}

#[test]
fn a_task_opens_foreground_work() {
    let mut executions = Executions::new();
    assert_eq!(executions.register_execution(&prompt("p", 7)), Ok(()));
    let execution = executions.execution(&thread("root")).unwrap();
    assert_eq!(execution.invocation_id, "p");
    assert_eq!(
        execution.scope,
        ProcessGroupId::Foreground {
            turn_id: TurnId { value: 7 }
        }
    );
    assert_eq!(execution.completion, CompletionTarget::RootTurn);
    assert_eq!(execution.agent_path, ["coda"]);
    assert!(executions.task_of(&thread("root")).is_none());
    executions.retire(&thread("root"));
    assert!(executions.execution(&thread("root")).is_none());
}

#[test]
fn a_call_works_within_what_its_caller_works_on() {
    let mut executions = with_job();
    executions
        .register_execution(&tool_call("c1", "worker", "helper"))
        .unwrap();
    let execution = executions.execution(&thread("helper")).unwrap();
    assert_eq!(
        execution.scope,
        ProcessGroupId::Background {
            task_id: task("job")
        }
    );
    assert_eq!(execution.agent_path, ["coda", "coda"]);
    assert_eq!(execution.reply_target().unwrap().envelope_id, "c1");
    assert_eq!(executions.task_of(&thread("helper")), Some(task("job")));
    assert_eq!(
        executions.background.get("job").unwrap().members,
        [member("worker", "w1"), member("helper", "c1")]
    );
    let record =
        record_before_delivery(&executions, &tool_call("c1", "worker", "helper")).unwrap();
    assert_eq!(record.task_id, task("job"));
    assert_eq!(record.identity.thread_id, "helper");
    assert_eq!(record.identity.invocation_id, "c1");
    assert!(record_before_delivery(&executions, &reply("helper")).is_none());
}

#[test]
fn an_answer_opens_no_work() {
    let mut executions = Executions::new();
    executions.quarantined.push("root".to_string());
    assert_eq!(executions.register_execution(&reply("root")), Ok(()));
    assert!(executions.execution(&thread("root")).is_none());
}

#[test]
fn pending_approvals_keep_a_prompt_out() {
    let mut executions = Executions::new();
    executions.insert_approval(approval("elsewhere", BATCH, &["a"], None));
    assert_eq!(
        executions.register_execution(&prompt("p", 7)),
        Err(SendCommandError::PendingApprovals)
    );
    assert_eq!(
        executions.register_execution(&tool_call("c1", "root", "helper")),
        Ok(())
    );
}

#[test]
fn approvals_are_kept_once_per_batch() {
    let mut executions = Executions::new();
    executions.insert_approval(approval("root", BATCH, &["a"], None));
    executions.insert_approval(approval("root", BATCH, &["b"], None));
    executions.insert_approval(approval("root", MessageId { value: 71 }, &["c"], None));
    let ids: Vec<_> = executions
        .approvals
        .iter()
        .map(|approval| approval.calls[0].id.as_str())
        .collect();
    assert_eq!(ids, ["b", "c"]);
}

#[test]
fn an_ended_thread_waits_for_nothing() {
    for event in [
        AgentEvent::Aborted(AbortedTarget::Generation),
        AgentEvent::Error("boom".to_string()),
        AgentEvent::LLMEnd(answer(vec![])),
    ] {
        let mut executions = Executions::new();
        executions.insert_approval(approval("root", BATCH, &["a"], None));
        executions.insert_approval(approval("other", BATCH, &["a"], None));
        let emission = executions.emit_event(&thread("root"), event);
        assert_eq!(kinds(&emission.events)[0], "removed");
        assert_eq!(emission.events.len(), 2);
        assert!(emission.refresh.is_none());
        assert_eq!(executions.approvals.len(), 1);
        assert_eq!(executions.approvals[0].thread_id, "other");
    }
    let mut executions = Executions::new();
    executions.insert_approval(approval("root", BATCH, &["a"], None));
    let emission = executions.emit_event(
        &thread("root"),
        AgentEvent::LLMEnd(answer(vec![call("a")])),
    );
    assert_eq!(kinds(&emission.events), ["end"]);
    assert_eq!(executions.approvals.len(), 1);
}

#[test]
fn background_work_is_quiet() {
    let mut executions = with_job();
    let worker = thread("worker");
    let emission = executions.emit_event(&worker, AgentEvent::LLMEnd(answer(vec![])));
    assert!(emission.events.is_empty());
    let emission =
        executions.emit_event(&worker, AgentEvent::PersistFailed("disk".to_string()));
    assert_eq!(
        emission.events,
        [AgentEvent::BackgroundError {
            task_id: task("job"),
            message: "disk".to_string(),
        }]
    );
    let asked = approval("worker", BATCH, &["a"], Some("job"));
    let emission = executions.emit_event(&worker, AgentEvent::Suspended(asked));
    assert_eq!(kinds(&emission.events), ["suspended"]);
    assert_eq!(emission.refresh, Some(task("job")));
    assert!(executions.awaits_approval(&task("job")));
    assert!(!executions.awaits_approval(&task("other")));
    assert_eq!(executions.scope_members(&task("job")), [member("worker", "w1")]);
    assert!(executions.scope_members(&task("other")).is_empty());
}

#[test]
fn a_closed_scope_asks_for_nothing() {
    let mut executions = with_job();
    executions.stop_scope(&task("job"), None);
    assert!(executions.is_scope_closed(&task("job")));
    let asked = approval("worker", BATCH, &["a"], Some("job"));
    let emission = executions.emit_event(&thread("worker"), AgentEvent::Suspended(asked));
    assert!(emission.events.is_empty() && emission.refresh.is_none());
    assert!(executions.approvals.is_empty());
}

#[test]
fn a_decision_is_taken_once() {
    let mut executions = Executions::new();
    executions.insert_approval(approval("root", BATCH, &["a", "b"], None));
    let to = Receiver {
        name: "coda".to_string(),
        thread_id: thread("root"),
    };
    let taken = executions.admit_decision(&to, &decision(&["b"])).unwrap();
    assert_eq!(taken.thread_id, "root");
    assert!(matches!(
        removal_event(&taken),
        AgentEvent::ApprovalRemoved { thread_id, parent_message_id: BATCH, task_id: None }
            if thread_id == "root"
    ));
    assert_eq!(
        executions.admit_decision(&to, &decision(&["b"])).unwrap_err(),
        SendCommandError::StaleApproval
    );
}

#[test]
fn a_decision_has_to_fit_its_batch() {
    let mut executions = Executions::new();
    executions.insert_approval(approval("root", BATCH, &["a", "b"], None));
    let to = |name: &str, id: &str| Receiver {
        name: name.to_string(),
        thread_id: thread(id),
    };
    for (receiver, decision) in [
        (to("coda", "other"), decision(&["a"])),
        (to("scout", "root"), decision(&["a"])),
        (to("coda", "root"), decision(&["a", "a"])),
        (to("coda", "root"), decision(&["z"])),
        (
            to("coda", "root"),
            ResumeDecision {
                parent_message_id: MessageId { value: 71 },
                resolutions: vec![],
            },
        ),
    ] {
        assert_eq!(
            executions.admit_decision(&receiver, &decision).unwrap_err(),
            SendCommandError::StaleApproval
        );
    }
    assert_eq!(executions.approvals.len(), 1);
}

#[test]
fn a_stopped_invocation_takes_no_decision() {
    let mut executions = Executions::new();
    executions.register_execution(&prompt("p", 7)).unwrap();
    executions.insert_approval(approval("root", BATCH, &["a"], None));
    assert_eq!(executions.stop_foreground(), ["root"]);
    assert!(executions.execution_stopped(&thread("root")));
    let to = Receiver {
        name: "coda".to_string(),
        thread_id: thread("root"),
    };
    assert_eq!(
        executions.admit_decision(&to, &decision(&["a"])).unwrap_err(),
        SendCommandError::ScopeClosed
    );
}

#[test]
fn aborting_a_turn_spares_background_work() {
    let mut executions = with_job();
    executions.register_execution(&prompt("p", 7)).unwrap();
    assert_eq!(executions.stop_foreground(), ["root"]);
    assert!(!executions.execution_stopped(&thread("worker")));
}

#[test]
fn a_scope_is_stopped_once() {
    let mut executions = with_job();
    executions.insert_approval(approval("worker", BATCH, &["a"], Some("job")));
    executions.insert_approval(approval("root", BATCH, &["a"], None));
    assert!(matches!(
        executions.stop_scope(&task("other"), None),
        StopPlan::Unknown
    ));
    let StopPlan::Stop(stopped) = executions.stop_scope(&task("job"), Some("why".to_string()))
    else {
        panic!("the first caller stops it");
    };
    assert_eq!(stopped.members, [member("worker", "w1")]);
    assert_eq!(stopped.revoked.len(), 1);
    assert_eq!(stopped.revoked[0].agent_name, "coda");
    assert_eq!(stopped.revoked[0].thread_id, thread("worker"));
    assert_eq!(stopped.revoked[0].turn_id, TurnId { value: 70 });
    assert!(matches!(
        executions.stop_scope(&task("job"), None),
        StopPlan::Wait
    ));
    assert!(executions.execution_stopped(&thread("worker")));
    assert_eq!(executions.approvals.len(), 1);

    // Nothing reaches the thread, or joins the task, until it is cleaned up.
    assert_eq!(
        executions.register_execution(&tool_call("c1", "root", "worker")),
        Err(SendCommandError::AwaitingCleanup)
    );
    assert_eq!(
        executions.register_execution(&tool_call("c1", "worker", "helper")),
        Err(SendCommandError::ScopeClosed)
    );
    let scope = executions.scope_abort(&task("job"), stopped.members);
    assert_eq!(scope.task_id, task("job"));
    assert_eq!(scope.reason, "why");
    executions.forget_scope(&scope);
    assert!(executions.execution(&thread("worker")).is_none());
    assert!(executions.background.get("job").is_none());
    assert_eq!(
        executions.register_execution(&tool_call("c1", "root", "worker")),
        Ok(())
    );
}

#[test]
fn discarded_members_leave_nothing_behind() {
    let mut calls = CallLedger::new();
    for id in ["worker", "worker", "other"] {
        calls.begin(&thread(id));
    }
    let mut snapshot = AgentRuntimeSnapshot::default();
    snapshot
        .active_threads
        .insert("worker".to_string(), "coda".to_string());
    archive(&mut snapshot, resume("worker", &["a"]));
    discard_members(&vec![member("worker", "w1")], &mut calls, &mut snapshot);
    assert!(!calls.is_answering(&thread("worker")));
    assert!(calls.is_answering(&thread("other")));
    assert!(snapshot.active_threads.is_empty());
    assert!(snapshot
        .drained_envelopes
        .get("worker")
        .map_or(true, |kept| kept.is_empty()));
}

#[test]
fn pauses_grow_up_to_a_limit() {
    let mut attempts = CleanupAttempts::new();
    let pauses: Vec<_> = (0..8)
        .map(|_| match attempts.after(false, false, false) {
            CleanupNext::Retry(pause) => pause,
            _ => panic!("it failed"),
        })
        .collect();
    assert_eq!(pauses, [100, 200, 400, 800, 1600, 3200, 5000, 5000]);
    assert_eq!(attempts.after(true, false, false), CleanupNext::Retry(5000));
    assert_eq!(attempts.after(true, false, true), CleanupNext::GiveUp);
    assert_eq!(attempts.after(true, true, true), CleanupNext::Forget);
}

#[test]
fn a_send_enters_what_it_opens() {
    let mut gate = TurnGate::new();
    let mut calls = CallLedger::new();
    let mut executions = Executions::new();
    let sending = begin_send(&prompt("p", 7), &mut gate, &mut calls, &mut executions).unwrap();
    assert_eq!(gate.active_id(), Some(TurnId { value: 7 }));
    assert_eq!(
        begin_send(&prompt("q", 8), &mut gate, &mut calls, &mut executions).unwrap_err(),
        SendCommandError::TurnAlreadyActive
    );
    assert_eq!(
        finish_send(
            sending,
            Err(SendCommandError::PendingApprovals),
            &mut gate,
            &mut calls
        ),
        Err(SendCommandError::PendingApprovals)
    );
    assert_eq!(gate.active_id(), None);

    let dispatch = tool_call("c1", "root", "helper");
    let sending = begin_send(&dispatch, &mut gate, &mut calls, &mut executions).unwrap();
    assert!(calls.is_answering(&thread("helper")));
    assert_eq!(
        begin_send(&dispatch, &mut gate, &mut calls, &mut executions).unwrap_err(),
        SendCommandError::ThreadBusy
    );
    finish_send(
        sending,
        Err(SendCommandError::AgentNotFound),
        &mut gate,
        &mut calls,
    )
    .unwrap_err();
    assert!(!calls.is_answering(&thread("helper")));

    let sending = begin_send(&dispatch, &mut gate, &mut calls, &mut executions).unwrap();
    assert_eq!(finish_send(sending, Ok(()), &mut gate, &mut calls), Ok(()));
    assert!(calls.is_answering(&thread("helper")));
}

#[test]
fn a_decision_is_sent_with_the_approval_it_settles() {
    let mut gate = TurnGate::new();
    let mut calls = CallLedger::new();
    let mut executions = Executions::new();
    assert_eq!(
        begin_send(&resume("root", &["a"]), &mut gate, &mut calls, &mut executions).unwrap_err(),
        SendCommandError::StaleApproval
    );
    executions.insert_approval(approval("root", BATCH, &["a"], None));
    let sending =
        begin_send(&resume("root", &["a"]), &mut gate, &mut calls, &mut executions).unwrap();
    let answered = sending.answered.unwrap();
    assert_eq!(decided_turn(&answered, None), TurnId { value: 70 });
    assert_eq!(
        decided_turn(&answered, Some(TurnId { value: 7 })),
        TurnId { value: 7 }
    );
    assert!(executions.approvals.is_empty());
}

#[test]
fn an_envelope_goes_to_its_driver_or_is_kept() {
    let mut barrier = ExitBarrier::new();
    assert_eq!(begin_delivery(&barrier, true, false), Ok(Delivery::Send));
    assert_eq!(
        begin_delivery(&barrier, false, true),
        Ok(Delivery::StartAndSend)
    );
    assert_eq!(
        begin_delivery(&barrier, false, false),
        Err(SendCommandError::AgentNotFound)
    );
    assert_eq!(end_delivery(&barrier, true), Ok(Delivery::Send));
    assert_eq!(
        end_delivery(&barrier, false),
        Err(SendCommandError::ChannelClosed)
    );
    assert!(barrier.enter_exiting());
    assert!(!barrier.enter_exiting());
    assert!(barrier.is_exiting());
    assert_eq!(begin_delivery(&barrier, false, false), Ok(Delivery::Archive));
    assert_eq!(end_delivery(&barrier, false), Ok(Delivery::Archive));
    barrier.finish();
    assert!(barrier.is_exiting());
    assert_eq!(
        begin_delivery(&barrier, true, true),
        Err(SendCommandError::ChannelClosed)
    );
    assert_eq!(
        end_delivery(&barrier, true),
        Err(SendCommandError::ChannelClosed)
    );
}

#[test]
fn what_a_driver_leaves_is_noted() {
    let mut snapshot = AgentRuntimeSnapshot::default();
    let executions = Executions::new();
    let root = thread("root");
    assert!(save_agent_snapshot(
        &mut snapshot,
        &executions,
        "coda".to_string(),
        &root,
        vec![reply("root")],
        Some(root.clone()),
    ));
    assert_eq!(snapshot.agent_drained_envelopes.get("root").unwrap().len(), 1);
    assert_eq!(snapshot.active_threads.get("root").unwrap(), "coda");
    let mut executions = Executions::new();
    executions.register_execution(&prompt("p", 7)).unwrap();
    assert!(retire_foreground_driver(
        &mut snapshot,
        &mut executions,
        "coda".to_string(),
        &root
    ));
    assert!(snapshot.agent_drained_envelopes.is_empty());
    assert!(snapshot.active_threads.is_empty());
    assert!(executions.execution(&root).is_none());
}

#[test]
fn a_stopped_background_invocation_leaves_nothing() {
    let mut snapshot = AgentRuntimeSnapshot::default();
    let mut executions = with_job();
    executions.stop_scope(&task("job"), None);
    let worker = thread("worker");
    assert!(!save_agent_snapshot(
        &mut snapshot,
        &executions,
        "coda".to_string(),
        &worker,
        vec![reply("worker")],
        Some(worker.clone()),
    ));
    assert!(snapshot.agent_drained_envelopes.is_empty());
    assert!(snapshot.active_threads.is_empty());
}

#[test]
fn archived_envelopes_keep_their_order() {
    let mut snapshot = AgentRuntimeSnapshot::default();
    archive(&mut snapshot, prompt("one", 1));
    archive(&mut snapshot, prompt("two", 2));
    let kept: Vec<_> = snapshot
        .drained_envelopes
        .get("root")
        .unwrap()
        .iter()
        .map(|envelope| envelope.id.as_str())
        .collect();
    assert_eq!(kept, ["one", "two"]);
}

fn stored(turn: u128) -> StoredCheckpoint {
    StoredCheckpoint {
        thread_id: "root".to_string(),
        agent_name: "coda".to_string(),
        parent_thread_id: None,
        derivation_key: None,
        reply_target: None,
        messages: vec![HistoryEntry::new(
            TurnId { value: turn },
            Message::User(UserMessage::text(
                MessageId { value: turn },
                "stored".to_string(),
            )),
        )],
        state: vec![],
        resume_point: StoredResumePoint::Generation,
        suspended_at: Timestamp::default(),
        active_execution: None,
    }
}

#[test]
fn the_running_thread_is_shown_before_the_stored_one() {
    let first = |messages: &[Message]| match &messages[0] {
        Message::User(user) => user.first_text().unwrap().to_string(),
        _ => panic!("a user spoke"),
    };
    let mut running = AgentState::new();
    running.messages.push(HistoryEntry::new(
        TurnId { value: 8 },
        Message::User(UserMessage::text(
            MessageId { value: 8 },
            "running".to_string(),
        )),
    ));
    assert_eq!(
        first(&live_messages(Some(&running), Some(&stored(7)))),
        "running"
    );
    assert_eq!(first(&live_messages(None, Some(&stored(7)))), "stored");
    assert!(live_messages(None, None).is_empty());
}

#[test]
fn a_parked_thread_is_in_the_turn_of_its_last_message() {
    let mut gate = TurnGate::new();
    gate.open(TurnId { value: 7 }).unwrap();
    gate.cancel_active();
    assert!(thread_turn_cancelled(Some(&stored(7)), &gate));
    assert!(!thread_turn_cancelled(Some(&stored(8)), &gate));
    assert!(!thread_turn_cancelled(None, &gate));
}
