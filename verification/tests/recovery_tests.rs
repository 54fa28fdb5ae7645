use coda_agent::agent::{
    Envelope, EnvelopeBody, HistoryEntry, PendingReply, Receiver, ReplyTarget, ResumeDecision,
    Sender, ThreadId,
};
use coda_agent::execution::{CompletionTarget, ProcessGroupId, StoredExecution};
use coda_agent::ids::{MessageId, Timestamp, TurnId};
use coda_agent::llm::{Message, ToolCallOutcome, ToolOutput, UserMessage};
use coda_agent::persist::{
    AgentRuntimeSnapshot, StoredCheckpoint, StoredResumePoint, StoredToolExecutionState,
};
use coda_agent::runtime::bootstrap::{begin_recovery, plan_starts, resume_work};
use coda_agent::runtime::driver::{
    interrupt, AgentControl, DriverState, WaitEvent, WaitNext, Work, TOOL_ABORT_GRACE_MS,
    WIND_UP_LIMIT_MS,
};
use coda_agent::runtime::recovery::{
    describe_load_failure, drop_stale_envelopes, is_awaited, last_turn, recovery_threads,
    register_resumed_work, replayed_envelopes, restore_resumed_turn, restore_resumed_turns,
    ResumeTarget,
};
use coda_agent::runtime::turn::{CallLedger, TurnGate};
use coda_agent::runtime::turn_run::TurnOutcome;
use coda_agent::string_map::StringMap;
use coda_agent::task::TaskId;

const BATCH: MessageId = MessageId { value: 70 };
const TURN: TurnId = TurnId { value: 7 };

fn thread(id: &str) -> ThreadId {
    ThreadId::from(id.to_string())
}

fn envelope(id: &str, to: &str, body: EnvelopeBody) -> Envelope {
    Envelope {
        id: id.to_string(),
        from: Sender::User,
        to: Receiver {
            name: "coda".to_string(),
            thread_id: thread(to),
        },
        reply_to: None,
        body,
    }
}

fn prompt(id: &str, to: &str, message: u128) -> Envelope {
    envelope(
        id,
        to,
        EnvelopeBody::Task {
            message_id: MessageId { value: message },
            task: "go".to_string(),
            images: vec![],
        },
    )
}

fn tool_call(to: &str, turn: u128) -> Envelope {
    envelope(
        "call",
        to,
        EnvelopeBody::ToolCall {
            call_id: "c".to_string(),
            parent_message_id: BATCH,
            derivation_key: "key".to_string(),
            turn_id: TurnId { value: turn },
            task: "look".to_string(),
        },
    )
}

fn reply(from: &str, to: &str, reply_to: &str) -> Envelope {
    Envelope {
        from: Sender::Agent {
            name: "scout".to_string(),
            thread_id: thread(from),
        },
        reply_to: Some(reply_to.to_string()),
        ..envelope(
            "reply",
            to,
            EnvelopeBody::Reply {
                call_id: "c".to_string(),
                output: ToolOutput::Success("seen".to_string()),
                aborted: false,
            },
        )
    }
}

fn decision() -> ResumeDecision {
    ResumeDecision {
        parent_message_id: BATCH,
        resolutions: vec![],
    }
}

fn resume(to: &str) -> Envelope {
    envelope("resume", to, EnvelopeBody::Resume(decision()))
}

fn checkpoint(thread: &str, turn: u128, resume_point: StoredResumePoint) -> StoredCheckpoint {
    StoredCheckpoint {
        thread_id: thread.to_string(),
        agent_name: "coda".to_string(),
        parent_thread_id: None,
        derivation_key: None,
        reply_target: None,
        messages: vec![HistoryEntry::new(
            TurnId { value: turn },
            Message::User(UserMessage::text(
                MessageId { value: turn },
                "go".to_string(),
            )),
        )],
        state: vec![],
        resume_point,
        suspended_at: Timestamp::default(),
        active_execution: None,
    }
}

fn waiting(call_envelope_id: &str) -> StoredResumePoint {
    StoredResumePoint::ToolExecution(StoredToolExecutionState {
        parent_message_id: BATCH,
        pending_replies: vec![PendingReply {
            call_id: "c".to_string(),
            call_envelope_id: call_envelope_id.to_string(),
            tool_name: "scout".to_string(),
            outcome: ToolCallOutcome::Auto,
            started_at: Timestamp::default(),
        }],
        tool_calls: vec![],
    })
}

fn parked() -> StoredResumePoint {
    StoredResumePoint::PendingApproval {
        parent_message_id: BATCH,
        pending_approval_calls: vec![],
        pending_calls: vec![],
    }
}

fn called(stored: StoredCheckpoint) -> StoredCheckpoint {
    StoredCheckpoint {
        active_execution: Some(StoredExecution {
            invocation_id: "i".to_string(),
            scope: ProcessGroupId::Foreground { turn_id: TURN },
            completion: CompletionTarget::Caller(ReplyTarget {
                envelope_id: "asked".to_string(),
                sender_name: "coda".to_string(),
                sender_thread_id: "root".to_string(),
                call_id: "c".to_string(),
            }),
            agent_path: vec![],
        }),
        ..stored
    }
}

fn stored(checkpoints: Vec<StoredCheckpoint>) -> StringMap<StoredCheckpoint> {
    let mut map = StringMap::new();
    for checkpoint in checkpoints {
        map.insert(checkpoint.thread_id.clone(), checkpoint);
    }
    map
}

fn snapshot(active: &[&str], inboxes: Vec<Envelope>, late: Vec<Envelope>) -> AgentRuntimeSnapshot {
    let mut snapshot = AgentRuntimeSnapshot::default();
    for thread in active {
        snapshot
            .active_threads
            .insert(thread.to_string(), "coda".to_string());
    }
    for (envelopes, map) in [
        (inboxes, &mut snapshot.agent_drained_envelopes),
        (late, &mut snapshot.drained_envelopes),
    ] {
        for envelope in envelopes {
            let thread = envelope.to.thread_id.id.clone();
            let mut kept = map.get(&thread).cloned().unwrap_or_default();
            kept.push(envelope);
            map.insert(thread, kept);
        }
    }
    snapshot
}

fn target(thread_id: &str) -> ResumeTarget {
    ResumeTarget {
        agent_name: "coda".to_string(),
        thread_id: thread(thread_id),
        decision: decision(),
    }
}

#[test]
fn envelopes_come_back_by_thread_inbox_first() {
    let snapshot = snapshot(
        &[],
        vec![prompt("b-inbox", "b", 1)],
        vec![prompt("b-late", "b", 1), prompt("a-late", "a", 1)],
    );
    let order: Vec<_> = replayed_envelopes(&snapshot)
        .into_iter()
        .map(|envelope| envelope.id.as_str())
        .collect();
    assert_eq!(order, ["a-late", "b-inbox", "b-late"]);
}

#[test]
fn an_answer_is_awaited_by_the_call_that_asked() {
    let checkpoints = stored(vec![
        checkpoint("root", 7, waiting("sent")),
        checkpoint("parked", 7, parked()),
    ]);
    assert!(is_awaited(&reply("scout", "root", "sent"), &checkpoints));
    assert!(!is_awaited(&reply("scout", "root", "earlier"), &checkpoints));
    assert!(!is_awaited(&reply("scout", "parked", "sent"), &checkpoints));
    assert!(!is_awaited(&reply("scout", "missing", "sent"), &checkpoints));
    assert!(is_awaited(&resume("parked"), &checkpoints));
    assert!(!is_awaited(&resume("root"), &checkpoints));
    assert!(is_awaited(&prompt("p", "missing", 1), &checkpoints));
    assert!(is_awaited(&tool_call("missing", 1), &checkpoints));
}

#[test]
fn stale_answers_are_dropped() {
    let checkpoints = stored(vec![checkpoint("root", 7, waiting("sent"))]);
    let mut snapshot = snapshot(
        &["root"],
        vec![reply("scout", "root", "sent"), reply("scout", "root", "old")],
        vec![resume("root"), prompt("p", "root", 7)],
    );
    drop_stale_envelopes(&mut snapshot, &checkpoints);
    let left: Vec<_> = replayed_envelopes(&snapshot)
        .into_iter()
        .map(|envelope| envelope.id.as_str())
        .collect();
    assert_eq!(left, ["reply", "p"]);
    assert_eq!(snapshot.active_threads.keys(), ["root"]);
}

#[test]
fn resumed_work_puts_its_turn_and_its_calls_back() {
    let checkpoints = stored(vec![
        checkpoint("root", 7, waiting("sent")),
        called(checkpoint("helper", 7, StoredResumePoint::Generation)),
    ]);
    let snapshot = snapshot(
        &["helper", "unknown"],
        vec![reply("scout", "root", "sent")],
        vec![tool_call("fresh", 7)],
    );
    let mut gate = TurnGate::new();
    let mut calls = CallLedger::new();
    register_resumed_work(&snapshot, &checkpoints, &mut gate, &mut calls).unwrap();
    assert_eq!(gate.active_id(), Some(TURN));
    for id in ["helper", "scout", "fresh"] {
        assert!(calls.is_answering(&thread(id)));
        calls.end(&thread(id));
        assert!(!calls.is_answering(&thread(id)));
    }
    assert!(!calls.is_answering(&thread("unknown")));
}

#[test]
fn work_of_two_turns_cannot_be_resumed() {
    let snapshot = snapshot(&[], vec![prompt("p", "root", 7)], vec![tool_call("a", 8)]);
    let mut gate = TurnGate::new();
    let res = register_resumed_work(
        &snapshot,
        &StringMap::new(),
        &mut gate,
        &mut CallLedger::new(),
    );
    assert!(res.is_err());
    assert!(gate.active_id().is_some());
}

#[test]
fn a_decision_puts_its_thread_back() {
    let mut gate = TurnGate::new();
    let mut calls = CallLedger::new();
    let parked = called(checkpoint("helper", 7, parked()));
    restore_resumed_turn(&target("helper"), Some(&parked), &mut gate, &mut calls).unwrap();
    assert_eq!(gate.active_id(), Some(TURN));
    assert!(calls.is_answering(&thread("helper")));
    assert_eq!(
        restore_resumed_turn(&target("gone"), None, &mut gate, &mut calls).unwrap_err(),
        "missing checkpoint for resumed thread gone"
    );
    assert_eq!(
        describe_load_failure("gone", "disk"),
        "failed to load checkpoint for gone: disk"
    );
}

#[test]
fn the_first_thread_that_cannot_be_put_back_ends_it() {
    let mut targets = StringMap::new();
    for id in ["a", "b", "c"] {
        targets.insert(id.to_string(), target(id));
    }
    let mut gate = TurnGate::new();
    let mut calls = CallLedger::new();
    let checkpoints = stored(vec![
        called(checkpoint("a", 7, parked())),
        called(checkpoint("c", 7, parked())),
    ]);
    assert_eq!(
        restore_resumed_turns(&targets, &checkpoints, &mut gate, &mut calls).unwrap_err(),
        "missing checkpoint for resumed thread b"
    );
    assert!(calls.is_answering(&thread("a")));
    assert!(!calls.is_answering(&thread("c")));
    let two_turns = stored(vec![
        checkpoint("a", 7, parked()),
        checkpoint("b", 8, parked()),
        called(checkpoint("c", 7, parked())),
    ]);
    assert!(restore_resumed_turns(&targets, &two_turns, &mut gate, &mut calls).is_err());
    assert!(!calls.is_answering(&thread("c")));
}

#[test]
fn only_the_recipients_of_answers_are_consulted() {
    let snapshot = snapshot(
        &["z"],
        vec![
            prompt("p", "a", 7),
            tool_call("b", 7),
            reply("scout", "c", "sent"),
        ],
        vec![resume("d"), reply("scout", "c", "again")],
    );
    assert_eq!(recovery_threads(&snapshot), ["c", "d", "z"]);
}

#[test]
fn a_stored_thread_is_in_the_turn_of_its_last_message() {
    let mut stored = checkpoint("root", 7, parked());
    assert_eq!(last_turn(&stored), Some(TURN));
    stored.messages.clear();
    assert_eq!(last_turn(&stored), None);
}

#[test]
fn a_recovery_keeps_to_the_agents_there_are() {
    let mut left = snapshot(&["root", "helper"], vec![prompt("p", "root", 7)], vec![]);
    left.active_threads
        .insert("stranger".to_string(), "gone".to_string());
    let mut lost = prompt("q", "stranger", 7);
    lost.to.name = "gone".to_string();
    left.drained_envelopes
        .insert("stranger".to_string(), vec![lost]);
    let mut targets = StringMap::new();
    targets.insert("helper".to_string(), target("helper"));
    targets.insert(
        "stranger".to_string(),
        ResumeTarget {
            agent_name: "gone".to_string(),
            ..target("stranger")
        },
    );
    let recovery = begin_recovery(&vec!["coda".to_string()], Some(left), targets);
    let snapshot = recovery.snapshot.unwrap();
    assert_eq!(snapshot.active_threads.keys(), ["root"]);
    assert_eq!(replayed_envelopes(&snapshot).len(), 1);
    assert_eq!(recovery.targets.keys(), ["helper"]);
    assert_eq!(recovery.consulted, ["root"]);
}

#[test]
fn every_resumed_thread_gets_one_driver() {
    let mut targets = StringMap::new();
    targets.insert("helper".to_string(), target("helper"));
    let mut recovery = begin_recovery(
        &vec!["coda".to_string()],
        Some(snapshot(
            &["root", "helper"],
            vec![reply("scout", "root", "sent"), reply("scout", "root", "old")],
            vec![tool_call("fresh", 7)],
        )),
        targets,
    );
    let mut gate = TurnGate::new();
    let mut calls = CallLedger::new();
    let checkpoints = stored(vec![
        checkpoint("root", 7, waiting("sent")),
        called(checkpoint("helper", 7, parked())),
    ]);
    let resuming = resume_work(&mut recovery, &checkpoints, &mut gate, &mut calls).unwrap();
    assert!(resuming);
    assert_eq!(gate.active_id(), Some(TURN));
    restore_resumed_turns(&recovery.targets, &checkpoints, &mut gate, &mut calls).unwrap();
    assert!(calls.is_answering(&thread("helper")));

    let starts = plan_starts(&recovery);
    let threads: Vec<_> = starts.iter().map(|start| start.thread_id.as_str()).collect();
    assert_eq!(threads, ["fresh", "helper", "root"]);
    assert!(starts.iter().all(|start| start.name == "coda"));
    assert!(starts[0].active.is_none() && starts[0].envelopes.len() == 1);
    assert!(starts[1].active.is_some() && starts[1].decision == Some(decision()));
    assert!(starts[2].active.is_some() && starts[2].decision.is_none());
    assert_eq!(starts[2].envelopes.len(), 1);
}

#[test]
fn nothing_left_over_means_nothing_resumes() {
    let mut recovery = begin_recovery(&vec!["coda".to_string()], None, StringMap::new());
    assert!(recovery.consulted.is_empty());
    let resuming = resume_work(
        &mut recovery,
        &StringMap::new(),
        &mut TurnGate::new(),
        &mut CallLedger::new(),
    );
    assert_eq!(resuming, Ok(false));
    assert!(plan_starts(&recovery).is_empty());
}

#[test]
fn background_work_has_to_be_aborted_before_a_recovery() {
    let mut recovery = begin_recovery(
        &vec!["coda".to_string()],
        Some(snapshot(&["worker"], vec![], vec![])),
        StringMap::new(),
    );
    let task_id = TaskId {
        id: "job".to_string(),
    };
    let busy = StoredCheckpoint {
        active_execution: Some(StoredExecution {
            invocation_id: "i".to_string(),
            scope: ProcessGroupId::Background {
                task_id: task_id.clone(),
            },
            completion: CompletionTarget::BackgroundTask(task_id),
            agent_path: vec![],
        }),
        ..checkpoint("worker", 7, StoredResumePoint::Generation)
    };
    assert_eq!(
        resume_work(
            &mut recovery,
            &stored(vec![busy]),
            &mut TurnGate::new(),
            &mut CallLedger::new(),
        ),
        Err("background execution must be aborted before recovery".to_string())
    );
}

fn driver() -> DriverState {
    DriverState::new("coda", None, None, "unused".to_string())
}

#[test]
fn a_driver_starts_with_the_decision_it_was_given() {
    let mut driver = DriverState::new(
        "coda",
        Some(thread("root")),
        Some(decision()),
        "e".to_string(),
    );
    let Work::Run { thread_id, envelope } = driver.next_work() else {
        panic!("there is a decision");
    };
    assert_eq!(thread_id, thread("root"));
    let envelope = envelope.unwrap();
    assert_eq!(envelope.id, "e");
    assert_eq!(envelope.from, Sender::User);
    assert_eq!(envelope.body, EnvelopeBody::Resume(decision()));
    assert!(matches!(
        driver.next_work(),
        Work::Run { thread_id, envelope: None } if thread_id == thread("root")
    ));
}

#[test]
fn a_driver_with_nothing_to_do_waits() {
    let mut driver = driver();
    assert!(matches!(driver.next_work(), Work::Wait));
    assert!(matches!(
        driver.on_wait(WaitEvent::Envelope(Some(prompt("p", "root", 7))), false),
        WaitNext::Run { thread_id, .. } if thread_id == thread("root")
    ));
    assert!(!driver.on_outcome(
        thread("root"),
        Some(TurnOutcome::Completed),
        false,
        false,
        false
    ));
    assert!(matches!(driver.next_work(), Work::Wait));
    assert!(matches!(
        driver.on_wait(WaitEvent::Envelope(None), false),
        WaitNext::Exit
    ));
}

#[test]
fn held_envelopes_wait_for_the_replies_and_keep_their_order() {
    let mut driver = driver();
    for id in ["one", "two"] {
        driver.on_outcome(
            thread("root"),
            Some(TurnOutcome::Deferred {
                envelope: prompt(id, "root", 7),
                awaiting: Some(TURN),
            }),
            false,
            false,
            false,
        );
    }
    assert!(matches!(driver.next_work(), Work::Wait));
    let mut gate = TurnGate::new();
    gate.open(TURN).unwrap();
    assert!(!driver.wind_up_is_capped("root", &gate));
    gate.cancel(TURN);
    assert!(driver.wind_up_is_capped("root", &gate));
    assert!(!driver.wind_up_is_capped("other", &gate));
    driver.on_outcome(
        thread("root"),
        Some(TurnOutcome::Completed),
        false,
        false,
        false,
    );
    for expected in ["one", "two"] {
        assert!(matches!(
            driver.next_work(),
            Work::Run { envelope: Some(envelope), .. } if envelope.id == expected
        ));
        driver.on_outcome(thread("root"), None, false, false, false);
    }
    assert!(matches!(driver.next_work(), Work::Wait));
}

#[test]
fn a_wait_that_runs_out_gives_the_replies_up() {
    let mut driver = driver();
    driver.on_outcome(
        thread("root"),
        Some(TurnOutcome::AwaitingReplies(TURN)),
        false,
        false,
        false,
    );
    assert!(matches!(
        driver.on_wait(WaitEvent::TimedOut, false),
        WaitNext::GiveUp { thread_id, turn: TURN, .. } if thread_id == thread("root")
    ));
    assert!(matches!(
        driver.on_wait(WaitEvent::TimedOut, false),
        WaitNext::Again
    ));
    assert_eq!(TOOL_ABORT_GRACE_MS, 2000);
    assert_eq!(WIND_UP_LIMIT_MS, 30000);
}

/// A driver whose thread waits for an approval.
fn suspended() -> DriverState {
    let mut driver = driver();
    driver.on_wait(WaitEvent::Envelope(Some(prompt("p", "root", 7))), false);
    driver.on_outcome(
        thread("root"),
        Some(TurnOutcome::Suspended),
        false,
        false,
        false,
    );
    driver
}

#[test]
fn a_parked_thread_survives_an_exit() {
    let mut driver = suspended();
    assert!(matches!(driver.next_work(), Work::Wait));
    assert!(matches!(
        driver.on_wait(WaitEvent::Control(Some(AgentControl::Exit)), false),
        WaitNext::Exit
    ));
    let (envelopes, active) = driver.leave(vec![prompt("late", "root", 9)]);
    assert_eq!(envelopes.len(), 1);
    assert_eq!(active, Some(thread("root")));
}

#[test]
fn an_abort_wakes_a_parked_thread_of_the_stopped_turn() {
    let abort = || WaitEvent::Control(Some(AgentControl::Abort));
    let mut other = suspended();
    assert!(matches!(other.on_wait(abort(), false), WaitNext::Again));
    assert!(matches!(other.next_work(), Work::Wait));
    let mut own = suspended();
    assert!(matches!(own.on_wait(abort(), true), WaitNext::Again));
    assert!(matches!(own.next_work(), Work::Run { envelope: None, .. }));
}

#[test]
fn an_exit_during_a_suspension_keeps_the_thread() {
    let mut driver = driver();
    driver.on_wait(WaitEvent::Envelope(Some(prompt("p", "root", 7))), false);
    assert!(driver.on_outcome(
        thread("root"),
        Some(TurnOutcome::Suspended),
        true,
        true,
        false
    ));
    assert_eq!(driver.leave(vec![]).1, Some(thread("root")));
}

#[test]
fn commands_during_a_run() {
    let table = [
        (Some(AgentControl::Abort), (true, false)),
        (Some(AgentControl::Exit), (false, true)),
        (Some(AgentControl::StopScope), (true, true)),
        (None, (true, false)),
    ];
    for (command, expected) in table {
        let interruption = interrupt(command);
        assert_eq!((interruption.cancel, interruption.exit), expected);
    }
}
