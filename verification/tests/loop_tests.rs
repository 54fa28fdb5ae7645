use coda_agent::agent::{
    AbortedTarget, Agent, AgentEvent, AgentState, Envelope, EnvelopeBody, PendingReply,
    PendingToolCall, Receiver, ReplyTarget, ResumeDecision, ResumePoint, Sender, ThreadId,
    ToolCallResolution, ToolExecutionState, Tools,
};
use coda_agent::config::{ApprovalPolicy, ModelProfile, ToolApprovalMode};
use coda_agent::execution::{CompletionTarget, ProcessGroupId, StoredExecution};
use coda_agent::ids::{derive_child_id, MessageId, Timestamp, TurnId};
use coda_agent::llm::{
    AssistantMessage, CompletionUsage, Message, MessageOrigin, RequestMessage, Temperature,
    ToolCall, ToolCallOutcome, ToolDefinition, ToolMessage, ToolOutput, UserMessage,
};
use coda_agent::message_view::{model_view, validate_model_view, InvalidHistory};
use coda_agent::persist::StoredCheckpoint;
use coda_agent::prompt::{PromptStore, SystemPrompt};
use coda_agent::runtime::agent_loop::{
    AgentLoop, EnvelopeOutcome, LoopStep, TurnEnd, WindUp,
};
use coda_agent::runtime::auto_compact::{auto_cutoff, summary_item};
use coda_agent::runtime::generation::{GenerationOutcome, GenerationProgress, StreamItem};
use coda_agent::runtime::tools::{concurrent_stateful_subagents, ToolAction, ToolSettlement};
use coda_agent::runtime::turn::CallLedger;
use coda_agent::runtime::turn_run::{
    after_first_write, after_generation, after_tools, is_root_thread, TurnFinish, TurnOutcome, TurnProgress,
    TurnStart, TurnStep,
};
use coda_agent::runtime::SendCommandError;
use coda_agent::subagents::{SubAgentMode, SubAgentTool, SubAgents};
use coda_agent::task::TaskId;
use std::collections::VecDeque;
use std::sync::Arc;

const TURN: TurnId = TurnId { value: 7 };
const PARENT: MessageId = MessageId { value: 70 };

fn at(nanoseconds: i128) -> Timestamp {
    Timestamp { nanoseconds }
}

fn subagent(name: &str, mode: SubAgentMode) -> SubAgentTool {
    SubAgentTool {
        name: name.to_string(),
        description: format!("the {name}"),
        mode,
    }
}

fn new_loop(store: &mut PromptStore) -> AgentLoop {
    let mut subagents = SubAgents::default();
    subagents.register(subagent("scout", SubAgentMode::Stateless));
    subagents.register(subagent("friend", SubAgentMode::Stateful));
    AgentLoop {
        agent: Agent {
            name: "coda".to_string(),
            mode: SubAgentMode::Stateless,
            system_prompt: SystemPrompt::from_text(store, "be brief".to_string()),
            state: AgentState::new(),
            tools: Tools {
                definitions: vec![ToolDefinition {
                    name: "shell".to_string(),
                    description: "runs".to_string(),
                    parameter_schema: "{}".to_string(),
                }],
            },
            subagents,
        },
        thread_id: ThreadId::from("root".to_string()),
        turn: TURN,
        reply_target: None,
        origin_thread: None,
        events: vec![],
    }
}

fn run() -> AgentLoop {
    new_loop(&mut PromptStore::new())
}

/// A run that is working on a user's prompt.
fn prompted() -> AgentLoop {
    let mut run = run();
    run.agent.add_user_message(
        TURN,
        UserMessage::text(MessageId { value: 7 }, "go".to_string()),
    );
    run
}

fn caller() -> ReplyTarget {
    ReplyTarget {
        envelope_id: "asked".to_string(),
        sender_name: "boss".to_string(),
        sender_thread_id: "boss-thread".to_string(),
        call_id: "c1".to_string(),
    }
}

fn call(id: &str, name: &str, arguments: Option<&str>) -> ToolCall {
    ToolCall {
        id: id.to_string(),
        name: name.to_string(),
        arguments: arguments.map(str::to_string),
    }
}

fn auto(call: ToolCall) -> PendingToolCall {
    PendingToolCall {
        tool_call: call,
        outcome: ToolCallOutcome::Auto,
    }
}

fn batch(calls: Vec<ToolCall>) -> ToolExecutionState {
    ToolExecutionState {
        parent_message_id: PARENT,
        pending_replies: vec![],
        tool_calls: calls.into_iter().map(auto).collect(),
    }
}

fn pending(call_id: &str, tool_name: &str) -> PendingReply {
    PendingReply {
        call_id: call_id.to_string(),
        call_envelope_id: format!("envelope-{call_id}"),
        tool_name: tool_name.to_string(),
        outcome: ToolCallOutcome::Approved,
        started_at: at(5),
    }
}

fn waiting(replies: Vec<PendingReply>) -> ResumePoint {
    ResumePoint::ToolExecution(ToolExecutionState {
        parent_message_id: PARENT,
        pending_replies: replies,
        tool_calls: VecDeque::new(),
    })
}

fn parked(approvals: Vec<ToolCall>, calls: Vec<ToolCall>) -> ResumePoint {
    ResumePoint::PendingApproval {
        parent_message_id: PARENT,
        pending_approval_calls: approvals.into_iter().collect(),
        pending_calls: calls.into_iter().map(auto).collect(),
    }
}

fn envelope(from: Sender, body: EnvelopeBody) -> Envelope {
    Envelope {
        id: "e1".to_string(),
        from,
        to: Receiver {
            name: "coda".to_string(),
            thread_id: ThreadId::from("root".to_string()),
        },
        reply_to: None,
        body,
    }
}

fn prompt(text: &str) -> Envelope {
    envelope(
        Sender::User,
        EnvelopeBody::Task {
            message_id: MessageId { value: 8 },
            task: text.to_string(),
            images: vec![],
        },
    )
}

fn tool_call(task: &str) -> Envelope {
    envelope(
        Sender::Agent {
            name: "boss".to_string(),
            thread_id: ThreadId::from("boss-thread".to_string()),
        },
        EnvelopeBody::ToolCall {
            call_id: "c1".to_string(),
            parent_message_id: MessageId { value: 3 },
            derivation_key: "key".to_string(),
            turn_id: TurnId { value: 9 },
            task: task.to_string(),
        },
    )
}

fn reply(thread: &str, call_id: &str, output: &str, aborted: bool) -> Envelope {
    Envelope {
        reply_to: Some(format!("envelope-{call_id}")),
        ..envelope(
            Sender::Agent {
                name: "scout".to_string(),
                thread_id: ThreadId::from(thread.to_string()),
            },
            EnvelopeBody::Reply {
                call_id: call_id.to_string(),
                output: ToolOutput::Success(output.to_string()),
                aborted,
            },
        )
    }
}

fn decision(parent: MessageId, resolutions: Vec<(&str, ToolCallResolution)>) -> Envelope {
    envelope(
        Sender::User,
        EnvelopeBody::Resume(ResumeDecision {
            parent_message_id: parent,
            resolutions: resolutions
                .into_iter()
                .map(|(id, resolution)| (id.to_string(), resolution))
                .collect(),
        }),
    )
}

fn answer(content: &str, tool_calls: Vec<ToolCall>) -> AssistantMessage {
    AssistantMessage {
        message_id: PARENT,
        content: content.to_string(),
        tool_calls,
        usage: None,
        reasoning_content: None,
        reasoning_continuation: None,
        reasoning_ended_at: None,
        aborted: false,
        started_at: at(0),
        ended_at: at(0),
    }
}

/// The tool results in history, by call id.
fn results(run: &AgentLoop) -> Vec<(String, ToolOutput, ToolCallOutcome)> {
    run.agent
        .history()
        .into_iter()
        .filter_map(|entry| match entry.message {
            Message::Tool(tool) => Some((tool.id, tool.output, tool.outcome)),
            _ => None,
        })
        .collect()
}

/// The ids of the results announced so far.
fn announced(run: &AgentLoop) -> Vec<String> {
    run.events
        .iter()
        .filter_map(|announcement| match &announcement.event {
            AgentEvent::ToolCallEnd(tool) => Some(tool.id.clone()),
            _ => None,
        })
        .collect()
}

fn interrupted(id: &str) -> (String, ToolOutput, ToolCallOutcome) {
    (
        id.to_string(),
        ToolOutput::Failure("Tool execution was interrupted by the user".to_string()),
        ToolCallOutcome::Aborted,
    )
}

fn scout_thread(call_id: &str) -> String {
    let key = MessageOrigin {
        message_id: PARENT,
        call_id: call_id.to_string(),
    }
    .derivation_key();
    derive_child_id("root", &key)
}

fn profile() -> ModelProfile<u8> {
    ModelProfile {
        provider: 1,
        model: "m".to_string(),
        label: "M".to_string(),
        temperature: Some(Temperature { bits: 1 }),
        max_completion_tokens: Some(9),
        reasoning_effort: Some("low".to_string()),
        auto_compact_threshold_tokens: 1_000,
    }
}

#[test]
fn a_prompt_opens_a_turn() {
    let mut run = run();
    let mut calls = CallLedger::new();
    let outcome = run.handle_envelope(&mut calls, ResumePoint::Generation, prompt("hello"));
    assert_eq!(outcome, EnvelopeOutcome::Next(ResumePoint::Generation));
    let history = run.agent.history();
    assert_eq!(history.len(), 1);
    assert_eq!(history[0].turn_id, TurnId { value: 8 });
    assert!(matches!(&history[0].message, Message::User(user)
        if user.first_text() == Some("hello") && user.origin.is_none()));
    assert!(run.reply_target.is_none());
    assert_eq!(run.thread_turn(), TurnId { value: 8 });
}

#[test]
fn a_call_opens_work_in_the_callers_turn() {
    let mut run = run();
    let mut calls = CallLedger::new();
    run.handle_envelope(&mut calls, ResumePoint::Generation, tool_call("look"));
    let history = run.agent.history();
    assert_eq!(history[0].turn_id, TurnId { value: 9 });
    assert!(matches!(&history[0].message, Message::User(user)
        if user.first_text() == Some("look")
            && user.origin == Some(MessageOrigin {
                message_id: MessageId { value: 3 },
                call_id: "c1".to_string(),
            })));
    assert_eq!(
        run.reply_target,
        Some(ReplyTarget {
            envelope_id: "e1".to_string(),
            ..caller()
        })
    );
    let origin = run.origin_thread.unwrap();
    assert_eq!(origin.parent_thread_id, "boss-thread");
    assert_eq!(origin.derivation_key, "key");
}

#[test]
fn an_idle_thread_has_no_use_for_a_reply_or_a_decision() {
    for body in [reply("t", "c1", "x", false), decision(PARENT, vec![])] {
        let mut run = run();
        let outcome = run.handle_envelope(&mut CallLedger::new(), ResumePoint::Generation, body);
        assert_eq!(
            outcome,
            EnvelopeOutcome::Done(ResumePoint::Generation, TurnEnd::default())
        );
        assert!(run.agent.history().is_empty());
    }
}

#[test]
fn a_batch_that_waits_for_nothing_goes_on() {
    let mut run = run();
    let outcome = run.handle_envelope(
        &mut CallLedger::new(),
        ResumePoint::ToolExecution(batch(vec![call("a", "shell", None)])),
        prompt("hello"),
    );
    assert_eq!(outcome, EnvelopeOutcome::Next(ResumePoint::Generation));
    assert!(run.agent.history().is_empty());
}

#[test]
fn the_last_reply_lets_the_thread_go_on() {
    let mut run = prompted();
    let mut calls = CallLedger::new();
    let scout = ThreadId::from("scout-thread".to_string());
    calls.begin(&scout);
    let outcome = run.handle_envelope(
        &mut calls,
        waiting(vec![pending("a", "scout"), pending("b", "scout")]),
        reply("scout-thread", "a", "seen", false),
    );
    assert_eq!(
        outcome,
        EnvelopeOutcome::Next(waiting(vec![pending("b", "scout")]))
    );
    assert!(!calls.is_answering(&scout));
    let outcome = run.handle_envelope(
        &mut calls,
        waiting(vec![pending("b", "scout")]),
        reply("scout-thread", "b", "half", true),
    );
    assert_eq!(outcome, EnvelopeOutcome::Next(ResumePoint::Generation));
    assert_eq!(
        results(&run),
        [
            (
                "a".to_string(),
                ToolOutput::Success("seen".to_string()),
                ToolCallOutcome::Approved,
            ),
            (
                "b".to_string(),
                ToolOutput::Success("half".to_string()),
                ToolCallOutcome::Aborted,
            ),
        ]
    );
    assert_eq!(announced(&run), ["a", "b"]);
}

#[test]
fn a_reply_nobody_waits_for_changes_nothing() {
    let mut run = prompted();
    let point = waiting(vec![pending("a", "scout")]);
    let outcome = run.handle_envelope(
        &mut CallLedger::new(),
        point.clone(),
        reply("scout-thread", "other", "seen", false),
    );
    assert_eq!(outcome, EnvelopeOutcome::Next(point));
    assert!(results(&run).is_empty());
}

#[test]
fn a_reply_to_an_earlier_call_with_the_same_id_settles_nothing() {
    let mut run = prompted();
    let point = waiting(vec![pending("a", "scout")]);
    for reply_to in [None, Some("an-earlier-dispatch".to_string())] {
        let stale = Envelope {
            reply_to,
            ..reply("scout-thread", "a", "stale", false)
        };
        let outcome = run.handle_envelope(&mut CallLedger::new(), point.clone(), stale);
        assert_eq!(outcome, EnvelopeOutcome::Next(point.clone()));
    }
    assert!(results(&run).is_empty());
    assert!(run.events.is_empty());
}

#[test]
fn new_work_waits_for_what_is_still_being_answered() {
    let mut run = prompted();
    let mut calls = CallLedger::new();
    calls.begin(&ThreadId::from(scout_thread("b")));
    let outcome = run.handle_envelope(
        &mut calls,
        waiting(vec![pending("a", "scout"), pending("b", "scout")]),
        prompt("never mind"),
    );
    assert_eq!(
        outcome,
        EnvelopeOutcome::Deferred {
            envelope: prompt("never mind"),
            resume_point: waiting(vec![pending("b", "scout")]),
            cancel: Some(TURN),
        }
    );
    assert_eq!(results(&run), [interrupted("a")]);
    assert_eq!(announced(&run), ["a"]);
}

#[test]
fn new_work_replaces_what_nobody_will_answer() {
    let mut run = prompted();
    let outcome = run.handle_envelope(
        &mut CallLedger::new(),
        waiting(vec![pending("a", "scout")]),
        prompt("never mind"),
    );
    assert_eq!(outcome, EnvelopeOutcome::Next(ResumePoint::Generation));
    assert_eq!(results(&run), [interrupted("a")]);
    assert_eq!(run.thread_turn(), TurnId { value: 8 });
}

#[test]
fn a_sub_agent_that_keeps_a_conversation_answers_on_its_own_thread() {
    let mut run = prompted();
    let mut calls = CallLedger::new();
    let asked = pending("a", "agent__friend");
    assert!(!run.is_being_answered(&calls, PARENT, &asked));
    calls.begin(&ThreadId::from(derive_child_id("root", "friend")));
    assert!(run.is_being_answered(&calls, PARENT, &asked));
    assert!(!run.is_being_answered(&calls, PARENT, &pending("a", "nobody")));
    run.thread_id = ThreadId::from("elsewhere".to_string());
    assert!(!run.is_being_answered(&calls, PARENT, &asked));
}

#[test]
fn a_decision_settles_its_batch() {
    let mut run = prompted();
    let point = parked(
        vec![
            call("a", "shell", None),
            call("b", "shell", None),
            call("c", "shell", None),
            call("d", "shell", None),
        ],
        vec![call("z", "shell", None)],
    );
    let outcome = run.handle_envelope(
        &mut CallLedger::new(),
        point,
        decision(
            PARENT,
            vec![
                ("a", ToolCallResolution::Execute),
                ("b", ToolCallResolution::Rejected { reason: None }),
                (
                    "b",
                    ToolCallResolution::Resolved(ToolOutput::Success("given".to_string())),
                ),
                (
                    "c",
                    ToolCallResolution::Rejected {
                        reason: Some("no".to_string()),
                    },
                ),
            ],
        ),
    );
    let mut expected = batch(vec![call("z", "shell", None)]);
    expected.tool_calls.push_back(PendingToolCall {
        tool_call: call("a", "shell", None),
        outcome: ToolCallOutcome::Approved,
    });
    assert_eq!(
        outcome,
        EnvelopeOutcome::Next(ResumePoint::ToolExecution(expected))
    );
    assert_eq!(
        results(&run),
        [
            (
                "b".to_string(),
                ToolOutput::Success("given".to_string()),
                ToolCallOutcome::Resolved,
            ),
            (
                "c".to_string(),
                ToolOutput::Failure("no".to_string()),
                ToolCallOutcome::Rejected {
                    reason: Some("no".to_string()),
                },
            ),
            (
                "d".to_string(),
                ToolOutput::Failure("Rejected by user".to_string()),
                ToolCallOutcome::Rejected { reason: None },
            ),
        ]
    );
    assert_eq!(announced(&run), ["b", "c", "d"]);
}

#[test]
fn a_decision_for_another_batch_leaves_the_thread_parked() {
    let mut run = prompted();
    let point = parked(vec![call("a", "shell", None)], vec![]);
    let outcome = run.handle_envelope(
        &mut CallLedger::new(),
        point.clone(),
        decision(
            MessageId { value: 71 },
            vec![("a", ToolCallResolution::Execute)],
        ),
    );
    assert_eq!(outcome, EnvelopeOutcome::Next(point));
    assert!(results(&run).is_empty());
}

#[test]
fn a_parked_thread_holds_a_call_and_ignores_a_prompt() {
    let point = parked(vec![call("a", "shell", None)], vec![]);
    let outcome =
        prompted().handle_envelope(&mut CallLedger::new(), point.clone(), tool_call("look"));
    assert_eq!(
        outcome,
        EnvelopeOutcome::Deferred {
            envelope: tool_call("look"),
            resume_point: point.clone(),
            cancel: None,
        }
    );
    let outcome = prompted().handle_envelope(&mut CallLedger::new(), point.clone(), prompt("hi"));
    assert_eq!(outcome, EnvelopeOutcome::Done(point, TurnEnd::default()));
}

#[test]
fn a_wind_up_writes_off_what_never_left() {
    let mut run = prompted();
    run.reply_target = Some(caller());
    let ended = run.wind_up(parked(
        vec![call("a", "shell", None)],
        vec![call("b", "shell", None)],
    ));
    let WindUp::Ended(end) = ended else {
        panic!("nothing is owed");
    };
    assert_eq!(
        end.event,
        Some(AgentEvent::Aborted(AbortedTarget::ToolCalls(vec![
            "a".to_string(),
            "b".to_string()
        ])))
    );
    let reply = end.reply.unwrap();
    assert_eq!(reply.to.name, "boss");
    assert_eq!(reply.to.thread_id.as_str(), "boss-thread");
    assert_eq!(reply.reply_to.as_deref(), Some("asked"));
    assert_eq!(
        reply.body,
        EnvelopeBody::Reply {
            call_id: "c1".to_string(),
            output: ToolOutput::Failure("Aborted by user".to_string()),
            aborted: true,
        }
    );
    assert!(run.reply_target.is_none());
    assert_eq!(results(&run), [interrupted("a"), interrupted("b")]);
}

#[test]
fn a_wind_up_waits_for_owed_replies() {
    let mut run = prompted();
    let mut state = batch(vec![call("b", "shell", None)]);
    state.pending_replies = vec![pending("a", "scout")];
    let res = run.wind_up(ResumePoint::ToolExecution(state));
    assert_eq!(res, WindUp::Waiting(waiting(vec![pending("a", "scout")])));
    assert_eq!(results(&run), [interrupted("b")]);
}

#[test]
fn a_wind_up_with_nothing_open_names_the_generation() {
    let mut run = prompted();
    let WindUp::Ended(end) = run.wind_up(ResumePoint::Generation) else {
        panic!("nothing is owed");
    };
    assert_eq!(end.event, Some(AgentEvent::Aborted(AbortedTarget::Generation)));
    assert!(end.reply.is_none());
}

#[test]
fn interrupted_calls_are_those_of_the_turn() {
    let mut run = prompted();
    run.wind_up(parked(vec![call("a", "shell", None)], vec![]));
    run.agent.add_user_message(
        TurnId { value: 8 },
        UserMessage::text(MessageId { value: 8 }, "again".to_string()),
    );
    assert!(run.interrupted_calls().is_empty());
    run.wind_up(parked(vec![call("b", "shell", None)], vec![]));
    assert_eq!(run.interrupted_calls(), ["b"]);
}

#[test]
fn a_stored_thread_comes_back() {
    let mut run = prompted();
    run.reply_target = Some(caller());
    let point = parked(vec![call("a", "shell", None)], vec![call("b", "shell", None)]);
    let stored = run.checkpoint(point.clone(), at(44), None, &TurnEnd::default());
    assert_eq!(stored.thread_id, "root");
    assert_eq!(stored.agent_name, "coda");
    assert!(stored.parent_thread_id.is_none() && stored.derivation_key.is_none());

    let mut other = self::run();
    other.turn = TurnId { value: 1 };
    let (entered, suspended_at) = other.enter(Some(stored));
    assert_eq!(entered, point);
    assert_eq!(suspended_at, at(44));
    assert_eq!(other.turn, TURN);
    assert_eq!(other.reply_target, Some(caller()));
    assert_eq!(other.agent.history().len(), 1);
}

fn invocation(scope: ProcessGroupId, completion: CompletionTarget) -> StoredExecution {
    StoredExecution {
        invocation_id: "asked".to_string(),
        scope,
        completion,
        agent_path: vec!["coda".to_string()],
    }
}

#[test]
fn finished_work_is_not_stored_as_active() {
    let foreground = ProcessGroupId::Foreground { turn_id: TURN };
    let background = ProcessGroupId::Background {
        task_id: TaskId { id: "task".to_string() },
    };
    let completions = [
        (foreground.clone(), CompletionTarget::RootTurn, None),
        (foreground, CompletionTarget::Caller(caller()), Some(caller())),
        (
            background,
            CompletionTarget::BackgroundTask(TaskId { id: "task".to_string() }),
            None,
        ),
    ];
    for (scope, completion, target) in completions {
        let execution = invocation(scope, completion);
        let mut run = prompted();
        run.reply_target = target;
        let open = run.checkpoint(
            ResumePoint::Generation,
            at(1),
            Some(execution.clone()),
            &TurnEnd::default(),
        );
        assert_eq!(open.active_execution, Some(execution.clone()));

        let outcome = GenerationOutcome::Completed(answer("done", vec![]));
        let LoopStep::Done(point, end) =
            run.handle_generation(&progress(), outcome, at(2), &ToolApprovalMode::Auto)
        else {
            panic!("an answer without calls ends the turn");
        };
        assert!(end.ends_work());
        let closed = run.checkpoint(point, at(2), Some(execution), &end);
        assert!(closed.active_execution.is_none() && closed.reply_target.is_none());
    }
}

#[test]
fn an_answered_call_is_not_stored_as_owed() {
    let scope = ProcessGroupId::Foreground { turn_id: TURN };
    let execution = invocation(scope, CompletionTarget::Caller(caller()));
    let run = prompted();
    let stored = run.checkpoint(
        ResumePoint::Generation,
        at(1),
        Some(execution),
        &TurnEnd::default(),
    );
    assert!(stored.active_execution.is_none());
}

#[test]
fn a_suspension_does_not_end_the_work() {
    let mut run = prompted();
    let point = parked(vec![call("a", "shell", None)], vec![]);
    let TurnStep::Finish(finish) = run.next_step(point, at(2), false, false, None) else {
        panic!("the thread waits for an approval");
    };
    assert!(finish.suspended && finish.owed.event.is_some());
    assert!(!finish.owed.ends_work());
    let scope = ProcessGroupId::Foreground { turn_id: TURN };
    let execution = invocation(scope, CompletionTarget::RootTurn);
    let stored = run.checkpoint(
        finish.resume_point,
        finish.suspended_at,
        Some(execution.clone()),
        &finish.owed,
    );
    assert_eq!(stored.active_execution, Some(execution));
}

#[test]
fn a_thread_without_a_record_starts_from_nothing() {
    let mut run = prompted();
    run.reply_target = Some(caller());
    let (point, suspended_at) = run.enter(None);
    assert_eq!(point, ResumePoint::Generation);
    assert_eq!(suspended_at, at(0));
    assert!(run.agent.history().is_empty());
    assert!(run.reply_target.is_none());
    assert_eq!(run.turn, TURN);
}

#[test]
fn an_origin_needs_both_halves() {
    let mut run = run();
    let stored = StoredCheckpoint {
        parent_thread_id: Some("boss-thread".to_string()),
        ..run.checkpoint(ResumePoint::Generation, at(0), None, &TurnEnd::default())
    };
    run.enter(Some(stored.clone()));
    assert!(run.origin_thread.is_none());
    run.enter(Some(StoredCheckpoint {
        derivation_key: Some("key".to_string()),
        ..stored
    }));
    assert!(run.origin_thread.is_some());
}

#[test]
fn a_request_carries_the_prompt_the_history_and_the_tools() {
    let mut store = PromptStore::new();
    let mut run = new_loop(&mut store);
    run.agent.add_user_message(
        TURN,
        UserMessage::text(MessageId { value: 7 }, "go".to_string()),
    );
    let Ok((request, progress)) = run.begin_generation(&profile(), &store, at(3)) else {
        panic!("a history that a provider accepts");
    };
    assert_eq!(request.model, "m");
    assert_eq!(request.max_completion_tokens, Some(9));
    assert_eq!(request.temperature, Some(Temperature { bits: 1 }));
    assert_eq!(request.reasoning_effort.as_deref(), Some("low"));
    assert_eq!(request.messages.len(), 2);
    assert!(matches!(&request.messages[0], RequestMessage::System(system)
        if system.text == "be brief"));
    assert!(matches!(&request.messages[1], RequestMessage::User(user)
        if user.first_text() == Some("go")));
    let offered: Vec<_> = request.tools.iter().map(|tool| tool.name.as_str()).collect();
    assert_eq!(offered, ["shell", "agent__scout", "agent__friend"]);
    assert_eq!(progress.started_at, at(3));
    assert!(matches!(&run.events[0].event, AgentEvent::LLMStart(started) if *started == request));
    assert_eq!(run.events[0].turn, TURN);
}

/// A run whose history lacks the result of the call `missing`.
fn malformed(usage: Option<CompletionUsage>) -> (PromptStore, AgentLoop) {
    let mut store = PromptStore::new();
    let mut run = new_loop(&mut store);
    run.agent.add_user_message(
        TURN,
        UserMessage::text(MessageId { value: 7 }, "old task".to_string()),
    );
    run.agent.add_message(Message::Assistant(AssistantMessage {
        usage,
        ..answer(
            "",
            vec![call("finished", "shell", None), call("missing", "shell", None)],
        )
    }));
    run.agent.add_message(Message::Tool(ToolMessage::new(
        "finished".to_string(),
        "shell".to_string(),
        ToolOutput::Success("done".to_string()),
        ToolCallOutcome::Auto,
        None,
    )));
    run.agent.add_user_message(
        TURN,
        UserMessage::text(MessageId { value: 9 }, "new task".to_string()),
    );
    (store, run)
}

#[test]
fn a_malformed_history_never_reaches_the_model() {
    for usage in [None, Some(usage(100)), Some(usage(5_000))] {
        let (store, mut run) = malformed(usage);
        assert!(run.begin_compaction(&profile(), "sum up").is_none());
        let Err(LoopStep::Done(ResumePoint::Generation, end)) =
            run.begin_generation(&profile(), &store, at(3))
        else {
            panic!("the history lacks a result");
        };
        assert!(run.events.is_empty());
        assert!(end.reply.is_none());
        assert!(matches!(&end.event, Some(AgentEvent::Error(error))
            if error.contains("missing results") && error.contains("missing")));

        let (store, mut called) = malformed(usage);
        called.reply_target = Some(caller());
        let Err(LoopStep::Done(_, end)) = called.begin_generation(&profile(), &store, at(3)) else {
            panic!("the history lacks a result");
        };
        assert!(end.event.is_none());
        assert!(called.reply_target.is_none());
        assert!(matches!(&end.reply.unwrap().body, EnvelopeBody::Reply {
            output: ToolOutput::Failure(error),
            aborted: false,
            ..
        } if error.contains("missing results")));
    }
}

fn usage(total_tokens: u32) -> CompletionUsage {
    CompletionUsage {
        prompt_tokens: 0,
        completion_tokens: 0,
        total_tokens,
    }
}

/// A run that finished a batch in its first turn, with the usage that was reported for it.
fn worked(total_tokens: u32) -> AgentLoop {
    let mut run = prompted();
    run.agent.add_message(Message::Assistant(AssistantMessage {
        usage: Some(usage(total_tokens)),
        ..answer("looking", vec![call("first", "shell", None)])
    }));
    run.agent.add_message(Message::Tool(ToolMessage::new(
        "first".to_string(),
        "shell".to_string(),
        ToolOutput::Success("seen".to_string()),
        ToolCallOutcome::Auto,
        None,
    )));
    run
}

#[test]
fn a_first_turn_is_compacted_after_its_finished_batch() {
    let mut below = worked(999);
    assert!(below.begin_compaction(&profile(), "sum up").is_none());
    assert!(below.events.is_empty());

    let mut run = worked(1_000);
    let last = run.agent.history()[2].message.message_id();
    let (request, covered) = run.begin_compaction(&profile(), "sum up").unwrap();
    assert_eq!(covered, last);
    assert_eq!(request.model, "m");
    assert!(request.tools.is_empty());
    assert!(matches!(&request.messages[0], RequestMessage::System(system)
        if system.text == "sum up"));
    assert!(matches!(&request.messages[1], RequestMessage::User(user)
        if user.first_text().unwrap().contains("looking")));

    run.finish_compaction(covered, Ok("gist".to_string()));
    let history = run.agent.history();
    let view = model_view(&history);
    assert_eq!(view.len(), 1);
    let Message::Compaction(summary) = &view[0].message else {
        panic!("the summary is all that is left");
    };
    assert_eq!(summary.cutoff(), Some(last));
    assert_eq!(view[0].turn_id, TURN);
    assert!(matches!(&run.events[0].event, AgentEvent::CompactionStart));
    assert!(matches!(&run.events[1].event, AgentEvent::CompactionEnd(end) if end == summary));
    assert_eq!(run.events.len(), 2);
    assert_eq!(validate_model_view(&history), Ok(()));
}

#[test]
fn a_failed_compaction_is_tried_again() {
    let mut run = worked(1_000);
    let (_, covered) = run.begin_compaction(&profile(), "sum up").unwrap();
    run.finish_compaction(covered, Err("no answer".to_string()));
    assert!(matches!(&run.events[1].event, AgentEvent::CompactionEnd(end)
        if !end.is_summary() && end.content.ends_with("no answer")));
    assert_eq!(run.begin_compaction(&profile(), "sum up").unwrap().1, covered);
}

#[test]
fn a_fresh_prompt_is_not_summarized() {
    let mut run = worked(5_000);
    let done = run.agent.history()[2].message.message_id();
    let next = TurnId { value: 71 };
    run.agent.add_user_message(
        next,
        UserMessage::text(MessageId { value: 71 }, "next".to_string()),
    );
    let (_, covered) = run.begin_compaction(&profile(), "sum up").unwrap();
    assert_eq!(covered, done);
    run.finish_compaction(covered, Ok("gist".to_string()));
    // The usage is as it was, and all that is left is the prompt that nobody has answered.
    assert!(run.begin_compaction(&profile(), "sum up").is_none());
    let history = run.agent.history();
    let ids: Vec<_> = model_view(&history)
        .iter()
        .skip(1)
        .map(|entry| entry.message.message_id())
        .collect();
    assert_eq!(ids, [MessageId { value: 71 }]);
    assert_eq!(
        auto_cutoff(&history, Some(usage(999)), Some(next), 1_000),
        Ok(None)
    );
}

#[test]
fn only_a_completed_answer_is_a_summary() {
    assert_eq!(summary_item(StreamItem::ContentChunk("a".to_string())), None);
    assert_eq!(summary_item(StreamItem::ReasoningChunk("a".to_string())), None);
    assert_eq!(
        summary_item(StreamItem::Completed(answer("gist", vec![]))),
        Some(Ok("gist".to_string()))
    );
    assert_eq!(
        summary_item(StreamItem::Failed("down".to_string())),
        Some(Err("down".to_string()))
    );
    assert!(matches!(summary_item(StreamItem::Ended), Some(Err(_))));
    assert_eq!(
        summary_item(StreamItem::Cancelled),
        Some(Err("interrupted by the user".to_string()))
    );
}

#[test]
fn a_turn_that_cannot_store_its_prompt_is_over() {
    assert_eq!(after_first_write(true), None);
    assert_eq!(after_first_write(false), Some(TurnOutcome::Completed));
    let mut run = run();
    let start = run.start_turn(&mut CallLedger::new(), None, Some(prompt("hello")));
    assert!(matches!(start, TurnStart::Proceed { save_first: true, .. }));
    assert!(run.events.is_empty());
    let (persisted, reply) = run.settle_write(Err("disk".to_string()), TurnEnd::default());
    assert!(!persisted && reply.is_none());
    assert_eq!(run.events.len(), 1);
    assert_eq!(
        run.events[0].event,
        AgentEvent::PersistFailed("disk".to_string())
    );
}

fn progress() -> GenerationProgress {
    GenerationProgress {
        partial_content: String::new(),
        partial_reasoning: String::new(),
        reasoning_ended_at: None,
        started_at: at(10),
    }
}

#[test]
fn chunks_are_gathered_and_announced() {
    let mut run = prompted();
    let mut progress = progress();
    let id = MessageId { value: 5 };
    for (item, now) in [
        (StreamItem::ReasoningChunk("hm".to_string()), 11),
        (StreamItem::ContentChunk("an".to_string()), 12),
        (StreamItem::ContentChunk("swer".to_string()), 13),
    ] {
        assert!(run.on_stream_item(&mut progress, item, at(now), id).is_none());
    }
    assert_eq!(progress.partial_reasoning, "hm");
    assert_eq!(progress.partial_content, "answer");
    assert_eq!(progress.reasoning_ended_at, Some(at(12)));
    let texts: Vec<_> = run
        .events
        .iter()
        .map(|announcement| match &announcement.event {
            AgentEvent::LLMContentChunk(text) | AgentEvent::LLMReasoningChunk(text) => text.as_str(),
            _ => panic!("only chunks arrived"),
        })
        .collect();
    assert_eq!(texts, ["hm", "an", "swer"]);
}

#[test]
fn a_stopped_stream_keeps_what_arrived() {
    let mut run = prompted();
    let mut progress = progress();
    let id = MessageId { value: 5 };
    run.on_stream_item(
        &mut progress,
        StreamItem::ContentChunk("half".to_string()),
        at(12),
        id,
    );
    let outcome = run.on_stream_item(&mut progress, StreamItem::Cancelled, at(20), id);
    assert!(matches!(outcome, Some(GenerationOutcome::Aborted)));
    let history = run.agent.history();
    assert!(matches!(&history[1].message, Message::Assistant(message)
        if message.aborted && message.message_id == id
            && message.content == "half\n[Generation was interrupted by the user]"
            && message.started_at == at(10) && message.ended_at == at(20)));
}

#[test]
fn a_stream_that_was_stopped_early_leaves_nothing() {
    let mut run = prompted();
    let outcome = run.on_stream_item(
        &mut progress(),
        StreamItem::Cancelled,
        at(20),
        MessageId { value: 5 },
    );
    assert!(matches!(outcome, Some(GenerationOutcome::Aborted)));
    assert_eq!(run.agent.history().len(), 1);
}

#[test]
fn a_stream_that_breaks_off_is_a_failure() {
    let mut run = prompted();
    let id = MessageId { value: 5 };
    let outcome = run.on_stream_item(&mut progress(), StreamItem::Ended, at(20), id);
    assert!(matches!(outcome, Some(GenerationOutcome::Failed(error))
        if error == "Invalid response: LLM stream ended without Completed event"));
    let outcome = run.on_stream_item(
        &mut progress(),
        StreamItem::Failed("boom".to_string()),
        at(20),
        id,
    );
    assert!(matches!(outcome, Some(GenerationOutcome::Failed(error)) if error == "boom"));
    let outcome = run.on_stream_item(
        &mut progress(),
        StreamItem::Completed(answer("done", vec![])),
        at(20),
        id,
    );
    assert!(matches!(outcome, Some(GenerationOutcome::Completed(message))
        if message.content == "done"));
}

#[test]
fn an_answer_without_calls_ends_the_turn() {
    let mut run = prompted();
    run.reply_target = Some(caller());
    let mut message = answer("done", vec![]);
    message.reasoning_content = Some("hm".to_string());
    let step = run.handle_generation(
        &progress(),
        GenerationOutcome::Completed(message),
        at(30),
        &ToolApprovalMode::Auto,
    );
    let LoopStep::Done(ResumePoint::Generation, end) = step else {
        panic!("the turn is over");
    };
    assert!(matches!(&end.event, Some(AgentEvent::LLMEnd(message))
        if message.started_at == at(10) && message.ended_at == at(30)
            && message.reasoning_ended_at == Some(at(30))));
    assert_eq!(
        end.reply.unwrap().body,
        EnvelopeBody::Reply {
            call_id: "c1".to_string(),
            output: ToolOutput::Success("done".to_string()),
            aborted: false,
        }
    );
    assert!(run.reply_target.is_none());
    assert!(run.events.is_empty());
    assert_eq!(run.agent.history().len(), 2);
}

#[test]
fn a_failure_travels_as_the_reply_or_as_an_event() {
    let mut root = prompted();
    let LoopStep::Done(_, end) = root.handle_generation(
        &progress(),
        GenerationOutcome::Failed("boom".to_string()),
        at(30),
        &ToolApprovalMode::Auto,
    ) else {
        panic!("the turn is over");
    };
    assert_eq!(end.event, Some(AgentEvent::Error("boom".to_string())));
    assert!(end.reply.is_none());

    let mut called = prompted();
    called.reply_target = Some(caller());
    let LoopStep::Done(_, end) = called.handle_generation(
        &progress(),
        GenerationOutcome::Failed("boom".to_string()),
        at(30),
        &ToolApprovalMode::Auto,
    ) else {
        panic!("the turn is over");
    };
    assert!(end.event.is_none());
    assert_eq!(
        end.reply.unwrap().body,
        EnvelopeBody::Reply {
            call_id: "c1".to_string(),
            output: ToolOutput::Failure("boom".to_string()),
            aborted: false,
        }
    );
}

#[test]
fn an_aborted_generation_ends_the_turn() {
    let mut run = prompted();
    let LoopStep::Done(_, end) = run.handle_generation(
        &progress(),
        GenerationOutcome::Aborted,
        at(30),
        &ToolApprovalMode::Auto,
    ) else {
        panic!("the turn is over");
    };
    assert_eq!(end.event, Some(AgentEvent::Aborted(AbortedTarget::Generation)));
}

struct Dangerous;

impl ApprovalPolicy for Dangerous {
    fn requires_approval(&self, call: &ToolCall) -> bool {
        call.id == "b"
    }
}

#[test]
fn calls_are_split_by_whether_they_need_an_approval() {
    let calls = || vec![call("a", "shell", None), call("b", "shell", None)];
    let generate = |approval: &ToolApprovalMode| {
        let mut run = prompted();
        let step = run.handle_generation(
            &progress(),
            GenerationOutcome::Completed(answer("", calls())),
            at(30),
            approval,
        );
        assert!(matches!(&run.events[0].event, AgentEvent::LLMEnd(_)));
        step
    };
    assert_eq!(
        generate(&ToolApprovalMode::Auto),
        LoopStep::Next(ResumePoint::ToolExecution(batch(calls())))
    );
    assert_eq!(
        generate(&ToolApprovalMode::Manual),
        LoopStep::Next(parked(calls(), vec![]))
    );
    assert_eq!(
        generate(&ToolApprovalMode::RequireWhen(Arc::new(Box::new(Dangerous)))),
        LoopStep::Next(parked(
            vec![call("b", "shell", None)],
            vec![call("a", "shell", None)]
        ))
    );
}

#[test]
fn a_local_tool_runs_and_its_result_is_kept() {
    let mut run = prompted();
    let mut tools = run.begin_tools(batch(vec![call("a", "shell", None)]));
    let ToolAction::Execute { call: started } =
        run.next_call(&mut tools, "unused".to_string(), at(1))
    else {
        panic!("a local tool runs here");
    };
    assert!(matches!(&run.events[0].event, AgentEvent::ToolCallStart(call) if call.id == "a"));
    assert!(matches!(
        run.next_call(&mut tools, "unused".to_string(), at(1)),
        ToolAction::Started
    ));
    let aborted = run.settle_local_tool(
        &mut tools,
        started,
        at(1),
        ToolSettlement::Completed("ok".to_string()),
    );
    assert!(!aborted);
    assert_eq!(run.finish_tools(tools), LoopStep::Next(ResumePoint::Generation));
    assert_eq!(
        results(&run),
        [(
            "a".to_string(),
            ToolOutput::Success("ok".to_string()),
            ToolCallOutcome::Auto
        )]
    );
}

#[test]
fn a_tool_that_fails_or_is_stopped_says_so() {
    let mut run = prompted();
    let mut tools = run.begin_tools(batch(vec![
        call("a", "shell", None),
        call("b", "shell", None),
    ]));
    for settlement in [
        ToolSettlement::Failed("boom".to_string()),
        ToolSettlement::Aborted("partial".to_string()),
    ] {
        let stops = matches!(settlement, ToolSettlement::Aborted(_));
        let ToolAction::Execute { call } = run.next_call(&mut tools, String::new(), at(1)) else {
            panic!("a local tool runs here");
        };
        assert_eq!(run.settle_local_tool(&mut tools, call, at(1), settlement), stops);
    }
    assert_eq!(
        results(&run),
        [
            (
                "a".to_string(),
                ToolOutput::Failure("Tool execution error: boom".to_string()),
                ToolCallOutcome::Auto,
            ),
            (
                "b".to_string(),
                ToolOutput::Failure("partial".to_string()),
                ToolCallOutcome::Aborted,
            ),
        ]
    );
}

#[test]
fn an_unknown_tool_fails_at_once() {
    let mut run = prompted();
    let mut tools = run.begin_tools(batch(vec![call("a", "missing", None)]));
    assert!(matches!(
        run.next_call(&mut tools, String::new(), at(1)),
        ToolAction::Recorded
    ));
    assert_eq!(
        results(&run),
        [(
            "a".to_string(),
            ToolOutput::Failure("No such tool: missing".to_string()),
            ToolCallOutcome::Auto
        )]
    );
}

/// The task that a sub-agent is sent for these arguments.
fn sent_task(arguments: Option<&str>) -> String {
    let mut run = prompted();
    let mut tools = run.begin_tools(batch(vec![call("a", "agent__scout", arguments)]));
    match run.next_call(&mut tools, "sent".to_string(), at(1)) {
        ToolAction::Send { envelope, .. } => match envelope.body {
            EnvelopeBody::ToolCall { task, .. } => task,
            _ => panic!("a call is sent as a call"),
        },
        _ => panic!("a sub-agent is sent its call"),
    }
}

#[test]
fn the_task_is_taken_out_of_the_arguments() {
    assert_eq!(sent_task(Some("{\"task\": \"look \\u0061round\"}")), "look around");
    assert_eq!(sent_task(Some("{\"task\": 3}")), "");
    assert_eq!(sent_task(Some("{\"other\": \"x\"}")), "");
    assert_eq!(sent_task(Some("[\"task\"]")), "");
    assert_eq!(sent_task(Some("task")), "");
    assert_eq!(sent_task(None), "");
}

#[test]
fn a_sub_agent_is_sent_its_call_and_owes_an_answer() {
    let mut run = prompted();
    let mut tools = run.begin_tools(batch(vec![call("a", "scout", Some("{\"task\":\"t\"}"))]));
    let ToolAction::Send { call: sent, envelope } =
        run.next_call(&mut tools, "sent".to_string(), at(1))
    else {
        panic!("a sub-agent is sent its call");
    };
    assert_eq!(envelope.id, "sent");
    assert_eq!(envelope.to.name, "scout");
    assert_eq!(envelope.to.thread_id.as_str(), scout_thread("a"));
    assert!(matches!(&envelope.body, EnvelopeBody::ToolCall { call_id, parent_message_id, turn_id, .. }
        if call_id == "a" && *parent_message_id == PARENT && *turn_id == TURN));
    run.on_sent(&mut tools, sent, "sent".to_string(), Ok(()), at(4));
    assert!(matches!(&run.events[0].event, AgentEvent::ToolCallStart(call) if call.id == "a"));
    assert_eq!(
        run.finish_tools(tools),
        LoopStep::Next(waiting(vec![PendingReply {
            call_id: "a".to_string(),
            call_envelope_id: "sent".to_string(),
            tool_name: "scout".to_string(),
            outcome: ToolCallOutcome::Auto,
            started_at: at(4),
        }]))
    );
}

#[test]
fn a_call_that_could_not_be_sent_fails() {
    let mut run = prompted();
    let mut tools = run.begin_tools(batch(vec![call("a", "scout", None)]));
    let ToolAction::Send { call: sent, .. } =
        run.next_call(&mut tools, "sent".to_string(), at(1))
    else {
        panic!("a sub-agent is sent its call");
    };
    run.on_sent(
        &mut tools,
        sent,
        "sent".to_string(),
        Err(SendCommandError::ThreadBusy),
        at(4),
    );
    assert_eq!(
        results(&run),
        [(
            "a".to_string(),
            ToolOutput::Failure(
                "Failed to dispatch to subagent 'scout': Subagent thread is busy; wait for its \
                 current call to finish"
                    .to_string()
            ),
            ToolCallOutcome::Auto
        )]
    );
    assert_eq!(run.finish_tools(tools), LoopStep::Next(ResumePoint::Generation));
}

#[test]
fn a_conversation_takes_one_call_per_batch() {
    let mut run = prompted();
    let calls = || {
        vec![
            call("a", "friend", None),
            call("b", "agent__friend", None),
            call("c", "scout", None),
            call("d", "scout", None),
        ]
    };
    assert_eq!(
        concurrent_stateful_subagents(&run.agent.subagents, &batch(calls()).tool_calls),
        ["friend"]
    );
    let mut tools = run.begin_tools(batch(calls()));
    assert!(matches!(
        run.next_call(&mut tools, String::new(), at(1)),
        ToolAction::Recorded
    ));
    assert!(matches!(
        run.next_call(&mut tools, String::new(), at(1)),
        ToolAction::Recorded
    ));
    let mut threads = vec![];
    for _ in 0..2 {
        match run.next_call(&mut tools, String::new(), at(1)) {
            ToolAction::Send { envelope, .. } => threads.push(envelope.to.thread_id.id),
            _ => panic!("one-off threads do not collide"),
        }
    }
    assert_ne!(threads[0], threads[1]);
    let texts: Vec<_> = results(&run).into_iter().map(|result| result.1).collect();
    assert_eq!(
        texts,
        [
            ToolOutput::Failure(
                "Concurrent invocation of sub-agent 'friend' is not allowed. Call it sequentially."
                    .to_string()
            ),
            ToolOutput::Failure(
                "Concurrent invocation of sub-agent 'agent__friend' is not allowed. Call it \
                 sequentially."
                    .to_string()
            ),
        ]
    );
}

#[test]
fn an_aborted_batch_names_everything_it_caught() {
    let mut run = prompted();
    let mut tools = run.begin_tools(batch(vec![
        call("b", "shell", None),
        call("a", "shell", None),
    ]));
    for _ in 0..2 {
        run.next_call(&mut tools, String::new(), at(1));
    }
    let LoopStep::Done(ResumePoint::Generation, end) =
        run.finish_aborted_tools(tools, vec!["z".to_string()])
    else {
        panic!("nothing is owed");
    };
    assert_eq!(
        end.event,
        Some(AgentEvent::Aborted(AbortedTarget::ToolCalls(vec![
            "z".to_string(),
            "a".to_string(),
            "b".to_string()
        ])))
    );
    assert_eq!(results(&run), [interrupted("a"), interrupted("b")]);
}

#[test]
fn an_aborted_batch_waits_for_its_sub_agents() {
    let mut run = prompted();
    let mut tools = run.begin_tools(batch(vec![call("a", "scout", None)]));
    let ToolAction::Send { call: sent, .. } =
        run.next_call(&mut tools, "sent".to_string(), at(1))
    else {
        panic!("a sub-agent is sent its call");
    };
    run.on_sent(&mut tools, sent, "sent".to_string(), Ok(()), at(5));
    assert!(matches!(
        run.finish_aborted_tools(tools, vec![]),
        LoopStep::Next(ResumePoint::ToolExecution(state)) if state.pending_replies.len() == 1
    ));
}

#[test]
fn an_aborted_batch_answers_the_caller_once() {
    let mut run = prompted();
    run.reply_target = Some(caller());
    let mut tools = run.begin_tools(batch(vec![call("a", "shell", None)]));
    run.next_call(&mut tools, String::new(), at(1));
    let LoopStep::Done(ResumePoint::Generation, end) = run.finish_aborted_tools(tools, vec![])
    else {
        panic!("nothing is owed");
    };
    assert!(end.reply.is_some());
    assert!(run.reply_target.is_none());

    let again = run.begin_tools(batch(vec![]));
    let LoopStep::Done(_, end) = run.finish_aborted_tools(again, vec![]) else {
        panic!("nothing is owed");
    };
    assert!(end.reply.is_none());
}

#[test]
fn a_turn_starts_with_its_envelope() {
    let mut run = run();
    let start = run.start_turn(&mut CallLedger::new(), None, Some(prompt("hello")));
    assert_eq!(
        start,
        TurnStart::Proceed {
            resume_point: ResumePoint::Generation,
            suspended_at: at(0),
            save_first: true,
        }
    );
    assert_eq!(run.turn, TurnId { value: 8 });

    let mut called = self::run();
    let start = called.start_turn(&mut CallLedger::new(), None, Some(tool_call("look")));
    assert!(matches!(start, TurnStart::Proceed { save_first: false, .. }));
}

#[test]
fn a_refused_envelope_winds_the_turn_up() {
    let mut run = prompted();
    let point = parked(vec![call("a", "shell", None)], vec![]);
    let stored = run.checkpoint(point, at(44), None, &TurnEnd::default());
    let start = run.start_turn(&mut CallLedger::new(), Some(stored), Some(tool_call("look")));
    let TurnStart::Stop { finish, deferred, awaiting, cancel } = start else {
        panic!("the call is held");
    };
    assert_eq!(deferred, Some(tool_call("look")));
    assert!(awaiting.is_none() && cancel.is_none());
    assert_eq!(finish.resume_point, ResumePoint::Generation);
    assert!(finish.announces_ending());
    assert_eq!(results(&run), [interrupted("a")]);
}

#[test]
fn an_envelope_held_for_replies_names_the_turn() {
    let mut run = prompted();
    let mut calls = CallLedger::new();
    calls.begin(&ThreadId::from(scout_thread("a")));
    let stored = run.checkpoint(waiting(vec![pending("a", "scout")]), at(0), None, &TurnEnd::default());
    let start = run.start_turn(&mut calls, Some(stored), Some(prompt("never mind")));
    let TurnStart::Stop { finish, deferred, awaiting, cancel } = start else {
        panic!("the prompt is held");
    };
    assert!(deferred.is_some());
    assert_eq!(awaiting, Some(TURN));
    assert_eq!(cancel, Some(TURN));
    assert!(finish.awaits_replies());
}

#[test]
fn an_exit_ends_the_run_where_it_stands() {
    let mut run = prompted();
    let point = ResumePoint::ToolExecution(batch(vec![call("a", "shell", None)]));
    let step = run.next_step(point.clone(), at(2), true, true, None);
    assert_eq!(
        step,
        TurnStep::Finish(TurnFinish {
            resume_point: point,
            suspended_at: at(2),
            owed: TurnEnd::default(),
            exit_acquired: true,
            suspended: false,
        })
    );
    assert!(results(&run).is_empty());
}

#[test]
fn a_step_follows_from_where_the_thread_is() {
    let mut run = prompted();
    assert_eq!(
        run.next_step(ResumePoint::Generation, at(2), false, false, None),
        TurnStep::Generate
    );
    let state = batch(vec![call("a", "shell", None)]);
    assert_eq!(
        run.next_step(ResumePoint::ToolExecution(state.clone()), at(2), false, false, None),
        TurnStep::Execute(state)
    );
    let task = TaskId { id: "task".to_string() };
    let TurnStep::Finish(finish) = run.next_step(
        parked(vec![call("a", "shell", None)], vec![]),
        at(2),
        false,
        false,
        Some(task.clone()),
    ) else {
        panic!("the thread parks");
    };
    assert!(finish.suspended && !finish.announces_ending());
    assert!(matches!(&finish.owed.event, Some(AgentEvent::Suspended(approval))
        if approval.thread_id == "root" && approval.agent_name == "coda"
            && approval.parent_message_id == PARENT && approval.calls.len() == 1
            && approval.suspended_at == at(2) && approval.task_id == Some(task)));
}

#[test]
fn a_stopped_turn_winds_up_at_the_next_step() {
    let mut run = prompted();
    let TurnStep::Finish(finish) = run.next_step(
        ResumePoint::ToolExecution(batch(vec![call("a", "shell", None)])),
        at(2),
        false,
        true,
        None,
    ) else {
        panic!("the turn is over");
    };
    assert!(finish.announces_ending());
    assert_eq!(results(&run), [interrupted("a")]);
}

#[test]
fn nothing_is_announced_before_it_is_stored() {
    let mut run = prompted();
    run.reply_target = Some(caller());
    let WindUp::Ended(end) = run.wind_up(ResumePoint::Generation) else {
        panic!("nothing is owed");
    };
    let mut failed = prompted();
    let (persisted, reply) = failed.settle_write(Err("disk".to_string()), end.clone());
    assert!(!persisted && reply.is_none());
    assert_eq!(failed.events.len(), 1);
    assert_eq!(
        failed.events[0].event,
        AgentEvent::PersistFailed("disk".to_string())
    );
    let mut stored = prompted();
    let (persisted, reply) = stored.settle_write(Ok(()), end);
    assert!(persisted && reply.is_some());
    assert_eq!(
        stored.events[0].event,
        AgentEvent::Aborted(AbortedTarget::Generation)
    );
}

#[test]
fn a_run_that_stops_at_its_start_holds_or_is_idle() {
    let run = prompted();
    let finish = TurnFinish {
        resume_point: waiting(vec![pending("a", "scout")]),
        suspended_at: at(0),
        owed: TurnEnd::default(),
        exit_acquired: false,
        suspended: false,
    };
    assert_eq!(
        run.stop_outcome(&finish, Some(prompt("hi")), Some(TURN), true, true),
        (
            TurnOutcome::Deferred {
                envelope: prompt("hi"),
                awaiting: Some(TURN),
            },
            None
        )
    );
    assert_eq!(
        run.stop_outcome(&finish, None, None, true, true),
        (TurnOutcome::Completed, None)
    );
}

#[test]
fn an_outcome_says_what_the_thread_waits_for() {
    let run = prompted();
    let finish = |resume_point, suspended, exit_acquired, event| TurnFinish {
        resume_point,
        suspended_at: at(0),
        owed: TurnEnd { event, reply: None },
        exit_acquired,
        suspended,
    };
    let ended = || Some(AgentEvent::Aborted(AbortedTarget::Generation));
    let over = finish(ResumePoint::Generation, false, false, ended());
    assert_eq!(
        run.turn_outcome(&over, TURN, true, true),
        (TurnOutcome::Completed, Some(TURN))
    );
    assert_eq!(
        run.turn_outcome(&over, TURN, true, false),
        (TurnOutcome::Completed, None)
    );
    assert_eq!(
        run.turn_outcome(&over, TURN, false, true),
        (TurnOutcome::Completed, None)
    );
    let suspended = finish(ResumePoint::Generation, true, false, ended());
    assert_eq!(
        run.turn_outcome(&suspended, TURN, true, true),
        (TurnOutcome::Suspended, None)
    );
    assert_eq!(
        run.turn_outcome(&suspended, TURN, false, true),
        (TurnOutcome::Completed, None)
    );
    let owed = finish(waiting(vec![pending("a", "scout")]), false, false, None);
    assert_eq!(
        run.turn_outcome(&owed, TURN, true, true),
        (TurnOutcome::AwaitingReplies(TURN), None)
    );
    let exiting = finish(ResumePoint::Generation, false, true, None);
    assert_eq!(
        run.turn_outcome(&exiting, TURN, true, true),
        (TurnOutcome::ExitAcquired, None)
    );
}

#[test]
fn a_suspension_counts_from_the_answer_that_asked() {
    let point = parked(vec![call("a", "shell", None)], vec![]);
    assert_eq!(
        after_generation(LoopStep::Next(point.clone()), at(1), at(9)),
        TurnProgress::Continue {
            resume_point: point,
            suspended_at: at(9),
        }
    );
    assert_eq!(
        after_generation(LoopStep::Next(ResumePoint::Generation), at(1), at(9)),
        TurnProgress::Continue {
            resume_point: ResumePoint::Generation,
            suspended_at: at(1),
        }
    );
}

#[test]
fn a_batch_that_is_owed_answers_ends_the_run() {
    let point = waiting(vec![pending("a", "scout")]);
    assert!(matches!(
        after_tools(LoopStep::Next(point), at(1)),
        TurnProgress::Finish(finish) if finish.awaits_replies() && finish.owed == TurnEnd::default()
    ));
    assert!(matches!(
        after_tools(LoopStep::Next(ResumePoint::Generation), at(1)),
        TurnProgress::Continue { resume_point: ResumePoint::Generation, .. }
    ));
}

#[test]
fn a_thread_that_cannot_be_read_says_so() {
    let mut run = prompted();
    let closed = run.load_failed("gone", true);
    assert_eq!(closed, Some(TURN));
    assert_eq!(run.events.len(), 1);
    assert_eq!(
        run.events[0].event,
        AgentEvent::PersistFailed("failed to load checkpoint: gone".to_string())
    );
    assert_eq!(prompted().load_failed("gone", false), None);
}

#[test]
fn the_root_thread_bears_the_sessions_name() {
    assert!(is_root_thread("root", &ThreadId::from("root".to_string())));
    assert!(!is_root_thread("root", &ThreadId::from("child".to_string())));
}

#[test]
fn a_result_keeps_its_record() {
    let message = ToolMessage::new(
        "a".to_string(),
        "shell".to_string(),
        ToolOutput::Success("ok".to_string()),
        ToolCallOutcome::Approved,
        Some(at(3)),
    );
    assert_eq!(message.id, "a");
    assert_eq!(message.name, "shell");
    assert_eq!(message.started_at, Some(at(3)));
}

#[test]
fn a_thread_keeps_the_tool_call_protocol_through_a_turn() {
    let mut run = prompted();
    let mut calls = CallLedger::new();
    let valid = |run: &AgentLoop| validate_model_view(&run.agent.history());
    let missing = |ids: &[&str]| {
        Err(InvalidHistory::IncompleteToolBatch {
            assistant_message_id: PARENT,
            missing_call_ids: ids.iter().map(|id| id.to_string()).collect(),
        })
    };
    assert_eq!(valid(&run), Ok(()));
    let asked = vec![
        call("a", "shell", None),
        call("b", "missing", None),
        call("c", "scout", None),
        call("d", "shell", None),
    ];
    let LoopStep::Next(ResumePoint::ToolExecution(state)) = run.handle_generation(
        &progress(),
        GenerationOutcome::Completed(answer("", asked)),
        at(30),
        &ToolApprovalMode::Auto,
    ) else {
        panic!("the calls run");
    };
    assert_eq!(valid(&run), missing(&["a", "b", "c", "d"]));
    let mut tools = run.begin_tools(state);
    let mut started = vec![];
    loop {
        match run.next_call(&mut tools, "sent".to_string(), at(31)) {
            ToolAction::Execute { call } => started.push(call),
            ToolAction::Send { call, .. } => {
                run.on_sent(&mut tools, call, "sent".to_string(), Ok(()), at(31))
            }
            ToolAction::Recorded => assert_eq!(valid(&run), missing(&["a", "c", "d"])),
            ToolAction::Started => break,
        }
    }
    let first = started.remove(0);
    run.settle_local_tool(
        &mut tools,
        first,
        at(31),
        ToolSettlement::Completed("ok".to_string()),
    );
    assert_eq!(valid(&run), missing(&["c", "d"]));
    let LoopStep::Next(point) = run.finish_aborted_tools(tools, vec![]) else {
        panic!("a sub-agent owes an answer");
    };
    assert_eq!(valid(&run), missing(&["c"]));
    let answer = Envelope {
        reply_to: Some("sent".to_string()),
        ..reply("scout-thread", "c", "seen", true)
    };
    let outcome = run.handle_envelope(&mut calls, point, answer);
    assert_eq!(outcome, EnvelopeOutcome::Next(ResumePoint::Generation));
    assert_eq!(valid(&run), Ok(()));
}
