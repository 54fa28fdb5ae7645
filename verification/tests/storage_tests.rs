use coda_agent::agent::{
    Envelope, EnvelopeBody, HistoryEntry, Receiver, ResumeDecision, Sender, ThreadId,
};
use coda_agent::execution::{
    abort_checkpoint, fence_snapshot, remove_scope_messages, CompletionTarget, ExecutionIdentity,
    ProcessGroupId, ScopeAbort, StoredExecution,
};
use coda_agent::ids::{MessageId, Timestamp, TurnId};
use coda_agent::llm::{
    AssistantMessage, Message, ToolCall, ToolCallOutcome, ToolMessage, ToolOutput, UserMessage,
};
use coda_agent::message_view::validate_model_view;
use coda_agent::persist::{StoredCheckpoint, StoredResumePoint, StoredRuntimeSnapshot};
use coda_agent::runtime::{MemoryStorage, SessionStorage};
use coda_agent::string_map::StringMap;
use coda_agent::task::{ScopeMember, TaskId};

fn task(id: &str) -> TaskId {
    TaskId { id: id.to_string() }
}

fn member(thread: &str, invocation: &str) -> ScopeMember {
    ScopeMember {
        thread_id: thread.to_string(),
        invocation_id: invocation.to_string(),
    }
}

fn checkpoint(thread: &str, parent: Option<&str>) -> StoredCheckpoint {
    StoredCheckpoint {
        thread_id: thread.to_string(),
        agent_name: "coda".to_string(),
        parent_thread_id: parent.map(str::to_string),
        derivation_key: parent.map(|_| "key".to_string()),
        reply_target: None,
        messages: vec![],
        state: vec![],
        resume_point: StoredResumePoint::Generation,
        suspended_at: Timestamp::default(),
        active_execution: None,
    }
}

fn in_background(thread: &str, parent: Option<&str>, task_id: &str, invocation: &str) -> StoredCheckpoint {
    StoredCheckpoint {
        active_execution: Some(StoredExecution {
            invocation_id: invocation.to_string(),
            scope: ProcessGroupId::Background {
                task_id: task(task_id),
            },
            completion: CompletionTarget::BackgroundTask(task(task_id)),
            agent_path: vec!["coda".to_string()],
        }),
        ..checkpoint(thread, parent)
    }
}

fn awaiting_approval(thread: &str, parent: Option<&str>, calls: Vec<ToolCall>) -> StoredCheckpoint {
    StoredCheckpoint {
        resume_point: StoredResumePoint::PendingApproval {
            parent_message_id: MessageId { value: 1 },
            pending_approval_calls: calls,
            pending_calls: vec![],
        },
        ..checkpoint(thread, parent)
    }
}

fn call(id: &str) -> ToolCall {
    ToolCall {
        id: id.to_string(),
        name: "shell".to_string(),
        arguments: None,
    }
}

fn asking(calls: &[&str]) -> Message {
    Message::Assistant(AssistantMessage {
        message_id: MessageId::new(),
        content: String::new(),
        tool_calls: calls.iter().map(|id| call(id)).collect(),
        usage: None,
        reasoning_content: None,
        reasoning_continuation: None,
        reasoning_ended_at: None,
        aborted: false,
        started_at: Timestamp::default(),
        ended_at: Timestamp::default(),
    })
}

fn result(id: &str) -> Message {
    Message::Tool(ToolMessage::new(
        id.to_string(),
        "shell".to_string(),
        ToolOutput::Success("done".to_string()),
        ToolCallOutcome::Auto,
        None,
    ))
}

fn reply(id: &str, thread: &str, reply_to: &str) -> Envelope {
    Envelope {
        id: id.to_string(),
        from: Sender::Agent {
            name: "worker".to_string(),
            thread_id: ThreadId::from("worker-thread".to_string()),
        },
        to: Receiver {
            name: "coda".to_string(),
            thread_id: ThreadId::from(thread.to_string()),
        },
        reply_to: Some(reply_to.to_string()),
        body: EnvelopeBody::Reply {
            call_id: "call".to_string(),
            output: ToolOutput::Success("done".to_string()),
            aborted: false,
        },
    }
}

fn resume(id: &str, thread: &str) -> Envelope {
    Envelope {
        id: id.to_string(),
        from: Sender::User,
        to: Receiver {
            name: "coda".to_string(),
            thread_id: ThreadId::from(thread.to_string()),
        },
        reply_to: None,
        body: EnvelopeBody::Resume(ResumeDecision {
            parent_message_id: MessageId { value: 1 },
            resolutions: vec![],
        }),
    }
}

fn snapshot(threads: &[(&str, &str)], envelopes: Vec<(&str, Vec<Envelope>)>) -> StoredRuntimeSnapshot {
    let mut active_threads = StringMap::new();
    for (thread, name) in threads {
        active_threads.insert(thread.to_string(), name.to_string());
    }
    let mut drained_envelopes = StringMap::new();
    for (thread, list) in envelopes {
        drained_envelopes.insert(thread.to_string(), list);
    }
    StoredRuntimeSnapshot {
        drained_envelopes,
        agent_drained_envelopes: StringMap::new(),
        active_threads,
    }
}

fn ids(envelopes: Option<&Vec<Envelope>>) -> Vec<String> {
    envelopes
        .map(|list| list.iter().map(|envelope| envelope.id.clone()).collect())
        .unwrap_or_default()
}

fn threads(checkpoints: &[StoredCheckpoint]) -> Vec<&str> {
    checkpoints
        .iter()
        .map(|checkpoint| checkpoint.thread_id.as_str())
        .collect()
}

#[test]
fn what_was_saved_is_loaded() {
    let mut storage = MemoryStorage::default();
    assert!(storage.load_checkpoint("root").unwrap().is_none());
    storage
        .save_checkpoint("root".to_string(), checkpoint("root", None))
        .unwrap();
    assert_eq!(storage.load_checkpoint("root").unwrap().unwrap().agent_name, "coda");
    assert!(storage.load_session_snapshot("root").unwrap().is_none());
    storage
        .save_session_snapshot(
            "root".to_string(),
            snapshot(&[("root", "coda")], vec![]),
        )
        .unwrap();
    let loaded = storage.load_session_snapshot("root").unwrap().unwrap();
    assert_eq!(loaded.active_threads.keys(), vec!["root".to_string()]);
}

#[test]
fn all_checkpoints_come_in_the_order_of_their_threads() {
    let mut storage = MemoryStorage::default();
    for thread in ["b", "c", "a"] {
        storage
            .save_checkpoint(thread.to_string(), checkpoint(thread, None))
            .unwrap();
    }
    assert_eq!(threads(&storage.all_checkpoints()), ["a", "b", "c"]);
}

#[test]
fn a_session_is_the_tree_below_its_root() {
    let mut storage = MemoryStorage::default();
    for stored in [
        awaiting_approval("root", None, vec![call("one")]),
        awaiting_approval("child", Some("root"), vec![call("two")]),
        awaiting_approval("grandchild", Some("child"), vec![call("three")]),
        awaiting_approval("idle", Some("root"), vec![]),
        awaiting_approval("stranger", Some("elsewhere"), vec![call("four")]),
        checkpoint("quiet", Some("root")),
    ] {
        storage.save_checkpoint(stored.thread_id.clone(), stored).unwrap();
    }
    let waiting = storage.load_pending_approval_checkpoints("root").unwrap();
    assert_eq!(threads(&waiting), ["child", "grandchild", "root"]);
}

#[test]
fn a_tree_that_goes_round_in_circles_belongs_to_nobody() {
    let mut storage = MemoryStorage::default();
    for stored in [
        awaiting_approval("a", Some("b"), vec![call("one")]),
        awaiting_approval("b", Some("a"), vec![call("two")]),
    ] {
        storage.save_checkpoint(stored.thread_id.clone(), stored).unwrap();
    }
    assert!(storage.load_pending_approval_checkpoints("root").unwrap().is_empty());
    assert_eq!(
        threads(&storage.load_pending_approval_checkpoints("a").unwrap()),
        ["a", "b"]
    );
}

#[test]
fn background_checkpoints_are_those_that_work_on_a_task() {
    let mut storage = MemoryStorage::default();
    for stored in [
        in_background("child", Some("root"), "task", "call"),
        checkpoint("root", None),
        in_background("stranger", None, "task", "call"),
    ] {
        storage.save_checkpoint(stored.thread_id.clone(), stored).unwrap();
    }
    assert_eq!(
        threads(&storage.load_background_checkpoints("root").unwrap()),
        ["child"]
    );
}

#[test]
fn a_notice_is_admitted_once() {
    let mut storage = MemoryStorage::default();
    assert_eq!(storage.has_notice_receipt(&task("one")), Ok(false));
    storage.admit_task_notice(task("one"), checkpoint("root", None)).unwrap();
    assert_eq!(storage.has_notice_receipt(&task("one")), Ok(true));
    let later = StoredCheckpoint {
        agent_name: "other".to_string(),
        ..checkpoint("root", None)
    };
    storage.admit_task_notice(task("one"), later).unwrap();
    assert_eq!(storage.load_checkpoint("root").unwrap().unwrap().agent_name, "coda");
}

#[test]
fn an_abort_closes_the_scope_off_and_shuts_late_writes_out() {
    let mut storage = MemoryStorage::default();
    let turn = TurnId { value: 9 };
    let mut busy = in_background("child", Some("root"), "task", "invocation");
    busy.messages = vec![
        HistoryEntry::new(
            turn,
            Message::User(UserMessage::text(MessageId::new(), "work".to_string())),
        ),
        HistoryEntry::new(turn, asking(&["one", "two"])),
        HistoryEntry::new(turn, result("one")),
    ];
    storage.save_checkpoint("child".to_string(), busy).unwrap();
    storage
        .save_checkpoint("other".to_string(), in_background("other", Some("root"), "another", "o"))
        .unwrap();
    storage
        .save_session_snapshot(
            "root".to_string(),
            snapshot(
                &[("child", "worker"), ("other", "worker")],
                vec![("child", vec![reply("r", "child", "invocation"), reply("s", "child", "x")])],
            ),
        )
        .unwrap();
    let receipt = storage
        .abort_scope(ScopeAbort {
            task_id: task("task"),
            members: vec![member("child", "invocation"), member("other", "unrelated")],
            reason: "stopped".to_string(),
        })
        .unwrap();
    assert_eq!(receipt.task_id, task("task"));

    let closed = storage.load_checkpoint("child").unwrap().unwrap();
    assert!(closed.active_execution.is_none());
    assert_eq!(closed.messages.len(), 4);
    assert!(validate_model_view(&closed.messages[..3]).is_err());
    assert_eq!(validate_model_view(&closed.messages), Ok(()));
    let last = &closed.messages[3];
    assert_eq!(last.turn_id, turn);
    assert!(matches!(&last.message, Message::Tool(tool)
        if tool.id == "two"
            && tool.output == ToolOutput::Failure("stopped".to_string())
            && tool.outcome == ToolCallOutcome::Aborted));
    // The other thread works on another task, so it is left alone.
    assert!(storage.load_checkpoint("other").unwrap().unwrap().active_execution.is_some());

    let left = storage.load_session_snapshot("root").unwrap().unwrap();
    assert!(left.active_threads.keys().is_empty());
    assert_eq!(ids(left.drained_envelopes.get("child")), ["s"]);

    let late = storage.save_execution_checkpoint(
        ExecutionIdentity {
            thread_id: "child".to_string(),
            invocation_id: "invocation".to_string(),
        },
        checkpoint("child", Some("root")),
    );
    assert_eq!(late, Err("execution was aborted".to_string()));
    storage
        .save_execution_checkpoint(
            ExecutionIdentity {
                thread_id: "child".to_string(),
                invocation_id: "later".to_string(),
            },
            in_background("child", Some("root"), "task", "later"),
        )
        .unwrap();
    // A later invocation on the same thread is not swept away by what was aborted before.
    storage
        .save_session_snapshot("root".to_string(), snapshot(&[("child", "worker")], vec![]))
        .unwrap();
    let kept = storage.load_session_snapshot("root").unwrap().unwrap();
    assert_eq!(kept.active_threads.keys(), vec!["child".to_string()]);
}

#[test]
fn aborting_a_scope_again_changes_nothing() {
    let mut storage = MemoryStorage::default();
    let mut busy = in_background("child", Some("root"), "task", "invocation");
    busy.messages = vec![HistoryEntry::new(TurnId { value: 1 }, asking(&["one"]))];
    storage.save_checkpoint("child".to_string(), busy).unwrap();
    let abort = ScopeAbort {
        task_id: task("task"),
        members: vec![member("child", "invocation")],
        reason: "stopped".to_string(),
    };
    storage.abort_scope(abort.clone()).unwrap();
    let once = storage.load_checkpoint("child").unwrap().unwrap();
    storage.abort_scope(abort).unwrap();
    let twice = storage.load_checkpoint("child").unwrap().unwrap();
    assert_eq!(once.messages.len(), 2);
    assert_eq!(
        once.messages[1].message.message_id(),
        twice.messages[1].message.message_id()
    );
    assert_eq!(twice.messages.len(), 2);
}

#[test]
fn closing_a_checkpoint_off_answers_each_open_call_once() {
    let turn = TurnId { value: 3 };
    let mut stored = in_background("child", None, "task", "invocation");
    stored.resume_point = StoredResumePoint::PendingApproval {
        parent_message_id: MessageId { value: 1 },
        pending_approval_calls: vec![call("b")],
        pending_calls: vec![],
    };
    stored.messages = vec![
        HistoryEntry::new(turn, asking(&["a", "a", "b"])),
        HistoryEntry::new(turn, result("a")),
    ];
    abort_checkpoint(&mut stored, "gone");
    let answered: Vec<_> = stored.messages[2..]
        .iter()
        .map(|entry| match &entry.message {
            Message::Tool(tool) => tool.id.clone(),
            _ => panic!("only results are added"),
        })
        .collect();
    assert_eq!(answered, ["a", "b"]);
    assert!(matches!(stored.resume_point, StoredResumePoint::Generation));
    assert!(stored.active_execution.is_none());
    let before = stored.messages.len();
    abort_checkpoint(&mut stored, "again");
    assert_eq!(stored.messages.len(), before);
}

#[test]
fn a_fence_goes_by_the_active_invocation() {
    let aborted = vec![member("thread", "old")];
    let mut active = StringMap::new();
    active.insert("thread".to_string(), "new".to_string());
    let build = || {
        snapshot(
            &[("thread", "coda"), ("free", "coda")],
            vec![(
                "thread",
                vec![
                    resume("decision", "thread"),
                    reply("answer", "thread", "old"),
                    reply("other", "thread", "new"),
                    resume("old", "free"),
                ],
            )],
        )
    };
    let mut later = build();
    fence_snapshot(&mut later, &aborted, &active);
    assert_eq!(later.active_threads.keys(), vec!["free".to_string(), "thread".to_string()]);
    assert_eq!(ids(later.drained_envelopes.get("thread")), ["decision", "other"]);

    let mut fenced = build();
    remove_scope_messages(&mut fenced, &aborted);
    assert_eq!(fenced.active_threads.keys(), vec!["free".to_string()]);
    assert_eq!(ids(fenced.drained_envelopes.get("thread")), ["other"]);
}

/// A storage that keeps nothing about background work.
#[derive(Default)]
struct Plain {
    saved: Vec<String>,
}

impl SessionStorage for Plain {
    fn save_checkpoint(&mut self, thread_id: String, _checkpoint: StoredCheckpoint) -> Result<(), String> {
        self.saved.push(thread_id);
        Ok(())
    }

    fn load_checkpoint(&self, _thread_id: &str) -> Result<Option<StoredCheckpoint>, String> {
        Ok(None)
    }

    fn load_pending_approval_checkpoints(&self, _session_id: &str) -> Result<Vec<StoredCheckpoint>, String> {
        Ok(vec![])
    }

    fn save_session_snapshot(
        &mut self,
        _session_id: String,
        _snapshot: StoredRuntimeSnapshot,
    ) -> Result<(), String> {
        Ok(())
    }

    fn load_session_snapshot(&self, _session_id: &str) -> Result<Option<StoredRuntimeSnapshot>, String> {
        Ok(None)
    }
}

#[test]
fn a_plain_storage_refuses_background_work_and_saves_by_thread() {
    let mut storage = Plain::default();
    assert_eq!(storage.has_notice_receipt(&task("one")), Ok(false));
    assert_eq!(
        storage.admit_task_notice(task("one"), checkpoint("root", None)),
        Err("storage does not support durable notices".to_string())
    );
    assert!(storage.load_background_checkpoints("root").unwrap().is_empty());
    assert_eq!(
        storage
            .abort_scope(ScopeAbort {
                task_id: task("one"),
                members: vec![],
                reason: String::new(),
            })
            .unwrap_err(),
        "storage does not support scope cleanup"
    );
    storage
        .save_execution_checkpoint(
            ExecutionIdentity {
                thread_id: "named".to_string(),
                invocation_id: "i".to_string(),
            },
            checkpoint("stored", None),
        )
        .unwrap();
    assert_eq!(storage.saved, ["stored"]);
}

#[test]
fn an_execution_knows_its_caller_and_its_task() {
    let stored = in_background("child", None, "task", "invocation");
    let execution = stored.active_execution.unwrap();
    assert_eq!(execution.background_task(), Some(&task("task")));
    assert!(execution.reply_target().is_none());
}
