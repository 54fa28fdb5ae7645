use coda_agent::agent::{HistoryEntry, StateValue, ThreadStateMap, Tools};
use coda_agent::ids::{MessageId, Timestamp, TurnId};
use coda_agent::llm::{
    AssistantMessage, CompletionUsage, Message, RequestMessage, TaskNoticeMessage, ToolCall,
    ToolCallOutcome, ToolMessage, ToolOutput, UserMessage,
};
use coda_agent::message_view::InvalidHistory;
use coda_agent::process::ProcessMemory;
use coda_agent::prompt::PromptStore;
use coda_agent::string_map::StringMap;
use coda_agent::subagents::SubAgents;
use coda_agent::{Capabilities, Process, ProcessId, Program, SubAgentMode, SystemPrompt};
use serde_json::Value;
use std::sync::Arc;

fn state(kind: &str, value: &str) -> ThreadStateMap {
    let mut state = StringMap::new();
    state.insert(
        kind.to_string(),
        StateValue {
            json: Value::from(value),
        },
    );
    state
}

fn value<'a>(state: &'a ThreadStateMap, kind: &str) -> Option<&'a Value> {
    state.get(kind).map(|value| &value.json)
}

/// A tool result carrying one recorded value.
fn recorded(turn: TurnId, kind: &str, value: &str) -> HistoryEntry {
    HistoryEntry {
        state: state(kind, value),
        ..HistoryEntry::new(turn, tool_message())
    }
}

fn tool_message() -> Message {
    Message::Tool(ToolMessage::new(
        "call".to_string(),
        "a_tool".to_string(),
        ToolOutput::Success("done".to_string()),
        ToolCallOutcome::Auto,
        None,
    ))
}

#[test]
fn a_restored_thread_reduces_its_snapshot_from_the_messages_it_was_handed() {
    let turn = TurnId::from(MessageId::new());
    let mut memory = ProcessMemory::default();
    memory.restore(vec![
        recorded(turn, "plan", "first"),
        recorded(turn, "plan", "second"),
        recorded(turn, "notes", "kept"),
    ]);
    assert_eq!(value(&memory.snapshot(), "plan"), Some(&Value::from("second")));
    assert_eq!(value(&memory.snapshot(), "notes"), Some(&Value::from("kept")));
}

/// Restoring empty history also clears any previously derived state.
#[test]
fn restoring_another_thread_leaves_none_of_the_last_ones_state() {
    let turn = TurnId::from(MessageId::new());
    let mut memory = ProcessMemory::default();
    memory.restore(vec![recorded(turn, "plan", "first")]);
    memory.restore(vec![]);
    assert!(memory.snapshot().is_empty());
}

#[test]
fn a_recorded_write_lands_on_the_message_and_in_the_snapshot() {
    let turn = TurnId::from(MessageId::new());
    let mut memory = ProcessMemory::default();
    memory.enter(turn);
    memory.record(tool_message(), state("plan", "now"));
    let history = memory.history();
    let entry = history.last().expect("the message was appended");
    assert_eq!(value(&entry.state, "plan"), Some(&Value::from("now")));
    assert_eq!(entry.turn_id, turn);
    assert_eq!(value(&memory.snapshot(), "plan"), Some(&Value::from("now")));
}

fn process(store: &mut PromptStore) -> Process {
    let program = Program {
        capabilities: Capabilities::all(),
        name: "coda".to_string(),
        mode: SubAgentMode::Stateful,
        system_prompt: SystemPrompt::from_text(store, "be brief".to_string()),
        tools: Tools {
            definitions: vec![],
        },
        subagents: SubAgents { tools: vec![] },
    };
    Process::new(ProcessId::from("root".to_string()), Arc::new(program))
}

fn user(text: &str) -> Message {
    Message::User(UserMessage::text(MessageId::new(), text.to_string()))
}

fn answer(calls: &[&str], prompt_tokens: Option<u32>) -> Message {
    Message::Assistant(AssistantMessage {
        message_id: MessageId::new(),
        content: "answer".to_string(),
        tool_calls: calls
            .iter()
            .map(|id| ToolCall {
                id: id.to_string(),
                name: "a_tool".to_string(),
                arguments: None,
            })
            .collect(),
        usage: prompt_tokens.map(|prompt_tokens| CompletionUsage {
            prompt_tokens,
            completion_tokens: 1,
            total_tokens: prompt_tokens + 1,
        }),
        reasoning_content: None,
        reasoning_continuation: None,
        reasoning_ended_at: None,
        aborted: false,
        started_at: Timestamp::default(),
        ended_at: Timestamp::default(),
    })
}

#[test]
fn messages_belong_to_the_turn_that_was_opened_last() {
    let mut store = PromptStore::new();
    let mut process = process(&mut store);
    assert_eq!(process.name(), "coda");
    assert_eq!(process.current_turn(), None);
    let first = TurnId::from(MessageId::new());
    let second = TurnId::from(MessageId::new());
    process.add_opening_message(first, user("one"));
    process.add_message(answer(&[], Some(10)));
    process.add_opening_message(second, user("two"));
    process.add_messages(vec![answer(&[], None), answer(&[], Some(30))]);
    let turns: Vec<_> = process.history().iter().map(|entry| entry.turn_id).collect();
    assert_eq!(turns, vec![first, first, second, second, second]);
    assert_eq!(process.current_turn(), Some(second));
    assert_eq!(process.last_usage().unwrap().prompt_tokens, 30);
}

#[test]
fn a_message_without_a_turn_opens_a_fresh_one() {
    let mut store = PromptStore::new();
    let mut process = process(&mut store);
    process.add_message(answer(&[], None));
    let turn = process.current_turn().expect("a turn was opened");
    assert_eq!(process.history()[0].turn_id, turn);
}

#[test]
fn a_notice_that_is_already_stored_is_not_written_again() {
    let mut store = PromptStore::new();
    let mut process = process(&mut store);
    let notice = || {
        Message::TaskNotice(TaskNoticeMessage {
            message_id: MessageId { value: 7 },
            content: "finished".to_string(),
        })
    };
    let first = TurnId::from(MessageId::new());
    let second = TurnId::from(MessageId::new());
    process.add_opening_message(first, notice());
    process.add_opening_message(second, notice());
    assert_eq!(process.history().len(), 1);
    assert_eq!(process.current_turn(), Some(second));
}

#[test]
fn restoring_a_history_restores_its_turn_and_state() {
    let mut store = PromptStore::new();
    let mut process = process(&mut store);
    let turn = TurnId::from(MessageId::new());
    process.add_opening_message(TurnId::from(MessageId::new()), user("old"));
    process.restore_history(vec![
        HistoryEntry::new(turn, user("stored")),
        recorded(turn, "plan", "stored"),
    ]);
    assert_eq!(process.current_turn(), Some(turn));
    assert_eq!(value(&process.state_snapshot(), "plan"), Some(&Value::from("stored")));
    process.restore_history(vec![]);
    assert_eq!(process.current_turn(), None);
    assert!(process.state_snapshot().is_empty());
}

#[test]
fn a_kind_written_twice_keeps_its_last_value() {
    let mut store = PromptStore::new();
    let mut process = process(&mut store);
    process.add_message_with_state(
        tool_message(),
        vec![
            ("plan".to_string(), StateValue { json: Value::from(1) }),
            ("plan".to_string(), StateValue { json: Value::from(2) }),
            ("notes".to_string(), StateValue { json: Value::from(3) }),
        ],
    );
    assert_eq!(value(&process.state_snapshot(), "plan"), Some(&Value::from(2)));
    process.add_message_with_state(
        tool_message(),
        vec![("plan".to_string(), StateValue { json: Value::from(4) })],
    );
    assert_eq!(value(&process.state_snapshot(), "plan"), Some(&Value::from(4)));
    assert_eq!(value(&process.state_snapshot(), "notes"), Some(&Value::from(3)));
}

#[test]
fn a_request_is_the_prompt_and_the_visible_history() {
    let mut store = PromptStore::new();
    let mut process = process(&mut store);
    process.add_opening_message(TurnId::from(MessageId::new()), user("hello"));
    let messages = process.messages(&store).expect("the history is valid");
    assert_eq!(messages.len(), 2);
    assert!(matches!(&messages[0], RequestMessage::System(system) if system.text == "be brief"));
    assert!(matches!(&messages[1], RequestMessage::User(user) if user.first_text() == Some("hello")));
}

#[test]
fn a_history_with_unanswered_calls_makes_no_request() {
    let mut store = PromptStore::new();
    let mut process = process(&mut store);
    process.add_opening_message(TurnId::from(MessageId::new()), user("hello"));
    process.add_message(answer(&["call", "other"], None));
    process.add_message(tool_message());
    assert!(matches!(
        process.messages(&store),
        Err(InvalidHistory::IncompleteToolBatch { missing_call_ids, .. })
            if missing_call_ids == vec!["other".to_string()]
    ));
}
