use coda_agent::agent::{
    find_latest_usage, Agent, AgentState, Envelope, EnvelopeBody, HistoryEntry, PendingReply,
    PendingToolCall, Receiver, ResumePoint, Sender, StateValue, ThreadId, ToolExecutionState, Tools,
};
use coda_agent::config::{ApprovalPolicy, ModelProfile, RunConfig, ToolApprovalMode};
use coda_agent::ids::{MessageId, Timestamp, TurnId};
use coda_agent::llm::{
    AssistantMessage, CompletionUsage, ContentPart, Message, RequestMessage, ToolCall,
    ToolCallOutcome, ToolMessage, ToolOutput, UserMessage,
};
use coda_agent::persist::{
    AgentRuntimeSnapshot, StateEntry, StoredResumePoint, StoredRuntimeSnapshot,
};
use coda_agent::prompt::{PromptStore, SystemPrompt};
use coda_agent::string_map::StringMap;
use coda_agent::subagents::{SubAgentMode, SubAgentTool, SubAgents, SUBAGENT_TOOL_PREFIX};
use serde_json::Value;
use std::sync::Arc;

const TURN: TurnId = TurnId { value: 7 };

fn new_agent(store: &mut PromptStore) -> Agent {
    Agent {
        name: "coda".to_string(),
        mode: SubAgentMode::Stateless,
        system_prompt: SystemPrompt::from_text(store, "be brief".to_string()),
        state: AgentState::new(),
        tools: Tools {
            definitions: vec![],
        },
        subagents: SubAgents::default(),
    }
}

fn agent() -> Agent {
    new_agent(&mut PromptStore::new())
}

fn user(id: u128, text: &str) -> UserMessage {
    UserMessage::text(MessageId { value: id }, text.to_string())
}

fn tool(id: u128) -> Message {
    Message::Tool(ToolMessage {
        message_id: MessageId { value: id },
        ..ToolMessage::new(
            "call".to_string(),
            "shell".to_string(),
            ToolOutput::Success("ok".to_string()),
            ToolCallOutcome::Auto,
            None,
        )
    })
}

fn answer(id: u128, usage: Option<CompletionUsage>) -> Message {
    Message::Assistant(AssistantMessage {
        message_id: MessageId { value: id },
        content: "done".to_string(),
        tool_calls: vec![],
        usage,
        reasoning_content: None,
        reasoning_continuation: None,
        reasoning_ended_at: None,
        aborted: false,
        started_at: Timestamp::default(),
        ended_at: Timestamp::default(),
    })
}

fn state(text: &str) -> StateValue {
    StateValue {
        json: Value::String(text.to_string()),
    }
}

fn call(id: &str) -> ToolCall {
    ToolCall {
        id: id.to_string(),
        name: "shell".to_string(),
        arguments: None,
    }
}

#[test]
fn a_user_message_opens_the_turn_of_what_follows() {
    let mut agent = agent();
    assert_eq!(agent.name(), "coda");
    assert_eq!(agent.current_turn(), None);
    agent.add_user_message(TURN, user(7, "go"));
    agent.add_messages(vec![answer(1, None), tool(2)]);
    assert_eq!(agent.current_turn(), Some(TURN));
    assert!(agent.history().iter().all(|entry| entry.turn_id == TURN));
    assert_eq!(agent.state().messages.len(), 3);
}

#[test]
fn an_agents_request_is_its_prompt_and_its_history() {
    let mut store = PromptStore::new();
    let mut agent = new_agent(&mut store);
    agent.add_user_message(TURN, user(7, "go"));
    let messages = agent.messages(&store);
    assert!(matches!(&messages[0], RequestMessage::System(system) if system.text == "be brief"));
    assert!(matches!(&messages[1], RequestMessage::User(user) if user.first_text() == Some("go")));
    assert_eq!(messages.len(), 2);
    let other = agent.messages_with_prompt("else".to_string());
    assert!(matches!(&other[0], RequestMessage::System(system) if system.text == "else"));
}

#[test]
fn recorded_state_hangs_off_its_message_and_the_last_value_wins() {
    let mut agent = agent();
    agent.add_user_message(TURN, user(7, "go"));
    agent.add_message_with_state(tool(1), vec![("todos".to_string(), state("one"))]);
    agent.add_message_with_state(
        tool(2),
        vec![
            ("todos".to_string(), state("two")),
            ("notes".to_string(), state("n")),
        ],
    );
    let snapshot = agent.state_snapshot();
    assert_eq!(snapshot.keys(), ["notes", "todos"]);
    assert_eq!(snapshot.get("todos"), Some(&state("two")));
    let anchors: Vec<_> = agent
        .state_entries()
        .iter()
        .map(|entry| (entry.message_id.value, entry.kind.clone()))
        .collect();
    assert_eq!(
        anchors,
        [
            (1, "todos".to_string()),
            (2, "todos".to_string()),
            (2, "notes".to_string())
        ]
    );
}

#[test]
fn a_restored_agent_goes_on_in_the_turn_of_its_last_message() {
    let mut agent = agent();
    agent.restore_history(
        vec![HistoryEntry::new(TURN, Message::User(user(7, "go")))],
        vec![StateEntry {
            message_id: MessageId { value: 7 },
            kind: "todos".to_string(),
            value: state("one"),
        }],
    );
    agent.add_message(tool(1));
    assert_eq!(agent.history()[1].turn_id, TURN);
    assert_eq!(agent.state_snapshot().get("todos"), Some(&state("one")));
    agent.restore_history(vec![], vec![]);
    assert!(agent.history().is_empty() && agent.state_entries().is_empty());
    assert_eq!(agent.current_turn(), None);
}

#[test]
fn the_latest_usage_is_the_last_one_reported() {
    let usage = |total| CompletionUsage {
        prompt_tokens: 1,
        completion_tokens: 2,
        total_tokens: total,
    };
    let mut agent = agent();
    assert_eq!(agent.last_usage(), None);
    agent.add_user_message(TURN, user(7, "go"));
    agent.add_messages(vec![
        answer(1, Some(usage(10))),
        answer(2, Some(usage(20))),
        answer(3, None),
    ]);
    assert_eq!(find_latest_usage(&agent.history()), agent.last_usage());
    assert_eq!(agent.last_usage().map(|usage| usage.total_tokens), Some(20));
}

#[test]
fn images_follow_the_text() {
    let message = UserMessage::with_images(
        MessageId { value: 1 },
        "look".to_string(),
        &vec!["https://one".to_string(), "https://two".to_string()],
    );
    assert_eq!(
        message.parts,
        [
            ContentPart::Text {
                text: "look".to_string()
            },
            ContentPart::Image {
                url: "https://one".to_string()
            },
            ContentPart::Image {
                url: "https://two".to_string()
            },
        ]
    );
    assert_eq!(message.first_text(), Some("look"));
}

fn subagents() -> SubAgents {
    let mut subagents = SubAgents::default();
    for (name, mode) in [
        ("scout", SubAgentMode::Stateless),
        ("friend", SubAgentMode::Stateful),
    ] {
        subagents.register(SubAgentTool {
            name: name.to_string(),
            description: format!("the {name}"),
            mode,
        });
    }
    subagents
}

#[test]
fn a_sub_agent_is_found_under_both_its_names() {
    let subagents = subagents();
    assert_eq!(SUBAGENT_TOOL_PREFIX, "agent__");
    assert_eq!(subagents.get("scout").unwrap().name, "scout");
    assert_eq!(subagents.get("agent__scout").unwrap().name, "scout");
    assert!(subagents.get("agent__agent__scout").is_none());
    assert!(subagents.get("nobody").is_none());
}

#[test]
fn a_sub_agent_that_keeps_a_conversation_says_so() {
    let descriptors = subagents().descriptors();
    assert_eq!(descriptors[0].name, "agent__scout");
    assert_eq!(descriptors[0].description, "the scout");
    assert_eq!(descriptors[1].name, "agent__friend");
    assert!(descriptors[1]
        .description
        .starts_with("the friend\n\nIMPORTANT: This sub-agent does NOT support concurrent"));
    let schema: Value = serde_json::from_str(&descriptors[0].parameter_schema).unwrap();
    assert_eq!(schema["type"], "object");
    assert_eq!(schema["properties"]["task"]["type"], "string");
    assert_eq!(schema["required"][0], "task");
}

fn profile(model: &str) -> ModelProfile<u8> {
    ModelProfile {
        provider: 1,
        model: model.to_string(),
        label: model.to_uppercase(),
        temperature: None,
        max_completion_tokens: None,
        reasoning_effort: None,
        auto_compact_threshold_tokens: 5,
    }
}

struct Named(&'static str);

impl ApprovalPolicy for Named {
    fn requires_approval(&self, call: &ToolCall) -> bool {
        call.id == self.0
    }
}

#[test]
fn an_agent_runs_on_its_own_model_or_the_default() {
    let mut agent_models = StringMap::new();
    agent_models.insert("scout".to_string(), profile("small"));
    let config = RunConfig {
        default_model: profile("large"),
        agent_models,
        tool_approval: ToolApprovalMode::Manual,
        approval_timeout_ms: Some(9),
    };
    assert_eq!(config.resolve("scout").profile.model, "small");
    let resolved = config.resolve("coda");
    assert_eq!(resolved.profile.model, "large");
    assert_eq!(resolved.profile.label, "LARGE");
    assert_eq!(resolved.profile.auto_compact_threshold_tokens, 5);
    assert!(matches!(resolved.tool_approval, ToolApprovalMode::Manual));
    assert_eq!(config.clone().approval_timeout_ms, Some(9));
}

#[test]
fn approval_modes_flag_none_all_or_some() {
    let calls = vec![call("a"), call("b")];
    assert_eq!(ToolApprovalMode::default().flags(&calls), [false, false]);
    assert_eq!(ToolApprovalMode::Manual.flags(&calls), [true, true]);
    let some = ToolApprovalMode::RequireWhen(Arc::new(Box::new(Named("b"))));
    assert_eq!(some.flags(&calls), [false, true]);
}

#[test]
fn resume_points_survive_storage() {
    let waiting = || {
        ResumePoint::ToolExecution(ToolExecutionState {
            parent_message_id: MessageId { value: 1 },
            pending_replies: vec![PendingReply {
                call_id: "a".to_string(),
                call_envelope_id: "e".to_string(),
                tool_name: "scout".to_string(),
                outcome: ToolCallOutcome::Auto,
                started_at: Timestamp { nanoseconds: 5 },
            }],
            tool_calls: vec![PendingToolCall {
                tool_call: call("b"),
                outcome: ToolCallOutcome::Approved,
            }]
            .into(),
        })
    };
    let parked = || ResumePoint::PendingApproval {
        parent_message_id: MessageId { value: 1 },
        pending_approval_calls: vec![call("a"), call("b")].into(),
        pending_calls: vec![PendingToolCall {
            tool_call: call("c"),
            outcome: ToolCallOutcome::Auto,
        }]
        .into(),
    };
    for point in [ResumePoint::default(), waiting(), parked()] {
        let stored = StoredResumePoint::from(point.clone());
        assert_eq!(ResumePoint::from(stored), point);
    }
    assert_eq!(StoredResumePoint::default(), StoredResumePoint::Generation);
}

#[test]
fn a_runtime_snapshot_survives_storage() {
    let mut snapshot = AgentRuntimeSnapshot::default();
    let envelope = Envelope::with_id(|id| Envelope {
        id,
        from: Sender::User,
        to: Receiver {
            name: "coda".to_string(),
            thread_id: ThreadId::from("root".to_string()),
        },
        reply_to: None,
        body: EnvelopeBody::Task {
            message_id: MessageId { value: 7 },
            task: "go".to_string(),
            images: vec![],
        },
    });
    snapshot
        .drained_envelopes
        .insert("root".to_string(), vec![envelope.clone()]);
    snapshot
        .active_threads
        .insert("root".to_string(), "coda".to_string());
    let back = AgentRuntimeSnapshot::from(StoredRuntimeSnapshot::from(snapshot));
    assert_eq!(back.drained_envelopes.get("root"), Some(&vec![envelope]));
    assert!(back.agent_drained_envelopes.is_empty());
    assert_eq!(back.active_threads.get("root").unwrap(), "coda");
}

#[test]
fn every_envelope_gets_an_id_of_its_own() {
    let build = || {
        Envelope::with_id(|id| Envelope {
            id,
            from: Sender::User,
            to: Receiver {
                name: "coda".to_string(),
                thread_id: ThreadId::new(),
            },
            reply_to: None,
            body: EnvelopeBody::Reply {
                call_id: String::new(),
                output: ToolOutput::Success(String::new()),
                aborted: false,
            },
        })
    };
    let (one, two) = (build(), build());
    assert_ne!(one.id, two.id);
    assert_ne!(one.to.thread_id, two.to.thread_id);
}

#[test]
fn a_map_keeps_its_keys_in_order() {
    let mut map = StringMap::new();
    for key in ["b", "a", "c", "a"] {
        map.insert(key.to_string(), format!("{key}!"));
    }
    assert_eq!(map.keys(), ["a", "b", "c"]);
    assert_eq!(map.remove("b"), Some("b!".to_string()));
    assert_eq!(map.remove("b"), None);
    assert!(!map.contains_key("b") && map.contains_key("c"));
    assert!(!map.is_empty());
}
