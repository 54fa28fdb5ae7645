use coda_agent::agent::HistoryEntry;
use coda_agent::ids::{MessageId, Timestamp, TurnId};
use coda_agent::llm::{
    AssistantMessage, CompactionMessage, CompactionOutcome, Message, ToolCall, ToolCallOutcome,
    ToolMessage, ToolOutput, UserMessage,
};
use coda_agent::message_view::{model_view, validate_model_view, InvalidHistory};

fn entry(message: Message) -> HistoryEntry {
    HistoryEntry::new(TurnId::from(MessageId::new()), message)
}

fn entry_in(turn: TurnId, message: Message) -> HistoryEntry {
    HistoryEntry::new(turn, message)
}

fn user(text: &str) -> HistoryEntry {
    entry(Message::User(UserMessage::text(MessageId::new(), text.to_string())))
}

fn user_in(turn: TurnId, text: &str) -> HistoryEntry {
    entry_in(
        turn,
        Message::User(UserMessage::text(MessageId::new(), text.to_string())),
    )
}

fn compaction(outcome: CompactionOutcome, content: &str) -> HistoryEntry {
    entry(Message::Compaction(CompactionMessage {
        message_id: MessageId::new(),
        outcome,
        content: content.to_string(),
        created_at: Timestamp::now(),
    }))
}

/// A summary whose `cutoff` names a message this history doesn't hold, so the view falls back to the
/// summary's own position.
fn summary(content: &str) -> HistoryEntry {
    compaction(
        CompactionOutcome::Summary {
            cutoff: MessageId::new(),
        },
        content,
    )
}

/// A compaction summary carrying a recorded `cutoff` pointing at `covers`, as an automatic mid-turn
/// compaction would write.
fn summary_covering(content: &str, covers: &HistoryEntry) -> HistoryEntry {
    compaction(
        CompactionOutcome::Summary {
            cutoff: covers.message.message_id(),
        },
        content,
    )
}

/// A failed compaction: transcript-only, and not a boundary.
fn failure(content: &str) -> HistoryEntry {
    compaction(CompactionOutcome::Failed, content)
}

fn texts(entries: Vec<&HistoryEntry>) -> Vec<String> {
    entries
        .into_iter()
        .map(|entry| match &entry.message {
            Message::User(user) => user.first_text().unwrap_or_default().to_string(),
            Message::Compaction(compaction) => compaction.content.clone(),
            _ => unreachable!("these tests only build user and compaction messages"),
        })
        .collect()
}

#[test]
fn a_thread_without_a_summary_is_shown_whole() {
    let history = vec![user("first"), user("second")];
    assert_eq!(texts(model_view(&history)), ["first", "second"]);
}

#[test]
fn the_view_starts_at_the_summary_itself() {
    let history = vec![
        user("old"),
        user("/compact"),
        summary("summary"),
        user("next"),
    ];
    assert_eq!(texts(model_view(&history)), ["summary", "next"]);
}

#[test]
fn the_last_summary_wins() {
    let history = vec![
        summary("first summary"),
        user("work"),
        summary("second summary"),
    ];
    assert_eq!(texts(model_view(&history)), ["second summary"]);
}

/// A failed compaction's record is transcript-only, so it changes nothing the model sees.
#[test]
fn a_failure_record_is_kept_out_of_the_view() {
    let history = vec![
        user("old"),
        user("/compact"),
        failure("the provider timed out"),
    ];
    assert_eq!(texts(model_view(&history)), ["old", "/compact"]);
}

/// Failure records stay hidden wherever they sit, even between the boundary and later conversation. The
/// `/compact` line stays visible until a later successful summary's boundary sweeps it out.
#[test]
fn failure_records_between_boundary_and_talk_stay_hidden() {
    let history = vec![
        user("old"),
        summary("summary"),
        user("/compact"),
        failure("the provider timed out"),
        user("next"),
    ];
    assert_eq!(texts(model_view(&history)), ["summary", "/compact", "next"]);
}

#[test]
fn an_empty_thread_has_an_empty_view() {
    assert!(model_view(&[]).is_empty());
}

/// A mid-turn summary is appended after messages the current turn already produced, but its `cutoff` names
/// an earlier one: those messages must reorder to *follow* the summary, not sit between it and the tail.
#[test]
fn a_mid_turn_summary_reorders_ahead_of_what_it_was_appended_after() {
    let earlier = user("earlier turn");
    let already_produced = user("current turn, before compaction landed");
    let summary = summary_covering("gist of the earlier turn", &earlier);
    let history = vec![
        earlier,
        already_produced.clone(),
        summary,
        user("current turn, after compaction landed"),
    ];
    assert_eq!(
        texts(model_view(&history)),
        [
            "gist of the earlier turn",
            "current turn, before compaction landed",
            "current turn, after compaction landed",
        ]
    );
}

/// A second summary with its own `cutoff` supersedes the first, and only messages after *its* cutoff
/// reappear.
#[test]
fn a_later_summary_with_a_cutoff_still_wins_and_narrows_the_tail() {
    let root = user("root");
    let first_summary = summary_covering("first gist", &root);
    let protected = user("protected by the first summary");
    let second_summary = summary_covering("second gist", &protected);
    let history = vec![
        root,
        first_summary,
        protected,
        second_summary,
        user("fresh"),
    ];
    assert_eq!(texts(model_view(&history)), ["second gist", "fresh"]);
}

/// A summary whose `cutoff` names a message this history no longer holds falls back to the summary's own
/// physical position.
#[test]
fn a_summary_with_an_unresolvable_cutoff_falls_back_to_its_own_position() {
    let history = vec![user("old"), summary("dangling summary"), user("next")];
    assert_eq!(texts(model_view(&history)), ["dangling summary", "next"]);
}

/// `model_view` never cares which turn a message belongs to.
#[test]
fn turn_tagging_does_not_affect_the_view() {
    let turn = TurnId::from(MessageId::new());
    let history = vec![user_in(turn, "a"), user_in(turn, "b")];
    assert_eq!(texts(model_view(&history)), ["a", "b"]);
}

fn task() -> HistoryEntry {
    user("task")
}

fn assistant(calls: &[&str]) -> HistoryEntry {
    entry(Message::Assistant(AssistantMessage {
        message_id: MessageId::new(),
        content: String::new(),
        tool_calls: calls
            .iter()
            .map(|id| ToolCall {
                id: (*id).to_string(),
                name: "tool".to_string(),
                arguments: Some("{}".to_string()),
            })
            .collect(),
        usage: None,
        reasoning_content: None,
        reasoning_continuation: None,
        reasoning_ended_at: None,
        aborted: false,
        started_at: Timestamp::default(),
        ended_at: Timestamp::default(),
    }))
}

fn tool(id: &str) -> HistoryEntry {
    entry(Message::Tool(ToolMessage::new(
        id.to_string(),
        "tool".to_string(),
        ToolOutput::Success("done".to_string()),
        ToolCallOutcome::Auto,
        None,
    )))
}

#[test]
fn a_complete_parallel_batch_is_valid_in_any_result_order() {
    let history = vec![task(), assistant(&["a", "b"]), tool("b"), tool("a")];
    assert_eq!(validate_model_view(&history), Ok(()));
}

#[test]
fn a_missing_tool_result_is_invalid() {
    let assistant = assistant(&["a", "b"]);
    let assistant_id = assistant.message.message_id();
    let history = vec![task(), assistant, tool("a")];
    assert_eq!(
        validate_model_view(&history),
        Err(InvalidHistory::IncompleteToolBatch {
            assistant_message_id: assistant_id,
            missing_call_ids: vec!["b".to_string()],
        })
    );
}

#[test]
fn an_orphan_tool_result_is_invalid() {
    let orphan = tool("a");
    let message_id = orphan.message.message_id();
    assert_eq!(
        validate_model_view(&[task(), orphan]),
        Err(InvalidHistory::OrphanToolResult {
            message_id,
            call_id: "a".to_string(),
        })
    );
}

#[test]
fn a_duplicate_tool_call_id_is_invalid() {
    let assistant = assistant(&["a", "a"]);
    let message_id = assistant.message.message_id();
    assert_eq!(
        validate_model_view(&[task(), assistant]),
        Err(InvalidHistory::DuplicateToolCall {
            message_id,
            call_id: "a".to_string(),
        })
    );
}

#[test]
fn a_duplicate_tool_result_is_invalid() {
    let duplicate = tool("a");
    let message_id = duplicate.message.message_id();
    let history = vec![task(), assistant(&["a"]), tool("a"), duplicate];
    assert_eq!(
        validate_model_view(&history),
        Err(InvalidHistory::DuplicateToolResult {
            message_id,
            call_id: "a".to_string(),
        })
    );
}

#[test]
fn a_result_from_another_batch_is_invalid() {
    let wrong = tool("a");
    let message_id = wrong.message.message_id();
    let history = vec![
        task(),
        assistant(&["a"]),
        tool("a"),
        assistant(&["b"]),
        wrong,
    ];
    assert_eq!(
        validate_model_view(&history),
        Err(InvalidHistory::OrphanToolResult {
            message_id,
            call_id: "a".to_string(),
        })
    );
}

#[test]
fn a_batch_cut_off_by_another_message_is_incomplete() {
    let asking = assistant(&["a", "b", "c"]);
    let assistant_id = asking.message.message_id();
    assert_eq!(
        validate_model_view(&[task(), asking, tool("b"), user("next")]),
        Err(InvalidHistory::IncompleteToolBatch {
            assistant_message_id: assistant_id,
            missing_call_ids: vec!["a".to_string(), "c".to_string()],
        })
    );
}

#[test]
fn invalid_histories_are_described() {
    let message_id = MessageId::new();
    let text = InvalidHistory::OrphanToolResult {
        message_id,
        call_id: "a".to_string(),
    }
    .describe();
    assert!(text.contains("a"));
    assert!(text.contains(&message_id.to_text()));
}
