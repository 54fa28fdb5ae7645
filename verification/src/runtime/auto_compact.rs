//! Compaction in the middle of a turn: a thread whose context has grown to the configured limit has the
//! front of its history summarized before the model is called again.
//!
//! Every thread checks before each call to the model, going by the usage its latest answer reported. An
//! attempt that fails is recorded and moves no boundary, so that the next check tries again.

use crate::agent::{AgentEvent, AgentEventView, HistoryEntry, HistoryEntryView};
use crate::compaction::{self, Cutoff, Trigger};
use crate::config::ModelProfile;
use crate::ids::{self, MessageId, TurnId};
use crate::llm::{
    ChatCompletionRequest, CompactionMessageView, CompactionOutcome, CompletionUsage, Message,
    MessageView,
};
use crate::message_view::{self, InvalidHistory, InvalidHistoryView};
use crate::runtime::agent_loop::{AgentLoop, LoopView};
use crate::runtime::generation::StreamItem;
use vstd::prelude::*;

verus! {

/// Whether the usage that was last reported reaches the limit.
pub open spec fn at_limit(usage: Option<CompletionUsage>, threshold: u32) -> bool {
    match usage {
        Some(usage) => usage.total_tokens >= threshold,
        None => false,
    }
}

/// The prompt that the model has yet to answer: the newest visible message, where it is a user's. It has
/// to reach the model as it was written.
pub open spec fn unread_prompt(history: Seq<HistoryEntryView>) -> Option<MessageId> {
    let view = message_view::shown(history);
    if view.len() > 0 && view.last().message is User {
        Some(view.last().message.message_id())
    } else {
        None
    }
}

/// What a thread in the turn `turn` is to have summarized before it calls the model again: nothing below
/// the limit, and otherwise what a compaction may summarize, preferably all that came before the turn.
pub open spec fn due_cutoff(
    history: Seq<HistoryEntryView>,
    usage: Option<CompletionUsage>,
    turn: Option<TurnId>,
    threshold: u32,
) -> Result<Option<Cutoff>, InvalidHistoryView> {
    if at_limit(usage, threshold) {
        compaction::planned_cutoff(history, turn, unread_prompt(history), Some(threshold))
    } else {
        Ok(None)
    }
}

/// The prompt that the model has yet to answer.
fn find_unread_prompt(history: &[HistoryEntry]) -> (res: Option<MessageId>)
    ensures
        res == unread_prompt(history.deep_view()),
{
    let view = message_view::model_view(history);
    let n: usize = view.len();
    if n == 0 {
        return None;
    }
    assert(view.deep_view().last() == view@[n - 1]@);
    match &view[n - 1].message {
        Message::User(user) => Some(user.message_id),
        _ => None,
    }
}

/// What a thread in the turn `turn` is to have summarized before it calls the model again.
pub fn auto_cutoff(
    history: &[HistoryEntry],
    usage: Option<CompletionUsage>,
    turn: Option<TurnId>,
    threshold: u32,
) -> (res: Result<Option<Cutoff>, InvalidHistory>)
    ensures
        compaction::planned(res) == due_cutoff(history.deep_view(), usage, turn, threshold),
{
    let reached: bool = match usage {
        Some(usage) => usage.total_tokens >= threshold,
        None => false,
    };
    if reached {
        let unread = find_unread_prompt(history);
        compaction::cutoff(history, turn, unread, Some(threshold))
    } else {
        Ok(None)
    }
}

/// What a run is to have summarized under a threshold.
pub open spec fn due(run: LoopView, threshold: u32) -> Option<Cutoff> {
    match due_cutoff(
        run.state.messages,
        crate::agent::latest_usage(run.state.messages),
        run.state.current_turn,
        threshold,
    ) {
        Ok(found) => found,
        Err(_) => None,
    }
}

/// Whether this is the record of an attempt to summarize everything up to the message `covered`.
pub open spec fn is_attempt(
    record: CompactionMessageView,
    covered: MessageId,
    summary: Result<Seq<char>, Seq<char>>,
) -> bool {
    &&& ids::is_random_uuid(record.message_id.value)
    &&& ids::in_calendar(record.created_at.nanoseconds as int)
    &&& match summary {
        Ok(text) => {
            &&& record.outcome == CompactionOutcome::Summary { cutoff: covered }
            &&& record.content == compaction::summary_content(Trigger::Auto, text)
        },
        Err(reason) => {
            &&& record.outcome == CompactionOutcome::Failed
            &&& record.content
                == "Compaction failed, so the conversation was left as it is: "@ + reason
        },
    }
}

/// The run once an attempt is recorded, and announced as it was recorded.
pub open spec fn compacted(
    before: LoopView,
    after: LoopView,
    covered: MessageId,
    summary: Result<Seq<char>, Seq<char>>,
) -> bool {
    exists|turn: TurnId, record: CompactionMessageView|
        before.state.stamps(turn) && is_attempt(record, covered, summary) && after == (LoopView {
            state: #[trigger] before.state.appended(turn, MessageView::Compaction(record)),
            ..before
        }).announcing(AgentEventView::CompactionEnd(record))
}

/// What an attempt brought, by its content.
pub open spec fn attempted(summary: Result<String, String>) -> Result<Seq<char>, Seq<char>> {
    match summary {
        Ok(text) => Ok(text@),
        Err(reason) => Err(reason@),
    }
}

/// What the next item of the stream makes of an attempt, where it finishes it: only a completed answer
/// is a summary. Chunks are not shown to anyone, so they come to nothing.
pub fn summary_item(item: StreamItem) -> (res: Option<Result<String, String>>)
    ensures
        match item {
            StreamItem::ContentChunk(_) => res is None,
            StreamItem::ReasoningChunk(_) => res is None,
            StreamItem::Completed(message) => res matches Some(Ok(text)) && text@ == message.content@,
            StreamItem::Failed(error) => res matches Some(Err(reason)) && reason@ == error@,
            StreamItem::Ended => res matches Some(Err(reason)) && reason@
                == "Invalid response: LLM stream ended without Completed event"@,
            StreamItem::Cancelled => res matches Some(Err(reason)) && reason@
                == "interrupted by the user"@,
        },
{
    match item {
        StreamItem::ContentChunk(_) => None,
        StreamItem::ReasoningChunk(_) => None,
        StreamItem::Completed(message) => Some(Ok(message.content)),
        StreamItem::Failed(error) => Some(Err(error)),
        StreamItem::Ended => Some(
            Err("Invalid response: LLM stream ended without Completed event".to_owned()),
        ),
        StreamItem::Cancelled => Some(Err("interrupted by the user".to_owned())),
    }
}

impl AgentLoop {
    /// Start a compaction where one is due: announce it, and return the request for the summary and the
    /// last message it covers. `prompt` says what a summary is for. A history that a provider would
    /// refuse is left for the call to the model to report.
    pub fn begin_compaction<P>(&mut self, profile: &ModelProfile<P>, prompt: &str) -> (res: Option<
        (ChatCompletionRequest, MessageId),
    >)
        ensures
            final(self).same_agent(*old(self)),
            match due(old(self)@, profile.auto_compact_threshold_tokens) {
                Some(cutoff) => res matches Some((request, covered)) && {
                    &&& covered == cutoff.coverage_message_id
                    &&& final(self)@ == old(self)@.announcing(AgentEventView::CompactionStart)
                    &&& exists|id: MessageId|
                        ids::is_random_uuid(id.value) && request@
                            == #[trigger] compaction::summary_request_of(
                            id,
                            profile.model@,
                            profile.max_completion_tokens,
                            profile.reasoning_effort.deep_view(),
                            message_view::shown(old(self)@.state.messages).take(
                                cutoff.model_view_len as int,
                            ),
                            Seq::empty(),
                            prompt@,
                        )
                },
                None => res is None && final(self)@ == old(self)@,
            },
    {
        let threshold = profile.auto_compact_threshold_tokens;
        let usage = self.agent.last_usage();
        let turn = self.agent.state.current_turn;
        let history = self.agent.state.messages.as_slice();
        assert(history.deep_view() =~= self.agent.state.messages.deep_view());
        let cutoff = match auto_cutoff(history, usage, turn, threshold) {
            Ok(Some(cutoff)) => cutoff,
            _ => {
                return None;
            },
        };
        let mut entries = message_view::model_view(history);
        let ghost view = entries.deep_view();
        proof {
            assert(history@.len() == history.len());
            compaction::law_a_cutoff_lies_in_the_view(
                history.deep_view(),
                turn,
                unread_prompt(history.deep_view()),
                Some(threshold),
                cutoff,
            );
        }
        entries.truncate(cutoff.model_view_len);
        assert(entries.deep_view() =~= view.take(cutoff.model_view_len as int));
        let request = compaction::summary_request(
            profile.model.clone(),
            profile.max_completion_tokens,
            profile.reasoning_effort.clone(),
            &entries,
            "",
            prompt,
        );
        proof {
            reveal_strlit("");
            assert(""@ =~= Seq::<char>::empty());
        }
        self.announce(AgentEvent::CompactionStart);
        Some((request, cutoff.coverage_message_id))
    }

    /// Record what came of a compaction that covers everything up to the message `covered`, and announce
    /// it: the summary, or why there is none.
    pub fn finish_compaction(&mut self, covered: MessageId, summary: Result<String, String>)
        ensures
            final(self).same_agent(*old(self)),
            compacted(old(self)@, final(self)@, covered, attempted(summary)),
    {
        let message = match &summary {
            Ok(text) => compaction::summary_message(covered, Trigger::Auto, text.as_str()),
            Err(reason) => compaction::failure_message(reason.as_str()),
        };
        match message {
            Message::Compaction(record) => {
                assert(is_attempt(record@, covered, attempted(summary)));
                self.agent.add_message(Message::Compaction(record.clone()));
                proof {
                    let turn = choose|turn: TurnId|
                        old(self).agent.state@.stamps(turn) && self.agent.state@
                            == #[trigger] old(self).agent.state@.appended(
                            turn,
                            MessageView::Compaction(record@),
                        );
                    assert(self@ =~= (LoopView {
                        state: old(self)@.state.appended(turn, MessageView::Compaction(record@)),
                        ..old(self)@
                    }));
                }
                self.announce(AgentEvent::CompactionEnd(record));
            },
            _ => {},
        }
    }
}

/// A prompt that the model has yet to answer is never summarized: once the summary of a due compaction
/// is in place, the prompt is still the newest message the model sees.
pub proof fn law_an_unread_prompt_stays(
    history: Seq<HistoryEntryView>,
    usage: Option<CompletionUsage>,
    turn: Option<TurnId>,
    threshold: u32,
    cutoff: Cutoff,
    summary: HistoryEntryView,
)
    requires
        history.len() < usize::MAX,
        compaction::distinct_messages(history.push(summary)),
        due_cutoff(history, usage, turn, threshold) == Ok::<Option<Cutoff>, InvalidHistoryView>(
            Some(cutoff),
        ),
        compaction::summarizes_to(summary, cutoff.coverage_message_id),
        unread_prompt(history) is Some,
    ensures
        unread_prompt(history.push(summary)) == unread_prompt(history),
{
    let unread = unread_prompt(history);
    let view = message_view::shown(history);
    compaction::law_a_cutoff_lies_in_the_view(history, turn, unread, Some(threshold), cutoff);
    compaction::law_compaction_replaces_the_front_of_the_view(
        history,
        turn,
        unread,
        Some(threshold),
        cutoff,
        summary,
    );
    assert(message_view::shown(history.push(summary)).last() == view.last());
}

/// A due compaction makes the view no longer than it was, and keeps one that a provider accepts: the
/// call to the model that follows it can be made.
pub proof fn law_a_compaction_leaves_a_valid_view(
    history: Seq<HistoryEntryView>,
    usage: Option<CompletionUsage>,
    turn: Option<TurnId>,
    threshold: u32,
    cutoff: Cutoff,
    summary: HistoryEntryView,
)
    requires
        history.len() < usize::MAX,
        compaction::distinct_messages(history.push(summary)),
        due_cutoff(history, usage, turn, threshold) == Ok::<Option<Cutoff>, InvalidHistoryView>(
            Some(cutoff),
        ),
        compaction::summarizes_to(summary, cutoff.coverage_message_id),
    ensures
        message_view::shown(history.push(summary)).len() <= message_view::shown(history).len(),
        message_view::validation(
            message_view::messages_of(message_view::shown(history.push(summary))),
        ) is Ok,
{
    compaction::law_compaction_replaces_the_front_of_the_view(
        history,
        turn,
        unread_prompt(history),
        Some(threshold),
        cutoff,
        summary,
    );
}

/// A failed attempt changes nothing about what is due: the next check finds the same cutoff. This is so
/// of every thread that has a turn, as one with something to summarize does.
pub proof fn law_a_failed_attempt_is_tried_again(
    before: LoopView,
    after: LoopView,
    covered: MessageId,
    reason: Seq<char>,
    threshold: u32,
)
    requires
        compacted(before, after, covered, Err(reason)),
        before.state.current_turn is Some,
    ensures
        due(after, threshold) == due(before, threshold),
{
    let (turn, record) = choose|turn: TurnId, record: CompactionMessageView|
        before.state.stamps(turn) && is_attempt(record, covered, Err(reason)) && after == (LoopView {
            state: #[trigger] before.state.appended(turn, MessageView::Compaction(record)),
            ..before
        }).announcing(AgentEventView::CompactionEnd(record));
    let entry = HistoryEntryView::of(turn, MessageView::Compaction(record));
    compaction::law_a_failed_compaction_leaves_the_view(before.state.messages, entry);
    compaction::law_a_failed_compaction_leaves_the_cutoff(
        before.state.messages,
        entry,
        before.state.current_turn,
        unread_prompt(before.state.messages),
        Some(threshold),
    );
    assert(before.state.messages.push(entry).drop_last() =~= before.state.messages);
}

}
