//! Tool results as they reach a thread's history.

use crate::agent::{AgentEventView, HistoryEntryView};
use crate::ids::TurnId;
use crate::llm::{MessageView, ToolMessageView, ToolRecord};
use crate::runtime::agent_loop::{self, AnnouncementView, LoopView};
use vstd::prelude::*;

verus! {

/// The `k`th message that a run has beyond what it had before.
pub open spec fn added(before: LoopView, after: LoopView, k: int) -> HistoryEntryView {
    after.state.messages[before.state.messages.len() + k]
}

/// The `k`th result that a run has beyond what it had before.
pub open spec fn result(before: LoopView, after: LoopView, k: int) -> ToolMessageView {
    added(before, after, k).message->Tool_0
}

/// Whether a run has `n` more results and is otherwise as it was: what it held stays where it was, and
/// each result goes to the current turn of the history and out as an event.
pub open spec fn adds_results(before: LoopView, after: LoopView, n: nat) -> bool {
    &&& after.state.messages.len() == before.state.messages.len() + n
    &&& after.state.messages.take(before.state.messages.len() as int) == before.state.messages
    &&& after.state.state == before.state.state
    &&& after.events.len() == before.events.len() + n
    &&& after.events.take(before.events.len() as int) == before.events
    &&& forall|k: int|
        0 <= k < n ==> {
            let entry = #[trigger] added(before, after, k);
            &&& entry.message is Tool
            &&& before.state.current_turn is Some ==> before.state.current_turn == Some(
                entry.turn_id,
            )
            &&& after.events[before.events.len() + k] == (AnnouncementView {
                turn: before.turn,
                event: AgentEventView::ToolCallEnd(result(before, after, k)),
            })
        }
}

/// Whether everything but the history and the events is as it was.
pub open spec fn same_place(before: LoopView, after: LoopView) -> bool {
    &&& after.name == before.name
    &&& after.subagents == before.subagents
    &&& after.thread_id == before.thread_id
    &&& after.turn == before.turn
    &&& after.origin_thread == before.origin_thread
}

/// What recording comes to, entry by entry.
pub proof fn lemma_recorded_results(before: LoopView, after: LoopView, records: Seq<ToolRecord>)
    requires
        agent_loop::recorded(before, after, records),
    ensures
        adds_results(before, after, records.len()),
        same_place(before, after),
        after.reply_target == before.reply_target,
        forall|k: int|
            0 <= k < records.len() ==> {
                let made = #[trigger] result(before, after, k);
                &&& made.id == records[k].id
                &&& made.name == records[k].name
                &&& made.output == records[k].output
                &&& made.outcome == records[k].outcome
                &&& made.started_at == records[k].started_at
            },
{
    let (turn, messages) = choose|turn: TurnId, messages: Seq<ToolMessageView>|
        before.state.stamps(turn) && agent_loop::records_of(messages) == records
            && agent_loop::freshly_minted(messages) && after == #[trigger] before.with_results(
            turn,
            messages,
        );
    let n = messages.len();
    assert(agent_loop::records_of(messages).len() == n);
    assert(after.state.messages.take(before.state.messages.len() as int)
        =~= before.state.messages);
    assert(after.events.take(before.events.len() as int) =~= before.events);
    assert forall|k: int| 0 <= k < n implies {
        let entry = #[trigger] added(before, after, k);
        &&& entry.message == MessageView::Tool(messages[k])
        &&& entry.turn_id == turn
    } by {
        let tools = messages.map_values(|message: ToolMessageView| MessageView::Tool(message));
        assert(tools[k] == MessageView::Tool(messages[k]));
    }
    assert forall|k: int| 0 <= k < n implies {
        let made = #[trigger] result(before, after, k);
        &&& made == messages[k]
        &&& made.record() == records[k]
    } by {
        let entry = added(before, after, k);
        assert(entry.message == MessageView::Tool(messages[k]));
        assert(agent_loop::records_of(messages)[k] == messages[k].record());
    }
}

}
