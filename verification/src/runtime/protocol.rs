//! A thread keeps the tool-call protocol: whatever it does, each call that its history asks for either
//! has its one result or is still owed one.

use crate::agent::{
    AgentEventView, EnvelopeBodyView, EnvelopeView, HistoryEntryView, PendingReplyView,
    PendingToolCallView, ResumePointView, ToolCallResolutionView, ToolExecutionStateView,
};
use crate::execution::{self, StoredExecutionView, UnansweredCall};
use crate::ids::{MessageId, Timestamp, TurnId};
use crate::llm::{
    AssistantMessageView, CompactionMessageView, MessageView, ToolCallView, ToolMessageView,
    ToolRecord, UserMessageView,
};
use crate::message_view::{self, InvalidHistoryView, OpenBatch};
use crate::persist::{self, StoredCheckpointView};
use crate::runtime::agent_loop::{
    self, EnvelopeOutcomeView, LoopStepView, LoopView, TurnEndView, WindUpView,
};
use crate::runtime::auto_compact;
use crate::runtime::error::SendCommandError;
use crate::runtime::generation::{self, GenerationOutcomeView, GenerationProgressView};
use crate::runtime::tools::{self, RunningCallView, ToolAction, ToolRunView};
use crate::runtime::turn_run::{self, TurnStartView, TurnStepView};
use crate::subagents;
use crate::text;
use vstd::multiset::Multiset;
use vstd::prelude::*;

verus! {

/// What checking messages after an open batch leaves open: the batch that still waits for results, or
/// the first violation.
pub open spec fn left_open(batch: Option<OpenBatch>, messages: Seq<MessageView>) -> Result<
    Option<OpenBatch>,
    InvalidHistoryView,
>
    decreases messages.len(),
{
    if messages.len() == 0 {
        Ok(batch)
    } else {
        match left_open(batch, messages.drop_last()) {
            Err(invalid) => Err(invalid),
            Ok(open) => message_view::check_message(open, messages.last()),
        }
    }
}

/// The calls of a batch that have no result yet.
pub open spec fn without_result(batch: Option<OpenBatch>, id: Seq<char>) -> bool {
    match batch {
        Some(open) => open.expected.contains(id) && !open.answered.contains(id),
        None => false,
    }
}

/// Whether a history keeps the tool-call protocol so far, with exactly these calls still owed a result,
/// each once.
pub open spec fn keeps(history: Seq<HistoryEntryView>, owed: Multiset<Seq<char>>) -> bool {
    match left_open(None, message_view::messages_of(history)) {
        Ok(open) => forall|id: Seq<char>| #[trigger]
            owed.count(id) == (if without_result(open, id) {
                1nat
            } else {
                0nat
            }),
        Err(_) => false,
    }
}

/// Whether messages are checked from the front or the back makes no difference.
proof fn lemma_left_open_from_front(batch: Option<OpenBatch>, messages: Seq<MessageView>)
    requires
        messages.len() > 0,
    ensures
        left_open(batch, messages) == (match message_view::check_message(batch, messages[0]) {
            Err(invalid) => Err(invalid),
            Ok(next) => left_open(next, messages.drop_first()),
        }),
    decreases messages.len(),
{
    let rest = messages.drop_last();
    if rest.len() > 0 {
        lemma_left_open_from_front(batch, rest);
        assert(messages.drop_first().drop_last() =~= rest.drop_first());
        assert(messages.drop_first().last() == messages.last());
    } else {
        assert(left_open(batch, rest) == Ok::<Option<OpenBatch>, InvalidHistoryView>(batch));
        assert(messages.drop_first().len() == 0);
    }
}

/// A validation comes to what is left open in the end.
proof fn lemma_validation_ends(batch: Option<OpenBatch>, messages: Seq<MessageView>)
    ensures
        message_view::check_messages(batch, messages) == (match left_open(batch, messages) {
            Err(invalid) => Err(invalid),
            Ok(open) => message_view::batch_end(open),
        }),
    decreases messages.len(),
{
    if messages.len() > 0 {
        lemma_left_open_from_front(batch, messages);
        match message_view::check_message(batch, messages[0]) {
            Err(_) => {},
            Ok(next) => {
                lemma_validation_ends(next, messages.drop_first());
            },
        }
    }
}

/// A history that owes no result is exactly one that a provider accepts.
pub proof fn law_a_history_that_owes_nothing_is_valid(history: Seq<HistoryEntryView>)
    ensures
        keeps(history, Multiset::empty()) <==> message_view::validation(
            message_view::messages_of(history),
        ) is Ok,
{
    let messages = message_view::messages_of(history);
    lemma_validation_ends(None, messages);
    match left_open(None, messages) {
        Ok(open) => {
            message_view::lemma_batch_end(open);
            if message_view::batch_end(open) is Ok {
                assert forall|id: Seq<char>| #[trigger]
                    Multiset::<Seq<char>>::empty().count(id) == (if without_result(open, id) {
                        1nat
                    } else {
                        0nat
                    }) by {}
            }
            if keeps(history, Multiset::empty()) {
                assert forall|id: Seq<char>| without_result(open, id) implies false by {
                    assert(Multiset::<Seq<char>>::empty().count(id) == 0);
                }
                match open {
                    Some(batch) => {
                        assert forall|id: Seq<char>| #[trigger]
                            batch.expected.contains(id) implies batch.answered.contains(id) by {
                            assert(!without_result(open, id));
                        }
                    },
                    None => {},
                }
            }
        },
        Err(_) => {},
    }
}

proof fn lemma_one_more_message(history: Seq<HistoryEntryView>, turn: TurnId, message: MessageView)
    ensures
        left_open(
            None,
            message_view::messages_of(history.push(HistoryEntryView::of(turn, message))),
        ) == (match left_open(None, message_view::messages_of(history)) {
            Err(invalid) => Err(invalid),
            Ok(open) => message_view::check_message(open, message),
        }),
{
    let before = message_view::messages_of(history);
    let after = message_view::messages_of(history.push(HistoryEntryView::of(turn, message)));
    assert(after =~= before.push(message));
    assert(after.drop_last() =~= before);
}

/// A result for a call that is owed one settles that call.
proof fn lemma_result(
    history: Seq<HistoryEntryView>,
    owed: Multiset<Seq<char>>,
    turn: TurnId,
    tool: ToolMessageView,
)
    requires
        keeps(history, owed),
        owed.count(tool.id) > 0,
    ensures
        keeps(
            history.push(HistoryEntryView::of(turn, MessageView::Tool(tool))),
            owed.remove(tool.id),
        ),
{
    lemma_one_more_message(history, turn, MessageView::Tool(tool));
    match left_open(None, message_view::messages_of(history)) {
        Ok(open) => {
            assert(without_result(open, tool.id));
            let batch = open->0;
            let next = Some(OpenBatch { answered: batch.answered.insert(tool.id), ..batch });
            assert forall|id: Seq<char>| #[trigger]
                owed.remove(tool.id).count(id) == (if without_result(next, id) {
                    1nat
                } else {
                    0nat
                }) by {
                assert(owed.count(id) == (if without_result(open, id) {
                    1nat
                } else {
                    0nat
                }));
            }
        },
        Err(_) => {},
    }
}

/// The calls that tool messages answer.
pub open spec fn answered_by(tools: Seq<ToolMessageView>) -> Seq<Seq<char>> {
    tools.map_values(|tool: ToolMessageView| tool.id)
}

/// Results in a row settle their calls.
proof fn lemma_results(
    history: Seq<HistoryEntryView>,
    owed: Multiset<Seq<char>>,
    turn: TurnId,
    tools: Seq<ToolMessageView>,
)
    requires
        keeps(history, owed),
        answered_by(tools).to_multiset().subset_of(owed),
    ensures
        keeps(
            history + tools.map_values(
                |tool: ToolMessageView| MessageView::Tool(tool),
            ).map_values(|message: MessageView| HistoryEntryView::of(turn, message)),
            owed.sub(answered_by(tools).to_multiset()),
        ),
    decreases tools.len(),
{
    let as_message = |tool: ToolMessageView| MessageView::Tool(tool);
    let as_entry = |message: MessageView| HistoryEntryView::of(turn, message);
    let entries = tools.map_values(as_message).map_values(as_entry);
    let ids = answered_by(tools);
    if tools.len() == 0 {
        assert(history + entries =~= history);
        ids.to_multiset_ensures();
        assert(owed.sub(ids.to_multiset()) =~= owed);
    } else {
        let rest = tools.drop_last();
        let last = tools.last();
        let before = answered_by(rest);
        assert(ids =~= before.push(last.id));
        before.to_multiset_ensures();
        assert(ids.to_multiset() =~= before.to_multiset().insert(last.id));
        assert(before.to_multiset().subset_of(owed)) by {
            assert forall|id: Seq<char>| before.to_multiset().count(id) <= owed.count(id) by {
                assert(ids.to_multiset().count(id) <= owed.count(id));
            }
        }
        lemma_results(history, owed, turn, rest);
        let some = history + rest.map_values(as_message).map_values(as_entry);
        let left = owed.sub(before.to_multiset());
        assert(ids.to_multiset().count(last.id) <= owed.count(last.id));
        lemma_result(some, left, turn, last);
        assert(history + entries =~= some.push(as_entry(as_message(last))));
        assert(left.remove(last.id) =~= owed.sub(ids.to_multiset()));
    }
}

/// The calls that results are recorded for.
pub open spec fn recorded_ids(records: Seq<ToolRecord>) -> Seq<Seq<char>> {
    records.map_values(|record: ToolRecord| record.id)
}

/// Recorded results settle their calls.
proof fn lemma_recorded(
    before: LoopView,
    after: LoopView,
    records: Seq<ToolRecord>,
    owed: Multiset<Seq<char>>,
)
    requires
        agent_loop::recorded(before, after, records),
        keeps(before.state.messages, owed),
        recorded_ids(records).to_multiset().subset_of(owed),
    ensures
        keeps(after.state.messages, owed.sub(recorded_ids(records).to_multiset())),
{
    let (turn, tools) = choose|turn: TurnId, tools: Seq<ToolMessageView>|
        before.state.stamps(turn) && agent_loop::records_of(tools) == records && after
            == #[trigger] before.with_results(turn, tools);
    assert(answered_by(tools) =~= recorded_ids(records)) by {
        assert forall|k: int| 0 <= k < tools.len() implies tools[k].id == records[k].id by {
            assert(agent_loop::records_of(tools)[k] == tools[k].record());
        }
    }
    if tools.len() == 0 {
        recorded_ids(records).to_multiset_ensures();
        assert(owed.sub(recorded_ids(records).to_multiset()) =~= owed);
    } else {
        lemma_results(before.state.messages, owed, turn, tools);
    }
}

/// A message without calls can follow a history that owes nothing.
proof fn lemma_said(history: Seq<HistoryEntryView>, turn: TurnId, message: MessageView)
    requires
        keeps(history, Multiset::empty()),
        !(message is Tool),
        !message_view::asks_for_calls(message),
    ensures
        keeps(history.push(HistoryEntryView::of(turn, message)), Multiset::empty()),
{
    lemma_one_more_message(history, turn, message);
    law_a_history_that_owes_nothing_is_valid(history);
    lemma_validation_ends(None, message_view::messages_of(history));
}

/// A batch of calls that follows a history that owes nothing is owed its results.
proof fn lemma_asked(
    history: Seq<HistoryEntryView>,
    turn: TurnId,
    answer: AssistantMessageView,
)
    requires
        keeps(history, Multiset::empty()),
        answer.tool_calls.len() > 0,
        message_view::call_ids(answer).no_duplicates(),
    ensures
        keeps(
            history.push(HistoryEntryView::of(turn, MessageView::Assistant(answer))),
            message_view::call_ids(answer).to_multiset(),
        ),
{
    let ids = message_view::call_ids(answer);
    lemma_one_more_message(history, turn, MessageView::Assistant(answer));
    law_a_history_that_owes_nothing_is_valid(history);
    lemma_validation_ends(None, message_view::messages_of(history));
    message_view::lemma_first_repeat(ids);
    let open = Some(
        OpenBatch {
            assistant_message_id: answer.message_id,
            expected: ids,
            answered: Set::empty(),
        },
    );
    ids.to_multiset_ensures();
    ids.lemma_multiset_has_no_duplicates();
    assert forall|id: Seq<char>| #[trigger]
        ids.to_multiset().count(id) == (if without_result(open, id) {
            1nat
        } else {
            0nat
        }) by {
        assert(ids.contains(id) <==> ids.to_multiset().count(id) > 0);
        assert(ids.to_multiset().contains(id) ==> ids.to_multiset().count(id) == 1);
    }
}

/// The calls that sub-agents owe answers to.
pub open spec fn sent_ids(pending: Seq<PendingReplyView>) -> Seq<Seq<char>> {
    pending.map_values(|reply: PendingReplyView| reply.call_id)
}

/// The calls that are yet to run.
pub open spec fn waiting_ids(calls: Seq<PendingToolCallView>) -> Seq<Seq<char>> {
    calls.map_values(|call: PendingToolCallView| call.tool_call.id)
}

/// The calls that are asked about.
pub open spec fn asked_ids(calls: Seq<ToolCallView>) -> Seq<Seq<char>> {
    calls.map_values(|call: ToolCallView| call.id)
}

/// The calls that a thread still owes a result, by where it picks up.
pub open spec fn owed_at(point: ResumePointView) -> Seq<Seq<char>> {
    match point {
        ResumePointView::Generation => Seq::empty(),
        ResumePointView::ToolExecution(state) => sent_ids(state.pending_replies) + waiting_ids(
            state.tool_calls,
        ),
        ResumePointView::PendingApproval { pending_approval_calls, pending_calls, .. } => asked_ids(
            pending_approval_calls,
        ) + waiting_ids(pending_calls),
    }
}

/// Whether a thread keeps the tool-call protocol where it picks up: its history lacks the results of
/// exactly the calls that the thread knows to be open.
pub open spec fn sound(run: LoopView, point: ResumePointView) -> bool {
    keeps(run.state.messages, owed_at(point).to_multiset())
}

/// A thread between two batches keeps the protocol exactly where a provider accepts its history.
pub proof fn law_a_thread_that_generates_has_a_valid_history(run: LoopView)
    ensures
        sound(run, ResumePointView::Generation) <==> message_view::validation(
            message_view::messages_of(run.state.messages),
        ) is Ok,
{
    let none = Seq::<Seq<char>>::empty();
    none.to_multiset_ensures();
    assert(none.to_multiset() =~= Multiset::empty());
    law_a_history_that_owes_nothing_is_valid(run.state.messages);
}

proof fn lemma_nothing_owed(ids: Seq<Seq<char>>)
    requires
        ids.len() == 0,
    ensures
        ids.to_multiset() == Multiset::<Seq<char>>::empty(),
{
    ids.to_multiset_ensures();
    assert(ids.to_multiset() =~= Multiset::empty());
}

proof fn lemma_owed_together(first: Seq<Seq<char>>, second: Seq<Seq<char>>)
    ensures
        (first + second).to_multiset() == first.to_multiset().add(second.to_multiset()),
{
    vstd::seq_lib::lemma_multiset_commutative(first, second);
}

/// The reply that an envelope answers is one of those that are pending.
proof fn lemma_awaited(pending: Seq<PendingReplyView>, reply_to: Option<Seq<char>>)
    ensures
        match agent_loop::awaited_reply(pending, reply_to) {
            Some(at) => 0 <= at < pending.len() && reply_to == Some(pending[at].call_envelope_id),
            None => true,
        },
    decreases pending.len(),
{
    if pending.len() > 0 {
        lemma_awaited(pending.drop_last(), reply_to);
    }
}

/// Replies are either still coming or written off.
proof fn lemma_replies_split(
    run: LoopView,
    calls: Multiset<Seq<char>>,
    parent_message_id: MessageId,
    pending: Seq<PendingReplyView>,
)
    ensures
        sent_ids(pending).to_multiset() == sent_ids(
            agent_loop::still_coming(run, calls, parent_message_id, pending),
        ).to_multiset().add(
            recorded_ids(
                agent_loop::abandoned(run, calls, parent_message_id, pending),
            ).to_multiset(),
        ),
    decreases pending.len(),
{
    let kept = agent_loop::still_coming(run, calls, parent_message_id, pending);
    let lost = agent_loop::abandoned(run, calls, parent_message_id, pending);
    if pending.len() == 0 {
        lemma_nothing_owed(sent_ids(pending));
        lemma_nothing_owed(sent_ids(kept));
        lemma_nothing_owed(recorded_ids(lost));
        assert(sent_ids(pending).to_multiset() =~= sent_ids(kept).to_multiset().add(
            recorded_ids(lost).to_multiset(),
        ));
    } else {
        let rest = pending.drop_last();
        let id = pending.last().call_id;
        lemma_replies_split(run, calls, parent_message_id, rest);
        let kept_before = agent_loop::still_coming(run, calls, parent_message_id, rest);
        let lost_before = agent_loop::abandoned(run, calls, parent_message_id, rest);
        sent_ids(rest).to_multiset_ensures();
        sent_ids(kept_before).to_multiset_ensures();
        recorded_ids(lost_before).to_multiset_ensures();
        assert(sent_ids(pending) =~= sent_ids(rest).push(id));
        if agent_loop::being_answered(run, calls, parent_message_id, pending.last()) {
            assert(sent_ids(kept) =~= sent_ids(kept_before).push(id));
        } else {
            assert(recorded_ids(lost) =~= recorded_ids(lost_before).push(id));
        }
        assert(sent_ids(pending).to_multiset() =~= sent_ids(kept).to_multiset().add(
            recorded_ids(lost).to_multiset(),
        ));
    }
}

/// Calls that are decided on either run or have their result.
proof fn lemma_decided_split(
    calls: Seq<ToolCallView>,
    resolutions: Seq<(Seq<char>, ToolCallResolutionView)>,
)
    ensures
        asked_ids(calls).to_multiset() == waiting_ids(
            agent_loop::approved_calls(calls, resolutions),
        ).to_multiset().add(
            recorded_ids(agent_loop::settled_calls(calls, resolutions)).to_multiset(),
        ),
    decreases calls.len(),
{
    let approved = agent_loop::approved_calls(calls, resolutions);
    let settled = agent_loop::settled_calls(calls, resolutions);
    if calls.len() == 0 {
        lemma_nothing_owed(asked_ids(calls));
        lemma_nothing_owed(waiting_ids(approved));
        lemma_nothing_owed(recorded_ids(settled));
        assert(asked_ids(calls).to_multiset() =~= waiting_ids(approved).to_multiset().add(
            recorded_ids(settled).to_multiset(),
        ));
    } else {
        let rest = calls.drop_last();
        let id = calls.last().id;
        lemma_decided_split(rest, resolutions);
        let approved_before = agent_loop::approved_calls(rest, resolutions);
        let settled_before = agent_loop::settled_calls(rest, resolutions);
        asked_ids(rest).to_multiset_ensures();
        waiting_ids(approved_before).to_multiset_ensures();
        recorded_ids(settled_before).to_multiset_ensures();
        assert(asked_ids(calls) =~= asked_ids(rest).push(id));
        match agent_loop::resolution_of(resolutions, id) {
            ToolCallResolutionView::Execute => {
                assert(waiting_ids(approved) =~= waiting_ids(approved_before).push(id));
            },
            _ => {
                assert(recorded_ids(settled) =~= recorded_ids(settled_before).push(id));
            },
        }
        assert(asked_ids(calls).to_multiset() =~= waiting_ids(approved).to_multiset().add(
            recorded_ids(settled).to_multiset(),
        ));
    }
}

/// Taking up work keeps the protocol of a thread that owes nothing.
proof fn lemma_taken_up(before: LoopView, after: LoopView, envelope: EnvelopeView)
    requires
        agent_loop::took_up(before, after, envelope),
        keeps(before.state.messages, Multiset::empty()),
    ensures
        sound(after, ResumePointView::Generation),
{
    let (turn, user) = choose|turn: TurnId, user: UserMessageView| #[trigger]
        agent_loop::opens(envelope.body, turn, user) && after == (LoopView {
            state: before.state.appended(turn, MessageView::User(user)),
            reply_target: agent_loop::reply_target_of(envelope),
            ..before
        });
    lemma_said(before.state.messages, turn, MessageView::User(user));
    lemma_nothing_owed(owed_at(ResumePointView::Generation));
}

/// Whether a thread is in the middle of starting a batch: calls of it are yet to run.
pub open spec fn mid_batch(point: ResumePointView) -> bool {
    match point {
        ResumePointView::ToolExecution(state) => state.tool_calls.len() > 0,
        _ => false,
    }
}

/// An envelope keeps the protocol: a thread that takes one, refuses one or has no use for one still owes
/// results to exactly the calls that lack one. This is so of every thread but one that was stopped in
/// the middle of starting a batch, which goes on without an envelope.
pub proof fn law_an_envelope_keeps_the_protocol(
    before: LoopView,
    calls: Multiset<Seq<char>>,
    point: ResumePointView,
    envelope: EnvelopeView,
    after: LoopView,
    calls_after: Multiset<Seq<char>>,
    outcome: EnvelopeOutcomeView,
)
    requires
        agent_loop::envelope_handled(
            before,
            calls,
            point,
            envelope,
            after,
            calls_after,
            outcome,
        ),
        sound(before, point),
        !mid_batch(point),
    ensures
        match outcome {
            EnvelopeOutcomeView::Next(next) => sound(after, next),
            EnvelopeOutcomeView::Done(next, _) => sound(after, next),
            EnvelopeOutcomeView::Deferred { resume_point, .. } => sound(after, resume_point),
        },
{
    let run = agent_loop::placed(before, envelope);
    assert(run.state == before.state);
    match point {
        ResumePointView::Generation => {
            lemma_nothing_owed(owed_at(point));
            if agent_loop::opens_work(envelope.body) {
                lemma_taken_up(run, after, envelope);
            }
        },
        ResumePointView::ToolExecution(state) => {
            assert(owed_at(point) =~= sent_ids(state.pending_replies));
            if state.pending_replies.len() == 0 {
                lemma_nothing_owed(owed_at(point));
                lemma_nothing_owed(owed_at(ResumePointView::Generation));
            } else {
                lemma_waiting_batch(run, calls, state, envelope, after, calls_after, outcome);
            }
        },
        ResumePointView::PendingApproval {
            parent_message_id,
            pending_approval_calls,
            pending_calls,
        } => {
            match envelope.body {
                EnvelopeBodyView::Resume(decision) => {
                    if decision.parent_message_id == parent_message_id {
                        lemma_decided(
                            run,
                            pending_approval_calls,
                            pending_calls,
                            decision.resolutions,
                            after,
                        );
                        let next = ToolExecutionStateView {
                            parent_message_id,
                            pending_replies: Seq::empty(),
                            tool_calls: pending_calls + agent_loop::approved_calls(
                                pending_approval_calls,
                                decision.resolutions,
                            ),
                        };
                        assert(owed_at(ResumePointView::ToolExecution(next)) =~= waiting_ids(
                            next.tool_calls,
                        ));
                    }
                },
                _ => {},
            }
        },
    }
}

proof fn lemma_waiting_batch(
    run: LoopView,
    calls: Multiset<Seq<char>>,
    state: ToolExecutionStateView,
    envelope: EnvelopeView,
    after: LoopView,
    calls_after: Multiset<Seq<char>>,
    outcome: EnvelopeOutcomeView,
)
    requires
        agent_loop::waiting_batch_handled(
            run,
            calls,
            state,
            envelope,
            after,
            calls_after,
            outcome,
        ),
        keeps(run.state.messages, sent_ids(state.pending_replies).to_multiset()),
        state.tool_calls.len() == 0,
    ensures
        match outcome {
            EnvelopeOutcomeView::Next(next) => sound(after, next),
            EnvelopeOutcomeView::Done(next, _) => sound(after, next),
            EnvelopeOutcomeView::Deferred { resume_point, .. } => sound(after, resume_point),
        },
{
    let ids = sent_ids(state.pending_replies);
    let owed = ids.to_multiset();
    assert(owed_at(ResumePointView::ToolExecution(state)) =~= ids);
    match envelope.body {
        EnvelopeBodyView::Reply { output, aborted, .. } => {
            lemma_awaited(state.pending_replies, envelope.reply_to);
            match agent_loop::awaited_reply(state.pending_replies, envelope.reply_to) {
                Some(at) => {
                    let record = agent_loop::reply_record(
                        state.pending_replies[at],
                        output,
                        aborted,
                    );
                    let next = ToolExecutionStateView {
                        pending_replies: state.pending_replies.remove(at),
                        ..state
                    };
                    let left = sent_ids(next.pending_replies);
                    let settled = recorded_ids(seq![record]);
                    ids.to_multiset_ensures();
                    assert(left =~= ids.remove(at));
                    assert(left.to_multiset() =~= owed.remove(ids[at]));
                    let none = Seq::<Seq<char>>::empty();
                    none.to_multiset_ensures();
                    lemma_nothing_owed(none);
                    assert(settled =~= none.push(ids[at]));
                    assert(settled.to_multiset() =~= Multiset::<Seq<char>>::empty().insert(ids[at]));
                    assert(ids.contains(ids[at]));
                    assert(settled.to_multiset().subset_of(owed));
                    lemma_recorded(run, after, seq![record], owed);
                    assert(owed.sub(settled.to_multiset()) =~= left.to_multiset());
                    assert(owed_at(ResumePointView::ToolExecution(next)) =~= left);
                    if next.pending_replies.len() == 0 {
                        lemma_nothing_owed(left);
                        lemma_nothing_owed(owed_at(ResumePointView::Generation));
                    }
                },
                None => {},
            }
        },
        EnvelopeBodyView::Resume(_) => {},
        _ => {
            let kept = agent_loop::still_coming(
                run,
                calls,
                state.parent_message_id,
                state.pending_replies,
            );
            let lost = agent_loop::abandoned(
                run,
                calls,
                state.parent_message_id,
                state.pending_replies,
            );
            lemma_replies_split(run, calls, state.parent_message_id, state.pending_replies);
            assert(owed.sub(recorded_ids(lost).to_multiset()) =~= sent_ids(kept).to_multiset());
            if kept.len() > 0 {
                lemma_recorded(run, after, lost, owed);
                let next = ToolExecutionStateView { pending_replies: kept, ..state };
                assert(owed_at(ResumePointView::ToolExecution(next)) =~= sent_ids(kept));
            } else {
                let between = choose|between: LoopView| #[trigger]
                    agent_loop::recorded(run, between, lost) && agent_loop::took_up(
                        between,
                        after,
                        envelope,
                    );
                lemma_recorded(run, between, lost, owed);
                lemma_nothing_owed(sent_ids(kept));
                lemma_taken_up(between, after, envelope);
            }
        },
    }
}

proof fn lemma_decided(
    run: LoopView,
    asked: Seq<ToolCallView>,
    waiting: Seq<PendingToolCallView>,
    resolutions: Seq<(Seq<char>, ToolCallResolutionView)>,
    after: LoopView,
)
    requires
        keeps(run.state.messages, (asked_ids(asked) + waiting_ids(waiting)).to_multiset()),
        agent_loop::recorded(run, after, agent_loop::settled_calls(asked, resolutions)),
    ensures
        keeps(
            after.state.messages,
            waiting_ids(waiting + agent_loop::approved_calls(asked, resolutions)).to_multiset(),
        ),
{
    let approved = agent_loop::approved_calls(asked, resolutions);
    let settled = agent_loop::settled_calls(asked, resolutions);
    let owed = (asked_ids(asked) + waiting_ids(waiting)).to_multiset();
    lemma_decided_split(asked, resolutions);
    lemma_owed_together(asked_ids(asked), waiting_ids(waiting));
    lemma_owed_together(waiting_ids(waiting), waiting_ids(approved));
    lemma_recorded(run, after, settled, owed);
    assert(waiting_ids(waiting + approved) =~= waiting_ids(waiting) + waiting_ids(approved));
    assert(owed.sub(recorded_ids(settled).to_multiset()) =~= waiting_ids(
        waiting + approved,
    ).to_multiset());
}

/// A wind-up keeps the protocol: where it ended, every call has its result, and a provider accepts the
/// history; where it waits, only the answers of sub-agents are missing.
pub proof fn law_a_wind_up_keeps_the_protocol(
    before: LoopView,
    point: ResumePointView,
    after: LoopView,
    res: WindUpView,
)
    requires
        agent_loop::wound_up(before, point, after, res),
        sound(before, point),
    ensures
        match res {
            WindUpView::Waiting(next) => sound(after, next) && !mid_batch(next),
            WindUpView::Ended(_) => sound(after, ResumePointView::Generation),
        },
{
    let owed = owed_at(point).to_multiset();
    let records = agent_loop::unfinished(point);
    let settled = recorded_ids(records);
    lemma_nothing_owed(owed_at(ResumePointView::Generation));
    match point {
        ResumePointView::Generation => {
            lemma_nothing_owed(owed_at(point));
            lemma_nothing_owed(settled);
        },
        ResumePointView::ToolExecution(state) => {
            assert(settled =~= waiting_ids(state.tool_calls));
            lemma_owed_together(sent_ids(state.pending_replies), settled);
            let next = ToolExecutionStateView { tool_calls: Seq::empty(), ..state };
            assert(owed_at(ResumePointView::ToolExecution(next)) =~= sent_ids(
                state.pending_replies,
            ));
            assert(owed.sub(settled.to_multiset()) =~= sent_ids(
                state.pending_replies,
            ).to_multiset());
            if state.pending_replies.len() == 0 {
                lemma_nothing_owed(sent_ids(state.pending_replies));
            }
        },
        ResumePointView::PendingApproval { pending_approval_calls, pending_calls, .. } => {
            assert(settled =~= owed_at(point));
            assert(owed.sub(settled.to_multiset()) =~= Multiset::empty());
        },
    }
    assert(settled.to_multiset().subset_of(owed));
    match res {
        WindUpView::Waiting(_) => {
            lemma_recorded(before, after, records, owed);
        },
        WindUpView::Ended(_) => {
            let between = choose|between: LoopView| #[trigger]
                agent_loop::recorded(before, between, records) && after == (LoopView {
                    reply_target: None,
                    ..between
                });
            lemma_recorded(before, between, records, owed);
        },
    }
}

/// Calls are split by their flags, and none is lost or added.
proof fn lemma_flags_split(calls: Seq<ToolCallView>, flags: Seq<bool>)
    ensures
        asked_ids(calls).to_multiset() == asked_ids(
            generation::flagged(calls, flags, true),
        ).to_multiset().add(asked_ids(generation::flagged(calls, flags, false)).to_multiset()),
    decreases calls.len(),
{
    let flagged = generation::flagged(calls, flags, true);
    let others = generation::flagged(calls, flags, false);
    if calls.len() == 0 {
        lemma_nothing_owed(asked_ids(calls));
        lemma_nothing_owed(asked_ids(flagged));
        lemma_nothing_owed(asked_ids(others));
    } else {
        let rest = calls.drop_last();
        let id = calls.last().id;
        lemma_flags_split(rest, flags);
        let flagged_before = generation::flagged(rest, flags, true);
        let others_before = generation::flagged(rest, flags, false);
        asked_ids(rest).to_multiset_ensures();
        asked_ids(flagged_before).to_multiset_ensures();
        asked_ids(others_before).to_multiset_ensures();
        assert(asked_ids(calls) =~= asked_ids(rest).push(id));
        if flags[calls.len() - 1] {
            assert(asked_ids(flagged) =~= asked_ids(flagged_before).push(id));
        } else {
            assert(asked_ids(others) =~= asked_ids(others_before).push(id));
        }
    }
    assert(asked_ids(calls).to_multiset() =~= asked_ids(flagged).to_multiset().add(
        asked_ids(others).to_multiset(),
    ));
}

/// A call to the model keeps the protocol: an answer without calls may follow what owes nothing, and the
/// calls of an answer are owed from then on, whether they wait for an approval or run. This is so of
/// every answer that names each of its calls differently.
pub proof fn law_a_generation_keeps_the_protocol(
    before: LoopView,
    progress: GenerationProgressView,
    outcome: GenerationOutcomeView,
    ended_at: Timestamp,
    flags: Seq<bool>,
    after: LoopView,
    step: LoopStepView,
)
    requires
        generation::generation_finished(
            before,
            progress,
            outcome,
            ended_at,
            flags,
            after,
            step,
        ),
        sound(before, ResumePointView::Generation),
        outcome matches GenerationOutcomeView::Completed(message) ==> message_view::call_ids(
            message,
        ).no_duplicates(),
    ensures
        match step {
            LoopStepView::Next(next) => sound(after, next),
            LoopStepView::Done(next, _) => sound(after, next),
        },
{
    lemma_nothing_owed(owed_at(ResumePointView::Generation));
    match outcome {
        GenerationOutcomeView::Completed(message) => {
            let answer = generation::timed_answer(message, progress, ended_at);
            if answer.tool_calls.len() == 0 {
                let between = choose|between: LoopView| #[trigger]
                    generation::answered(before, between, answer) && after == (LoopView {
                        reply_target: None,
                        ..between
                    });
                lemma_answered(before, between, answer);
            } else {
                let between = choose|between: LoopView| #[trigger]
                    generation::answered(before, between, answer) && after == between.announcing(
                        AgentEventView::LLMEnd(answer),
                    );
                lemma_answered(before, between, answer);
                let calls = answer.tool_calls;
                let approvals = generation::flagged(calls, flags, true);
                let others = generation::flagged(calls, flags, false);
                let point = generation::batch_point(answer.message_id, calls, flags);
                lemma_flags_split(calls, flags);
                assert(message_view::call_ids(answer) =~= asked_ids(calls));
                assert(waiting_ids(generation::automatic(others)) =~= asked_ids(others));
                if approvals.len() == 0 {
                    lemma_nothing_owed(asked_ids(approvals));
                    assert(owed_at(point) =~= asked_ids(others));
                } else {
                    assert(owed_at(point) =~= asked_ids(approvals) + asked_ids(others));
                    lemma_owed_together(asked_ids(approvals), asked_ids(others));
                }
                assert(owed_at(point).to_multiset() =~= asked_ids(calls).to_multiset());
            }
        },
        _ => {},
    }
}

/// What a kept answer leaves owed: its calls.
proof fn lemma_answered(before: LoopView, after: LoopView, answer: AssistantMessageView)
    requires
        generation::answered(before, after, answer),
        keeps(before.state.messages, Multiset::empty()),
        message_view::call_ids(answer).no_duplicates(),
    ensures
        keeps(after.state.messages, message_view::call_ids(answer).to_multiset()),
{
    let turn = choose|turn: TurnId|
        before.state.stamps(turn) && after == (LoopView {
            state: #[trigger] before.state.appended(turn, MessageView::Assistant(answer)),
            ..before
        });
    if answer.tool_calls.len() == 0 {
        lemma_said(before.state.messages, turn, MessageView::Assistant(answer));
        lemma_nothing_owed(message_view::call_ids(answer));
    } else {
        lemma_asked(before.state.messages, turn, answer);
    }
}

/// A compaction keeps the protocol: its record, of a summary or of a failure, follows a history that owes
/// nothing.
pub proof fn law_a_compaction_keeps_the_protocol(
    before: LoopView,
    after: LoopView,
    covered: MessageId,
    summary: Result<Seq<char>, Seq<char>>,
)
    requires
        auto_compact::compacted(before, after, covered, summary),
        sound(before, ResumePointView::Generation),
    ensures
        sound(after, ResumePointView::Generation),
{
    let (turn, record) = choose|turn: TurnId, record: CompactionMessageView|
        before.state.stamps(turn) && auto_compact::is_attempt(record, covered, summary) && after == (
        LoopView {
            state: #[trigger] before.state.appended(turn, MessageView::Compaction(record)),
            ..before
        }).announcing(AgentEventView::CompactionEnd(record));
    lemma_nothing_owed(owed_at(ResumePointView::Generation));
    lemma_said(before.state.messages, turn, MessageView::Compaction(record));
}

/// What is kept of a stopped stream keeps the protocol: it asks for no calls.
pub proof fn law_a_partial_answer_keeps_the_protocol(
    before: LoopView,
    progress: GenerationProgressView,
    message_id: MessageId,
    now: Timestamp,
    answer: AssistantMessageView,
    after: LoopView,
)
    requires
        sound(before, ResumePointView::Generation),
        generation::partial_answer(progress, message_id, now) == Some(answer),
        generation::answered(before, after, answer),
    ensures
        sound(after, ResumePointView::Generation),
{
    lemma_nothing_owed(owed_at(ResumePointView::Generation));
    lemma_answered(before, after, answer);
    lemma_nothing_owed(message_view::call_ids(answer));
}

/// The local calls that run, once each.
pub open spec fn running_ids(running: Map<Seq<char>, RunningCallView>) -> Seq<Seq<char>> {
    text::in_order(running.dom())
}

/// The calls that a batch still owes a result: those that sub-agents answer, those that run here, those
/// that were not started yet, and those in hand, whose sending is under way.
pub open spec fn owed_in(batch: ToolRunView, in_hand: Seq<Seq<char>>) -> Seq<Seq<char>> {
    sent_ids(batch.pending_replies) + running_ids(batch.running) + waiting_ids(
        batch.calls.skip(batch.next),
    ) + in_hand
}

/// Whether a thread keeps the tool-call protocol while it runs a batch.
pub open spec fn batch_sound(run: LoopView, batch: ToolRunView, in_hand: Seq<Seq<char>>) -> bool {
    &&& 0 <= batch.next <= batch.calls.len()
    &&& batch.running.dom().finite()
    &&& keeps(run.state.messages, owed_in(batch, in_hand).to_multiset())
}

proof fn lemma_owed_in(batch: ToolRunView, in_hand: Seq<Seq<char>>)
    ensures
        owed_in(batch, in_hand).to_multiset() == sent_ids(batch.pending_replies).to_multiset().add(
            running_ids(batch.running).to_multiset(),
        ).add(waiting_ids(batch.calls.skip(batch.next)).to_multiset()).add(in_hand.to_multiset()),
{
    let sent = sent_ids(batch.pending_replies);
    let running = running_ids(batch.running);
    let waiting = waiting_ids(batch.calls.skip(batch.next));
    lemma_owed_together(sent, running);
    lemma_owed_together(sent + running, waiting);
    lemma_owed_together(sent + running + waiting, in_hand);
}

proof fn lemma_one(id: Seq<char>)
    ensures
        seq![id].to_multiset() == Multiset::<Seq<char>>::empty().insert(id),
{
    let none = Seq::<Seq<char>>::empty();
    lemma_nothing_owed(none);
    none.to_multiset_ensures();
    assert(seq![id] =~= none.push(id));
}

proof fn lemma_running(running: Map<Seq<char>, RunningCallView>, id: Seq<char>)
    requires
        running.dom().finite(),
    ensures
        running_ids(running).to_multiset().count(id) == (if running.contains_key(id) {
            1nat
        } else {
            0nat
        }),
{
    let ids = running_ids(running);
    text::lemma_in_order(running.dom());
    ids.to_multiset_ensures();
    ids.lemma_multiset_has_no_duplicates();
    assert(ids.contains(id) == ids.to_set().contains(id));
    assert(ids.contains(id) <==> ids.to_multiset().count(id) > 0);
    assert(ids.to_multiset().contains(id) ==> ids.to_multiset().count(id) == 1);
}

/// Nothing is owed two results.
proof fn lemma_owed_once(history: Seq<HistoryEntryView>, owed: Multiset<Seq<char>>, id: Seq<char>)
    requires
        keeps(history, owed),
    ensures
        owed.count(id) <= 1,
{
}

/// A batch begins with the calls that the thread owes.
pub proof fn law_a_batch_begins_with_what_is_owed(run: LoopView, state: ToolExecutionStateView)
    requires
        sound(run, ResumePointView::ToolExecution(state)),
    ensures
        batch_sound(run, tools::begun_batch(run, state), Seq::empty()),
{
    let batch = tools::begun_batch(run, state);
    text::lemma_in_order(batch.running.dom());
    assert(running_ids(batch.running) =~= Seq::empty()) by {
        let ids = running_ids(batch.running);
        if ids.len() > 0 {
            assert(ids.to_set().contains(ids[0]));
        }
    }
    assert(batch.calls.skip(0) =~= batch.calls);
    assert(owed_in(batch, Seq::empty()) =~= owed_at(ResumePointView::ToolExecution(state)));
}

/// Starting a call keeps the protocol: it has failed and has its result, it runs, or it is in hand until
/// it is known whether it could be sent.
pub proof fn law_a_started_call_keeps_the_protocol(
    before: LoopView,
    batch: ToolRunView,
    local: bool,
    envelope_id: Seq<char>,
    now: Timestamp,
    after: LoopView,
    batch_after: ToolRunView,
    action: ToolAction,
)
    requires
        0 <= batch.next < batch.calls.len(),
        tools::call_started(before, batch, local, envelope_id, now, after, batch_after, action),
        batch_sound(before, batch, Seq::empty()),
    ensures
        batch_sound(
            after,
            batch_after,
            match action {
                ToolAction::Send { call, .. } => seq![call@.tool_call.id],
                _ => Seq::empty(),
            },
        ),
{
    let none = Seq::<Seq<char>>::empty();
    let call = batch.calls[batch.next];
    let id = call.tool_call.id;
    let waiting = batch.calls.skip(batch.next);
    let rest = batch.calls.skip(batch.next + 1);
    let owed = owed_in(batch, none).to_multiset();
    lemma_nothing_owed(none);
    lemma_one(id);
    lemma_owed_in(batch, none);
    waiting_ids(rest).to_multiset_ensures();
    assert(waiting_ids(waiting) =~= seq![id] + waiting_ids(rest));
    lemma_owed_together(seq![id], waiting_ids(rest));
    match action {
        ToolAction::Send { call: sent, .. } => {
            lemma_owed_in(batch_after, seq![id]);
            assert(owed_in(batch_after, seq![id]).to_multiset() =~= owed);
        },
        ToolAction::Execute { .. } => {
            lemma_owed_in(batch_after, none);
            lemma_owed_once(before.state.messages, owed, id);
            lemma_running(batch.running, id);
            assert forall|other: Seq<char>| #[trigger]
                owed_in(batch_after, none).to_multiset().count(other) == owed.count(other) by {
                lemma_running(batch.running, other);
                lemma_running(batch_after.running, other);
            }
            assert(owed_in(batch_after, none).to_multiset() =~= owed);
        },
        ToolAction::Recorded => {
            let reason = if subagents::found(before.subagents, call.tool_call.name) is Some {
                tools::concurrency_refusal(call.tool_call.name)
            } else {
                tools::unknown_tool(call.tool_call.name)
            };
            let records = seq![tools::failed_call(call, reason)];
            assert(recorded_ids(records) =~= seq![id]);
            lemma_recorded(before, after, records, owed);
            lemma_owed_in(batch_after, none);
            assert(owed_in(batch_after, none).to_multiset() =~= owed.sub(
                recorded_ids(records).to_multiset(),
            ));
        },
        ToolAction::Started => {},
    }
}

/// Sending a call keeps the protocol: its sub-agent owes the answer, or the call has failed and has its
/// result.
pub proof fn law_a_sent_call_keeps_the_protocol(
    before: LoopView,
    batch: ToolRunView,
    call: PendingToolCallView,
    envelope_id: Seq<char>,
    sent: Result<(), SendCommandError>,
    now: Timestamp,
    after: LoopView,
    batch_after: ToolRunView,
)
    requires
        tools::call_sent(before, batch, call, envelope_id, sent, now, after, batch_after),
        batch_sound(before, batch, seq![call.tool_call.id]),
    ensures
        batch_sound(after, batch_after, Seq::empty()),
{
    let none = Seq::<Seq<char>>::empty();
    let id = call.tool_call.id;
    let owed = owed_in(batch, seq![id]).to_multiset();
    lemma_nothing_owed(none);
    lemma_one(id);
    lemma_owed_in(batch, seq![id]);
    lemma_owed_in(batch_after, none);
    match sent {
        Ok(()) => {
            let pending = sent_ids(batch.pending_replies);
            pending.to_multiset_ensures();
            assert(sent_ids(batch_after.pending_replies) =~= pending.push(id));
            assert(owed_in(batch_after, none).to_multiset() =~= owed);
        },
        Err(error) => {
            let records = seq![
                tools::failed_call(call, tools::dispatch_failure(call.tool_call.name, error)),
            ];
            assert(recorded_ids(records) =~= seq![id]);
            lemma_recorded(before, after, records, owed);
            assert(owed_in(batch_after, none).to_multiset() =~= owed.sub(
                recorded_ids(records).to_multiset(),
            ));
        },
    }
}

/// A local call that settles keeps the protocol: it has its result and no longer runs.
pub proof fn law_a_settled_call_keeps_the_protocol(
    before: LoopView,
    batch: ToolRunView,
    record: ToolRecord,
    after: LoopView,
    batch_after: ToolRunView,
)
    requires
        tools::call_settled(before, batch, record, after, batch_after),
        batch.running.contains_key(record.id),
        batch_sound(before, batch, Seq::empty()),
    ensures
        batch_sound(after, batch_after, Seq::empty()),
{
    let none = Seq::<Seq<char>>::empty();
    let owed = owed_in(batch, none).to_multiset();
    lemma_nothing_owed(none);
    lemma_one(record.id);
    lemma_owed_in(batch, none);
    lemma_owed_in(batch_after, none);
    lemma_running(batch.running, record.id);
    assert(recorded_ids(seq![record]) =~= seq![record.id]);
    lemma_recorded(before, after, seq![record], owed);
    let left = owed.sub(recorded_ids(seq![record]).to_multiset());
    assert forall|other: Seq<char>| #[trigger]
        owed_in(batch_after, none).to_multiset().count(other) == left.count(other) by {
        lemma_running(batch.running, other);
        lemma_running(batch_after.running, other);
    }
    assert(owed_in(batch_after, none).to_multiset() =~= left);
}

/// A batch of which everything was started and nothing runs any more leaves the thread owing the answers
/// of sub-agents and nothing else.
pub proof fn law_a_finished_batch_keeps_the_protocol(run: LoopView, batch: ToolRunView)
    requires
        batch_sound(run, batch, Seq::empty()),
        batch.next == batch.calls.len(),
        batch.running.dom() == Set::<Seq<char>>::empty(),
    ensures
        sound(run, tools::after_batch(batch)),
        !mid_batch(tools::after_batch(batch)),
{
    let sent = sent_ids(batch.pending_replies);
    text::lemma_in_order(batch.running.dom());
    assert(running_ids(batch.running) =~= Seq::empty()) by {
        let ids = running_ids(batch.running);
        if ids.len() > 0 {
            assert(ids.to_set().contains(ids[0]));
        }
    }
    assert(owed_in(batch, Seq::empty()) =~= sent);
    if batch.pending_replies.len() > 0 {
        assert(owed_at(tools::awaiting_answers(batch)) =~= sent);
    } else {
        lemma_nothing_owed(sent);
        lemma_nothing_owed(owed_at(ResumePointView::Generation));
    }
}

/// An aborted batch keeps the protocol: the calls that still ran have a result, and only the answers of
/// sub-agents are owed.
pub proof fn law_an_aborted_batch_keeps_the_protocol(
    before: LoopView,
    batch: ToolRunView,
    caught: Seq<Seq<char>>,
    after: LoopView,
    step: LoopStepView,
)
    requires
        tools::abort_finished(before, batch, caught, after, step),
        batch_sound(before, batch, Seq::empty()),
        batch.next == batch.calls.len(),
    ensures
        match step {
            LoopStepView::Next(next) => sound(after, next) && !mid_batch(next),
            LoopStepView::Done(next, _) => sound(after, next),
        },
{
    let none = Seq::<Seq<char>>::empty();
    let sent = sent_ids(batch.pending_replies);
    let running = running_ids(batch.running);
    let records = tools::dropped_calls(batch.running, running);
    let owed = owed_in(batch, none).to_multiset();
    assert(recorded_ids(records) =~= running);
    assert(owed_in(batch, none) =~= sent + running);
    lemma_owed_together(sent, running);
    assert(owed.sub(running.to_multiset()) =~= sent.to_multiset());
    if batch.pending_replies.len() > 0 {
        lemma_recorded(before, after, records, owed);
        assert(owed_at(tools::awaiting_answers(batch)) =~= sent);
    } else {
        let between = choose|between: LoopView| #[trigger]
            agent_loop::recorded(before, between, records) && after == (LoopView {
                reply_target: None,
                ..between
            });
        lemma_recorded(before, between, records, owed);
        lemma_nothing_owed(sent);
        lemma_nothing_owed(owed_at(ResumePointView::Generation));
    }
}

/// A thread that is entered again keeps the protocol if it kept it when it was stored.
pub proof fn law_a_stored_thread_keeps_the_protocol(
    run: LoopView,
    entering: LoopView,
    point: ResumePointView,
    suspended_at: Timestamp,
    execution: Option<StoredExecutionView>,
    owed: TurnEndView,
)
    requires
        sound(run, point),
    ensures
        ({
            let stored: StoredCheckpointView = agent_loop::checkpoint_of(
                run,
                point,
                suspended_at,
                execution,
                owed,
            );
            sound(
                agent_loop::entered(entering, Some(stored)),
                persist::restored_resume_point(stored.resume_point),
            )
        }),
{
    agent_loop::law_a_stored_thread_is_restored(
        run,
        entering,
        point,
        suspended_at,
        execution,
        owed,
    );
}

/// A turn starts with the protocol kept: whether the run proceeds or is over before it began, the thread
/// owes results to exactly the calls that lack one.
pub proof fn law_a_turn_starts_with_the_protocol_kept(
    entered: LoopView,
    calls: Multiset<Seq<char>>,
    point: ResumePointView,
    suspended_at: Timestamp,
    envelope: Option<EnvelopeView>,
    after: LoopView,
    calls_after: Multiset<Seq<char>>,
    start: TurnStartView,
)
    requires
        turn_run::turn_started(
            entered,
            calls,
            point,
            suspended_at,
            envelope,
            after,
            calls_after,
            start,
        ),
        sound(entered, point),
        envelope is Some ==> !mid_batch(point),
    ensures
        match start {
            TurnStartView::Proceed { resume_point, .. } => sound(after, resume_point),
            TurnStartView::Stop { finish, .. } => sound(after, finish.resume_point),
        },
{
    match envelope {
        None => {},
        Some(envelope) => {
            let (taken, outcome) = choose|taken: LoopView, outcome: EnvelopeOutcomeView| #[trigger]
                agent_loop::envelope_handled(
                    entered,
                    calls,
                    point,
                    envelope,
                    taken,
                    calls_after,
                    outcome,
                ) && match outcome {
                    EnvelopeOutcomeView::Next(next) => {
                        &&& after == turn_run::refreshed(taken)
                        &&& start == (TurnStartView::Proceed {
                            resume_point: next,
                            suspended_at,
                            save_first: envelope.body is Task,
                        })
                    },
                    EnvelopeOutcomeView::Done(next, owed) => {
                        &&& after == taken
                        &&& start == (TurnStartView::Stop {
                            finish: turn_run::finish_at(next, suspended_at, owed),
                            deferred: None,
                            awaiting: None,
                            cancel: None,
                        })
                    },
                    EnvelopeOutcomeView::Deferred { envelope: held, resume_point, cancel } =>
                        exists|res: WindUpView| #[trigger]
                        agent_loop::wound_up(taken, resume_point, after, res) && start == (
                        TurnStartView::Stop {
                            finish: turn_run::finish_after_wind_up(res, suspended_at),
                            deferred: Some(held),
                            awaiting: if res is Waiting {
                                Some(taken.turn)
                            } else {
                                None
                            },
                            cancel,
                        }),
                };
            law_an_envelope_keeps_the_protocol(
                entered,
                calls,
                point,
                envelope,
                taken,
                calls_after,
                outcome,
            );
            match outcome {
                EnvelopeOutcomeView::Deferred { envelope: held, resume_point, cancel } => {
                    let res = choose|res: WindUpView| #[trigger]
                        agent_loop::wound_up(taken, resume_point, after, res) && start == (
                        TurnStartView::Stop {
                            finish: turn_run::finish_after_wind_up(res, suspended_at),
                            deferred: Some(held),
                            awaiting: if res is Waiting {
                                Some(taken.turn)
                            } else {
                                None
                            },
                            cancel,
                        });
                    law_a_wind_up_keeps_the_protocol(taken, resume_point, after, res);
                },
                _ => {},
            }
        },
    }
}

/// Choosing the next step keeps the protocol; the model is only ever called with a history that a provider
/// accepts.
pub proof fn law_a_step_keeps_the_protocol(
    before: LoopView,
    point: ResumePointView,
    suspended_at: Timestamp,
    exiting: bool,
    cancelled: bool,
    task_id: Option<Seq<char>>,
    after: LoopView,
    step: TurnStepView,
)
    requires
        turn_run::step_chosen(
            before,
            point,
            suspended_at,
            exiting,
            cancelled,
            task_id,
            after,
            step,
        ),
        sound(before, point),
    ensures
        match step {
            TurnStepView::Generate => sound(after, ResumePointView::Generation)
                && message_view::validation(
                message_view::messages_of(after.state.messages),
            ) is Ok,
            TurnStepView::Execute(state) => sound(after, ResumePointView::ToolExecution(state)),
            TurnStepView::Finish(finish) => sound(after, finish.resume_point),
        },
{
    law_a_thread_that_generates_has_a_valid_history(after);
    if !exiting && cancelled {
        let res = choose|res: WindUpView| #[trigger]
            agent_loop::wound_up(before, point, after, res) && step == TurnStepView::Finish(
                turn_run::finish_after_wind_up(res, suspended_at),
            );
        law_a_wind_up_keeps_the_protocol(before, point, after, res);
    }
}

/// The calls that a history leaves without a result.
pub open spec fn unanswered_ids(pending: Seq<UnansweredCall>) -> Seq<Seq<char>> {
    pending.map_values(|unanswered: UnansweredCall| unanswered.call.id)
}

/// Only the messages of a history matter to the protocol.
proof fn lemma_same_messages(
    first: Seq<HistoryEntryView>,
    second: Seq<HistoryEntryView>,
    owed: Multiset<Seq<char>>,
)
    requires
        message_view::messages_of(first) == message_view::messages_of(second),
        keeps(first, owed),
    ensures
        keeps(second, owed),
{
}

proof fn lemma_answers_first(pending: Seq<UnansweredCall>, id: Seq<char>)
    ensures
        match execution::first_unanswered(pending, id) {
            Some(at) => 0 <= at < pending.len() && pending[at].call.id == id,
            None => !unanswered_ids(pending).contains(id),
        },
    decreases pending.len(),
{
    let ids = unanswered_ids(pending);
    if pending.len() > 0 && pending[0].call.id != id {
        let rest = pending.drop_first();
        lemma_answers_first(rest, id);
        if ids.contains(id) {
            let k = ids.index_of(id);
            assert(unanswered_ids(rest)[k - 1] == id);
        }
    }
}

/// In a history that keeps the protocol, the calls without a result are those of the open batch.
proof fn lemma_unanswered(history: Seq<HistoryEntryView>)
    requires
        left_open(None, message_view::messages_of(history)) is Ok,
    ensures
        keeps(history, unanswered_ids(execution::unanswered(history)).to_multiset()),
    decreases history.len(),
{
    let pending = execution::unanswered(history);
    let ids = unanswered_ids(pending);
    if history.len() == 0 {
        lemma_nothing_owed(ids);
    } else {
        let rest = history.drop_last();
        let last = history.last();
        let turn = last.turn_id;
        let before = execution::unanswered(rest);
        let ids_before = unanswered_ids(before);
        let owed = ids_before.to_multiset();
        let tagged = rest.push(HistoryEntryView::of(turn, last.message));
        assert(message_view::messages_of(history).drop_last() =~= message_view::messages_of(rest));
        assert(message_view::messages_of(tagged) =~= message_view::messages_of(history));
        lemma_unanswered(rest);
        let open = left_open(None, message_view::messages_of(rest))->Ok_0;
        message_view::lemma_batch_end(open);
        ids_before.to_multiset_ensures();
        match last.message {
            MessageView::Tool(tool) => {
                assert(without_result(open, tool.id));
                assert(owed.count(tool.id) == 1);
                lemma_answers_first(before, tool.id);
                assert(ids_before.contains(tool.id));
                let at = execution::first_unanswered(before, tool.id)->0;
                assert(ids =~= ids_before.remove(at));
                lemma_result(rest, owed, turn, tool);
                lemma_same_messages(tagged, history, owed.remove(tool.id));
            },
            _ => {
                if before.len() > 0 {
                    let id = ids_before[0];
                    assert(ids_before.contains(id));
                    assert(owed.count(id) > 0);
                    assert(without_result(open, id));
                    assert(open->0.expected.contains(id));
                }
                lemma_nothing_owed(ids_before);
                match last.message {
                    MessageView::Assistant(answer) => {
                        assert(ids =~= message_view::call_ids(answer));
                        message_view::lemma_first_repeat(message_view::call_ids(answer));
                        if answer.tool_calls.len() == 0 {
                            lemma_said(rest, turn, last.message);
                            lemma_nothing_owed(ids);
                        } else {
                            lemma_asked(rest, turn, answer);
                        }
                    },
                    _ => {
                        lemma_said(rest, turn, last.message);
                    },
                }
                lemma_same_messages(tagged, history, ids.to_multiset());
            },
        }
    }
}

proof fn lemma_closing_results(
    history: Seq<HistoryEntryView>,
    results: Seq<HistoryEntryView>,
    pending: Seq<UnansweredCall>,
    reason: Seq<char>,
    n: int,
)
    requires
        keeps(history, unanswered_ids(pending).to_multiset()),
        execution::close_all(results, pending, reason),
        0 <= n <= results.len(),
    ensures
        keeps(history + results.take(n), unanswered_ids(pending.skip(n)).to_multiset()),
    decreases n,
{
    if n == 0 {
        assert(history + results.take(0) =~= history);
        assert(pending.skip(0) =~= pending);
    } else {
        lemma_closing_results(history, results, pending, reason, n - 1);
        let some = history + results.take(n - 1);
        let entry = results[n - 1];
        let ids = unanswered_ids(pending.skip(n - 1));
        assert(execution::closes(entry, pending[n - 1], reason));
        match entry.message {
            MessageView::Tool(tool) => {
                assert(ids[0] == tool.id);
                ids.to_multiset_ensures();
                assert(ids.contains(tool.id));
                lemma_result(some, ids.to_multiset(), pending[n - 1].turn_id, tool);
                assert(history + results.take(n) =~= some.push(entry));
                assert(unanswered_ids(pending.skip(n)) =~= ids.remove(0));
            },
            _ => {},
        }
    }
}

/// Closing off a thread that kept the protocol leaves it with a history that a provider accepts, ready for
/// its next turn.
pub proof fn law_a_closed_off_thread_has_a_valid_history(
    before: StoredCheckpointView,
    after: StoredCheckpointView,
    reason: Seq<char>,
    owed: Multiset<Seq<char>>,
)
    requires
        execution::closed_off(before, after, reason),
        keeps(before.messages, owed),
    ensures
        message_view::validation(message_view::messages_of(after.messages)) is Ok,
{
    let pending = execution::unanswered(before.messages);
    let results = choose|results: Seq<HistoryEntryView>| #[trigger]
        execution::close_all(results, pending, reason) && after.messages == before.messages
            + results;
    lemma_unanswered(before.messages);
    lemma_closing_results(before.messages, results, pending, reason, results.len() as int);
    assert(results.take(results.len() as int) =~= results);
    lemma_nothing_owed(unanswered_ids(pending.skip(results.len() as int)));
    law_a_history_that_owes_nothing_is_valid(after.messages);
}

}
