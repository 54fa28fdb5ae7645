//! What a thread makes of what the model answers.

use crate::agent::{
    AbortedTargetView, AgentEventView, EnvelopeBodyView, PendingToolCallView, ResumePointView,
    SenderView,
};
use crate::config::ToolApprovalMode;
use crate::ids::{MessageId, Timestamp};
use crate::llm::{
    AssistantMessageView, MessageView, ToolCallOutcomeView, ToolCallView, ToolOutputView,
};
use crate::runtime::agent_loop::{AgentLoop, LoopStep, LoopStepView, LoopView, TurnEndView};
use crate::runtime::generation::{self, GenerationOutcome, GenerationProgress, StreamItem};
use vstd::prelude::*;

verus! {

/// Whether an answer is kept as the model gave it: only the times may differ.
pub open spec fn same_answer(given: AssistantMessageView, kept: AssistantMessageView) -> bool {
    &&& kept.message_id == given.message_id
    &&& kept.content == given.content
    &&& kept.tool_calls == given.tool_calls
    &&& kept.usage == given.usage
    &&& kept.reasoning_content == given.reasoning_content
    &&& kept.reasoning_continuation == given.reasoning_continuation
    &&& kept.aborted == given.aborted
}

/// Whether this hands the caller an answer: addressed to the call, in the name of the thread that gives
/// it. Without a caller there is nobody to hand it to.
pub open spec fn answers_caller(
    run: LoopView,
    end: TurnEndView,
    output: ToolOutputView,
    aborted: bool,
) -> bool {
    match run.reply_target {
        None => end.reply is None,
        Some(caller) => end.reply matches Some(reply) && {
            &&& reply.to.name == caller.sender_name
            &&& reply.to.thread_id == caller.sender_thread_id
            &&& reply.from == (SenderView::Agent { name: run.name, thread_id: run.thread_id })
            &&& reply.reply_to == Some(caller.envelope_id)
            &&& reply.body == (EnvelopeBodyView::Reply { call_id: caller.call_id, output, aborted })
        },
    }
}

/// Whether a run has one more message and is otherwise as it was, but for the events and who is to be
/// answered.
pub open spec fn adds_message(before: LoopView, after: LoopView) -> bool {
    &&& after.state.messages.len() == before.state.messages.len() + 1
    &&& after.state.messages.drop_last() == before.state.messages
    &&& before.state.current_turn is Some ==> before.state.current_turn == Some(
        after.state.messages.last().turn_id,
    )
    &&& after.state.state == before.state.state
    &&& after.name == before.name
    &&& after.subagents == before.subagents
    &&& after.thread_id == before.thread_id
    &&& after.turn == before.turn
    &&& after.origin_thread == before.origin_thread
}

/// The calls of an answer for which the flag is `wanted`.
pub open spec fn with_flag(calls: Seq<ToolCallView>, flags: Seq<bool>, wanted: bool, k: int) -> bool {
    0 <= k < calls.len() && flags[k] == wanted
}

proof fn lemma_flagged(calls: Seq<ToolCallView>, flags: Seq<bool>, wanted: bool)
    requires
        calls.len() <= flags.len(),
    ensures
        forall|k: int| #[trigger]
            with_flag(calls, flags, wanted, k) ==> generation::flagged(
                calls,
                flags,
                wanted,
            ).contains(calls[k]),
        generation::flagged(calls, flags, wanted).len() + generation::flagged(
            calls,
            flags,
            !wanted,
        ).len() == calls.len(),
        forall|call: ToolCallView| #[trigger]
            generation::flagged(calls, flags, wanted).contains(call) ==> exists|k: int| #[trigger]
                with_flag(calls, flags, wanted, k) && calls[k] == call,
    decreases calls.len(),
{
    if calls.len() > 0 {
        let rest = calls.drop_last();
        lemma_flagged(rest, flags, wanted);
        let before = generation::flagged(rest, flags, wanted);
        let all = generation::flagged(calls, flags, wanted);
        let last = calls.len() - 1;
        assert(calls.last() == calls[last]);
        assert forall|k: int| #[trigger] with_flag(calls, flags, wanted, k) implies all.contains(
            calls[k],
        ) by {
            if k < last {
                assert(with_flag(rest, flags, wanted, k));
                assert(rest[k] == calls[k]);
                let j = before.index_of(calls[k]);
                assert(all[j] == calls[k]);
            } else {
                assert(all[before.len() as int] == calls[k]);
            }
        }
        assert forall|call: ToolCallView| #[trigger] all.contains(call) implies exists|k: int|
            #[trigger] with_flag(calls, flags, wanted, k) && calls[k] == call by {
            let j = all.index_of(call);
            if j < before.len() {
                assert(before[j] == call);
                assert(before.contains(call));
                let k = choose|k: int| #[trigger]
                    with_flag(rest, flags, wanted, k) && rest[k] == call;
                assert(with_flag(calls, flags, wanted, k) && calls[k] == call);
            } else {
                assert(with_flag(calls, flags, wanted, last) && calls[last] == call);
            }
        }
    }
}

/// The answer of a completed call to the model is kept in history as the model gave it, and announced
/// as it is kept; only the times are the run's own. Without tool calls it ends the turn and is what the
/// caller gets.
pub proof fn law_a_final_answer_is_kept_and_handed_on(
    run: &mut AgentLoop,
    progress: &GenerationProgress,
    outcome: GenerationOutcome,
    ended_at: Timestamp,
    flags: &Vec<bool>,
    res: LoopStep,
    given: AssistantMessageView,
)
    requires
        call_ensures(AgentLoop::finish_generation, (run, progress, outcome, ended_at, flags), res),
        outcome matches GenerationOutcome::Completed(message) && message@ == given,
        given.tool_calls.len() == 0,
    ensures
        adds_message(old(run)@, final(run)@),
        final(run)@.events == old(run)@.events,
        final(run)@.reply_target is None,
        final(run)@.state.messages.last().message matches MessageView::Assistant(kept) && {
            &&& same_answer(given, kept)
            &&& kept.started_at == progress.started_at
            &&& kept.ended_at == ended_at
            &&& res@ matches LoopStepView::Done(ResumePointView::Generation, end) && {
                &&& end.event == Some(AgentEventView::LLMEnd(kept))
                &&& answers_caller(old(run)@, end, ToolOutputView::Success(given.content), false)
            }
        },
{
    let between = choose|between: LoopView| #[trigger]
        generation::answered(
            old(run)@,
            between,
            generation::timed_answer(given, progress@, ended_at),
        ) && final(run)@ == (LoopView { reply_target: None, ..between });
    assert(final(run)@.state.messages.drop_last() =~= old(run)@.state.messages);
}

/// An answer with tool calls is kept and announced just so, and its calls come next: all of them, under
/// the id of the answer. The thread waits for an approval exactly where a call needs one; the calls that
/// need one are those asked about, and the others run without asking.
pub proof fn law_an_answer_with_calls_is_kept_and_carried_out(
    run: &mut AgentLoop,
    progress: &GenerationProgress,
    outcome: GenerationOutcome,
    ended_at: Timestamp,
    flags: &Vec<bool>,
    res: LoopStep,
    given: AssistantMessageView,
)
    requires
        call_ensures(AgentLoop::finish_generation, (run, progress, outcome, ended_at, flags), res),
        outcome matches GenerationOutcome::Completed(message) && message@ == given,
        given.tool_calls.len() > 0,
        flags@.len() == given.tool_calls.len(),
    ensures
        adds_message(old(run)@, final(run)@),
        final(run)@.reply_target == old(run)@.reply_target,
        final(run)@.state.messages.last().message matches MessageView::Assistant(kept) && {
            &&& same_answer(given, kept)
            &&& kept.started_at == progress.started_at
            &&& kept.ended_at == ended_at
            &&& final(run)@.events.len() == old(run)@.events.len() + 1
            &&& final(run)@.events.drop_last() == old(run)@.events
            &&& final(run)@.events.last().event == AgentEventView::LLMEnd(kept)
            &&& final(run)@.events.last().turn == old(run)@.turn
        },
        match res@ {
            LoopStepView::Next(ResumePointView::ToolExecution(batch)) => {
                &&& forall|k: int| 0 <= k < flags@.len() ==> !#[trigger] flags@[k]
                &&& batch.parent_message_id == given.message_id
                &&& batch.pending_replies.len() == 0
                &&& batch.tool_calls.len() == given.tool_calls.len()
                &&& forall|k: int|
                    0 <= k < given.tool_calls.len() ==> {
                        &&& (#[trigger] batch.tool_calls[k]).tool_call == given.tool_calls[k]
                        &&& batch.tool_calls[k].outcome is Auto
                    }
            },
            LoopStepView::Next(
                ResumePointView::PendingApproval {
                    parent_message_id,
                    pending_approval_calls,
                    pending_calls,
                },
            ) => {
                &&& exists|k: int| 0 <= k < flags@.len() && #[trigger] flags@[k]
                &&& parent_message_id == given.message_id
                &&& pending_approval_calls.len() + pending_calls.len() == given.tool_calls.len()
                &&& forall|k: int| #[trigger]
                    with_flag(given.tool_calls, flags@, true, k) ==> pending_approval_calls.contains(
                        given.tool_calls[k],
                    )
                &&& forall|k: int| #[trigger]
                    with_flag(given.tool_calls, flags@, false, k) ==> pending_calls.contains(
                        PendingToolCallView {
                            tool_call: given.tool_calls[k],
                            outcome: ToolCallOutcomeView::Auto,
                        },
                    )
                &&& forall|call: ToolCallView| #[trigger]
                    pending_approval_calls.contains(call) ==> exists|k: int| #[trigger]
                        with_flag(given.tool_calls, flags@, true, k) && given.tool_calls[k] == call
            },
            _ => false,
        },
{
    let answer = generation::timed_answer(given, progress@, ended_at);
    let between = choose|between: LoopView| #[trigger]
        generation::answered(old(run)@, between, answer) && final(run)@ == between.announcing(
            AgentEventView::LLMEnd(answer),
        );
    assert(final(run)@.state.messages.drop_last() =~= old(run)@.state.messages);
    assert(final(run)@.events.drop_last() =~= old(run)@.events);
    let calls = given.tool_calls;
    lemma_flagged(calls, flags@, true);
    lemma_flagged(calls, flags@, false);
    let asked = generation::flagged(calls, flags@, true);
    let free = generation::flagged(calls, flags@, false);
    if asked.len() == 0 {
        lemma_all_free(calls, flags@);
        assert forall|k: int| 0 <= k < flags@.len() implies !#[trigger] flags@[k] by {
            if flags@[k] {
                assert(with_flag(calls, flags@, true, k));
                assert(asked.contains(calls[k]));
            }
        }
    } else {
        assert(asked.contains(asked[0]));
        let k = choose|k: int| #[trigger]
            with_flag(calls, flags@, true, k) && calls[k] == asked[0];
        assert(flags@[k]);
        let auto = generation::automatic(free);
        assert forall|k: int| #[trigger] with_flag(calls, flags@, false, k) implies auto.contains(
            PendingToolCallView { tool_call: calls[k], outcome: ToolCallOutcomeView::Auto },
        ) by {
            let j = free.index_of(calls[k]);
            assert(auto[j].tool_call == calls[k]);
        }
    }
}

proof fn lemma_all_free(calls: Seq<ToolCallView>, flags: Seq<bool>)
    requires
        calls.len() <= flags.len(),
        generation::flagged(calls, flags, true).len() == 0,
    ensures
        generation::flagged(calls, flags, false) == calls,
    decreases calls.len(),
{
    if calls.len() > 0 {
        lemma_all_free(calls.drop_last(), flags);
        assert(calls.drop_last().push(calls.last()) =~= calls);
    } else {
        assert(generation::flagged(calls, flags, false) =~= calls);
    }
}

/// Under automatic approval every call of an answer runs without asking, and under manual approval every
/// one is asked about.
pub proof fn law_an_approval_mode_covers_the_whole_batch(
    run: &mut AgentLoop,
    progress: &GenerationProgress,
    outcome: GenerationOutcome,
    ended_at: Timestamp,
    approval: &ToolApprovalMode,
    res: LoopStep,
    given: AssistantMessageView,
)
    requires
        call_ensures(
            AgentLoop::handle_generation,
            (run, progress, outcome, ended_at, approval),
            res,
        ),
        outcome matches GenerationOutcome::Completed(message) && message@ == given,
        given.tool_calls.len() > 0,
    ensures
        *approval is Auto ==> (res@ matches LoopStepView::Next(
            ResumePointView::ToolExecution(batch),
        ) && batch.parent_message_id == given.message_id && batch.tool_calls.len()
            == given.tool_calls.len()),
        *approval is Manual ==> (res@ matches LoopStepView::Next(
            ResumePointView::PendingApproval {
                parent_message_id,
                pending_approval_calls,
                pending_calls,
            },
        ) && parent_message_id == given.message_id && pending_approval_calls.len()
            == given.tool_calls.len() && pending_calls.len() == 0),
{
    let flags = choose|flags: Seq<bool>| #[trigger]
        generation::generation_finished(
            old(run)@,
            progress@,
            outcome.deep_view(),
            ended_at,
            flags,
            final(run)@,
            res@,
        ) && (outcome matches GenerationOutcome::Completed(message) ==> approval.may_flag(
            flags,
            message.tool_calls.deep_view(),
        ));
    let calls = given.tool_calls;
    lemma_flagged(calls, flags, true);
    lemma_flagged(calls, flags, false);
    let asked = generation::flagged(calls, flags, true);
    let free = generation::flagged(calls, flags, false);
    if *approval is Auto && asked.len() > 0 {
        assert(asked.contains(asked[0]));
        let k = choose|k: int| #[trigger] with_flag(calls, flags, true, k) && calls[k] == asked[0];
        assert(!flags[k]);
    }
    if *approval is Manual && free.len() > 0 {
        assert(free.contains(free[0]));
        let k = choose|k: int| #[trigger] with_flag(calls, flags, false, k) && calls[k] == free[0];
        assert(flags[k]);
    }
}

/// Whatever approval mode is in force, a completed answer is kept and announced as the model gave it.
pub proof fn law_every_completed_answer_is_kept(
    run: &mut AgentLoop,
    progress: &GenerationProgress,
    outcome: GenerationOutcome,
    ended_at: Timestamp,
    approval: &ToolApprovalMode,
    res: LoopStep,
    given: AssistantMessageView,
)
    requires
        call_ensures(
            AgentLoop::handle_generation,
            (run, progress, outcome, ended_at, approval),
            res,
        ),
        outcome matches GenerationOutcome::Completed(message) && message@ == given,
    ensures
        adds_message(old(run)@, final(run)@),
        final(run)@.state.messages.last().message matches MessageView::Assistant(kept) && {
            &&& same_answer(given, kept)
            &&& given.tool_calls.len() > 0 ==> {
                &&& res@ is Next
                &&& final(run)@.events.last().event == AgentEventView::LLMEnd(kept)
                &&& final(run)@.reply_target == old(run)@.reply_target
            }
            &&& given.tool_calls.len() == 0 ==> (res@ matches LoopStepView::Done(
                ResumePointView::Generation,
                end,
            ) && end.event == Some(AgentEventView::LLMEnd(kept)) && answers_caller(
                old(run)@,
                end,
                ToolOutputView::Success(given.content),
                false,
            ))
        },
{
    let answer = generation::timed_answer(given, progress@, ended_at);
    let between = choose|between: LoopView| #[trigger]
        generation::answered(old(run)@, between, answer) && (final(run)@ == between.announcing(
            AgentEventView::LLMEnd(answer),
        ) || final(run)@ == (LoopView { reply_target: None, ..between }));
    assert(final(run)@.state.messages.drop_last() =~= old(run)@.state.messages);
}

/// A failure or a stop that a call to the model comes to ends the turn, and the caller hears of it.
pub proof fn law_every_failure_reaches_the_caller(
    run: &mut AgentLoop,
    progress: &GenerationProgress,
    outcome: GenerationOutcome,
    ended_at: Timestamp,
    approval: &ToolApprovalMode,
    res: LoopStep,
)
    requires
        call_ensures(
            AgentLoop::handle_generation,
            (run, progress, outcome, ended_at, approval),
            res,
        ),
        !(outcome is Completed),
    ensures
        final(run)@.state == old(run)@.state,
        final(run)@.reply_target is None,
        res@ matches LoopStepView::Done(ResumePointView::Generation, end) && match outcome {
            GenerationOutcome::Failed(reason) => answers_caller(
                old(run)@,
                end,
                ToolOutputView::Failure(reason@),
                false,
            ),
            _ => answers_caller(old(run)@, end, ToolOutputView::Failure("Aborted by user"@), true),
        },
{
}

/// A call to the model that fails ends the turn with what went wrong: as the answer for a caller, and as
/// an event where there is none. The history stays as it was.
pub proof fn law_a_failed_call_to_the_model_is_reported(
    run: &mut AgentLoop,
    progress: &GenerationProgress,
    outcome: GenerationOutcome,
    ended_at: Timestamp,
    flags: &Vec<bool>,
    res: LoopStep,
)
    requires
        call_ensures(AgentLoop::finish_generation, (run, progress, outcome, ended_at, flags), res),
        outcome is Failed,
    ensures
        final(run)@.state == old(run)@.state,
        final(run)@.events == old(run)@.events,
        final(run)@.reply_target is None,
        res@ matches LoopStepView::Done(ResumePointView::Generation, end) && {
            let reason = outcome->Failed_0@;
            &&& answers_caller(old(run)@, end, ToolOutputView::Failure(reason), false)
            &&& old(run)@.reply_target is None ==> end.event == Some(AgentEventView::Error(reason))
            &&& old(run)@.reply_target is Some ==> end.event is None
        },
{
}

/// A call to the model that is stopped ends the turn as aborted, and tells a caller so.
pub proof fn law_a_stopped_call_to_the_model_ends_the_turn(
    run: &mut AgentLoop,
    progress: &GenerationProgress,
    outcome: GenerationOutcome,
    ended_at: Timestamp,
    flags: &Vec<bool>,
    res: LoopStep,
)
    requires
        call_ensures(AgentLoop::finish_generation, (run, progress, outcome, ended_at, flags), res),
        outcome is Aborted,
    ensures
        final(run)@.state == old(run)@.state,
        final(run)@.events == old(run)@.events,
        final(run)@.reply_target is None,
        res@ matches LoopStepView::Done(ResumePointView::Generation, end) && {
            &&& end.event == Some(AgentEventView::Aborted(AbortedTargetView::Generation))
            &&& answers_caller(
                old(run)@,
                end,
                ToolOutputView::Failure("Aborted by user"@),
                true,
            )
        },
{
}

/// What a stream brings is gathered in the order it comes, and announced piece by piece; nothing is
/// written to history meanwhile.
pub proof fn law_chunks_are_gathered_in_order(
    run: &mut AgentLoop,
    progress: &mut GenerationProgress,
    item: StreamItem,
    now: Timestamp,
    message_id: MessageId,
    res: Option<crate::runtime::generation::GenerationOutcome>,
)
    requires
        call_ensures(AgentLoop::on_stream_item, (run, progress, item, now, message_id), res),
        item is ContentChunk || item is ReasoningChunk,
    ensures
        res is None,
        final(run)@.state == old(run)@.state,
        final(run)@.reply_target == old(run)@.reply_target,
        final(run)@.events.len() == old(run)@.events.len() + 1,
        final(run)@.events.drop_last() == old(run)@.events,
        final(progress).started_at == old(progress).started_at,
        item matches StreamItem::ContentChunk(chunk) ==> {
            &&& final(progress).partial_content@ == old(progress).partial_content@ + chunk@
            &&& final(progress).partial_reasoning@ == old(progress).partial_reasoning@
            &&& final(run)@.events.last().event == AgentEventView::LLMContentChunk(chunk@)
        },
        item matches StreamItem::ReasoningChunk(chunk) ==> {
            &&& final(progress).partial_content@ == old(progress).partial_content@
            &&& final(progress).partial_reasoning@ == old(progress).partial_reasoning@ + chunk@
            &&& final(run)@.events.last().event == AgentEventView::LLMReasoningChunk(chunk@)
        },
{
    assert(final(run)@.events.drop_last() =~= old(run)@.events);
    assert(final(progress)@.partial_content == final(progress).partial_content@);
}

/// A stream that ends says how: with the answer it completed, with why it failed, or as aborted. What
/// had arrived before it was stopped is kept as an aborted answer, behind which it says that it was
/// interrupted; where nothing had arrived nothing is kept.
pub proof fn law_a_stopped_stream_keeps_what_arrived(
    run: &mut AgentLoop,
    progress: &mut GenerationProgress,
    item: StreamItem,
    now: Timestamp,
    message_id: MessageId,
    res: Option<crate::runtime::generation::GenerationOutcome>,
)
    requires
        call_ensures(AgentLoop::on_stream_item, (run, progress, item, now, message_id), res),
        !(item is ContentChunk || item is ReasoningChunk),
    ensures
        res is Some,
        item matches StreamItem::Completed(message) ==> (res matches Some(
            GenerationOutcome::Completed(answer),
        ) && answer@ == message@),
        item matches StreamItem::Failed(reason) ==> (res matches Some(
            GenerationOutcome::Failed(error),
        ) && error@ == reason@),
        item is Ended ==> res->0 is Failed,
        item is Cancelled ==> res->0 is Aborted,
        !(item is Cancelled) ==> final(run)@ == old(run)@,
        item is Cancelled && old(progress).partial_content@.len() == 0 && old(
            progress,
        ).partial_reasoning@.len() == 0 ==> final(run)@ == old(run)@,
        item is Cancelled && (old(progress).partial_content@.len() > 0 || old(
            progress,
        ).partial_reasoning@.len() > 0) ==> {
            &&& adds_message(old(run)@, final(run)@)
            &&& final(run)@.reply_target == old(run)@.reply_target
            &&& final(run)@.events.len() == old(run)@.events.len() + 1
            &&& final(run)@.state.messages.last().message matches MessageView::Assistant(kept) && {
                &&& kept.message_id == message_id
                &&& kept.aborted
                &&& kept.tool_calls.len() == 0
                &&& old(progress).partial_content@.is_prefix_of(kept.content)
                &&& old(progress).partial_reasoning@.len() > 0 ==> kept.reasoning_content == Some(
                    old(progress).partial_reasoning@,
                )
                &&& old(progress).partial_reasoning@.len() == 0 ==> kept.reasoning_content is None
                &&& final(run)@.events.last().event == AgentEventView::LLMEnd(kept)
            }
        },
{
    let answer = generation::partial_answer(old(progress)@, message_id, now);
    if item is Cancelled && answer is Some {
        let between = choose|between: LoopView| #[trigger]
            generation::answered(old(run)@, between, answer->0) && final(run)@
                == between.announcing(AgentEventView::LLMEnd(answer->0));
        assert(final(run)@.state.messages.drop_last() =~= old(run)@.state.messages);
    }
}

}
