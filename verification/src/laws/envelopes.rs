//! What a thread makes of the envelopes it gets.

use crate::agent::{
    Envelope, EnvelopeBodyView, PendingReplyView, PendingToolCallView, ReplyTargetView, ResumePoint,
    ResumePointView, SenderView, ToolCallResolutionView, ToolExecutionStateView,
};
use crate::ids::MessageId;
use crate::laws::results;
use crate::llm::{ContentPartView, MessageView, ToolCallOutcomeView, ToolCallView, ToolOutputView};
use crate::runtime::agent_loop::{
    self, AgentLoop, EnvelopeOutcome, EnvelopeOutcomeView, LoopView, TurnEndView,
};
use crate::runtime::turn::CallLedger;
use vstd::multiset::Multiset;
use vstd::prelude::*;

verus! {

proof fn lemma_first_awaited(
    pending: Seq<PendingReplyView>,
    reply_to: Option<Seq<char>>,
    at: int,
)
    requires
        0 <= at < pending.len(),
        reply_to == Some(pending[at].call_envelope_id),
        forall|i: int| 0 <= i < at ==> reply_to != Some((#[trigger] pending[i]).call_envelope_id),
    ensures
        agent_loop::awaited_reply(pending, reply_to) == Some(at),
    decreases pending.len(),
{
    let rest = pending.drop_last();
    if at < rest.len() {
        assert forall|i: int| 0 <= i < at implies reply_to != Some(
            (#[trigger] rest[i]).call_envelope_id,
        ) by {
            assert(rest[i] == pending[i]);
        }
        lemma_first_awaited(rest, reply_to, at);
    } else {
        assert forall|i: int| 0 <= i < rest.len() implies reply_to != Some(
            (#[trigger] rest[i]).call_envelope_id,
        ) by {
            assert(rest[i] == pending[i]);
        }
        lemma_none_awaited(rest, reply_to);
    }
}

proof fn lemma_none_awaited(
    pending: Seq<PendingReplyView>,
    reply_to: Option<Seq<char>>,
)
    requires
        forall|i: int|
            0 <= i < pending.len() ==> reply_to != Some((#[trigger] pending[i]).call_envelope_id),
    ensures
        agent_loop::awaited_reply(pending, reply_to) is None,
    decreases pending.len(),
{
    if pending.len() > 0 {
        let rest = pending.drop_last();
        assert(pending.last() == pending[pending.len() - 1]);
        assert forall|i: int| 0 <= i < rest.len() implies reply_to != Some(
            (#[trigger] rest[i]).call_envelope_id,
        ) by {
            assert(rest[i] == pending[i]);
        }
        lemma_none_awaited(rest, reply_to);
    }
}

/// The answer of a sub-agent becomes the result of the call it answers, word for word: a success stays a
/// success and a failure a failure. The call is no longer waited for, and the others still are.
pub proof fn law_a_reply_is_the_result_of_its_call(
    run: &mut AgentLoop,
    calls: &mut CallLedger,
    resume_point: ResumePoint,
    envelope: Envelope,
    res: EnvelopeOutcome,
    waiting: ToolExecutionStateView,
    at: int,
    output: ToolOutputView,
    aborted: bool,
)
    requires
        call_ensures(AgentLoop::handle_envelope, (run, calls, resume_point, envelope), res),
        resume_point@ == ResumePointView::ToolExecution(waiting),
        0 <= at < waiting.pending_replies.len(),
        envelope@.reply_to == Some(waiting.pending_replies[at].call_envelope_id),
        forall|i: int|
            0 <= i < at ==> envelope@.reply_to != Some(
                (#[trigger] waiting.pending_replies[i]).call_envelope_id,
            ),
        envelope@.body matches EnvelopeBodyView::Reply { output: given, aborted: stopped, .. }
            && given == output && stopped == aborted,
    ensures
        ({
            let call = waiting.pending_replies[at];
            let made = results::result(old(run)@, final(run)@, 0);
            &&& results::adds_results(old(run)@, final(run)@, 1)
            &&& results::same_place(old(run)@, final(run)@)
            &&& final(run)@.reply_target == old(run)@.reply_target
            &&& made.id == call.call_id
            &&& made.name == call.tool_name
            &&& made.output == output
            &&& made.started_at == Some(call.started_at)
            &&& aborted ==> made.outcome is Aborted
            &&& !aborted ==> made.outcome == call.outcome
        }),
        waiting.pending_replies.len() == 1 ==> res@ == EnvelopeOutcomeView::Next(
            ResumePointView::Generation,
        ),
        waiting.pending_replies.len() > 1 ==> (res@ matches EnvelopeOutcomeView::Next(
            ResumePointView::ToolExecution(left),
        ) && {
            &&& left.pending_replies == waiting.pending_replies.remove(at)
            &&& left.tool_calls == waiting.tool_calls
            &&& left.parent_message_id == waiting.parent_message_id
        }),
        envelope@.from matches SenderView::Agent { thread_id, .. } ==> final(calls)@ == old(
            calls,
        )@.remove(thread_id),
{
    lemma_first_awaited(waiting.pending_replies, envelope@.reply_to, at);
    let record = agent_loop::reply_record(waiting.pending_replies[at], output, aborted);
    results::lemma_recorded_results(old(run)@, final(run)@, seq![record]);
    assert(results::result(old(run)@, final(run)@, 0).id == record.id);
}

/// An answer to a call that the thread does not wait for leaves its history, its events and the batch as
/// they were.
pub proof fn law_a_reply_to_another_call_settles_nothing(
    run: &mut AgentLoop,
    calls: &mut CallLedger,
    resume_point: ResumePoint,
    envelope: Envelope,
    res: EnvelopeOutcome,
    waiting: ToolExecutionStateView,
)
    requires
        call_ensures(AgentLoop::handle_envelope, (run, calls, resume_point, envelope), res),
        resume_point@ == ResumePointView::ToolExecution(waiting),
        waiting.pending_replies.len() > 0,
        envelope@.body is Reply,
        forall|i: int|
            0 <= i < waiting.pending_replies.len() ==> envelope@.reply_to != Some(
                (#[trigger] waiting.pending_replies[i]).call_envelope_id,
            ),
    ensures
        final(run)@ == old(run)@,
        res@ == EnvelopeOutcomeView::Next(ResumePointView::ToolExecution(waiting)),
        envelope@.from matches SenderView::Agent { thread_id, .. } ==> final(calls)@ == old(
            calls,
        )@.remove(thread_id),
{
    lemma_none_awaited(waiting.pending_replies, envelope@.reply_to);
}

/// A user's task opens its turn with what the user wrote: the text first and then the images, under the
/// id the task came with, which also names the turn. Nobody but the user is to be answered.
pub proof fn law_a_task_opens_its_turn(
    run: &mut AgentLoop,
    calls: &mut CallLedger,
    resume_point: ResumePoint,
    envelope: Envelope,
    res: EnvelopeOutcome,
    id: MessageId,
    task: Seq<char>,
    images: Seq<Seq<char>>,
)
    requires
        call_ensures(AgentLoop::handle_envelope, (run, calls, resume_point, envelope), res),
        resume_point@ is Generation,
        envelope@.body == (EnvelopeBodyView::Task { message_id: id, task, images }),
    ensures
        res@ == EnvelopeOutcomeView::Next(ResumePointView::Generation),
        final(calls)@ == old(calls)@,
        final(run)@.reply_target is None,
        final(run)@.origin_thread == old(run)@.origin_thread,
        final(run)@.events == old(run)@.events,
        final(run)@.state.state == old(run)@.state.state,
        final(run)@.state.messages.len() == old(run)@.state.messages.len() + 1,
        final(run)@.state.messages.drop_last() == old(run)@.state.messages,
        final(run)@.state.messages.last().turn_id.value == id.value,
        final(run)@.state.current_turn == Some(final(run)@.state.messages.last().turn_id),
        final(run)@.state.messages.last().message matches MessageView::User(user) && {
            &&& user.message_id == id
            &&& user.origin is None
            &&& user.parts.len() == images.len() + 1
            &&& user.parts[0] == ContentPartView::Text { text: task }
            &&& forall|k: int|
                0 <= k < images.len() ==> user.parts[k + 1] == (ContentPartView::Image {
                    url: #[trigger] images[k],
                })
        },
{
    assert(final(run)@.state.messages.drop_last() =~= old(run)@.state.messages);
}

/// A call from another agent opens the work with the task it carries, in the caller's turn, and records
/// what asked for it. The caller is who gets the answer, and the thread that the callee stands under.
pub proof fn law_a_call_opens_work_for_its_caller(
    run: &mut AgentLoop,
    calls: &mut CallLedger,
    resume_point: ResumePoint,
    envelope: Envelope,
    res: EnvelopeOutcome,
    caller: Seq<char>,
    caller_thread: Seq<char>,
)
    requires
        call_ensures(AgentLoop::handle_envelope, (run, calls, resume_point, envelope), res),
        resume_point@ is Generation,
        envelope@.body is ToolCall,
        envelope@.from == (SenderView::Agent { name: caller, thread_id: caller_thread }),
    ensures
        res@ == EnvelopeOutcomeView::Next(ResumePointView::Generation),
        final(calls)@ == old(calls)@,
        final(run)@.events == old(run)@.events,
        final(run)@.state.messages.len() == old(run)@.state.messages.len() + 1,
        final(run)@.state.messages.drop_last() == old(run)@.state.messages,
        envelope@.body matches EnvelopeBodyView::ToolCall {
            call_id,
            parent_message_id,
            derivation_key,
            turn_id,
            task,
        } && {
            &&& final(run)@.state.messages.last().turn_id == turn_id
            &&& final(run)@.state.current_turn == Some(turn_id)
            &&& final(run)@.state.messages.last().message matches MessageView::User(user) && {
                &&& user.parts == seq![ContentPartView::Text { text: task }]
                &&& user.origin matches Some(origin) && origin.call_id == call_id
                    && origin.message_id == parent_message_id
            }
            &&& final(run)@.reply_target == Some(
                ReplyTargetView {
                    envelope_id: envelope@.id,
                    sender_name: caller,
                    sender_thread_id: caller_thread,
                    call_id,
                },
            )
            &&& final(run)@.origin_thread matches Some(origin) && origin.parent_thread_id
                == caller_thread && origin.derivation_key == derivation_key
        },
{
    assert(final(run)@.state.messages.drop_last() =~= old(run)@.state.messages);
}

/// A thread that waits for nothing has no use for answers and decisions: they change nothing, and
/// nothing is announced.
pub proof fn law_an_idle_thread_ignores_what_it_did_not_ask_for(
    run: &mut AgentLoop,
    calls: &mut CallLedger,
    resume_point: ResumePoint,
    envelope: Envelope,
    res: EnvelopeOutcome,
)
    requires
        call_ensures(AgentLoop::handle_envelope, (run, calls, resume_point, envelope), res),
        resume_point@ is Generation,
        envelope@.body is Reply || envelope@.body is Resume,
    ensures
        final(run)@ == old(run)@,
        final(calls)@ == old(calls)@,
        res@ == EnvelopeOutcomeView::Done(
            ResumePointView::Generation,
            TurnEndView { event: None, reply: None },
        ),
{
}

/// Whether a decision resolves the call `id` this way: the last resolution that names the call counts,
/// and a call that none names is rejected without a reason.
pub open spec fn decides(
    resolutions: Seq<(Seq<char>, ToolCallResolutionView)>,
    id: Seq<char>,
    resolution: ToolCallResolutionView,
) -> bool {
    ||| exists|j: int|
        0 <= j < resolutions.len() && #[trigger] resolutions[j] == (id, resolution) && forall|l: int|
            j < l < resolutions.len() ==> (#[trigger] resolutions[l]).0 != id
    ||| (forall|j: int| 0 <= j < resolutions.len() ==> (#[trigger] resolutions[j]).0 != id)
        && resolution == (ToolCallResolutionView::Rejected { reason: None })
}

proof fn lemma_decides(
    resolutions: Seq<(Seq<char>, ToolCallResolutionView)>,
    id: Seq<char>,
)
    ensures
        decides(resolutions, id, agent_loop::resolution_of(resolutions, id)),
        forall|resolution: ToolCallResolutionView| #[trigger]
            decides(resolutions, id, resolution) ==> resolution == agent_loop::resolution_of(
                resolutions,
                id,
            ),
    decreases resolutions.len(),
{
    let found = agent_loop::resolution_of(resolutions, id);
    if resolutions.len() > 0 {
        let rest = resolutions.drop_last();
        let n = resolutions.len() - 1;
        assert(resolutions.last() == resolutions[n]);
        if resolutions.last().0 == id {
            assert(resolutions[n] == (id, found));
        } else {
            lemma_decides(rest, id);
            assert(forall|j: int| 0 <= j < n ==> #[trigger] rest[j] == resolutions[j]);
            if exists|j: int|
                0 <= j < rest.len() && #[trigger] rest[j] == (id, found) && forall|l: int|
                    j < l < rest.len() ==> (#[trigger] rest[l]).0 != id {
                let j = choose|j: int|
                    0 <= j < rest.len() && #[trigger] rest[j] == (id, found) && forall|l: int|
                        j < l < rest.len() ==> (#[trigger] rest[l]).0 != id;
                assert(resolutions[j] == (id, found));
                assert forall|l: int| j < l < resolutions.len() implies (
                #[trigger] resolutions[l]).0 != id by {
                    if l < n {
                        assert(rest[l].0 != id);
                    }
                }
            } else {
                assert forall|j: int| 0 <= j < resolutions.len() implies (
                #[trigger] resolutions[j]).0 != id by {
                    if j < n {
                        assert(rest[j].0 != id);
                    }
                }
            }
        }
    }
}

/// Whether a decision lets a call run.
pub open spec fn is_approved(resolutions: Seq<(Seq<char>, ToolCallResolutionView)>) -> spec_fn(
    ToolCallView,
) -> bool {
    |call: ToolCallView| decides(resolutions, call.id, ToolCallResolutionView::Execute)
}

/// Whether a decision keeps a call from running.
pub open spec fn is_settled(resolutions: Seq<(Seq<char>, ToolCallResolutionView)>) -> spec_fn(
    ToolCallView,
) -> bool {
    |call: ToolCallView| !decides(resolutions, call.id, ToolCallResolutionView::Execute)
}

proof fn lemma_decided_calls(
    calls: Seq<ToolCallView>,
    resolutions: Seq<(Seq<char>, ToolCallResolutionView)>,
)
    ensures
        ({
            let runs = calls.filter(is_approved(resolutions));
            let settled = calls.filter(is_settled(resolutions));
            let approved = agent_loop::approved_calls(calls, resolutions);
            let records = agent_loop::settled_calls(calls, resolutions);
            &&& approved.len() == runs.len()
            &&& forall|k: int|
                0 <= k < runs.len() ==> (#[trigger] approved[k]).tool_call == runs[k]
                    && approved[k].outcome is Approved
            &&& records.len() == settled.len()
            &&& forall|k: int|
                0 <= k < settled.len() ==> {
                    let record = #[trigger] records[k];
                    &&& record.id == settled[k].id
                    &&& record.name == settled[k].name
                    &&& record.started_at is None
                    &&& match agent_loop::resolution_of(resolutions, settled[k].id) {
                        ToolCallResolutionView::Execute => false,
                        ToolCallResolutionView::Resolved(output) => record.output == output
                            && record.outcome is Resolved,
                        ToolCallResolutionView::Rejected { reason } => record.outcome == (
                        ToolCallOutcomeView::Rejected { reason }) && match reason {
                            Some(words) => record.output == ToolOutputView::Failure(words),
                            None => record.output == ToolOutputView::Failure("Rejected by user"@),
                        },
                    }
                }
        }),
    decreases calls.len(),
{
    reveal(Seq::filter);
    if calls.len() > 0 {
        let rest = calls.drop_last();
        lemma_decided_calls(rest, resolutions);
        lemma_decides(resolutions, calls.last().id);
    }
}

/// A decision on the batch a thread is parked on accounts for every call that was asked about, in order.
/// A call that is let through joins the batch as approved, behind those that needed no asking. Any other
/// gets its result right away: the output it was resolved with, or the reason it was rejected for.
pub proof fn law_a_decision_is_carried_out_call_by_call(
    run: &mut AgentLoop,
    calls: &mut CallLedger,
    resume_point: ResumePoint,
    envelope: Envelope,
    res: EnvelopeOutcome,
    parent: MessageId,
    asked: Seq<ToolCallView>,
    ready: Seq<PendingToolCallView>,
    resolutions: Seq<(Seq<char>, ToolCallResolutionView)>,
)
    requires
        call_ensures(AgentLoop::handle_envelope, (run, calls, resume_point, envelope), res),
        resume_point@ == (ResumePointView::PendingApproval {
            parent_message_id: parent,
            pending_approval_calls: asked,
            pending_calls: ready,
        }),
        envelope@.body matches EnvelopeBodyView::Resume(decision) && decision.parent_message_id
            == parent && decision.resolutions == resolutions,
    ensures
        res@ matches EnvelopeOutcomeView::Next(ResumePointView::ToolExecution(next)) && {
            let runs = asked.filter(is_approved(resolutions));
            &&& next.parent_message_id == parent
            &&& next.pending_replies.len() == 0
            &&& next.tool_calls.len() == ready.len() + runs.len()
            &&& next.tool_calls.take(ready.len() as int) == ready
            &&& forall|k: int|
                0 <= k < runs.len() ==> next.tool_calls[ready.len() + k] == (PendingToolCallView {
                    tool_call: #[trigger] runs[k],
                    outcome: ToolCallOutcomeView::Approved,
                })
        },
        ({
            let settled = asked.filter(is_settled(resolutions));
            &&& results::adds_results(old(run)@, final(run)@, settled.len())
            &&& forall|k: int|
                0 <= k < settled.len() ==> {
                    let made = results::result(old(run)@, final(run)@, k);
                    &&& made.id == (#[trigger] settled[k]).id
                    &&& made.name == settled[k].name
                    &&& forall|resolution: ToolCallResolutionView| #[trigger]
                        decides(resolutions, settled[k].id, resolution) ==> match resolution {
                            ToolCallResolutionView::Execute => false,
                            ToolCallResolutionView::Resolved(output) => made.output == output
                                && made.outcome is Resolved,
                            ToolCallResolutionView::Rejected { reason } => {
                                &&& made.outcome == (ToolCallOutcomeView::Rejected { reason })
                                &&& reason is Some ==> made.output == ToolOutputView::Failure(
                                    reason->0,
                                )
                                &&& reason is None ==> made.output == ToolOutputView::Failure(
                                    "Rejected by user"@,
                                )
                            },
                        }
                }
        }),
        final(run)@.reply_target == old(run)@.reply_target,
        final(calls)@ == old(calls)@,
{
    let records = agent_loop::settled_calls(asked, resolutions);
    let approved = agent_loop::approved_calls(asked, resolutions);
    let settled = asked.filter(is_settled(resolutions));
    lemma_decided_calls(asked, resolutions);
    results::lemma_recorded_results(old(run)@, final(run)@, records);
    assert((ready + approved).take(ready.len() as int) =~= ready);
    assert forall|k: int| 0 <= k < settled.len() implies {
        let made = results::result(old(run)@, final(run)@, k);
        let resolution = agent_loop::resolution_of(resolutions, (#[trigger] settled[k]).id);
        &&& made.id == records[k].id
        &&& decides(resolutions, settled[k].id, resolution)
        &&& forall|other: ToolCallResolutionView| #[trigger]
            decides(resolutions, settled[k].id, other) ==> other == resolution
    } by {
        lemma_decides(resolutions, settled[k].id);
    }
}

/// A decision on another batch leaves a parked thread as it was, whatever calls it names.
pub proof fn law_a_decision_on_another_batch_changes_nothing(
    run: &mut AgentLoop,
    calls: &mut CallLedger,
    resume_point: ResumePoint,
    envelope: Envelope,
    res: EnvelopeOutcome,
)
    requires
        call_ensures(AgentLoop::handle_envelope, (run, calls, resume_point, envelope), res),
        resume_point@ matches ResumePointView::PendingApproval { parent_message_id, .. }
            && envelope@.body matches EnvelopeBodyView::Resume(decision)
            && decision.parent_message_id != parent_message_id,
    ensures
        final(run)@ == old(run)@,
        final(calls)@ == old(calls)@,
        res@ == EnvelopeOutcomeView::Next(resume_point@),
{
}

/// A parked thread stays parked, with nothing changed and nothing owed, whatever else reaches it that is
/// neither a decision nor a call.
pub proof fn law_a_parked_thread_stays_parked(
    run: &mut AgentLoop,
    calls: &mut CallLedger,
    resume_point: ResumePoint,
    envelope: Envelope,
    res: EnvelopeOutcome,
)
    requires
        call_ensures(AgentLoop::handle_envelope, (run, calls, resume_point, envelope), res),
        resume_point@ is PendingApproval,
        envelope@.body is Task || envelope@.body is Reply,
    ensures
        final(run)@ == old(run)@,
        final(calls)@ == old(calls)@,
        res@ == EnvelopeOutcomeView::Done(
            resume_point@,
            TurnEndView { event: None, reply: None },
        ),
{
}

/// A thread that waits for answers has no use for a decision: it goes on waiting for the same.
pub proof fn law_a_waiting_thread_ignores_a_decision(
    run: &mut AgentLoop,
    calls: &mut CallLedger,
    resume_point: ResumePoint,
    envelope: Envelope,
    res: EnvelopeOutcome,
)
    requires
        call_ensures(AgentLoop::handle_envelope, (run, calls, resume_point, envelope), res),
        resume_point@ matches ResumePointView::ToolExecution(waiting)
            && waiting.pending_replies.len() > 0,
        envelope@.body is Resume,
    ensures
        final(run)@ == old(run)@,
        final(calls)@ == old(calls)@,
        res@ == EnvelopeOutcomeView::Done(
            resume_point@,
            TurnEndView { event: None, reply: None },
        ),
{
}

/// A thread whose calls all have their results goes on with the model, whatever wakes it.
pub proof fn law_a_thread_with_all_its_results_goes_on(
    run: &mut AgentLoop,
    calls: &mut CallLedger,
    resume_point: ResumePoint,
    envelope: Envelope,
    res: EnvelopeOutcome,
)
    requires
        call_ensures(AgentLoop::handle_envelope, (run, calls, resume_point, envelope), res),
        resume_point@ matches ResumePointView::ToolExecution(waiting)
            && waiting.pending_replies.len() == 0,
    ensures
        final(run)@.state == old(run)@.state,
        final(run)@.events == old(run)@.events,
        final(run)@.reply_target == old(run)@.reply_target,
        final(calls)@ == old(calls)@,
        res@ == EnvelopeOutcomeView::Next(ResumePointView::Generation),
{
}

/// A call that reaches a thread while it is parked is handed back to be held, with the thread as it was.
pub proof fn law_a_parked_thread_hands_a_call_back(
    run: &mut AgentLoop,
    calls: &mut CallLedger,
    resume_point: ResumePoint,
    envelope: Envelope,
    res: EnvelopeOutcome,
)
    requires
        call_ensures(AgentLoop::handle_envelope, (run, calls, resume_point, envelope), res),
        resume_point@ is PendingApproval,
        envelope@.body is ToolCall,
    ensures
        final(run)@.state == old(run)@.state,
        final(run)@.events == old(run)@.events,
        final(run)@.reply_target == old(run)@.reply_target,
        final(calls)@ == old(calls)@,
        res@ matches EnvelopeOutcomeView::Deferred { envelope: held, resume_point: kept, cancel }
            && held == envelope@ && kept == resume_point@ && cancel is None,
{
}

/// The replies that are being worked on.
pub open spec fn somebody_answers(
    run: LoopView,
    calls: Multiset<Seq<char>>,
    parent: MessageId,
) -> spec_fn(PendingReplyView) -> bool {
    |reply: PendingReplyView|
        agent_loop::being_answered(run, calls, parent, reply)
}

/// The replies that nobody is working on.
pub open spec fn nobody_answers(
    run: LoopView,
    calls: Multiset<Seq<char>>,
    parent: MessageId,
) -> spec_fn(PendingReplyView) -> bool {
    |reply: PendingReplyView|
        !agent_loop::being_answered(run, calls, parent, reply)
}

proof fn lemma_abandoned(
    run: LoopView,
    calls: Multiset<Seq<char>>,
    parent: MessageId,
    pending: Seq<PendingReplyView>,
)
    ensures
        ({
            let lost = pending.filter(nobody_answers(run, calls, parent));
            let records = agent_loop::abandoned(run, calls, parent, pending);
            &&& agent_loop::still_coming(run, calls, parent, pending) == pending.filter(
                somebody_answers(run, calls, parent),
            )
            &&& records.len() == lost.len()
            &&& forall|k: int|
                0 <= k < lost.len() ==> {
                    let record = #[trigger] records[k];
                    &&& record.id == lost[k].call_id
                    &&& record.name == lost[k].tool_name
                    &&& record.started_at == Some(lost[k].started_at)
                    &&& record.outcome is Aborted
                    &&& record.output == ToolOutputView::Failure(
                        "Tool execution was interrupted by the user"@,
                    )
                }
        }),
    decreases pending.len(),
{
    reveal(Seq::filter);
    if pending.len() > 0 {
        lemma_abandoned(run, calls, parent, pending.drop_last());
    }
}

/// New work that reaches a thread while sub-agents still owe it answers waits for those that are being
/// worked on: it is handed back unchanged, the turn is asked to stop, and the thread waits for exactly
/// those answers. Calls that nobody is working on any more get a result that says so, in order. Where no
/// answer is coming at all the work is taken up.
pub proof fn law_new_work_waits_for_the_answers_to_come(
    run: &mut AgentLoop,
    calls: &mut CallLedger,
    resume_point: ResumePoint,
    envelope: Envelope,
    res: EnvelopeOutcome,
    waiting: ToolExecutionStateView,
)
    requires
        call_ensures(AgentLoop::handle_envelope, (run, calls, resume_point, envelope), res),
        resume_point@ == ResumePointView::ToolExecution(waiting),
        waiting.pending_replies.len() > 0,
        envelope@.body is Task,
    ensures
        ({
            let kept = waiting.pending_replies.filter(
                somebody_answers(old(run)@, old(calls)@, waiting.parent_message_id),
            );
            let lost = waiting.pending_replies.filter(
                nobody_answers(old(run)@, old(calls)@, waiting.parent_message_id),
            );
            let n = old(run)@.state.messages.len() as int;
            &&& final(calls)@ == old(calls)@
            &&& final(run)@.state.messages.len() >= n + lost.len()
            &&& final(run)@.state.messages.take(n) == old(run)@.state.messages
            &&& forall|k: int|
                0 <= k < lost.len() ==> {
                    let made = results::result(old(run)@, final(run)@, k);
                    &&& results::added(old(run)@, final(run)@, k).message is Tool
                    &&& made.id == (#[trigger] lost[k]).call_id
                    &&& made.name == lost[k].tool_name
                    &&& made.outcome is Aborted
                    &&& made.output == ToolOutputView::Failure(
                        "Tool execution was interrupted by the user"@,
                    )
                    &&& made.started_at == Some(lost[k].started_at)
                }
            &&& kept.len() > 0 ==> {
                &&& results::adds_results(old(run)@, final(run)@, lost.len())
                &&& final(run)@.reply_target == old(run)@.reply_target
                &&& res@ matches EnvelopeOutcomeView::Deferred {
                    envelope: held,
                    resume_point: ResumePointView::ToolExecution(left),
                    cancel,
                } && {
                    &&& held == envelope@
                    &&& left.pending_replies == kept
                    &&& left.tool_calls == waiting.tool_calls
                    &&& left.parent_message_id == waiting.parent_message_id
                    &&& cancel is Some
                    &&& old(run)@.state.current_turn is Some ==> cancel
                        == old(run)@.state.current_turn
                }
            }
            &&& kept.len() == 0 ==> {
                &&& res@ == EnvelopeOutcomeView::Next(ResumePointView::Generation)
                &&& final(run)@.state.messages.len() == n + lost.len() + 1
                &&& final(run)@.state.messages.last().message is User
                &&& final(run)@.reply_target is None
            }
        }),
{
    let before = old(run)@;
    let after = final(run)@;
    let parent = waiting.parent_message_id;
    let gone = waiting.pending_replies.filter(nobody_answers(before, old(calls)@, parent));
    let lost = agent_loop::abandoned(before, old(calls)@, parent, waiting.pending_replies);
    lemma_abandoned(before, old(calls)@, parent, waiting.pending_replies);
    let between = if agent_loop::still_coming(
        before,
        old(calls)@,
        parent,
        waiting.pending_replies,
    ).len() > 0 {
        after
    } else {
        choose|between: LoopView| #[trigger]
            agent_loop::recorded(before, between, lost) && agent_loop::took_up(
                between,
                after,
                envelope@,
            )
    };
    results::lemma_recorded_results(before, between, lost);
    let n = before.state.messages.len() as int;
    assert(between.state.messages.len() <= after.state.messages.len());
    assert(forall|i: int|
        0 <= i < between.state.messages.len() ==> #[trigger] after.state.messages[i]
            == between.state.messages[i]);
    assert(after.state.messages.take(n) =~= between.state.messages.take(n));
    assert forall|k: int| 0 <= k < gone.len() implies {
        let made = results::result(before, after, k);
        &&& results::added(before, after, k).message is Tool
        &&& made.id == (#[trigger] gone[k]).call_id
        &&& made.name == gone[k].tool_name
        &&& made.outcome is Aborted
        &&& made.output == ToolOutputView::Failure("Tool execution was interrupted by the user"@)
        &&& made.started_at == Some(gone[k].started_at)
    } by {
        let record = lost[k];
        let made = results::result(before, between, k);
        assert(results::added(before, between, k).message is Tool);
        assert(results::added(before, after, k) == results::added(before, between, k));
    }
}

}
