//! How a run starts, goes on and ends, and when its history is summarized on the way.

use crate::agent::{
    AgentEventView, Envelope, HistoryEntry, HistoryEntryView, PendingToolCallView, ResumePoint,
    ResumePointView, ThreadId,
};
use crate::compaction::{self, Cutoff};
use crate::config::ModelProfile;
use crate::execution::StoredExecution;
use crate::ids::{MessageId, Timestamp, TurnId};
use crate::laws::answers;
use crate::laws::request;
use crate::llm::{
    ChatCompletionRequest, CompactionOutcome, CompletionUsage, ContentPartView, MessageView,
    RequestMessageView,
};
use crate::message_view::{self, InvalidHistory};
use crate::persist::{StoredCheckpoint, StoredPendingToolCallView, StoredResumePointView};
use crate::runtime::agent_loop::{AgentLoop, LoopStep, LoopStepView, TurnEnd};
use crate::runtime::auto_compact;
use crate::runtime::generation::StreamItem;
use crate::runtime::turn::CallLedger;
use crate::runtime::turn_run::{
    self, TurnFinish, TurnOutcome, TurnOutcomeView, TurnProgress, TurnProgressView, TurnStart,
    TurnStartView, TurnStep, TurnStepView,
};
use crate::task::TaskId;
use vstd::prelude::*;

verus! {

/// Whether these are the calls that were stored, in order, each with its authorisation.
pub open spec fn same_calls(
    calls: Seq<PendingToolCallView>,
    stored: Seq<StoredPendingToolCallView>,
) -> bool {
    &&& calls.len() == stored.len()
    &&& forall|k: int|
        0 <= k < calls.len() ==> (#[trigger] calls[k]).tool_call == stored[k].tool_call
            && calls[k].outcome == stored[k].outcome
}

/// A thread that is run without an envelope goes on where it was stored, with the history it was stored
/// with, and nothing has to be stored first.
pub proof fn law_a_thread_goes_on_where_it_was(
    run: &mut AgentLoop,
    calls: &mut CallLedger,
    stored: Option<StoredCheckpoint>,
    res: TurnStart,
)
    requires
        call_ensures(AgentLoop::start_turn, (run, calls, stored, None::<Envelope>), res),
    ensures
        final(calls)@ == old(calls)@,
        final(run)@.events == old(run)@.events,
        res@ matches TurnStartView::Proceed { resume_point, suspended_at, save_first }
            && !save_first && (stored is None ==> resume_point is Generation) && (
        stored is Some ==> suspended_at == stored->0@.suspended_at
            && match stored->0@.resume_point {
            StoredResumePointView::Generation => resume_point is Generation,
            StoredResumePointView::ToolExecution(state) => resume_point matches ResumePointView::ToolExecution(
                left,
            ) && left.parent_message_id == state.parent_message_id && left.pending_replies
                == state.pending_replies && same_calls(left.tool_calls, state.tool_calls),
            StoredResumePointView::PendingApproval {
                parent_message_id: asked_by,
                pending_approval_calls: asked,
                pending_calls: ready,
            } => resume_point matches ResumePointView::PendingApproval {
                parent_message_id,
                pending_approval_calls,
                pending_calls,
            } && parent_message_id == asked_by && pending_approval_calls == asked
                && same_calls(pending_calls, ready),
        }),
        stored matches Some(checkpoint) ==> final(run)@.state.messages == checkpoint@.messages
            && final(run)@.state.state == checkpoint@.state && final(run)@.reply_target
            == checkpoint@.reply_target,
        stored is None ==> final(run)@.state.messages.len() == 0 && final(run)@.reply_target is None,
{
}

/// A task is stored before anything is done about it; other envelopes are not.
pub proof fn law_a_task_is_stored_first(
    run: &mut AgentLoop,
    calls: &mut CallLedger,
    stored: Option<StoredCheckpoint>,
    envelope: Envelope,
    res: TurnStart,
)
    requires
        call_ensures(AgentLoop::start_turn, (run, calls, stored, Some(envelope)), res),
    ensures
        res@ matches TurnStartView::Proceed { save_first, .. } ==> (save_first
            <==> envelope@.body is Task),
        res@ matches TurnStartView::Proceed { suspended_at, .. } ==> (stored is Some
            ==> suspended_at == stored->0@.suspended_at),
{
}

/// An envelope that a run does not take comes back as it was, and the answers that are owed stay owed.
/// The run waits for a turn exactly where the thread still waits for replies.
pub proof fn law_a_refused_envelope_comes_back(
    run: &mut AgentLoop,
    calls: &mut CallLedger,
    stored: Option<StoredCheckpoint>,
    envelope: Envelope,
    res: TurnStart,
)
    requires
        call_ensures(AgentLoop::start_turn, (run, calls, stored, Some(envelope)), res),
    ensures
        (res@ matches TurnStartView::Stop { deferred: Some(held), .. }) ==> {
            &&& res@->Stop_deferred == Some(envelope@)
            &&& final(calls)@ == old(calls)@
            &&& res@->Stop_awaiting is Some <==> (
            res@->Stop_finish.resume_point matches ResumePointView::ToolExecution(state)
                && state.pending_replies.len() > 0)
        },
        res@ matches TurnStartView::Stop { finish, .. } ==> !finish.exit_acquired
            && !finish.suspended,
{
}

/// What a run does next is where it stands: it asks the model, carries out its calls as they are, or
/// parks. A run that parks asks for exactly the calls that wait for approval, for its thread and agent.
pub proof fn law_a_run_goes_on_where_it_stands(
    run: &mut AgentLoop,
    point: ResumePoint,
    suspended_at: Timestamp,
    task: Option<TaskId>,
    res: TurnStep,
)
    requires
        call_ensures(AgentLoop::next_step, (run, point, suspended_at, false, false, task), res),
    ensures
        final(run)@ == old(run)@,
        point@ is Generation ==> res@ is Generate,
        point@ matches ResumePointView::ToolExecution(state) ==> res@ == TurnStepView::Execute(
            state,
        ),
        point@ matches ResumePointView::PendingApproval {
            parent_message_id,
            pending_approval_calls,
            ..
        } ==> (res@ matches TurnStepView::Finish(finish) && {
            &&& finish.resume_point == point@
            &&& finish.suspended_at == suspended_at
            &&& !finish.exit_acquired
            &&& finish.owed.reply is None
            &&& finish.suspended <==> pending_approval_calls.len() > 0
            &&& pending_approval_calls.len() == 0 ==> finish.owed.event is None
            &&& pending_approval_calls.len() > 0 ==> (
            finish.owed.event matches Some(AgentEventView::Suspended(asked)) && asked.thread_id
                == old(run)@.thread_id && asked.agent_name == old(run)@.name
                && asked.parent_message_id == parent_message_id && asked.calls
                == pending_approval_calls && asked.suspended_at == suspended_at && asked.task_id
                == task.deep_view())
        }),
{
}

/// A run that finds the session exiting stops where it stands, changes nothing and owes nothing.
pub proof fn law_a_run_stops_for_an_exit(
    run: &mut AgentLoop,
    point: ResumePoint,
    suspended_at: Timestamp,
    cancelled: bool,
    task: Option<TaskId>,
    res: TurnStep,
)
    requires
        call_ensures(AgentLoop::next_step, (run, point, suspended_at, true, cancelled, task), res),
    ensures
        final(run)@ == old(run)@,
        res@ matches TurnStepView::Finish(finish) && finish.exit_acquired && !finish.suspended
            && finish.resume_point == point@ && finish.suspended_at == suspended_at
            && finish.owed.event is None && finish.owed.reply is None,
{
}

/// A cancelled run ends: it neither asks the model nor starts a call, and is not parked.
pub proof fn law_a_cancelled_run_ends(
    run: &mut AgentLoop,
    point: ResumePoint,
    suspended_at: Timestamp,
    task: Option<TaskId>,
    res: TurnStep,
)
    requires
        call_ensures(AgentLoop::next_step, (run, point, suspended_at, false, true, task), res),
    ensures
        res@ matches TurnStepView::Finish(finish) && !finish.exit_acquired && !finish.suspended
            && finish.suspended_at == suspended_at && !(finish.resume_point is PendingApproval),
{
}

/// What is owed is handed out once it is stored: the ending is announced and the reply goes out. Where
/// it cannot be stored neither happens, and the failure is announced in its place.
pub proof fn law_what_is_owed_is_handed_out_once_stored(
    run: &mut AgentLoop,
    saved: Result<(), String>,
    owed: TurnEnd,
    res: (bool, Option<Envelope>),
)
    requires
        call_ensures(AgentLoop::settle_write, (run, saved, owed), res),
    ensures
        final(run)@.state == old(run)@.state,
        final(run)@.reply_target == old(run)@.reply_target,
        res.0 <==> saved is Ok,
        saved is Ok ==> res.1.deep_view() == owed@.reply,
        saved is Ok && owed@.event is None ==> final(run)@.events == old(run)@.events,
        saved is Ok && owed@.event is Some ==> {
            &&& final(run)@.events.len() == old(run)@.events.len() + 1
            &&& final(run)@.events.drop_last() == old(run)@.events
            &&& final(run)@.events.last().event == owed@.event->0
            &&& final(run)@.events.last().turn == old(run)@.turn
        },
        saved matches Err(error) ==> {
            &&& res.1 is None
            &&& final(run)@.events.len() == old(run)@.events.len() + 1
            &&& final(run)@.events.drop_last() == old(run)@.events
            &&& final(run)@.events.last().event == AgentEventView::PersistFailed(error@)
        },
{
    match saved {
        Err(_) => {
            assert(final(run)@.events.drop_last() =~= old(run)@.events);
        },
        Ok(_) => {
            if owed@.event is Some {
                assert(final(run)@.events.drop_last() =~= old(run)@.events);
            }
        },
    }
}

/// A run is reported by how it ended: that it came to the exit, that it is parked, or that it waits for
/// replies; the latter two only once they are stored. The turn is over where the root announced an
/// ending that is stored, and is not parked.
pub proof fn law_how_a_run_is_reported(
    run: &AgentLoop,
    finish: &TurnFinish,
    turn: TurnId,
    persisted: bool,
    is_root: bool,
    res: (TurnOutcome, Option<TurnId>),
)
    requires
        call_ensures(AgentLoop::turn_outcome, (run, finish, turn, persisted, is_root), res),
    ensures
        ({
            let waits = finish@.resume_point matches ResumePointView::ToolExecution(state)
                && state.pending_replies.len() > 0;
            &&& finish@.exit_acquired <==> res.0@ is ExitAcquired
            &&& res.0@ is Suspended <==> !finish@.exit_acquired && finish@.suspended && persisted
            &&& !finish@.exit_acquired && !finish@.suspended && waits && persisted ==> res.0@
                == TurnOutcomeView::AwaitingReplies(turn)
            &&& !finish@.exit_acquired && (!persisted || (!finish@.suspended && !waits))
                ==> res.0@ is Completed
        }),
        res.1 is Some <==> finish@.owed.event is Some && !finish@.suspended && persisted && is_root,
        res.1 is Some && run@.state.current_turn is Some ==> res.1 == run@.state.current_turn,
        res.1 is Some && run@.state.current_turn is None ==> res.1 == Some(run@.turn),
{
}

/// A run that was stopped at its start hands back the envelope it refused, and otherwise is over.
pub proof fn law_how_a_stopped_start_is_reported(
    run: &AgentLoop,
    finish: &TurnFinish,
    deferred: Option<Envelope>,
    awaiting: Option<TurnId>,
    persisted: bool,
    is_root: bool,
    res: (TurnOutcome, Option<TurnId>),
)
    requires
        call_ensures(
            AgentLoop::stop_outcome,
            (run, finish, deferred, awaiting, persisted, is_root),
            res,
        ),
    ensures
        deferred matches Some(held) ==> (res.0@ matches TurnOutcomeView::Deferred {
            envelope,
            awaiting: waits,
        } && envelope == held@ && waits == awaiting),
        deferred is None ==> res.0@ is Completed,
        res.1 is Some <==> finish@.owed.event is Some && !finish@.suspended && persisted && is_root,
{
}

/// A task that could not be stored starts nothing: its run is over at once.
pub proof fn law_a_task_that_is_not_stored_starts_nothing(
    persisted: bool,
    res: Option<TurnOutcome>,
)
    requires
        call_ensures(turn_run::after_first_write, (persisted,), res),
    ensures
        persisted <==> res is None,
        res matches Some(outcome) ==> outcome@ is Completed,
{
}

/// After the model answered a run goes on where the answer leads. A batch that waits for approval has
/// waited from now on; anything else keeps its time.
pub proof fn law_a_run_goes_on_after_an_answer(
    step: LoopStep,
    suspended_at: Timestamp,
    now: Timestamp,
    res: TurnProgress,
)
    requires
        call_ensures(turn_run::after_generation, (step, suspended_at, now), res),
    ensures
        step@ matches LoopStepView::Next(point) ==> (res@ matches TurnProgressView::Continue {
            resume_point,
            suspended_at: since,
        } && resume_point == point && (point is PendingApproval ==> since == now) && (
        !(point is PendingApproval) ==> since == suspended_at)),
        step@ matches LoopStepView::Done(point, end) ==> (res@ matches TurnProgressView::Finish(
            finish,
        ) && finish.resume_point == point && finish.owed == end && finish.suspended_at
            == suspended_at && !finish.suspended && !finish.exit_acquired),
{
}

/// After its calls were carried out a run goes on with the model, or ends and waits for the replies that
/// are still to come, without announcing anything.
pub proof fn law_a_run_goes_on_after_its_calls(
    step: LoopStep,
    suspended_at: Timestamp,
    res: TurnProgress,
)
    requires
        call_ensures(turn_run::after_tools, (step, suspended_at), res),
    ensures
        step@ matches LoopStepView::Next(point) ==> {
            &&& point is ToolExecution ==> (res@ matches TurnProgressView::Finish(finish)
                && finish.resume_point == point && finish.owed.event is None
                && finish.owed.reply is None && !finish.suspended && !finish.exit_acquired)
            &&& !(point is ToolExecution) ==> res@ == (TurnProgressView::Continue {
                resume_point: point,
                suspended_at,
            })
        },
        step@ matches LoopStepView::Done(point, end) ==> (res@ matches TurnProgressView::Finish(
            finish,
        ) && finish.resume_point == point && finish.owed == end && !finish.suspended
            && !finish.exit_acquired),
{
}

/// The root thread is the one named like its session.
pub proof fn law_which_thread_is_the_root(session: &str, thread: &ThreadId, res: bool)
    requires
        call_ensures(turn_run::is_root_thread, (session, thread), res),
    ensures
        res <==> thread@ == session@,
{
}

/// A stored thread is recorded as at work until its work is over: until its caller is answered, or an
/// ending other than a suspension is announced. One that owed a caller an answer it has given is at work
/// for nobody.
pub proof fn law_a_thread_is_stored_at_work_until_it_ends(
    run: &AgentLoop,
    point: ResumePoint,
    suspended_at: Timestamp,
    execution: Option<StoredExecution>,
    owed: &TurnEnd,
    stored: StoredCheckpoint,
)
    requires
        call_ensures(AgentLoop::checkpoint, (run, point, suspended_at, execution, owed), stored),
    ensures
        execution is None ==> stored@.active_execution is None,
        owed@.reply is Some ==> stored@.active_execution is None,
        run@.reply_target is None && execution is Some && execution->0@.completion is Caller
            ==> stored@.active_execution is None,
        owed@.event is Some && !(owed@.event->0 is Suspended) ==> stored@.active_execution is None,
        execution is Some && owed@.reply is None && (owed@.event is None
            || owed@.event->0 is Suspended) && (run@.reply_target is Some
            || !(execution->0@.completion is Caller)) ==> stored@.active_execution == Some(
            execution->0@,
        ),
        run@.origin_thread matches Some(origin) ==> stored@.parent_thread_id == Some(
            origin.parent_thread_id,
        ) && stored@.derivation_key == Some(origin.derivation_key),
        run@.origin_thread is None ==> stored@.parent_thread_id is None
            && stored@.derivation_key is None,
        point@ is Generation <==> stored@.resume_point is Generation,
        point@ is PendingApproval <==> stored@.resume_point is PendingApproval,
{
}

/// A history is summarized on the way once its last answer reached the threshold, and then as a
/// compaction would cut it that spares the current turn and the prompt that the model has not read. Below
/// the threshold, and where no usage is known, it is left alone.
pub proof fn law_when_a_history_is_summarized_on_the_way(
    history: &[HistoryEntry],
    usage: Option<CompletionUsage>,
    turn: Option<TurnId>,
    threshold: u32,
    res: Result<Option<Cutoff>, InvalidHistory>,
    seen: Vec<&HistoryEntry>,
    protect: Option<MessageId>,
    planned: Result<Option<Cutoff>, InvalidHistory>,
)
    requires
        call_ensures(auto_compact::auto_cutoff, (history, usage, turn, threshold), res),
        call_ensures(message_view::model_view, (history,), seen),
        seen.deep_view().len() > 0 && seen.deep_view().last().message is User ==> protect == Some(
            request::id_of(seen.deep_view().last().message),
        ),
        !(seen.deep_view().len() > 0 && seen.deep_view().last().message is User)
            ==> protect is None,
        call_ensures(compaction::cutoff, (history, turn, protect, Some(threshold)), planned),
    ensures
        usage is None || usage->0.total_tokens < threshold ==> res matches Ok(None),
        usage is Some && usage->0.total_tokens >= threshold ==> {
            &&& res is Ok <==> planned is Ok
            &&& res is Ok ==> res->Ok_0 == planned->Ok_0
            &&& res is Err ==> res->Err_0@ == planned->Err_0@
        },
{
}

/// The newest known usage of a history: that of the last answer that has one.
pub open spec fn is_newest_usage(
    history: Seq<HistoryEntryView>,
    usage: Option<CompletionUsage>,
    at: int,
) -> bool {
    match usage {
        Some(known) => {
            &&& 0 <= at < history.len()
            &&& history[at].message matches MessageView::Assistant(answer) && answer.usage == Some(
                known,
            )
            &&& forall|i: int|
                at < i < history.len() ==> ((#[trigger] history[i]).message is Assistant
                    ==> history[i].message->Assistant_0.usage is None)
        },
        None => forall|i: int|
            0 <= i < history.len() ==> ((#[trigger] history[i]).message is Assistant
                ==> history[i].message->Assistant_0.usage is None),
    }
}

pub proof fn lemma_newest_usage(
    history: Seq<HistoryEntryView>,
    usage: Option<CompletionUsage>,
    at: int,
)
    requires
        is_newest_usage(history, usage, at),
    ensures
        crate::agent::latest_usage(history) == usage,
    decreases history.len(),
{
    if history.len() > 0 {
        let fewer = history.drop_last();
        assert(history.last() == history[history.len() - 1]);
        if usage is Some && at == history.len() - 1 {
        } else {
            assert(history[history.len() - 1].message is Assistant
                ==> history[history.len() - 1].message->Assistant_0.usage is None);
            assert forall|i: int| 0 <= i < fewer.len() implies #[trigger] fewer[i] == history[i] by {}
            assert(is_newest_usage(fewer, usage, at));
            lemma_newest_usage(fewer, usage, at);
        }
    }
}

/// A run that is due summarizes the front of what the model sees, up to where it may cut, and names what
/// that covers; its own state is left as it is. It is due exactly where its history is.
pub proof fn law_a_due_run_summarizes_the_front<P>(
    run: &mut AgentLoop,
    profile: &ModelProfile<P>,
    prompt: &str,
    res: Option<(ChatCompletionRequest, MessageId)>,
    history: &[HistoryEntry],
    seen: Vec<&HistoryEntry>,
    usage: Option<CompletionUsage>,
    at: int,
    due: Result<Option<Cutoff>, InvalidHistory>,
    front: &Vec<&HistoryEntry>,
    written: String,
)
    requires
        call_ensures(AgentLoop::begin_compaction::<P>, (run, profile, prompt), res),
        history.deep_view() == old(run)@.state.messages,
        call_ensures(message_view::model_view, (history,), seen),
        is_newest_usage(history.deep_view(), usage, at),
        call_ensures(
            auto_compact::auto_cutoff,
            (history, usage, old(run)@.state.current_turn, profile.auto_compact_threshold_tokens),
            due,
        ),
        due matches Ok(Some(cutoff)) ==> front.deep_view() == seen.deep_view().take(
            cutoff.model_view_len as int,
        ),
        call_ensures(compaction::transcript, (front,), written),
    ensures
        final(run)@.state == old(run)@.state,
        !(due matches Ok(Some(_))) ==> res is None && final(run)@ == old(run)@,
        due matches Ok(Some(cutoff)) ==> {
            &&& final(run)@.events.len() == old(run)@.events.len() + 1
            &&& final(run)@.events.last().event is CompactionStart
            &&& res matches Some((request, covered)) && covered == cutoff.coverage_message_id
                && request@.model == profile.model@ && request@.max_completion_tokens
                == profile.max_completion_tokens && request@.tools.len() == 0
                && request@.messages.len() == 2 && (
            request@.messages[0] matches RequestMessageView::System(system) && system.text
                == prompt@) && (request@.messages[1] matches RequestMessageView::User(user)
                && user.parts.len() == 1 && (user.parts[0] matches ContentPartView::Text { text }
                && crate::laws::compaction::says(text, written@)))
        },
{
    lemma_newest_usage(history.deep_view(), usage, at);
    match due {
        Ok(Some(cutoff)) => {
            let entries = front.deep_view();
            let text = compaction::summary_task(entries, Seq::empty());
            crate::laws::compaction::lemma_says(
                text,
                "<transcript>\n"@,
                written@,
                "</transcript>\n"@,
            );
        },
        _ => {},
    }
}

/// What a summary came to is put on record and announced: the summary of what it covers, ending with the
/// text that was given, or the failure with its reason. The history before it stays as it was.
pub proof fn law_a_summary_on_the_way_is_put_on_record(
    run: &mut AgentLoop,
    covered: MessageId,
    summary: Result<String, String>,
)
    requires
        call_ensures(AgentLoop::finish_compaction, (run, covered, summary), ()),
    ensures
        answers::adds_message(old(run)@, final(run)@),
        final(run)@.reply_target == old(run)@.reply_target,
        final(run)@.events.len() == old(run)@.events.len() + 1,
        final(run)@.state.messages.last().message matches MessageView::Compaction(record) && {
            &&& final(run)@.events.last().event == AgentEventView::CompactionEnd(record)
            &&& summary matches Ok(text) ==> record.outcome == (CompactionOutcome::Summary {
                cutoff: covered,
            }) && record.content
                == "[compacted automatically: token usage reached the configured limit]\n\n"@ + text@
            &&& summary matches Err(reason) ==> record.outcome is Failed && record.content
                == "Compaction failed, so the conversation was left as it is: "@ + reason@
        },
{
    assert(final(run)@.state.messages.drop_last() =~= old(run)@.state.messages);
}

/// A summary is the content of the message that completes its stream; everything else that ends the
/// stream is a failure, with its reason, and what only arrives on the way ends nothing.
pub proof fn law_a_summary_is_what_the_model_completed(
    item: StreamItem,
    res: Option<Result<String, String>>,
)
    requires
        call_ensures(auto_compact::summary_item, (item,), res),
    ensures
        item matches StreamItem::Completed(message) ==> (res matches Some(Ok(text)) && text@
            == message.content@),
        item matches StreamItem::Failed(error) ==> (res matches Some(Err(reason)) && reason@
            == error@),
        item is ContentChunk || item is ReasoningChunk ==> res is None,
        item is Ended ==> (res matches Some(Err(reason)) && reason@
            == "Invalid response: LLM stream ended without Completed event"@),
        item is Cancelled ==> (res matches Some(Err(reason)) && reason@
            == "interrupted by the user"@),
{
}

/// A thread that could not be read is announced as failed, with the reason, and nothing of it is run;
/// the root closes its turn.
pub proof fn law_a_thread_that_cannot_be_read_is_reported(
    run: &mut AgentLoop,
    error: &str,
    is_root: bool,
    res: Option<TurnId>,
)
    requires
        call_ensures(AgentLoop::load_failed, (run, error, is_root), res),
    ensures
        final(run)@.state == old(run)@.state,
        final(run)@.events.len() == old(run)@.events.len() + 1,
        final(run)@.events.drop_last() == old(run)@.events,
        final(run)@.events.last().event == AgentEventView::PersistFailed(
            "failed to load checkpoint: "@ + error@,
        ),
        is_root ==> res == Some(old(run)@.turn),
        !is_root ==> res is None,
{
    assert(final(run)@.events.drop_last() =~= old(run)@.events);
}

}
