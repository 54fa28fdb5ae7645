//! What a driver works on, and what it leaves.

use crate::agent::{AgentEventView, Envelope, EnvelopeBodyView, ResumeDecision, ThreadId};
use crate::runtime::driver::{
    self, AgentControl, DriverState, DriverView, Interruption, WaitEvent, WaitNext, WaitNextView,
    Work, WorkView,
};
use crate::runtime::turn::TurnGate;
use crate::runtime::turn_run::{TurnOutcome, TurnOutcomeView};
use vstd::prelude::*;

verus! {

/// A driver that is started with a decision has it to carry out first; one that is started on a thread
/// alone goes on with that thread.
pub proof fn law_what_a_driver_starts_with(
    agent: &str,
    active: Option<ThreadId>,
    decision: Option<ResumeDecision>,
    id: String,
    res: DriverState,
)
    requires
        call_ensures(DriverState::new, (agent, active, decision, id), res),
    ensures
        res@.deferred.len() == 0,
        res@.awaiting_replies is None,
        res@.suspended_thread is None,
        active is Some && decision is Some ==> {
            &&& res@.active_thread is None
            &&& res@.pending_resume matches Some(envelope) && envelope.id == id@
                && envelope.to.name == agent@ && envelope.to.thread_id == active->0@
                && envelope.from is User && envelope.reply_to is None && envelope.body
                == EnvelopeBodyView::Resume(decision->0@)
        },
        !(active is Some && decision is Some) ==> res@.pending_resume is None && res@.active_thread
            == active.deep_view(),
{
}

/// A driver carries out a decision it was started with first, then goes on with its thread, then takes
/// the oldest envelope that was held back, once no answers are waited for. Otherwise it waits. What it
/// takes it takes once, and the rest stays in order.
pub proof fn law_what_a_driver_does_next(driver: &mut DriverState, res: Work)
    requires
        call_ensures(DriverState::next_work, (driver,), res),
    ensures
        ({
            let before = old(driver)@;
            let after = final(driver)@;
            &&& after.suspended_thread == before.suspended_thread
            &&& after.awaiting_replies == before.awaiting_replies
            &&& before.pending_resume is Some ==> {
                &&& res@ == (WorkView::Run {
                    thread_id: before.pending_resume->0.to.thread_id,
                    envelope: before.pending_resume,
                })
                &&& after.pending_resume is None
                &&& after.active_thread == Some(before.pending_resume->0.to.thread_id)
                &&& after.deferred == before.deferred
            }
            &&& before.pending_resume is None && before.active_thread is Some ==> {
                &&& res@ == (WorkView::Run {
                    thread_id: before.active_thread->0,
                    envelope: None,
                })
                &&& after == before
            }
            &&& before.pending_resume is None && before.active_thread is None && (
            before.awaiting_replies is Some || before.deferred.len() == 0) ==> res@ is Wait
                && after == before
            &&& before.pending_resume is None && before.active_thread is None
                && before.awaiting_replies is None && before.deferred.len() > 0 ==> {
                &&& res@ == (WorkView::Run {
                    thread_id: before.deferred[0].to.thread_id,
                    envelope: Some(before.deferred[0]),
                })
                &&& after.active_thread == Some(before.deferred[0].to.thread_id)
                &&& before.deferred == seq![before.deferred[0]] + after.deferred
            }
        }),
{
    let before = old(driver)@;
    if before.pending_resume is None && before.active_thread is None
        && before.awaiting_replies is None && before.deferred.len() > 0 {
        assert(before.deferred =~= seq![before.deferred[0]] + final(driver)@.deferred);
    }
}

/// An envelope that arrives is run on the thread it is addressed to, as it arrived. It ends the waiting
/// of a parked thread; nothing that is held back is touched.
pub proof fn law_an_arriving_envelope_is_run(
    driver: &mut DriverState,
    event: WaitEvent,
    parked_cancelled: bool,
    res: WaitNext,
)
    requires
        call_ensures(DriverState::on_wait, (driver, event, parked_cancelled), res),
    ensures
        final(driver)@.deferred == old(driver)@.deferred,
        final(driver)@.pending_resume == old(driver)@.pending_resume,
        event matches WaitEvent::Envelope(Some(envelope)) ==> {
            &&& res@ == (WaitNextView::Run {
                thread_id: envelope@.to.thread_id,
                envelope: envelope@,
            })
            &&& final(driver)@.active_thread == Some(envelope@.to.thread_id)
            &&& final(driver)@.suspended_thread is None
            &&& final(driver)@.awaiting_replies == old(driver)@.awaiting_replies
        },
        event matches WaitEvent::Envelope(None) ==> res@ is Exit && final(driver)@ == old(driver)@,
{
}

/// A request to stop wakes a parked thread whose turn was stopped, and nothing else. Any other command
/// ends the driver, which then leaves the parked thread as unfinished.
pub proof fn law_what_a_command_does_to_a_waiting_driver(
    driver: &mut DriverState,
    event: WaitEvent,
    parked_cancelled: bool,
    res: WaitNext,
)
    requires
        call_ensures(DriverState::on_wait, (driver, event, parked_cancelled), res),
    ensures
        event matches WaitEvent::Control(command) ==> {
            let before = old(driver)@;
            let after = final(driver)@;
            &&& after.awaiting_replies == before.awaiting_replies
            &&& command == Some(AgentControl::Abort) ==> {
                &&& res@ is Again
                &&& before.suspended_thread is Some && parked_cancelled ==> after.active_thread
                    == before.suspended_thread && after.suspended_thread is None
                &&& !(before.suspended_thread is Some && parked_cancelled) ==> after == before
            }
            &&& command != Some(AgentControl::Abort) ==> res@ is Exit && after.active_thread
                == before.suspended_thread && after.suspended_thread is None
        },
{
}

/// A wait that runs out gives up on the answers that were waited for, and says so for the thread and the
/// turn that waited. Where none were, nothing happens.
pub proof fn law_a_wait_that_runs_out_is_given_up(
    driver: &mut DriverState,
    event: WaitEvent,
    parked_cancelled: bool,
    res: WaitNext,
)
    requires
        call_ensures(DriverState::on_wait, (driver, event, parked_cancelled), res),
        event is TimedOut,
    ensures
        old(driver)@.awaiting_replies is None ==> res@ is Again && final(driver)@ == old(driver)@,
        old(driver)@.awaiting_replies matches Some(awaited) ==> {
            &&& res@ matches WaitNextView::GiveUp { thread_id, turn, event: told } && thread_id
                == awaited.thread_id && turn == awaited.turn && told
                == AgentEventView::PersistFailed(
                "sub-agents did not finish saving after the turn was stopped"@,
            )
            &&& final(driver)@.awaiting_replies is None
            &&& final(driver)@.active_thread == old(driver)@.active_thread
            &&& final(driver)@.suspended_thread == old(driver)@.suspended_thread
        },
{
}

/// A run that ends leaves the driver idle. An envelope that the run refused is held back behind those
/// held back before it, unchanged; what the thread waits for is remembered, and forgotten once the run
/// completes.
pub proof fn law_what_a_run_leaves(
    driver: &mut DriverState,
    thread: ThreadId,
    outcome: Option<TurnOutcome>,
    interrupted: bool,
    exiting: bool,
    turn_cancelled: bool,
    res: bool,
)
    requires
        call_ensures(
            DriverState::on_outcome,
            (driver, thread, outcome, interrupted, exiting, turn_cancelled),
            res,
        ),
    ensures
        ({
            let before = old(driver)@;
            let after = final(driver)@;
            &&& after.pending_resume == before.pending_resume
            &&& !(outcome.deep_view() matches Some(TurnOutcomeView::Deferred { .. }))
                ==> after.deferred == before.deferred
            &&& outcome.deep_view() matches Some(
                TurnOutcomeView::Deferred { envelope, awaiting },
            ) ==> {
                &&& after.deferred == before.deferred.push(envelope)
                &&& after.active_thread is None
                &&& awaiting is None ==> after.awaiting_replies is None
                &&& awaiting matches Some(turn) ==> (after.awaiting_replies matches Some(awaited)
                    && awaited.thread_id == thread@ && awaited.turn == turn)
            }
            &&& outcome.deep_view() matches Some(TurnOutcomeView::AwaitingReplies(turn)) ==> {
                &&& after.active_thread is None
                &&& after.awaiting_replies matches Some(awaited) && awaited.thread_id == thread@
                    && awaited.turn == turn
            }
            &&& outcome.deep_view() matches Some(TurnOutcomeView::Completed)
                ==> after.awaiting_replies is None && after.active_thread is None
            &&& outcome is None ==> after == (DriverView { active_thread: None, ..before })
        }),
{
}

/// A run that was parked for approval leaves its thread parked, unless it was interrupted by a stop of
/// its turn or by an exit: then the thread stays the one to go on with.
pub proof fn law_a_parked_run_is_remembered(
    driver: &mut DriverState,
    thread: ThreadId,
    outcome: Option<TurnOutcome>,
    interrupted: bool,
    exiting: bool,
    turn_cancelled: bool,
    res: bool,
)
    requires
        call_ensures(
            DriverState::on_outcome,
            (driver, thread, outcome, interrupted, exiting, turn_cancelled),
            res,
        ),
        outcome.deep_view() matches Some(TurnOutcomeView::Suspended),
    ensures
        interrupted && (exiting || turn_cancelled) ==> final(driver)@ == old(driver)@,
        !(interrupted && (exiting || turn_cancelled)) ==> final(driver)@.suspended_thread
            == old(driver)@.active_thread && final(driver)@.active_thread is None,
{
}

/// A driver ends after a run exactly where the run was interrupted and the session exits, or where the
/// run itself came to the exit.
pub proof fn law_when_a_driver_ends(
    driver: &mut DriverState,
    thread: ThreadId,
    outcome: Option<TurnOutcome>,
    interrupted: bool,
    exiting: bool,
    turn_cancelled: bool,
    res: bool,
)
    requires
        call_ensures(
            DriverState::on_outcome,
            (driver, thread, outcome, interrupted, exiting, turn_cancelled),
            res,
        ),
    ensures
        interrupted && exiting ==> res,
        interrupted && !exiting ==> !res,
        !interrupted ==> (res <==> (outcome.deep_view() matches Some(
            TurnOutcomeView::ExitAcquired,
        ))),
{
}

/// A driver leaves everything it had not taken: what was held back first, then what was still to come,
/// and the thread it had not finished.
pub proof fn law_a_driver_leaves_everything_it_had(
    driver: DriverState,
    remaining: Vec<Envelope>,
    res: (Vec<Envelope>, Option<ThreadId>),
)
    requires
        call_ensures(DriverState::leave, (driver, remaining), res),
    ensures
        res.0.deep_view() == driver@.deferred + remaining.deep_view(),
        res.1.deep_view() == driver@.active_thread,
{
}

/// A request to stop cancels a run, an exit lets it end first, and stopping a background task does both.
/// Where nobody can command any more the run is cancelled.
pub proof fn law_how_a_run_is_interrupted(command: Option<AgentControl>, res: Interruption)
    requires
        call_ensures(driver::interrupt, (command,), res),
    ensures
        res.cancel <==> command != Some(AgentControl::Exit),
        res.exit <==> command == Some(AgentControl::Exit) || command == Some(
            AgentControl::StopScope,
        ),
{
}

/// The wait for answers is bounded exactly where the root thread waits in a turn that was stopped.
pub proof fn law_when_a_wait_is_bounded(
    driver: &DriverState,
    session: &str,
    gate: &TurnGate,
    res: bool,
)
    requires
        call_ensures(DriverState::wind_up_is_capped, (driver, session, gate), res),
    ensures
        res <==> driver@.awaiting_replies is Some && driver@.awaiting_replies->0.thread_id
            == session@ && gate.cancelled && gate.active == Some(driver@.awaiting_replies->0.turn),
{
}

}
