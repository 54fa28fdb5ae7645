//! One thread's run through a turn: what each envelope, each answer of the model and each tool
//! result does to the thread, and what the turn owes the outside world when it ends.
//!
//! Every tool message written to history goes out as an event too: whoever follows the events
//! reconstructs history from them, so a silent write would make their view diverge from what is
//! stored.

use crate::agent::{
    AbortedTarget, AbortedTargetView, Agent, AgentEvent, AgentEventView, AgentStateView, Envelope,
    EnvelopeBody, EnvelopeBodyView, EnvelopeView, HistoryEntry, HistoryEntryView, PendingApproval,
    PendingReply, PendingReplyView, PendingToolCall, PendingToolCallView, Receiver, ReceiverView,
    ReplyTarget, ReplyTargetView, ResumeDecision, ResumePoint, ResumePointView, Sender, SenderView,
    ThreadId, ToolCallResolution, ToolCallResolutionView, ToolExecutionState,
    ToolExecutionStateView,
};
use crate::execution::{StoredExecution, StoredExecutionView};
use crate::ids::{self, MessageId, Timestamp, TurnId};
use crate::llm::{
    self, ContentPartView, Message, MessageOrigin, MessageOriginView, MessageView, ToolCall,
    ToolCallOutcome, ToolCallOutcomeView, ToolCallView, ToolMessage, ToolMessageView, ToolOutput,
    ToolOutputView, ToolRecord, UserMessage, UserMessageView,
};
use crate::persist::{self, StoredCheckpoint, StoredCheckpointView, StoredResumePoint};
use crate::runtime::turn::CallLedger;
use crate::subagents::{self, SubAgentMode, SubAgentToolView};
use crate::text;
use std::collections::VecDeque;
use vstd::multiset::Multiset;
use vstd::prelude::*;

verus! {

/// A thread's position under its parent: who spawned it, and the name its own id was derived from.
#[derive(Debug, PartialEq, Eq)]
pub struct OriginThread {
    pub parent_thread_id: String,
    pub derivation_key: String,
}

/// The content of a [`OriginThread`].
#[verifier::ext_equal]
pub struct OriginThreadView {
    pub parent_thread_id: Seq<char>,
    pub derivation_key: Seq<char>,
}

impl View for OriginThread {
    type V = OriginThreadView;

    open spec fn view(&self) -> OriginThreadView {
        OriginThreadView {
            parent_thread_id: self.parent_thread_id@,
            derivation_key: self.derivation_key@,
        }
    }
}

impl DeepView for OriginThread {
    type V = OriginThreadView;

    open spec fn deep_view(&self) -> OriginThreadView {
        self@
    }
}

impl Clone for OriginThread {
    fn clone(&self) -> (res: Self)
        ensures
            res@ == self@,
    {
        OriginThread {
            parent_thread_id: self.parent_thread_id.clone(),
            derivation_key: self.derivation_key.clone(),
        }
    }
}

/// An event, tagged with the turn it belongs to.
#[derive(Debug, PartialEq, Eq)]
pub struct Announcement {
    pub turn: TurnId,
    pub event: AgentEvent,
}

/// The content of a [`Announcement`].
#[verifier::ext_equal]
pub struct AnnouncementView {
    pub turn: TurnId,
    pub event: AgentEventView,
}

impl View for Announcement {
    type V = AnnouncementView;

    open spec fn view(&self) -> AnnouncementView {
        AnnouncementView {
            turn: self.turn,
            event: self.event@,
        }
    }
}

impl DeepView for Announcement {
    type V = AnnouncementView;

    open spec fn deep_view(&self) -> AnnouncementView {
        self@
    }
}

impl Clone for Announcement {
    fn clone(&self) -> (res: Self)
        ensures
            res@ == self@,
    {
        Announcement {
            turn: self.turn,
            event: self.event.clone(),
        }
    }
}

/// What a turn owes the outside world once its state is durable.
#[derive(Debug, PartialEq, Eq)]
pub struct TurnEnd {
    /// The event that announces that the turn is over. `None` when the run exits without announcing
    /// anything: an unexpected envelope, say.
    pub event: Option<AgentEvent>,
    /// The result handed back to the caller. Sub-agents only; a root agent has nobody to answer.
    pub reply: Option<Envelope>,
}

/// The content of a [`TurnEnd`].
#[verifier::ext_equal]
pub struct TurnEndView {
    pub event: Option<AgentEventView>,
    pub reply: Option<EnvelopeView>,
}

impl View for TurnEnd {
    type V = TurnEndView;

    open spec fn view(&self) -> TurnEndView {
        TurnEndView {
            event: self.event.deep_view(),
            reply: self.reply.deep_view(),
        }
    }
}

impl DeepView for TurnEnd {
    type V = TurnEndView;

    open spec fn deep_view(&self) -> TurnEndView {
        self@
    }
}

impl Clone for TurnEnd {
    fn clone(&self) -> (res: Self)
        ensures
            res@ == self@,
    {
        TurnEnd {
            event: self.event.clone(),
            reply: self.reply.clone(),
        }
    }
}

/// What became of an incoming envelope.
#[derive(Debug, PartialEq, Eq)]
pub enum EnvelopeOutcome {
    /// It was taken; the thread goes on from here.
    Next(ResumePoint),
    /// It was not for this thread; the run ends here.
    Done(ResumePoint, TurnEnd),
    /// Refused: the turn in flight is not finished with this thread, either because sub-agents still
    /// owe it answers or because it is parked on an approval nobody answered. The turn winds up
    /// first; whoever holds the envelope tries again once it has.
    Deferred {
        envelope: Envelope,
        resume_point: ResumePoint,
        /// The turn to ask to stop, so that the sub-agents still working for it wind up.
        cancel: Option<TurnId>,
    },
}

/// The content of a [`EnvelopeOutcome`].
#[verifier::ext_equal]
pub enum EnvelopeOutcomeView {
    Next(ResumePointView),
    Done(ResumePointView, TurnEndView),
    Deferred { envelope: EnvelopeView, resume_point: ResumePointView, cancel: Option<TurnId> },
}

impl View for EnvelopeOutcome {
    type V = EnvelopeOutcomeView;

    open spec fn view(&self) -> EnvelopeOutcomeView {
        match self {
            EnvelopeOutcome::Next(a) => EnvelopeOutcomeView::Next(a@),
            EnvelopeOutcome::Done(a, b) => EnvelopeOutcomeView::Done(a@, b@),
            EnvelopeOutcome::Deferred { envelope, resume_point, cancel } => EnvelopeOutcomeView::Deferred {
                envelope: envelope@,
                resume_point: resume_point@,
                cancel: *cancel,
            },
        }
    }
}

impl DeepView for EnvelopeOutcome {
    type V = EnvelopeOutcomeView;

    open spec fn deep_view(&self) -> EnvelopeOutcomeView {
        self@
    }
}

impl Clone for EnvelopeOutcome {
    fn clone(&self) -> (res: Self)
        ensures
            res@ == self@,
    {
        match self {
            EnvelopeOutcome::Next(a) => EnvelopeOutcome::Next(a.clone()),
            EnvelopeOutcome::Done(a, b) => EnvelopeOutcome::Done(a.clone(), b.clone()),
            EnvelopeOutcome::Deferred { envelope, resume_point, cancel } => EnvelopeOutcome::Deferred {
                envelope: envelope.clone(),
                resume_point: resume_point.clone(),
                cancel: *cancel,
            },
        }
    }
}

/// Where a cancelled thread got to.
#[derive(Debug, PartialEq, Eq)]
pub enum WindUp {
    /// Still owed real replies from sub-agents it already dispatched. It parks with them recorded,
    /// and each reply brings it back to try again.
    Waiting(ResumePoint),
    /// Nothing left to wait for, so this is the end of its work.
    Ended(TurnEnd),
}

/// The content of a [`WindUp`].
#[verifier::ext_equal]
pub enum WindUpView {
    Waiting(ResumePointView),
    Ended(TurnEndView),
}

impl View for WindUp {
    type V = WindUpView;

    open spec fn view(&self) -> WindUpView {
        match self {
            WindUp::Waiting(a) => WindUpView::Waiting(a@),
            WindUp::Ended(a) => WindUpView::Ended(a@),
        }
    }
}

impl DeepView for WindUp {
    type V = WindUpView;

    open spec fn deep_view(&self) -> WindUpView {
        self@
    }
}

impl Clone for WindUp {
    fn clone(&self) -> (res: Self)
        ensures
            res@ == self@,
    {
        match self {
            WindUp::Waiting(a) => WindUp::Waiting(a.clone()),
            WindUp::Ended(a) => WindUp::Ended(a.clone()),
        }
    }
}

/// How one step of a run ended.
#[derive(Debug, PartialEq, Eq)]
pub enum LoopStep {
    /// The run goes on from here.
    Next(ResumePoint),
    /// The run ends here.
    Done(ResumePoint, TurnEnd),
}

/// The content of a [`LoopStep`].
#[verifier::ext_equal]
pub enum LoopStepView {
    Next(ResumePointView),
    Done(ResumePointView, TurnEndView),
}

impl View for LoopStep {
    type V = LoopStepView;

    open spec fn view(&self) -> LoopStepView {
        match self {
            LoopStep::Next(a) => LoopStepView::Next(a@),
            LoopStep::Done(a, b) => LoopStepView::Done(a@, b@),
        }
    }
}

impl DeepView for LoopStep {
    type V = LoopStepView;

    open spec fn deep_view(&self) -> LoopStepView {
        self@
    }
}

impl Clone for LoopStep {
    fn clone(&self) -> (res: Self)
        ensures
            res@ == self@,
    {
        match self {
            LoopStep::Next(a) => LoopStep::Next(a.clone()),
            LoopStep::Done(a, b) => LoopStep::Done(a.clone(), b.clone()),
        }
    }
}

impl TurnEndView {
    /// Nothing to announce, and nobody to answer.
    pub open spec fn nothing() -> Self {
        TurnEndView { event: None, reply: None }
    }
}

impl Default for TurnEnd {
    fn default() -> (res: Self)
        ensures
            res@ == TurnEndView::nothing(),
    {
        TurnEnd { event: None, reply: None }
    }
}

/// One thread's run.
pub struct AgentLoop {
    pub agent: Agent,
    pub thread_id: ThreadId,
    /// The turn every event this thread emits belongs to. Refreshed whenever an incoming envelope
    /// opens new work; events raised while cleaning up after the previous one still carry the turn
    /// they are cleaning up.
    pub turn: TurnId,
    pub reply_target: Option<ReplyTarget>,
    /// How this thread was addressed by whoever spawned it. Unlike `reply_target` this outlives the
    /// call that set it: it is the thread's place in the tree, not a pending obligation.
    pub origin_thread: Option<OriginThread>,
    /// The events raised so far, in order.
    pub events: Vec<Announcement>,
}

/// The content of an [`AgentLoop`].
#[verifier::ext_equal]
pub struct LoopView {
    pub name: Seq<char>,
    pub subagents: Seq<SubAgentToolView>,
    pub thread_id: Seq<char>,
    pub state: AgentStateView,
    pub turn: TurnId,
    pub reply_target: Option<ReplyTargetView>,
    pub origin_thread: Option<OriginThreadView>,
    pub events: Seq<AnnouncementView>,
}

impl View for AgentLoop {
    type V = LoopView;

    open spec fn view(&self) -> LoopView {
        LoopView {
            name: self.agent.name@,
            subagents: self.agent.subagents@,
            thread_id: self.thread_id@,
            state: self.agent.state@,
            turn: self.turn,
            reply_target: self.reply_target.deep_view(),
            origin_thread: self.origin_thread.deep_view(),
            events: self.events.deep_view(),
        }
    }
}

impl LoopView {
    /// The run with one more event.
    pub open spec fn announcing(self, event: AgentEventView) -> Self {
        LoopView {
            events: self.events.push(AnnouncementView { turn: self.turn, event }),
            ..self
        }
    }

    /// The run once some tool messages were recorded: each goes to history, under the turn `turn`,
    /// and out as an event.
    pub open spec fn with_results(self, turn: TurnId, messages: Seq<ToolMessageView>) -> Self {
        if messages.len() == 0 {
            self
        } else {
            LoopView {
                state: self.state.appended_all(
                    turn,
                    messages.map_values(|message: ToolMessageView| MessageView::Tool(message)),
                ),
                events: self.events + messages.map_values(
                    |message: ToolMessageView|
                        AnnouncementView {
                            turn: self.turn,
                            event: AgentEventView::ToolCallEnd(message),
                        },
                ),
                ..self
            }
        }
    }

    /// The turn the thread is in: that of its history, or the one it was entered with.
    pub open spec fn thread_turn(self) -> TurnId {
        match self.state.current_turn {
            Some(turn) => turn,
            None => self.turn,
        }
    }
}

/// What some tool messages record of their calls.
pub open spec fn records_of(messages: Seq<ToolMessageView>) -> Seq<ToolRecord> {
    messages.map_values(|message: ToolMessageView| message.record())
}

/// Whether each of these messages has an id of its own minting.
pub open spec fn freshly_minted(messages: Seq<ToolMessageView>) -> bool {
    forall|k: int|
        0 <= k < messages.len() ==> ids::is_random_uuid(
            (#[trigger] messages[k]).message_id.value,
        )
}

/// Whether a run went from `before` to `after` by recording exactly these results, in this order,
/// each in history and as an event. The results' message ids are minted: which ones is chance.
pub open spec fn recorded(before: LoopView, after: LoopView, records: Seq<ToolRecord>) -> bool {
    exists|turn: TurnId, messages: Seq<ToolMessageView>|
        before.state.stamps(turn) && records_of(messages) == records && freshly_minted(messages)
            && after == #[trigger] before.with_results(turn, messages)
}

/// Recording nothing changes nothing.
pub proof fn lemma_recorded_nothing(run: LoopView)
    ensures
        recorded(run, run, Seq::empty()),
{
    let turn = match run.state.current_turn {
        Some(turn) => turn,
        None => TurnId { value: ids::lemma_some_random_uuid() },
    };
    let none = Seq::<ToolMessageView>::empty();
    assert(records_of(none) =~= Seq::empty());
    assert(run == run.with_results(turn, none));
}

/// Results recorded one after the other are recorded together.
pub proof fn lemma_recorded_more(
    before: LoopView,
    between: LoopView,
    after: LoopView,
    first: Seq<ToolRecord>,
    second: Seq<ToolRecord>,
)
    requires
        recorded(before, between, first),
        recorded(between, after, second),
    ensures
        recorded(before, after, first + second),
{
    let (turn, some) = choose|turn: TurnId, messages: Seq<ToolMessageView>|
        before.state.stamps(turn) && records_of(messages) == first && freshly_minted(messages)
            && between == #[trigger] before.with_results(turn, messages);
    let (next, more) = choose|turn: TurnId, messages: Seq<ToolMessageView>|
        between.state.stamps(turn) && records_of(messages) == second && freshly_minted(messages)
            && after == #[trigger] between.with_results(turn, messages);
    let all = some + more;
    assert(freshly_minted(all)) by {
        assert forall|k: int| 0 <= k < all.len() implies ids::is_random_uuid(
            (#[trigger] all[k]).message_id.value,
        ) by {
            if k < some.len() {
                assert(all[k] == some[k]);
            } else {
                assert(all[k] == more[k - some.len()]);
            }
        }
    }
    assert(records_of(all) =~= first + second);
    if some.len() == 0 {
        assert(all =~= more);
        assert(after == before.with_results(next, all));
    } else {
        if more.len() == 0 {
            assert(all =~= some);
        } else {
            assert(next == turn);
            let tool = |message: ToolMessageView| MessageView::Tool(message);
            let tag = |message: MessageView| HistoryEntryView::of(turn, message);
            let event = |message: ToolMessageView|
                AnnouncementView {
                    turn: before.turn,
                    event: AgentEventView::ToolCallEnd(message),
                };
            assert(all.map_values(tool) =~= some.map_values(tool) + more.map_values(tool));
            assert(all.map_values(tool).map_values(tag) =~= some.map_values(tool).map_values(tag)
                + more.map_values(tool).map_values(tag));
            assert(all.map_values(event) =~= some.map_values(event) + more.map_values(event));
            assert(after.state.messages =~= before.with_results(turn, all).state.messages);
            assert(after.events =~= before.with_results(turn, all).events);
            assert(after =~= before.with_results(turn, all));
        }
        assert(after == before.with_results(turn, all));
    }
}

/// Recording results leaves everything but the history, its turn and the events as it was.
pub proof fn lemma_recorded_keeps(before: LoopView, after: LoopView, records: Seq<ToolRecord>)
    requires
        recorded(before, after, records),
    ensures
        after.name == before.name,
        after.subagents == before.subagents,
        after.thread_id == before.thread_id,
        after.turn == before.turn,
        after.reply_target == before.reply_target,
        after.origin_thread == before.origin_thread,
        before.state.current_turn is Some ==> after.state.current_turn
            == before.state.current_turn,
{
}

/// What a run records in history and what it announces agree, result by result.
pub proof fn law_every_recorded_result_is_announced(
    before: LoopView,
    after: LoopView,
    records: Seq<ToolRecord>,
    k: int,
)
    requires
        recorded(before, after, records),
        0 <= k < records.len(),
    ensures
        after.state.messages.len() == before.state.messages.len() + records.len(),
        after.events.len() == before.events.len() + records.len(),
        after.state.messages[before.state.messages.len() + k].message matches MessageView::Tool(
            message,
        ) && message.record() == records[k] && ids::is_random_uuid(message.message_id.value)
            && after.events[before.events.len() + k] == (AnnouncementView {
            turn: before.turn,
            event: AgentEventView::ToolCallEnd(message),
        }),
{
    let (turn, messages) = choose|turn: TurnId, messages: Seq<ToolMessageView>|
        before.state.stamps(turn) && records_of(messages) == records && freshly_minted(messages)
            && after == #[trigger] before.with_results(turn, messages);
    assert(messages.len() == records.len());
    assert(records_of(messages)[k] == messages[k].record());
}

/// What a call that will never run is recorded as.
pub open spec fn interrupted(
    id: Seq<char>,
    name: Seq<char>,
    started_at: Option<Timestamp>,
) -> ToolRecord {
    ToolRecord {
        id,
        name,
        output: ToolOutputView::Failure("Tool execution was interrupted by the user"@),
        outcome: ToolCallOutcomeView::Aborted,
        started_at,
    }
}

/// This thread's place under its caller, as a call announces it. `None` for anything else, since
/// only being called as a tool gives a thread a parent.
pub open spec fn origin_of(envelope: EnvelopeView) -> Option<OriginThreadView> {
    match (envelope.from, envelope.body) {
        (
            SenderView::Agent { thread_id, .. },
            EnvelopeBodyView::ToolCall { derivation_key, .. },
        ) => Some(OriginThreadView { parent_thread_id: thread_id, derivation_key }),
        _ => None,
    }
}

/// Whom the receiver of an envelope answers: the calling agent. `None` for a task, whose sender is
/// the user.
pub open spec fn reply_target_of(envelope: EnvelopeView) -> Option<ReplyTargetView> {
    match (envelope.from, envelope.body) {
        (
            SenderView::Agent { name, thread_id },
            EnvelopeBodyView::ToolCall { call_id, .. },
        ) => Some(
            ReplyTargetView {
                envelope_id: envelope.id,
                sender_name: name,
                sender_thread_id: thread_id,
                call_id,
            },
        ),
        _ => None,
    }
}

/// Whether an envelope asks for work, rather than continuing some.
pub open spec fn opens_work(body: EnvelopeBodyView) -> bool {
    body is Task || body is ToolCall
}

/// Whether `user` is the message that opens the work an envelope asks for, and `turn` its turn. A
/// root task carries the id minted at the request boundary, and that id also names the turn it
/// begins. A sub-agent's invocation mints a message id of its own, inherits the caller's turn, and
/// records the calling thread's tool call as its origin.
pub open spec fn opens(body: EnvelopeBodyView, turn: TurnId, user: UserMessageView) -> bool {
    match body {
        EnvelopeBodyView::Task { message_id, task, images } => {
            &&& turn == ids::turn_opened_by(message_id)
            &&& user == (UserMessageView {
                message_id,
                parts: llm::text_and_images(task, images),
                origin: None,
            })
        },
        EnvelopeBodyView::ToolCall { call_id, parent_message_id, turn_id, task, .. } => {
            &&& turn == turn_id
            &&& ids::is_random_uuid(user.message_id.value)
            &&& user == (UserMessageView {
                message_id: user.message_id,
                parts: seq![ContentPartView::Text { text: task }],
                origin: Some(MessageOriginView { message_id: parent_message_id, call_id }),
            })
        },
        _ => false,
    }
}

/// Whether a run took up the work an envelope asks for: its message opens the turn, and its sender
/// is who gets the answer.
pub open spec fn took_up(before: LoopView, after: LoopView, envelope: EnvelopeView) -> bool {
    exists|turn: TurnId, user: UserMessageView| #[trigger]
        opens(envelope.body, turn, user) && after == (LoopView {
            state: before.state.appended(turn, MessageView::User(user)),
            reply_target: reply_target_of(envelope),
            ..before
        })
}

/// The run with its place in the tree as the envelope announces it. Only a call says something about
/// it; other envelopes leave whatever was restored.
pub open spec fn placed(run: LoopView, envelope: EnvelopeView) -> LoopView {
    match origin_of(envelope) {
        Some(origin) => LoopView { origin_thread: Some(origin), ..run },
        None => run,
    }
}

/// The message that opens the work an envelope asks for, or `None` for envelopes that continue
/// existing work.
pub fn opening_user_message(body: &EnvelopeBody) -> (res: Option<(TurnId, UserMessage)>)
    ensures
        match res {
            Some((turn, user)) => opens_work(body@) && opens(body@, turn, user@),
            None => !opens_work(body@),
        },
{
    match body {
        EnvelopeBody::Task { message_id, task, images } => Some(
            (
                TurnId::from(*message_id),
                UserMessage::with_images(*message_id, task.clone(), images),
            ),
        ),
        EnvelopeBody::ToolCall { call_id, parent_message_id, turn_id, task, .. } => Some(
            (
                *turn_id,
                UserMessage::from_subagent_call(
                    MessageId::new(),
                    task.clone(),
                    MessageOrigin { message_id: *parent_message_id, call_id: call_id.clone() },
                ),
            ),
        ),
        _ => None,
    }
}

/// This thread's place under its caller, as announced by a call.
pub fn origin_thread_from_envelope(envelope: &Envelope) -> (res: Option<OriginThread>)
    ensures
        res.deep_view() == origin_of(envelope@),
{
    match (&envelope.from, &envelope.body) {
        (Sender::Agent { thread_id, .. }, EnvelopeBody::ToolCall { derivation_key, .. }) => Some(
            OriginThread {
                parent_thread_id: thread_id.id.clone(),
                derivation_key: derivation_key.clone(),
            },
        ),
        _ => None,
    }
}

/// Whom the receiver of an envelope answers.
pub fn reply_target_from_envelope(envelope: &Envelope) -> (res: Option<ReplyTarget>)
    ensures
        res.deep_view() == reply_target_of(envelope@),
{
    match (&envelope.from, &envelope.body) {
        (Sender::Agent { name, thread_id }, EnvelopeBody::ToolCall { call_id, .. }) => Some(
            ReplyTarget {
                envelope_id: envelope.id.clone(),
                sender_name: name.clone(),
                sender_thread_id: thread_id.id.clone(),
                call_id: call_id.clone(),
            },
        ),
        _ => None,
    }
}

/// The name a sub-agent's thread is derived from. A one-off thread is named after the invocation: a
/// call id alone is only unique within one assistant message, and reusing it across turns would
/// derive the same thread twice. A thread that keeps a conversation is named after the agent.
pub open spec fn dispatch_key(
    tool: SubAgentToolView,
    parent_message_id: MessageId,
    call_id: Seq<char>,
) -> Seq<char> {
    match tool.mode {
        SubAgentMode::Stateless => MessageOriginView {
            message_id: parent_message_id,
            call_id,
        }.derivation_key(),
        SubAgentMode::Stateful => tool.name,
    }
}

/// Whether the sub-agent a call went to is still working on it.
pub open spec fn being_answered(
    run: LoopView,
    calls: Multiset<Seq<char>>,
    parent_message_id: MessageId,
    pending: PendingReplyView,
) -> bool {
    match subagents::found(run.subagents, pending.tool_name) {
        Some(tool) => calls.count(
            ids::child_id(
                run.thread_id,
                dispatch_key(tool, parent_message_id, pending.call_id),
            ),
        ) > 0,
        None => false,
    }
}

/// The replies that are still coming.
pub open spec fn still_coming(
    run: LoopView,
    calls: Multiset<Seq<char>>,
    parent_message_id: MessageId,
    pending: Seq<PendingReplyView>,
) -> Seq<PendingReplyView>
    decreases pending.len(),
{
    if pending.len() == 0 {
        Seq::empty()
    } else {
        let before = still_coming(run, calls, parent_message_id, pending.drop_last());
        if being_answered(run, calls, parent_message_id, pending.last()) {
            before.push(pending.last())
        } else {
            before
        }
    }
}

/// What is recorded for the replies that will never come.
pub open spec fn abandoned(
    run: LoopView,
    calls: Multiset<Seq<char>>,
    parent_message_id: MessageId,
    pending: Seq<PendingReplyView>,
) -> Seq<ToolRecord>
    decreases pending.len(),
{
    if pending.len() == 0 {
        Seq::empty()
    } else {
        let before = abandoned(run, calls, parent_message_id, pending.drop_last());
        let last = pending.last();
        if being_answered(run, calls, parent_message_id, last) {
            before
        } else {
            before.push(interrupted(last.call_id, last.tool_name, Some(last.started_at)))
        }
    }
}

/// The first pending reply that is answered by an envelope in reply to `reply_to`. Answers are matched
/// by the envelope that carried the call out: a call id is only unique within one assistant message, so
/// an answer to an earlier invocation that reused it would pass for the one being waited on.
pub open spec fn awaited_reply(pending: Seq<PendingReplyView>, reply_to: Option<Seq<char>>) -> Option<
    int,
>
    decreases pending.len(),
{
    if pending.len() == 0 {
        None
    } else {
        match awaited_reply(pending.drop_last(), reply_to) {
            Some(at) => Some(at),
            None => if reply_to == Some(pending.last().call_envelope_id) {
                Some(pending.len() - 1)
            } else {
                None
            },
        }
    }
}

/// What a reply is recorded as: with the outcome the call was authorised with, unless the answerer
/// says it never got to finish.
pub open spec fn reply_record(
    pending: PendingReplyView,
    output: ToolOutputView,
    aborted: bool,
) -> ToolRecord {
    ToolRecord {
        id: pending.call_id,
        name: pending.tool_name,
        output,
        outcome: if aborted {
            ToolCallOutcomeView::Aborted
        } else {
            pending.outcome
        },
        started_at: Some(pending.started_at),
    }
}

/// Where a batch goes on once a reply was taken: to the next generation when nothing is owed any
/// more.
pub open spec fn after_replies(state: ToolExecutionStateView) -> ResumePointView {
    if state.pending_replies.len() == 0 {
        ResumePointView::Generation
    } else {
        ResumePointView::ToolExecution(state)
    }
}

/// How a decision resolves the call `id`: the last resolution that names it, and a rejection where
/// none does.
pub open spec fn resolution_of(
    resolutions: Seq<(Seq<char>, ToolCallResolutionView)>,
    id: Seq<char>,
) -> ToolCallResolutionView
    decreases resolutions.len(),
{
    if resolutions.len() == 0 {
        ToolCallResolutionView::Rejected { reason: None }
    } else if resolutions.last().0 == id {
        resolutions.last().1
    } else {
        resolution_of(resolutions.drop_last(), id)
    }
}

/// The calls a decision lets run.
pub open spec fn approved_calls(
    calls: Seq<ToolCallView>,
    resolutions: Seq<(Seq<char>, ToolCallResolutionView)>,
) -> Seq<PendingToolCallView>
    decreases calls.len(),
{
    if calls.len() == 0 {
        Seq::empty()
    } else {
        let before = approved_calls(calls.drop_last(), resolutions);
        match resolution_of(resolutions, calls.last().id) {
            ToolCallResolutionView::Execute => before.push(
                PendingToolCallView {
                    tool_call: calls.last(),
                    outcome: ToolCallOutcomeView::Approved,
                },
            ),
            _ => before,
        }
    }
}

/// What is recorded for the calls a decision settles without running them.
pub open spec fn settled_calls(
    calls: Seq<ToolCallView>,
    resolutions: Seq<(Seq<char>, ToolCallResolutionView)>,
) -> Seq<ToolRecord>
    decreases calls.len(),
{
    if calls.len() == 0 {
        Seq::empty()
    } else {
        let before = settled_calls(calls.drop_last(), resolutions);
        let call = calls.last();
        match resolution_of(resolutions, call.id) {
            ToolCallResolutionView::Execute => before,
            ToolCallResolutionView::Resolved(output) => before.push(
                ToolRecord {
                    id: call.id,
                    name: call.name,
                    output,
                    outcome: ToolCallOutcomeView::Resolved,
                    started_at: None,
                },
            ),
            ToolCallResolutionView::Rejected { reason } => before.push(
                ToolRecord {
                    id: call.id,
                    name: call.name,
                    output: ToolOutputView::Failure(
                        match reason {
                            Some(text) => text,
                            None => "Rejected by user"@,
                        },
                    ),
                    outcome: ToolCallOutcomeView::Rejected { reason },
                    started_at: None,
                },
            ),
        }
    }
}

/// A decision accounts for every call it is about: each one either runs, as approved, or has its result,
/// and none is lost or added.
pub proof fn law_a_decision_accounts_for_every_call(
    calls: Seq<ToolCallView>,
    resolutions: Seq<(Seq<char>, ToolCallResolutionView)>,
)
    ensures
        approved_calls(calls, resolutions).len() + settled_calls(calls, resolutions).len()
            == calls.len(),
        forall|k: int|
            0 <= k < calls.len() ==> if resolution_of(resolutions, (#[trigger] calls[k]).id)
                == ToolCallResolutionView::Execute {
                approved_calls(calls, resolutions).contains(
                    PendingToolCallView {
                        tool_call: calls[k],
                        outcome: ToolCallOutcomeView::Approved,
                    },
                )
            } else {
                has_result(settled_calls(calls, resolutions), calls[k])
            },
    decreases calls.len(),
{
    if calls.len() > 0 {
        let rest = calls.drop_last();
        let last = calls.last();
        law_a_decision_accounts_for_every_call(rest, resolutions);
        let approved = approved_calls(calls, resolutions);
        let settled = settled_calls(calls, resolutions);
        let approved_before = approved_calls(rest, resolutions);
        let settled_before = settled_calls(rest, resolutions);
        assert forall|k: int| 0 <= k < calls.len() implies if resolution_of(
            resolutions,
            (#[trigger] calls[k]).id,
        ) == ToolCallResolutionView::Execute {
            approved.contains(
                PendingToolCallView {
                    tool_call: calls[k],
                    outcome: ToolCallOutcomeView::Approved,
                },
            )
        } else {
            has_result(settled, calls[k])
        } by {
            let run = PendingToolCallView {
                tool_call: calls[k],
                outcome: ToolCallOutcomeView::Approved,
            };
            let runs = resolution_of(resolutions, calls[k].id) == ToolCallResolutionView::Execute;
            if k < rest.len() {
                assert(rest[k] == calls[k]);
                if runs {
                    let j = approved_before.index_of(run);
                    assert(approved[j] == run);
                } else {
                    let j = choose|j: int|
                        0 <= j < settled_before.len() && answers_call(
                            #[trigger] settled_before[j],
                            calls[k],
                        );
                    assert(settled[j] == settled_before[j]);
                }
            } else if runs {
                assert(approved[approved.len() - 1] == run);
            } else {
                assert(answers_call(settled[settled.len() - 1], last));
            }
        }
    }
}

/// Whether a result answers a call.
pub open spec fn answers_call(record: ToolRecord, call: ToolCallView) -> bool {
    record.id == call.id && record.name == call.name
}

/// Whether one of these results answers a call.
pub open spec fn has_result(records: Seq<ToolRecord>, call: ToolCallView) -> bool {
    exists|j: int| 0 <= j < records.len() && answers_call(#[trigger] records[j], call)
}

/// A call that a decision does not name is rejected.
pub proof fn law_a_call_that_is_not_named_is_rejected(
    resolutions: Seq<(Seq<char>, ToolCallResolutionView)>,
    id: Seq<char>,
)
    requires
        forall|i: int| 0 <= i < resolutions.len() ==> (#[trigger] resolutions[i]).0 != id,
    ensures
        resolution_of(resolutions, id) == (ToolCallResolutionView::Rejected { reason: None }),
    decreases resolutions.len(),
{
    if resolutions.len() > 0 {
        assert(resolutions.last() == resolutions[resolutions.len() - 1]);
        assert forall|i: int| 0 <= i < resolutions.drop_last().len() implies (
        #[trigger] resolutions.drop_last()[i]).0 != id by {
            assert(resolutions.drop_last()[i] == resolutions[i]);
        }
        law_a_call_that_is_not_named_is_rejected(resolutions.drop_last(), id);
    }
}

impl AgentLoop {
    /// Whether two runs belong to the same agent, whatever they did so far.
    pub open spec fn same_agent(self, other: AgentLoop) -> bool {
        self.agent.same_identity(other.agent)
    }

    /// Raise an event.
    pub(crate) fn announce(&mut self, event: AgentEvent)
        ensures
            final(self).same_agent(*old(self)),
            final(self)@ == old(self)@.announcing(event@),
    {
        let turn = self.turn;
        self.events.push(Announcement { turn, event });
        assert(self.events.deep_view() =~= old(self).events.deep_view().push(
            AnnouncementView { turn, event: event@ },
        ));
    }

    /// Append a tool message to history and raise the matching event.
    pub(crate) fn add_tool_message(&mut self, message: ToolMessage)
        requires
            ids::is_random_uuid(message@.message_id.value),
        ensures
            final(self).same_agent(*old(self)),
            recorded(old(self)@, final(self)@, seq![message@.record()]),
    {
        let copy = message.clone();
        self.agent.add_message(Message::Tool(copy));
        let ghost turn = choose|turn: TurnId|
            old(self).agent.state@.stamps(turn) && self.agent.state@ == #[trigger] old(
                self,
            ).agent.state@.appended(turn, MessageView::Tool(message@));
        self.announce(AgentEvent::ToolCallEnd(message));
        proof {
            let messages = seq![message@];
            let before = old(self)@;
            assert(records_of(messages) =~= seq![message@.record()]);
            let tools = messages.map_values(|message: ToolMessageView| MessageView::Tool(message));
            assert(tools =~= seq![MessageView::Tool(message@)]);
            assert(before.state.appended_all(turn, tools).messages =~= before.state.appended(
                turn,
                MessageView::Tool(message@),
            ).messages);
            assert(self@ =~= before.with_results(turn, messages));
        }
    }

    /// Record a call that will never run, so that history holds no tool call without an answer.
    pub(crate) fn write_off(&mut self, call_id: String, tool_name: String, started_at: Option<Timestamp>)
        ensures
            final(self).same_agent(*old(self)),
            recorded(
                old(self)@,
                final(self)@,
                seq![interrupted(call_id@, tool_name@, started_at)],
            ),
    {
        self.add_tool_message(
            ToolMessage::new(
                call_id,
                tool_name,
                ToolOutput::Failure("Tool execution was interrupted by the user".to_owned()),
                ToolCallOutcome::Aborted,
                started_at,
            ),
        );
    }

    /// The turn the thread is in: that of its history, or the one it was entered with.
    pub fn thread_turn(&self) -> (res: TurnId)
        ensures
            res == self@.thread_turn(),
    {
        match self.agent.current_turn() {
            Some(turn) => turn,
            None => self.turn,
        }
    }

    /// Whether the sub-agent this call went to is still working on it here.
    ///
    /// The thread is derived the way the dispatch derived it rather than looked up, because a
    /// sub-agent that has not reached a write point yet owns no checkpoint to find. `false` means
    /// the work went away with an earlier process and no answer is ever coming.
    pub fn is_being_answered(
        &self,
        calls: &CallLedger,
        parent_message_id: MessageId,
        pending: &PendingReply,
    ) -> (res: bool)
        ensures
            res == being_answered(self@, calls@, parent_message_id, pending@),
    {
        match self.agent.subagents.get(pending.tool_name.as_str()) {
            Some(subagent) => {
                let key = match subagent.mode {
                    SubAgentMode::Stateless => MessageOrigin {
                        message_id: parent_message_id,
                        call_id: pending.call_id.clone(),
                    }.derivation_key(),
                    SubAgentMode::Stateful => subagent.name.clone(),
                };
                calls.is_answering(&ThreadId::from_uuid5(&self.thread_id, key.as_str()))
            },
            None => false,
        }
    }
}

/// What a batch that still waits for replies does with an envelope. A reply settles the call that its
/// `reply_to` carried out, which is no longer owed from then on; one that answers no such call leaves
/// the batch as it was. New work first writes off what nobody will answer; what is still
/// being answered has to answer for itself, so the turn is asked to stop and the work is held.
pub open spec fn waiting_batch_handled(
    run: LoopView,
    calls: Multiset<Seq<char>>,
    state: ToolExecutionStateView,
    envelope: EnvelopeView,
    after: LoopView,
    calls_after: Multiset<Seq<char>>,
    outcome: EnvelopeOutcomeView,
) -> bool {
    match envelope.body {
        EnvelopeBodyView::Reply { output, aborted, .. } => {
            &&& calls_after == (match envelope.from {
                SenderView::Agent { thread_id, .. } => calls.remove(thread_id),
                SenderView::User => calls,
            })
            &&& match awaited_reply(state.pending_replies, envelope.reply_to) {
                Some(at) => {
                    &&& recorded(
                        run,
                        after,
                        seq![reply_record(state.pending_replies[at], output, aborted)],
                    )
                    &&& outcome == EnvelopeOutcomeView::Next(
                        after_replies(
                            ToolExecutionStateView {
                                pending_replies: state.pending_replies.remove(at),
                                ..state
                            },
                        ),
                    )
                },
                None => after == run && outcome == EnvelopeOutcomeView::Next(
                    ResumePointView::ToolExecution(state),
                ),
            }
        },
        EnvelopeBodyView::Resume(_) => {
            &&& after == run
            &&& calls_after == calls
            &&& outcome == EnvelopeOutcomeView::Done(
                ResumePointView::ToolExecution(state),
                TurnEndView::nothing(),
            )
        },
        _ => {
            let kept = still_coming(run, calls, state.parent_message_id, state.pending_replies);
            let lost = abandoned(run, calls, state.parent_message_id, state.pending_replies);
            &&& calls_after == calls
            &&& if kept.len() > 0 {
                &&& recorded(run, after, lost)
                &&& outcome == (EnvelopeOutcomeView::Deferred {
                    envelope,
                    resume_point: ResumePointView::ToolExecution(
                        ToolExecutionStateView { pending_replies: kept, ..state },
                    ),
                    cancel: Some(after.thread_turn()),
                })
            } else {
                &&& exists|between: LoopView| #[trigger]
                    recorded(run, between, lost) && took_up(between, after, envelope)
                &&& outcome == EnvelopeOutcomeView::Next(ResumePointView::Generation)
            }
        },
    }
}

/// What a thread parked on an approval does with an envelope. A decision for this very batch settles
/// it; a decision for another batch, identified by the assistant message that asked for it and never
/// by its call ids, leaves the thread parked as it was. Another call is held until the turn has wound
/// up.
pub open spec fn parked_thread_handled(
    run: LoopView,
    parent_message_id: MessageId,
    approvals: Seq<ToolCallView>,
    calls: Seq<PendingToolCallView>,
    envelope: EnvelopeView,
    after: LoopView,
    outcome: EnvelopeOutcomeView,
) -> bool {
    let parked = ResumePointView::PendingApproval {
        parent_message_id,
        pending_approval_calls: approvals,
        pending_calls: calls,
    };
    match envelope.body {
        EnvelopeBodyView::ToolCall { .. } => after == run && outcome == (
        EnvelopeOutcomeView::Deferred { envelope, resume_point: parked, cancel: None }),
        EnvelopeBodyView::Resume(decision) => if decision.parent_message_id != parent_message_id {
            after == run && outcome == EnvelopeOutcomeView::Next(parked)
        } else {
            &&& recorded(run, after, settled_calls(approvals, decision.resolutions))
            &&& outcome == EnvelopeOutcomeView::Next(
                ResumePointView::ToolExecution(
                    ToolExecutionStateView {
                        parent_message_id,
                        pending_replies: Seq::empty(),
                        tool_calls: calls + approved_calls(approvals, decision.resolutions),
                    },
                ),
            )
        },
        _ => after == run && outcome == EnvelopeOutcomeView::Done(parked, TurnEndView::nothing()),
    }
}

/// What a thread does with an envelope.
pub open spec fn envelope_handled(
    before: LoopView,
    calls: Multiset<Seq<char>>,
    point: ResumePointView,
    envelope: EnvelopeView,
    after: LoopView,
    calls_after: Multiset<Seq<char>>,
    outcome: EnvelopeOutcomeView,
) -> bool {
    let run = placed(before, envelope);
    match point {
        ResumePointView::Generation => {
            &&& calls_after == calls
            &&& if opens_work(envelope.body) {
                took_up(run, after, envelope) && outcome == EnvelopeOutcomeView::Next(
                    ResumePointView::Generation,
                )
            } else {
                after == run && outcome == EnvelopeOutcomeView::Done(
                    ResumePointView::Generation,
                    TurnEndView::nothing(),
                )
            }
        },
        ResumePointView::ToolExecution(state) => if state.pending_replies.len() == 0 {
            &&& after == run
            &&& calls_after == calls
            &&& outcome == EnvelopeOutcomeView::Next(ResumePointView::Generation)
        } else {
            waiting_batch_handled(run, calls, state, envelope, after, calls_after, outcome)
        },
        ResumePointView::PendingApproval {
            parent_message_id,
            pending_approval_calls,
            pending_calls,
        } => {
            &&& calls_after == calls
            &&& parked_thread_handled(
                run,
                parent_message_id,
                pending_approval_calls,
                pending_calls,
                envelope,
                after,
                outcome,
            )
        },
    }
}

proof fn lemma_awaited_reply(pending: Seq<PendingReplyView>, reply_to: Seq<char>, at: int)
    requires
        0 <= at < pending.len(),
        pending[at].call_envelope_id == reply_to,
        forall|i: int| 0 <= i < at ==> (#[trigger] pending[i]).call_envelope_id != reply_to,
    ensures
        awaited_reply(pending, Some(reply_to)) == Some(at),
    decreases pending.len(),
{
    let rest = pending.drop_last();
    if at < rest.len() {
        assert forall|i: int| 0 <= i < at implies (#[trigger] rest[i]).call_envelope_id != reply_to by {
            assert(rest[i] == pending[i]);
        }
        lemma_awaited_reply(rest, reply_to, at);
    } else {
        assert forall|i: int| 0 <= i < rest.len() implies Some((#[trigger] rest[i]).call_envelope_id)
            != Some(reply_to) by {
            assert(rest[i] == pending[i]);
        }
        lemma_no_awaited_reply(rest, Some(reply_to));
    }
}

proof fn lemma_no_awaited_reply(pending: Seq<PendingReplyView>, reply_to: Option<Seq<char>>)
    requires
        forall|i: int|
            0 <= i < pending.len() ==> Some((#[trigger] pending[i]).call_envelope_id) != reply_to,
    ensures
        awaited_reply(pending, reply_to) is None,
    decreases pending.len(),
{
    if pending.len() > 0 {
        let rest = pending.drop_last();
        assert forall|i: int| 0 <= i < rest.len() implies Some((#[trigger] rest[i]).call_envelope_id)
            != reply_to by {
            assert(rest[i] == pending[i]);
        }
        assert(pending.last() == pending[pending.len() - 1]);
        lemma_no_awaited_reply(rest, reply_to);
    }
}

/// The position of the pending reply that is answered by an envelope in reply to `reply_to`.
fn find_awaited_reply(pending: &Vec<PendingReply>, reply_to: &Option<String>) -> (res: Option<usize>)
    ensures
        match awaited_reply(pending.deep_view(), reply_to.deep_view()) {
            Some(at) => res == Some(at as usize) && 0 <= at < pending@.len(),
            None => res is None,
        },
{
    let ghost all = pending.deep_view();
    let sought = match reply_to {
        Some(sought) => sought,
        None => {
            proof {
                lemma_no_awaited_reply(all, None);
            }
            return None;
        },
    };
    let n: usize = pending.len();
    let mut i: usize = 0;
    while i < n
        invariant
            i <= n,
            n == pending@.len(),
            all == pending.deep_view(),
            reply_to.deep_view() == Some(sought@),
            forall|j: int| 0 <= j < i ==> (#[trigger] all[j]).call_envelope_id != sought@,
        decreases n - i,
    {
        assert(all[i as int] == pending@[i as int]@);
        if text::same_text(pending[i].call_envelope_id.as_str(), sought.as_str()) {
            proof {
                lemma_awaited_reply(all, sought@, i as int);
            }
            return Some(i);
        }
        i += 1;
    }
    proof {
        lemma_no_awaited_reply(all, Some(sought@));
    }
    None
}

/// How a decision resolves the call `id`.
fn find_resolution(resolutions: &Vec<(String, ToolCallResolution)>, id: &str) -> (res:
    ToolCallResolution)
    ensures
        res@ == resolution_of(resolutions.deep_view(), id@),
{
    let ghost all = resolutions.deep_view();
    let mut n: usize = resolutions.len();
    assert(all.take(n as int) =~= all);
    while n > 0
        invariant
            n <= resolutions@.len(),
            all == resolutions.deep_view(),
            resolution_of(all, id@) == resolution_of(all.take(n as int), id@),
        decreases n,
    {
        let at: usize = n - 1;
        assert(all.take(n as int).drop_last() =~= all.take(at as int));
        assert(all.take(n as int).last() == (
            resolutions@[at as int].0@,
            resolutions@[at as int].1@,
        ));
        if text::same_text(resolutions[at].0.as_str(), id) {
            return resolutions[at].1.clone();
        }
        n = at;
    }
    ToolCallResolution::Rejected { reason: None }
}

impl AgentLoop {
    /// Take up the work an envelope asks for.
    fn take_up(&mut self, envelope: &Envelope)
        requires
            opens_work(envelope.body@),
        ensures
            final(self).same_agent(*old(self)),
            took_up(old(self)@, final(self)@, envelope@),
    {
        self.reply_target = reply_target_from_envelope(envelope);
        match opening_user_message(&envelope.body) {
            Some((turn_id, user)) => {
                self.agent.add_user_message(turn_id, user);
                proof {
                    assert(opens(envelope@.body, turn_id, user@));
                    assert(self@ =~= (LoopView {
                        state: old(self)@.state.appended(turn_id, MessageView::User(user@)),
                        reply_target: reply_target_of(envelope@),
                        ..old(self)@
                    }));
                }
            },
            None => {},
        }
    }

    /// Write off the replies that will never come, and return those that still will.
    fn abandon_unanswered(
        &mut self,
        calls: &CallLedger,
        parent_message_id: MessageId,
        pending: Vec<PendingReply>,
    ) -> (res: Vec<PendingReply>)
        ensures
            final(self).same_agent(*old(self)),
            recorded(
                old(self)@,
                final(self)@,
                abandoned(old(self)@, calls@, parent_message_id, pending.deep_view()),
            ),
            res.deep_view() == still_coming(
                old(self)@,
                calls@,
                parent_message_id,
                pending.deep_view(),
            ),
    {
        let ghost start = self@;
        let ghost all = pending.deep_view();
        let mut kept: Vec<PendingReply> = Vec::new();
        let n: usize = pending.len();
        let mut i: usize = 0;
        proof {
            lemma_recorded_nothing(start);
            assert(kept.deep_view() =~= Seq::empty());
        }
        while i < n
            invariant
                i <= n,
                n == pending@.len(),
                all == pending.deep_view(),
                start == old(self)@,
                self.same_agent(*old(self)),
                recorded(
                    start,
                    self@,
                    abandoned(start, calls@, parent_message_id, all.take(i as int)),
                ),
                kept.deep_view() == still_coming(
                    start,
                    calls@,
                    parent_message_id,
                    all.take(i as int),
                ),
            decreases n - i,
        {
            let ghost before = self@;
            let ghost lost = abandoned(start, calls@, parent_message_id, all.take(i as int));
            let ghost coming = kept.deep_view();
            proof {
                assert(all.take(i + 1).drop_last() =~= all.take(i as int));
                assert(all.take(i + 1).last() == pending@[i as int]@);
                lemma_recorded_keeps(start, before, lost);
            }
            if self.is_being_answered(calls, parent_message_id, &pending[i]) {
                kept.push(pending[i].clone());
                assert(kept.deep_view() =~= coming.push(pending@[i as int]@));
            } else {
                let call_id = pending[i].call_id.clone();
                let tool_name = pending[i].tool_name.clone();
                let started_at = pending[i].started_at;
                self.write_off(call_id, tool_name, Some(started_at));
                proof {
                    let record = interrupted(call_id@, tool_name@, Some(started_at));
                    lemma_recorded_more(start, before, self@, lost, seq![record]);
                    assert(lost + seq![record] =~= lost.push(record));
                }
            }
            i += 1;
        }
        assert(all.take(n as int) =~= all);
        kept
    }

    /// Settle the calls of a batch as a decision resolves them, and return those it lets run.
    fn settle_approvals(
        &mut self,
        approvals: VecDeque<ToolCall>,
        decision: &ResumeDecision,
        calls: VecDeque<PendingToolCall>,
    ) -> (res: VecDeque<PendingToolCall>)
        ensures
            final(self).same_agent(*old(self)),
            recorded(
                old(self)@,
                final(self)@,
                settled_calls(approvals.deep_view(), decision@.resolutions),
            ),
            res.deep_view() == calls.deep_view() + approved_calls(
                approvals.deep_view(),
                decision@.resolutions,
            ),
    {
        let ghost start = self@;
        let ghost all = approvals.deep_view();
        let ghost resolutions = decision@.resolutions;
        let ghost given = calls.deep_view();
        let mut runnable = calls;
        let n: usize = approvals.len();
        let mut i: usize = 0;
        proof {
            lemma_recorded_nothing(start);
            assert(settled_calls(all.take(0), resolutions) =~= Seq::empty());
            assert(runnable.deep_view() =~= given + approved_calls(all.take(0), resolutions));
        }
        while i < n
            invariant
                i <= n,
                n == approvals@.len(),
                all == approvals.deep_view(),
                resolutions == decision@.resolutions,
                start == old(self)@,
                self.same_agent(*old(self)),
                recorded(start, self@, settled_calls(all.take(i as int), resolutions)),
                runnable.deep_view() == given + approved_calls(all.take(i as int), resolutions),
            decreases n - i,
        {
            let ghost before = self@;
            let ghost settled = settled_calls(all.take(i as int), resolutions);
            let ghost queued = runnable.deep_view();
            let call = approvals[i].clone();
            proof {
                assert(all.take(i + 1).drop_last() =~= all.take(i as int));
                assert(all.take(i + 1).last() == call@);
            }
            match find_resolution(&decision.resolutions, call.id.as_str()) {
                ToolCallResolution::Execute => {
                    runnable.push_back(
                        PendingToolCall { tool_call: call, outcome: ToolCallOutcome::Approved },
                    );
                    proof {
                        let next = PendingToolCallView {
                            tool_call: call@,
                            outcome: ToolCallOutcomeView::Approved,
                        };
                        assert(runnable.deep_view() =~= queued.push(next));
                        assert(runnable.deep_view() =~= given + approved_calls(
                            all.take(i + 1),
                            resolutions,
                        ));
                    }
                },
                ToolCallResolution::Resolved(output) => {
                    let message = ToolMessage::new(
                        call.id,
                        call.name,
                        output,
                        ToolCallOutcome::Resolved,
                        None,
                    );
                    let ghost record = message@.record();
                    self.add_tool_message(message);
                    proof {
                        lemma_recorded_more(start, before, self@, settled, seq![record]);
                        assert(settled + seq![record] =~= settled.push(record));
                    }
                },
                ToolCallResolution::Rejected { reason } => {
                    let why = match &reason {
                        Some(text) => text.clone(),
                        None => "Rejected by user".to_owned(),
                    };
                    let message = ToolMessage::new(
                        call.id,
                        call.name,
                        ToolOutput::Failure(why),
                        ToolCallOutcome::Rejected { reason },
                        None,
                    );
                    let ghost record = message@.record();
                    self.add_tool_message(message);
                    proof {
                        lemma_recorded_more(start, before, self@, settled, seq![record]);
                        assert(settled + seq![record] =~= settled.push(record));
                    }
                },
            }
            i += 1;
        }
        assert(all.take(n as int) =~= all);
        runnable
    }

    /// Take an envelope into a batch that still waits for replies.
    fn handle_while_waiting(
        &mut self,
        calls: &mut CallLedger,
        state: ToolExecutionState,
        envelope: Envelope,
    ) -> (res: EnvelopeOutcome)
        requires
            state.pending_replies@.len() > 0,
        ensures
            final(self).same_agent(*old(self)),
            waiting_batch_handled(
                old(self)@,
                old(calls)@,
                state@,
                envelope@,
                final(self)@,
                final(calls)@,
                res@,
            ),
    {
        let mut state = state;
        let ghost given = state@;
        match &envelope.body {
            EnvelopeBody::Reply { output, aborted, .. } => {
                // The obligation ends here rather than at delivery: until the answer has actually
                // been taken, the caller must still treat it as coming.
                match &envelope.from {
                    Sender::Agent { thread_id, .. } => {
                        calls.end(thread_id);
                    },
                    Sender::User => {},
                }
                match find_awaited_reply(&state.pending_replies, &envelope.reply_to) {
                    Some(at) => {
                        let ghost owed = state.pending_replies.deep_view();
                        assert(owed[at as int] == state.pending_replies@[at as int]@);
                        let reply = state.pending_replies.remove(at);
                        assert(state.pending_replies.deep_view() =~= owed.remove(at as int));
                        // How the call was authorised, unless the answerer says it never got to
                        // finish.
                        let outcome = if *aborted {
                            ToolCallOutcome::Aborted
                        } else {
                            reply.outcome.clone()
                        };
                        let message = ToolMessage::new(
                            reply.call_id,
                            reply.tool_name,
                            output.clone(),
                            outcome,
                            Some(reply.started_at),
                        );
                        self.add_tool_message(message);
                        if state.pending_replies.len() == 0 {
                            EnvelopeOutcome::Next(ResumePoint::Generation)
                        } else {
                            EnvelopeOutcome::Next(ResumePoint::ToolExecution(state))
                        }
                    },
                    None => EnvelopeOutcome::Next(ResumePoint::ToolExecution(state)),
                }
            },
            EnvelopeBody::Resume(_) => EnvelopeOutcome::Done(
                ResumePoint::ToolExecution(state),
                TurnEnd::default(),
            ),
            _ => {
                let parent_message_id = state.parent_message_id;
                let mut pending: Vec<PendingReply> = Vec::new();
                std::mem::swap(&mut pending, &mut state.pending_replies);
                let kept = self.abandon_unanswered(calls, parent_message_id, pending);
                if kept.len() > 0 {
                    // A second call reached the same thread while its first call still has live
                    // children. Stop the turn and let those children answer before retrying the held
                    // call.
                    state.pending_replies = kept;
                    let turn = self.thread_turn();
                    EnvelopeOutcome::Deferred {
                        envelope,
                        resume_point: ResumePoint::ToolExecution(state),
                        cancel: Some(turn),
                    }
                } else {
                    let ghost between = self@;
                    self.take_up(&envelope);
                    assert(recorded(
                        old(self)@,
                        between,
                        abandoned(
                            old(self)@,
                            calls@,
                            parent_message_id,
                            given.pending_replies,
                        ),
                    ));
                    EnvelopeOutcome::Next(ResumePoint::Generation)
                }
            },
        }
    }

    /// Take an incoming envelope.
    pub fn handle_envelope(
        &mut self,
        calls: &mut CallLedger,
        resume_point: ResumePoint,
        envelope: Envelope,
    ) -> (res: EnvelopeOutcome)
        ensures
            final(self).same_agent(*old(self)),
            envelope_handled(
                old(self)@,
                old(calls)@,
                resume_point@,
                envelope@,
                final(self)@,
                final(calls)@,
                res@,
            ),
    {
        match origin_thread_from_envelope(&envelope) {
            Some(origin) => {
                self.origin_thread = Some(origin);
            },
            None => {},
        }
        assert(self@ =~= placed(old(self)@, envelope@));
        match resume_point {
            ResumePoint::Generation => match &envelope.body {
                EnvelopeBody::Task { .. } | EnvelopeBody::ToolCall { .. } => {
                    self.take_up(&envelope);
                    EnvelopeOutcome::Next(ResumePoint::Generation)
                },
                _ => EnvelopeOutcome::Done(ResumePoint::Generation, TurnEnd::default()),
            },
            ResumePoint::ToolExecution(state) => {
                if state.pending_replies.len() == 0 {
                    EnvelopeOutcome::Next(ResumePoint::Generation)
                } else {
                    self.handle_while_waiting(calls, state, envelope)
                }
            },
            ResumePoint::PendingApproval {
                parent_message_id,
                pending_approval_calls,
                pending_calls,
            } => match &envelope.body {
                // Another call arrived for a thread parked on an approval. Discarding the parked
                // calls and carrying straight on would end the turn without ever announcing that it
                // stopped, so it winds up before the envelope is retried. A parked thread has
                // dispatched nothing, so there is nobody else to tell.
                EnvelopeBody::ToolCall { .. } => EnvelopeOutcome::Deferred {
                    envelope,
                    resume_point: ResumePoint::PendingApproval {
                        parent_message_id,
                        pending_approval_calls,
                        pending_calls,
                    },
                    cancel: None,
                },
                EnvelopeBody::Resume(decision) => {
                    if decision.parent_message_id != parent_message_id {
                        EnvelopeOutcome::Next(
                            ResumePoint::PendingApproval {
                                parent_message_id,
                                pending_approval_calls,
                                pending_calls,
                            },
                        )
                    } else {
                        let tool_calls = self.settle_approvals(
                            pending_approval_calls,
                            decision,
                            pending_calls,
                        );
                        let pending_replies: Vec<PendingReply> = Vec::new();
                        assert(pending_replies.deep_view() =~= Seq::empty());
                        EnvelopeOutcome::Next(
                            ResumePoint::ToolExecution(
                                ToolExecutionState {
                                    parent_message_id,
                                    pending_replies,
                                    tool_calls,
                                },
                            ),
                        )
                    }
                },
                _ => EnvelopeOutcome::Done(
                    ResumePoint::PendingApproval {
                        parent_message_id,
                        pending_approval_calls,
                        pending_calls,
                    },
                    TurnEnd::default(),
                ),
            },
        }
    }
}

/// Whether `end` is a turn ending: what to announce, plus `output` handed back to whoever called
/// this thread as a tool. A root agent has no caller, so `output` goes nowhere. Only the id of the
/// reply is left open: it is minted.
pub open spec fn is_turn_end(
    run: LoopView,
    target: Option<ReplyTargetView>,
    event: Option<AgentEventView>,
    output: ToolOutputView,
    aborted: bool,
    end: TurnEndView,
) -> bool {
    &&& end.event == event
    &&& match target {
        Some(target) => end.reply matches Some(reply) && ids::is_fresh_id(reply.id) && reply == (
        EnvelopeView {
            id: reply.id,
            from: SenderView::Agent { name: run.name, thread_id: run.thread_id },
            to: ReceiverView { name: target.sender_name, thread_id: target.sender_thread_id },
            reply_to: Some(target.envelope_id),
            body: EnvelopeBodyView::Reply { call_id: target.call_id, output, aborted },
        }),
        None => end.reply is None,
    }
}

/// What is recorded for pending calls that will never run.
pub open spec fn written_off(calls: Seq<PendingToolCallView>) -> Seq<ToolRecord> {
    calls.map_values(
        |call: PendingToolCallView| interrupted(call.tool_call.id, call.tool_call.name, None),
    )
}

/// What is recorded for calls that were never approved.
pub open spec fn never_approved(calls: Seq<ToolCallView>) -> Seq<ToolRecord> {
    calls.map_values(|call: ToolCallView| interrupted(call.id, call.name, None))
}

/// What a wind-up records: the calls that never left this thread. Calls already dispatched to a
/// sub-agent are not among them: that sub-agent is winding up too and will answer for itself.
pub open spec fn unfinished(point: ResumePointView) -> Seq<ToolRecord> {
    match point {
        ResumePointView::Generation => Seq::empty(),
        ResumePointView::ToolExecution(state) => written_off(state.tool_calls),
        ResumePointView::PendingApproval { pending_approval_calls, pending_calls, .. } =>
            never_approved(pending_approval_calls) + written_off(pending_calls),
    }
}

/// The calls that `turn` ended as aborted, in history order.
pub open spec fn aborted_calls(history: Seq<HistoryEntryView>, turn: TurnId) -> Seq<Seq<char>>
    decreases history.len(),
{
    if history.len() == 0 {
        Seq::empty()
    } else {
        let before = aborted_calls(history.drop_last(), turn);
        match history.last().message {
            MessageView::Tool(tool) => if history.last().turn_id == turn
                && tool.outcome is Aborted {
                before.push(tool.id)
            } else {
                before
            },
            _ => before,
        }
    }
}

/// What an abort is announced to have caught: everything the turn ended as aborted, and the
/// generation itself where that is nothing.
pub open spec fn abort_target(run: LoopView) -> AbortedTargetView {
    let caught = aborted_calls(run.state.messages, run.thread_turn());
    if caught.len() == 0 {
        AbortedTargetView::Generation
    } else {
        AbortedTargetView::ToolCalls(caught)
    }
}

/// What an aborted call answers its caller.
pub open spec fn aborted_output() -> ToolOutputView {
    ToolOutputView::Failure("Aborted by user"@)
}

/// How a cancelled thread comes to a stop: what never left it is written off; it waits while replies
/// are still owed, and otherwise its turn is over and its caller is told.
pub open spec fn wound_up(
    before: LoopView,
    point: ResumePointView,
    after: LoopView,
    res: WindUpView,
) -> bool {
    let waits = match point {
        ResumePointView::ToolExecution(state) => state.pending_replies.len() > 0,
        _ => false,
    };
    if waits {
        &&& recorded(before, after, unfinished(point))
        &&& point matches ResumePointView::ToolExecution(state) && res == WindUpView::Waiting(
            ResumePointView::ToolExecution(
                ToolExecutionStateView { tool_calls: Seq::empty(), ..state },
            ),
        )
    } else {
        exists|between: LoopView| #[trigger]
            recorded(before, between, unfinished(point)) && after == (LoopView {
                reply_target: None,
                ..between
            }) && (res matches WindUpView::Ended(end) && is_turn_end(
                between,
                between.reply_target,
                Some(AgentEventView::Aborted(abort_target(between))),
                aborted_output(),
                true,
                end,
            ))
    }
}

impl TurnEndView {
    /// Whether the work the run was doing is over with this: its caller is answered, or its ending is
    /// announced. A suspension is announced too, but the work goes on after it.
    pub open spec fn ends_work(self) -> bool {
        self.reply is Some || match self.event {
            Some(AgentEventView::Suspended(_)) => false,
            Some(_) => true,
            None => false,
        }
    }
}

impl TurnEnd {
    /// Whether the work the run was doing is over with this.
    pub fn ends_work(&self) -> (res: bool)
        ensures
            res == self@.ends_work(),
    {
        self.reply.is_some() || match &self.event {
            Some(AgentEvent::Suspended(_)) => false,
            Some(_) => true,
            None => false,
        }
    }
}

/// The invocation that is stored with a thread, of the one it was last given: none once the work is
/// over. One that answers a caller is also over where there is nobody left to answer, since the answer
/// is taken before the state that precedes it is stored.
pub open spec fn still_active(
    run: LoopView,
    execution: Option<StoredExecutionView>,
    owed: TurnEndView,
) -> Option<StoredExecutionView> {
    match execution {
        Some(invocation) => if owed.ends_work() || (invocation.reply_target() is Some
            && run.reply_target is None) {
            None
        } else {
            Some(invocation)
        },
        None => None,
    }
}

/// A thread's state as it is stored. `owed` is what is handed out once it is.
pub open spec fn checkpoint_of(
    run: LoopView,
    point: ResumePointView,
    suspended_at: Timestamp,
    execution: Option<StoredExecutionView>,
    owed: TurnEndView,
) -> StoredCheckpointView {
    StoredCheckpointView {
        thread_id: run.thread_id,
        agent_name: run.name,
        parent_thread_id: match run.origin_thread {
            Some(origin) => Some(origin.parent_thread_id),
            None => None,
        },
        derivation_key: match run.origin_thread {
            Some(origin) => Some(origin.derivation_key),
            None => None,
        },
        reply_target: run.reply_target,
        messages: run.state.messages,
        state: run.state.state,
        resume_point: persist::stored_resume_point(point),
        suspended_at,
        active_execution: still_active(run, execution, owed),
    }
}

/// A stored thread's place in the tree.
pub open spec fn stored_origin(stored: StoredCheckpointView) -> Option<OriginThreadView> {
    match (stored.parent_thread_id, stored.derivation_key) {
        (Some(parent_thread_id), Some(derivation_key)) => Some(
            OriginThreadView { parent_thread_id, derivation_key },
        ),
        _ => None,
    }
}

/// A run at its start: what was stored of the thread, and nothing of whatever thread the agent
/// worked on before.
pub open spec fn entered(before: LoopView, stored: Option<StoredCheckpointView>) -> LoopView {
    let state = match stored {
        Some(stored) => AgentStateView::restored(stored.messages, stored.state),
        None => AgentStateView::empty(),
    };
    LoopView {
        state,
        turn: match state.current_turn {
            Some(turn) => turn,
            None => before.turn,
        },
        reply_target: match stored {
            Some(stored) => stored.reply_target,
            None => None,
        },
        origin_thread: match stored {
            Some(stored) => stored_origin(stored),
            None => None,
        },
        ..before
    }
}

/// A thread that is entered again is the thread that was stored: its history and recorded state, its
/// caller, its place in the tree, and where it picks up.
pub proof fn law_a_stored_thread_is_restored(
    run: LoopView,
    entering: LoopView,
    point: ResumePointView,
    suspended_at: Timestamp,
    execution: Option<StoredExecutionView>,
    owed: TurnEndView,
)
    ensures
        ({
            let stored = checkpoint_of(run, point, suspended_at, execution, owed);
            let after = entered(entering, Some(stored));
            &&& after.state.messages == run.state.messages
            &&& after.state.state == run.state.state
            &&& after.reply_target == run.reply_target
            &&& after.origin_thread == run.origin_thread
            &&& persist::restored_resume_point(stored.resume_point) == point
            &&& stored.suspended_at == suspended_at
            &&& run.state.messages.len() > 0 ==> after.turn == run.state.messages.last().turn_id
        }),
{
    persist::law_resume_points_survive_storage(point, persist::stored_resume_point(point));
}

/// A thread is stored as working on an invocation exactly while the work goes on: none is left once it
/// is over, and one that is not over stays.
pub proof fn law_finished_work_is_not_active(
    run: LoopView,
    point: ResumePointView,
    suspended_at: Timestamp,
    invocation: StoredExecutionView,
    owed: TurnEndView,
)
    ensures
        ({
            let stored = checkpoint_of(run, point, suspended_at, Some(invocation), owed);
            &&& owed.ends_work() ==> stored.active_execution is None
            &&& !owed.ends_work() && run.reply_target is Some ==> stored.active_execution == Some(
                invocation,
            )
            &&& !owed.ends_work() && invocation.reply_target() is None ==> stored.active_execution
                == Some(invocation)
        }),
{
}

/// A wind-up that ended leaves no call without an answer: each call that was waiting to run or to be
/// approved has its result in history, and the reply the thread owed is on its way.
pub proof fn law_an_ended_wind_up_answers_every_call(
    before: LoopView,
    point: ResumePointView,
    after: LoopView,
    end: TurnEndView,
    k: int,
)
    requires
        wound_up(before, point, after, WindUpView::Ended(end)),
        0 <= k < unfinished(point).len(),
    ensures
        after.state.messages.len() == before.state.messages.len() + unfinished(point).len(),
        after.state.messages[before.state.messages.len() + k].message matches MessageView::Tool(
            message,
        ) && message.record() == unfinished(point)[k],
        end.reply is Some == before.reply_target is Some,
        after.reply_target is None,
{
    let between = choose|between: LoopView| #[trigger]
        recorded(before, between, unfinished(point)) && after == (LoopView {
            reply_target: None,
            ..between
        }) && is_turn_end(
            between,
            between.reply_target,
            Some(AgentEventView::Aborted(abort_target(between))),
            aborted_output(),
            true,
            end,
        );
    law_every_recorded_result_is_announced(before, between, unfinished(point), k);
    lemma_recorded_keeps(before, between, unfinished(point));
}

impl AgentLoop {
    /// Enter a thread: restore what was stored of it, and clear whatever thread the agent worked on
    /// before. Returns where the thread picks up, and since when it has been suspended.
    pub fn enter(&mut self, stored: Option<StoredCheckpoint>) -> (res: (ResumePoint, Timestamp))
        ensures
            final(self).same_agent(*old(self)),
            final(self)@ == entered(old(self)@, stored.deep_view()),
            match stored.deep_view() {
                Some(stored) => res.0@ == persist::restored_resume_point(stored.resume_point)
                    && res.1 == stored.suspended_at,
                None => res.0@ == ResumePointView::Generation && res.1.nanoseconds == 0,
            },
    {
        let res = match stored {
            Some(stored) => {
                self.agent.restore_history(stored.messages, stored.state);
                self.reply_target = stored.reply_target;
                self.origin_thread = match (stored.parent_thread_id, stored.derivation_key) {
                    (Some(parent_thread_id), Some(derivation_key)) => Some(
                        OriginThread { parent_thread_id, derivation_key },
                    ),
                    _ => None,
                };
                (ResumePoint::from(stored.resume_point), stored.suspended_at)
            },
            None => {
                let messages: Vec<HistoryEntry> = Vec::new();
                let entries: Vec<crate::persist::StateEntry> = Vec::new();
                assert(messages.deep_view() =~= Seq::empty());
                assert(entries.deep_view() =~= Seq::empty());
                self.agent.restore_history(messages, entries);
                self.reply_target = None;
                self.origin_thread = None;
                assert(self.agent.state@ =~= AgentStateView::empty());
                (ResumePoint::Generation, Timestamp::default())
            },
        };
        self.turn = self.thread_turn();
        assert(self@ =~= entered(old(self)@, stored.deep_view()));
        res
    }

    /// A thread's checkpoint could not be read: say so. The run ends here. Returns the turn that is over
    /// with it: the root's.
    pub fn load_failed(&mut self, error: &str, is_root: bool) -> (res: Option<TurnId>)
        ensures
            final(self).same_agent(*old(self)),
            final(self)@ == old(self)@.announcing(
                AgentEventView::PersistFailed("failed to load checkpoint: "@ + error@),
            ),
            res == (if is_root {
                Some(old(self)@.turn)
            } else {
                None
            }),
    {
        let mut message = "failed to load checkpoint: ".to_owned();
        message.append(error);
        self.announce(AgentEvent::PersistFailed(message));
        if is_root {
            Some(self.turn)
        } else {
            None
        }
    }

    /// The thread's state as it is to be stored, before what is owed is handed out. `execution` is the
    /// invocation that the thread was last given.
    pub fn checkpoint(
        &self,
        resume_point: ResumePoint,
        suspended_at: Timestamp,
        execution: Option<StoredExecution>,
        owed: &TurnEnd,
    ) -> (res: StoredCheckpoint)
        ensures
            res@ == checkpoint_of(
                self@,
                resume_point@,
                suspended_at,
                execution.deep_view(),
                owed@,
            ),
    {
        let (parent_thread_id, derivation_key) = match &self.origin_thread {
            Some(origin) => (
                Some(origin.parent_thread_id.clone()),
                Some(origin.derivation_key.clone()),
            ),
            None => (None, None),
        };
        let active_execution = match execution {
            Some(invocation) => if owed.ends_work() || (invocation.reply_target().is_some()
                && self.reply_target.is_none()) {
                None
            } else {
                Some(invocation)
            },
            None => None,
        };
        StoredCheckpoint {
            thread_id: self.thread_id.id.clone(),
            agent_name: self.agent.name.clone(),
            parent_thread_id,
            derivation_key,
            reply_target: self.reply_target.clone(),
            messages: self.agent.history(),
            state: self.agent.state_entries(),
            resume_point: StoredResumePoint::from(resume_point),
            suspended_at,
            active_execution,
        }
    }

    /// Package a turn ending.
    pub(crate) fn turn_end(
        &self,
        target: Option<ReplyTarget>,
        event: Option<AgentEvent>,
        output: ToolOutput,
        aborted: bool,
    ) -> (res: TurnEnd)
        ensures
            is_turn_end(self@, target.deep_view(), event.deep_view(), output@, aborted, res@),
    {
        let reply = match target {
            Some(target) => {
                let id = ids::fresh_id();
                Some(
                    Envelope {
                        id,
                        from: Sender::Agent {
                            name: self.agent.name.clone(),
                            thread_id: self.thread_id.clone(),
                        },
                        to: Receiver {
                            name: target.sender_name,
                            thread_id: ThreadId { id: target.sender_thread_id },
                        },
                        reply_to: Some(target.envelope_id),
                        body: EnvelopeBody::Reply { call_id: target.call_id, output, aborted },
                    },
                )
            },
            None => None,
        };
        TurnEnd { event, reply }
    }

    /// The calls this turn ended as aborted, in history order. Read back from history rather than
    /// tallied along the way, because a wind-up finishes in several passes, one per reply still owed,
    /// and the marker has to name everything the abort caught.
    pub fn interrupted_calls(&self) -> (res: Vec<String>)
        ensures
            res.deep_view() == aborted_calls(self@.state.messages, self@.thread_turn()),
    {
        let turn = self.thread_turn();
        let ghost all = self@.state.messages;
        let mut caught: Vec<String> = Vec::new();
        let n: usize = self.agent.state.messages.len();
        let mut i: usize = 0;
        assert(caught.deep_view() =~= aborted_calls(all.take(0), turn));
        while i < n
            invariant
                i <= n,
                n == self.agent.state.messages@.len(),
                all == self@.state.messages,
                caught.deep_view() == aborted_calls(all.take(i as int), turn),
            decreases n - i,
        {
            let entry = &self.agent.state.messages[i];
            let ghost before = caught.deep_view();
            proof {
                assert(all.take(i + 1).drop_last() =~= all.take(i as int));
                assert(all.take(i + 1).last() == entry@);
            }
            match &entry.message {
                Message::Tool(tool) => {
                    let aborted = match &tool.outcome {
                        ToolCallOutcome::Aborted => true,
                        _ => false,
                    };
                    if entry.turn_id == turn && aborted {
                        caught.push(tool.id.clone());
                        assert(caught.deep_view() =~= before.push(tool.id@));
                    }
                },
                _ => {},
            }
            i += 1;
        }
        assert(all.take(n as int) =~= all);
        caught
    }

    /// Write off calls that will never run.
    fn write_off_calls(&mut self, calls: &VecDeque<PendingToolCall>)
        ensures
            final(self).same_agent(*old(self)),
            recorded(old(self)@, final(self)@, written_off(calls.deep_view())),
    {
        let ghost start = self@;
        let ghost all = calls.deep_view();
        let n: usize = calls.len();
        let mut i: usize = 0;
        proof {
            lemma_recorded_nothing(start);
            assert(written_off(all.take(0)) =~= Seq::empty());
        }
        while i < n
            invariant
                i <= n,
                n == calls@.len(),
                all == calls.deep_view(),
                start == old(self)@,
                self.same_agent(*old(self)),
                recorded(start, self@, written_off(all.take(i as int))),
            decreases n - i,
        {
            let ghost before = self@;
            let ghost done = written_off(all.take(i as int));
            let call = &calls[i];
            let ghost record = interrupted(call@.tool_call.id, call@.tool_call.name, None);
            self.write_off(call.tool_call.id.clone(), call.tool_call.name.clone(), None);
            proof {
                lemma_recorded_more(start, before, self@, done, seq![record]);
                assert(all[i as int] == calls@[i as int]@);
                assert(written_off(all.take(i + 1)) =~= done + seq![record]);
            }
            i += 1;
        }
        assert(all.take(n as int) =~= all);
    }

    /// Write off calls that were never approved.
    fn write_off_approvals(&mut self, calls: &VecDeque<ToolCall>)
        ensures
            final(self).same_agent(*old(self)),
            recorded(old(self)@, final(self)@, never_approved(calls.deep_view())),
    {
        let ghost start = self@;
        let ghost all = calls.deep_view();
        let n: usize = calls.len();
        let mut i: usize = 0;
        proof {
            lemma_recorded_nothing(start);
            assert(never_approved(all.take(0)) =~= Seq::empty());
        }
        while i < n
            invariant
                i <= n,
                n == calls@.len(),
                all == calls.deep_view(),
                start == old(self)@,
                self.same_agent(*old(self)),
                recorded(start, self@, never_approved(all.take(i as int))),
            decreases n - i,
        {
            let ghost before = self@;
            let ghost done = never_approved(all.take(i as int));
            let call = &calls[i];
            let ghost record = interrupted(call@.id, call@.name, None);
            self.write_off(call.id.clone(), call.name.clone(), None);
            proof {
                lemma_recorded_more(start, before, self@, done, seq![record]);
                assert(all[i as int] == calls@[i as int]@);
                assert(never_approved(all.take(i + 1)) =~= done + seq![record]);
            }
            i += 1;
        }
        assert(all.take(n as int) =~= all);
    }

    /// Bring a cancelled thread to a stop without inventing anything.
    ///
    /// Calls that never left this thread are written off here: nothing else will ever produce a
    /// result for them. Calls already dispatched to a sub-agent are not: answering on its behalf is
    /// exactly the break this protocol exists to prevent, since its own work may still be reaching
    /// storage.
    pub fn wind_up(&mut self, resume_point: ResumePoint) -> (res: WindUp)
        ensures
            final(self).same_agent(*old(self)),
            wound_up(old(self)@, resume_point@, final(self)@, res@),
    {
        let ghost start = self@;
        let ghost point = resume_point@;
        match resume_point {
            ResumePoint::Generation => {
                proof {
                    lemma_recorded_nothing(start);
                }
            },
            ResumePoint::ToolExecution(state) => {
                self.write_off_calls(&state.tool_calls);
                if state.pending_replies.len() > 0 {
                    let tool_calls: VecDeque<PendingToolCall> = VecDeque::new();
                    assert(tool_calls.deep_view() =~= Seq::empty());
                    return WindUp::Waiting(
                        ResumePoint::ToolExecution(
                            ToolExecutionState {
                                parent_message_id: state.parent_message_id,
                                pending_replies: state.pending_replies,
                                tool_calls,
                            },
                        ),
                    );
                }
            },
            ResumePoint::PendingApproval { pending_approval_calls, pending_calls, .. } => {
                self.write_off_approvals(&pending_approval_calls);
                let ghost between = self@;
                self.write_off_calls(&pending_calls);
                proof {
                    lemma_recorded_more(
                        start,
                        between,
                        self@,
                        never_approved(pending_approval_calls.deep_view()),
                        written_off(pending_calls.deep_view()),
                    );
                }
            },
        }
        let ghost between = self@;
        assert(recorded(start, between, unfinished(point)));
        let caught = self.interrupted_calls();
        let target = self.reply_target.take();
        let aborted = if caught.len() == 0 {
            AbortedTarget::Generation
        } else {
            AbortedTarget::ToolCalls(caught)
        };
        assert(self@ =~= (LoopView { reply_target: None, ..between }));
        let end = self.turn_end(
            target,
            Some(AgentEvent::Aborted(aborted)),
            ToolOutput::Failure("Aborted by user".to_owned()),
            true,
        );
        WindUp::Ended(end)
    }
}

}
