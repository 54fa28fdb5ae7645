//! What an agent is set up with, and how its messages are made.

use crate::agent::{
    Envelope, EnvelopeBody, EnvelopeBodyView, PendingReply, ReplyTarget, SenderView, ThreadId,
};
use crate::capabilities::{Capabilities, Capability, UnknownCapability};
use crate::config::{AgentRunConfig, RunConfig};
use crate::ids::{self, MessageId, Timestamp, TurnId};
use crate::laws::tool_calls;
use crate::llm::{
    CompactionMessage, CompactionOutcome, ContentPartView, Message, MessageOrigin, MessageView,
    RequestMessage, RequestMessageView, ToolCallOutcome, ToolDefinition, ToolMessage, ToolOutput,
    UserMessage,
};
use crate::runtime::agent_loop::{self, AgentLoop, OriginThread};
use crate::runtime::error::SendCommandError;
use crate::runtime::turn::CallLedger;
use crate::subagents::{SubAgentTool, SubAgents};
use vstd::prelude::*;

verus! {

/// The capabilities that have a name, and no others.
pub proof fn law_the_names_of_the_capabilities(name: &str, res: Option<Capability>)
    requires
        call_ensures(Capability::named, (name,), res),
    ensures
        res == Some(Capability::Background) <==> name@ == "background"@,
        res == Some(Capability::Ptc) <==> name@ == "ptc"@,
{
    reveal_strlit("background");
    reveal_strlit("ptc");
    assert("background"@.len() != "ptc"@.len());
    assert(Capability::Background.name() == "background"@);
    assert(Capability::Ptc.name() == "ptc"@);
    match res {
        Some(capability) => match capability {
            Capability::Background => {},
            Capability::Ptc => {},
        },
        None => {},
    }
}

proof fn lemma_unknown(names: Seq<Seq<char>>, at: int)
    ensures
        (forall|i: int|
            0 <= i < names.len() ==> (#[trigger] names[i]) == "background"@ || names[i] == "ptc"@)
            ==> crate::capabilities::first_unknown(names) is None,
        0 <= at < names.len() && names[at] != "background"@ && names[at] != "ptc"@ && (forall|i: int|
            0 <= i < at ==> (#[trigger] names[i]) == "background"@ || names[i] == "ptc"@)
            ==> crate::capabilities::first_unknown(names) == Some(at),
    decreases names.len(),
{
    if names.len() > 0 {
        let fewer = names.drop_last();
        let last = names.last();
        assert(last == names[names.len() - 1]);
        assert forall|i: int| 0 <= i < fewer.len() implies #[trigger] fewer[i] == names[i] by {}
        lemma_unknown(fewer, at);
        assert(Capability::Background.name() == "background"@);
        assert(Capability::Ptc.name() == "ptc"@);
        assert((exists|capability: Capability| last == #[trigger] capability.name()) <==> last
            == "background"@ || last == "ptc"@) by {
            if exists|capability: Capability| last == #[trigger] capability.name() {
                let capability = choose|capability: Capability| last == #[trigger]
                    capability.name();
                match capability {
                    Capability::Background => {},
                    Capability::Ptc => {},
                }
            }
        }
    }
}

/// A selection by name has exactly what is named. A name that is none is reported, the first of them.
pub proof fn law_a_selection_has_what_is_named(
    names: &Vec<String>,
    res: Result<Capabilities, UnknownCapability>,
    at: int,
)
    requires
        call_ensures(Capabilities::select, (names,), res),
    ensures
        (forall|i: int|
            0 <= i < names.deep_view().len() ==> (#[trigger] names.deep_view()[i]) == "background"@
                || names.deep_view()[i] == "ptc"@) ==> (res matches Ok(selected) && (
        selected@.contains(Capability::Background) <==> names.deep_view().contains(
            "background"@,
        )) && (selected@.contains(Capability::Ptc) <==> names.deep_view().contains("ptc"@))),
        0 <= at < names.deep_view().len() && names.deep_view()[at] != "background"@
            && names.deep_view()[at] != "ptc"@ && (forall|i: int|
            0 <= i < at ==> (#[trigger] names.deep_view()[i]) == "background"@
                || names.deep_view()[i] == "ptc"@) ==> (res matches Err(unknown) && unknown.name@
            == names.deep_view()[at]),
{
    lemma_unknown(names.deep_view(), at);
    assert(Capability::Background.name() == "background"@);
    assert(Capability::Ptc.name() == "ptc"@);
}

/// A listed selection has what is listed; all has everything, and none nothing.
pub proof fn law_a_listed_selection_has_what_is_listed(
    list: &Vec<Capability>,
    listed: Capabilities,
    all: Capabilities,
    none: Capabilities,
    capability: Capability,
    in_listed: bool,
    in_all: bool,
    in_none: bool,
)
    requires
        call_ensures(Capabilities::of, (list,), listed),
        call_ensures(Capabilities::all, (), all),
        call_ensures(Capabilities::none, (), none),
        call_ensures(Capabilities::contains, (&listed, capability), in_listed),
        call_ensures(Capabilities::contains, (&all, capability), in_all),
        call_ensures(Capabilities::contains, (&none, capability), in_none),
    ensures
        in_listed <==> list@.contains(capability),
        in_all,
        !in_none,
{
    assert(list@.to_set().contains(capability) == list@.contains(capability));
}

/// An agent runs with the model that is set for it, and with the default where none is; either way with
/// the approval mode of the session.
pub proof fn law_an_agent_runs_with_its_model<P: Clone>(
    config: &RunConfig<P>,
    agent: &str,
    res: AgentRunConfig<P>,
)
    requires
        call_ensures(RunConfig::<P>::resolve, (config, agent), res),
    ensures
        res.tool_approval == config.tool_approval,
        config.agent_models@.contains_key(agent@) ==> {
            let own = config.agent_models@[agent@];
            &&& res.profile.model@ == own.model@
            &&& res.profile.label@ == own.label@
            &&& res.profile.temperature == own.temperature
            &&& res.profile.max_completion_tokens == own.max_completion_tokens
            &&& res.profile.reasoning_effort.deep_view() == own.reasoning_effort.deep_view()
            &&& res.profile.auto_compact_threshold_tokens == own.auto_compact_threshold_tokens
        },
        !config.agent_models@.contains_key(agent@) ==> {
            let own = config.default_model;
            &&& res.profile.model@ == own.model@
            &&& res.profile.label@ == own.label@
            &&& res.profile.temperature == own.temperature
            &&& res.profile.max_completion_tokens == own.max_completion_tokens
            &&& res.profile.reasoning_effort.deep_view() == own.reasoning_effort.deep_view()
            &&& res.profile.auto_compact_threshold_tokens == own.auto_compact_threshold_tokens
        },
{
}

/// A sub-agent is registered behind those before it, as it is given.
pub proof fn law_a_sub_agent_is_registered(subagents: &mut SubAgents, subagent: SubAgentTool)
    requires
        call_ensures(SubAgents::register, (subagents, subagent), ()),
    ensures
        final(subagents)@.len() == old(subagents)@.len() + 1,
        final(subagents)@.drop_last() == old(subagents)@,
        final(subagents)@.last() == subagent@,
{
    assert(final(subagents)@.drop_last() =~= old(subagents)@);
}

/// Each sub-agent is offered once, in order, under its prefixed name and with its description first; one
/// that keeps a conversation is offered with a warning.
pub proof fn law_each_sub_agent_is_offered(
    subagents: &SubAgents,
    res: Vec<ToolDefinition>,
    k: int,
)
    requires
        call_ensures(SubAgents::descriptors, (subagents,), res),
    ensures
        res.deep_view().len() == subagents@.len(),
        0 <= k < subagents@.len() ==> {
            &&& res.deep_view()[k].name == "agent__"@ + subagents@[k].name
            &&& subagents@[k].description.is_prefix_of(res.deep_view()[k].description)
            &&& subagents@[k].mode is Stateless ==> res.deep_view()[k].description
                == subagents@[k].description
            &&& subagents@[k].mode is Stateful ==> res.deep_view()[k].description
                == subagents@[k].description
                + "\n\nIMPORTANT: This sub-agent does NOT support concurrent invocation. Do NOT call this tool more than once in the same tool-call batch. If you need to invoke it multiple times, call it sequentially — one at a time."@
            &&& res.deep_view()[k].parameter_schema
                == "{\"type\":\"object\",\"properties\":{\"task\":{\"type\":\"string\",\"description\":\"The task to delegate to the sub-agent.\"}},\"required\":[\"task\"]}"@
        },
{
    if 0 <= k < subagents@.len() {
        let own = subagents@[k].description;
        let offered = res.deep_view()[k].description;
        assert(offered.subrange(0, own.len() as int) =~= own);
    }
}

/// A text message says its text and nothing else; one with images has them behind it, in order; one of a
/// calling agent says its task and where it comes from.
pub proof fn law_a_user_message_says_what_it_is_given(
    id: MessageId,
    text: String,
    images: &Vec<String>,
    origin: MessageOrigin,
    plain: UserMessage,
    illustrated: UserMessage,
    called: UserMessage,
    k: int,
)
    requires
        call_ensures(UserMessage::text, (id, text), plain),
        call_ensures(UserMessage::with_images, (id, text, images), illustrated),
        call_ensures(UserMessage::from_subagent_call, (id, text, origin), called),
    ensures
        plain@.message_id == id && plain@.origin is None && plain@.parts.len() == 1,
        plain@.parts[0] == (ContentPartView::Text { text: text@ }),
        illustrated@.message_id == id && illustrated@.origin is None,
        illustrated@.parts.len() == 1 + images.deep_view().len(),
        illustrated@.parts[0] == (ContentPartView::Text { text: text@ }),
        0 <= k < images.deep_view().len() ==> illustrated@.parts[k + 1] == (ContentPartView::Image {
            url: images.deep_view()[k],
        }),
        called@.message_id == id && called@.origin == Some(origin@) && called@.parts.len() == 1,
        called@.parts[0] == (ContentPartView::Text { text: text@ }),
{
}

proof fn lemma_first_text(parts: Seq<ContentPartView>, at: int)
    ensures
        0 <= at < parts.len() && parts[at] is Text && (forall|i: int|
            0 <= i < at ==> (#[trigger] parts[i]) is Image) ==> crate::llm::first_text_of(parts)
            == Some(parts[at]->text),
        (forall|i: int| 0 <= i < parts.len() ==> (#[trigger] parts[i]) is Image)
            ==> crate::llm::first_text_of(parts) is None,
    decreases parts.len(),
{
    if parts.len() > 0 {
        let rest = parts.drop_first();
        assert forall|i: int| 0 <= i < rest.len() implies #[trigger] rest[i] == parts[i + 1] by {}
        lemma_first_text(rest, at - 1);
        if forall|i: int| 0 <= i < parts.len() ==> (#[trigger] parts[i]) is Image {
            assert(parts[0] is Image);
            assert forall|i: int| 0 <= i < rest.len() implies (#[trigger] rest[i]) is Image by {
                assert(parts[i + 1] is Image);
            }
        }
        if 0 < at < parts.len() && parts[at] is Text && (forall|i: int|
            0 <= i < at ==> (#[trigger] parts[i]) is Image) {
            assert(parts[0] is Image);
            assert(rest[at - 1] == parts[at]);
            assert forall|i: int| 0 <= i < at - 1 implies (#[trigger] rest[i]) is Image by {
                assert(parts[i + 1] is Image);
            }
        }
    }
}

/// The first text of a message is that of its first part that is one.
pub proof fn law_the_first_text_of_a_message(message: &UserMessage, res: Option<&str>, at: int)
    requires
        call_ensures(UserMessage::first_text, (message,), res),
    ensures
        0 <= at < message@.parts.len() && message@.parts[at] is Text && (forall|i: int|
            0 <= i < at ==> (#[trigger] message@.parts[i]) is Image) ==> (res matches Some(found)
            && found@ == message@.parts[at]->text),
        (forall|i: int| 0 <= i < message@.parts.len() ==> (#[trigger] message@.parts[i]) is Image)
            ==> res is None,
{
    lemma_first_text(message@.parts, at);
}

/// The result of a call has what it is given.
pub proof fn law_a_tool_message_has_what_it_is_given(
    id: String,
    name: String,
    output: ToolOutput,
    outcome: ToolCallOutcome,
    started_at: Option<Timestamp>,
    res: ToolMessage,
)
    requires
        call_ensures(ToolMessage::new, (id, name, output, outcome, started_at), res),
    ensures
        res@.id == id@,
        res@.name == name@,
        res@.output == output@,
        res@.outcome == outcome@,
        res@.started_at == started_at,
{
}

/// A compaction record stands for what it covers exactly where it is a summary.
pub proof fn law_what_a_compaction_covers(
    record: &CompactionMessage,
    summary: bool,
    cutoff: Option<MessageId>,
)
    requires
        call_ensures(CompactionMessage::is_summary, (record,), summary),
        call_ensures(CompactionMessage::cutoff, (record,), cutoff),
    ensures
        record@.outcome matches CompactionOutcome::Summary { cutoff: covered } ==> summary
            && cutoff == Some(covered),
        record@.outcome is Failed ==> !summary && cutoff is None,
{
}

/// A message is sent as what it is: what a user, the model or a tool said unchanged, a summary and a
/// notice as said by the user, word for word. Only the record of a failed compaction is not sent; it is
/// the only one that the model does not see.
pub proof fn law_a_message_is_sent_as_what_it_is(
    message: &Message,
    id: MessageId,
    visible: bool,
    sent: Option<RequestMessage>,
)
    requires
        call_ensures(Message::message_id, (message,), id),
        call_ensures(Message::visible_to_model, (message,), visible),
        call_ensures(Message::lowered, (message,), sent),
    ensures
        message@ matches MessageView::User(user) ==> visible && id == user.message_id
            && sent.deep_view() == Some(RequestMessageView::User(user)),
        message@ matches MessageView::Assistant(answer) ==> visible && id == answer.message_id
            && sent.deep_view() == Some(RequestMessageView::Assistant(answer)),
        message@ matches MessageView::Tool(tool) ==> visible && id == tool.message_id
            && sent.deep_view() == Some(RequestMessageView::Tool(tool)),
        message@ matches MessageView::TaskNotice(notice) ==> visible && id == notice.message_id && (
        sent.deep_view() matches Some(RequestMessageView::User(user)) && user.message_id
            == notice.message_id && user.parts.len() == 1 && user.parts[0] == (
        ContentPartView::Text { text: notice.content })),
        message@ matches MessageView::Compaction(record) ==> {
            &&& id == record.message_id
            &&& record.outcome is Failed ==> !visible && sent is None
            &&& record.outcome is Summary ==> visible && (sent.deep_view() matches Some(
                RequestMessageView::User(user),
            ) && user.message_id == record.message_id && user.parts.len() == 1 && user.parts[0] == (
            ContentPartView::Text { text: record.content }))
        },
{
}

/// The work that an envelope asks for is opened by a message of the user: a task by its text and images
/// under the id it came with, which names the turn; a call by its task, in the turn of the caller and
/// with the call it comes from. What asks for no work opens none.
pub proof fn law_how_work_is_opened(
    body: &EnvelopeBody,
    res: Option<(TurnId, UserMessage)>,
    k: int,
)
    requires
        call_ensures(agent_loop::opening_user_message, (body,), res),
    ensures
        res is Some <==> body@ is Task || body@ is ToolCall,
        body@ matches EnvelopeBodyView::Task { message_id, task, images } ==> (res matches Some(
            (turn, user),
        ) && turn.value == message_id.value && user@.message_id == message_id
            && user@.origin is None && user@.parts.len() == 1 + images.len() && user@.parts[0] == (
        ContentPartView::Text { text: task }) && (0 <= k < images.len() ==> user@.parts[k + 1] == (
        ContentPartView::Image { url: images[k] }))),
        body@ matches EnvelopeBodyView::ToolCall {
            call_id,
            parent_message_id,
            turn_id,
            task,
            ..
        } ==> (res matches Some((turn, user)) && turn == turn_id && user@.parts.len() == 1
            && user@.parts[0] == (ContentPartView::Text { text: task }) && (
        user@.origin matches Some(origin) && origin.message_id == parent_message_id
            && origin.call_id == call_id)),
{
}

/// A call announces where its thread belongs and whom it answers: under the thread that called, by the
/// key it was derived with, to the call and the envelope that made it. Nothing else does.
pub proof fn law_what_a_call_announces(
    envelope: &Envelope,
    origin: Option<OriginThread>,
    target: Option<ReplyTarget>,
)
    requires
        call_ensures(agent_loop::origin_thread_from_envelope, (envelope,), origin),
        call_ensures(agent_loop::reply_target_from_envelope, (envelope,), target),
    ensures
        !(envelope@.body is ToolCall && envelope@.from is Agent) ==> origin is None
            && target is None,
        envelope@.body matches EnvelopeBodyView::ToolCall { call_id, derivation_key, .. } ==> (
        envelope@.from matches SenderView::Agent { name, thread_id } ==> (origin matches Some(place)
            && place@.parent_thread_id == thread_id && place@.derivation_key == derivation_key) && (
        target matches Some(caller) && caller@.envelope_id == envelope@.id && caller@.sender_name
            == name && caller@.sender_thread_id == thread_id && caller@.call_id == call_id)),
{
}

/// A thread is in the turn of its newest message, and before that in the turn it was started in.
pub proof fn law_the_turn_of_a_thread(run: &AgentLoop, res: TurnId)
    requires
        call_ensures(AgentLoop::thread_turn, (run,), res),
    ensures
        run@.state.current_turn is Some ==> res == run@.state.current_turn->0,
        run@.state.current_turn is None ==> res == run@.turn,
{
}

/// A call that was sent is still being answered exactly where the thread it was sent to owes an answer:
/// for a sub-agent that keeps a conversation the thread named after it, for a one-off the thread named
/// after the call.
pub proof fn law_when_a_call_is_still_being_answered(
    run: &AgentLoop,
    calls: &CallLedger,
    parent: MessageId,
    pending: &PendingReply,
    res: bool,
    at: int,
)
    requires
        call_ensures(AgentLoop::is_being_answered, (run, calls, parent, pending), res),
    ensures
        ({
            let peers = run@.subagents;
            let called = pending@.tool_name;
            let first = 0 <= at < peers.len() && tool_calls::names(called, peers[at].name) && (
            forall|i: int| 0 <= i < at ==> !tool_calls::names(called, (#[trigger] peers[i]).name));
            &&& first && peers[at].mode is Stateful ==> (res <==> calls@.count(
                ids::child_id(run@.thread_id, peers[at].name),
            ) > 0)
            &&& first && peers[at].mode is Stateless ==> (res <==> calls@.count(
                ids::child_id(
                    run@.thread_id,
                    ids::uuid_text(parent.value) + ":"@ + pending@.call_id,
                ),
            ) > 0)
            &&& (forall|i: int|
                0 <= i < peers.len() ==> !tool_calls::names(called, (#[trigger] peers[i]).name))
                ==> !res
        }),
{
    let peers = run@.subagents;
    let called = pending@.tool_name;
    if 0 <= at < peers.len() && tool_calls::names(called, peers[at].name) && (forall|i: int|
        0 <= i < at ==> !tool_calls::names(called, (#[trigger] peers[i]).name)) {
        tool_calls::lemma_found(peers, called, at);
    }
    if forall|i: int|
        0 <= i < peers.len() ==> !tool_calls::names(called, (#[trigger] peers[i]).name) {
        tool_calls::lemma_not_found(peers, called);
    }
}

/// The thread of a call is the same whenever it is derived, and derived for its caller and its key.
pub proof fn law_a_thread_is_derived_the_same_each_time(
    parent: &ThreadId,
    key: &str,
    first: ThreadId,
    second: ThreadId,
    text: &str,
    id: String,
)
    requires
        call_ensures(ThreadId::from_uuid5, (parent, key), first),
        call_ensures(ThreadId::from_uuid5, (parent, key), second),
        text@ == parent@,
        call_ensures(ids::derive_child_id, (text, key), id),
    ensures
        first@ == second@,
        first@ == id@,
{
}

/// Why something was not sent, in words.
pub proof fn law_a_refused_send_is_put_in_words(error: &SendCommandError, res: &'static str)
    requires
        call_ensures(SendCommandError::describe, (error,), res),
    ensures
        error is TurnAlreadyActive ==> res@ == "A turn is already active"@,
        error is ThreadBusy ==> res@
            == "Subagent thread is busy; wait for its current call to finish"@,
        error is AwaitingCleanup ==> res@ == "Thread is waiting for abort cleanup"@,
        error is PendingApprovals ==> res@ == "Session has pending approvals"@,
        error is ScopeClosed ==> res@ == "Execution scope is closed"@,
        error is StaleApproval ==> res@ == "Approval is stale or does not match its pending calls"@,
        error is AgentNotFound ==> res@ == "Agent not found"@,
        error is ChannelClosed ==> res@ == "Channel closed"@,
        res@ == error.words(),
{
}

}
