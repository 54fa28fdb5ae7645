//! What a model is sent.

use crate::agent::{Agent, HistoryEntry, HistoryEntryView};
use crate::config::ModelProfile;
use crate::ids::{MessageId, Timestamp};
use crate::llm::{
    ChatCompletionRequest, ContentPartView, MessageView, RequestMessage, RequestMessageView,
    UserMessageView,
};
use crate::message_view::{self, InvalidHistory};
use crate::process::Process;
use crate::prompt::PromptStore;
use crate::runtime::agent_loop::{AgentLoop, LoopStep};
use crate::runtime::generation::GenerationProgress;
use vstd::prelude::*;

verus! {

/// A summary that stands for everything up to the message it names.
pub open spec fn is_boundary(message: MessageView) -> bool {
    match message {
        MessageView::Compaction(record) => record.outcome is Summary,
        _ => false,
    }
}

/// A record that a compaction failed.
pub open spec fn is_failure(message: MessageView) -> bool {
    match message {
        MessageView::Compaction(record) => record.outcome is Failed,
        _ => false,
    }
}

/// The id a message carries.
pub open spec fn id_of(message: MessageView) -> MessageId {
    match message {
        MessageView::User(user) => user.message_id,
        MessageView::Assistant(assistant) => assistant.message_id,
        MessageView::Tool(tool) => tool.message_id,
        MessageView::Compaction(record) => record.message_id,
        MessageView::TaskNotice(notice) => notice.message_id,
    }
}

proof fn lemma_tail_filter(
    history: Seq<HistoryEntryView>,
    start: int,
    kept: spec_fn(HistoryEntryView) -> bool,
    end: int,
)
    requires
        0 <= start <= history.len(),
        0 <= end <= history.len(),
        forall|i: int|
            0 <= i < history.len() ==> #[trigger] message_view::in_tail(history, i) == (start <= i
                && kept(history[i])),
    ensures
        end <= start ==> message_view::tail_below(history, end).len() == 0,
        start <= end ==> message_view::entries_at(history, message_view::tail_below(history, end))
            == history.subrange(start, end).filter(kept),
    decreases end,
{
    reveal(Seq::filter);
    let tail = message_view::tail_below(history, end);
    if end == 0 {
        assert(start == 0 ==> history.subrange(start, end).filter(kept) =~= Seq::empty());
        assert(message_view::entries_at(history, tail) =~= Seq::empty());
    } else {
        lemma_tail_filter(history, start, kept, end - 1);
        assert(message_view::in_tail(history, end - 1) == (start <= end - 1 && kept(
            history[end - 1],
        )));
        if start <= end - 1 {
            let part = history.subrange(start, end);
            assert(part.drop_last() =~= history.subrange(start, end - 1));
            assert(part.last() == history[end - 1]);
            let before = message_view::tail_below(history, end - 1);
            if kept(history[end - 1]) {
                assert(message_view::entries_at(history, before.push(end - 1))
                    =~= message_view::entries_at(history, before).push(history[end - 1]));
            }
        } else {
            assert(start == end ==> history.subrange(start, end).filter(kept) =~= Seq::empty());
            assert(message_view::entries_at(history, tail) =~= Seq::empty());
        }
    }
}

proof fn lemma_no_last_index(
    history: Seq<HistoryEntryView>,
    holds: spec_fn(HistoryEntryView) -> bool,
)
    requires
        forall|i: int| 0 <= i < history.len() ==> !holds(#[trigger] history[i]),
    ensures
        message_view::last_index(history, holds) is None,
    decreases history.len(),
{
    if history.len() > 0 {
        assert(history.last() == history[history.len() - 1]);
        assert forall|i: int| 0 <= i < history.drop_last().len() implies !holds(
            #[trigger] history.drop_last()[i],
        ) by {
            assert(history.drop_last()[i] == history[i]);
        }
        lemma_no_last_index(history.drop_last(), holds);
    }
}

proof fn lemma_is_last_index(
    history: Seq<HistoryEntryView>,
    holds: spec_fn(HistoryEntryView) -> bool,
    at: int,
)
    requires
        0 <= at < history.len(),
        holds(history[at]),
        forall|i: int| at < i < history.len() ==> !holds(#[trigger] history[i]),
    ensures
        message_view::last_index(history, holds) == Some(at),
    decreases history.len(),
{
    assert(history.last() == history[history.len() - 1]);
    if at < history.len() - 1 {
        assert forall|i: int| at < i < history.drop_last().len() implies !holds(
            #[trigger] history.drop_last()[i],
        ) by {
            assert(history.drop_last()[i] == history[i]);
        }
        lemma_is_last_index(history.drop_last(), holds, at);
    }
}

/// While nothing was summarized the model sees the whole history, in order, but for the records of
/// failed compactions.
pub proof fn law_an_unsummarized_history_is_shown_whole(
    history: &[HistoryEntry],
    res: Vec<&HistoryEntry>,
)
    requires
        call_ensures(message_view::model_view, (history,), res),
        forall|i: int|
            0 <= i < history.deep_view().len() ==> !is_boundary(
                (#[trigger] history.deep_view()[i]).message,
            ),
    ensures
        res.deep_view() == history.deep_view().filter(
            |entry: HistoryEntryView| !is_failure(entry.message),
        ),
{
    let all = history.deep_view();
    let kept = |entry: HistoryEntryView| !is_failure(entry.message);
    lemma_no_last_index(all, message_view::is_summary());
    lemma_tail_filter(all, 0, kept, all.len() as int);
    assert(all.subrange(0, all.len() as int) =~= all);
}

/// Once there is a summary the model sees the last one first, and then every message that came after the
/// one it names, in order. Where no earlier message has the name, that is what came after the summary
/// itself. The summary is not shown twice, and failed compactions not at all.
pub proof fn law_a_summary_stands_for_what_it_covers(
    history: &[HistoryEntry],
    res: Vec<&HistoryEntry>,
    at: int,
    from: int,
)
    requires
        call_ensures(message_view::model_view, (history,), res),
        0 <= at < history.deep_view().len(),
        is_boundary(history.deep_view()[at].message),
        forall|i: int|
            at < i < history.deep_view().len() ==> !is_boundary(
                (#[trigger] history.deep_view()[i]).message,
            ),
        0 <= from <= at,
        ({
            let named = history.deep_view()[at].message->Compaction_0.outcome->cutoff;
            &&& forall|i: int|
                from <= i < at ==> id_of((#[trigger] history.deep_view()[i]).message) != named
            &&& (0 < from && id_of(history.deep_view()[from - 1].message) == named) || (from == at
                && forall|i: int|
                0 <= i < at ==> id_of((#[trigger] history.deep_view()[i]).message) != named)
        }),
    ensures
        res.deep_view() == seq![history.deep_view()[at]] + history.deep_view().subrange(
            from,
            history.deep_view().len() as int,
        ).filter(
            |entry: HistoryEntryView|
                !is_failure(entry.message) && id_of(entry.message) != id_of(
                    history.deep_view()[at].message,
                ),
        ),
{
    let all = history.deep_view();
    let named = all[at].message->Compaction_0.outcome->cutoff;
    let kept = |entry: HistoryEntryView|
        !is_failure(entry.message) && id_of(entry.message) != id_of(all[at].message);
    lemma_is_last_index(all, message_view::is_summary(), at);
    let earlier = all.take(at);
    assert(forall|i: int| 0 <= i < at ==> #[trigger] earlier[i] == all[i]);
    if from > 0 && id_of(all[from - 1].message) == named {
        lemma_is_last_index(earlier, message_view::has_id(named), from - 1);
    } else {
        lemma_no_last_index(earlier, message_view::has_id(named));
    }
    assert(message_view::tail_start(all) == from);
    lemma_tail_filter(all, from, kept, all.len() as int);
    let tail = message_view::tail_indices(all);
    assert(message_view::shown(all) =~= seq![all[at]] + message_view::entries_at(all, tail));
}

/// What a visible message becomes in a request: users, answers and tool results go out as they are, and
/// a summary or a notice speaks as the user, under its own id.
pub open spec fn sent_as(message: MessageView, sent: RequestMessageView) -> bool {
    match message {
        MessageView::User(user) => sent == RequestMessageView::User(user),
        MessageView::Assistant(assistant) => sent == RequestMessageView::Assistant(assistant),
        MessageView::Tool(tool) => sent == RequestMessageView::Tool(tool),
        MessageView::Compaction(record) => sent == RequestMessageView::User(
            UserMessageView {
                message_id: record.message_id,
                parts: seq![ContentPartView::Text { text: record.content }],
                origin: None,
            },
        ),
        MessageView::TaskNotice(notice) => sent == RequestMessageView::User(
            UserMessageView {
                message_id: notice.message_id,
                parts: seq![ContentPartView::Text { text: notice.content }],
                origin: None,
            },
        ),
    }
}

/// Whether a request is the system prompt and then one message for each visible entry, in order, each
/// as it is sent.
pub open spec fn carries(
    messages: Seq<RequestMessageView>,
    prompt: Seq<char>,
    visible: Seq<HistoryEntryView>,
) -> bool {
    &&& messages.len() == visible.len() + 1
    &&& messages[0] matches RequestMessageView::System(system) && system.text == prompt
    &&& forall|k: int|
        0 <= k < visible.len() ==> sent_as(
            (#[trigger] visible[k]).message,
            messages[k + 1],
        )
}

proof fn lemma_lowered(messages: Seq<MessageView>)
    requires
        forall|k: int| 0 <= k < messages.len() ==> !is_failure(#[trigger] messages[k]),
    ensures
        crate::agent::lowered_messages(messages).len() == messages.len(),
        forall|k: int|
            0 <= k < messages.len() ==> sent_as(
                #[trigger] messages[k],
                crate::agent::lowered_messages(messages)[k],
            ),
    decreases messages.len(),
{
    if messages.len() > 0 {
        let rest = messages.drop_last();
        assert forall|k: int| 0 <= k < rest.len() implies !is_failure(#[trigger] rest[k]) by {
            assert(rest[k] == messages[k]);
        }
        lemma_lowered(rest);
        assert(messages.last() == messages[messages.len() - 1]);
        assert forall|k: int| 0 <= k < messages.len() implies sent_as(
            #[trigger] messages[k],
            crate::agent::lowered_messages(messages)[k],
        ) by {
            if k < rest.len() {
                assert(rest[k] == messages[k]);
            }
        }
    }
}

proof fn lemma_request(prompt: Seq<char>, history: Seq<HistoryEntryView>)
    ensures
        carries(
            crate::agent::request_messages(prompt, history),
            prompt,
            message_view::shown(history),
        ),
{
    let visible = message_view::shown(history);
    let messages = message_view::messages_of(visible);
    message_view::law_view_order(history);
    assert forall|k: int| 0 <= k < messages.len() implies !is_failure(#[trigger] messages[k]) by {
        assert(visible[k].message.visible_to_model());
    }
    lemma_lowered(messages);
    let request = crate::agent::request_messages(prompt, history);
    assert forall|k: int| 0 <= k < visible.len() implies sent_as(
        (#[trigger] visible[k]).message,
        request[k + 1],
    ) by {
        assert(messages[k] == visible[k].message);
        assert(request[k + 1] == crate::agent::lowered_messages(messages)[k]);
    }
}

/// Every visible message of a thread reaches the model: the request has one message per visible entry
/// behind the system prompt, and each user, answer and tool result is sent unchanged.
pub proof fn law_a_request_carries_the_visible_history(
    agent: &Agent,
    prompt: String,
    res: Vec<RequestMessage>,
    history: &[HistoryEntry],
    visible: Vec<&HistoryEntry>,
)
    requires
        call_ensures(Agent::messages_with_prompt, (agent, prompt), res),
        history.deep_view() == agent.state.messages.deep_view(),
        call_ensures(message_view::model_view, (history,), visible),
    ensures
        carries(res.deep_view(), prompt@, visible.deep_view()),
{
    lemma_request(prompt@, agent.state@.messages);
}

/// The same holds of a process, whose history has to keep the tool-call protocol for it.
pub proof fn law_a_process_sends_the_visible_history(
    process: &Process,
    prompt: String,
    res: Result<Vec<RequestMessage>, InvalidHistory>,
    history: &[HistoryEntry],
    visible: Vec<&HistoryEntry>,
    checked: Result<(), InvalidHistory>,
)
    requires
        call_ensures(Process::messages_with_prompt, (process, prompt), res),
        history.deep_view() == process.state@.messages,
        call_ensures(message_view::model_view, (history,), visible),
        call_ensures(message_view::validate_model_view, (history,), checked),
    ensures
        res is Ok <==> checked is Ok,
        res matches Ok(messages) ==> carries(messages.deep_view(), prompt@, visible.deep_view()),
        res matches Err(fault) ==> checked matches Err(found) && found@ == fault@,
{
    lemma_request(prompt@, process.state@.messages);
}

/// A call to the model is made exactly where the visible history keeps the tool-call protocol. What is
/// sent is what is announced: the profile's model and parameters, the visible history behind a system
/// prompt, the agent's own tools as they are declared, and one more tool for each sub-agent, in order.
pub proof fn law_a_call_to_the_model_sends_what_the_thread_holds<P>(
    run: &mut AgentLoop,
    profile: &ModelProfile<P>,
    store: &PromptStore,
    started_at: Timestamp,
    res: Result<(ChatCompletionRequest, GenerationProgress), LoopStep>,
    history: &[HistoryEntry],
    visible: Vec<&HistoryEntry>,
    checked: Result<(), InvalidHistory>,
)
    requires
        call_ensures(AgentLoop::begin_generation, (run, profile, store, started_at), res),
        history.deep_view() == old(run).agent.state.messages.deep_view(),
        call_ensures(message_view::model_view, (history,), visible),
        call_ensures(message_view::validate_model_view, (history,), checked),
    ensures
        res is Ok <==> checked is Ok,
        final(run).agent.state.messages.deep_view() == history.deep_view(),
        res matches Ok((request, progress)) ==> {
            let own = old(run).agent.tools.definitions.deep_view();
            let peers = old(run).agent.subagents@;
            &&& request.model@ == profile.model@
            &&& request.max_completion_tokens == profile.max_completion_tokens
            &&& request.temperature == profile.temperature
            &&& request.reasoning_effort.deep_view() == profile.reasoning_effort.deep_view()
            &&& exists|prompt: Seq<char>| #[trigger]
                carries(request.messages.deep_view(), prompt, visible.deep_view()) && (
                old(run).agent.system_prompt.vars is None ==> prompt
                    == store@[old(run).agent.system_prompt.base.slot() as int])
            &&& request.tools.deep_view().len() == own.len() + peers.len()
            &&& request.tools.deep_view().take(own.len() as int) == own
            &&& forall|k: int|
                0 <= k < peers.len() ==> {
                    let offered = request.tools.deep_view()[own.len() + k];
                    &&& offered.name == "agent__"@ + (#[trigger] peers[k]).name
                    &&& peers[k].description.is_prefix_of(offered.description)
                    &&& peers[k].mode is Stateless ==> offered.description == peers[k].description
                }
            &&& progress.started_at == started_at
            &&& progress.partial_content@.len() == 0 && progress.partial_reasoning@.len() == 0
            &&& final(run)@.events.len() == old(run)@.events.len() + 1
            &&& final(run)@.events.last().event
                == crate::agent::AgentEventView::LLMStart(request@)
        },
{
    let messages = old(run)@.state.messages;
    match res {
        Ok((request, progress)) => {
            let prompt = choose|prompt: Seq<char>| #[trigger]
                old(run).agent.system_prompt.may_resolve_to(*store, prompt) && request@
                    == crate::runtime::generation::completion_request(
                    *profile,
                    crate::agent::request_messages(prompt, messages),
                    crate::runtime::generation::offered_tools(
                        old(run).agent.tools.definitions.deep_view(),
                        old(run)@.subagents,
                    ),
                );
            lemma_request(prompt, messages);
            assert(carries(request.messages.deep_view(), prompt, visible.deep_view()));
            let own = old(run).agent.tools.definitions.deep_view();
            let peers = old(run).agent.subagents@;
            let offered = request.tools.deep_view();
            assert(offered == request@.tools);
            assert(offered.take(own.len() as int) =~= own);
            assert forall|k: int| 0 <= k < peers.len() implies {
                let tool = offered[own.len() + k];
                &&& tool.name == "agent__"@ + (#[trigger] peers[k]).name
                &&& peers[k].description.is_prefix_of(tool.description)
                &&& peers[k].mode is Stateless ==> tool.description == peers[k].description
            } by {
                assert(offered[own.len() + k] == crate::subagents::descriptor(peers[k]));
            }
        },
        Err(_) => {},
    }
}

}
