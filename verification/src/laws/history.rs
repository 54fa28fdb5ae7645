//! What a history keeps of what is added to it, and the state that is recorded with it.

use crate::agent::{self, Agent, HistoryEntry, HistoryEntryView, StateValue, ThreadStateMap, Tools};
use crate::ids::TurnId;
use crate::laws::request;
use crate::laws::turns;
use crate::llm::{CompletionUsage, Message, MessageView, ToolDefinition, UserMessage};
use crate::persist::{StateEntry, StateEntryView};
use crate::process::{self, Process, ProcessMemory};
use vstd::prelude::*;

verus! {

/// Whether a history has one more entry, at its end, and the others as they were.
pub open spec fn grows_by(
    before: Seq<HistoryEntryView>,
    after: Seq<HistoryEntryView>,
    message: MessageView,
) -> bool {
    &&& after.len() == before.len() + 1
    &&& after.drop_last() == before
    &&& after.last().message == message
}

/// A message of a user is added as it is, at the end of the history, and opens its turn.
pub proof fn law_a_user_message_is_added(agent: &mut Agent, turn: TurnId, message: UserMessage)
    requires
        call_ensures(Agent::add_user_message, (agent, turn, message), ()),
    ensures
        grows_by(
            old(agent).state@.messages,
            final(agent).state@.messages,
            MessageView::User(message@),
        ),
        final(agent).state@.messages.last().turn_id == turn,
        final(agent).state@.current_turn == Some(turn),
        final(agent).state@.state == old(agent).state@.state,
        final(agent).name == old(agent).name,
        final(agent).tools == old(agent).tools,
{
    assert(final(agent).state@.messages.drop_last() =~= old(agent).state@.messages);
}

/// A message is added as it is, at the end of the history and in the turn that is open.
pub proof fn law_a_message_is_added(agent: &mut Agent, message: Message)
    requires
        call_ensures(Agent::add_message, (agent, message), ()),
    ensures
        grows_by(old(agent).state@.messages, final(agent).state@.messages, message@),
        old(agent).state@.current_turn is Some ==> final(agent).state@.current_turn
            == old(agent).state@.current_turn,
        final(agent).state@.current_turn == Some(final(agent).state@.messages.last().turn_id),
        final(agent).state@.state == old(agent).state@.state,
{
    assert(final(agent).state@.messages.drop_last() =~= old(agent).state@.messages);
}

/// Several messages are added in order, each as it is, all in the turn that is open.
pub proof fn law_messages_are_added_in_order(agent: &mut Agent, messages: Vec<Message>, k: int)
    requires
        call_ensures(Agent::add_messages, (agent, messages), ()),
    ensures
        ({
            let before = old(agent).state@.messages;
            let after = final(agent).state@.messages;
            &&& after.len() == before.len() + messages.deep_view().len()
            &&& before.is_prefix_of(after)
            &&& 0 <= k < messages.deep_view().len() ==> after[before.len() + k].message
                == messages.deep_view()[k] && final(agent).state@.current_turn == Some(
                after[before.len() + k].turn_id,
            )
        }),
        old(agent).state@.current_turn is Some ==> final(agent).state@.current_turn
            == old(agent).state@.current_turn,
        final(agent).state@.state == old(agent).state@.state,
{
}

/// State that a call recorded is kept with the message of the call, in order, behind what was recorded
/// before.
pub proof fn law_recorded_state_is_kept_with_its_message(
    agent: &mut Agent,
    message: Message,
    recorded: Vec<(String, StateValue)>,
    k: int,
)
    requires
        call_ensures(Agent::add_message_with_state, (agent, message, recorded), ()),
    ensures
        grows_by(old(agent).state@.messages, final(agent).state@.messages, message@),
        ({
            let before = old(agent).state@.state;
            let after = final(agent).state@.state;
            &&& after.len() == before.len() + recorded.deep_view().len()
            &&& before.is_prefix_of(after)
            &&& 0 <= k < recorded.deep_view().len() ==> {
                &&& after[before.len() + k].kind == recorded.deep_view()[k].0
                &&& after[before.len() + k].value == recorded.deep_view()[k].1
                &&& after[before.len() + k].message_id == request::id_of(message@)
            }
        }),
{
    assert(final(agent).state@.messages.drop_last() =~= old(agent).state@.messages);
}

proof fn lemma_reduced(entries: Seq<StateEntryView>, kind: Seq<char>, at: int)
    ensures
        0 <= at < entries.len() && entries[at].kind == kind && (forall|i: int|
            at < i < entries.len() ==> (#[trigger] entries[i]).kind != kind) ==> agent::reduced(
            entries,
        ).contains_key(kind) && agent::reduced(entries)[kind] == entries[at].value,
        (forall|i: int| 0 <= i < entries.len() ==> (#[trigger] entries[i]).kind != kind)
            ==> !agent::reduced(entries).contains_key(kind),
    decreases entries.len(),
{
    if entries.len() > 0 {
        let fewer = entries.drop_last();
        assert(entries.last() == entries[entries.len() - 1]);
        assert forall|i: int| 0 <= i < fewer.len() implies #[trigger] fewer[i] == entries[i] by {}
        lemma_reduced(fewer, kind, at);
    }
}

/// The recorded state of a thread is, for each kind, what was recorded of it last, and nothing of a kind
/// that was never recorded.
pub proof fn law_the_state_is_what_was_recorded_last(
    agent: &Agent,
    res: ThreadStateMap,
    kind: Seq<char>,
    at: int,
)
    requires
        call_ensures(Agent::state_snapshot, (agent,), res),
    ensures
        0 <= at < agent.state@.state.len() && agent.state@.state[at].kind == kind && (forall|i: int|
            at < i < agent.state@.state.len() ==> (#[trigger] agent.state@.state[i]).kind != kind)
            ==> res.deep_view().contains_key(kind) && res.deep_view()[kind]
            == agent.state@.state[at].value,
        (forall|i: int|
            0 <= i < agent.state@.state.len() ==> (#[trigger] agent.state@.state[i]).kind != kind)
            ==> !res.deep_view().contains_key(kind),
{
    lemma_reduced(agent.state@.state, kind, at);
}

/// What is read of a thread is what it has: its whole history and everything recorded, in order.
pub proof fn law_a_thread_is_read_whole(
    agent: &Agent,
    history: Vec<HistoryEntry>,
    entries: Vec<StateEntry>,
    turn: Option<TurnId>,
)
    requires
        call_ensures(Agent::history, (agent,), history),
        call_ensures(Agent::state_entries, (agent,), entries),
        call_ensures(Agent::current_turn, (agent,), turn),
    ensures
        history.deep_view() == agent.state@.messages,
        entries.deep_view() == agent.state@.state,
        turn == agent.state@.current_turn,
{
}

/// A thread that is restored has the history and the state it is given, and is in the turn of its newest
/// message.
pub proof fn law_a_history_is_restored_whole(
    agent: &mut Agent,
    messages: Vec<HistoryEntry>,
    entries: Vec<StateEntry>,
)
    requires
        call_ensures(Agent::restore_history, (agent, messages, entries), ()),
    ensures
        final(agent).state@.messages == messages.deep_view(),
        final(agent).state@.state == entries.deep_view(),
        messages.deep_view().len() > 0 ==> final(agent).state@.current_turn == Some(
            messages.deep_view().last().turn_id,
        ),
        messages.deep_view().len() == 0 ==> final(agent).state@.current_turn is None,
        final(agent).name == old(agent).name,
{
}

/// The usage of a thread is that of its last answer that has one.
pub proof fn law_the_usage_of_a_thread(
    agent: &Agent,
    res: Option<CompletionUsage>,
    usage: Option<CompletionUsage>,
    at: int,
)
    requires
        call_ensures(Agent::last_usage, (agent,), res),
        turns::is_newest_usage(agent.state@.messages, usage, at),
    ensures
        res == usage,
{
    turns::lemma_newest_usage(agent.state@.messages, usage, at);
}

/// An agent has a tool exactly where one of its definitions goes by the name, and it describes them all.
pub proof fn law_the_tools_of_an_agent(
    tools: &Tools,
    name: &str,
    res: bool,
    described: Vec<ToolDefinition>,
    k: int,
)
    requires
        call_ensures(Tools::contains, (tools, name), res),
        call_ensures(Tools::descriptors, (tools,), described),
    ensures
        described.deep_view() == tools.definitions.deep_view(),
        0 <= k < described.deep_view().len() && described.deep_view()[k].name == name@ ==> res,
        res ==> exists|i: int|
            0 <= i < described.deep_view().len() && (#[trigger] described.deep_view()[i]).name
                == name@,
{
    let own = tools.definitions;
    if 0 <= k < described.deep_view().len() && described.deep_view()[k].name == name@ {
        assert(own@[k]@.name == name@);
    }
    if res {
        let i = choose|i: int| 0 <= i < own@.len() && (#[trigger] own@[i])@.name == name@;
        assert(described.deep_view()[i].name == name@);
    }
}

/// A message is added to a process as it is, at the end of its history and in the turn that is open.
pub proof fn law_a_message_is_added_to_a_process(process: &mut Process, message: Message)
    requires
        call_ensures(Process::add_message, (process, message), ()),
    ensures
        grows_by(old(process).state@.messages, final(process).state@.messages, message@),
        old(process).state@.current_turn is Some ==> final(process).state@.current_turn
            == old(process).state@.current_turn,
        final(process).state@.current_turn == Some(final(process).state@.messages.last().turn_id),
        final(process).state@.messages.last().state == Map::<Seq<char>, serde_json::Value>::empty(),
        final(process).pid == old(process).pid,
        final(process).resume_point == old(process).resume_point,
{
    assert(final(process).state@.messages.drop_last() =~= old(process).state@.messages);
}

/// Several messages are added to a process in order, each as it is.
pub proof fn law_messages_are_added_to_a_process_in_order(
    process: &mut Process,
    messages: Vec<Message>,
    k: int,
)
    requires
        call_ensures(Process::add_messages, (process, messages), ()),
    ensures
        ({
            let before = old(process).state@.messages;
            let after = final(process).state@.messages;
            &&& after.len() == before.len() + messages.deep_view().len()
            &&& before.is_prefix_of(after)
            &&& 0 <= k < messages.deep_view().len() ==> after[before.len() + k].message
                == messages.deep_view()[k] && final(process).state@.current_turn == Some(
                after[before.len() + k].turn_id,
            )
        }),
        old(process).state@.current_turn is Some ==> final(process).state@.current_turn
            == old(process).state@.current_turn,
{
}

/// A message that opens a turn is added, and the turn is opened. Only a notice that the history has
/// already is not added a second time; it opens its turn all the same.
pub proof fn law_an_opening_message_is_added_once(
    process: &mut Process,
    turn: TurnId,
    message: Message,
)
    requires
        call_ensures(Process::add_opening_message, (process, turn, message), ()),
    ensures
        final(process).state@.current_turn == Some(turn),
        ({
            let before = old(process).state@.messages;
            let after = final(process).state@.messages;
            let known = message@ is TaskNotice && exists|k: int|
                0 <= k < before.len() && (#[trigger] before[k]).message is TaskNotice
                    && before[k].message->TaskNotice_0.message_id
                    == message@->TaskNotice_0.message_id;
            &&& known ==> after == before
            &&& !known ==> grows_by(before, after, message@) && after.last().turn_id == turn
        }),
{
    let before = old(process).state@.messages;
    let after = final(process).state@.messages;
    match message@ {
        MessageView::TaskNotice(notice) => {
            let known = exists|k: int|
                0 <= k < before.len() && (#[trigger] before[k]).message is TaskNotice
                    && before[k].message->TaskNotice_0.message_id == notice.message_id;
            assert(known == old(process).state@.has_notice(notice.message_id)) by {
                if known {
                    let k = choose|k: int|
                        0 <= k < before.len() && (#[trigger] before[k]).message is TaskNotice
                            && before[k].message->TaskNotice_0.message_id == notice.message_id;
                    assert(match before[k].message {
                        MessageView::TaskNotice(other) => other.message_id == notice.message_id,
                        _ => false,
                    });
                }
                if old(process).state@.has_notice(notice.message_id) {
                    let k = choose|k: int|
                        0 <= k < before.len() && match (#[trigger] before[k]).message {
                            MessageView::TaskNotice(other) => other.message_id
                                == notice.message_id,
                            _ => false,
                        };
                    assert(before[k].message is TaskNotice);
                }
            }
            if !known {
                assert(after.drop_last() =~= before);
            }
        },
        _ => {
            assert(after.drop_last() =~= before);
        },
    }
}

proof fn lemma_last_written(
    recorded: Seq<(Seq<char>, serde_json::Value)>,
    kind: Seq<char>,
    at: int,
)
    ensures
        0 <= at < recorded.len() && recorded[at].0 == kind && (forall|i: int|
            at < i < recorded.len() ==> (#[trigger] recorded[i]).0 != kind)
            ==> process::last_written(recorded).contains_key(kind) && process::last_written(
            recorded,
        )[kind] == recorded[at].1,
        (forall|i: int| 0 <= i < recorded.len() ==> (#[trigger] recorded[i]).0 != kind)
            ==> !process::last_written(recorded).contains_key(kind),
    decreases recorded.len(),
{
    if recorded.len() > 0 {
        let fewer = recorded.drop_last();
        assert(recorded.last() == recorded[recorded.len() - 1]);
        assert forall|i: int| 0 <= i < fewer.len() implies #[trigger] fewer[i] == recorded[i] by {}
        lemma_last_written(fewer, kind, at);
    }
}

/// State that a call recorded is kept with the message of the call in a process: of each kind what was
/// written last, and of a kind that was not written nothing.
pub proof fn law_a_process_keeps_recorded_state(
    process: &mut Process,
    message: Message,
    recorded: Vec<(String, StateValue)>,
    kind: Seq<char>,
    at: int,
)
    requires
        call_ensures(Process::add_message_with_state, (process, message, recorded), ()),
    ensures
        grows_by(old(process).state@.messages, final(process).state@.messages, message@),
        ({
            let written = recorded.deep_view();
            let kept = final(process).state@.messages.last().state;
            &&& 0 <= at < written.len() && written[at].0 == kind && (forall|i: int|
                at < i < written.len() ==> (#[trigger] written[i]).0 != kind) ==> kept.contains_key(
                kind,
            ) && kept[kind] == written[at].1
            &&& (forall|i: int| 0 <= i < written.len() ==> (#[trigger] written[i]).0 != kind)
                ==> !kept.contains_key(kind)
        }),
{
    assert(final(process).state@.messages.drop_last() =~= old(process).state@.messages);
    lemma_last_written(recorded.deep_view(), kind, at);
}

proof fn lemma_reduced_history(history: Seq<HistoryEntryView>, kind: Seq<char>, at: int)
    ensures
        0 <= at < history.len() && history[at].state.contains_key(kind) && (forall|i: int|
            at < i < history.len() ==> !(#[trigger] history[i]).state.contains_key(kind))
            ==> process::reduced_history(history).contains_key(kind) && process::reduced_history(
            history,
        )[kind] == history[at].state[kind],
        (forall|i: int|
            0 <= i < history.len() ==> !(#[trigger] history[i]).state.contains_key(kind))
            ==> !process::reduced_history(history).contains_key(kind),
    decreases history.len(),
{
    if history.len() > 0 {
        let fewer = history.drop_last();
        assert(history.last() == history[history.len() - 1]);
        assert forall|i: int| 0 <= i < fewer.len() implies #[trigger] fewer[i] == history[i] by {}
        lemma_reduced_history(fewer, kind, at);
    }
}

/// The recorded state of a process is, for each kind, what its newest entry that has one says.
pub proof fn law_the_state_of_a_process(
    process: &Process,
    res: ThreadStateMap,
    kind: Seq<char>,
    at: int,
)
    requires
        call_ensures(Process::state_snapshot, (process,), res),
    ensures
        ({
            let history = process.state@.messages;
            &&& 0 <= at < history.len() && history[at].state.contains_key(kind) && (forall|i: int|
                at < i < history.len() ==> !(#[trigger] history[i]).state.contains_key(kind))
                ==> res.deep_view().contains_key(kind) && res.deep_view()[kind]
                == history[at].state[kind]
            &&& (forall|i: int|
                0 <= i < history.len() ==> !(#[trigger] history[i]).state.contains_key(kind))
                ==> !res.deep_view().contains_key(kind)
        }),
{
    lemma_reduced_history(process.state@.messages, kind, at);
}

/// A process that is restored has the history it is given and is in the turn of its newest message; its
/// usage is that of its last answer that has one.
pub proof fn law_a_process_is_restored_whole(
    process: &mut Process,
    messages: Vec<HistoryEntry>,
    now: &Process,
    read: Vec<HistoryEntry>,
    res: Option<CompletionUsage>,
    usage: Option<CompletionUsage>,
    at: int,
)
    requires
        call_ensures(Process::restore_history, (process, messages), ()),
        now.state@ == final(process).state@,
        call_ensures(Process::history, (now,), read),
        call_ensures(Process::last_usage, (now,), res),
        turns::is_newest_usage(messages.deep_view(), usage, at),
    ensures
        read.deep_view() == messages.deep_view(),
        res == usage,
        messages.deep_view().len() > 0 ==> final(process).state@.current_turn == Some(
            messages.deep_view().last().turn_id,
        ),
        messages.deep_view().len() == 0 ==> final(process).state@.current_turn is None,
        final(process).pid == old(process).pid,
{
    turns::lemma_newest_usage(messages.deep_view(), usage, at);
}

/// The messages of a memory are those of its history, in order.
pub proof fn law_the_messages_of_a_memory(memory: &ProcessMemory, res: Vec<Message>, k: int)
    requires
        call_ensures(ProcessMemory::messages, (memory,), res),
    ensures
        res.deep_view().len() == memory@.messages.len(),
        0 <= k < memory@.messages.len() ==> res.deep_view()[k] == memory@.messages[k].message,
{
}

}
