//! A logical process has one durable identity and private working state.

use crate::agent::{
    self, HistoryEntry, HistoryEntryView, ReplyTarget, ResumePoint, StateValue, ThreadStateMap,
};
use crate::execution::StoredExecution;
use crate::ids::{self, MessageId, TurnId};
use crate::lists;
use crate::llm::{CompletionUsage, Message, MessageView, RequestMessage};
use crate::message_view::{self, InvalidHistory};
use crate::program::Program;
use crate::prompt::PromptStore;
use crate::string_map::StringMap;
use crate::text;
use std::sync::Arc;
use vstd::prelude::*;

verus! {

/// The identity of one process.
#[derive(Debug, PartialEq, Eq, Hash)]
pub struct ProcessId {
    pub id: String,
}

impl View for ProcessId {
    type V = Seq<char>;

    open spec fn view(&self) -> Seq<char> {
        self.id@
    }
}

impl DeepView for ProcessId {
    type V = Seq<char>;

    open spec fn deep_view(&self) -> Seq<char> {
        self@
    }
}

impl Clone for ProcessId {
    fn clone(&self) -> (res: Self)
        ensures
            res@ == self@,
    {
        ProcessId { id: self.id.clone() }
    }
}

impl From<String> for ProcessId {
    fn from(id: String) -> (res: Self) {
        ProcessId { id }
    }
}

impl vstd::std_specs::convert::FromSpecImpl<String> for ProcessId {
    open spec fn obeys_from_spec() -> bool {
        true
    }

    open spec fn from_spec(id: String) -> Self {
        ProcessId { id }
    }
}

impl Default for ProcessId {
    fn default() -> (res: Self)
        ensures
            ids::is_fresh_id(res@),
    {
        ProcessId::new()
    }
}

impl ProcessId {
    /// A process of its own: the id is the text of a random UUID.
    pub fn new() -> (res: Self)
        ensures
            ids::is_fresh_id(res@),
    {
        ProcessId { id: ids::fresh_id() }
    }

    /// Derive a child's id from its parent and a name.
    ///
    /// A parent id that is no UUID (the root's id is the client-supplied session id, which is only
    /// required to be a safe string) is hashed into a namespace. Falling back to one fixed namespace
    /// instead would let two such sessions derive identical child ids.
    pub fn from_uuid5(namespace: &ProcessId, name: &str) -> (res: Self)
        ensures
            res@ == ids::child_id(namespace@, name@),
            ids::uuid_parse(res@) == Some(
                ids::uuid_v5(ids::child_namespace(namespace@), vstd::utf8::encode_utf8(name@)),
            ),
    {
        ProcessId { id: ids::derive_child_id(namespace.id.as_str(), name) }
    }

    /// The id as text.
    pub fn as_str(&self) -> (res: &str)
        ensures
            res@ == self@,
    {
        self.id.as_str()
    }
}

/// Where a process comes from.
#[derive(Debug, PartialEq, Eq)]
pub struct ProcessOrigin {
    pub parent_thread_id: String,
    pub derivation_key: String,
}

/// The content of a [`ProcessOrigin`].
#[verifier::ext_equal]
pub struct ProcessOriginView {
    pub parent_thread_id: Seq<char>,
    pub derivation_key: Seq<char>,
}

impl View for ProcessOrigin {
    type V = ProcessOriginView;

    open spec fn view(&self) -> ProcessOriginView {
        ProcessOriginView {
            parent_thread_id: self.parent_thread_id@,
            derivation_key: self.derivation_key@,
        }
    }
}

impl DeepView for ProcessOrigin {
    type V = ProcessOriginView;

    open spec fn deep_view(&self) -> ProcessOriginView {
        self@
    }
}

impl Clone for ProcessOrigin {
    fn clone(&self) -> (res: Self)
        ensures
            res@ == self@,
    {
        ProcessOrigin {
            parent_thread_id: self.parent_thread_id.clone(),
            derivation_key: self.derivation_key.clone(),
        }
    }
}

/// The state that a history's entries carry, reduced to one value per kind: the last one written.
pub open spec fn reduced_history(history: Seq<HistoryEntryView>) -> Map<
    Seq<char>,
    serde_json::Value,
>
    decreases history.len(),
{
    if history.len() == 0 {
        Map::empty()
    } else {
        reduced_history(history.drop_last()).union_prefer_right(history.last().state)
    }
}

/// Take over more recorded state; where both have a kind, the newer value stays.
fn extend_state(state: &mut ThreadStateMap, more: &ThreadStateMap)
    ensures
        final(state).deep_view() == old(state).deep_view().union_prefer_right(more.deep_view()),
{
    let ghost before = state.deep_view();
    let ghost newer = more.deep_view();
    let keys = more.keys();
    let ghost order = keys.deep_view();
    proof {
        text::lemma_in_order(more@.dom());
    }
    let n: usize = keys.len();
    let mut i: usize = 0;
    while i < n
        invariant
            i <= n,
            n == keys@.len(),
            newer == more.deep_view(),
            order == keys.deep_view(),
            order.to_set() == more@.dom(),
            forall|kind: Seq<char>| #[trigger]
                state.deep_view().contains_key(kind) <==> (before.contains_key(kind) || order.take(
                    i as int,
                ).contains(kind)),
            forall|kind: Seq<char>| #[trigger]
                state.deep_view().contains_key(kind) ==> state.deep_view()[kind] == (
                if order.take(i as int).contains(kind) {
                    newer[kind]
                } else {
                    before[kind]
                }),
        decreases n - i,
    {
        let ghost kind = keys@[i as int]@;
        let ghost middle = state.deep_view();
        proof {
            assert(order[i as int] == kind);
            assert(order.to_set().contains(kind));
            assert(more@.contains_key(kind));
            assert(order.take(i + 1) =~= order.take(i as int).push(kind));
            assert forall|other: Seq<char>| #[trigger]
                order.take(i + 1).contains(other) == (order.take(i as int).contains(other) || other
                    == kind) by {
                lists::lemma_push_holds(order.take(i as int), kind, other);
            }
        }
        match more.get(keys[i].as_str()) {
            Some(value) => {
                let copy = value.clone();
                assert(newer[kind] == copy@);
                state.insert(keys[i].clone(), copy);
                assert(state.deep_view() =~= middle.insert(kind, copy@));
            },
            None => {},
        }
        i += 1;
    }
    proof {
        assert(order.take(n as int) =~= order);
        assert forall|kind: Seq<char>|
            state.deep_view().contains_key(kind) == before.union_prefer_right(newer).contains_key(
                kind,
            ) by {
            assert(order.to_set().contains(kind) == order.contains(kind));
        }
        assert forall|kind: Seq<char>| #[trigger]
            state.deep_view().contains_key(kind) implies state.deep_view()[kind]
            == before.union_prefer_right(newer)[kind] by {
            assert(order.to_set().contains(kind) == order.contains(kind));
        }
        assert(state.deep_view() =~= before.union_prefer_right(newer));
    }
}

/// A thread's history and what the runtime derives from it.
///
/// Every field is private: `state` stays true to `messages` because the methods here are the sole way to
/// change either.
pub struct ProcessMemory {
    messages: Vec<HistoryEntry>,
    /// Every entry's state, reduced. Derived, never stored: a tool batch asks for it before each of its
    /// calls, and rebuilding it from a transcript that only ever grows would cost more every turn.
    state: ThreadStateMap,
    /// The turn newly appended messages belong to. Advances only when a message that opens a turn is
    /// appended; `None` only before this thread has any history at all.
    current_turn: Option<TurnId>,
}

/// The content of a [`ProcessMemory`].
#[verifier::ext_equal]
pub struct MemoryView {
    pub messages: Seq<HistoryEntryView>,
    pub current_turn: Option<TurnId>,
}

impl View for ProcessMemory {
    type V = MemoryView;

    closed spec fn view(&self) -> MemoryView {
        MemoryView { messages: self.messages.deep_view(), current_turn: self.current_turn }
    }
}

impl MemoryView {
    /// A thread without history.
    pub open spec fn empty() -> Self {
        MemoryView { messages: Seq::empty(), current_turn: None }
    }

    /// The state recorded so far.
    pub open spec fn snapshot(self) -> Map<Seq<char>, serde_json::Value> {
        reduced_history(self.messages)
    }

    /// Whether `turn` is the turn a message appended now is tagged with: the current one, or a freshly
    /// minted one where there is none yet.
    pub open spec fn stamps(self, turn: TurnId) -> bool {
        match self.current_turn {
            Some(current) => turn == current,
            None => ids::is_random_uuid(turn.value),
        }
    }

    /// The thread with one more entry, in whose turn it now is.
    pub open spec fn with_entry(self, entry: HistoryEntryView) -> Self {
        MemoryView { messages: self.messages.push(entry), current_turn: Some(entry.turn_id) }
    }

    /// The thread with more messages, all of the turn `turn`.
    pub open spec fn with_messages(self, turn: TurnId, messages: Seq<MessageView>) -> Self {
        MemoryView {
            messages: self.messages + messages.map_values(
                |message: MessageView| HistoryEntryView::of(turn, message),
            ),
            current_turn: Some(turn),
        }
    }

    /// Whether the notice with this identity is already part of the history.
    pub open spec fn has_notice(self, id: MessageId) -> bool {
        exists|k: int|
            0 <= k < self.messages.len() && match (#[trigger] self.messages[k]).message {
                MessageView::TaskNotice(notice) => notice.message_id == id,
                _ => false,
            }
    }

    /// The thread once a message opened a turn. A notice that is already part of the history is not
    /// written a second time.
    pub open spec fn opened(self, turn: TurnId, message: MessageView) -> Self {
        let known = match message {
            MessageView::TaskNotice(notice) => self.has_notice(notice.message_id),
            _ => false,
        };
        if known {
            MemoryView { current_turn: Some(turn), ..self }
        } else {
            self.with_entry(HistoryEntryView::of(turn, message))
        }
    }
}

impl ProcessMemory {
    #[verifier::type_invariant]
    spec fn well_formed(self) -> bool {
        self.state.deep_view() == reduced_history(self.messages.deep_view())
    }

    /// A thread without history.
    pub fn new() -> (res: Self)
        ensures
            res@ == MemoryView::empty(),
    {
        let messages: Vec<HistoryEntry> = Vec::new();
        let state: ThreadStateMap = StringMap::new();
        assert(messages.deep_view() =~= Seq::empty());
        assert(state.deep_view() =~= Map::<Seq<char>, serde_json::Value>::empty());
        ProcessMemory { messages, state, current_turn: None }
    }

    /// The messages of the thread.
    pub fn messages(&self) -> (res: Vec<Message>)
        ensures
            res.deep_view() == message_view::messages_of(self@.messages),
    {
        let mut messages: Vec<Message> = Vec::new();
        let n: usize = self.messages.len();
        let mut i: usize = 0;
        while i < n
            invariant
                i <= n,
                n == self.messages@.len(),
                messages@.len() == i,
                forall|k: int|
                    0 <= k < i ==> (#[trigger] messages@[k])@ == self.messages@[k]@.message,
            decreases n - i,
        {
            messages.push(self.messages[i].message.clone());
            i += 1;
        }
        assert(messages.deep_view() =~= message_view::messages_of(self@.messages));
        messages
    }

    /// The history of the thread.
    pub fn history(&self) -> (res: Vec<HistoryEntry>)
        ensures
            res.deep_view() == self@.messages,
    {
        let res = self.messages.clone();
        assert(res.deep_view() =~= self.messages.deep_view());
        res
    }

    /// The turn this thread is in.
    pub fn current_turn(&self) -> (res: Option<TurnId>)
        ensures
            res == self@.current_turn,
    {
        self.current_turn
    }

    /// The state recorded so far, one value per kind.
    pub fn snapshot(&self) -> (res: ThreadStateMap)
        ensures
            res.deep_view() == self@.snapshot(),
    {
        proof {
            use_type_invariant(self);
        }
        agent::clone_state(&self.state)
    }

    /// Enter a turn.
    pub fn enter(&mut self, turn: TurnId)
        ensures
            final(self)@ == (MemoryView { current_turn: Some(turn), ..old(self)@ }),
    {
        proof {
            use_type_invariant(&*self);
        }
        self.current_turn = Some(turn);
    }

    /// Rebuild everything from a stored history, including an empty one. The turn stays as it was.
    pub fn restore(&mut self, messages: Vec<HistoryEntry>)
        ensures
            final(self)@ == (MemoryView { messages: messages.deep_view(), ..old(self)@ }),
    {
        let ghost all = messages.deep_view();
        let mut state: ThreadStateMap = StringMap::new();
        let n: usize = messages.len();
        let mut i: usize = 0;
        assert(state.deep_view() =~= reduced_history(all.take(0)));
        while i < n
            invariant
                i <= n,
                n == messages@.len(),
                all == messages.deep_view(),
                state.deep_view() == reduced_history(all.take(i as int)),
            decreases n - i,
        {
            proof {
                assert(all.take(i + 1).drop_last() =~= all.take(i as int));
                assert(all.take(i + 1).last() == messages@[i as int]@);
            }
            extend_state(&mut state, &messages[i].state);
            i += 1;
        }
        assert(all.take(n as int) =~= all);
        let current_turn = self.current_turn;
        *self = ProcessMemory { messages, state, current_turn };
    }

    /// The turn to tag a newly appended assistant or tool message with. There is none only before a
    /// thread has any history, and an assistant or tool message cannot be the first thing in a thread.
    /// Should that ever break, keeping the message under a fresh turn beats dropping it: a mis-grouped
    /// message is a rewind inaccuracy, a missing tool result is history the provider refuses outright.
    fn stamp(&mut self) -> (res: TurnId)
        ensures
            old(self)@.stamps(res),
            final(self)@ == (MemoryView { current_turn: Some(res), ..old(self)@ }),
    {
        match self.current_turn {
            Some(turn) => turn,
            None => {
                let turn = TurnId::from(MessageId::new());
                self.enter(turn);
                turn
            },
        }
    }

    /// Append an entry, in whose turn the thread then is.
    fn append(&mut self, entry: HistoryEntry)
        ensures
            final(self)@ == old(self)@.with_entry(entry@),
    {
        let mut held = ProcessMemory::new();
        std::mem::swap(self, &mut held);
        proof {
            use_type_invariant(&held);
        }
        let ProcessMemory { mut messages, mut state, current_turn: _ } = held;
        let ghost before = messages.deep_view();
        let turn = entry.turn_id;
        extend_state(&mut state, &entry.state);
        messages.push(entry);
        proof {
            assert(messages.deep_view() =~= before.push(entry@));
            assert(before.push(entry@).drop_last() =~= before);
            assert(before.push(entry@).last() == entry@);
        }
        *self = ProcessMemory { messages, state, current_turn: Some(turn) };
    }

    /// Append a message that has no state.
    pub fn push(&mut self, turn: TurnId, message: Message)
        ensures
            final(self)@ == old(self)@.with_entry(HistoryEntryView::of(turn, message@)),
    {
        self.append(HistoryEntry::new(turn, message));
    }

    /// Append a message and the state its call recorded, in step.
    pub fn record(&mut self, message: Message, state: ThreadStateMap)
        ensures
            exists|turn: TurnId|
                old(self)@.stamps(turn) && final(self)@ == #[trigger] old(self)@.with_entry(
                    HistoryEntryView { turn_id: turn, message: message@, state: state.deep_view() },
                ),
    {
        let turn_id = self.stamp();
        let ghost entry = HistoryEntryView {
            turn_id,
            message: message@,
            state: state.deep_view(),
        };
        self.append(HistoryEntry { turn_id, message, state });
        assert(self@ =~= old(self)@.with_entry(entry));
    }

    /// Whether the notice with this identity is already part of the history.
    fn holds_notice(&self, id: MessageId) -> (res: bool)
        ensures
            res == self@.has_notice(id),
    {
        let ghost all = self@.messages;
        let n: usize = self.messages.len();
        let mut i: usize = 0;
        while i < n
            invariant
                i <= n,
                n == self.messages@.len(),
                all == self.messages.deep_view(),
                forall|k: int|
                    0 <= k < i ==> !(match (#[trigger] all[k]).message {
                        MessageView::TaskNotice(notice) => notice.message_id == id,
                        _ => false,
                    }),
            decreases n - i,
        {
            assert(all[i as int] == self.messages@[i as int]@);
            match &self.messages[i].message {
                Message::TaskNotice(notice) => {
                    if notice.message_id == id {
                        assert(all[i as int].message is TaskNotice);
                        return true;
                    }
                },
                _ => {},
            }
            i += 1;
        }
        false
    }
}

impl Default for ProcessMemory {
    fn default() -> (res: Self)
        ensures
            res@ == MemoryView::empty(),
    {
        ProcessMemory::new()
    }
}

/// A program at work on one thread.
pub struct Process {
    pub pid: ProcessId,
    pub program: Arc<Program>,
    pub state: ProcessMemory,
    pub resume_point: ResumePoint,
    pub execution: Option<StoredExecution>,
    pub reply_target: Option<ReplyTarget>,
    pub origin: Option<ProcessOrigin>,
}

impl Process {
    /// Everything about the process but its memory.
    pub open spec fn same_identity(self, other: Process) -> bool {
        &&& self.pid == other.pid
        &&& self.program == other.program
        &&& self.resume_point == other.resume_point
        &&& self.execution == other.execution
        &&& self.reply_target == other.reply_target
        &&& self.origin == other.origin
    }

    /// A process that has not run yet.
    pub fn new(pid: ProcessId, program: Arc<Program>) -> (res: Self)
        ensures
            res.pid == pid,
            res.program == program,
            res.state@ == MemoryView::empty(),
            res.resume_point is Generation,
            res.execution is None,
            res.reply_target is None,
            res.origin is None,
    {
        Process {
            pid,
            program,
            state: ProcessMemory::new(),
            resume_point: ResumePoint::Generation,
            execution: None,
            reply_target: None,
            origin: None,
        }
    }

    /// The name of the program.
    pub fn name(&self) -> (res: &str)
        ensures
            res@ == self.program.name@,
    {
        self.program.name.as_str()
    }

    /// Record the message that opens a turn, and make that turn this thread's current one: what the user
    /// sent, or the notice the runtime wrote when background work finished.
    ///
    /// Advancing the turn is tied to appending the opening message rather than to receiving an envelope.
    /// When a new task pre-empts calls that were awaiting approval, those calls are first written off,
    /// and the results belong to the previous turn. Were the turn advanced on arrival, a rewind to the
    /// new turn would delete them and leave the earlier assistant message with tool calls that have no
    /// results.
    pub fn add_opening_message(&mut self, turn_id: TurnId, message: Message)
        ensures
            final(self).same_identity(*old(self)),
            final(self).state@ == old(self).state@.opened(turn_id, message@),
    {
        let known = match &message {
            Message::TaskNotice(notice) => self.state.holds_notice(notice.message_id),
            _ => false,
        };
        if known {
            self.state.enter(turn_id);
        } else {
            self.state.push(turn_id, message);
        }
    }

    /// Append a message to the current turn. Used for assistant and tool messages, which never start a
    /// turn.
    pub fn add_message(&mut self, message: Message)
        ensures
            final(self).same_identity(*old(self)),
            exists|turn: TurnId|
                old(self).state@.stamps(turn) && final(self).state@ == #[trigger] old(
                    self,
                ).state@.with_entry(HistoryEntryView::of(turn, message@)),
    {
        let turn_id = self.state.stamp();
        self.state.push(turn_id, message);
        assert(self.state@ =~= old(self).state@.with_entry(
            HistoryEntryView::of(turn_id, message@),
        ));
    }

    /// Append messages to the current turn.
    pub fn add_messages(&mut self, messages: Vec<Message>)
        ensures
            final(self).same_identity(*old(self)),
            exists|turn: TurnId|
                old(self).state@.stamps(turn) && final(self).state@ == #[trigger] old(
                    self,
                ).state@.with_messages(turn, messages.deep_view()),
    {
        let turn_id = self.state.stamp();
        let ghost all = messages.deep_view();
        let ghost tag = |message: MessageView| HistoryEntryView::of(turn_id, message);
        let n: usize = messages.len();
        let mut i: usize = 0;
        assert(self.state@ =~= old(self).state@.with_messages(turn_id, all.take(0)));
        while i < n
            invariant
                i <= n,
                n == messages@.len(),
                all == messages.deep_view(),
                tag == (|message: MessageView| HistoryEntryView::of(turn_id, message)),
                self.same_identity(*old(self)),
                self.state@ == old(self).state@.with_messages(turn_id, all.take(i as int)),
            decreases n - i,
        {
            let message = messages[i].clone();
            self.state.push(turn_id, message);
            proof {
                assert(all.take(i + 1) =~= all.take(i as int).push(message@));
                assert(all.take(i + 1).map_values(tag) =~= all.take(i as int).map_values(tag).push(
                    tag(message@),
                ));
                assert(self.state@ =~= old(self).state@.with_messages(turn_id, all.take(i + 1)));
            }
            i += 1;
        }
        assert(all.take(n as int) =~= all);
    }

    /// The turn this thread is in: what a message appended now is tagged with, and what a sub-agent call
    /// hands down so that the callee's messages group with the submission that caused them. `None` while
    /// the thread has no history.
    pub fn current_turn(&self) -> (res: Option<TurnId>)
        ensures
            res == self.state@.current_turn,
    {
        self.state.current_turn()
    }

    /// The request this thread's history makes under a given system prompt: the prompt, then the part of
    /// the history a compaction left visible, lowered to what a provider accepts.
    pub fn messages_with_prompt(&self, prompt: String) -> (res: Result<
        Vec<RequestMessage>,
        InvalidHistory,
    >)
        ensures
            match message_view::validation(
                message_view::messages_of(message_view::shown(self.state@.messages)),
            ) {
                Ok(_) => res matches Ok(messages) && messages.deep_view()
                    == agent::request_messages(prompt@, self.state@.messages),
                Err(fault) => res matches Err(invalid) && invalid@ == fault,
            },
    {
        let history = self.state.messages.as_slice();
        assert(history.deep_view() =~= self.state.messages.deep_view());
        let visible = message_view::model_view(history);
        match message_view::validate_messages(&message_view::entry_messages(&visible)) {
            Ok(()) => Ok(agent::build_request_messages(prompt, &visible)),
            Err(invalid) => Err(invalid),
        }
    }

    /// The request this thread's history makes.
    pub fn messages(&self, store: &PromptStore) -> (res: Result<Vec<RequestMessage>, InvalidHistory>)
        requires
            self.program.system_prompt.base.belongs_to(*store),
        ensures
            match message_view::validation(
                message_view::messages_of(message_view::shown(self.state@.messages)),
            ) {
                Ok(_) => res matches Ok(messages) && exists|prompt: Seq<char>| #[trigger]
                    self.program.system_prompt.may_resolve_to(*store, prompt)
                        && messages.deep_view() == agent::request_messages(
                        prompt,
                        self.state@.messages,
                    ),
                Err(fault) => res matches Err(invalid) && invalid@ == fault,
            },
    {
        let prompt = self.program.system_prompt.resolve(store);
        let ghost resolved = prompt@;
        assert(self.program.system_prompt.may_resolve_to(*store, resolved));
        self.messages_with_prompt(prompt)
    }

    /// The conversation so far, without the system prompt (suitable for checkpointing).
    pub fn history(&self) -> (res: Vec<HistoryEntry>)
        ensures
            res.deep_view() == self.state@.messages,
    {
        self.state.history()
    }

    /// The most recent recorded token usage on this thread, read without copying the transcript.
    pub fn last_usage(&self) -> (res: Option<CompletionUsage>)
        ensures
            res == agent::latest_usage(self.state@.messages),
    {
        agent::find_latest_usage(&self.state.messages)
    }

    /// Restore this process's conversation from its checkpoint. Whatever work is being resumed belongs to
    /// the turn of the last message written, so the turn needs no separate persistence.
    pub fn restore_history(&mut self, messages: Vec<HistoryEntry>)
        ensures
            final(self).same_identity(*old(self)),
            final(self).state@ == (MemoryView {
                messages: messages.deep_view(),
                current_turn: if messages.deep_view().len() == 0 {
                    None
                } else {
                    Some(messages.deep_view().last().turn_id)
                },
            }),
    {
        let n: usize = messages.len();
        let last: Option<TurnId> = if n == 0 {
            None
        } else {
            assert(messages.deep_view().last() == messages@[n - 1]@);
            Some(messages[n - 1].turn_id)
        };
        let mut memory = ProcessMemory::new();
        memory.restore(messages);
        match last {
            Some(turn) => {
                memory.enter(turn);
            },
            None => {},
        }
        self.state = memory;
    }

    /// This thread's recorded state so far, reduced to one value per kind. The last entry of a kind wins,
    /// because every entry is a complete value rather than a delta.
    pub fn state_snapshot(&self) -> (res: ThreadStateMap)
        ensures
            res.deep_view() == self.state@.snapshot(),
    {
        self.state.snapshot()
    }

    /// Append a message together with whatever the call that produced it recorded, as one entry, so that
    /// state can neither lose its message nor outlive it. What is recorded is in write order, so a kind
    /// written twice keeps the last value.
    pub fn add_message_with_state(&mut self, message: Message, recorded: Vec<(String, StateValue)>)
        ensures
            final(self).same_identity(*old(self)),
            exists|turn: TurnId|
                old(self).state@.stamps(turn) && final(self).state@ == #[trigger] old(
                    self,
                ).state@.with_entry(
                    HistoryEntryView {
                        turn_id: turn,
                        message: message@,
                        state: last_written(recorded.deep_view()),
                    },
                ),
    {
        let state = collect_recorded(&recorded);
        self.state.record(message, state);
    }
}

/// What was recorded in write order, reduced to one value per kind.
pub open spec fn last_written(recorded: Seq<(Seq<char>, serde_json::Value)>) -> Map<
    Seq<char>,
    serde_json::Value,
>
    decreases recorded.len(),
{
    if recorded.len() == 0 {
        Map::empty()
    } else {
        last_written(recorded.drop_last()).insert(recorded.last().0, recorded.last().1)
    }
}

/// What was recorded in write order, reduced to one value per kind.
fn collect_recorded(recorded: &Vec<(String, StateValue)>) -> (res: ThreadStateMap)
    ensures
        res.deep_view() == last_written(recorded.deep_view()),
{
    let ghost all = recorded.deep_view();
    let mut state: ThreadStateMap = StringMap::new();
    let n: usize = recorded.len();
    let mut i: usize = 0;
    assert(state.deep_view() =~= last_written(all.take(0)));
    while i < n
        invariant
            i <= n,
            n == recorded@.len(),
            all == recorded.deep_view(),
            state.deep_view() == last_written(all.take(i as int)),
        decreases n - i,
    {
        let kind = recorded[i].0.clone();
        let value = recorded[i].1.clone();
        let ghost before = state.deep_view();
        proof {
            assert(all[i as int] == (kind@, value@));
            assert(all.take(i + 1).drop_last() =~= all.take(i as int));
            assert(all.take(i + 1).last() == all[i as int]);
        }
        state.insert(kind, value);
        assert(state.deep_view() =~= before.insert(kind@, value@));
        i += 1;
    }
    assert(all.take(n as int) =~= all);
    state
}

/// The recorded state never strays from the history: whatever a thread went through, its snapshot is the
/// reduction of its entries. An entry that records a kind decides it, and every other kind stays as it
/// was.
pub proof fn law_the_snapshot_follows_the_history(
    memory: MemoryView,
    entry: HistoryEntryView,
    kind: Seq<char>,
)
    ensures
        entry.state.contains_key(kind) ==> memory.with_entry(entry).snapshot().contains_key(kind)
            && memory.with_entry(entry).snapshot()[kind] == entry.state[kind],
        !entry.state.contains_key(kind) ==> {
            &&& memory.with_entry(entry).snapshot().contains_key(kind)
                == memory.snapshot().contains_key(kind)
            &&& memory.snapshot().contains_key(kind) ==> memory.with_entry(entry).snapshot()[kind]
                == memory.snapshot()[kind]
        },
        MemoryView::empty().snapshot() == Map::<Seq<char>, serde_json::Value>::empty(),
{
    assert(memory.messages.push(entry).drop_last() =~= memory.messages);
}

/// A notice is written once: opening a turn with it again enters the turn and leaves the history alone.
pub proof fn law_a_notice_is_written_once(
    memory: MemoryView,
    first: TurnId,
    second: TurnId,
    message: MessageView,
)
    requires
        message is TaskNotice,
    ensures
        memory.opened(first, message).opened(second, message) == (MemoryView {
            current_turn: Some(second),
            ..memory.opened(first, message)
        }),
{
    let once = memory.opened(first, message);
    let id = message->TaskNotice_0.message_id;
    if !memory.has_notice(id) {
        let k = memory.messages.len() as int;
        assert(once.messages[k].message == message);
    }
}

}
