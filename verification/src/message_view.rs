//! What a thread shows the model: the model view.
//!
//! [`model_view`] starts at the last compaction summary (if any), then everything after its
//! recorded cutoff, in original order. Storage only ever grows at the tail, so a summary can land
//! after messages it actually protects (an in-progress turn); the cutoff is what lets the view put
//! them back after the summary instead of before it. Records meant for the transcript only (a
//! failed compaction) are left out.

use crate::agent::{HistoryEntry, HistoryEntryView};
use crate::ids::{self, MessageId};
use crate::llm::{AssistantMessage, AssistantMessageView, Message, MessageView, ToolMessageView};
use crate::text;
use vstd::prelude::*;

verus! {

/// The last index at which `holds` holds.
pub open spec fn last_index(
    history: Seq<HistoryEntryView>,
    holds: spec_fn(HistoryEntryView) -> bool,
) -> Option<int>
    decreases history.len(),
{
    if history.len() == 0 {
        None
    } else if holds(history.last()) {
        Some(history.len() - 1)
    } else {
        last_index(history.drop_last(), holds)
    }
}

/// Whether an entry is a compaction summary.
pub open spec fn is_summary() -> spec_fn(HistoryEntryView) -> bool {
    |entry: HistoryEntryView| entry.message.is_summary()
}

/// Whether an entry is the message `id`.
pub open spec fn has_id(id: MessageId) -> spec_fn(HistoryEntryView) -> bool {
    |entry: HistoryEntryView| entry.message.message_id() == id
}

/// Where the active summary stands: the last one in the history.
pub open spec fn summary_index(history: Seq<HistoryEntryView>) -> Option<int> {
    last_index(history, is_summary())
}

/// Where the tail that the summary at `at` protects begins: one past the message its cutoff names,
/// or the summary's own position where no earlier message has that id.
pub open spec fn protected_from(history: Seq<HistoryEntryView>, at: int) -> int {
    match history[at].message {
        MessageView::Compaction(compaction) => match compaction.cutoff() {
            Some(cutoff) => match last_index(history.take(at), has_id(cutoff)) {
                Some(covered) => covered + 1,
                None => at,
            },
            None => at,
        },
        _ => at,
    }
}

/// Where the tail begins: at the start of a history without a summary.
pub open spec fn tail_start(history: Seq<HistoryEntryView>) -> int {
    match summary_index(history) {
        Some(at) => protected_from(history, at),
        None => 0,
    }
}

/// Whether entry `i` belongs to the tail: it is meant for the model, and is not the summary again.
pub open spec fn in_tail(history: Seq<HistoryEntryView>, i: int) -> bool {
    &&& tail_start(history) <= i < history.len()
    &&& history[i].message.visible_to_model()
    &&& match summary_index(history) {
        Some(at) => history[i].message.message_id() != history[at].message.message_id(),
        None => true,
    }
}

/// The positions of the tail below `end`, ascending.
pub open spec fn tail_below(history: Seq<HistoryEntryView>, end: int) -> Seq<int>
    decreases end,
{
    if end <= 0 {
        Seq::empty()
    } else if in_tail(history, end - 1) {
        tail_below(history, end - 1).push(end - 1)
    } else {
        tail_below(history, end - 1)
    }
}

/// The positions of the tail, ascending.
pub open spec fn tail_indices(history: Seq<HistoryEntryView>) -> Seq<int> {
    tail_below(history, history.len() as int)
}

/// The positions of everything the model sees, in the order it sees them: the summary leads, and
/// the tail follows.
pub open spec fn view_indices(history: Seq<HistoryEntryView>) -> Seq<int> {
    match summary_index(history) {
        Some(at) => seq![at] + tail_indices(history),
        None => tail_indices(history),
    }
}

/// The entries at some positions.
pub open spec fn entries_at(history: Seq<HistoryEntryView>, indices: Seq<int>) -> Seq<
    HistoryEntryView,
> {
    indices.map_values(|i: int| history[i])
}

/// What the model sees of a history.
pub open spec fn shown(history: Seq<HistoryEntryView>) -> Seq<HistoryEntryView> {
    entries_at(history, view_indices(history))
}

/// The messages of some entries.
pub open spec fn messages_of(entries: Seq<HistoryEntryView>) -> Seq<MessageView> {
    entries.map_values(|entry: HistoryEntryView| entry.message)
}

/// What `last_index` means: nothing after the index it names holds.
pub proof fn lemma_last_index(
    history: Seq<HistoryEntryView>,
    holds: spec_fn(HistoryEntryView) -> bool,
)
    ensures
        match last_index(history, holds) {
            Some(at) => {
                &&& 0 <= at < history.len()
                &&& holds(history[at])
                &&& forall|i: int| at < i < history.len() ==> !holds(#[trigger] history[i])
            },
            None => forall|i: int| 0 <= i < history.len() ==> !holds(#[trigger] history[i]),
        },
    decreases history.len(),
{
    if history.len() > 0 && !holds(history.last()) {
        let rest = history.drop_last();
        lemma_last_index(rest, holds);
        assert forall|i: int| 0 <= i < rest.len() implies #[trigger] history[i] == rest[i] by {}
    }
}

/// `last_index` is the only index with what [`lemma_last_index`] says of it.
pub proof fn lemma_last_index_unique(
    history: Seq<HistoryEntryView>,
    holds: spec_fn(HistoryEntryView) -> bool,
    at: int,
)
    requires
        0 <= at < history.len(),
        holds(history[at]),
        forall|i: int| at < i < history.len() ==> !holds(#[trigger] history[i]),
    ensures
        last_index(history, holds) == Some(at),
{
    lemma_last_index(history, holds);
    match last_index(history, holds) {
        Some(found) => {
            if found < at {
                assert(!holds(history[at]));
            }
        },
        None => {
            assert(!holds(history[at]));
        },
    }
}

/// The tail starts inside the history, and no later than its summary.
pub proof fn lemma_tail_start(history: Seq<HistoryEntryView>)
    ensures
        0 <= tail_start(history) <= history.len(),
        match summary_index(history) {
            Some(at) => 0 <= at < history.len() && history[at].message.is_summary()
                && tail_start(history) <= at,
            None => tail_start(history) == 0,
        },
{
    lemma_last_index(history, is_summary());
    match summary_index(history) {
        Some(at) => {
            match history[at].message {
                MessageView::Compaction(compaction) => match compaction.cutoff() {
                    Some(cutoff) => {
                        lemma_last_index(history.take(at), has_id(cutoff));
                    },
                    None => {},
                },
                _ => {},
            }
        },
        None => {},
    }
}

/// The positions of the tail ascend, and are exactly those that belong to it.
pub proof fn lemma_tail_below(history: Seq<HistoryEntryView>, end: int)
    requires
        0 <= end <= history.len(),
    ensures
        forall|k: int|
            0 <= k < tail_below(history, end).len() ==> 0 <= #[trigger] tail_below(history, end)[k]
                < end && in_tail(history, tail_below(history, end)[k]),
        forall|k: int, l: int|
            0 <= k < l < tail_below(history, end).len() ==> #[trigger] tail_below(history, end)[k]
                < #[trigger] tail_below(history, end)[l],
        forall|i: int|
            0 <= i < end && #[trigger] in_tail(history, i) ==> tail_below(history, end).contains(i),
    decreases end,
{
    if end > 0 {
        lemma_tail_below(history, end - 1);
        let before = tail_below(history, end - 1);
        let all = tail_below(history, end);
        assert forall|i: int| 0 <= i < end && #[trigger] in_tail(history, i) implies all.contains(
            i,
        ) by {
            if i == end - 1 {
                assert(all[all.len() - 1] == i);
            } else {
                assert(before.contains(i));
                let k = choose|k: int| 0 <= k < before.len() && before[k] == i;
                assert(all[k] == i);
            }
        }
    }
}

/// Where the last summary stands.
fn last_summary_position(messages: &[HistoryEntry]) -> (res: Option<usize>)
    ensures
        res == (match summary_index(messages.deep_view()) {
            Some(at) => Some(at as usize),
            None => None,
        }),
{
    let ghost history = messages.deep_view();
    let mut n: usize = messages.len();
    while n > 0
        invariant
            n <= messages@.len(),
            history == messages.deep_view(),
            forall|i: int|
                n <= i < history.len() ==> !(#[trigger] history[i]).message.is_summary(),
        decreases n,
    {
        let at: usize = n - 1;
        assert(history[at as int] == messages@[at as int]@);
        if is_compaction_summary(&messages[at].message) {
            proof {
                lemma_last_index_unique(history, is_summary(), at as int);
            }
            return Some(at);
        }
        n = at;
    }
    proof {
        lemma_last_index(history, is_summary());
    }
    None
}

/// The last position of the message `id` before `end`.
fn last_position_of(messages: &[HistoryEntry], end: usize, id: MessageId) -> (res: Option<usize>)
    requires
        end <= messages@.len(),
    ensures
        res == (match last_index(messages.deep_view().take(end as int), has_id(id)) {
            Some(at) => Some(at as usize),
            None => None,
        }),
{
    let ghost history = messages.deep_view().take(end as int);
    let mut n: usize = end;
    while n > 0
        invariant
            n <= end <= messages@.len(),
            history == messages.deep_view().take(end as int),
            forall|i: int|
                n <= i < history.len() ==> (#[trigger] history[i]).message.message_id() != id,
        decreases n,
    {
        let at: usize = n - 1;
        assert(history[at as int] == messages@[at as int]@);
        if messages[at].message.message_id() == id {
            proof {
                lemma_last_index_unique(history, has_id(id), at as int);
            }
            return Some(at);
        }
        n = at;
    }
    proof {
        lemma_last_index(history, has_id(id));
    }
    None
}

/// Whether a message is a compaction summary.
pub(crate) fn is_compaction_summary(message: &Message) -> (res: bool)
    ensures
        res == message@.is_summary(),
{
    match message {
        Message::Compaction(compaction) => compaction.is_summary(),
        _ => false,
    }
}

/// The last summary's index, paired with where its protected tail begins: one past its recorded
/// cutoff, or the summary's own index when that message is no longer in the history.
fn last_summary(messages: &[HistoryEntry]) -> (res: Option<(usize, usize)>)
    ensures
        match summary_index(messages.deep_view()) {
            Some(at) => res == Some((at as usize, tail_start(messages.deep_view()) as usize)),
            None => res is None,
        },
{
    proof {
        lemma_tail_start(messages.deep_view());
    }
    match last_summary_position(messages) {
        Some(at) => {
            assert(messages.deep_view()[at as int] == messages@[at as int]@);
            let mut start: usize = at;
            match &messages[at].message {
                Message::Compaction(compaction) => match compaction.cutoff() {
                    Some(cutoff) => match last_position_of(messages, at, cutoff) {
                        Some(covered) => {
                            proof {
                                lemma_last_index(
                                    messages.deep_view().take(at as int),
                                    has_id(cutoff),
                                );
                            }
                            start = covered + 1;
                        },
                        None => {},
                    },
                    None => {},
                },
                _ => {},
            }
            Some((at, start))
        },
        None => None,
    }
}

/// Machine indices as the positions they name.
pub open spec fn as_positions(indices: Seq<usize>) -> Seq<int> {
    indices.map_values(|i: usize| i as int)
}

/// Splits the model view into the active summary and the uncompressed tail. Both are given by
/// their physical index in `messages`, which compaction needs for its persisted coverage mark.
pub fn model_view_parts_indexed(messages: &[HistoryEntry]) -> (res: (Option<usize>, Vec<usize>))
    ensures
        match summary_index(messages.deep_view()) {
            Some(at) => res.0 == Some(at as usize) && 0 <= at < messages@.len(),
            None => res.0 is None,
        },
        as_positions(res.1@) == tail_indices(messages.deep_view()),
        forall|k: int| 0 <= k < res.1@.len() ==> (#[trigger] res.1@[k]) < messages@.len(),
{
    let ghost history = messages.deep_view();
    let n: usize = messages.len();
    let boundary = last_summary(messages);
    proof {
        lemma_tail_start(history);
    }
    let start: usize = match boundary {
        Some((_, start)) => start,
        None => 0,
    };
    let summary: Option<usize> = match boundary {
        Some((at, _)) => Some(at),
        None => None,
    };
    let mut tail: Vec<usize> = Vec::new();
    let mut i: usize = start;
    proof {
        lemma_tail_below(history, start as int);
        assert(tail_below(history, start as int).len() == 0) by {
            if tail_below(history, start as int).len() > 0 {
                assert(in_tail(history, tail_below(history, start as int)[0]));
            }
        }
        assert(as_positions(tail@) =~= tail_below(history, start as int));
    }
    while i < n
        invariant
            start <= i <= n,
            n == messages@.len(),
            history == messages.deep_view(),
            start == tail_start(history),
            match summary_index(history) {
                Some(at) => summary == Some(at as usize) && 0 <= at < n,
                None => summary is None,
            },
            as_positions(tail@) == tail_below(history, i as int),
            forall|k: int| 0 <= k < tail@.len() ==> (#[trigger] tail@[k]) < n,
        decreases n - i,
    {
        assert(history[i as int] == messages@[i as int]@);
        let repeats: bool = match summary {
            Some(at) => {
                assert(history[at as int] == messages@[at as int]@);
                messages[i].message.message_id() == messages[at].message.message_id()
            },
            None => false,
        };
        let ghost before = tail@;
        if !repeats && messages[i].message.visible_to_model() {
            tail.push(i);
            assert(as_positions(tail@) =~= as_positions(before).push(i as int));
        }
        i += 1;
    }
    (summary, tail)
}

/// The model's view of `messages`: the last compaction summary (if any) leading, then everything
/// after its cutoff, minus transcript-only records. A thread with no summary yet is shown whole.
pub fn model_view(messages: &[HistoryEntry]) -> (res: Vec<&HistoryEntry>)
    ensures
        res.deep_view() == shown(messages.deep_view()),
{
    let ghost history = messages.deep_view();
    let (summary, tail) = model_view_parts_indexed(messages);
    let mut view: Vec<&HistoryEntry> = Vec::new();
    let ghost lead: Seq<int> = match summary_index(history) {
        Some(at) => seq![at],
        None => Seq::empty(),
    };
    match summary {
        Some(at) => {
            assert(history[at as int] == messages@[at as int]@);
            view.push(&messages[at]);
        },
        None => {},
    }
    let n: usize = tail.len();
    let mut i: usize = 0;
    assert(view.deep_view() =~= entries_at(history, lead + tail_indices(history).take(0)));
    while i < n
        invariant
            i <= n,
            n == tail@.len(),
            history == messages.deep_view(),
            as_positions(tail@) == tail_indices(history),
            forall|k: int| 0 <= k < tail@.len() ==> (#[trigger] tail@[k]) < messages@.len(),
            view.deep_view() == entries_at(history, lead + tail_indices(history).take(i as int)),
        decreases n - i,
    {
        let at: usize = tail[i];
        let ghost before = view.deep_view();
        assert(history[at as int] == messages@[at as int]@);
        assert(tail_indices(history)[i as int] == at);
        view.push(&messages[at]);
        proof {
            assert(view.deep_view() =~= before.push(history[at as int]));
            let seen = lead + tail_indices(history).take(i as int);
            assert(lead + tail_indices(history).take(i + 1) =~= seen.push(at as int));
            assert(entries_at(history, seen.push(at as int)) =~= entries_at(history, seen).push(
                history[at as int],
            ));
        }
        i += 1;
    }
    assert(lead + tail_indices(history).take(n as int) =~= view_indices(history));
    view
}

/// A history without a summary is shown whole, but for records meant for the transcript only.
pub proof fn law_without_a_summary_everything_visible_is_shown(
    history: Seq<HistoryEntryView>,
    i: int,
)
    requires
        summary_index(history) is None,
        0 <= i < history.len(),
    ensures
        view_indices(history).contains(i) == history[i].message.visible_to_model(),
{
    lemma_tail_below(history, history.len() as int);
    if history[i].message.visible_to_model() {
        assert(in_tail(history, i));
    } else if view_indices(history).contains(i) {
        let k = choose|k: int| 0 <= k < view_indices(history).len() && view_indices(history)[k] == i;
        assert(in_tail(history, tail_below(history, history.len() as int)[k]));
    }
}

/// Nothing meant for the transcript only is ever shown, the summary leads where there is one, and
/// the entries after it keep their order in the history.
pub proof fn law_view_order(history: Seq<HistoryEntryView>)
    ensures
        forall|k: int|
            0 <= k < shown(history).len() ==> (
            #[trigger] shown(history)[k]).message.visible_to_model(),
        match summary_index(history) {
            Some(at) => shown(history).len() > 0 && shown(history)[0] == history[at],
            None => true,
        },
        forall|k: int, l: int|
            (summary_index(history) is Some ==> 0 < k) && 0 <= k < l < view_indices(history).len()
                ==> #[trigger] view_indices(history)[k] < #[trigger] view_indices(history)[l],
{
    let n = history.len() as int;
    lemma_tail_start(history);
    lemma_tail_below(history, n);
    let all = view_indices(history);
    let tail = tail_below(history, n);
    assert forall|k: int| 0 <= k < shown(history).len() implies (
    #[trigger] shown(history)[k]).message.visible_to_model() by {
        match summary_index(history) {
            Some(at) => {
                if k > 0 {
                    assert(all[k] == tail[k - 1]);
                    assert(in_tail(history, tail[k - 1]));
                }
            },
            None => {
                assert(in_tail(history, tail[k]));
            },
        }
    }
    assert forall|k: int, l: int|
        (summary_index(history) is Some ==> 0 < k) && 0 <= k < l < all.len() implies #[trigger] all[k]
        < #[trigger] all[l] by {
        match summary_index(history) {
            Some(at) => {
                assert(all[k] == tail[k - 1]);
                assert(all[l] == tail[l - 1]);
            },
            None => {},
        }
    }
}

/// A violation of the tool-call protocol in the messages visible to a provider.
#[derive(Debug, PartialEq, Eq)]
pub enum InvalidHistory {
    OrphanToolResult {
        message_id: MessageId,
        call_id: String,
    },
    DuplicateToolCall {
        message_id: MessageId,
        call_id: String,
    },
    DuplicateToolResult {
        message_id: MessageId,
        call_id: String,
    },
    IncompleteToolBatch {
        assistant_message_id: MessageId,
        missing_call_ids: Vec<String>,
    },
}

/// The content of a [`InvalidHistory`].
#[verifier::ext_equal]
pub enum InvalidHistoryView {
    OrphanToolResult { message_id: MessageId, call_id: Seq<char> },
    DuplicateToolCall { message_id: MessageId, call_id: Seq<char> },
    DuplicateToolResult { message_id: MessageId, call_id: Seq<char> },
    IncompleteToolBatch { assistant_message_id: MessageId, missing_call_ids: Seq<Seq<char>> },
}

impl View for InvalidHistory {
    type V = InvalidHistoryView;

    open spec fn view(&self) -> InvalidHistoryView {
        match self {
            InvalidHistory::OrphanToolResult { message_id, call_id } => InvalidHistoryView::OrphanToolResult {
                message_id: *message_id,
                call_id: call_id@,
            },
            InvalidHistory::DuplicateToolCall { message_id, call_id } => InvalidHistoryView::DuplicateToolCall {
                message_id: *message_id,
                call_id: call_id@,
            },
            InvalidHistory::DuplicateToolResult { message_id, call_id } => InvalidHistoryView::DuplicateToolResult {
                message_id: *message_id,
                call_id: call_id@,
            },
            InvalidHistory::IncompleteToolBatch { assistant_message_id, missing_call_ids } => InvalidHistoryView::IncompleteToolBatch {
                assistant_message_id: *assistant_message_id,
                missing_call_ids: missing_call_ids.deep_view(),
            },
        }
    }
}

impl DeepView for InvalidHistory {
    type V = InvalidHistoryView;

    open spec fn deep_view(&self) -> InvalidHistoryView {
        self@
    }
}

impl Clone for InvalidHistory {
    fn clone(&self) -> (res: Self)
        ensures
            res@ == self@,
    {
        match self {
            InvalidHistory::OrphanToolResult { message_id, call_id } => InvalidHistory::OrphanToolResult {
                message_id: *message_id,
                call_id: call_id.clone(),
            },
            InvalidHistory::DuplicateToolCall { message_id, call_id } => InvalidHistory::DuplicateToolCall {
                message_id: *message_id,
                call_id: call_id.clone(),
            },
            InvalidHistory::DuplicateToolResult { message_id, call_id } => InvalidHistory::DuplicateToolResult {
                message_id: *message_id,
                call_id: call_id.clone(),
            },
            InvalidHistory::IncompleteToolBatch { assistant_message_id, missing_call_ids } => {
                let missing_call_ids_copy = missing_call_ids.clone();
                assert(missing_call_ids_copy.deep_view() =~= missing_call_ids.deep_view());
                InvalidHistory::IncompleteToolBatch {
                    assistant_message_id: *assistant_message_id,
                    missing_call_ids: missing_call_ids_copy,
                }
            },
        }
    }
}

impl InvalidHistoryView {
    /// The violation in words.
    pub open spec fn describe(self) -> Seq<char> {
        match self {
            InvalidHistoryView::OrphanToolResult { message_id, call_id } => "tool result "@
                + ids::uuid_text(message_id.value) + " references call '"@ + call_id
                + "' without a matching assistant batch"@,
            InvalidHistoryView::DuplicateToolCall { message_id, call_id } => "assistant message "@
                + ids::uuid_text(message_id.value) + " declares tool call '"@ + call_id
                + "' more than once"@,
            InvalidHistoryView::DuplicateToolResult { message_id, call_id } => "tool result "@
                + ids::uuid_text(message_id.value) + " answers call '"@ + call_id
                + "' more than once"@,
            InvalidHistoryView::IncompleteToolBatch { assistant_message_id, missing_call_ids } =>
                "assistant message "@ + ids::uuid_text(assistant_message_id.value)
                + " is missing results for calls: "@ + text::joined(missing_call_ids, ", "@),
        }
    }
}

impl InvalidHistory {
    /// The violation in words.
    pub fn describe(&self) -> (res: String)
        ensures
            res@ == self@.describe(),
    {
        match self {
            InvalidHistory::OrphanToolResult { message_id, call_id } => text::concat(
                "tool result ",
                message_id.to_text().as_str(),
                " references call '",
                call_id.as_str(),
                "' without a matching assistant batch",
            ),
            InvalidHistory::DuplicateToolCall { message_id, call_id } => text::concat(
                "assistant message ",
                message_id.to_text().as_str(),
                " declares tool call '",
                call_id.as_str(),
                "' more than once",
            ),
            InvalidHistory::DuplicateToolResult { message_id, call_id } => text::concat(
                "tool result ",
                message_id.to_text().as_str(),
                " answers call '",
                call_id.as_str(),
                "' more than once",
            ),
            InvalidHistory::IncompleteToolBatch { assistant_message_id, missing_call_ids } => {
                let res = text::concat(
                    "assistant message ",
                    assistant_message_id.to_text().as_str(),
                    " is missing results for calls: ",
                    text::join(missing_call_ids, ", ").as_str(),
                    "",
                );
                proof {
                    reveal_strlit("");
                    assert(res@ =~= self@.describe());
                }
                res
            },
        }
    }
}

/// A batch of calls that an assistant message opened: what it asked for, and what was answered.
pub struct OpenBatch {
    pub assistant_message_id: MessageId,
    pub expected: Seq<Seq<char>>,
    pub answered: Set<Seq<char>>,
}

/// The ids of the calls an assistant message asks for.
pub open spec fn call_ids(message: AssistantMessageView) -> Seq<Seq<char>> {
    message.tool_calls.map_values(|call: crate::llm::ToolCallView| call.id)
}

/// The first id that already occurred earlier in the list.
pub open spec fn first_repeat(ids: Seq<Seq<char>>) -> Option<Seq<char>>
    decreases ids.len(),
{
    if ids.len() == 0 {
        None
    } else {
        match first_repeat(ids.drop_last()) {
            Some(id) => Some(id),
            None => if ids.drop_last().contains(ids.last()) {
                Some(ids.last())
            } else {
                None
            },
        }
    }
}

/// The expected calls without an answer, in order.
pub open spec fn missing_calls(batch: OpenBatch) -> Seq<Seq<char>> {
    text::sorted_texts(batch.expected.filter(|id: Seq<char>| !batch.answered.contains(id)))
}

/// What ending a batch comes to: an error names everything it still lacks.
pub open spec fn batch_end(batch: Option<OpenBatch>) -> Result<(), InvalidHistoryView> {
    match batch {
        None => Ok(()),
        Some(open) => if missing_calls(open).len() == 0 {
            Ok(())
        } else {
            Err(
                InvalidHistoryView::IncompleteToolBatch {
                    assistant_message_id: open.assistant_message_id,
                    missing_call_ids: missing_calls(open),
                },
            )
        },
    }
}

/// What one tool result does to the open batch.
pub open spec fn take_result(batch: Option<OpenBatch>, tool: ToolMessageView) -> Result<
    Option<OpenBatch>,
    InvalidHistoryView,
> {
    match batch {
        Some(open) => if !open.expected.contains(tool.id) {
            Err(
                InvalidHistoryView::OrphanToolResult {
                    message_id: tool.message_id,
                    call_id: tool.id,
                },
            )
        } else if open.answered.contains(tool.id) {
            Err(
                InvalidHistoryView::DuplicateToolResult {
                    message_id: tool.message_id,
                    call_id: tool.id,
                },
            )
        } else {
            Ok(Some(OpenBatch { answered: open.answered.insert(tool.id), ..open }))
        },
        None => Err(
            InvalidHistoryView::OrphanToolResult { message_id: tool.message_id, call_id: tool.id },
        ),
    }
}

/// What one message does to the open batch.
pub open spec fn check_message(batch: Option<OpenBatch>, message: MessageView) -> Result<
    Option<OpenBatch>,
    InvalidHistoryView,
> {
    match message {
        MessageView::Tool(tool) => take_result(batch, tool),
        MessageView::Assistant(assistant) => match batch_end(batch) {
            Err(invalid) => Err(invalid),
            Ok(()) => if assistant.tool_calls.len() == 0 {
                Ok(None)
            } else {
                match first_repeat(call_ids(assistant)) {
                    Some(call_id) => Err(
                        InvalidHistoryView::DuplicateToolCall {
                            message_id: assistant.message_id,
                            call_id,
                        },
                    ),
                    None => Ok(
                        Some(
                            OpenBatch {
                                assistant_message_id: assistant.message_id,
                                expected: call_ids(assistant),
                                answered: Set::empty(),
                            },
                        ),
                    ),
                }
            },
        },
        _ => match batch_end(batch) {
            Err(invalid) => Err(invalid),
            Ok(()) => Ok(None),
        },
    }
}

/// What checking some messages after an open batch comes to: the first violation, if any.
pub open spec fn check_messages(batch: Option<OpenBatch>, messages: Seq<MessageView>) -> Result<
    (),
    InvalidHistoryView,
>
    decreases messages.len(),
{
    if messages.len() == 0 {
        batch_end(batch)
    } else {
        match check_message(batch, messages[0]) {
            Err(invalid) => Err(invalid),
            Ok(next) => check_messages(next, messages.drop_first()),
        }
    }
}

/// What validating a sequence of messages comes to.
pub open spec fn validation(messages: Seq<MessageView>) -> Result<(), InvalidHistoryView> {
    check_messages(None, messages)
}

/// The result of a validation, by its content.
pub open spec fn checked(res: Result<(), InvalidHistory>) -> Result<(), InvalidHistoryView> {
    match res {
        Ok(()) => Ok(()),
        Err(invalid) => Err(invalid@),
    }
}

/// The calls of a batch, each with whether it was answered.
struct Batch {
    assistant_message_id: MessageId,
    expected: Vec<String>,
    answered: Vec<bool>,
}

impl Batch {
    spec fn answered_ids(self) -> Set<Seq<char>> {
        Set::new(
            |id: Seq<char>|
                exists|k: int|
                    0 <= k < self.expected@.len() && self.answered@[k] && (
                    #[trigger] self.expected@[k])@ == id,
        )
    }

    spec fn open(self) -> OpenBatch {
        OpenBatch {
            assistant_message_id: self.assistant_message_id,
            expected: self.expected.deep_view(),
            answered: self.answered_ids(),
        }
    }

    spec fn well_formed(self) -> bool {
        self.expected@.len() == self.answered@.len() && self.expected.deep_view().no_duplicates()
    }
}

spec fn opened(batch: Option<Batch>) -> Option<OpenBatch> {
    match batch {
        Some(open) => Some(open.open()),
        None => None,
    }
}

spec fn batch_well_formed(batch: Option<Batch>) -> bool {
    match batch {
        Some(open) => open.well_formed(),
        None => true,
    }
}

/// A list repeats nothing exactly where it has no first repetition.
pub proof fn lemma_first_repeat(ids: Seq<Seq<char>>)
    ensures
        first_repeat(ids) is None <==> ids.no_duplicates(),
    decreases ids.len(),
{
    if ids.len() > 0 {
        let rest = ids.drop_last();
        lemma_first_repeat(rest);
        if ids.no_duplicates() {
            assert(rest.no_duplicates()) by {
                assert forall|i: int, j: int|
                    0 <= i < rest.len() && 0 <= j < rest.len() && i != j implies rest[i] != rest[j] by {
                    assert(ids[i] != ids[j]);
                }
            }
            if rest.contains(ids.last()) {
                let i = choose|i: int| 0 <= i < rest.len() && rest[i] == ids.last();
                assert(ids[i] == ids[ids.len() - 1]);
            }
        } else if rest.no_duplicates() && !rest.contains(ids.last()) {
            assert forall|i: int, j: int|
                0 <= i < ids.len() && 0 <= j < ids.len() && i != j implies ids[i] != ids[j] by {
                if i < rest.len() && j < rest.len() {
                    assert(rest[i] != rest[j]);
                } else if i < rest.len() {
                    assert(rest[i] == ids[i]);
                } else {
                    assert(rest[j] == ids[j]);
                }
            }
        }
    }
}

proof fn lemma_repeat_in_prefix(ids: Seq<Seq<char>>, n: int)
    requires
        0 <= n <= ids.len(),
        first_repeat(ids.take(n)) is Some,
    ensures
        first_repeat(ids) == first_repeat(ids.take(n)),
    decreases ids.len() - n,
{
    if n < ids.len() {
        assert(ids.take(n + 1).drop_last() =~= ids.take(n));
        lemma_repeat_in_prefix(ids, n + 1);
    } else {
        assert(ids.take(n) =~= ids);
    }
}

/// End a batch: everything it expects must have been answered.
fn finish_batch(batch: &Option<Batch>) -> (res: Result<(), InvalidHistory>)
    requires
        batch_well_formed(*batch),
    ensures
        checked(res) == batch_end(opened(*batch)),
{
    match batch {
        None => Ok(()),
        Some(open) => {
            let mut missing: Vec<String> = Vec::new();
            let ghost batch_view = open.open();
            let ghost lacks = |id: Seq<char>| !batch_view.answered.contains(id);
            let ghost expected = open.expected.deep_view();
            let n: usize = open.expected.len();
            let mut k: usize = 0;
            proof {
                assert(expected.take(0).filter(lacks) =~= Seq::<Seq<char>>::empty()) by {
                    reveal(Seq::filter);
                }
                assert(missing.deep_view() =~= Seq::<Seq<char>>::empty());
            }
            while k < n
                invariant
                    k <= n,
                    n == open.expected@.len(),
                    open.well_formed(),
                    batch_view == open.open(),
                    expected == open.expected.deep_view(),
                    lacks == (|id: Seq<char>| !batch_view.answered.contains(id)),
                    missing.deep_view() == expected.take(k as int).filter(lacks),
                decreases n - k,
            {
                let ghost id = expected[k as int];
                proof {
                    assert(id == open.expected@[k as int]@);
                    assert(expected.take(k + 1) =~= expected.take(k as int).push(id));
                    expected.take(k as int).lemma_filter_push(id, lacks);
                    assert(batch_view.answered.contains(id) == open.answered@[k as int]) by {
                        if batch_view.answered.contains(id) {
                            let l = choose|l: int|
                                0 <= l < open.expected@.len() && open.answered@[l] && (
                                #[trigger] open.expected@[l])@ == id;
                            assert(expected[l] == expected[k as int]);
                        }
                    }
                }
                if !open.answered[k] {
                    let ghost before = missing.deep_view();
                    missing.push(open.expected[k].clone());
                    assert(missing.deep_view() =~= before.push(id));
                }
                k += 1;
            }
            assert(expected.take(n as int) =~= expected);
            proof {
                text::lemma_sorted_len(missing.deep_view());
            }
            if missing.len() == 0 {
                return Ok(());
            }
            Err(
                InvalidHistory::IncompleteToolBatch {
                    assistant_message_id: open.assistant_message_id,
                    missing_call_ids: text::sort_texts(missing),
                },
            )
        },
    }
}

/// Open the batch that an assistant message asks for.
fn open_batch(assistant: &AssistantMessage) -> (res: Result<Batch, InvalidHistory>)
    ensures
        match res {
            Ok(batch) => {
                &&& batch.well_formed()
                &&& first_repeat(call_ids(assistant@)) is None
                &&& batch.open() == (OpenBatch {
                    assistant_message_id: assistant.message_id,
                    expected: call_ids(assistant@),
                    answered: Set::empty(),
                })
            },
            Err(invalid) => match first_repeat(call_ids(assistant@)) {
                Some(call_id) => invalid@ == (InvalidHistoryView::DuplicateToolCall {
                    message_id: assistant.message_id,
                    call_id,
                }),
                None => false,
            },
        },
{
    let ghost ids = call_ids(assistant@);
    let mut expected: Vec<String> = Vec::new();
    let mut answered: Vec<bool> = Vec::new();
    let n: usize = assistant.tool_calls.len();
    let mut k: usize = 0;
    assert(expected.deep_view() =~= ids.take(0));
    while k < n
        invariant
            k <= n,
            n == assistant.tool_calls@.len(),
            ids == call_ids(assistant@),
            ids.len() == n,
            expected.deep_view() == ids.take(k as int),
            expected@.len() == k,
            answered@.len() == k,
            forall|j: int| 0 <= j < k ==> !#[trigger] answered@[j],
            first_repeat(ids.take(k as int)) is None,
        decreases n - k,
    {
        let call_id = assistant.tool_calls[k].id.clone();
        let ghost before = expected.deep_view();
        assert(ids[k as int] == call_id@);
        assert(ids.take(k + 1).drop_last() =~= ids.take(k as int));
        if text::holds_text(&expected, call_id.as_str()) {
            proof {
                lemma_repeat_in_prefix(ids, k + 1);
            }
            return Err(
                InvalidHistory::DuplicateToolCall { message_id: assistant.message_id, call_id },
            );
        }
        expected.push(call_id);
        answered.push(false);
        assert(expected.deep_view() =~= before.push(call_id@));
        assert(ids.take(k + 1) =~= ids.take(k as int).push(call_id@));
        k += 1;
    }
    assert(ids.take(n as int) =~= ids);
    proof {
        lemma_first_repeat(ids);
    }
    let batch = Batch { assistant_message_id: assistant.message_id, expected, answered };
    assert(batch.answered_ids() =~= Set::<Seq<char>>::empty());
    Ok(batch)
}

/// Take one tool result into the open batch.
fn answer(batch: &mut Option<Batch>, tool: &crate::llm::ToolMessage) -> (res: Result<
    (),
    InvalidHistory,
>)
    requires
        batch_well_formed(*old(batch)),
    ensures
        batch_well_formed(*final(batch)),
        match res {
            Ok(()) => take_result(opened(*old(batch)), tool@) == Ok::<
                Option<OpenBatch>,
                InvalidHistoryView,
            >(opened(*final(batch))),
            Err(invalid) => take_result(opened(*old(batch)), tool@) == Err::<
                Option<OpenBatch>,
                InvalidHistoryView,
            >(invalid@),
        },
{
    let taken = batch.take();
    match taken {
        None => Err(
            InvalidHistory::OrphanToolResult {
                message_id: tool.message_id,
                call_id: tool.id.clone(),
            },
        ),
        Some(mut open) => {
            let ghost before = open;
            let n: usize = open.expected.len();
            let mut k: usize = 0;
            while k < n && !text::same_text(open.expected[k].as_str(), tool.id.as_str())
                invariant
                    k <= n,
                    n == open.expected@.len(),
                    open == before,
                    forall|j: int| 0 <= j < k ==> (#[trigger] open.expected@[j])@ != tool.id@,
                decreases n - k,
            {
                k += 1;
            }
            if k == n {
                assert(!before.open().expected.contains(tool.id@)) by {
                    assert forall|j: int| 0 <= j < n implies before.expected.deep_view()[j]
                        != tool.id@ by {
                        assert(before.expected.deep_view()[j] == before.expected@[j]@);
                    }
                }
                *batch = Some(open);
                return Err(
                    InvalidHistory::OrphanToolResult {
                        message_id: tool.message_id,
                        call_id: tool.id.clone(),
                    },
                );
            }
            proof {
                assert(before.expected.deep_view()[k as int] == tool.id@);
                assert forall|l: int|
                    0 <= l < n && (#[trigger] before.expected@[l])@ == tool.id@ implies l == k by {
                    assert(before.expected.deep_view()[l] == before.expected.deep_view()[k as int]);
                }
                assert(before.answered_ids().contains(tool.id@) == before.answered@[k as int]) by {
                    assert(before.expected@[k as int]@ == tool.id@);
                }
            }
            if open.answered[k] {
                *batch = Some(open);
                return Err(
                    InvalidHistory::DuplicateToolResult {
                        message_id: tool.message_id,
                        call_id: tool.id.clone(),
                    },
                );
            }
            open.answered.set(k, true);
            proof {
                assert forall|id: Seq<char>|
                    open.answered_ids().contains(id) == before.answered_ids().insert(
                        tool.id@,
                    ).contains(id) by {
                    if open.answered_ids().contains(id) {
                        let l = choose|l: int|
                            0 <= l < open.expected@.len() && open.answered@[l] && (
                            #[trigger] open.expected@[l])@ == id;
                        if l != k {
                            assert(before.answered@[l] && before.expected@[l]@ == id);
                        }
                    }
                    if before.answered_ids().contains(id) {
                        let l = choose|l: int|
                            0 <= l < before.expected@.len() && before.answered@[l] && (
                            #[trigger] before.expected@[l])@ == id;
                        assert(open.answered@[l] && open.expected@[l]@ == id);
                    }
                    assert(open.answered@[k as int] && open.expected@[k as int]@ == tool.id@);
                }
                assert(open.answered_ids() =~= before.answered_ids().insert(tool.id@));
            }
            *batch = Some(open);
            Ok(())
        },
    }
}

/// Validates a sequence of messages: every batch of tool calls must be answered, call for call, by
/// the tool results that directly follow it. The first violation is reported.
pub fn validate_messages(messages: &Vec<&Message>) -> (res: Result<(), InvalidHistory>)
    ensures
        checked(res) == validation(messages.deep_view()),
{
    let ghost all = messages.deep_view();
    let mut batch: Option<Batch> = None;
    let n: usize = messages.len();
    let mut i: usize = 0;
    assert(all.skip(0) =~= all);
    while i < n
        invariant
            i <= n,
            n == messages@.len(),
            all == messages.deep_view(),
            batch_well_formed(batch),
            validation(all) == check_messages(opened(batch), all.skip(i as int)),
        decreases n - i,
    {
        let message = messages[i];
        let ghost rest = all.skip(i as int);
        assert(rest[0] == message@);
        assert(rest.drop_first() =~= all.skip(i + 1));
        match message {
            Message::Tool(tool) => {
                match answer(&mut batch, tool) {
                    Ok(()) => {},
                    Err(invalid) => {
                        return Err(invalid);
                    },
                }
            },
            Message::Assistant(assistant) => {
                match finish_batch(&batch) {
                    Ok(()) => {},
                    Err(invalid) => {
                        return Err(invalid);
                    },
                }
                if assistant.tool_calls.len() == 0 {
                    batch = None;
                } else {
                    match open_batch(assistant) {
                        Ok(open) => {
                            batch = Some(open);
                        },
                        Err(invalid) => {
                            return Err(invalid);
                        },
                    }
                }
            },
            _ => {
                match finish_batch(&batch) {
                    Ok(()) => {},
                    Err(invalid) => {
                        return Err(invalid);
                    },
                }
                batch = None;
            },
        }
        i += 1;
    }
    finish_batch(&batch)
}

/// The messages of some entries.
pub fn entry_messages<'a>(entries: &Vec<&'a HistoryEntry>) -> (res: Vec<&'a Message>)
    ensures
        res.deep_view() == messages_of(entries.deep_view()),
{
    let mut messages: Vec<&'a Message> = Vec::new();
    let n: usize = entries.len();
    let mut i: usize = 0;
    while i < n
        invariant
            i <= n,
            n == entries@.len(),
            messages@.len() == i,
            forall|j: int| 0 <= j < i ==> (#[trigger] messages@[j])@ == entries@[j]@.message,
        decreases n - i,
    {
        messages.push(&entries[i].message);
        i += 1;
    }
    assert(messages.deep_view() =~= messages_of(entries.deep_view()));
    messages
}

/// Validates the exact history sequence an ordinary provider request sees.
pub fn validate_model_view(messages: &[HistoryEntry]) -> (res: Result<(), InvalidHistory>)
    ensures
        checked(res) == validation(messages_of(shown(messages.deep_view()))),
{
    validate_messages(&entry_messages(&model_view(messages)))
}

/// Whether a message asks for tool calls.
pub open spec fn asks_for_calls(message: MessageView) -> bool {
    match message {
        MessageView::Assistant(assistant) => assistant.tool_calls.len() > 0,
        _ => false,
    }
}

/// The calls that the tool results at the front of `messages` answer.
pub open spec fn leading_results(messages: Seq<MessageView>) -> Seq<Seq<char>>
    decreases messages.len(),
{
    if messages.len() == 0 {
        Seq::empty()
    } else {
        match messages[0] {
            MessageView::Tool(tool) => seq![tool.id] + leading_results(messages.drop_first()),
            _ => Seq::empty(),
        }
    }
}

/// Whether the batch that message `i` asks for is answered by the results right after it: no call
/// is declared twice, and each is answered exactly once.
pub open spec fn batch_answered(messages: Seq<MessageView>, i: int) -> bool {
    match messages[i] {
        MessageView::Assistant(assistant) => {
            let results = leading_results(messages.skip(i + 1));
            &&& call_ids(assistant).no_duplicates()
            &&& results.no_duplicates()
            &&& results.to_set() == call_ids(assistant).to_set()
        },
        _ => false,
    }
}

/// Whether every result follows, directly or behind other results, a message that asked for calls.
pub open spec fn no_stray_results(messages: Seq<MessageView>) -> bool {
    forall|i: int|
        0 < i < messages.len() && (#[trigger] messages[i]) is Tool ==> messages[i - 1] is Tool
            || asks_for_calls(messages[i - 1])
}

/// Whether every batch in `messages` is answered.
pub open spec fn all_answered(messages: Seq<MessageView>) -> bool {
    forall|i: int|
        0 <= i < messages.len() && asks_for_calls(#[trigger] messages[i]) ==> batch_answered(
            messages,
            i,
        )
}

/// The tool-call protocol, said of the sequence as a whole.
pub open spec fn well_paired(messages: Seq<MessageView>) -> bool {
    &&& all_answered(messages)
    &&& no_stray_results(messages)
    &&& messages.len() > 0 ==> !(messages[0] is Tool)
}

proof fn lemma_paired_tail(messages: Seq<MessageView>)
    requires
        messages.len() > 0,
    ensures
        all_answered(messages) == (all_answered(messages.drop_first()) && (asks_for_calls(
            messages[0],
        ) ==> batch_answered(messages, 0))),
        no_stray_results(messages) == (no_stray_results(messages.drop_first()) && (messages.len()
            > 1 && messages[1] is Tool ==> messages[0] is Tool || asks_for_calls(messages[0]))),
{
    let rest = messages.drop_first();
    assert forall|i: int| 0 <= i < rest.len() implies rest[i] == messages[i + 1] && rest.skip(i + 1)
        == messages.skip(i + 2) by {
        assert(rest.skip(i + 1) =~= messages.skip(i + 2));
    }
    if all_answered(messages) {
        assert forall|i: int|
            0 <= i < rest.len() && asks_for_calls(#[trigger] rest[i]) implies batch_answered(
            rest,
            i,
        ) by {
            assert(asks_for_calls(messages[i + 1]));
        }
    }
    if all_answered(rest) && (asks_for_calls(messages[0]) ==> batch_answered(messages, 0)) {
        assert forall|i: int|
            0 <= i < messages.len() && asks_for_calls(
                #[trigger] messages[i],
            ) implies batch_answered(messages, i) by {
            if i > 0 {
                assert(asks_for_calls(rest[i - 1]));
                assert(batch_answered(rest, i - 1));
            }
        }
    }
    if no_stray_results(messages) {
        assert forall|i: int| 0 < i < rest.len() && (#[trigger] rest[i]) is Tool implies rest[i - 1] is Tool
            || asks_for_calls(rest[i - 1]) by {
            assert(messages[i + 1] is Tool);
        }
        if messages.len() > 1 && messages[1] is Tool {
            assert(messages[1 - 1] is Tool || asks_for_calls(messages[1 - 1]));
        }
    }
    if no_stray_results(rest) && (messages.len() > 1 && messages[1] is Tool ==> messages[0] is Tool
        || asks_for_calls(messages[0])) {
        assert forall|i: int|
            0 < i < messages.len() && (#[trigger] messages[i]) is Tool implies messages[i
            - 1] is Tool || asks_for_calls(messages[i - 1]) by {
            if i > 1 {
                assert(rest[i - 1] is Tool);
            }
        }
    }
}

impl OpenBatch {
    /// Whether each of these results answers a call that was still waiting for one.
    pub open spec fn awaits(self, results: Seq<Seq<char>>) -> bool {
        forall|id: Seq<char>| #[trigger]
            results.contains(id) ==> self.expected.contains(id) && !self.answered.contains(id)
    }

    /// Whether these results leave no call without an answer.
    pub open spec fn settled_by(self, results: Seq<Seq<char>>) -> bool {
        forall|id: Seq<char>| #[trigger]
            self.expected.contains(id) ==> self.answered.contains(id) || results.contains(id)
    }
}

/// Whether the results at the front of `messages` complete an open batch.
pub open spec fn completes(batch: Option<OpenBatch>, messages: Seq<MessageView>) -> bool {
    match batch {
        Some(open) => {
            &&& leading_results(messages).no_duplicates()
            &&& open.awaits(leading_results(messages))
            &&& open.settled_by(leading_results(messages))
        },
        None => messages.len() > 0 ==> !(messages[0] is Tool),
    }
}

/// A batch may end exactly where each of its calls has its result.
pub proof fn lemma_batch_end(batch: Option<OpenBatch>)
    ensures
        batch_end(batch) is Ok <==> match batch {
            Some(open) => forall|id: Seq<char>| #[trigger]
                open.expected.contains(id) ==> open.answered.contains(id),
            None => true,
        },
{
    match batch {
        Some(open) => {
            let lacks = |id: Seq<char>| !open.answered.contains(id);
            let missing = open.expected.filter(lacks);
            text::lemma_sorted_len(missing);
            if missing.len() > 0 {
                open.expected.lemma_filter_pred(lacks, 0);
                assert(missing.contains(missing[0]));
                open.expected.lemma_filter_contains_rev(lacks, missing[0]);
            } else {
                assert forall|id: Seq<char>| #[trigger]
                    open.expected.contains(id) implies open.answered.contains(id) by {
                    let k = choose|k: int| 0 <= k < open.expected.len() && open.expected[k] == id;
                    if !open.answered.contains(id) {
                        open.expected.lemma_filter_contains(lacks, k);
                        assert(missing.contains(id));
                    }
                }
            }
        },
        None => {},
    }
}

proof fn lemma_completes_with_result(
    open: OpenBatch,
    tool: ToolMessageView,
    rest: Seq<MessageView>,
)
    requires
        open.expected.contains(tool.id),
        !open.answered.contains(tool.id),
    ensures
        completes(Some(open), seq![MessageView::Tool(tool)] + rest) == completes(
            Some(OpenBatch { answered: open.answered.insert(tool.id), ..open }),
            rest,
        ),
{
    let messages = seq![MessageView::Tool(tool)] + rest;
    assert(messages.drop_first() =~= rest);
    let results = leading_results(rest);
    let all = leading_results(messages);
    assert(all == seq![tool.id] + results);
    let next = OpenBatch { answered: open.answered.insert(tool.id), ..open };
    assert(all[0] == tool.id);
    assert forall|id: Seq<char>| #[trigger]
        all.contains(id) == (id == tool.id || results.contains(id)) by {
        if all.contains(id) {
            let k = choose|k: int| 0 <= k < all.len() && all[k] == id;
            if k > 0 {
                assert(results[k - 1] == id);
            }
        }
        if results.contains(id) {
            let k = choose|k: int| 0 <= k < results.len() && results[k] == id;
            assert(all[k + 1] == id);
        }
    }
    if completes(Some(open), messages) {
        assert(results.no_duplicates()) by {
            assert forall|i: int, j: int|
                0 <= i < results.len() && 0 <= j < results.len() && i != j implies results[i]
                != results[j] by {
                assert(all[i + 1] != all[j + 1]);
            }
        }
        assert forall|id: Seq<char>| #[trigger] results.contains(id) implies next.expected.contains(
            id,
        ) && !next.answered.contains(id) by {
            let k = choose|k: int| 0 <= k < results.len() && results[k] == id;
            assert(all[k + 1] == id);
            assert(all[0] != all[k + 1]);
            assert(all.contains(id));
        }
        assert(completes(Some(next), rest));
    }
    if completes(Some(next), rest) {
        assert(next.settled_by(results));
        assert(all.no_duplicates()) by {
            assert forall|i: int, j: int|
                0 <= i < all.len() && 0 <= j < all.len() && i != j implies all[i] != all[j] by {
                if i > 0 && j > 0 {
                    assert(results[i - 1] != results[j - 1]);
                } else if i > 0 {
                    assert(results.contains(results[i - 1]));
                } else {
                    assert(results.contains(results[j - 1]));
                }
            }
        }
        assert forall|id: Seq<char>| #[trigger] all.contains(id) implies open.expected.contains(id)
            && !open.answered.contains(id) by {
            if id != tool.id {
                assert(results.contains(id));
            }
        }
        assert forall|id: Seq<char>| #[trigger]
            open.expected.contains(id) implies open.answered.contains(id) || all.contains(id) by {
            assert(next.expected == open.expected);
            assert(next.answered.contains(id) || results.contains(id));
            assert(all.contains(id) == (id == tool.id || results.contains(id)));
            assert(next.answered.contains(id) == (open.answered.contains(id) || id == tool.id));
        }
        assert(completes(Some(open), messages));
    }
}

proof fn lemma_check_messages(batch: Option<OpenBatch>, messages: Seq<MessageView>)
    ensures
        check_messages(batch, messages) is Ok <==> completes(batch, messages) && all_answered(
            messages,
        ) && no_stray_results(messages),
    decreases messages.len(),
{
    lemma_batch_end(batch);
    if messages.len() > 0 {
        let rest = messages.drop_first();
        lemma_paired_tail(messages);
        match messages[0] {
            MessageView::Tool(tool) => {
                assert(messages =~= seq![messages[0]] + rest);
                let all = leading_results(messages);
                assert(all[0] == tool.id);
                assert(all.contains(tool.id));
                match batch {
                    Some(open) => {
                        if open.expected.contains(tool.id) && !open.answered.contains(tool.id) {
                            lemma_completes_with_result(open, tool, rest);
                            let next = OpenBatch {
                                answered: open.answered.insert(tool.id),
                                ..open
                            };
                            lemma_check_messages(Some(next), rest);
                        }
                    },
                    None => {},
                }
            },
            MessageView::Assistant(assistant) => {
                assert(leading_results(messages).len() == 0);
                assert(completes(batch, messages) == (batch_end(batch) is Ok)) by {
                    lemma_no_results(batch, messages);
                }
                if assistant.tool_calls.len() > 0 {
                    let ids = call_ids(assistant);
                    lemma_first_repeat(ids);
                    let next = OpenBatch {
                        assistant_message_id: assistant.message_id,
                        expected: ids,
                        answered: Set::empty(),
                    };
                    lemma_check_messages(Some(next), rest);
                    assert(messages.skip(1) =~= rest);
                    lemma_same_set(leading_results(rest), ids);
                } else {
                    lemma_check_messages(None, rest);
                }
            },
            _ => {
                assert(leading_results(messages).len() == 0);
                assert(completes(batch, messages) == (batch_end(batch) is Ok)) by {
                    lemma_no_results(batch, messages);
                }
                lemma_check_messages(None, rest);
            },
        }
    } else {
        assert(leading_results(messages).len() == 0);
        assert(completes(batch, messages) == (batch_end(batch) is Ok)) by {
            lemma_no_results(batch, messages);
        }
    }
}

proof fn lemma_no_results(batch: Option<OpenBatch>, messages: Seq<MessageView>)
    requires
        leading_results(messages).len() == 0,
        messages.len() > 0 ==> !(messages[0] is Tool),
    ensures
        completes(batch, messages) == (batch_end(batch) is Ok),
{
    lemma_batch_end(batch);
    let results = leading_results(messages);
    assert forall|id: Seq<char>| !results.contains(id) by {}
}

proof fn lemma_same_set(results: Seq<Seq<char>>, ids: Seq<Seq<char>>)
    ensures
        results.to_set() == ids.to_set() <==> (forall|id: Seq<char>| #[trigger]
            results.contains(id) ==> ids.contains(id)) && (forall|id: Seq<char>| #[trigger]
            ids.contains(id) ==> results.contains(id)),
{
    if results.to_set() == ids.to_set() {
        assert forall|id: Seq<char>| results.contains(id) == ids.contains(id) by {
            assert(results.to_set().contains(id) == results.contains(id));
            assert(ids.to_set().contains(id) == ids.contains(id));
        }
    }
    if (forall|id: Seq<char>| #[trigger] results.contains(id) ==> ids.contains(id)) && (forall|
        id: Seq<char>,
    | #[trigger]
        ids.contains(id) ==> results.contains(id)) {
        assert forall|id: Seq<char>| results.to_set().contains(id) == ids.to_set().contains(id) by {
            assert(results.to_set().contains(id) == results.contains(id));
            assert(ids.to_set().contains(id) == ids.contains(id));
        }
        assert(results.to_set() =~= ids.to_set());
    }
}

/// Validation accepts exactly the sequences that keep the tool-call protocol: each batch of calls
/// is answered, each call once, by the results that directly follow it, and there are no other
/// results.
pub proof fn law_validation_accepts_exactly_the_protocol(messages: Seq<MessageView>)
    ensures
        validation(messages) is Ok <==> well_paired(messages),
{
    lemma_check_messages(None, messages);
}

}
