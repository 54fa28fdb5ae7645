//! What a compaction may summarize, and the messages its answer becomes.
//!
//! The conversation is flattened to plain text rather than replayed as a conversation: that avoids
//! carrying tool definitions, truncated reasoning continuations and orphan tool results, for what is
//! really a single instruction: summarize this record.
//!
//! [`cutoff`] is the one rule both manual (idle) and automatic (mid-turn) compaction use to decide
//! what is new since the last one. Automatic compaction prefers a complete turn boundary, then falls
//! back to a complete tool-batch boundary when the current turn itself has grown too large.

use crate::agent::{
    HistoryEntry, HistoryEntryView,
};
use crate::ids::{self, MessageId, Timestamp, TurnId};
use crate::llm::{
    self, AssistantMessageView, ChatCompletionRequest, ChatCompletionRequestView,
    CompactionMessage, CompactionMessageView, CompactionOutcome, CompletionUsage, ContentPart,
    ContentPartView, Message, MessageView, RequestMessage, RequestMessageView, SystemMessage,
    SystemMessageView, ToolCallView, ToolMessageView, ToolOutput, ToolOutputView, UserMessage,
};
use crate::message_view::{self, InvalidHistory, InvalidHistoryView};
use crate::text;
use vstd::prelude::*;

verus! {

/// The longest instructions a client may send. Generous for a line typed into a composer, and small
/// enough that it cannot crowd out the transcript.
pub const MAX_INSTRUCTIONS: usize = 4096;

/// Where a compaction may cut a history.
#[derive(Debug, Clone, Copy, PartialEq, Eq, Structural)]
pub struct Cutoff {
    /// Entries to take from the full model view of the same history snapshot.
    pub model_view_len: usize,
    /// Physically latest included message; persisted as the summary boundary.
    pub coverage_message_id: MessageId,
}

/// The first index at which `holds` holds.
pub open spec fn first_index(
    entries: Seq<HistoryEntryView>,
    holds: spec_fn(HistoryEntryView) -> bool,
) -> Option<int>
    decreases entries.len(),
{
    if entries.len() == 0 {
        None
    } else {
        match first_index(entries.drop_last(), holds) {
            Some(at) => Some(at),
            None => if holds(entries.last()) {
                Some(entries.len() - 1)
            } else {
                None
            },
        }
    }
}

/// Whether an entry belongs to `turn`.
pub open spec fn in_turn(turn: TurnId) -> spec_fn(HistoryEntryView) -> bool {
    |entry: HistoryEntryView| entry.turn_id == turn
}

/// The usage of each answer of the model that belongs to `turn`, in order.
pub open spec fn turn_usages(entries: Seq<HistoryEntryView>, turn: TurnId) -> Seq<
    Option<CompletionUsage>,
>
    decreases entries.len(),
{
    if entries.len() == 0 {
        Seq::empty()
    } else {
        let before = turn_usages(entries.drop_last(), turn);
        match entries.last().message {
            MessageView::Assistant(assistant) => if entries.last().turn_id == turn {
                before.push(assistant.usage)
            } else {
                before
            },
            _ => before,
        }
    }
}

/// How much the prompt grew over a series of answers: from the first to the last. Unknown where an
/// answer reports no usage or the prompt shrank on the way.
pub open spec fn growth(usages: Seq<Option<CompletionUsage>>) -> Option<int> {
    if exists|i: int| 0 <= i < usages.len() && (#[trigger] usages[i]) is None {
        None
    } else if exists|i: int, j: int|
        0 <= i < j < usages.len() && (#[trigger] usages[i])->0.prompt_tokens > (
        #[trigger] usages[j])->0.prompt_tokens {
        None
    } else if usages.len() == 0 {
        Some(0)
    } else {
        Some(usages.last()->0.prompt_tokens - usages[0]->0.prompt_tokens)
    }
}

/// How much the prompt grew within `turn`, as far as the visible answers measure it.
pub fn prompt_growth(entries: &Vec<&HistoryEntry>, turn: TurnId) -> (res: Option<u64>)
    ensures
        match growth(turn_usages(entries.deep_view(), turn)) {
            Some(tokens) => res == Some(tokens as u64) && 0 <= tokens <= u32::MAX,
            None => res is None,
        },
{
    let ghost all = entries.deep_view();
    let mut previous: Option<u32> = None;
    let mut grown: u64 = 0;
    let n: usize = entries.len();
    let mut i: usize = 0;
    while i < n
        invariant
            i <= n,
            n == entries@.len(),
            all == entries.deep_view(),
            ({
                let usages = turn_usages(all.take(i as int), turn);
                &&& forall|k: int| 0 <= k < usages.len() ==> (#[trigger] usages[k]) is Some
                &&& forall|k: int, l: int|
                    0 <= k < l < usages.len() ==> (#[trigger] usages[k])->0.prompt_tokens <= (
                    #[trigger] usages[l])->0.prompt_tokens
                &&& usages.len() == 0 ==> previous is None && grown == 0
                &&& usages.len() > 0 ==> previous == Some(usages.last()->0.prompt_tokens) && grown
                    == usages.last()->0.prompt_tokens - usages[0]->0.prompt_tokens
            }),
        decreases n - i,
    {
        let entry = entries[i];
        let ghost before = turn_usages(all.take(i as int), turn);
        let ghost now = turn_usages(all.take(i + 1), turn);
        proof {
            assert(all.take(i + 1).drop_last() =~= all.take(i as int));
            assert(all.take(i + 1).last() == entry@);
        }
        if entry.turn_id == turn {
            match &entry.message {
                Message::Assistant(assistant) => {
                    assert(now == before.push(assistant.usage));
                    match assistant.usage {
                        Some(usage) => {
                            match previous {
                                Some(tokens) => {
                                    if usage.prompt_tokens < tokens {
                                        proof {
                                            let k = before.len() - 1;
                                            assert(now[k]->0.prompt_tokens
                                                > now[k + 1]->0.prompt_tokens);
                                            lemma_growth_unknown(all, i + 1, turn);
                                        }
                                        return None;
                                    }
                                    let step: u64 = (usage.prompt_tokens - tokens) as u64;
                                    grown = grown + step;
                                },
                                None => {},
                            }
                            previous = Some(usage.prompt_tokens);
                            assert forall|k: int, l: int| 0 <= k < l < now.len() implies (
                            #[trigger] now[k])->0.prompt_tokens <= (
                            #[trigger] now[l])->0.prompt_tokens by {
                                if l == before.len() {
                                    if k < l - 1 {
                                        assert(before[k]->0.prompt_tokens
                                            <= before[l - 1]->0.prompt_tokens);
                                    }
                                } else {
                                    assert(before[k]->0.prompt_tokens
                                        <= before[l]->0.prompt_tokens);
                                }
                            }
                        },
                        None => {
                            proof {
                                assert(now[before.len() as int] is None);
                                lemma_growth_unknown(all, i + 1, turn);
                            }
                            return None;
                        },
                    }
                },
                _ => {},
            }
        }
        i += 1;
    }
    assert(all.take(n as int) =~= all);
    Some(grown)
}

proof fn lemma_turn_usages_extend(entries: Seq<HistoryEntryView>, n: int, turn: TurnId)
    requires
        0 <= n <= entries.len(),
    ensures
        turn_usages(entries.take(n), turn).len() <= turn_usages(entries, turn).len(),
        turn_usages(entries, turn).take(turn_usages(entries.take(n), turn).len() as int)
            == turn_usages(entries.take(n), turn),
    decreases entries.len() - n,
{
    if n < entries.len() {
        lemma_turn_usages_extend(entries, n + 1, turn);
        assert(entries.take(n + 1).drop_last() =~= entries.take(n));
        let all = turn_usages(entries, turn);
        let some = turn_usages(entries.take(n + 1), turn);
        let fewer = turn_usages(entries.take(n), turn);
        assert(some.take(fewer.len() as int) =~= fewer);
        assert(all.take(fewer.len() as int) =~= some.take(fewer.len() as int));
    } else {
        assert(entries.take(n) =~= entries);
        let all = turn_usages(entries, turn);
        assert(all.take(all.len() as int) =~= all);
    }
}

proof fn lemma_growth_unknown(entries: Seq<HistoryEntryView>, n: int, turn: TurnId)
    requires
        0 <= n <= entries.len(),
        ({
            let some = turn_usages(entries.take(n), turn);
            ||| exists|i: int| 0 <= i < some.len() && (#[trigger] some[i]) is None
            ||| exists|i: int, j: int|
                0 <= i < j < some.len() && (#[trigger] some[i])->0.prompt_tokens > (
                #[trigger] some[j])->0.prompt_tokens
        }),
    ensures
        growth(turn_usages(entries, turn)) is None,
{
    lemma_turn_usages_extend(entries, n, turn);
    let all = turn_usages(entries, turn);
    let some = turn_usages(entries.take(n), turn);
    assert forall|i: int| 0 <= i < some.len() implies all[i] == #[trigger] some[i] by {
        assert(all.take(some.len() as int)[i] == some[i]);
    }
    if exists|i: int| 0 <= i < some.len() && (#[trigger] some[i]) is None {
        let i = choose|i: int| 0 <= i < some.len() && (#[trigger] some[i]) is None;
        assert(all[i] is None);
    } else {
        let (i, j) = choose|i: int, j: int|
            0 <= i < j < some.len() && (#[trigger] some[i])->0.prompt_tokens > (
            #[trigger] some[j])->0.prompt_tokens;
        assert(all[i]->0.prompt_tokens > all[j]->0.prompt_tokens);
    }
}

/// The entries of the tail.
pub open spec fn tail_entries(history: Seq<HistoryEntryView>) -> Seq<HistoryEntryView> {
    message_view::entries_at(history, message_view::tail_indices(history))
}

/// The physically latest entry among the summary and the tail up to `position`.
pub open spec fn coverage_index(history: Seq<HistoryEntryView>, position: int) -> int {
    let last = message_view::tail_indices(history)[position];
    match message_view::summary_index(history) {
        Some(at) => if at > last {
            at
        } else {
            last
        },
        None => last,
    }
}

/// The cutoff after tail entry `position`, where that is safe: what stays must keep the tool-call
/// protocol by itself, and must lie physically after everything that goes. A summary that was moved
/// ahead of older entries is newer than those, so a cutoff among them would sweep them away too.
pub open spec fn safe_cutoff_at(history: Seq<HistoryEntryView>, position: int) -> Option<Cutoff> {
    let tail = message_view::tail_indices(history);
    let kept = message_view::entries_at(history, tail.skip(position + 1));
    if message_view::validation(message_view::messages_of(kept)) is Err {
        None
    } else if position + 1 < tail.len() && coverage_index(history, position) >= tail[position + 1] {
        None
    } else {
        Some(
            Cutoff {
                model_view_len: ((if message_view::summary_index(history) is Some {
                    1int
                } else {
                    0int
                }) + position + 1) as usize,
                coverage_message_id: history[coverage_index(
                    history,
                    position,
                )].message.message_id(),
            },
        )
    }
}

/// The newest safe cutoff before tail entry `limit`.
pub open spec fn newest_safe_cutoff(history: Seq<HistoryEntryView>, limit: int) -> Option<Cutoff>
    decreases limit,
{
    if limit <= 0 {
        None
    } else {
        match safe_cutoff_at(history, limit - 1) {
            Some(found) => Some(found),
            None => newest_safe_cutoff(history, limit - 1),
        }
    }
}

/// Whether the growth measured within `turn` already reaches the threshold.
pub open spec fn turn_is_too_large(
    history: Seq<HistoryEntryView>,
    turn: TurnId,
    threshold: Option<u32>,
) -> bool {
    match threshold {
        Some(tokens) => match growth(turn_usages(tail_entries(history), turn)) {
            Some(grown) => grown >= tokens,
            None => false,
        },
        None => false,
    }
}

/// The cutoff right before the first visible message of `turn`. There is none where the summary
/// already covers the turn, where nothing comes before the turn, where the cut is unsafe, or where
/// keeping the turn whole would keep too much.
pub open spec fn cutoff_before_turn(
    history: Seq<HistoryEntryView>,
    turn: TurnId,
    threshold: Option<u32>,
) -> Option<Cutoff> {
    let covered = match message_view::summary_index(history) {
        Some(at) => history[at].turn_id == turn,
        None => false,
    };
    match first_index(tail_entries(history), in_turn(turn)) {
        Some(start) => if covered || start == 0 || turn_is_too_large(history, turn, threshold) {
            None
        } else {
            safe_cutoff_at(history, start - 1)
        },
        None => None,
    }
}

/// How far into the tail a cutoff may go: up to the protected message, and nowhere where that
/// message is not in the tail.
pub open spec fn cutoff_limit(
    history: Seq<HistoryEntryView>,
    protect_from: Option<MessageId>,
) -> int {
    match protect_from {
        Some(id) => match first_index(tail_entries(history), message_view::has_id(id)) {
            Some(at) => at,
            None => 0,
        },
        None => message_view::tail_indices(history).len() as int,
    }
}

/// What a compaction may summarize.
pub open spec fn planned_cutoff(
    history: Seq<HistoryEntryView>,
    prefer_before_turn: Option<TurnId>,
    protect_from: Option<MessageId>,
    threshold: Option<u32>,
) -> Result<Option<Cutoff>, InvalidHistoryView> {
    match message_view::validation(message_view::messages_of(message_view::shown(history))) {
        Err(invalid) => Err(invalid),
        Ok(()) => {
            let preferred = match prefer_before_turn {
                Some(turn) => cutoff_before_turn(history, turn, threshold),
                None => None,
            };
            Ok(
                match preferred {
                    Some(found) => Some(found),
                    None => newest_safe_cutoff(history, cutoff_limit(history, protect_from)),
                },
            )
        },
    }
}

proof fn lemma_first_index(
    entries: Seq<HistoryEntryView>,
    holds: spec_fn(HistoryEntryView) -> bool,
    at: int,
)
    requires
        0 <= at < entries.len(),
        holds(entries[at]),
        forall|i: int| 0 <= i < at ==> !holds(#[trigger] entries[i]),
    ensures
        first_index(entries, holds) == Some(at),
    decreases entries.len(),
{
    let rest = entries.drop_last();
    if at < rest.len() {
        assert forall|i: int| 0 <= i < at implies !holds(#[trigger] rest[i]) by {
            assert(rest[i] == entries[i]);
        }
        lemma_first_index(rest, holds, at);
    } else {
        assert forall|i: int| 0 <= i < rest.len() implies !holds(#[trigger] rest[i]) by {
            assert(rest[i] == entries[i]);
        }
        lemma_no_first_index(rest, holds);
    }
}

proof fn lemma_no_first_index(
    entries: Seq<HistoryEntryView>,
    holds: spec_fn(HistoryEntryView) -> bool,
)
    requires
        forall|i: int| 0 <= i < entries.len() ==> !holds(#[trigger] entries[i]),
    ensures
        first_index(entries, holds) is None,
    decreases entries.len(),
{
    if entries.len() > 0 {
        let rest = entries.drop_last();
        assert forall|i: int| 0 <= i < rest.len() implies !holds(#[trigger] rest[i]) by {
            assert(rest[i] == entries[i]);
        }
        assert(entries.last() == entries[entries.len() - 1]);
        lemma_no_first_index(rest, holds);
    }
}

/// The tail leaves room for the summary among the positions of a history.
proof fn lemma_tail_len(history: Seq<HistoryEntryView>, end: int)
    requires
        0 <= end <= history.len(),
    ensures
        message_view::tail_below(history, end).len() <= end,
        match message_view::summary_index(history) {
            Some(at) => at < end ==> message_view::tail_below(history, end).len() < end,
            None => true,
        },
    decreases end,
{
    message_view::lemma_tail_start(history);
    if end > 0 {
        lemma_tail_len(history, end - 1);
    }
}

/// The entries at some positions of a history.
fn entries_at<'a>(messages: &'a [HistoryEntry], indices: &Vec<usize>, from: usize) -> (res: Vec<
    &'a HistoryEntry,
>)
    requires
        from <= indices@.len(),
        forall|k: int| 0 <= k < indices@.len() ==> (#[trigger] indices@[k]) < messages@.len(),
    ensures
        res.deep_view() == message_view::entries_at(
            messages.deep_view(),
            message_view::as_positions(indices@).skip(from as int),
        ),
{
    let ghost history = messages.deep_view();
    let ghost positions = message_view::as_positions(indices@);
    let mut entries: Vec<&'a HistoryEntry> = Vec::new();
    let n: usize = indices.len();
    let mut i: usize = from;
    while i < n
        invariant
            from <= i <= n,
            n == indices@.len(),
            history == messages.deep_view(),
            positions == message_view::as_positions(indices@),
            forall|k: int| 0 <= k < indices@.len() ==> (#[trigger] indices@[k]) < messages@.len(),
            entries@.len() == i - from,
            forall|k: int|
                0 <= k < entries@.len() ==> (#[trigger] entries@[k])@ == history[positions[from
                    + k]],
        decreases n - i,
    {
        let at: usize = indices[i];
        assert(history[at as int] == messages@[at as int]@);
        entries.push(&messages[at]);
        i += 1;
    }
    assert(entries.deep_view() =~= message_view::entries_at(history, positions.skip(from as int)));
    entries
}

/// The first position in `entries` of an entry that belongs to `turn`.
fn first_of_turn(entries: &Vec<&HistoryEntry>, turn: TurnId) -> (res: Option<usize>)
    ensures
        match first_index(entries.deep_view(), in_turn(turn)) {
            Some(at) => res == Some(at as usize) && 0 <= at < entries@.len(),
            None => res is None,
        },
{
    let ghost all = entries.deep_view();
    let n: usize = entries.len();
    let mut i: usize = 0;
    while i < n
        invariant
            i <= n,
            n == entries@.len(),
            all == entries.deep_view(),
            forall|k: int| 0 <= k < i ==> (#[trigger] all[k]).turn_id != turn,
        decreases n - i,
    {
        assert(all[i as int] == entries@[i as int]@);
        if entries[i].turn_id == turn {
            proof {
                lemma_first_index(all, in_turn(turn), i as int);
            }
            return Some(i);
        }
        i += 1;
    }
    proof {
        lemma_no_first_index(all, in_turn(turn));
    }
    None
}

/// The first position in `entries` of the message `id`.
fn first_of_message(entries: &Vec<&HistoryEntry>, id: MessageId) -> (res: Option<usize>)
    ensures
        match first_index(entries.deep_view(), message_view::has_id(id)) {
            Some(at) => res == Some(at as usize) && 0 <= at < entries@.len(),
            None => res is None,
        },
{
    let ghost all = entries.deep_view();
    let n: usize = entries.len();
    let mut i: usize = 0;
    while i < n
        invariant
            i <= n,
            n == entries@.len(),
            all == entries.deep_view(),
            forall|k: int| 0 <= k < i ==> (#[trigger] all[k]).message.message_id() != id,
        decreases n - i,
    {
        assert(all[i as int] == entries@[i as int]@);
        if entries[i].message.message_id() == id {
            proof {
                lemma_first_index(all, message_view::has_id(id), i as int);
            }
            return Some(i);
        }
        i += 1;
    }
    proof {
        lemma_no_first_index(all, message_view::has_id(id));
    }
    None
}

/// The cutoff after tail entry `position`, where that is safe.
fn cutoff_at(
    messages: &[HistoryEntry],
    summary: Option<usize>,
    tail: &Vec<usize>,
    position: usize,
) -> (res: Option<Cutoff>)
    requires
        position < tail@.len(),
        match message_view::summary_index(messages.deep_view()) {
            Some(at) => summary == Some(at as usize) && 0 <= at < messages@.len(),
            None => summary is None,
        },
        message_view::as_positions(tail@) == message_view::tail_indices(messages.deep_view()),
        forall|k: int| 0 <= k < tail@.len() ==> (#[trigger] tail@[k]) < messages@.len(),
    ensures
        res == safe_cutoff_at(messages.deep_view(), position as int),
{
    let ghost history = messages.deep_view();
    let ghost positions = message_view::tail_indices(history);
    proof {
        message_view::lemma_tail_below(history, history.len() as int);
        lemma_tail_len(history, history.len() as int);
        assert forall|k: int| 0 <= k < tail@.len() implies tail@[k] == #[trigger] positions[k] by {
            assert(message_view::as_positions(tail@)[k] == tail@[k]);
        }
    }
    assert(messages.len() == history.len());
    let n: usize = tail.len();
    let suffix = entries_at(messages, tail, position + 1);
    match message_view::validate_messages(&message_view::entry_messages(&suffix)) {
        Ok(()) => {},
        Err(_) => {
            return None;
        },
    }
    let last: usize = tail[position];
    let coverage: usize = match summary {
        Some(at) => if at > last {
            at
        } else {
            last
        },
        None => last,
    };
    assert(coverage == coverage_index(history, position as int));
    if position + 1 < n && coverage >= tail[position + 1] {
        return None;
    }
    let leading: usize = if summary.is_some() {
        1
    } else {
        0
    };
    assert(history[coverage as int] == messages@[coverage as int]@);
    Some(
        Cutoff {
            model_view_len: leading + position + 1,
            coverage_message_id: messages[coverage].message.message_id(),
        },
    )
}

/// A planned cutoff, by its content.
pub open spec fn planned(res: Result<Option<Cutoff>, InvalidHistory>) -> Result<
    Option<Cutoff>,
    InvalidHistoryView,
> {
    match res {
        Ok(found) => Ok(found),
        Err(invalid) => Err(invalid@),
    }
}

/// Chooses what a compaction may summarize without leaving an invalid tool sequence behind.
/// Automatic compaction prefers the boundary immediately before the first visible message in
/// `prefer_before_turn`, unless measured growth within that turn already reaches
/// `auto_compact_threshold_tokens`; it then falls back to the newest safe boundary before
/// `protect_from`. Manual compaction omits all three policy inputs.
pub fn cutoff(
    messages: &[HistoryEntry],
    prefer_before_turn: Option<TurnId>,
    protect_from: Option<MessageId>,
    auto_compact_threshold_tokens: Option<u32>,
) -> (res: Result<Option<Cutoff>, InvalidHistory>)
    ensures
        planned(res) == planned_cutoff(
            messages.deep_view(),
            prefer_before_turn,
            protect_from,
            auto_compact_threshold_tokens,
        ),
{
    let ghost history = messages.deep_view();
    match message_view::validate_model_view(messages) {
        Ok(()) => {},
        Err(invalid) => {
            return Err(invalid);
        },
    }
    let (summary, tail) = message_view::model_view_parts_indexed(messages);
    let entries = entries_at(messages, &tail, 0);
    proof {
        let positions = message_view::tail_indices(history);
        assert(positions.skip(0) =~= positions);
        assert(entries.deep_view() == tail_entries(history));
    }

    match prefer_before_turn {
        Some(turn) => {
            let covered: bool = match summary {
                Some(at) => {
                    assert(history[at as int] == messages@[at as int]@);
                    messages[at].turn_id == turn
                },
                None => false,
            };
            match first_of_turn(&entries, turn) {
                Some(start) => {
                    if !covered && start > 0 {
                        let too_large: bool = match auto_compact_threshold_tokens {
                            Some(tokens) => match prompt_growth(&entries, turn) {
                                Some(grown) => grown >= tokens as u64,
                                None => false,
                            },
                            None => false,
                        };
                        assert(too_large == turn_is_too_large(
                            history,
                            turn,
                            auto_compact_threshold_tokens,
                        ));
                        if !too_large {
                            match cutoff_at(messages, summary, &tail, start - 1) {
                                Some(found) => {
                                    return Ok(Some(found));
                                },
                                None => {},
                            }
                        }
                    }
                },
                None => {},
            }
        },
        None => {},
    }

    let limit: usize = match protect_from {
        Some(id) => match first_of_message(&entries, id) {
            Some(at) => at,
            None => 0,
        },
        None => tail.len(),
    };
    assert(limit == cutoff_limit(history, protect_from));
    let mut n: usize = limit;
    let ghost plan = planned_cutoff(
        history,
        prefer_before_turn,
        protect_from,
        auto_compact_threshold_tokens,
    );
    while n > 0
        invariant
            n <= limit <= tail@.len(),
            history == messages.deep_view(),
            match message_view::summary_index(history) {
                Some(at) => summary == Some(at as usize) && 0 <= at < messages@.len(),
                None => summary is None,
            },
            message_view::as_positions(tail@) == message_view::tail_indices(history),
            forall|k: int| 0 <= k < tail@.len() ==> (#[trigger] tail@[k]) < messages@.len(),
            plan == Ok::<Option<Cutoff>, InvalidHistoryView>(newest_safe_cutoff(history, n as int)),
            plan == planned_cutoff(
                history,
                prefer_before_turn,
                protect_from,
                auto_compact_threshold_tokens,
            ),
        decreases n,
    {
        match cutoff_at(messages, summary, &tail, n - 1) {
            Some(found) => {
                return Ok(Some(found));
            },
            None => {},
        }
        n -= 1;
    }
    Ok(None)
}

/// Whether no two entries are the same message.
pub open spec fn distinct_messages(history: Seq<HistoryEntryView>) -> bool {
    forall|i: int, j: int|
        0 <= i < j < history.len() ==> (#[trigger] history[i]).message.message_id() != (
        #[trigger] history[j]).message.message_id()
}

/// Whether an entry is a summary that covers everything up to the message `cutoff`.
pub open spec fn summarizes_to(entry: HistoryEntryView, cutoff: MessageId) -> bool {
    match entry.message {
        MessageView::Compaction(compaction) => compaction.cutoff() == Some(cutoff),
        _ => false,
    }
}

/// The tail below `a` is the front of the tail below `b`, and the rest lies at `a` or after.
proof fn lemma_tail_prefix(history: Seq<HistoryEntryView>, a: int, b: int)
    requires
        0 <= a <= b <= history.len(),
    ensures
        message_view::tail_below(history, a).len() <= message_view::tail_below(history, b).len(),
        message_view::tail_below(history, b).take(
            message_view::tail_below(history, a).len() as int,
        ) == message_view::tail_below(history, a),
        forall|k: int|
            message_view::tail_below(history, a).len() <= k < message_view::tail_below(
                history,
                b,
            ).len() ==> a <= #[trigger] message_view::tail_below(history, b)[k],
    decreases b - a,
{
    let front = message_view::tail_below(history, a);
    if a < b {
        lemma_tail_prefix(history, a, b - 1);
        let before = message_view::tail_below(history, b - 1);
        let all = message_view::tail_below(history, b);
        assert(all.take(front.len() as int) =~= before.take(front.len() as int));
    } else {
        assert(front.take(front.len() as int) =~= front);
    }
}

/// The summary appended for a safe cutoff stands for exactly what the cutoff covers.
proof fn lemma_summary_replaces_covered(
    history: Seq<HistoryEntryView>,
    position: int,
    summary: HistoryEntryView,
)
    requires
        0 <= position < message_view::tail_indices(history).len(),
        distinct_messages(history.push(summary)),
        safe_cutoff_at(history, position) is Some,
        summarizes_to(summary, safe_cutoff_at(history, position)->0.coverage_message_id),
    ensures
        message_view::shown(history.push(summary)) == seq![summary] + message_view::entries_at(
            history,
            message_view::tail_indices(history).skip(position + 1),
        ),
{
    let n = history.len() as int;
    let after = history.push(summary);
    let tail = message_view::tail_indices(history);
    let covered = coverage_index(history, position);
    let cutoff = safe_cutoff_at(history, position)->0.coverage_message_id;
    message_view::lemma_tail_below(history, n);
    message_view::lemma_tail_start(history);
    assert(message_view::in_tail(history, tail[position]));
    assert(0 <= covered < n);
    assert(distinct_messages(history)) by {
        assert forall|i: int, j: int| 0 <= i < j < history.len() implies (
        #[trigger] history[i]).message.message_id() != (
        #[trigger] history[j]).message.message_id() by {
            assert(after[i].message.message_id() != after[j].message.message_id());
        }
    }

    message_view::lemma_last_index_unique(after, message_view::is_summary(), n);
    assert(message_view::summary_index(after) == Some(n));
    assert(after.take(n) =~= history);
    assert forall|i: int| covered < i < history.len() implies (
    #[trigger] history[i]).message.message_id() != cutoff by {
        assert(history[covered].message.message_id() != history[i].message.message_id());
    }
    message_view::lemma_last_index_unique(history, message_view::has_id(cutoff), covered);
    assert(message_view::tail_start(after) == covered + 1);

    // Up to the covered entry, the old tail is what goes and the new tail is empty.
    let gone = message_view::tail_below(history, covered + 1);
    lemma_tail_prefix(history, covered + 1, n);
    message_view::lemma_tail_below(history, covered + 1);
    assert(gone.len() == position + 1) by {
        if gone.len() <= position {
            assert(covered + 1 <= tail[position]);
        }
        if gone.len() > position + 1 {
            assert(tail.take(gone.len() as int)[position + 1] == gone[position + 1]);
            assert(tail[position + 1] == gone[position + 1]);
        }
    }
    message_view::lemma_tail_below(after, covered + 1);
    assert(message_view::tail_below(after, covered + 1).len() == 0) by {
        if message_view::tail_below(after, covered + 1).len() > 0 {
            assert(message_view::in_tail(
                after,
                message_view::tail_below(after, covered + 1)[0],
            ));
        }
    }
    lemma_kept_tail(history, summary, covered, position + 1, n);
    assert(!message_view::in_tail(after, n));
    let kept = tail.skip(position + 1);
    assert(message_view::tail_indices(after) == kept);
    assert(message_view::view_indices(after) == seq![n] + kept);
    assert forall|k: int| 0 <= k < kept.len() implies 0 <= #[trigger] kept[k] < n by {
        assert(kept[k] == tail[position + 1 + k]);
    }
    assert(message_view::shown(after) =~= seq![summary] + message_view::entries_at(history, kept));
}

proof fn lemma_kept_tail(
    history: Seq<HistoryEntryView>,
    summary: HistoryEntryView,
    covered: int,
    gone: int,
    end: int,
)
    requires
        covered + 1 <= end <= history.len(),
        0 <= covered,
        distinct_messages(history.push(summary)),
        message_view::tail_start(history) <= covered,
        message_view::tail_start(history.push(summary)) == covered + 1,
        message_view::summary_index(history.push(summary)) == Some(history.len() as int),
        match message_view::summary_index(history) {
            Some(at) => 0 <= at <= covered,
            None => true,
        },
        message_view::tail_below(history, covered + 1).len() == gone,
        message_view::tail_below(history.push(summary), covered + 1).len() == 0,
    ensures
        message_view::tail_below(history, end).len() >= gone,
        message_view::tail_below(history.push(summary), end) == message_view::tail_below(
            history,
            end,
        ).skip(gone),
    decreases end,
{
    let after = history.push(summary);
    let n = history.len() as int;
    if end == covered + 1 {
        assert(message_view::tail_below(after, end) =~= message_view::tail_below(history, end).skip(
            gone,
        ));
    } else {
        lemma_kept_tail(history, summary, covered, gone, end - 1);
        let i = end - 1;
        assert(after[i] == history[i]);
        assert(after[i].message.message_id() != after[n].message.message_id());
        match message_view::summary_index(history) {
            Some(at) => {
                assert(after[at] == history[at]);
                assert(after[at].message.message_id() != after[i].message.message_id());
            },
            None => {},
        }
        assert(message_view::in_tail(history, i) == message_view::in_tail(after, i));
        let before = message_view::tail_below(history, i);
        if message_view::in_tail(history, i) {
            assert(before.push(i).skip(gone) =~= before.skip(gone).push(i));
        }
    }
}

/// Compacting at a planned cutoff replaces exactly the front of the model view: once the summary of
/// that cutoff is appended, the model sees the summary and then everything it saw past the cutoff,
/// and the view still keeps the tool-call protocol.
pub proof fn law_compaction_replaces_the_front_of_the_view(
    history: Seq<HistoryEntryView>,
    prefer_before_turn: Option<TurnId>,
    protect_from: Option<MessageId>,
    threshold: Option<u32>,
    cutoff: Cutoff,
    summary: HistoryEntryView,
)
    requires
        history.len() < usize::MAX,
        distinct_messages(history.push(summary)),
        planned_cutoff(history, prefer_before_turn, protect_from, threshold) == Ok::<
            Option<Cutoff>,
            InvalidHistoryView,
        >(Some(cutoff)),
        summarizes_to(summary, cutoff.coverage_message_id),
    ensures
        0 < cutoff.model_view_len <= message_view::shown(history).len(),
        message_view::shown(history.push(summary)) == seq![summary] + message_view::shown(
            history,
        ).skip(cutoff.model_view_len as int),
        message_view::validation(
            message_view::messages_of(message_view::shown(history.push(summary))),
        ) is Ok,
{
    let tail = message_view::tail_indices(history);
    lemma_tail_len(history, history.len() as int);
    message_view::lemma_tail_start(history);
    let position = lemma_planned_position(
        history,
        prefer_before_turn,
        protect_from,
        threshold,
        cutoff,
    );
    lemma_summary_replaces_covered(history, position, summary);
    let kept = tail.skip(position + 1);
    let view = message_view::view_indices(history);
    assert(view.skip(cutoff.model_view_len as int) =~= kept);
    assert(message_view::shown(history).skip(cutoff.model_view_len as int)
        =~= message_view::entries_at(history, kept));
    let rest = message_view::messages_of(message_view::entries_at(history, kept));
    let messages = message_view::messages_of(message_view::shown(history.push(summary)));
    assert(messages =~= seq![summary.message] + rest);
    assert(messages.drop_first() =~= rest);
    assert(message_view::validation(rest) is Ok);
}

/// A planned cutoff is the safe cutoff at some position of the tail.
proof fn lemma_planned_position(
    history: Seq<HistoryEntryView>,
    prefer_before_turn: Option<TurnId>,
    protect_from: Option<MessageId>,
    threshold: Option<u32>,
    cutoff: Cutoff,
) -> (position: int)
    requires
        planned_cutoff(history, prefer_before_turn, protect_from, threshold) == Ok::<
            Option<Cutoff>,
            InvalidHistoryView,
        >(Some(cutoff)),
    ensures
        0 <= position < message_view::tail_indices(history).len(),
        safe_cutoff_at(history, position) == Some(cutoff),
{
    let entries = tail_entries(history);
    let preferred = match prefer_before_turn {
        Some(turn) => cutoff_before_turn(history, turn, threshold),
        None => None,
    };
    if preferred is Some {
        let turn = prefer_before_turn->0;
        lemma_first_index_in_range(entries, in_turn(turn));
        first_index(entries, in_turn(turn))->0 - 1
    } else {
        match protect_from {
            Some(id) => {
                lemma_first_index_in_range(entries, message_view::has_id(id));
            },
            None => {},
        }
        lemma_newest_position(history, cutoff_limit(history, protect_from))
    }
}

proof fn lemma_first_index_in_range(
    entries: Seq<HistoryEntryView>,
    holds: spec_fn(HistoryEntryView) -> bool,
)
    ensures
        match first_index(entries, holds) {
            Some(at) => 0 <= at < entries.len() && holds(entries[at]),
            None => true,
        },
    decreases entries.len(),
{
    if entries.len() > 0 {
        lemma_first_index_in_range(entries.drop_last(), holds);
    }
}

proof fn lemma_newest_position(history: Seq<HistoryEntryView>, limit: int) -> (position: int)
    requires
        newest_safe_cutoff(history, limit) is Some,
    ensures
        0 <= position < limit,
        safe_cutoff_at(history, position) == newest_safe_cutoff(history, limit),
    decreases limit,
{
    if safe_cutoff_at(history, limit - 1) is Some {
        limit - 1
    } else {
        lemma_newest_position(history, limit - 1)
    }
}

/// A cutoff found before a protected message takes nothing of the tail from that message on.
pub proof fn law_a_cutoff_spares_the_protected_message(
    history: Seq<HistoryEntryView>,
    protect_from: MessageId,
    cutoff: Cutoff,
    i: int,
)
    requires
        history.len() < usize::MAX,
        newest_safe_cutoff(history, cutoff_limit(history, Some(protect_from))) == Some(cutoff),
        message_view::summary_index(history) is Some ==> 0 < i,
        0 <= i < cutoff.model_view_len,
    ensures
        i < message_view::shown(history).len(),
        message_view::shown(history)[i].message.message_id() != protect_from,
{
    let entries = tail_entries(history);
    let holds = message_view::has_id(protect_from);
    lemma_first_index_in_range(entries, holds);
    let limit = cutoff_limit(history, Some(protect_from));
    let position = lemma_newest_position(history, limit);
    lemma_shown_tail_entry(history, cutoff, position, i);
    lemma_nothing_before_first_index(entries, holds, tail_position(history, i));
}

/// A cutoff placed before a turn takes nothing of the tail that belongs to the turn.
pub proof fn law_a_cutoff_before_a_turn_spares_the_turn(
    history: Seq<HistoryEntryView>,
    turn: TurnId,
    threshold: Option<u32>,
    cutoff: Cutoff,
    i: int,
)
    requires
        history.len() < usize::MAX,
        cutoff_before_turn(history, turn, threshold) == Some(cutoff),
        message_view::summary_index(history) is Some ==> 0 < i,
        0 <= i < cutoff.model_view_len,
    ensures
        i < message_view::shown(history).len(),
        message_view::shown(history)[i].turn_id != turn,
{
    let entries = tail_entries(history);
    lemma_first_index_in_range(entries, in_turn(turn));
    let start = first_index(entries, in_turn(turn))->0;
    lemma_shown_tail_entry(history, cutoff, start - 1, i);
    lemma_nothing_before_first_index(entries, in_turn(turn), tail_position(history, i));
}

/// A planned cutoff takes part of the view, and not all of it where the newest visible message is
/// protected.
pub proof fn law_a_cutoff_lies_in_the_view(
    history: Seq<HistoryEntryView>,
    prefer_before_turn: Option<TurnId>,
    protect_from: Option<MessageId>,
    threshold: Option<u32>,
    cutoff: Cutoff,
)
    requires
        history.len() <= usize::MAX,
        planned_cutoff(history, prefer_before_turn, protect_from, threshold) == Ok::<
            Option<Cutoff>,
            InvalidHistoryView,
        >(Some(cutoff)),
    ensures
        0 < cutoff.model_view_len <= message_view::shown(history).len(),
        !message_view::is_summary()(message_view::shown(history).last()) && protect_from == Some(
            message_view::shown(history).last().message.message_id(),
        ) ==> cutoff.model_view_len < message_view::shown(history).len(),
{
    let tail = message_view::tail_indices(history);
    let entries = tail_entries(history);
    let view = message_view::shown(history);
    lemma_tail_len(history, history.len() as int);
    message_view::lemma_tail_start(history);
    let preferred = match prefer_before_turn {
        Some(turn) => cutoff_before_turn(history, turn, threshold),
        None => None,
    };
    let position = lemma_planned_position(
        history,
        prefer_before_turn,
        protect_from,
        threshold,
        cutoff,
    );
    if !message_view::is_summary()(view.last()) && protect_from == Some(
        view.last().message.message_id(),
    ) {
        assert(view.last() == entries.last());
        if preferred is Some {
            let holds = in_turn(prefer_before_turn->0);
            lemma_first_index_in_range(entries, holds);
            assert(safe_cutoff_at(history, first_index(entries, holds)->0 - 1) == Some(cutoff));
        } else {
            let holds = message_view::has_id(protect_from->0);
            lemma_first_index_in_range(entries, holds);
            let limit = cutoff_limit(history, protect_from);
            let found = lemma_newest_position(history, limit);
            assert(safe_cutoff_at(history, found) == Some(cutoff));
        }
    }
}

/// Which entry of the tail stands at place `i` of the view.
spec fn tail_position(history: Seq<HistoryEntryView>, i: int) -> int {
    if message_view::summary_index(history) is Some {
        i - 1
    } else {
        i
    }
}

proof fn lemma_shown_tail_entry(
    history: Seq<HistoryEntryView>,
    cutoff: Cutoff,
    position: int,
    i: int,
)
    requires
        history.len() < usize::MAX,
        0 <= position < message_view::tail_indices(history).len(),
        safe_cutoff_at(history, position) == Some(cutoff),
        message_view::summary_index(history) is Some ==> 0 < i,
        0 <= i < cutoff.model_view_len,
    ensures
        0 <= tail_position(history, i) <= position,
        i < message_view::shown(history).len(),
        message_view::shown(history)[i] == tail_entries(history)[tail_position(history, i)],
{
    lemma_tail_len(history, history.len() as int);
    message_view::lemma_tail_start(history);
    let tail = message_view::tail_indices(history);
    assert(message_view::view_indices(history)[i] == tail[tail_position(history, i)]);
}

proof fn lemma_nothing_before_first_index(
    entries: Seq<HistoryEntryView>,
    holds: spec_fn(HistoryEntryView) -> bool,
    i: int,
)
    requires
        0 <= i < entries.len(),
        match first_index(entries, holds) {
            Some(at) => i < at,
            None => true,
        },
    ensures
        !holds(entries[i]),
    decreases entries.len(),
{
    let rest = entries.drop_last();
    lemma_first_index_in_range(rest, holds);
    if i < rest.len() {
        lemma_nothing_before_first_index(rest, holds, i);
    }
}

/// A summary that covers the message right before it is all the model sees. This is what keeps the
/// line that asked for a compaction out of the view: the summary is recorded as covering that line.
pub proof fn law_a_summary_of_everything_before_it_is_the_whole_view(
    history: Seq<HistoryEntryView>,
    last: HistoryEntryView,
    summary: HistoryEntryView,
)
    requires
        distinct_messages(history.push(last).push(summary)),
        summarizes_to(summary, last.message.message_id()),
    ensures
        message_view::shown(history.push(last).push(summary)) == seq![summary],
{
    let n = history.len() as int;
    let before = history.push(last);
    let after = before.push(summary);
    message_view::lemma_last_index_unique(after, message_view::is_summary(), n + 1);
    assert(after.take(n + 1) =~= before);
    assert(before[n] == last);
    message_view::lemma_last_index_unique(
        before,
        message_view::has_id(last.message.message_id()),
        n,
    );
    assert(message_view::tail_start(after) == n + 1);
    message_view::lemma_tail_below(after, n + 2);
    let tail = message_view::tail_below(after, n + 2);
    assert(tail.len() == 0) by {
        if tail.len() > 0 {
            assert(message_view::in_tail(after, tail[0]));
        }
    }
    assert(message_view::view_indices(after) =~= seq![n + 1]);
    assert(message_view::shown(after) =~= seq![summary]);
}

/// What prompted a compaction: only the human-facing wrapper text differs; the prompt sent to the
/// model is identical either way.
pub enum Trigger<'a> {
    /// A user-typed `/compact`, with whatever instructions they added.
    Manual { instructions: &'a str },
    /// The token-usage threshold was crossed; nobody asked for this.
    Auto,
}

/// One part of a user message in the transcript.
pub open spec fn part_text(part: ContentPartView) -> Seq<char> {
    match part {
        ContentPartView::Text { text } => text + "\n"@,
        ContentPartView::Image { .. } => "[image attachment]\n"@,
    }
}

/// The parts of a user message in the transcript.
pub open spec fn parts_text(parts: Seq<ContentPartView>) -> Seq<char>
    decreases parts.len(),
{
    if parts.len() == 0 {
        Seq::empty()
    } else {
        parts_text(parts.drop_last()) + part_text(parts.last())
    }
}

/// One tool call in the transcript.
pub open spec fn call_text(call: ToolCallView) -> Seq<char> {
    "\n### Tool call: "@ + call.name + " "@ + (match call.arguments {
        Some(arguments) => arguments,
        None => "{}"@,
    }) + "\n"@
}

/// The tool calls of an answer in the transcript.
pub open spec fn calls_text(calls: Seq<ToolCallView>) -> Seq<char>
    decreases calls.len(),
{
    if calls.len() == 0 {
        Seq::empty()
    } else {
        calls_text(calls.drop_last()) + call_text(calls.last())
    }
}

/// An answer of the model in the transcript.
pub open spec fn assistant_text(assistant: AssistantMessageView) -> Seq<char> {
    "\n## Assistant\n"@ + (if assistant.content.len() == 0 {
        Seq::empty()
    } else {
        assistant.content + "\n"@
    }) + calls_text(assistant.tool_calls) + (if assistant.aborted {
        "\n[the user interrupted this]\n"@
    } else {
        Seq::empty()
    })
}

/// A tool result in the transcript.
pub open spec fn tool_text(tool: ToolMessageView) -> Seq<char> {
    let (label, body) = match tool.output {
        ToolOutputView::Success(text) => ("result"@, text),
        ToolOutputView::Failure(reason) => ("error"@, reason),
    };
    "\n### Tool "@ + label + ": "@ + tool.name + "\n"@ + body + "\n"@
}

/// One message in the transcript.
pub open spec fn message_text(message: MessageView) -> Seq<char> {
    match message {
        MessageView::User(user) => "\n## User\n"@ + parts_text(user.parts),
        MessageView::Assistant(assistant) => assistant_text(assistant),
        MessageView::Tool(tool) => tool_text(tool),
        MessageView::Compaction(compaction) => "\n## Summary of the conversation so far\n"@
            + compaction.content + "\n"@,
        MessageView::TaskNotice(notice) => "\n## User\n"@ + notice.content + "\n"@,
    }
}

/// The transcript of some entries: each message in order, as plain text.
pub open spec fn transcript_text(entries: Seq<HistoryEntryView>) -> Seq<char>
    decreases entries.len(),
{
    if entries.len() == 0 {
        Seq::empty()
    } else {
        transcript_text(entries.drop_last()) + message_text(entries.last().message)
    }
}

/// The transcript of two lists in a row is that of the first and then that of the second: each entry
/// contributes its own text, in order, whatever surrounds it.
pub proof fn law_a_transcript_is_written_entry_by_entry(
    first: Seq<HistoryEntryView>,
    second: Seq<HistoryEntryView>,
)
    ensures
        transcript_text(Seq::empty()) == Seq::<char>::empty(),
        transcript_text(first + second) == transcript_text(first) + transcript_text(second),
    decreases second.len(),
{
    if second.len() == 0 {
        assert(first + second =~= first);
        assert(transcript_text(first) + transcript_text(second) =~= transcript_text(first));
    } else {
        let rest = second.drop_last();
        let all = first + second;
        law_a_transcript_is_written_entry_by_entry(first, rest);
        assert(all.drop_last() =~= first + rest);
        assert(all.last() == second.last());
        assert(transcript_text(all) =~= transcript_text(first) + transcript_text(second));
    }
}

fn push_parts(out: &mut String, parts: &Vec<ContentPart>)
    ensures
        final(out)@ == old(out)@ + parts_text(parts.deep_view()),
{
    let ghost start = out@;
    let ghost all = parts.deep_view();
    let n: usize = parts.len();
    let mut i: usize = 0;
    assert(out@ =~= start + parts_text(all.take(0)));
    while i < n
        invariant
            i <= n,
            n == parts@.len(),
            all == parts.deep_view(),
            out@ == start + parts_text(all.take(i as int)),
        decreases n - i,
    {
        proof {
            assert(all.take(i + 1).drop_last() =~= all.take(i as int));
            assert(all.take(i + 1).last() == parts@[i as int]@);
        }
        match &parts[i] {
            ContentPart::Text { text } => {
                out.append(text.as_str());
                out.append("\n");
            },
            // Images cannot be flattened; noting the gap beats letting the summary imply the turn
            // was text-only.
            ContentPart::Image { .. } => {
                out.append("[image attachment]\n");
            },
        }
        assert(out@ =~= start + parts_text(all.take(i + 1)));
        i += 1;
    }
    assert(all.take(n as int) =~= all);
}

fn push_calls(out: &mut String, calls: &Vec<llm::ToolCall>)
    ensures
        final(out)@ == old(out)@ + calls_text(calls.deep_view()),
{
    let ghost start = out@;
    let ghost all = calls.deep_view();
    let n: usize = calls.len();
    let mut i: usize = 0;
    assert(out@ =~= start + calls_text(all.take(0)));
    while i < n
        invariant
            i <= n,
            n == calls@.len(),
            all == calls.deep_view(),
            out@ == start + calls_text(all.take(i as int)),
        decreases n - i,
    {
        proof {
            assert(all.take(i + 1).drop_last() =~= all.take(i as int));
            assert(all.take(i + 1).last() == calls@[i as int]@);
        }
        out.append("\n### Tool call: ");
        out.append(calls[i].name.as_str());
        out.append(" ");
        match &calls[i].arguments {
            Some(arguments) => {
                out.append(arguments.as_str());
            },
            None => {
                out.append("{}");
            },
        }
        out.append("\n");
        assert(out@ =~= start + calls_text(all.take(i + 1)));
        i += 1;
    }
    assert(all.take(n as int) =~= all);
}

fn push_message(out: &mut String, message: &Message)
    ensures
        final(out)@ == old(out)@ + message_text(message@),
{
    let ghost start = out@;
    match message {
        Message::User(user) => {
            out.append("\n## User\n");
            push_parts(out, &user.parts);
        },
        Message::Assistant(assistant) => {
            out.append("\n## Assistant\n");
            if !assistant.content.as_str().is_empty() {
                out.append(assistant.content.as_str());
                out.append("\n");
            }
            push_calls(out, &assistant.tool_calls);
            if assistant.aborted {
                out.append("\n[the user interrupted this]\n");
            }
        },
        Message::Tool(tool) => {
            out.append("\n### Tool ");
            let body = match &tool.output {
                ToolOutput::Success(text) => {
                    out.append("result");
                    text
                },
                ToolOutput::Failure(reason) => {
                    out.append("error");
                    reason
                },
            };
            out.append(": ");
            out.append(tool.name.as_str());
            out.append("\n");
            out.append(body.as_str());
            out.append("\n");
        },
        // An earlier summary, which is where this view begins.
        Message::Compaction(compaction) => {
            out.append("\n## Summary of the conversation so far\n");
            out.append(compaction.content.as_str());
            out.append("\n");
        },
        Message::TaskNotice(notice) => {
            out.append("\n## User\n");
            out.append(notice.content.as_str());
            out.append("\n");
        },
    }
    assert(out@ =~= start + message_text(message@));
}

/// The transcript of some entries: each message in order, as plain text.
pub fn transcript(entries: &Vec<&HistoryEntry>) -> (res: String)
    ensures
        res@ == transcript_text(entries.deep_view()),
{
    let ghost all = entries.deep_view();
    let mut out = String::new();
    let n: usize = entries.len();
    let mut i: usize = 0;
    while i < n
        invariant
            i <= n,
            n == entries@.len(),
            all == entries.deep_view(),
            out@ == transcript_text(all.take(i as int)),
        decreases n - i,
    {
        proof {
            assert(all.take(i + 1).drop_last() =~= all.take(i as int));
            assert(all.take(i + 1).last() == entries@[i as int]@);
        }
        push_message(&mut out, &entries[i].message);
        i += 1;
    }
    assert(all.take(n as int) =~= all);
    out
}

/// What the model is asked to summarize: the instructions first, so that a truncated window cannot
/// drop them, and then the transcript.
pub open spec fn summary_task(entries: Seq<HistoryEntryView>, instructions: Seq<char>) -> Seq<
    char,
> {
    (if instructions.len() == 0 {
        Seq::empty()
    } else {
        "The user asked for this compaction and added the following. Follow it where it narrows what to keep, but never at the cost of leaving the agent unable to resume:\n"@
            + instructions + "\n\n"@
    }) + "<transcript>\n"@ + transcript_text(entries) + "</transcript>\n"@
}

/// The request for a summary of some entries, whose one message is `id`.
pub open spec fn summary_request_of(
    id: MessageId,
    model: Seq<char>,
    max_completion_tokens: Option<u32>,
    reasoning_effort: Option<Seq<char>>,
    entries: Seq<HistoryEntryView>,
    instructions: Seq<char>,
    prompt: Seq<char>,
) -> ChatCompletionRequestView {
    ChatCompletionRequestView {
        model,
        messages: seq![
            RequestMessageView::System(SystemMessageView { text: prompt }),
            llm::said_by_user(id, summary_task(entries, instructions)),
        ],
        tools: Seq::empty(),
        max_completion_tokens,
        temperature: None,
        reasoning_effort,
    }
}

/// The request that asks `model` to summarize `entries`: a model view truncated at this compaction's
/// cutoff, so that failure records never reach the summarizer. `prompt` says what a summary is for.
/// Neither tools nor the conversation itself are replayed.
pub fn summary_request(
    model: String,
    max_completion_tokens: Option<u32>,
    reasoning_effort: Option<String>,
    entries: &Vec<&HistoryEntry>,
    instructions: &str,
    prompt: &str,
) -> (res: ChatCompletionRequest)
    ensures
        exists|id: MessageId|
            ids::is_random_uuid(id.value) && res@ == #[trigger] summary_request_of(
                id,
                model@,
                max_completion_tokens,
                reasoning_effort.deep_view(),
                entries.deep_view(),
                instructions@,
                prompt@,
            ),
{
    let mut task = String::new();
    if !instructions.is_empty() {
        task.append(
            "The user asked for this compaction and added the following. Follow it where it narrows what to keep, but never at the cost of leaving the agent unable to resume:\n",
        );
        task.append(instructions);
        task.append("\n\n");
    }
    task.append("<transcript>\n");
    let record = transcript(entries);
    task.append(record.as_str());
    task.append("</transcript>\n");
    assert(task@ =~= summary_task(entries.deep_view(), instructions@));
    let id = MessageId::new();
    let mut messages: Vec<RequestMessage> = Vec::new();
    messages.push(RequestMessage::System(SystemMessage { text: prompt.to_owned() }));
    messages.push(RequestMessage::User(UserMessage::text(id, task)));
    let tools: Vec<llm::ToolDefinition> = Vec::new();
    proof {
        assert(tools.deep_view() =~= Seq::empty());
        assert(messages.deep_view() =~= seq![
            RequestMessageView::System(SystemMessageView { text: prompt@ }),
            llm::said_by_user(id, task@),
        ]);
    }
    let request = ChatCompletionRequest {
        model,
        messages,
        tools,
        max_completion_tokens,
        temperature: None,
        reasoning_effort,
    };
    assert(request@ == summary_request_of(
        id,
        model@,
        max_completion_tokens,
        reasoning_effort.deep_view(),
        entries.deep_view(),
        instructions@,
        prompt@,
    ));
    request
}

/// The line that asks for a compaction.
pub open spec fn command_text(instructions: Seq<char>) -> Seq<char> {
    if instructions.len() == 0 {
        "/compact"@
    } else {
        "/compact "@ + instructions
    }
}

/// The `/compact` line as the transcript records it. It falls before the new boundary, so the model
/// never sees it; the summary carries the instructions instead. Manual triggers only.
pub fn command_message(instructions: &str) -> (res: Message)
    ensures
        exists|id: MessageId|
            ids::is_random_uuid(id.value) && res@ == MessageView::User(
                #[trigger] said(id, command_text(instructions@)),
            ),
{
    let text = if instructions.is_empty() {
        "/compact".to_owned()
    } else {
        let mut text = "/compact ".to_owned();
        text.append(instructions);
        text
    };
    let id = MessageId::new();
    assert(text@ == command_text(instructions@));
    let message = UserMessage::text(id, text);
    assert(message@ == said(id, command_text(instructions@)));
    Message::User(message)
}

/// A user message that is one text.
pub open spec fn said(message_id: MessageId, text: Seq<char>) -> llm::UserMessageView {
    llm::UserMessageView { message_id, parts: seq![ContentPartView::Text { text }], origin: None }
}

/// What a summary says: the model's text, under a line that tells what asked for it.
pub open spec fn summary_content(trigger: Trigger, summary: Seq<char>) -> Seq<char> {
    match trigger {
        Trigger::Manual { instructions } => if instructions@.len() == 0 {
            summary
        } else {
            "[compacted at the user's request: "@ + instructions@ + "]\n\n"@ + summary
        },
        Trigger::Auto =>
            "[compacted automatically: token usage reached the configured limit]\n\n"@ + summary,
    }
}

/// The summary, which is also the new boundary: it records `cutoff`, the last message it covers, so
/// that a later model view knows what it does and does not protect.
pub fn summary_message(cutoff: MessageId, trigger: Trigger, summary: &str) -> (res: Message)
    ensures
        exists|id: MessageId, created_at: Timestamp|
            ids::is_random_uuid(id.value) && ids::in_calendar(created_at.nanoseconds as int) && res@
                == #[trigger] compaction_record(
                id,
                created_at,
                CompactionOutcome::Summary { cutoff },
                summary_content(trigger, summary@),
            ),
{
    let content = match trigger {
        Trigger::Manual { instructions } => {
            if instructions.is_empty() {
                summary.to_owned()
            } else {
                let mut content = "[compacted at the user's request: ".to_owned();
                content.append(instructions);
                content.append("]\n\n");
                content.append(summary);
                content
            }
        },
        Trigger::Auto => {
            let mut content =
                "[compacted automatically: token usage reached the configured limit]\n\n".to_owned();
            content.append(summary);
            content
        },
    };
    assert(content@ =~= summary_content(trigger, summary@));
    compaction(CompactionOutcome::Summary { cutoff }, content)
}

/// Recorded when no summary could be produced. Not a boundary, and transcript-only, so the model
/// view is untouched.
pub fn failure_message(reason: &str) -> (res: Message)
    ensures
        exists|id: MessageId, created_at: Timestamp|
            ids::is_random_uuid(id.value) && ids::in_calendar(created_at.nanoseconds as int) && res@
                == #[trigger] compaction_record(
                id,
                created_at,
                CompactionOutcome::Failed,
                "Compaction failed, so the conversation was left as it is: "@ + reason@,
            ),
{
    let mut content = "Compaction failed, so the conversation was left as it is: ".to_owned();
    content.append(reason);
    compaction(CompactionOutcome::Failed, content)
}

/// The record of a compaction.
pub open spec fn compaction_record(
    message_id: MessageId,
    created_at: Timestamp,
    outcome: CompactionOutcome,
    content: Seq<char>,
) -> MessageView {
    MessageView::Compaction(CompactionMessageView { message_id, outcome, content, created_at })
}

fn compaction(outcome: CompactionOutcome, content: String) -> (res: Message)
    ensures
        exists|id: MessageId, created_at: Timestamp|
            ids::is_random_uuid(id.value) && ids::in_calendar(created_at.nanoseconds as int) && res@
                == #[trigger] compaction_record(id, created_at, outcome, content@),
{
    let message_id = MessageId::new();
    let created_at = Timestamp::now();
    let res = Message::Compaction(CompactionMessage { message_id, outcome, content, created_at });
    assert(res@ == compaction_record(message_id, created_at, outcome, content@));
    res
}

/// A failed compaction changes nothing the model sees.
pub proof fn law_a_failed_compaction_leaves_the_view(
    history: Seq<HistoryEntryView>,
    failure: HistoryEntryView,
)
    requires
        !failure.message.visible_to_model(),
    ensures
        message_view::shown(history.push(failure)) == message_view::shown(history),
        message_view::summary_index(history.push(failure)) == message_view::summary_index(history),
        message_view::tail_indices(history.push(failure)) == message_view::tail_indices(history),
{
    let after = history.push(failure);
    let n = history.len() as int;
    assert(after.drop_last() =~= history);
    assert(message_view::summary_index(after) == message_view::summary_index(history));
    message_view::lemma_tail_start(history);
    assert(message_view::tail_start(after) == message_view::tail_start(history)) by {
        match message_view::summary_index(history) {
            Some(at) => {
                assert(after[at] == history[at]);
                assert(after.take(at) =~= history.take(at));
            },
            None => {},
        }
    }
    lemma_same_tail(history, failure, n);
    assert(!message_view::in_tail(after, n));
    message_view::lemma_tail_below(history, n);
    let view = message_view::view_indices(history);
    assert(message_view::view_indices(after) == view);
    assert forall|k: int| 0 <= k < view.len() implies 0 <= #[trigger] view[k] < n by {
        match message_view::summary_index(history) {
            Some(at) => {
                if k > 0 {
                    assert(view[k] == message_view::tail_indices(history)[k - 1]);
                }
            },
            None => {},
        }
    }
    assert(message_view::shown(after) =~= message_view::shown(history));
}

proof fn lemma_same_tail(history: Seq<HistoryEntryView>, next: HistoryEntryView, end: int)
    requires
        0 <= end <= history.len(),
        message_view::summary_index(history.push(next)) == message_view::summary_index(history),
        message_view::tail_start(history.push(next)) == message_view::tail_start(history),
    ensures
        message_view::tail_below(history.push(next), end) == message_view::tail_below(history, end),
    decreases end,
{
    if end > 0 {
        lemma_same_tail(history, next, end - 1);
        message_view::lemma_tail_start(history);
        let after = history.push(next);
        assert(after[end - 1] == history[end - 1]);
        match message_view::summary_index(history) {
            Some(at) => {
                assert(after[at] == history[at]);
            },
            None => {},
        }
        assert(message_view::in_tail(after, end - 1) == message_view::in_tail(history, end - 1));
    }
}

/// A failed compaction leaves what the next one may summarize: it finds the same cutoff.
pub proof fn law_a_failed_compaction_leaves_the_cutoff(
    history: Seq<HistoryEntryView>,
    failure: HistoryEntryView,
    prefer_before_turn: Option<TurnId>,
    protect_from: Option<MessageId>,
    threshold: Option<u32>,
)
    requires
        !failure.message.visible_to_model(),
    ensures
        planned_cutoff(history.push(failure), prefer_before_turn, protect_from, threshold)
            == planned_cutoff(history, prefer_before_turn, protect_from, threshold),
{
    let after = history.push(failure);
    let tail = message_view::tail_indices(history);
    law_a_failed_compaction_leaves_the_view(history, failure);
    message_view::lemma_tail_below(history, history.len() as int);
    message_view::lemma_tail_start(history);
    assert(tail_entries(after) =~= tail_entries(history));
    match message_view::summary_index(history) {
        Some(at) => {
            assert(after[at] == history[at]);
        },
        None => {},
    }
    lemma_first_index_in_range(tail_entries(history), in_turn(prefer_before_turn->0));
    lemma_first_index_in_range(tail_entries(history), message_view::has_id(protect_from->0));
    if prefer_before_turn is Some {
        let start = first_index(tail_entries(history), in_turn(prefer_before_turn->0));
        if start is Some && start->0 > 0 {
            lemma_same_safe_cutoff(history, failure, start->0 - 1);
        }
    }
    lemma_same_newest_cutoff(history, failure, cutoff_limit(history, protect_from));
}

proof fn lemma_same_safe_cutoff(
    history: Seq<HistoryEntryView>,
    failure: HistoryEntryView,
    position: int,
)
    requires
        !failure.message.visible_to_model(),
        0 <= position < message_view::tail_indices(history).len(),
    ensures
        safe_cutoff_at(history.push(failure), position) == safe_cutoff_at(history, position),
{
    let after = history.push(failure);
    let tail = message_view::tail_indices(history);
    law_a_failed_compaction_leaves_the_view(history, failure);
    message_view::lemma_tail_below(history, history.len() as int);
    message_view::lemma_tail_start(history);
    let kept = tail.skip(position + 1);
    assert forall|k: int| 0 <= k < kept.len() implies after[#[trigger] kept[k]]
        == history[kept[k]] by {
        assert(kept[k] == tail[position + 1 + k]);
    }
    assert(message_view::entries_at(after, kept) =~= message_view::entries_at(history, kept));
    let covered = coverage_index(history, position);
    assert(0 <= covered < history.len());
    assert(after[covered] == history[covered]);
}

proof fn lemma_same_newest_cutoff(
    history: Seq<HistoryEntryView>,
    failure: HistoryEntryView,
    limit: int,
)
    requires
        !failure.message.visible_to_model(),
        limit <= message_view::tail_indices(history).len(),
    ensures
        newest_safe_cutoff(history.push(failure), limit) == newest_safe_cutoff(history, limit),
    decreases limit,
{
    if limit > 0 {
        lemma_same_safe_cutoff(history, failure, limit - 1);
        lemma_same_newest_cutoff(history, failure, limit - 1);
    }
}

}
