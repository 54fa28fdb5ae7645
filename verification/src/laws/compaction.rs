//! How a history is summarized.

use crate::agent::{HistoryEntry, HistoryEntryView};
use crate::compaction::{self, Cutoff, Trigger};
use crate::ids::{self, MessageId, TurnId};
use crate::laws::request;
use crate::llm::{
    ChatCompletionRequest, CompactionOutcome, CompletionUsage, ContentPartView, Message,
    MessageView, RequestMessageView, ToolOutputView,
};
use crate::message_view::{self, InvalidHistory};
use vstd::prelude::*;

verus! {

/// Whether an entry is an answer that the model gave in a turn.
pub open spec fn is_answer_of(entry: HistoryEntryView, turn: TurnId) -> bool {
    entry.message is Assistant && entry.turn_id == turn
}

/// What an answer cost, where it is known.
pub open spec fn usage_of(entry: HistoryEntryView) -> Option<CompletionUsage> {
    match entry.message {
        MessageView::Assistant(assistant) => assistant.usage,
        _ => None,
    }
}

/// Where the answers of a turn stand.
proof fn lemma_answers(entries: Seq<HistoryEntryView>, turn: TurnId) -> (at: Seq<int>)
    ensures
        at.len() == compaction::turn_usages(entries, turn).len(),
        forall|k: int|
            0 <= k < at.len() ==> 0 <= (#[trigger] at[k]) < entries.len() && is_answer_of(
                entries[at[k]],
                turn,
            ) && compaction::turn_usages(entries, turn)[k] == usage_of(entries[at[k]]),
        forall|k: int, l: int| 0 <= k < l < at.len() ==> (#[trigger] at[k]) < (#[trigger] at[l]),
        forall|i: int|
            0 <= i < entries.len() && is_answer_of(#[trigger] entries[i], turn) ==> at.contains(i),
    decreases entries.len(),
{
    if entries.len() == 0 {
        Seq::empty()
    } else {
        let fewer = entries.drop_last();
        let before = lemma_answers(fewer, turn);
        let last = entries.len() - 1;
        let at = if is_answer_of(entries.last(), turn) {
            before.push(last)
        } else {
            before
        };
        assert forall|k: int| 0 <= k < at.len() implies 0 <= (#[trigger] at[k]) < entries.len()
            && is_answer_of(entries[at[k]], turn) && compaction::turn_usages(entries, turn)[k]
            == usage_of(entries[at[k]]) by {
            if k < before.len() {
                assert(at[k] == before[k]);
                assert(fewer[before[k]] == entries[before[k]]);
            }
        }
        assert forall|i: int|
            0 <= i < entries.len() && is_answer_of(#[trigger] entries[i], turn) implies at.contains(
            i,
        ) by {
            if i < last {
                assert(fewer[i] == entries[i]);
                assert(before.contains(i));
                let k = before.index_of(i);
                assert(at[k] == i);
            } else {
                assert(at[at.len() - 1] == i);
            }
        }
        at
    }
}

/// A turn without an answer of the model has not grown, whatever the other turns hold.
pub proof fn law_a_turn_without_an_answer_has_not_grown(
    entries: &Vec<&HistoryEntry>,
    turn: TurnId,
    res: Option<u64>,
)
    requires
        call_ensures(compaction::prompt_growth, (entries, turn), res),
        forall|i: int|
            0 <= i < entries.deep_view().len() ==> !is_answer_of(
                #[trigger] entries.deep_view()[i],
                turn,
            ),
    ensures
        res == Some(0u64),
{
    let at = lemma_answers(entries.deep_view(), turn);
    if at.len() > 0 {
        assert(is_answer_of(entries.deep_view()[at[0]], turn));
    }
}

/// Whether an entry belongs to a turn.
pub open spec fn of_turn(turn: TurnId) -> spec_fn(HistoryEntryView) -> bool {
    |entry: HistoryEntryView| entry.turn_id == turn
}

proof fn lemma_usages_of_turn(entries: Seq<HistoryEntryView>, turn: TurnId)
    ensures
        compaction::turn_usages(entries.filter(of_turn(turn)), turn) == compaction::turn_usages(
            entries,
            turn,
        ),
    decreases entries.len(),
{
    reveal(Seq::filter);
    if entries.len() > 0 {
        let fewer = entries.drop_last();
        lemma_usages_of_turn(fewer, turn);
        if of_turn(turn)(entries.last()) {
            assert(entries.filter(of_turn(turn)).drop_last() =~= fewer.filter(of_turn(turn)));
        }
    }
}

/// How far a turn has grown depends on its own entries alone: leaving the entries of every other turn
/// out changes nothing.
pub proof fn law_growth_is_that_of_the_turn_alone(
    entries: &Vec<&HistoryEntry>,
    own: &Vec<&HistoryEntry>,
    turn: TurnId,
    res: Option<u64>,
    own_res: Option<u64>,
)
    requires
        call_ensures(compaction::prompt_growth, (entries, turn), res),
        call_ensures(compaction::prompt_growth, (own, turn), own_res),
        own.deep_view() == entries.deep_view().filter(of_turn(turn)),
    ensures
        res == own_res,
{
    lemma_usages_of_turn(entries.deep_view(), turn);
}

/// A turn has grown by what its last answer read more than its first. Where one of its answers has no
/// usage, or read less than one before it, nothing is known.
pub proof fn law_a_turn_grows_from_its_first_answer_to_its_last(
    entries: &Vec<&HistoryEntry>,
    turn: TurnId,
    res: Option<u64>,
    i: int,
    j: int,
)
    requires
        call_ensures(compaction::prompt_growth, (entries, turn), res),
        0 <= i <= j < entries.deep_view().len(),
        is_answer_of(entries.deep_view()[i], turn),
        is_answer_of(entries.deep_view()[j], turn),
    ensures
        usage_of(entries.deep_view()[i]) is None ==> res is None,
        usage_of(entries.deep_view()[i]) is Some && usage_of(entries.deep_view()[j]) is Some
            && usage_of(entries.deep_view()[i])->0.prompt_tokens > usage_of(
            entries.deep_view()[j],
        )->0.prompt_tokens ==> res is None,
        (forall|k: int|
            0 <= k < entries.deep_view().len() && is_answer_of(
                #[trigger] entries.deep_view()[k],
                turn,
            ) ==> i <= k <= j && usage_of(entries.deep_view()[k]) is Some) && (forall|k: int, l: int|
            0 <= k < l < entries.deep_view().len() && is_answer_of(
                #[trigger] entries.deep_view()[k],
                turn,
            ) && is_answer_of(#[trigger] entries.deep_view()[l], turn) ==> usage_of(
                entries.deep_view()[k],
            )->0.prompt_tokens <= usage_of(entries.deep_view()[l])->0.prompt_tokens) ==> (
        res matches Some(grown) && grown == usage_of(entries.deep_view()[j])->0.prompt_tokens
            - usage_of(entries.deep_view()[i])->0.prompt_tokens),
{
    let all = entries.deep_view();
    let usages = compaction::turn_usages(all, turn);
    let at = lemma_answers(all, turn);
    let first = at.index_of(i);
    let last = at.index_of(j);
    assert(at.contains(i) && at.contains(j));
    assert(usages[first] == usage_of(all[i]));
    assert(usages[last] == usage_of(all[j]));
    if i < j {
        assert(first < last);
    }
    if (forall|k: int|
        0 <= k < all.len() && is_answer_of(#[trigger] all[k], turn) ==> i <= k <= j && usage_of(
            all[k],
        ) is Some) && (forall|k: int, l: int|
        0 <= k < l < all.len() && is_answer_of(#[trigger] all[k], turn) && is_answer_of(
            #[trigger] all[l],
            turn,
        ) ==> usage_of(all[k])->0.prompt_tokens <= usage_of(all[l])->0.prompt_tokens) {
        assert forall|k: int| 0 <= k < usages.len() implies (#[trigger] usages[k]) is Some by {
            assert(is_answer_of(all[at[k]], turn));
        }
        assert forall|k: int, l: int| 0 <= k < l < usages.len() implies (
        #[trigger] usages[k])->0.prompt_tokens <= (#[trigger] usages[l])->0.prompt_tokens by {
            assert(is_answer_of(all[at[k]], turn) && is_answer_of(all[at[l]], turn));
        }
        assert(is_answer_of(all[at[0]], turn));
        assert(is_answer_of(all[at[at.len() - 1]], turn));
        assert(first == 0) by {
            if first > 0 {
                assert(at[0] < at[first]);
            }
        }
        assert(last == at.len() - 1) by {
            if last < at.len() - 1 {
                assert(at[last] < at[at.len() - 1]);
            }
        }
    }
}

/// The messages at these positions of a history.
pub open spec fn messages_at(history: Seq<HistoryEntryView>, positions: Seq<usize>) -> Seq<
    MessageView,
> {
    Seq::new(positions.len(), |k: int| history[positions[k] as int].message)
}

/// Whether a compaction may take the visible entries up to a position of the tail: what is left keeps
/// the tool-call protocol, and none of it stands before the summary that is replaced.
pub open spec fn may_cut(
    history: Seq<HistoryEntryView>,
    summary: Option<usize>,
    tail: Seq<usize>,
    position: int,
) -> bool {
    &&& message_view::well_paired(messages_at(history, tail.skip(position + 1)))
    &&& position + 1 < tail.len() && summary is Some ==> summary->0 < tail[position + 1]
}

/// Whether a cutoff takes the visible entries up to a position of the tail, with the summary before
/// them: it counts them, and names whichever of them stands last in the history.
pub open spec fn takes(
    history: Seq<HistoryEntryView>,
    summary: Option<usize>,
    tail: Seq<usize>,
    position: int,
    cutoff: Cutoff,
) -> bool {
    &&& cutoff.model_view_len == position + 1 + (if summary is Some {
        1int
    } else {
        0int
    })
    &&& cutoff.coverage_message_id == request::id_of(
        history[if summary is Some && summary->0 > tail[position] {
            summary->0 as int
        } else {
            tail[position] as int
        }].message,
    )
}

proof fn lemma_safe(
    messages: &[HistoryEntry],
    parts: (Option<usize>, Vec<usize>),
    position: int,
)
    requires
        call_ensures(message_view::model_view_parts_indexed, (messages,), parts),
        0 <= position < parts.1@.len(),
        messages.deep_view().len() < usize::MAX,
    ensures
        compaction::safe_cutoff_at(messages.deep_view(), position) is Some <==> may_cut(
            messages.deep_view(),
            parts.0,
            parts.1@,
            position,
        ),
        compaction::safe_cutoff_at(messages.deep_view(), position) matches Some(cutoff) ==> takes(
            messages.deep_view(),
            parts.0,
            parts.1@,
            position,
            cutoff,
        ),
{
    let history = messages.deep_view();
    let tail = message_view::tail_indices(history);
    let positions = parts.1@;
    assert(tail == message_view::as_positions(positions));
    assert(tail.len() == positions.len());
    let kept = message_view::entries_at(history, tail.skip(position + 1));
    assert forall|k: int| 0 <= k < positions.len() implies tail[k] == #[trigger] positions[k] by {}
    assert(message_view::messages_of(kept) =~= messages_at(history, positions.skip(position + 1)));
    message_view::law_validation_accepts_exactly_the_protocol(message_view::messages_of(kept));
    message_view::lemma_tail_start(history);
    message_view::lemma_tail_below(history, history.len() as int);
    lemma_short(tail, history.len() as int);
    if position + 1 < tail.len() {
        assert(tail[position] < tail[position + 1]);
    }
    match message_view::summary_index(history) {
        Some(at) => {
            assert(at as usize as int == at);
            if position + 1 < tail.len() {
                assert(message_view::in_tail(history, tail[position + 1]));
            }
        },
        None => {},
    }
}

proof fn lemma_short(positions: Seq<int>, n: int)
    requires
        0 <= n,
        forall|k: int| 0 <= k < positions.len() ==> 0 <= (#[trigger] positions[k]) < n,
        forall|k: int, l: int|
            0 <= k < l < positions.len() ==> (#[trigger] positions[k]) < (#[trigger] positions[l]),
    ensures
        positions.len() <= n,
    decreases n,
{
    if n == 0 {
        if positions.len() > 0 {
            assert(positions[0] < 0);
        }
    } else if positions.len() > 0 {
        let fewer = positions.drop_last();
        assert forall|k: int| 0 <= k < fewer.len() implies 0 <= (#[trigger] fewer[k]) < n - 1 by {
            assert(positions[k] < positions[positions.len() - 1]);
        }
        lemma_short(fewer, n - 1);
    }
}

proof fn lemma_newest(
    messages: &[HistoryEntry],
    parts: (Option<usize>, Vec<usize>),
    limit: int,
    position: int,
)
    requires
        call_ensures(message_view::model_view_parts_indexed, (messages,), parts),
        0 <= limit <= parts.1@.len(),
        messages.deep_view().len() < usize::MAX,
    ensures
        0 <= position < limit && may_cut(messages.deep_view(), parts.0, parts.1@, position) && (
        forall|p: int|
            position < p < limit ==> !#[trigger] may_cut(
                messages.deep_view(),
                parts.0,
                parts.1@,
                p,
            )) ==> (compaction::newest_safe_cutoff(messages.deep_view(), limit) matches Some(
            cutoff,
        ) && takes(messages.deep_view(), parts.0, parts.1@, position, cutoff)),
        (forall|p: int|
            0 <= p < limit ==> !#[trigger] may_cut(messages.deep_view(), parts.0, parts.1@, p))
            ==> compaction::newest_safe_cutoff(messages.deep_view(), limit) is None,
    decreases limit,
{
    if limit > 0 {
        lemma_newest(messages, parts, limit - 1, position);
        lemma_safe(messages, parts, limit - 1);
        assert(may_cut(messages.deep_view(), parts.0, parts.1@, limit - 1) == may_cut(
            messages.deep_view(),
            parts.0,
            parts.1@,
            limit - 1,
        ));
    }
}

proof fn lemma_first(
    entries: Seq<HistoryEntryView>,
    holds: spec_fn(HistoryEntryView) -> bool,
    at: int,
)
    ensures
        0 <= at < entries.len() && holds(entries[at]) && (forall|i: int|
            0 <= i < at ==> !holds(#[trigger] entries[i])) ==> compaction::first_index(
            entries,
            holds,
        ) == Some(at),
        (forall|i: int| 0 <= i < entries.len() ==> !holds(#[trigger] entries[i]))
            ==> compaction::first_index(entries, holds) is None,
    decreases entries.len(),
{
    if entries.len() > 0 {
        let fewer = entries.drop_last();
        lemma_first(fewer, holds, at);
        assert forall|i: int| 0 <= i < fewer.len() implies #[trigger] fewer[i] == entries[i] by {}
        if 0 <= at < entries.len() && holds(entries[at]) && (forall|i: int|
            0 <= i < at ==> !holds(#[trigger] entries[i])) {
            if at == entries.len() - 1 {
                assert forall|i: int| 0 <= i < fewer.len() implies !holds(#[trigger] fewer[i]) by {
                    assert(!holds(entries[i]));
                }
            } else {
                assert forall|i: int| 0 <= i < at implies !holds(#[trigger] fewer[i]) by {
                    assert(!holds(entries[i]));
                }
            }
        }
        if forall|i: int| 0 <= i < entries.len() ==> !holds(#[trigger] entries[i]) {
            assert(!holds(entries[entries.len() - 1]));
            assert forall|i: int| 0 <= i < fewer.len() implies !holds(#[trigger] fewer[i]) by {
                assert(!holds(entries[i]));
            }
        }
    }
}

/// Whether nothing of the tail before a limit is protected, and the entry at the limit is. Without a
/// protected message the limit is the end of the tail.
pub open spec fn is_limit(
    history: Seq<HistoryEntryView>,
    tail: Seq<usize>,
    protect_from: Option<MessageId>,
    limit: int,
) -> bool {
    &&& 0 <= limit <= tail.len()
    &&& match protect_from {
        Some(id) => {
            &&& limit < tail.len()
            &&& request::id_of(history[tail[limit] as int].message) == id
            &&& forall|p: int|
                0 <= p < limit ==> request::id_of(history[(#[trigger] tail[p]) as int].message)
                    != id
        },
        None => limit == tail.len(),
    }
}

/// A compaction takes as much of the visible history as it may, up to the protected message: of the
/// places where it may cut, the last. Where it may cut nowhere, and where the message to protect is not
/// visible at all, it cuts nothing.
pub proof fn law_a_compaction_takes_as_much_as_it_may(
    messages: &[HistoryEntry],
    protect_from: Option<MessageId>,
    threshold: Option<u32>,
    parts: (Option<usize>, Vec<usize>),
    res: Result<Option<Cutoff>, InvalidHistory>,
    limit: int,
    position: int,
)
    requires
        call_ensures(message_view::model_view_parts_indexed, (messages,), parts),
        call_ensures(compaction::cutoff, (messages, None::<TurnId>, protect_from, threshold), res),
        res is Ok,
        messages.deep_view().len() < usize::MAX,
    ensures
        is_limit(messages.deep_view(), parts.1@, protect_from, limit) && 0 <= position < limit
            && may_cut(messages.deep_view(), parts.0, parts.1@, position) && (forall|p: int|
            position < p < limit ==> !#[trigger] may_cut(
                messages.deep_view(),
                parts.0,
                parts.1@,
                p,
            )) ==> (res matches Ok(Some(cutoff)) && takes(
            messages.deep_view(),
            parts.0,
            parts.1@,
            position,
            cutoff,
        )),
        is_limit(messages.deep_view(), parts.1@, protect_from, limit) && (forall|p: int|
            0 <= p < limit ==> !#[trigger] may_cut(messages.deep_view(), parts.0, parts.1@, p))
            ==> res matches Ok(None),
        protect_from is Some && (forall|p: int|
            0 <= p < parts.1@.len() ==> request::id_of(
                messages.deep_view()[(#[trigger] parts.1@[p]) as int].message,
            ) != protect_from->0) ==> res matches Ok(None),
{
    let history = messages.deep_view();
    let tail = message_view::tail_indices(history);
    let entries = compaction::tail_entries(history);
    assert(tail == message_view::as_positions(parts.1@));
    assert(tail.len() == parts.1@.len());
    assert forall|k: int| 0 <= k < parts.1@.len() implies entries[k]
        == history[(#[trigger] parts.1@[k]) as int] by {
        assert(tail[k] == parts.1@[k]);
    }
    match protect_from {
        Some(id) => {
            let holds = message_view::has_id(id);
            lemma_first(entries, holds, limit);
            if is_limit(history, parts.1@, protect_from, limit) {
                assert forall|i: int| 0 <= i < limit implies !holds(#[trigger] entries[i]) by {
                    assert(request::id_of(history[parts.1@[i] as int].message) != id);
                }
                assert(holds(entries[limit]));
                lemma_newest(messages, parts, limit, position);
            }
            if forall|p: int|
                0 <= p < parts.1@.len() ==> request::id_of(
                    history[(#[trigger] parts.1@[p]) as int].message,
                ) != id {
                assert forall|i: int| 0 <= i < entries.len() implies !holds(
                    #[trigger] entries[i],
                ) by {
                    assert(request::id_of(history[parts.1@[i] as int].message) != id);
                }
            }
        },
        None => {
            if is_limit(history, parts.1@, protect_from, limit) {
                lemma_newest(messages, parts, limit, position);
            }
        },
    }
}

/// A history whose visible part breaks the tool-call protocol is not compacted: the error is the one
/// that validating the visible part gives.
pub proof fn law_a_broken_history_is_not_compacted(
    messages: &[HistoryEntry],
    prefer_before_turn: Option<TurnId>,
    protect_from: Option<MessageId>,
    threshold: Option<u32>,
    res: Result<Option<Cutoff>, InvalidHistory>,
    valid: Result<(), InvalidHistory>,
)
    requires
        call_ensures(
            compaction::cutoff,
            (messages, prefer_before_turn, protect_from, threshold),
            res,
        ),
        call_ensures(message_view::validate_model_view, (messages,), valid),
    ensures
        res is Err <==> valid is Err,
        res matches Err(invalid) ==> (valid matches Err(found) && invalid@ == found@),
{
}

/// A compaction that should spare a turn cuts right before it, where the turn is visible, something
/// stands before it, the summary in force is not itself part of it, the turn has not grown past the
/// threshold, and what is left keeps the protocol. Anywhere else it cuts as it would without that wish.
pub proof fn law_a_compaction_cuts_before_the_turn_where_it_may(
    messages: &[HistoryEntry],
    turn: TurnId,
    protect_from: Option<MessageId>,
    threshold: Option<u32>,
    parts: (Option<usize>, Vec<usize>),
    visible: &Vec<&HistoryEntry>,
    grown: Option<u64>,
    res: Result<Option<Cutoff>, InvalidHistory>,
    plain: Result<Option<Cutoff>, InvalidHistory>,
    start: int,
)
    requires
        call_ensures(message_view::model_view_parts_indexed, (messages,), parts),
        call_ensures(compaction::cutoff, (messages, Some(turn), protect_from, threshold), res),
        call_ensures(compaction::cutoff, (messages, None::<TurnId>, protect_from, threshold), plain),
        call_ensures(compaction::prompt_growth, (visible, turn), grown),
        visible.deep_view().len() == parts.1@.len(),
        forall|k: int|
            0 <= k < parts.1@.len() ==> visible.deep_view()[k]
                == messages.deep_view()[(#[trigger] parts.1@[k]) as int],
        res is Ok,
        messages.deep_view().len() < usize::MAX,
    ensures
        ({
            let first = {
                &&& 0 <= start < visible.deep_view().len()
                &&& visible.deep_view()[start].turn_id == turn
                &&& forall|k: int|
                    0 <= k < start ==> (#[trigger] visible.deep_view()[k]).turn_id != turn
            };
            let spared = {
                &&& start > 0
                &&& parts.0 is Some ==> messages.deep_view()[parts.0->0 as int].turn_id != turn
                &&& threshold is Some && grown is Some ==> grown->0 < threshold->0
                &&& may_cut(messages.deep_view(), parts.0, parts.1@, start - 1)
            };
            &&& first && spared ==> (res matches Ok(Some(cutoff)) && takes(
                messages.deep_view(),
                parts.0,
                parts.1@,
                start - 1,
                cutoff,
            ))
            &&& first && !spared ==> res->Ok_0 == plain->Ok_0 && plain is Ok
            &&& (forall|k: int|
                0 <= k < visible.deep_view().len() ==> (#[trigger] visible.deep_view()[k]).turn_id
                    != turn) ==> res->Ok_0 == plain->Ok_0 && plain is Ok
        }),
{
    let history = messages.deep_view();
    let tail = message_view::tail_indices(history);
    let entries = compaction::tail_entries(history);
    assert(tail == message_view::as_positions(parts.1@));
    assert(tail.len() == parts.1@.len());
    assert forall|k: int| 0 <= k < parts.1@.len() implies #[trigger] entries[k]
        == visible.deep_view()[k] by {
        assert(tail[k] == parts.1@[k]);
    }
    assert(entries =~= visible.deep_view());
    let holds = compaction::in_turn(turn);
    lemma_first(entries, holds, start);
    if 0 < start <= parts.1@.len() {
        lemma_safe(messages, parts, start - 1);
    }
    message_view::lemma_tail_start(history);
    match message_view::summary_index(history) {
        Some(at) => {
            assert(at as usize as int == at);
        },
        None => {},
    }
    if forall|k: int| 0 <= k < entries.len() ==> (#[trigger] entries[k]).turn_id != turn {
        assert forall|i: int| 0 <= i < entries.len() implies !holds(#[trigger] entries[i]) by {}
    }
    if 0 <= start < entries.len() && entries[start].turn_id == turn && (forall|k: int|
        0 <= k < start ==> (#[trigger] entries[k]).turn_id != turn) {
        assert(holds(entries[start]));
        assert forall|i: int| 0 <= i < start implies !holds(#[trigger] entries[i]) by {}
    }
}

/// Compacting replaces the front of what the model sees: with a summary up to the planned cutoff at the
/// end of the history, the model sees the summary and then everything it saw past the cutoff.
pub proof fn law_a_compaction_replaces_what_it_covers(
    messages: &[HistoryEntry],
    after: &[HistoryEntry],
    prefer_before_turn: Option<TurnId>,
    protect_from: Option<MessageId>,
    threshold: Option<u32>,
    res: Result<Option<Cutoff>, InvalidHistory>,
    cutoff: Cutoff,
    seen: Vec<&HistoryEntry>,
    seen_after: Vec<&HistoryEntry>,
)
    requires
        call_ensures(
            compaction::cutoff,
            (messages, prefer_before_turn, protect_from, threshold),
            res,
        ),
        call_ensures(message_view::model_view, (messages,), seen),
        call_ensures(message_view::model_view, (after,), seen_after),
        res == Ok::<Option<Cutoff>, InvalidHistory>(Some(cutoff)),
        messages.deep_view().len() < usize::MAX,
        after.deep_view().len() == messages.deep_view().len() + 1,
        after.deep_view().drop_last() == messages.deep_view(),
        (after.deep_view().last().message matches MessageView::Compaction(record) && record.outcome
            == (CompactionOutcome::Summary { cutoff: cutoff.coverage_message_id })),
        forall|i: int, j: int|
            0 <= i < j < after.deep_view().len() ==> request::id_of(
                (#[trigger] after.deep_view()[i]).message,
            ) != request::id_of((#[trigger] after.deep_view()[j]).message),
    ensures
        0 < cutoff.model_view_len <= seen.deep_view().len(),
        seen_after.deep_view() == seq![after.deep_view().last()] + seen.deep_view().skip(
            cutoff.model_view_len as int,
        ),
{
    let history = messages.deep_view();
    let summary = after.deep_view().last();
    assert(after.deep_view() =~= history.push(summary));
    assert(compaction::distinct_messages(history.push(summary))) by {
        assert forall|i: int, j: int|
            0 <= i < j < after.deep_view().len() implies (
            #[trigger] after.deep_view()[i]).message.message_id() != (
            #[trigger] after.deep_view()[j]).message.message_id() by {
            assert(request::id_of(after.deep_view()[i].message) != request::id_of(
                after.deep_view()[j].message,
            ));
        }
    }
    compaction::law_compaction_replaces_the_front_of_the_view(
        history,
        prefer_before_turn,
        protect_from,
        threshold,
        cutoff,
        summary,
    );
}

/// Whether a text says some words.
pub open spec fn says(text: Seq<char>, words: Seq<char>) -> bool {
    exists|before: Seq<char>, after: Seq<char>| text == #[trigger] (before + words + after)
}

pub proof fn lemma_says(text: Seq<char>, before: Seq<char>, words: Seq<char>, after: Seq<char>)
    requires
        text =~= before + words + after,
    ensures
        says(text, words),
{
    assert(text == before + words + after);
}

pub proof fn lemma_says_within(text: Seq<char>, part: Seq<char>, words: Seq<char>)
    requires
        says(text, part),
        says(part, words),
    ensures
        says(text, words),
{
    let (b, a) = choose|before: Seq<char>, after: Seq<char>| text == #[trigger] (before + part + after);
    let (c, d) = choose|before: Seq<char>, after: Seq<char>|
        part == #[trigger] (before + words + after);
    lemma_says(text, b + c, words, d + a);
}

proof fn lemma_transcript_says(entries: Seq<HistoryEntryView>, i: int)
    requires
        0 <= i < entries.len(),
    ensures
        says(compaction::transcript_text(entries), compaction::message_text(entries[i].message)),
    decreases entries.len(),
{
    let fewer = entries.drop_last();
    let before = compaction::transcript_text(fewer);
    let all = compaction::transcript_text(entries);
    let last = compaction::message_text(entries.last().message);
    if i < fewer.len() {
        lemma_transcript_says(fewer, i);
        lemma_says(all, Seq::empty(), before, last);
        lemma_says_within(all, before, compaction::message_text(entries[i].message));
    } else {
        lemma_says(all, before, last, Seq::empty());
    }
}

proof fn lemma_parts_say(parts: Seq<ContentPartView>, i: int)
    requires
        0 <= i < parts.len(),
    ensures
        says(compaction::parts_text(parts), compaction::part_text(parts[i])),
    decreases parts.len(),
{
    let fewer = parts.drop_last();
    let before = compaction::parts_text(fewer);
    let all = compaction::parts_text(parts);
    let last = compaction::part_text(parts.last());
    if i < fewer.len() {
        lemma_parts_say(fewer, i);
        lemma_says(all, Seq::empty(), before, last);
        lemma_says_within(all, before, compaction::part_text(parts[i]));
    } else {
        lemma_says(all, before, last, Seq::empty());
    }
}

proof fn lemma_calls_say(calls: Seq<crate::llm::ToolCallView>, i: int)
    requires
        0 <= i < calls.len(),
    ensures
        says(compaction::calls_text(calls), compaction::call_text(calls[i])),
    decreases calls.len(),
{
    let fewer = calls.drop_last();
    let before = compaction::calls_text(fewer);
    let all = compaction::calls_text(calls);
    let last = compaction::call_text(calls.last());
    if i < fewer.len() {
        lemma_calls_say(fewer, i);
        lemma_says(all, Seq::empty(), before, last);
        lemma_says_within(all, before, compaction::call_text(calls[i]));
    } else {
        lemma_says(all, before, last, Seq::empty());
    }
}

/// A transcript leaves nothing out that was said: every text a user wrote, every answer with its calls
/// and their arguments, every result of a tool with the tool's name, every summary and every notice
/// stands in it, word for word.
pub proof fn law_a_transcript_says_everything(
    entries: &Vec<&HistoryEntry>,
    res: String,
    i: int,
    k: int,
)
    requires
        call_ensures(compaction::transcript, (entries,), res),
        0 <= i < entries.deep_view().len(),
    ensures
        match entries.deep_view()[i].message {
            MessageView::User(user) => 0 <= k < user.parts.len() ==> match user.parts[k] {
                ContentPartView::Text { text } => says(res@, text),
                ContentPartView::Image { .. } => says(res@, "[image attachment]\n"@),
            },
            MessageView::Assistant(assistant) => {
                &&& says(res@, assistant.content)
                &&& 0 <= k < assistant.tool_calls.len() ==> says(
                    res@,
                    "### Tool call: "@ + assistant.tool_calls[k].name,
                ) && (assistant.tool_calls[k].arguments is Some ==> says(
                    res@,
                    assistant.tool_calls[k].name + " "@ + assistant.tool_calls[k].arguments->0,
                ))
                &&& assistant.aborted ==> says(res@, "[the user interrupted this]"@)
            },
            MessageView::Tool(tool) => match tool.output {
                ToolOutputView::Success(text) => says(
                    res@,
                    "### Tool result: "@ + tool.name + "\n"@ + text,
                ),
                ToolOutputView::Failure(reason) => says(
                    res@,
                    "### Tool error: "@ + tool.name + "\n"@ + reason,
                ),
            },
            MessageView::Compaction(record) => says(res@, record.content),
            MessageView::TaskNotice(notice) => says(res@, notice.content),
        },
{
    let all = entries.deep_view();
    let message = all[i].message;
    let own = compaction::message_text(message);
    lemma_transcript_says(all, i);
    match message {
        MessageView::User(user) => {
            if 0 <= k < user.parts.len() {
                let parts = compaction::parts_text(user.parts);
                let part = compaction::part_text(user.parts[k]);
                lemma_parts_say(user.parts, k);
                lemma_says(own, "\n## User\n"@, parts, Seq::empty());
                lemma_says_within(res@, own, parts);
                lemma_says_within(res@, parts, part);
                match user.parts[k] {
                    ContentPartView::Text { text } => {
                        lemma_says(part, Seq::empty(), text, "\n"@);
                        lemma_says_within(res@, part, text);
                    },
                    ContentPartView::Image { .. } => {},
                }
            }
        },
        MessageView::Assistant(assistant) => {
            let head = "\n## Assistant\n"@;
            let calls = compaction::calls_text(assistant.tool_calls);
            let words = if assistant.content.len() == 0 {
                Seq::<char>::empty()
            } else {
                assistant.content + "\n"@
            };
            let mark = if assistant.aborted {
                "\n[the user interrupted this]\n"@
            } else {
                Seq::<char>::empty()
            };
            assert(own =~= head + words + calls + mark);
            lemma_says(own, head, words, calls + mark);
            lemma_says_within(res@, own, words);
            if assistant.content.len() == 0 {
                assert(assistant.content =~= Seq::<char>::empty());
            } else {
                lemma_says(words, Seq::empty(), assistant.content, "\n"@);
                lemma_says_within(res@, words, assistant.content);
            }
            lemma_says(own, head + words, calls, mark);
            lemma_says_within(res@, own, calls);
            if 0 <= k < assistant.tool_calls.len() {
                let call = assistant.tool_calls[k];
                let text = compaction::call_text(call);
                let arguments = match call.arguments {
                    Some(arguments) => arguments,
                    None => "{}"@,
                };
                lemma_calls_say(assistant.tool_calls, k);
                lemma_says_within(res@, calls, text);
                reveal_strlit("\n### Tool call: ");
                reveal_strlit("### Tool call: ");
                assert("\n### Tool call: "@ =~= seq!['\n'] + "### Tool call: "@);
                lemma_says(
                    text,
                    seq!['\n'],
                    "### Tool call: "@ + call.name,
                    " "@ + arguments + "\n"@,
                );
                lemma_says_within(res@, text, "### Tool call: "@ + call.name);
                lemma_says(
                    text,
                    seq!['\n'] + "### Tool call: "@,
                    call.name + " "@ + arguments,
                    "\n"@,
                );
                lemma_says_within(res@, text, call.name + " "@ + arguments);
            }
            if assistant.aborted {
                reveal_strlit("\n[the user interrupted this]\n");
                reveal_strlit("[the user interrupted this]");
                lemma_says(mark, seq!['\n'], "[the user interrupted this]"@, seq!['\n']);
                lemma_says(own, head + words + calls, mark, Seq::empty());
                lemma_says_within(res@, own, mark);
                lemma_says_within(res@, mark, "[the user interrupted this]"@);
            }
        },
        MessageView::Tool(tool) => {
            reveal_strlit("\n### Tool ");
            reveal_strlit("result");
            reveal_strlit("error");
            reveal_strlit(": ");
            reveal_strlit("### Tool result: ");
            reveal_strlit("### Tool error: ");
            match tool.output {
                ToolOutputView::Success(text) => {
                    assert("\n### Tool "@ + "result"@ + ": "@ =~= seq!['\n']
                        + "### Tool result: "@);
                    lemma_says(
                        own,
                        seq!['\n'],
                        "### Tool result: "@ + tool.name + "\n"@ + text,
                        "\n"@,
                    );
                    lemma_says_within(
                        res@,
                        own,
                        "### Tool result: "@ + tool.name + "\n"@ + text,
                    );
                },
                ToolOutputView::Failure(reason) => {
                    assert("\n### Tool "@ + "error"@ + ": "@ =~= seq!['\n'] + "### Tool error: "@);
                    lemma_says(
                        own,
                        seq!['\n'],
                        "### Tool error: "@ + tool.name + "\n"@ + reason,
                        "\n"@,
                    );
                    lemma_says_within(
                        res@,
                        own,
                        "### Tool error: "@ + tool.name + "\n"@ + reason,
                    );
                },
            }
        },
        MessageView::Compaction(record) => {
            lemma_says(
                own,
                "\n## Summary of the conversation so far\n"@,
                record.content,
                "\n"@,
            );
            lemma_says_within(res@, own, record.content);
        },
        MessageView::TaskNotice(notice) => {
            lemma_says(own, "\n## User\n"@, notice.content, "\n"@);
            lemma_says_within(res@, own, notice.content);
        },
    }
}

/// How a message stands in a transcript: under a heading that says who spoke, with a line end behind it.
pub proof fn law_how_a_message_stands_in_a_transcript(entries: &Vec<&HistoryEntry>, res: String)
    requires
        call_ensures(compaction::transcript, (entries,), res),
        entries.deep_view().len() == 1,
    ensures
        match entries.deep_view()[0].message {
            MessageView::User(user) => {
                &&& user.parts.len() == 1 ==> match user.parts[0] {
                    ContentPartView::Text { text } => res@ == "\n## User\n"@ + text + "\n"@,
                    ContentPartView::Image { .. } => res@ == "\n## User\n"@
                        + "[image attachment]\n"@,
                }
                &&& "\n## User\n"@.is_prefix_of(res@)
            },
            MessageView::Assistant(assistant) => {
                &&& assistant.tool_calls.len() == 0 && assistant.content.len() > 0
                    && !assistant.aborted ==> res@ == "\n## Assistant\n"@ + assistant.content
                    + "\n"@
                &&& assistant.tool_calls.len() == 0 && assistant.content.len() > 0
                    && assistant.aborted ==> res@ == "\n## Assistant\n"@ + assistant.content
                    + "\n"@ + "\n[the user interrupted this]\n"@
                &&& "\n## Assistant\n"@.is_prefix_of(res@)
            },
            MessageView::Tool(tool) => match tool.output {
                ToolOutputView::Success(text) => res@ == "\n### Tool "@ + "result"@ + ": "@
                    + tool.name + "\n"@ + text + "\n"@,
                ToolOutputView::Failure(reason) => res@ == "\n### Tool "@ + "error"@ + ": "@
                    + tool.name + "\n"@ + reason + "\n"@,
            },
            MessageView::Compaction(record) => res@
                == "\n## Summary of the conversation so far\n"@ + record.content + "\n"@,
            MessageView::TaskNotice(notice) => res@ == "\n## User\n"@ + notice.content + "\n"@,
        },
{
    let all = entries.deep_view();
    let message = all[0].message;
    assert(all.last() == all[0]);
    assert(all.drop_last() =~= Seq::empty());
    assert(compaction::transcript_text(all.drop_last()) =~= Seq::<char>::empty());
    assert(res@ =~= compaction::message_text(message));
    match message {
        MessageView::User(user) => {
            let head = "\n## User\n"@;
            assert(res@.subrange(0, head.len() as int) =~= head);
            if user.parts.len() == 1 {
                assert(user.parts.drop_last() =~= Seq::empty());
                assert(user.parts.last() == user.parts[0]);
                assert(compaction::parts_text(user.parts.drop_last()) =~= Seq::<char>::empty());
                assert(compaction::parts_text(user.parts) =~= compaction::part_text(
                    user.parts[0],
                ));
            }
        },
        MessageView::Assistant(assistant) => {
            let head = "\n## Assistant\n"@;
            assert(res@.subrange(0, head.len() as int) =~= head);
        },
        _ => {},
    }
}

/// The transcript of two lists in a row is that of the first and then that of the second, so what was
/// said first stands first.
pub proof fn law_a_transcript_keeps_the_order(
    first: &Vec<&HistoryEntry>,
    rest: &Vec<&HistoryEntry>,
    both: &Vec<&HistoryEntry>,
    of_first: String,
    of_rest: String,
    of_both: String,
)
    requires
        call_ensures(compaction::transcript, (first,), of_first),
        call_ensures(compaction::transcript, (rest,), of_rest),
        call_ensures(compaction::transcript, (both,), of_both),
        both.deep_view() == first.deep_view() + rest.deep_view(),
    ensures
        of_both@ == of_first@ + of_rest@,
{
    compaction::law_a_transcript_is_written_entry_by_entry(first.deep_view(), rest.deep_view());
}

/// A summary is asked of the chosen model with nothing but its instructions and the transcript: the
/// prompt leads, then the user's part says what was added and everything that was said. No tools are
/// offered, and the limits are those given.
pub proof fn law_a_summary_is_asked_of_the_whole_transcript(
    model: String,
    max_completion_tokens: Option<u32>,
    reasoning_effort: Option<String>,
    entries: &Vec<&HistoryEntry>,
    instructions: &str,
    prompt: &str,
    res: ChatCompletionRequest,
    written: String,
)
    requires
        call_ensures(
            compaction::summary_request,
            (model, max_completion_tokens, reasoning_effort, entries, instructions, prompt),
            res,
        ),
        call_ensures(compaction::transcript, (entries,), written),
    ensures
        res@.model == model@,
        res@.max_completion_tokens == max_completion_tokens,
        res@.reasoning_effort == reasoning_effort.deep_view(),
        res@.tools.len() == 0,
        res@.messages.len() == 2,
        res@.messages[0] matches RequestMessageView::System(system) && system.text == prompt@,
        res@.messages[1] matches RequestMessageView::User(user) && user.parts.len() == 1 && (
        user.parts[0] matches ContentPartView::Text { text } && says(text, written@) && says(
            text,
            instructions@,
        ) && (instructions@.len() == 0 ==> text == "<transcript>\n"@ + written@
            + "</transcript>\n"@) && (instructions@.len() > 0 ==> text
            == "The user asked for this compaction and added the following. Follow it where it narrows what to keep, but never at the cost of leaving the agent unable to resume:\n"@
            + instructions@ + "\n\n"@ + "<transcript>\n"@ + written@ + "</transcript>\n"@)),
{
    let id = choose|id: MessageId|
        ids::is_random_uuid(id.value) && res@ == #[trigger] compaction::summary_request_of(
            id,
            model@,
            max_completion_tokens,
            reasoning_effort.deep_view(),
            entries.deep_view(),
            instructions@,
            prompt@,
        );
    let text = compaction::summary_task(entries.deep_view(), instructions@);
    let ask =
        "The user asked for this compaction and added the following. Follow it where it narrows what to keep, but never at the cost of leaving the agent unable to resume:\n"@;
    let before = if instructions@.len() == 0 {
        Seq::<char>::empty()
    } else {
        ask + instructions@ + "\n\n"@
    };
    lemma_says(text, before + "<transcript>\n"@, written@, "</transcript>\n"@);
    if instructions@.len() == 0 {
        assert(text =~= "<transcript>\n"@ + written@ + "</transcript>\n"@);
        lemma_says(text, Seq::empty(), instructions@, text);
    } else {
        lemma_says(
            text,
            ask,
            instructions@,
            "\n\n"@ + "<transcript>\n"@ + written@ + "</transcript>\n"@,
        );
    }
}

/// The record of a summary covers what the cutoff says, and ends with the summary as it was given. One
/// that a user asked for with instructions says them.
pub proof fn law_a_summary_is_recorded_as_given(
    cutoff: MessageId,
    trigger: Trigger,
    summary: &str,
    res: Message,
)
    requires
        call_ensures(compaction::summary_message, (cutoff, trigger, summary), res),
    ensures
        res@ matches MessageView::Compaction(record) && {
            &&& record.outcome == (CompactionOutcome::Summary { cutoff })
            &&& says(record.content, summary@)
            &&& trigger is Auto ==> record.content
                == "[compacted automatically: token usage reached the configured limit]\n\n"@
                + summary@
            &&& trigger matches Trigger::Manual { instructions } ==> (instructions@.len() == 0
                ==> record.content == summary@) && (instructions@.len() > 0 ==> record.content
                == "[compacted at the user's request: "@ + instructions@ + "]\n\n"@ + summary@)
        },
{
    match res@ {
        MessageView::Compaction(record) => {
            match trigger {
                Trigger::Manual { instructions } => {
                    if instructions@.len() == 0 {
                        lemma_says(record.content, Seq::empty(), summary@, Seq::empty());
                        lemma_says(record.content, Seq::empty(), instructions@, record.content);
                    } else {
                        let head = "[compacted at the user's request: "@;
                        lemma_says(
                            record.content,
                            head + instructions@ + "]\n\n"@,
                            summary@,
                            Seq::empty(),
                        );
                        lemma_says(
                            record.content,
                            head,
                            instructions@,
                            "]\n\n"@ + summary@,
                        );
                    }
                },
                Trigger::Auto => {
                    lemma_says(
                        record.content,
                        "[compacted automatically: token usage reached the configured limit]\n\n"@,
                        summary@,
                        Seq::empty(),
                    );
                },
            }
        },
        _ => {},
    }
}

/// The record of a failed compaction covers nothing and says why it failed.
pub proof fn law_a_failed_compaction_says_why(reason: &str, res: Message)
    requires
        call_ensures(compaction::failure_message, (reason,), res),
    ensures
        res@ matches MessageView::Compaction(record) && record.outcome is Failed
            && record.content == "Compaction failed, so the conversation was left as it is: "@
            + reason@,
{
}

/// A compaction that a user asked for is recorded as the line that user typed.
pub proof fn law_the_command_is_recorded_as_typed(instructions: &str, res: Message)
    requires
        call_ensures(compaction::command_message, (instructions,), res),
    ensures
        res@ matches MessageView::User(user) && user.parts.len() == 1 && (user.parts[0] matches ContentPartView::Text {
            text,
        } && (instructions@.len() == 0 ==> text == "/compact"@) && (instructions@.len() > 0 ==> text
            == "/compact "@ + instructions@)),
{
}

}
