//! Which histories a provider accepts.

use crate::ids::{self, MessageId};
use crate::laws::compaction;
use crate::llm::{Message, MessageView};
use crate::message_view::{self, InvalidHistory, InvalidHistoryView, OpenBatch};
use crate::text;
use vstd::prelude::*;

verus! {

/// Whether only results stand behind a message up to a place, that place included.
pub open spec fn follows(messages: Seq<MessageView>, i: int, j: int) -> bool {
    0 <= i < j < messages.len() && forall|k: int|
        i < k <= j ==> (#[trigger] messages[k]) is Tool
}

/// Whether a message asks for a call with this id.
pub open spec fn asks_for(message: MessageView, id: Seq<char>) -> bool {
    let calls = message->Assistant_0.tool_calls;
    exists|k: int| 0 <= k < calls.len() && (#[trigger] calls[k]).id == id
}

/// Whether a result with this id stands right behind a message, with only results between.
pub open spec fn has_result(messages: Seq<MessageView>, i: int, id: Seq<char>) -> bool {
    exists|j: int| #[trigger] follows(messages, i, j) && messages[j]->Tool_0.id == id
}

/// Whether a message asks for calls, and each has exactly one result right behind it, where no other
/// result stands.
pub open spec fn is_answered(messages: Seq<MessageView>, i: int) -> bool {
    let calls = messages[i]->Assistant_0.tool_calls;
    &&& forall|k: int, l: int|
        0 <= k < l < calls.len() ==> (#[trigger] calls[k]).id != (#[trigger] calls[l]).id
    &&& forall|k: int|
        0 <= k < calls.len() ==> has_result(messages, i, (#[trigger] calls[k]).id)
    &&& forall|j: int| #[trigger]
        follows(messages, i, j) ==> asks_for(messages[i], messages[j]->Tool_0.id)
    &&& forall|j: int, l: int|
        j < l && #[trigger] follows(messages, i, j) && #[trigger] follows(messages, i, l)
            ==> messages[j]->Tool_0.id != messages[l]->Tool_0.id
}

/// Whether a message asks for calls.
pub open spec fn asks(message: MessageView) -> bool {
    message is Assistant && message->Assistant_0.tool_calls.len() > 0
}

proof fn lemma_leading(messages: Seq<MessageView>)
    ensures
        ({
            let results = message_view::leading_results(messages);
            &&& results.len() <= messages.len()
            &&& forall|k: int|
                0 <= k < results.len() ==> (#[trigger] messages[k]) is Tool
                    && messages[k]->Tool_0.id == results[k]
            &&& results.len() < messages.len() ==> !(messages[results.len() as int] is Tool)
        }),
    decreases messages.len(),
{
    let results = message_view::leading_results(messages);
    if messages.len() > 0 {
        match messages[0] {
            MessageView::Tool(tool) => {
                let rest = messages.drop_first();
                let later = message_view::leading_results(rest);
                lemma_leading(rest);
                assert(results == seq![tool.id] + later);
                assert forall|k: int| 0 <= k < results.len() implies (#[trigger] messages[k]) is Tool
                    && messages[k]->Tool_0.id == results[k] by {
                    if k > 0 {
                        assert(results[k] == later[k - 1]);
                        assert(rest[k - 1] == messages[k]);
                    }
                }
                assert(results.len() == later.len() + 1);
                if results.len() < messages.len() {
                    assert(rest[later.len() as int] == messages[later.len() as int + 1]);
                }
            },
            _ => {
                assert(results.len() == 0);
                assert(!(messages[0] is Tool));
            },
        }
    }
}

/// Where the results right behind a message stand.
proof fn lemma_results(messages: Seq<MessageView>, i: int)
    requires
        0 <= i < messages.len(),
    ensures
        ({
            let results = message_view::leading_results(messages.skip(i + 1));
            &&& forall|j: int| #[trigger]
                follows(messages, i, j) <==> i < j <= i + results.len()
            &&& forall|k: int|
                0 <= k < results.len() ==> messages[i + 1 + k]->Tool_0.id == #[trigger] results[k]
        }),
{
    let rest = messages.skip(i + 1);
    let results = message_view::leading_results(rest);
    let n = results.len() as int;
    lemma_leading(rest);
    assert forall|k: int| 0 <= k < n implies messages[i + 1 + k]->Tool_0.id
        == #[trigger] results[k] by {
        assert(rest[k] == messages[i + 1 + k]);
    }
    assert forall|j: int| #[trigger] follows(messages, i, j) <==> i < j <= i + n by {
        if follows(messages, i, j) && j > i + n {
            assert(rest[n] == messages[i + 1 + n]);
            assert(messages[i + 1 + n] is Tool);
        }
        if i < j <= i + n {
            assert forall|k: int| i < k <= j implies (#[trigger] messages[k]) is Tool by {
                let p = k - i - 1;
                assert(rest[p] == messages[k]);
                assert(rest[p]->Tool_0.id == results[p]);
            }
        }
    }
}

proof fn lemma_answered(messages: Seq<MessageView>, i: int)
    requires
        0 <= i < messages.len(),
        asks(messages[i]),
        message_view::batch_answered(messages, i),
    ensures
        is_answered(messages, i),
{
    let calls = messages[i]->Assistant_0.tool_calls;
    let ids = message_view::call_ids(messages[i]->Assistant_0);
    let results = message_view::leading_results(messages.skip(i + 1));
    lemma_results(messages, i);
    assert forall|k: int| 0 <= k < calls.len() implies ids[k] == (#[trigger] calls[k]).id by {}
    assert forall|k: int, l: int| 0 <= k < l < calls.len() implies (#[trigger] calls[k]).id != (
    #[trigger] calls[l]).id by {
        assert(ids[k] != ids[l]);
    }
    assert forall|k: int| 0 <= k < calls.len() implies has_result(
        messages,
        i,
        (#[trigger] calls[k]).id,
    ) by {
        assert(ids.contains(ids[k]));
        assert(ids.to_set().contains(ids[k]));
        assert(results.to_set().contains(ids[k]));
        let p = results.index_of(ids[k]);
        assert(messages[i + 1 + p]->Tool_0.id == results[p]);
        assert(follows(messages, i, i + 1 + p));
    }
    assert forall|j: int| #[trigger] follows(messages, i, j) implies asks_for(
        messages[i],
        messages[j]->Tool_0.id,
    ) by {
        let p = j - i - 1;
        assert(results[p] == messages[i + 1 + p]->Tool_0.id);
        assert(results.contains(results[p]));
        assert(results.to_set().contains(results[p]));
        assert(ids.to_set().contains(results[p]));
        let k = ids.index_of(results[p]);
        assert(calls[k].id == ids[k]);
    }
    assert forall|j: int, l: int|
        j < l && #[trigger] follows(messages, i, j) && #[trigger] follows(
            messages,
            i,
            l,
        ) implies messages[j]->Tool_0.id != messages[l]->Tool_0.id by {
        let p = j - i - 1;
        let q = l - i - 1;
        assert(results[p] == messages[i + 1 + p]->Tool_0.id);
        assert(results[q] == messages[i + 1 + q]->Tool_0.id);
        assert(results[p] != results[q]);
    }
}

proof fn lemma_answered_batch(messages: Seq<MessageView>, i: int)
    requires
        0 <= i < messages.len(),
        asks(messages[i]),
        is_answered(messages, i),
    ensures
        message_view::batch_answered(messages, i),
{
    let calls = messages[i]->Assistant_0.tool_calls;
    let ids = message_view::call_ids(messages[i]->Assistant_0);
    let results = message_view::leading_results(messages.skip(i + 1));
    lemma_results(messages, i);
    assert forall|k: int| 0 <= k < calls.len() implies ids[k] == (#[trigger] calls[k]).id by {}
    assert forall|k: int, l: int| 0 <= k < ids.len() && 0 <= l < ids.len() && k != l implies ids[k]
        != ids[l] by {
        if k < l {
            assert(calls[k].id != calls[l].id);
        } else {
            assert(calls[l].id != calls[k].id);
        }
    }
    assert forall|k: int, l: int|
        0 <= k < results.len() && 0 <= l < results.len() && k != l implies results[k]
        != results[l] by {
        assert(follows(messages, i, i + 1 + k) && follows(messages, i, i + 1 + l));
        assert(messages[i + 1 + k]->Tool_0.id == results[k]);
        assert(messages[i + 1 + l]->Tool_0.id == results[l]);
    }
    assert forall|id: Seq<char>| results.to_set().contains(id) == ids.to_set().contains(id) by {
        if results.contains(id) {
            let p = results.index_of(id);
            assert(messages[i + 1 + p]->Tool_0.id == results[p]);
            assert(follows(messages, i, i + 1 + p));
            assert(asks_for(messages[i], id));
            let k = choose|k: int| 0 <= k < calls.len() && (#[trigger] calls[k]).id == id;
            assert(ids[k] == id);
        }
        if ids.contains(id) {
            let k = ids.index_of(id);
            assert(calls[k].id == id);
            assert(has_result(messages, i, id));
            let j = choose|j: int| #[trigger]
                follows(messages, i, j) && messages[j]->Tool_0.id == id;
            let p = j - i - 1;
            assert(messages[i + 1 + p]->Tool_0.id == results[p]);
        }
    }
    assert(results.to_set() =~= ids.to_set());
}

/// A history is accepted exactly where every call has its one result right behind the message that asks
/// for it, no call id is asked for twice in a message, and no result stands anywhere else.
pub proof fn law_which_histories_are_accepted(
    messages: &Vec<&Message>,
    res: Result<(), InvalidHistory>,
)
    requires
        call_ensures(message_view::validate_messages, (messages,), res),
    ensures
        res is Ok <==> {
            &&& forall|i: int|
                0 <= i < messages.deep_view().len() && asks(#[trigger] messages.deep_view()[i])
                    ==> is_answered(messages.deep_view(), i)
            &&& forall|i: int|
                0 <= i < messages.deep_view().len() && (
                #[trigger] messages.deep_view()[i]) is Tool ==> 0 < i && (messages.deep_view()[i
                    - 1] is Tool || asks(messages.deep_view()[i - 1]))
        },
{
    let all = messages.deep_view();
    message_view::law_validation_accepts_exactly_the_protocol(all);
    assert forall|i: int| 0 <= i < all.len() implies message_view::asks_for_calls(
        #[trigger] all[i],
    ) == asks(all[i]) by {}
    assert forall|i: int|
        0 <= i < all.len() && asks(#[trigger] all[i]) implies message_view::batch_answered(all, i)
        == is_answered(all, i) by {
        if message_view::batch_answered(all, i) {
            lemma_answered(all, i);
        }
        if is_answered(all, i) {
            lemma_answered_batch(all, i);
        }
    }
    if message_view::well_paired(all) {
        assert forall|i: int| 0 <= i < all.len() && (#[trigger] all[i]) is Tool implies 0 < i && (
        all[i - 1] is Tool || asks(all[i - 1])) by {
            assert(message_view::asks_for_calls(all[i - 1]) == asks(all[i - 1]) || i == 0);
        }
        assert forall|i: int| 0 <= i < all.len() && asks(#[trigger] all[i]) implies is_answered(
            all,
            i,
        ) by {
            assert(message_view::asks_for_calls(all[i]));
        }
    }
    if (forall|i: int| 0 <= i < all.len() && asks(#[trigger] all[i]) ==> is_answered(all, i)) && (
    forall|i: int|
        0 <= i < all.len() && (#[trigger] all[i]) is Tool ==> 0 < i && (all[i - 1] is Tool || asks(
            all[i - 1],
        ))) {
        assert forall|i: int|
            0 <= i < all.len() && message_view::asks_for_calls(
                #[trigger] all[i],
            ) implies message_view::batch_answered(all, i) by {
            assert(asks(all[i]));
        }
        assert forall|i: int| 0 < i < all.len() && (#[trigger] all[i]) is Tool implies all[i
            - 1] is Tool || message_view::asks_for_calls(all[i - 1]) by {
            assert(asks(all[i - 1]) == message_view::asks_for_calls(all[i - 1]));
        }
        if all.len() > 0 {
            assert(!(all[0] is Tool));
        }
    }
}

/// Whether a message is the answer that a missing result is charged to.
pub open spec fn asked_all(message: MessageView, id: MessageId, missing: Seq<Seq<char>>) -> bool {
    &&& message is Assistant
    &&& message->Assistant_0.message_id == id
    &&& forall|m: int| 0 <= m < missing.len() ==> asks_for(message, #[trigger] missing[m])
}

/// Whether an error speaks of the messages: of a result that is there, of a call id that one message
/// repeats, or of calls that one message asks for.
pub open spec fn speaks_of(messages: Seq<MessageView>, invalid: InvalidHistoryView) -> bool {
    match invalid {
        InvalidHistoryView::OrphanToolResult { message_id, call_id } => exists|i: int|
            0 <= i < messages.len() && (#[trigger] messages[i]) is Tool
                && messages[i]->Tool_0.message_id == message_id && messages[i]->Tool_0.id
                == call_id,
        InvalidHistoryView::DuplicateToolResult { message_id, call_id } => exists|i: int|
            0 <= i < messages.len() && (#[trigger] messages[i]) is Tool
                && messages[i]->Tool_0.message_id == message_id && messages[i]->Tool_0.id
                == call_id,
        InvalidHistoryView::DuplicateToolCall { message_id, call_id } => exists|i: int|
            0 <= i < messages.len() && (#[trigger] messages[i]) is Assistant
                && messages[i]->Assistant_0.message_id == message_id && repeats(
                messages[i],
                call_id,
            ),
        InvalidHistoryView::IncompleteToolBatch { assistant_message_id, missing_call_ids } =>
            missing_call_ids.len() > 0 && exists|i: int|
            0 <= i < messages.len() && asked_all(
                #[trigger] messages[i],
                assistant_message_id,
                missing_call_ids,
            ),
    }
}

/// Whether a message asks for a call id twice.
pub open spec fn repeats(message: MessageView, id: Seq<char>) -> bool {
    let calls = message->Assistant_0.tool_calls;
    exists|k: int, l: int|
        0 <= k < l < calls.len() && (#[trigger] calls[k]).id == id && (#[trigger] calls[l]).id
            == id
}

proof fn lemma_repeat(ids: Seq<Seq<char>>)
    ensures
        message_view::first_repeat(ids) matches Some(id) ==> exists|k: int, l: int|
            0 <= k < l < ids.len() && (#[trigger] ids[k]) == id && (#[trigger] ids[l]) == id,
    decreases ids.len(),
{
    if ids.len() > 0 {
        let fewer = ids.drop_last();
        lemma_repeat(fewer);
        match message_view::first_repeat(fewer) {
            Some(id) => {
                let (k, l) = choose|k: int, l: int|
                    0 <= k < l < fewer.len() && (#[trigger] fewer[k]) == id && (
                    #[trigger] fewer[l]) == id;
                assert(ids[k] == id && ids[l] == id);
            },
            None => {
                if fewer.contains(ids.last()) {
                    let k = fewer.index_of(ids.last());
                    let l = ids.len() - 1;
                    assert(ids[k] == ids[l]);
                }
            },
        }
    }
}

proof fn lemma_missing(open: OpenBatch, id: Seq<char>)
    ensures
        message_view::missing_calls(open).contains(id) ==> open.expected.contains(id),
{
    let lacks = |id: Seq<char>| !open.answered.contains(id);
    let missing = open.expected.filter(lacks);
    text::lemma_sorted_contains(missing, id);
    if missing.contains(id) {
        open.expected.lemma_filter_contains_rev(lacks, id);
    }
}

proof fn lemma_batch_end(messages: Seq<MessageView>, batch: Option<OpenBatch>, owner: int)
    requires
        batch matches Some(open) ==> {
            &&& 0 <= owner < messages.len()
            &&& messages[owner] is Assistant
            &&& messages[owner]->Assistant_0.message_id == open.assistant_message_id
            &&& open.expected == message_view::call_ids(messages[owner]->Assistant_0)
        },
    ensures
        message_view::batch_end(batch) matches Err(invalid) ==> speaks_of(messages, invalid),
{
    match batch {
        Some(open) => {
            let missing = message_view::missing_calls(open);
            let calls = messages[owner]->Assistant_0.tool_calls;
            if missing.len() > 0 {
                assert forall|m: int| 0 <= m < missing.len() implies asks_for(
                    messages[owner],
                    #[trigger] missing[m],
                ) by {
                    assert(missing.contains(missing[m]));
                    lemma_missing(open, missing[m]);
                    let k = open.expected.index_of(missing[m]);
                    assert(calls[k].id == open.expected[k]);
                }
                assert(asked_all(messages[owner], open.assistant_message_id, missing));
            }
        },
        None => {},
    }
}

proof fn lemma_error(messages: Seq<MessageView>, n: int, batch: Option<OpenBatch>, owner: int)
    requires
        0 <= n <= messages.len(),
        batch matches Some(open) ==> {
            &&& 0 <= owner < messages.len()
            &&& messages[owner] is Assistant
            &&& messages[owner]->Assistant_0.message_id == open.assistant_message_id
            &&& open.expected == message_view::call_ids(messages[owner]->Assistant_0)
        },
    ensures
        message_view::check_messages(batch, messages.skip(n)) matches Err(invalid) ==> speaks_of(
            messages,
            invalid,
        ),
    decreases messages.len() - n,
{
    let rest = messages.skip(n);
    lemma_batch_end(messages, batch, owner);
    if n < messages.len() {
        let message = messages[n];
        assert(rest[0] == message);
        assert(rest.drop_first() =~= messages.skip(n + 1));
        match message_view::check_message(batch, message) {
            Ok(next) => {
                let now = if message is Assistant {
                    n
                } else {
                    owner
                };
                lemma_error(messages, n + 1, next, now);
            },
            Err(invalid) => {
                match message {
                    MessageView::Assistant(assistant) => {
                        let ids = message_view::call_ids(assistant);
                        lemma_repeat(ids);
                        match message_view::first_repeat(ids) {
                            Some(id) => {
                                let (k, l) = choose|k: int, l: int|
                                    0 <= k < l < ids.len() && (#[trigger] ids[k]) == id && (
                                    #[trigger] ids[l]) == id;
                                assert(assistant.tool_calls[k].id == id);
                                assert(assistant.tool_calls[l].id == id);
                                assert(repeats(message, id));
                            },
                            None => {},
                        }
                    },
                    MessageView::Tool(tool) => {
                        assert(messages[n] is Tool);
                    },
                    _ => {},
                }
            },
        }
    }
}

proof fn lemma_joined(texts: Seq<Seq<char>>, separator: Seq<char>, k: int)
    requires
        0 <= k < texts.len(),
    ensures
        compaction::says(text::joined(texts, separator), texts[k]),
    decreases texts.len(),
{
    let all = text::joined(texts, separator);
    if texts.len() == 1 {
        compaction::lemma_says(all, Seq::empty(), texts[k], Seq::empty());
    } else {
        let fewer = texts.drop_last();
        let before = text::joined(fewer, separator);
        if k < fewer.len() {
            lemma_joined(fewer, separator, k);
            compaction::lemma_says(all, Seq::empty(), before, separator + texts.last());
            compaction::lemma_says_within(all, before, texts[k]);
        } else {
            compaction::lemma_says(all, before + separator, texts[k], Seq::empty());
        }
    }
}

/// An error in words names the message and the calls it is about.
pub proof fn law_an_error_is_put_in_words(invalid: &InvalidHistory, res: String, k: int)
    requires
        call_ensures(InvalidHistory::describe, (invalid,), res),
    ensures
        match invalid@ {
            InvalidHistoryView::OrphanToolResult { message_id, call_id } => res@
                == "tool result "@ + ids::uuid_text(message_id.value) + " references call '"@
                + call_id + "' without a matching assistant batch"@,
            InvalidHistoryView::DuplicateToolCall { message_id, call_id } => res@
                == "assistant message "@ + ids::uuid_text(message_id.value)
                + " declares tool call '"@ + call_id + "' more than once"@,
            InvalidHistoryView::DuplicateToolResult { message_id, call_id } => res@
                == "tool result "@ + ids::uuid_text(message_id.value) + " answers call '"@
                + call_id + "' more than once"@,
            InvalidHistoryView::IncompleteToolBatch { assistant_message_id, missing_call_ids } => {
                &&& compaction::says(
                    res@,
                    "assistant message "@ + ids::uuid_text(assistant_message_id.value)
                        + " is missing results for calls: "@,
                )
                &&& 0 <= k < missing_call_ids.len() ==> compaction::says(res@, missing_call_ids[k])
            },
        },
{
    match invalid@ {
        InvalidHistoryView::IncompleteToolBatch { assistant_message_id, missing_call_ids } => {
            let head = "assistant message "@ + ids::uuid_text(assistant_message_id.value)
                + " is missing results for calls: "@;
            let listed = text::joined(missing_call_ids, ", "@);
            compaction::lemma_says(res@, Seq::empty(), head, listed);
            if 0 <= k < missing_call_ids.len() {
                lemma_joined(missing_call_ids, ", "@, k);
                compaction::lemma_says(res@, head, listed, Seq::empty());
                compaction::lemma_says_within(res@, listed, missing_call_ids[k]);
            }
        },
        _ => {},
    }
}

/// An error says what is wrong with the history: it names a result that stands in it, a call id that one
/// of its messages repeats, or a message of it and calls that the message asks for.
pub proof fn law_an_error_speaks_of_the_history(
    messages: &Vec<&Message>,
    res: Result<(), InvalidHistory>,
)
    requires
        call_ensures(message_view::validate_messages, (messages,), res),
    ensures
        res matches Err(invalid) ==> speaks_of(messages.deep_view(), invalid@),
{
    assert(messages.deep_view().skip(0) =~= messages.deep_view());
    lemma_error(messages.deep_view(), 0, None, 0);
}

}
