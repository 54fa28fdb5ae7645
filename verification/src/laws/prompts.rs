//! How a prompt is filled in.

use crate::prompt::{self, PromptStore, SharedSystemPrompt, SystemPrompt};
use vstd::prelude::*;

verus! {

/// Whether a text is blank: spaces, tabs and line ends only.
pub open spec fn is_blank(text: Seq<char>) -> bool {
    forall|i: int|
        0 <= i < text.len() ==> (#[trigger] text[i]) == ' ' || text[i] == '\t' || text[i] == '\n'
            || text[i] == '\r'
}

/// Whether a text can name a variable: letters, digits and underscores, at least one.
pub open spec fn is_word(text: Seq<char>) -> bool {
    text.len() > 0 && forall|i: int|
        0 <= i < text.len() ==> 'a' <= (#[trigger] text[i]) <= 'z' || 'A' <= text[i] <= 'Z' || '0'
            <= text[i] <= '9' || text[i] == '_'
}

/// Whether a text has no opening brace in it.
pub open spec fn is_plain(text: Seq<char>) -> bool {
    forall|i: int| 0 <= i < text.len() ==> (#[trigger] text[i]) != '{'
}

proof fn lemma_plain_prefix(
    before: Seq<char>,
    rest: Seq<char>,
    vars: Seq<(Seq<char>, Seq<char>)>,
)
    requires
        is_plain(before),
    ensures
        prompt::substituted(before + rest, vars) == before + prompt::substituted(rest, vars),
    decreases before.len(),
{
    let all = before + rest;
    if before.len() == 0 {
        assert(all =~= rest);
        assert(before + prompt::substituted(rest, vars) =~= prompt::substituted(rest, vars));
    } else {
        let less = before.drop_first();
        assert(all[0] == before[0]);
        assert(all.drop_first() =~= less + rest);
        assert forall|i: int| 0 <= i < less.len() implies (#[trigger] less[i]) != '{' by {
            assert(less[i] == before[i + 1]);
        }
        lemma_plain_prefix(less, rest, vars);
        assert(prompt::substituted(all, vars) =~= before + prompt::substituted(rest, vars));
    }
}

proof fn lemma_closing_at(inner: Seq<char>, rest: Seq<char>)
    requires
        forall|i: int| 0 <= i < inner.len() ==> (#[trigger] inner[i]) != '}',
    ensures
        prompt::closing(inner + seq!['}', '}'] + rest) == Some(inner.len() as int),
    decreases inner.len(),
{
    let all = inner + seq!['}', '}'] + rest;
    if inner.len() > 0 {
        let less = inner.drop_first();
        assert(all[0] == inner[0]);
        assert(all.drop_first() =~= less + seq!['}', '}'] + rest);
        assert forall|i: int| 0 <= i < less.len() implies (#[trigger] less[i]) != '}' by {
            assert(less[i] == inner[i + 1]);
        }
        lemma_closing_at(less, rest);
    } else {
        assert(all[0] == '}' && all[1] == '}');
    }
}

proof fn lemma_trimmed(left: Seq<char>, name: Seq<char>, right: Seq<char>)
    requires
        is_blank(left),
        is_blank(right),
        is_word(name),
    ensures
        prompt::trimmed(left + name + right) == name,
    decreases left.len() + right.len(),
{
    let all = left + name + right;
    if left.len() > 0 {
        let less = left.drop_first();
        assert(all[0] == left[0]);
        assert(prompt::is_white_space(all[0]));
        assert(all.drop_first() =~= less + name + right);
        assert forall|i: int| 0 <= i < less.len() implies (#[trigger] less[i]) == ' ' || less[i]
            == '\t' || less[i] == '\n' || less[i] == '\r' by {
            assert(less[i] == left[i + 1]);
        }
        lemma_trimmed(less, name, right);
    } else {
        assert(all[0] == name[0]);
        assert(!prompt::is_white_space(all[0]));
        if right.len() > 0 {
            let less = right.drop_last();
            assert(all.last() == right[right.len() - 1]);
            assert(prompt::is_white_space(all.last()));
            assert(all.drop_last() =~= left + name + less);
            lemma_trimmed(left, name, less);
        } else {
            assert(all =~= name);
            assert(all.last() == name[name.len() - 1]);
            assert(!prompt::is_white_space(all.last()));
        }
    }
}

proof fn lemma_bound(vars: Seq<(Seq<char>, Seq<char>)>, name: Seq<char>, k: int)
    ensures
        0 <= k < vars.len() && vars[k].0 == name && (forall|i: int|
            0 <= i < k ==> (#[trigger] vars[i]).0 != name) ==> prompt::binding(vars, name) == Some(
            vars[k].1,
        ),
        (forall|i: int| 0 <= i < vars.len() ==> (#[trigger] vars[i]).0 != name) ==> prompt::binding(
            vars,
            name,
        ) is None,
    decreases vars.len(),
{
    if vars.len() > 0 {
        let rest = vars.drop_first();
        assert forall|i: int| 0 <= i < rest.len() implies #[trigger] rest[i] == vars[i + 1] by {}
        lemma_bound(rest, name, k - 1);
        if forall|i: int| 0 <= i < vars.len() ==> (#[trigger] vars[i]).0 != name {
            assert(vars[0].0 != name);
            assert forall|i: int| 0 <= i < rest.len() implies (#[trigger] rest[i]).0 != name by {
                assert(vars[i + 1].0 != name);
            }
        }
        if 0 < k < vars.len() && vars[k].0 == name && (forall|i: int|
            0 <= i < k ==> (#[trigger] vars[i]).0 != name) {
            assert(vars[0].0 != name);
            assert(rest[k - 1] == vars[k]);
            assert forall|i: int| 0 <= i < k - 1 implies (#[trigger] rest[i]).0 != name by {
                assert(vars[i + 1].0 != name);
            }
        }
    }
}

/// A placeholder is replaced by the value that is bound to its name, the first where there are several,
/// whatever blanks surround the name. What stands before it stays as it is, the value is taken as it is,
/// and what follows is filled in in turn.
pub proof fn law_a_placeholder_is_replaced_by_its_value(
    template: &str,
    vars: &[(String, String)],
    res: String,
    rest: &str,
    of_rest: String,
    before: Seq<char>,
    left: Seq<char>,
    name: Seq<char>,
    right: Seq<char>,
    k: int,
)
    requires
        call_ensures(prompt::substitute, (template, vars), res),
        call_ensures(prompt::substitute, (rest, vars), of_rest),
        template@ == before + seq!['{', '{'] + left + name + right + seq!['}', '}'] + rest@,
        is_plain(before),
        is_blank(left),
        is_word(name),
        is_blank(right),
    ensures
        0 <= k < vars.deep_view().len() && vars.deep_view()[k].0 == name && (forall|i: int|
            0 <= i < k ==> (#[trigger] vars.deep_view()[i]).0 != name) ==> res@ == before
            + vars.deep_view()[k].1 + of_rest@,
{
    let inner = left + name + right;
    let tail = inner + seq!['}', '}'] + rest@;
    let from = seq!['{', '{'] + tail;
    lemma_bound(vars.deep_view(), name, k);
    assert(template@ =~= before + from);
    lemma_plain_prefix(before, from, vars.deep_view());
    assert forall|i: int| 0 <= i < inner.len() implies (#[trigger] inner[i]) != '}' by {
        if i < left.len() {
            assert(inner[i] == left[i]);
        } else if i < left.len() + name.len() {
            assert(inner[i] == name[i - left.len()]);
        } else {
            assert(inner[i] == right[i - left.len() - name.len()]);
        }
    }
    lemma_closing_at(inner, rest@);
    lemma_trimmed(left, name, right);
    assert(from[0] == '{' && from[1] == '{');
    assert(from.skip(2) =~= tail);
    assert(tail.take(inner.len() as int) =~= inner);
    assert(tail.skip(inner.len() as int + 2) =~= rest@);
    assert forall|i: int| 0 <= i < name.len() implies prompt::is_name_char(#[trigger] name[i]) by {}
    if 0 <= k < vars.deep_view().len() && vars.deep_view()[k].0 == name && (forall|i: int|
        0 <= i < k ==> (#[trigger] vars.deep_view()[i]).0 != name) {
        assert(prompt::placeholder(tail, vars.deep_view()) == Some(
            (vars.deep_view()[k].1, rest@),
        ));
        assert(prompt::substituted(from, vars.deep_view()) == vars.deep_view()[k].1
            + prompt::substituted(rest@, vars.deep_view()));
        assert(res@ =~= before + vars.deep_view()[k].1 + of_rest@);
    }
}

/// A placeholder whose name is not bound stays in the text, and what follows its braces is filled in.
pub proof fn law_an_unbound_placeholder_stays(
    template: &str,
    vars: &[(String, String)],
    res: String,
    rest: &str,
    of_rest: String,
    before: Seq<char>,
    left: Seq<char>,
    name: Seq<char>,
    right: Seq<char>,
    after: Seq<char>,
)
    requires
        call_ensures(prompt::substitute, (template, vars), res),
        call_ensures(prompt::substitute, (rest, vars), of_rest),
        template@ == before + seq!['{', '{'] + rest@,
        rest@ == left + name + right + seq!['}', '}'] + after,
        is_plain(before),
        is_blank(left),
        is_word(name),
        is_blank(right),
        forall|i: int| 0 <= i < vars.deep_view().len() ==> (#[trigger] vars.deep_view()[i]).0 != name,
    ensures
        res@ == before + seq!['{', '{'] + of_rest@,
{
    let inner = left + name + right;
    let tail = rest@;
    let from = seq!['{', '{'] + tail;
    lemma_bound(vars.deep_view(), name, 0);
    assert(template@ =~= before + from);
    lemma_plain_prefix(before, from, vars.deep_view());
    assert forall|i: int| 0 <= i < inner.len() implies (#[trigger] inner[i]) != '}' by {
        if i < left.len() {
            assert(inner[i] == left[i]);
        } else if i < left.len() + name.len() {
            assert(inner[i] == name[i - left.len()]);
        } else {
            assert(inner[i] == right[i - left.len() - name.len()]);
        }
    }
    assert(tail =~= inner + seq!['}', '}'] + after);
    lemma_closing_at(inner, after);
    lemma_trimmed(left, name, right);
    assert(from[0] == '{' && from[1] == '{');
    assert(from.skip(2) =~= tail);
    assert(tail.take(inner.len() as int) =~= inner);
    reveal_strlit("{{");
    assert("{{"@ =~= seq!['{', '{']);
    assert(prompt::placeholder(tail, vars.deep_view()) is None);
    assert(res@ =~= before + seq!['{', '{'] + of_rest@);
}

/// A text without an opening brace is left as it is.
pub proof fn law_plain_text_is_left_as_it_is(
    template: &str,
    vars: &[(String, String)],
    res: String,
)
    requires
        call_ensures(prompt::substitute, (template, vars), res),
        is_plain(template@),
    ensures
        res@ == template@,
{
    let none = Seq::<char>::empty();
    lemma_plain_prefix(template@, none, vars.deep_view());
    assert(template@ + none =~= template@);
    assert(prompt::substituted(none, vars.deep_view()) =~= none);
}

/// A prompt that is set is what every holder of its handle reads from then on; the other prompts stay.
pub proof fn law_a_prompt_that_is_set_is_read_back(
    handle: &SharedSystemPrompt,
    store: &mut PromptStore,
    text: String,
    now: &PromptStore,
    then: &PromptStore,
    other: &SharedSystemPrompt,
    before: String,
    after: String,
)
    requires
        call_ensures(SharedSystemPrompt::set, (handle, store, text), ()),
        handle.belongs_to(*old(store)),
        other.belongs_to(*old(store)),
        *then == *old(store),
        *now == *final(store),
        call_ensures(SharedSystemPrompt::get, (other, then), before),
        call_ensures(SharedSystemPrompt::get, (other, now), after),
    ensures
        other.slot() == handle.slot() ==> after@ == text@,
        other.slot() != handle.slot() ==> after@ == before@,
{
}

/// A new prompt is read back as it was given, and changes no other.
pub proof fn law_a_new_prompt_is_read_back(
    store: &mut PromptStore,
    text: String,
    handle: SharedSystemPrompt,
    now: &PromptStore,
    then: &PromptStore,
    read: String,
    other: &SharedSystemPrompt,
    before: String,
    after: String,
)
    requires
        call_ensures(SharedSystemPrompt::new, (store, text), handle),
        *then == *old(store),
        *now == *final(store),
        call_ensures(SharedSystemPrompt::get, (&handle, now), read),
        other.belongs_to(*old(store)),
        call_ensures(SharedSystemPrompt::get, (other, then), before),
        call_ensures(SharedSystemPrompt::get, (other, now), after),
    ensures
        read@ == text@,
        after@ == before@,
        handle.slot() != other.slot(),
{
}

/// A system prompt with bindings is its text with the bindings filled in; one that takes none is its
/// text.
pub proof fn law_a_system_prompt_is_its_text_filled_in(
    system: &SystemPrompt,
    store: &PromptStore,
    vars: &Vec<(String, String)>,
    res: String,
    text: &str,
    given: &[(String, String)],
    filled: String,
    plain: String,
)
    requires
        call_ensures(SystemPrompt::resolve_with, (system, store, vars), res),
        call_ensures(SharedSystemPrompt::get, (&system.base, store), plain),
        text@ == plain@,
        given.deep_view() == vars.deep_view(),
        call_ensures(prompt::substitute, (text, given), filled),
    ensures
        res@ == filled@,
{
}

}
