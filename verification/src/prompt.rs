//! System prompts: a template that may change under its holders, and the bindings of each turn.

use crate::text;
use std::sync::Arc;
use vstd::prelude::*;

verus! {

/// Whether a character is white space, as Unicode's `White_Space` property has it.
pub open spec fn is_white_space(c: char) -> bool {
    let n = c as u32;
    ||| 0x9 <= n <= 0xd
    ||| n == 0x20
    ||| n == 0x85
    ||| n == 0xa0
    ||| n == 0x1680
    ||| 0x2000 <= n <= 0x200a
    ||| n == 0x2028
    ||| n == 0x2029
    ||| n == 0x202f
    ||| n == 0x205f
    ||| n == 0x3000
}

fn white_space(c: char) -> (res: bool)
    ensures
        res == is_white_space(c),
{
    let n: u32 = c as u32;
    (0x9 <= n && n <= 0xd) || n == 0x20 || n == 0x85 || n == 0xa0 || n == 0x1680 || (0x2000 <= n
        && n <= 0x200a) || n == 0x2028 || n == 0x2029 || n == 0x202f || n == 0x205f || n == 0x3000
}

/// A text without white space at its ends.
pub open spec fn trimmed(s: Seq<char>) -> Seq<char>
    decreases s.len(),
{
    if s.len() == 0 {
        s
    } else if is_white_space(s[0]) {
        trimmed(s.drop_first())
    } else if is_white_space(s.last()) {
        trimmed(s.drop_last())
    } else {
        s
    }
}

/// Whether a character may stand in the name of a variable.
pub open spec fn is_name_char(c: char) -> bool {
    'a' <= c <= 'z' || 'A' <= c <= 'Z' || '0' <= c <= '9' || c == '_'
}

fn name_char(c: char) -> (res: bool)
    ensures
        res == is_name_char(c),
{
    ('a' <= c && c <= 'z') || ('A' <= c && c <= 'Z') || ('0' <= c && c <= '9') || c == '_'
}

/// Whether a text is the name of a variable.
pub open spec fn is_name(s: Seq<char>) -> bool {
    s.len() > 0 && forall|i: int| 0 <= i < s.len() ==> is_name_char(#[trigger] s[i])
}

/// Whether `c` stands twice in a row at `i`.
pub open spec fn pair_at(s: Seq<char>, i: int, c: char) -> bool {
    0 <= i && i + 1 < s.len() && s[i] == c && s[i + 1] == c
}

/// Where the first `}}` begins.
pub open spec fn closing(s: Seq<char>) -> Option<int>
    decreases s.len(),
{
    if s.len() < 2 {
        None
    } else if pair_at(s, 0, '}') {
        Some(0)
    } else {
        match closing(s.drop_first()) {
            Some(at) => Some(at + 1),
            None => None,
        }
    }
}

/// The value of the first binding of `name`.
pub open spec fn binding(vars: Seq<(Seq<char>, Seq<char>)>, name: Seq<char>) -> Option<Seq<char>>
    decreases vars.len(),
{
    if vars.len() == 0 {
        None
    } else if vars[0].0 == name {
        Some(vars[0].1)
    } else {
        binding(vars.drop_first(), name)
    }
}

/// What follows an opening `{{`, where it is a resolvable placeholder: the value it stands for, and
/// what comes after its closing `}}`.
pub open spec fn placeholder(s: Seq<char>, vars: Seq<(Seq<char>, Seq<char>)>) -> Option<
    (Seq<char>, Seq<char>),
> {
    match closing(s) {
        Some(at) => {
            let name = trimmed(s.take(at));
            if is_name(name) {
                match binding(vars, name) {
                    Some(value) => Some((value, s.skip(at + 2))),
                    None => None,
                }
            } else {
                None
            }
        },
        None => None,
    }
}

/// A template with its placeholders replaced. What is no resolvable placeholder stays as it is, and
/// what a placeholder stands for is not looked at again.
pub open spec fn substituted(template: Seq<char>, vars: Seq<(Seq<char>, Seq<char>)>) -> Seq<char>
    decreases template.len(),
{
    if template.len() == 0 {
        Seq::empty()
    } else if pair_at(template, 0, '{') {
        match placeholder(template.skip(2), vars) {
            Some((value, rest)) => {
                proof {
                    lemma_closing(template.skip(2));
                }
                value + substituted(rest, vars)
            },
            None => "{{"@ + substituted(template.skip(2), vars),
        }
    } else {
        seq![template[0]] + substituted(template.drop_first(), vars)
    }
}

/// What [`closing`] names is the first `}}`, and there is none where it names nothing.
pub proof fn lemma_closing(s: Seq<char>)
    ensures
        match closing(s) {
            Some(at) => pair_at(s, at, '}') && forall|i: int|
                0 <= i < at ==> !#[trigger] pair_at(s, i, '}'),
            None => forall|i: int| !#[trigger] pair_at(s, i, '}'),
        },
    decreases s.len(),
{
    if s.len() >= 2 && !pair_at(s, 0, '}') {
        let rest = s.drop_first();
        lemma_closing(rest);
        assert forall|i: int| 1 <= i implies #[trigger] pair_at(s, i, '}') == pair_at(
            rest,
            i - 1,
            '}',
        ) by {}
        match closing(rest) {
            Some(at) => {
                assert(pair_at(s, at + 1, '}'));
            },
            None => {
                assert forall|i: int| !#[trigger] pair_at(s, i, '}') by {
                    if i >= 1 {
                        assert(!pair_at(rest, i - 1, '}'));
                    }
                }
            },
        }
    }
}

proof fn lemma_closing_at(s: Seq<char>, at: int)
    requires
        pair_at(s, at, '}'),
        forall|i: int| 0 <= i < at ==> !#[trigger] pair_at(s, i, '}'),
    ensures
        closing(s) == Some(at),
{
    lemma_closing(s);
    match closing(s) {
        Some(found) => {
            if found < at {
                assert(!pair_at(s, found, '}'));
            }
        },
        None => {
            assert(!pair_at(s, at, '}'));
        },
    }
}

proof fn lemma_trimmed_front(s: Seq<char>, n: int)
    requires
        0 <= n <= s.len(),
        forall|i: int| 0 <= i < n ==> is_white_space(#[trigger] s[i]),
    ensures
        trimmed(s) == trimmed(s.skip(n)),
    decreases n,
{
    if n == 0 {
        assert(s.skip(0) =~= s);
    } else {
        lemma_trimmed_front(s.drop_first(), n - 1);
        assert(s.drop_first().skip(n - 1) =~= s.skip(n));
    }
}

proof fn lemma_trimmed_back(s: Seq<char>, n: int)
    requires
        0 <= n <= s.len(),
        n > 0 ==> !is_white_space(s[0]),
        forall|i: int| n <= i < s.len() ==> is_white_space(#[trigger] s[i]),
        n > 0 ==> !is_white_space(s[n - 1]),
    ensures
        n > 0 ==> trimmed(s) == s.take(n),
    decreases s.len(),
{
    if n > 0 {
        if n < s.len() {
            lemma_trimmed_back(s.drop_last(), n);
            assert(s.drop_last().take(n) =~= s.take(n));
            assert(is_white_space(s[s.len() - 1]));
        } else {
            assert(s.take(n) =~= s);
        }
    }
}

/// The name between `from` and `to`, without the white space around it.
fn trimmed_name(chars: &Vec<char>, from: usize, to: usize) -> (res: String)
    requires
        from <= to <= chars@.len(),
    ensures
        res@ == trimmed(chars@.subrange(from as int, to as int)),
{
    let ghost whole = chars@.subrange(from as int, to as int);
    let mut start: usize = from;
    while start < to && white_space(chars[start])
        invariant
            from <= start <= to <= chars@.len(),
            whole == chars@.subrange(from as int, to as int),
            forall|i: int| 0 <= i < start - from ==> is_white_space(#[trigger] whole[i]),
        decreases to - start,
    {
        start += 1;
    }
    let mut end: usize = to;
    proof {
        lemma_trimmed_front(whole, start - from);
    }
    let ghost rest = whole.skip(start - from);
    while start < end && white_space(chars[end - 1])
        invariant
            from <= start <= end <= to <= chars@.len(),
            whole == chars@.subrange(from as int, to as int),
            rest == whole.skip(start - from),
            forall|i: int| end - start <= i < rest.len() ==> is_white_space(#[trigger] rest[i]),
        decreases end - start,
    {
        end -= 1;
    }
    proof {
        lemma_trimmed_back(rest, end - start);
        if start == end {
            assert(rest.len() == 0) by {
                if rest.len() > 0 {
                    assert(is_white_space(rest[0]));
                }
            }
        }
        assert(trimmed(whole) =~= chars@.subrange(start as int, end as int));
    }
    text::text_between(chars, start, end)
}

/// Whether a text is the name of a variable.
fn name_text(name: &Vec<char>) -> (res: bool)
    ensures
        res == is_name(name@),
{
    let n: usize = name.len();
    let mut i: usize = 0;
    while i < n
        invariant
            i <= n,
            n == name@.len(),
            forall|j: int| 0 <= j < i ==> is_name_char(#[trigger] name@[j]),
        decreases n - i,
    {
        if !name_char(name[i]) {
            return false;
        }
        i += 1;
    }
    n > 0
}

/// The position of the first binding of `name`.
fn binding_position(vars: &[(String, String)], name: &str) -> (res: Option<usize>)
    ensures
        match res {
            Some(i) => i < vars@.len() && binding(vars.deep_view(), name@) == Some(
                vars@[i as int].1@,
            ),
            None => binding(vars.deep_view(), name@) is None,
        },
{
    let ghost all = vars.deep_view();
    let n: usize = vars.len();
    let mut i: usize = 0;
    assert(all.skip(0) =~= all);
    while i < n
        invariant
            i <= n,
            n == vars@.len(),
            all == vars.deep_view(),
            binding(all, name@) == binding(all.skip(i as int), name@),
        decreases n - i,
    {
        let ghost rest = all.skip(i as int);
        assert(rest[0] == (vars@[i as int].0@, vars@[i as int].1@));
        assert(rest.drop_first() =~= all.skip(i + 1));
        if text::same_text(vars[i].0.as_str(), name) {
            return Some(i);
        }
        i += 1;
    }
    None
}

/// Where the first `}}` at or after `from` begins.
fn closing_position(chars: &Vec<char>, from: usize) -> (res: Option<usize>)
    requires
        from <= chars@.len(),
    ensures
        match closing(chars@.skip(from as int)) {
            Some(at) => res == Some((from + at) as usize) && from + at + 2 <= chars@.len() && 0
                <= at,
            None => res is None,
        },
{
    let ghost rest = chars@.skip(from as int);
    let n: usize = chars.len();
    let mut i: usize = from;
    while n - i >= 2
        invariant
            from <= i <= n,
            n == chars@.len(),
            rest == chars@.skip(from as int),
            forall|j: int| 0 <= j < i - from ==> !#[trigger] pair_at(rest, j, '}'),
        decreases n - i,
    {
        assert(rest[i - from] == chars@[i as int]);
        assert(rest[i - from + 1] == chars@[i + 1]);
        if chars[i] == '}' && chars[i + 1] == '}' {
            proof {
                lemma_closing_at(rest, i - from);
            }
            return Some(i);
        }
        i += 1;
    }
    proof {
        lemma_closing(rest);
    }
    None
}

/// Substitute `{{ name }}` placeholders in `template` with values from `vars` (optional inner
/// whitespace allowed; names are `[A-Za-z0-9_]`). Anything that is no resolvable placeholder (an
/// unknown name, a malformed span or a stray `{{`) is emitted verbatim. Substitution is single-pass:
/// a value that itself contains `{{...}}` is not scanned again, so bindings cannot inject further
/// placeholders.
pub fn substitute(template: &str, vars: &[(String, String)]) -> (res: String)
    ensures
        res@ == substituted(template@, vars.deep_view()),
{
    let chars = text::chars_of(template);
    let ghost all = template@;
    let ghost bound = vars.deep_view();
    let mut out = String::new();
    let n: usize = chars.len();
    let mut i: usize = 0;
    assert(all.skip(0) =~= all);
    assert(out@ + substituted(all.skip(0), bound) =~= substituted(all, bound));
    while i < n
        invariant
            i <= n,
            n == chars@.len(),
            chars@ == all,
            bound == vars.deep_view(),
            out@ + substituted(all.skip(i as int), bound) == substituted(all, bound),
        decreases n - i,
    {
        let ghost rest = all.skip(i as int);
        let ghost before = out@;
        if n - i >= 2 && chars[i] == '{' && chars[i + 1] == '{' {
            let mut resolved = false;
            let ghost after = rest.skip(2);
            assert(pair_at(rest, 0, '{'));
            assert(after =~= all.skip(i + 2));
            let mut next: usize = i + 2;
            match closing_position(&chars, i + 2) {
                Some(close) => {
                    let name = trimmed_name(&chars, i + 2, close);
                    assert(all.subrange(i + 2, close as int) =~= after.take(close - i - 2));
                    if name_text(&text::chars_of(name.as_str())) {
                        match binding_position(vars, name.as_str()) {
                            Some(at) => {
                                out.append(vars[at].1.as_str());
                                next = close + 2;
                                resolved = true;
                                assert(after.skip(close - i - 2 + 2) =~= all.skip(close + 2));
                                assert(placeholder(after, bound) == Some(
                                    (vars@[at as int].1@, all.skip(close + 2)),
                                ));
                                assert(out@ + substituted(all.skip(close + 2), bound) =~= before
                                    + substituted(rest, bound));
                            },
                            None => {},
                        }
                    }
                },
                None => {},
            }
            if !resolved {
                // No resolvable placeholder: emit the literal `{{` and keep scanning from just after
                // it, so later braces still get a chance.
                out.append("{{");
                assert(placeholder(after, bound) is None);
                assert(out@ + substituted(all.skip(i + 2), bound) =~= before + substituted(
                    rest,
                    bound,
                ));
            }
            i = next;
        } else {
            assert(!pair_at(rest, 0, '{'));
            assert(rest.drop_first() =~= all.skip(i + 1));
            out.push(chars[i]);
            assert(out@ + substituted(all.skip(i + 1), bound) =~= before + substituted(
                rest,
                bound,
            ));
            i += 1;
        }
    }
    assert(all.skip(n as int).len() == 0);
    assert(out@ + substituted(all.skip(n as int), bound) =~= out@);
    out
}

/// Whether a template opens no placeholder at all.
pub open spec fn without_placeholders(template: Seq<char>) -> bool {
    forall|i: int| !#[trigger] pair_at(template, i, '{')
}

/// A template that opens no placeholder is its own result, whatever the bindings are.
pub proof fn law_text_without_placeholders_is_untouched(
    template: Seq<char>,
    vars: Seq<(Seq<char>, Seq<char>)>,
)
    requires
        without_placeholders(template),
    ensures
        substituted(template, vars) == template,
    decreases template.len(),
{
    if template.len() > 0 {
        let rest = template.drop_first();
        assert forall|i: int| !#[trigger] pair_at(rest, i, '{') by {
            assert(!pair_at(template, i + 1, '{'));
        }
        law_text_without_placeholders_is_untouched(rest, vars);
        assert(!pair_at(template, 0, '{'));
        assert(seq![template[0]] + rest =~= template);
    }
}

/// Without bindings, every template is its own result.
pub proof fn law_without_bindings_nothing_changes(template: Seq<char>)
    ensures
        substituted(template, Seq::empty()) == template,
    decreases template.len(),
{
    if template.len() > 0 {
        if pair_at(template, 0, '{') {
            let after = template.skip(2);
            assert(placeholder(after, Seq::empty()) is None);
            law_without_bindings_nothing_changes(after);
            reveal_strlit("{{");
            assert("{{"@ + after =~= template);
        } else {
            let rest = template.drop_first();
            law_without_bindings_nothing_changes(rest);
            assert(seq![template[0]] + rest =~= template);
        }
    }
}

/// Substitution is single-pass: a placeholder gives its value verbatim, whatever the value holds,
/// and scanning goes on behind the placeholder.
pub proof fn law_values_are_not_scanned_again(
    template: Seq<char>,
    vars: Seq<(Seq<char>, Seq<char>)>,
    value: Seq<char>,
    rest: Seq<char>,
)
    requires
        pair_at(template, 0, '{'),
        placeholder(template.skip(2), vars) == Some((value, rest)),
    ensures
        substituted(template, vars) == value + substituted(rest, vars),
{
    lemma_closing(template.skip(2));
}

/// The prompt texts that handles refer to. Texts are added and replaced, never taken away.
#[derive(Debug)]
pub struct PromptStore {
    prompts: Vec<String>,
}

impl View for PromptStore {
    type V = Seq<Seq<char>>;

    closed spec fn view(&self) -> Seq<Seq<char>> {
        self.prompts.deep_view()
    }
}

impl PromptStore {
    /// A store without texts.
    pub fn new() -> (res: Self)
        ensures
            res@ == Seq::<Seq<char>>::empty(),
    {
        let prompts: Vec<String> = Vec::new();
        assert(prompts.deep_view() =~= Seq::<Seq<char>>::empty());
        PromptStore { prompts }
    }
}

/// A mutable, shareable system prompt: a handle to one text of a store. Clones name the same text;
/// a `set` from any holder is observed by every agent built from it on their next turn.
#[derive(Debug, Clone, Copy, PartialEq, Eq, Structural)]
pub struct SharedSystemPrompt {
    slot: usize,
}

impl SharedSystemPrompt {
    /// Which text of a store this handle names.
    pub closed spec fn slot(self) -> nat {
        self.slot as nat
    }

    /// Whether a store has the text that this handle names.
    pub open spec fn belongs_to(self, store: PromptStore) -> bool {
        self.slot() < store@.len()
    }

    /// The text that this handle names.
    pub open spec fn text(self, store: PromptStore) -> Seq<char> {
        store@[self.slot() as int]
    }

    /// Whether a store has the text that this handle names.
    pub fn is_in(&self, store: &PromptStore) -> (res: bool)
        ensures
            res == self.belongs_to(*store),
    {
        self.slot < store.prompts.len()
    }

    /// Add a text to the store, and name it.
    pub fn new(store: &mut PromptStore, prompt: String) -> (res: Self)
        ensures
            final(store)@ == old(store)@.push(prompt@),
            res.slot() == old(store)@.len(),
    {
        let slot: usize = store.prompts.len();
        store.prompts.push(prompt);
        assert(store@ =~= old(store)@.push(prompt@));
        SharedSystemPrompt { slot }
    }

    /// Replace the text, for every holder of this handle.
    pub fn set(&self, store: &mut PromptStore, prompt: String)
        requires
            self.belongs_to(*old(store)),
        ensures
            final(store)@ == old(store)@.update(self.slot() as int, prompt@),
    {
        store.prompts.set(self.slot, prompt);
        assert(store@ =~= old(store)@.update(self.slot() as int, prompt@));
    }

    /// The text as it stands.
    pub fn get(&self, store: &PromptStore) -> (res: String)
        requires
            self.belongs_to(*store),
        ensures
            res@ == self.text(*store),
    {
        store.prompts[self.slot].clone()
    }
}

/// A `set` through one holder is what every holder of the same text reads next, and leaves every
/// other text as it was.
pub proof fn law_a_set_reaches_every_holder(
    setter: SharedSystemPrompt,
    reader: SharedSystemPrompt,
    before: PromptStore,
    after: PromptStore,
    prompt: Seq<char>,
)
    requires
        setter.belongs_to(before),
        reader.belongs_to(before),
        after@ == before@.update(setter.slot() as int, prompt),
    ensures
        reader.belongs_to(after),
        reader == setter ==> reader.text(after) == prompt,
        reader != setter ==> reader.text(after) == reader.text(before),
{
}

/// Produces the template-variable bindings of a turn: the `{{name}}` values substituted into the
/// system prompt (date, os, shell, workspace, ...). Asked afresh at the start of every turn, so that
/// volatile values are never stale. A binding may be sourced from the store, so that replacing a
/// text there reaches the prompt.
pub trait VarsSource: Send + Sync {
    /// Whether these are bindings the source may give, with the store as it stands. A source that says
    /// nothing of its bindings may give any.
    open spec fn may_bind(&self, store: PromptStore, vars: Seq<(Seq<char>, Seq<char>)>) -> bool {
        true
    }

    /// The bindings of a turn.
    fn vars(&self, store: &PromptStore) -> (res: Vec<(String, String)>)
        ensures
            self.may_bind(*store, res.deep_view()),
    ;
}

/// A shared source of bindings.
pub struct VarsProvider {
    pub source: Arc<Box<dyn VarsSource>>,
}

impl Clone for VarsProvider {
    fn clone(&self) -> (res: Self)
        ensures
            res == *self,
    {
        VarsProvider { source: self.source.clone() }
    }
}

/// The system prompt an agent puts before its messages at the start of every turn: one template, the
/// base, plus the bindings of the turn substituted into it. Substitution is single-pass, so authored
/// content that reaches the prompt as a binding is not itself treated as a template.
pub struct SystemPrompt {
    pub base: SharedSystemPrompt,
    pub vars: Option<VarsProvider>,
}

impl Clone for SystemPrompt {
    fn clone(&self) -> (res: Self)
        ensures
            res == *self,
    {
        SystemPrompt { base: self.base, vars: self.vars.clone() }
    }
}

impl From<SharedSystemPrompt> for SystemPrompt {
    fn from(base: SharedSystemPrompt) -> (res: Self) {
        SystemPrompt { base, vars: None }
    }
}

impl vstd::std_specs::convert::FromSpecImpl<SharedSystemPrompt> for SystemPrompt {
    open spec fn obeys_from_spec() -> bool {
        true
    }

    open spec fn from_spec(base: SharedSystemPrompt) -> Self {
        SystemPrompt { base, vars: None }
    }
}

impl SystemPrompt {
    /// Whether `prompt` is a text that resolving may give: the base itself without a source of
    /// bindings, and the base under bindings that the source may give with one.
    pub open spec fn may_resolve_to(self, store: PromptStore, prompt: Seq<char>) -> bool {
        match self.vars {
            Some(provider) => exists|vars: Seq<(Seq<char>, Seq<char>)>|
                provider.source.may_bind(store, vars) && prompt == #[trigger] substituted(
                    self.base.text(store),
                    vars,
                ),
            None => prompt == self.base.text(store),
        }
    }

    /// A prompt with only a base: no variables.
    pub fn new(base: SharedSystemPrompt) -> (res: Self)
        ensures
            res == (SystemPrompt { base, vars: None }),
    {
        SystemPrompt { base, vars: None }
    }

    /// A prompt with only a base, whose text is added to the store.
    pub fn from_text(store: &mut PromptStore, text: String) -> (res: Self)
        ensures
            final(store)@ == old(store)@.push(text@),
            res.base.slot() == old(store)@.len(),
            res.vars is None,
    {
        SystemPrompt::new(SharedSystemPrompt::new(store, text))
    }

    /// Attach the source of per-turn bindings.
    pub fn with_vars(self, vars: VarsProvider) -> (res: Self)
        ensures
            res == (SystemPrompt { base: self.base, vars: Some(vars) }),
    {
        SystemPrompt { base: self.base, vars: Some(vars) }
    }

    /// The prompt text under some bindings.
    pub fn resolve_with(&self, store: &PromptStore, vars: &Vec<(String, String)>) -> (res: String)
        requires
            self.base.belongs_to(*store),
        ensures
            res@ == substituted(self.base.text(*store), vars.deep_view()),
    {
        let base = self.base.get(store);
        let bound = vars.as_slice();
        assert(bound.deep_view() =~= vars.deep_view());
        substitute(base.as_str(), bound)
    }

    /// The current prompt text: the base with the turn's bindings substituted into it. Unknown
    /// `{{placeholders}}` are left untouched, and a binding's value is never scanned again. Which
    /// bindings there are is up to the source; without one the base is the prompt.
    pub fn resolve(&self, store: &PromptStore) -> (res: String)
        requires
            self.base.belongs_to(*store),
        ensures
            self.may_resolve_to(*store, res@),
    {
        match &self.vars {
            Some(provider) => {
                let vars = provider.source.vars(store);
                self.resolve_with(store, &vars)
            },
            None => self.base.get(store),
        }
    }
}

}
