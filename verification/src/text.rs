//! Text: equality, the byte order that sorts ids, and small string builders.

use vstd::prelude::*;
use vstd::relations;
use vstd::utf8;

verus! {

/// `String::push` of std: appends the character to the end of the string.
pub assume_specification[ String::push ](s: &mut String, ch: char)
    ensures
        final(s)@ == old(s)@.push(ch),
;

/// Two strings with the same UTF-8 bytes are the same text.
pub proof fn lemma_bytes_identify_text(a: Seq<char>, b: Seq<char>)
    ensures
        utf8::encode_utf8(a) == utf8::encode_utf8(b) <==> a == b,
{
    utf8::encode_utf8_decode_utf8(a);
    utf8::encode_utf8_decode_utf8(b);
}

/// Whether two string slices hold the same text.
pub fn same_text(a: &str, b: &str) -> (res: bool)
    ensures
        res == (a@ == b@),
{
    let x: &[u8] = a.as_bytes();
    let y: &[u8] = b.as_bytes();
    proof {
        lemma_bytes_identify_text(a@, b@);
    }
    if x.len() != y.len() {
        return false;
    }
    let mut i: usize = 0;
    while i < x.len()
        invariant
            i <= x@.len(),
            x@.len() == y@.len(),
            x@ == utf8::encode_utf8(a@),
            y@ == utf8::encode_utf8(b@),
            utf8::encode_utf8(a@) == utf8::encode_utf8(b@) <==> a@ == b@,
            forall|j: int| 0 <= j < i ==> x@[j] == y@[j],
        decreases x@.len() - i,
    {
        if x[i] != y[i] {
            return false;
        }
        i += 1;
    }
    assert(x@ =~= y@);
    true
}

/// Lexicographic order on byte sequences.
pub open spec fn bytes_le(a: Seq<u8>, b: Seq<u8>) -> bool
    decreases a.len(),
{
    if a.len() == 0 {
        true
    } else if b.len() == 0 {
        false
    } else if a[0] != b[0] {
        a[0] < b[0]
    } else {
        bytes_le(a.drop_first(), b.drop_first())
    }
}

/// The order that sorts text: by the UTF-8 bytes, lexicographically.
pub open spec fn text_le(a: Seq<char>, b: Seq<char>) -> bool {
    bytes_le(utf8::encode_utf8(a), utf8::encode_utf8(b))
}

proof fn lemma_bytes_le_reflexive(a: Seq<u8>)
    ensures
        bytes_le(a, a),
    decreases a.len(),
{
    if a.len() > 0 {
        lemma_bytes_le_reflexive(a.drop_first());
    }
}

proof fn lemma_bytes_le_antisymmetric(a: Seq<u8>, b: Seq<u8>)
    requires
        bytes_le(a, b),
        bytes_le(b, a),
    ensures
        a == b,
    decreases a.len(),
{
    if a.len() == 0 {
        assert(a =~= b);
    } else if b.len() > 0 && a[0] == b[0] {
        lemma_bytes_le_antisymmetric(a.drop_first(), b.drop_first());
        assert(a =~= seq![a[0]] + a.drop_first());
        assert(b =~= seq![b[0]] + b.drop_first());
    }
}

proof fn lemma_bytes_le_transitive(a: Seq<u8>, b: Seq<u8>, c: Seq<u8>)
    requires
        bytes_le(a, b),
        bytes_le(b, c),
    ensures
        bytes_le(a, c),
    decreases a.len(),
{
    if a.len() > 0 && b.len() > 0 && c.len() > 0 && a[0] == b[0] && b[0] == c[0] {
        lemma_bytes_le_transitive(a.drop_first(), b.drop_first(), c.drop_first());
    }
}

proof fn lemma_bytes_le_total(a: Seq<u8>, b: Seq<u8>)
    ensures
        bytes_le(a, b) || bytes_le(b, a),
    decreases a.len(),
{
    if a.len() > 0 && b.len() > 0 && a[0] == b[0] {
        lemma_bytes_le_total(a.drop_first(), b.drop_first());
    }
}

/// The text order as a relation, in the shape the sorting lemmas take.
pub open spec fn text_order() -> spec_fn(Seq<char>, Seq<char>) -> bool {
    |a: Seq<char>, b: Seq<char>| text_le(a, b)
}

/// The text order is a total order.
pub proof fn lemma_text_order_is_total()
    ensures
        relations::total_ordering(text_order()),
{
    let le = text_order();
    assert forall|a: Seq<char>| #[trigger] le(a, a) by {
        lemma_bytes_le_reflexive(utf8::encode_utf8(a));
    }
    assert forall|a: Seq<char>, b: Seq<char>| #[trigger] le(a, b) && #[trigger] le(b, a) implies a
        == b by {
        lemma_bytes_le_antisymmetric(utf8::encode_utf8(a), utf8::encode_utf8(b));
        lemma_bytes_identify_text(a, b);
    }
    assert forall|a: Seq<char>, b: Seq<char>, c: Seq<char>| #[trigger]
        le(a, b) && #[trigger] le(b, c) implies le(a, c) by {
        lemma_bytes_le_transitive(utf8::encode_utf8(a), utf8::encode_utf8(b), utf8::encode_utf8(c));
    }
    assert forall|a: Seq<char>, b: Seq<char>| #[trigger] le(a, b) || #[trigger] le(b, a) by {
        lemma_bytes_le_total(utf8::encode_utf8(a), utf8::encode_utf8(b));
    }
}

/// Whether `a` comes no later than `b` in the text order.
pub fn text_not_after(a: &str, b: &str) -> (res: bool)
    ensures
        res == text_le(a@, b@),
{
    let x: &[u8] = a.as_bytes();
    let y: &[u8] = b.as_bytes();
    let mut i: usize = 0;
    assert(x@.skip(0) =~= x@);
    assert(y@.skip(0) =~= y@);
    while i < x.len() && i < y.len() && x[i] == y[i]
        invariant
            i <= x@.len(),
            i <= y@.len(),
            bytes_le(x@, y@) == bytes_le(x@.skip(i as int), y@.skip(i as int)),
        decreases x@.len() - i,
    {
        assert(x@.skip(i as int).drop_first() =~= x@.skip(i + 1));
        assert(y@.skip(i as int).drop_first() =~= y@.skip(i + 1));
        i += 1;
    }
    if i == x.len() {
        true
    } else if i == y.len() {
        false
    } else {
        x[i] < y[i]
    }
}

/// Putting a text in front of everything that must follow it keeps a list in order.
proof fn lemma_insert_keeps_order(texts: Seq<Seq<char>>, at: int, text: Seq<char>)
    requires
        relations::total_ordering(text_order()),
        relations::sorted_by(texts, text_order()),
        0 <= at <= texts.len(),
        at > 0 ==> text_le(texts[at - 1], text),
        forall|j: int| at <= j < texts.len() ==> !text_le(#[trigger] texts[j], text),
    ensures
        relations::sorted_by(texts.insert(at, text), text_order()),
{
    let le = text_order();
    let all = texts.insert(at, text);
    assert forall|i: int, j: int| 0 <= i < j < all.len() implies #[trigger] le(all[i], all[j]) by {
        if i < at && j < at {
            assert(le(texts[i], texts[j]));
        } else if i < at && j == at {
            if i < at - 1 {
                assert(le(texts[i], texts[at - 1]));
            }
            assert(le(texts[at - 1], text));
        } else if i < at {
            assert(le(texts[i], texts[j - 1]));
        } else if i == at {
            assert(le(text, texts[j - 1]) || le(texts[j - 1], text));
        } else {
            assert(le(texts[i - 1], texts[j - 1]));
        }
    }
}

/// A list of texts in the text order.
pub open spec fn sorted_texts(texts: Seq<Seq<char>>) -> Seq<Seq<char>> {
    texts.sort_by(text_order())
}

/// Sort a list of texts in the text order.
pub fn sort_texts(texts: Vec<String>) -> (res: Vec<String>)
    ensures
        res.deep_view() == sorted_texts(texts.deep_view()),
{
    let mut sorted: Vec<String> = Vec::new();
    let ghost input = texts.deep_view();
    let n: usize = texts.len();
    proof {
        lemma_text_order_is_total();
        input.lemma_sort_by_ensures(text_order());
        assert(sorted.deep_view() =~= Seq::<Seq<char>>::empty());
        assert(input.take(0) =~= Seq::<Seq<char>>::empty());
    }
    let mut i: usize = 0;
    while i < n
        invariant
            i <= n,
            n == texts@.len(),
            input == texts.deep_view(),
            relations::total_ordering(text_order()),
            relations::sorted_by(sorted.deep_view(), text_order()),
            sorted.deep_view().to_multiset() == input.take(i as int).to_multiset(),
        decreases n - i,
    {
        let text = texts[i].clone();
        assert(input[i as int] == text@);
        let mut at: usize = sorted.len();
        let ghost before = sorted.deep_view();
        while at > 0 && !text_not_after(sorted[at - 1].as_str(), text.as_str())
            invariant
                at <= sorted@.len(),
                before == sorted.deep_view(),
                relations::total_ordering(text_order()),
                forall|j: int| at <= j < before.len() ==> !text_le(#[trigger] before[j], text@),
            decreases at,
        {
            assert(before[at - 1] == sorted@[at - 1]@);
            at -= 1;
        }
        proof {
            lemma_insert_keeps_order(before, at as int, text@);
        }
        sorted.insert(at, text);
        proof {
            assert(sorted.deep_view() =~= before.insert(at as int, text@));
            assert(input.take(i + 1) =~= input.take(i as int).push(text@));
            vstd::seq_lib::to_multiset_build(input.take(i as int), text@);
            vstd::seq_lib::to_multiset_insert(before, at as int, text@);
        }
        i += 1;
    }
    proof {
        assert(input.take(n as int) =~= input);
        vstd::seq_lib::lemma_sorted_unique(
            sorted.deep_view(),
            input.sort_by(text_order()),
            text_order(),
        );
    }
    sorted
}

/// A set of texts, listed in the text order.
pub open spec fn in_order(texts: Set<Seq<char>>) -> Seq<Seq<char>> {
    texts.to_sorted_seq(text_order())
}

proof fn lemma_to_seq_len(texts: Set<Seq<char>>)
    requires
        texts.finite(),
    ensures
        texts.to_seq().len() == texts.len(),
    decreases texts.len(),
{
    if texts.len() > 0 {
        lemma_to_seq_len(texts.remove(texts.choose()));
    }
}

proof fn lemma_distinct_multiset(a: Seq<Seq<char>>, b: Seq<Seq<char>>)
    requires
        a.no_duplicates(),
        b.no_duplicates(),
        a.to_set() == b.to_set(),
    ensures
        a.to_multiset() == b.to_multiset(),
{
    broadcast use vstd::seq_lib::to_multiset_contains;

    a.lemma_multiset_has_no_duplicates();
    b.lemma_multiset_has_no_duplicates();
    assert forall|x: Seq<char>| a.to_multiset().count(x) == b.to_multiset().count(x) by {
        assert(a.to_set().contains(x) == a.contains(x));
        assert(b.to_set().contains(x) == b.contains(x));
        if a.contains(x) {
            assert(a.to_multiset().contains(x));
            assert(b.to_multiset().contains(x));
        }
    }
    assert(a.to_multiset() =~= b.to_multiset());
}

/// Sorting a list without repetitions lists the set of its texts in order.
pub proof fn lemma_sorting_distinct_texts(texts: Seq<Seq<char>>)
    requires
        texts.no_duplicates(),
    ensures
        sorted_texts(texts) == in_order(texts.to_set()),
{
    let set = texts.to_set();
    vstd::seq_lib::seq_to_set_is_finite(texts);
    let listed = set.to_seq();
    set.lemma_to_seq_to_set_id();
    lemma_to_seq_len(set);
    listed.lemma_no_dup_set_cardinality();
    lemma_distinct_multiset(texts, listed);
    lemma_text_order_is_total();
    texts.lemma_sort_by_ensures(text_order());
    listed.lemma_sort_by_ensures(text_order());
    vstd::seq_lib::lemma_sorted_unique(
        texts.sort_by(text_order()),
        listed.sort_by(text_order()),
        text_order(),
    );
}

/// A set of texts in order lists each text of the set once, and no other.
pub proof fn lemma_in_order(texts: Set<Seq<char>>)
    requires
        texts.finite(),
    ensures
        in_order(texts).no_duplicates(),
        in_order(texts).to_set() == texts,
        relations::sorted_by(in_order(texts), text_order()),
{
    broadcast use vstd::seq_lib::to_multiset_contains;

    let listed = texts.to_seq();
    let ordered = in_order(texts);
    texts.lemma_to_seq_to_set_id();
    lemma_to_seq_len(texts);
    listed.lemma_no_dup_set_cardinality();
    lemma_text_order_is_total();
    listed.lemma_sort_by_ensures(text_order());
    listed.lemma_multiset_has_no_duplicates();
    ordered.lemma_multiset_has_no_duplicates_conv();
    assert forall|x: Seq<char>| ordered.to_set().contains(x) == texts.contains(x) by {
        assert(ordered.contains(x) == (ordered.to_multiset().count(x) > 0));
        assert(listed.contains(x) == (listed.to_multiset().count(x) > 0));
        assert(listed.to_set().contains(x) == texts.contains(x));
    }
    assert(ordered.to_set() =~= texts);
}

/// Whether a list of texts holds `text`.
pub fn holds_text(texts: &Vec<String>, text: &str) -> (res: bool)
    ensures
        res == texts.deep_view().contains(text@),
{
    let n: usize = texts.len();
    let mut i: usize = 0;
    while i < n
        invariant
            i <= n,
            n == texts@.len(),
            forall|j: int| 0 <= j < i ==> texts.deep_view()[j] != text@,
        decreases n - i,
    {
        assert(texts.deep_view()[i as int] == texts@[i as int]@);
        if same_text(texts[i].as_str(), text) {
            return true;
        }
        i += 1;
    }
    false
}

/// The distinct texts of a list, in the text order.
pub fn sorted_distinct(texts: Vec<String>) -> (res: Vec<String>)
    ensures
        res.deep_view() == in_order(texts.deep_view().to_set()),
{
    let mut distinct: Vec<String> = Vec::new();
    let n: usize = texts.len();
    let mut i: usize = 0;
    let ghost input = texts.deep_view();
    assert(distinct.deep_view().to_set() =~= input.take(0).to_set());
    while i < n
        invariant
            i <= n,
            n == texts@.len(),
            input == texts.deep_view(),
            distinct.deep_view().no_duplicates(),
            distinct.deep_view().to_set() == input.take(i as int).to_set(),
        decreases n - i,
    {
        let text = texts[i].clone();
        let ghost before = distinct.deep_view();
        proof {
            assert(input.take(i + 1) =~= input.take(i as int).push(text@));
            input.take(i as int).lemma_push_to_set_commute(text@);
        }
        if !holds_text(&distinct, text.as_str()) {
            distinct.push(text);
            proof {
                assert(distinct.deep_view() =~= before.push(text@));
                before.lemma_push_to_set_commute(text@);
            }
        } else {
            assert(before.to_set().contains(text@));
            assert(before.to_set() =~= before.to_set().insert(text@));
        }
        i += 1;
    }
    assert(input.take(n as int) =~= input);
    proof {
        lemma_sorting_distinct_texts(distinct.deep_view());
    }
    sort_texts(distinct)
}

/// Sorting keeps the number of texts.
pub proof fn lemma_sorted_len(texts: Seq<Seq<char>>)
    ensures
        sorted_texts(texts).len() == texts.len(),
{
    lemma_text_order_is_total();
    texts.lemma_sort_by_ensures(text_order());
    vstd::seq_lib::to_multiset_len(texts);
    vstd::seq_lib::to_multiset_len(sorted_texts(texts));
}

/// Sorting keeps each text.
pub proof fn lemma_sorted_contains(texts: Seq<Seq<char>>, one: Seq<char>)
    ensures
        sorted_texts(texts).contains(one) == texts.contains(one),
{
    broadcast use vstd::seq_lib::to_multiset_contains;

    lemma_text_order_is_total();
    texts.lemma_sort_by_ensures(text_order());
    assert(texts.contains(one) == (texts.to_multiset().count(one) > 0));
    assert(sorted_texts(texts).contains(one) == (sorted_texts(texts).to_multiset().count(one)
        > 0));
}

/// Texts with a separator between each two.
pub open spec fn joined(texts: Seq<Seq<char>>, separator: Seq<char>) -> Seq<char>
    decreases texts.len(),
{
    if texts.len() == 0 {
        Seq::empty()
    } else if texts.len() == 1 {
        texts[0]
    } else {
        joined(texts.drop_last(), separator) + separator + texts.last()
    }
}

/// Join texts with a separator between each two.
pub fn join(texts: &Vec<String>, separator: &str) -> (res: String)
    ensures
        res@ == joined(texts.deep_view(), separator@),
{
    let mut res = String::new();
    let n: usize = texts.len();
    let mut i: usize = 0;
    while i < n
        invariant
            i <= n,
            n == texts@.len(),
            res@ == joined(texts.deep_view().take(i as int), separator@),
        decreases n - i,
    {
        proof {
            let next = texts.deep_view().take(i + 1);
            assert(next.drop_last() =~= texts.deep_view().take(i as int));
            assert(next.last() == texts@[i as int]@);
        }
        if i > 0 {
            res.append(separator);
        }
        res.append(texts[i].as_str());
        assert(res@ =~= joined(texts.deep_view().take(i + 1), separator@));
        i += 1;
    }
    assert(texts.deep_view().take(n as int) =~= texts.deep_view());
    res
}

/// Five texts, one after the other.
pub fn concat(a: &str, b: &str, c: &str, d: &str, e: &str) -> (res: String)
    ensures
        res@ == a@ + b@ + c@ + d@ + e@,
{
    let mut res = a.to_owned();
    res.append(b);
    res.append(c);
    res.append(d);
    res.append(e);
    res
}

/// The characters of a text.
pub fn chars_of(text: &str) -> (res: Vec<char>)
    ensures
        res@ == text@,
{
    let mut chars: Vec<char> = Vec::new();
    for c in iter: text.chars()
        invariant
            iter.seq() == text@,
            chars@ == text@.take(iter.index() as int),
    {
        chars.push(c);
        assert(text@.take(iter.index() + 1) =~= text@.take(iter.index() as int).push(c));
    }
    assert(text@.take(text@.len() as int) =~= text@);
    chars
}

/// The text that some characters make.
pub fn text_between(chars: &Vec<char>, from: usize, to: usize) -> (res: String)
    requires
        from <= to <= chars@.len(),
    ensures
        res@ == chars@.subrange(from as int, to as int),
{
    let mut res = String::new();
    let mut i: usize = from;
    while i < to
        invariant
            from <= i <= to <= chars@.len(),
            res@ == chars@.subrange(from as int, i as int),
        decreases to - i,
    {
        res.push(chars[i]);
        assert(res@ =~= chars@.subrange(from as int, i + 1));
        i += 1;
    }
    res
}

/// What follows a prefix, where the text has it.
pub open spec fn without_prefix(text: Seq<char>, prefix: Seq<char>) -> Option<Seq<char>> {
    if prefix.len() <= text.len() && text.take(prefix.len() as int) == prefix {
        Some(text.skip(prefix.len() as int))
    } else {
        None
    }
}

/// What follows a prefix, where the text has it.
pub fn strip_prefix(text: &str, prefix: &str) -> (res: Option<String>)
    ensures
        res.deep_view() == without_prefix(text@, prefix@),
{
    let whole = chars_of(text);
    let front = chars_of(prefix);
    let n: usize = front.len();
    if n > whole.len() {
        return None;
    }
    let mut i: usize = 0;
    while i < n
        invariant
            i <= n <= whole@.len(),
            n == front@.len(),
            whole@ == text@,
            front@ == prefix@,
            forall|j: int| 0 <= j < i ==> whole@[j] == front@[j],
        decreases n - i,
    {
        if whole[i] != front[i] {
            assert(text@.take(n as int)[i as int] != prefix@[i as int]);
            return None;
        }
        i += 1;
    }
    assert(text@.take(n as int) =~= prefix@);
    let rest = text_between(&whole, n, whole.len());
    assert(rest@ =~= text@.skip(n as int));
    Some(rest)
}

}
