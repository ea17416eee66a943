//! How the words of a text are found, and what of a recognised phrase is typed.

use crate::config::Config;
use crate::distance::{distance, law_distance_zero};
use crate::phrase::{
    blanked, byte_len, control_words, descending, first_word, has_word, law_longest_first,
    longest_first, lower_texts, placed, shaped, stripped,
};
use crate::strip_laws::{
    is_word, law_control_words_are_gone, law_words_of_joined, lemma_word_len_of, lemma_words,
};
use crate::text::{
    has_part, is_space, joined, lemma_word_len, lowercase, occurs_at, replaced, trim_end,
    trim_start, trimmed, uppercase_char, word_len, words,
};
use vstd::prelude::*;
use vstd::utf8::encode_scalar;

verus! {

// ── words, parts and joints ───────────────────────────────────────────────
/// Every character of white space parts the words of a text, and nothing else does:
/// nothing has no words, a run of other characters is one word, and the words around
/// white space are those before it and those behind it.
pub proof fn law_white_space_parts_words(a: Seq<char>, c: char, b: Seq<char>)
    requires
        is_space(c),
    ensures
        words(Seq::empty()) == Seq::<Seq<char>>::empty(),
        is_word(a) ==> words(a) == seq![a],
        words(a + seq![c] + b) == words(a) + words(b),
    decreases a.len(),
{
    let s = a + seq![c] + b;
    if is_word(a) {
        lemma_one_word(a);
    }
    if a.len() == 0 {
        assert(s.skip(1) =~= b);
        assert(words(a) + words(b) =~= words(b));
    } else if is_space(a[0]) {
        assert(s.skip(1) =~= a.skip(1) + seq![c] + b);
        law_white_space_parts_words(a.skip(1), c, b);
    } else {
        lemma_word_len(a);
        let n = word_len(a) as int;
        let w = a.take(n);
        let rest = a.skip(n) + seq![c] + b;
        assert(s =~= w + rest);
        assert(rest[0] == (if n < a.len() {
            a[n]
        } else {
            c
        }));
        assert(is_word(w)) by {
            assert(n > 0);
            assert forall|i: int| 0 <= i < w.len() implies !is_space(#[trigger] w[i]) by {
                assert(!is_space(a[i]));
            }
        }
        lemma_word_len_of(w, rest);
        assert(s.take(n) =~= w);
        assert(s.skip(n) =~= rest);
        law_white_space_parts_words(a.skip(n), c, b);
        assert(words(s) =~= words(a) + words(b));
    }
}

proof fn lemma_one_word(a: Seq<char>)
    requires
        is_word(a),
    ensures
        words(a) == seq![a],
{
    lemma_word_len_of(a, Seq::empty());
    assert(a + Seq::<char>::empty() =~= a);
    assert(!is_space(a[0]));
    assert(a.take(a.len() as int) =~= a);
    assert(words(a.skip(a.len() as int)) =~= Seq::<Seq<char>>::empty());
    assert(words(a) =~= seq![a]);
}

/// A text has a part exactly if it is the part with something before and something
/// behind it.
pub proof fn law_part_with_its_surroundings(s: Seq<char>, p: Seq<char>, a: Seq<char>, b: Seq<char>)
    ensures
        has_part(a + p + b, p),
        has_part(s, p) ==> exists|x: Seq<char>, y: Seq<char>| s == #[trigger] (x + p + y),
{
    let t = a + p + b;
    assert(t.subrange(a.len() as int, (a.len() + p.len()) as int) =~= p);
    assert(occurs_at(t, p, a.len() as int));
    if has_part(s, p) {
        let i = choose|i: int| occurs_at(s, p, i);
        assert(s =~= s.take(i) + p + s.skip(i + p.len()));
    }
}

proof fn lemma_replaced_absent(s: Seq<char>, p: Seq<char>, with: Seq<char>)
    requires
        p.len() > 0,
        !has_part(s, p),
    ensures
        replaced(s, p, with) == s,
    decreases s.len(),
{
    if s.len() >= p.len() {
        assert(s.subrange(0, p.len() as int) =~= s.take(p.len() as int));
        assert(!occurs_at(s, p, 0));
        if has_part(s.skip(1), p) {
            let i = choose|i: int| occurs_at(s.skip(1), p, i);
            assert(s.subrange(i + 1, i + 1 + p.len()) =~= s.skip(1).subrange(i, i + p.len()));
            assert(occurs_at(s, p, i + 1));
        }
        lemma_replaced_absent(s.skip(1), p, with);
        assert(seq![s[0]] + s.skip(1) =~= s);
    }
}

/// Replacing leaves a text alone that has no such part; else the first such part gives
/// way to the replacement, what stands before it stays, and what stands behind it is
/// dealt with in the same way.
pub proof fn law_replaced(s: Seq<char>, p: Seq<char>, with: Seq<char>, i: int)
    requires
        p.len() > 0,
        occurs_at(s, p, i),
        forall|j: int| 0 <= j < i ==> !occurs_at(s, p, j),
    ensures
        replaced(s, p, with) == s.take(i) + with + replaced(s.skip(i + p.len()), p, with),
        forall|t: Seq<char>| !has_part(t, p) ==> #[trigger] replaced(t, p, with) == t,
    decreases i,
{
    assert forall|t: Seq<char>| !has_part(t, p) implies #[trigger] replaced(t, p, with) == t by {
        lemma_replaced_absent(t, p, with);
    }
    let n = p.len() as int;
    assert(s.subrange(0, n) =~= s.take(n));
    if i == 0 {
        assert(s.take(0) + with + replaced(s.skip(n), p, with) =~= with + replaced(
            s.skip(n),
            p,
            with,
        ));
    } else {
        assert(!occurs_at(s, p, 0));
        let t = s.skip(1);
        assert(t.subrange(i - 1, i - 1 + n) =~= s.subrange(i, i + n));
        assert forall|j: int| 0 <= j < i - 1 implies !occurs_at(t, p, j) by {
            assert(!occurs_at(s, p, j + 1));
            assert(t.subrange(j, j + n) =~= s.subrange(j + 1, j + 1 + n));
        }
        law_replaced(t, p, with, i - 1);
        assert(t.skip(i - 1 + n) =~= s.skip(i + n));
        assert(seq![s[0]] + (t.take(i - 1) + with + replaced(s.skip(i + n), p, with)) =~= s.take(i)
            + with + replaced(s.skip(i + n), p, with));
    }
}

/// Texts are joined with the separator between neighbours and nowhere else.
pub proof fn law_joined(a: Seq<Seq<char>>, b: Seq<Seq<char>>, w: Seq<char>, sep: Seq<char>)
    requires
        a.len() > 0,
        b.len() > 0,
    ensures
        joined(Seq::empty(), sep) == Seq::<char>::empty(),
        joined(seq![w], sep) == w,
        joined(a + b, sep) == joined(a, sep) + sep + joined(b, sep),
    decreases b.len(),
{
    let both = a + b;
    assert(both.last() == b.last());
    assert(both.drop_last() =~= a + b.drop_last());
    if b.len() == 1 {
        assert(a + b.drop_last() =~= a);
        assert(b[0] == b.last());
    } else {
        law_joined(a, b.drop_last(), w, sep);
        assert(joined(both, sep) =~= joined(a, sep) + sep + joined(b, sep));
    }
}

// ── control words in a text ───────────────────────────────────────────────
/// A control word of one word is heard wherever in the text it stands; with `fuzzy`
/// also where a word of the text is one edit away from it. Without `fuzzy` a word of
/// the text must be it to the letter, and with it none may be further away.
pub proof fn law_word_is_heard_anywhere(text: Seq<char>, w: Seq<char>, fuzzy: bool, k: int)
    requires
        w.len() > 0,
        !w.contains(' '),
        0 <= k < words(text).len(),
    ensures
        words(text)[k] == w ==> has_word(text, w, fuzzy),
        distance(words(text)[k], w) <= 1 ==> has_word(text, w, true),
        has_word(text, w, false) ==> has_word(text, w, true),
        has_word(text, w, false) ==> words(text).contains(w),
        has_word(text, w, true) ==> exists|i: int|
            0 <= i < words(text).len() && distance(#[trigger] words(text)[i], w) <= 1,
{
    law_distance_zero(w, w);
    let ws = words(text);
    if has_word(text, w, false) {
        let i = choose|i: int| 0 <= i < ws.len() && (#[trigger] ws[i]) == w;
        assert(ws[i] == w);
    }
    if has_word(text, w, true) {
        let i = choose|i: int|
            0 <= i < ws.len() && ((#[trigger] ws[i]) == w || distance(ws[i], w) <= 1);
        assert(distance(ws[i], w) <= 1);
    }
}

/// The same with the text around the word: white space or the end of the text must be
/// on both sides.
pub proof fn law_word_among_others(
    before: Seq<char>,
    w: Seq<char>,
    behind: Seq<char>,
    spoken: Seq<char>,
    c: char,
    d: char,
)
    requires
        is_word(w),
        is_word(spoken),
        is_space(c),
        is_space(d),
    ensures
        has_word(w, w, false),
        has_word(before + seq![c] + w + seq![d] + behind, w, false),
        distance(spoken, w) <= 1 ==> has_word(
            before + seq![c] + spoken + seq![d] + behind,
            w,
            true,
        ),
{
    assert(!w.contains(' ')) by {
        if w.contains(' ') {
            let i = choose|i: int| 0 <= i < w.len() && w[i] == ' ';
            assert(!is_space(w[i]));
        }
    }
    lemma_one_word(w);
    assert(words(w)[0] == w);
    law_word_is_heard_anywhere(w, w, false, 0);
    lemma_middle_word(before, w, behind, c, d);
    let t = before + seq![c] + w + seq![d] + behind;
    law_word_is_heard_anywhere(t, w, false, words(before).len() as int);
    lemma_middle_word(before, spoken, behind, c, d);
    let u = before + seq![c] + spoken + seq![d] + behind;
    law_word_is_heard_anywhere(u, w, true, words(before).len() as int);
}

proof fn lemma_middle_word(
    before: Seq<char>,
    w: Seq<char>,
    behind: Seq<char>,
    c: char,
    d: char,
)
    requires
        is_word(w),
        is_space(c),
        is_space(d),
    ensures
        words(before + seq![c] + w + seq![d] + behind).len() > words(before).len(),
        words(before + seq![c] + w + seq![d] + behind)[words(before).len() as int] == w,
{
    let front = before + seq![c] + w;
    law_white_space_parts_words(front, d, behind);
    law_white_space_parts_words(before, c, w);
    lemma_one_word(w);
    assert((words(before) + seq![w] + words(behind))[words(before).len() as int] == w);
}

/// A control word that holds a space is heard exactly where the text has it as a part,
/// and nothing is heard of a control word without letters.
pub proof fn law_phrase_is_heard_as_it_is(
    text: Seq<char>,
    w: Seq<char>,
    a: Seq<char>,
    b: Seq<char>,
    fuzzy: bool,
)
    ensures
        w.contains(' ') ==> has_word(a + w + b, w, fuzzy),
        w.contains(' ') && has_word(text, w, fuzzy) ==> exists|x: Seq<char>, y: Seq<char>|
            text == #[trigger] (x + w + y),
        !has_word(text, Seq::empty(), fuzzy),
{
    law_part_with_its_surroundings(text, w, a, b);
    if w.contains(' ') {
        assert(w.len() > 0);
    }
}

// ── removing control words ────────────────────────────────────────────────
proof fn lemma_replaced_split(s: Seq<char>, c: char, t: Seq<char>, p: Seq<char>, with: Seq<char>)
    requires
        is_word(p),
        is_space(c),
    ensures
        replaced(s + seq![c] + t, p, with) == replaced(s, p, with) + seq![c] + replaced(
            t,
            p,
            with,
        ),
    decreases s.len(),
{
    let x = s + seq![c] + t;
    let n = p.len() as int;
    let right = replaced(t, p, with);
    assert(!is_space(p[0]));
    if s.len() >= n {
        assert(x.take(n) =~= s.take(n));
        if s.take(n) == p {
            assert(x.skip(n) =~= s.skip(n) + seq![c] + t);
            lemma_replaced_split(s.skip(n), c, t, p, with);
            assert(replaced(x, p, with) =~= replaced(s, p, with) + seq![c] + right);
        } else {
            assert(x.skip(1) =~= s.skip(1) + seq![c] + t);
            lemma_replaced_split(s.skip(1), c, t, p, with);
            assert(x[0] == s[0]);
            assert(replaced(x, p, with) =~= replaced(s, p, with) + seq![c] + right);
        }
    } else if x.len() < n {
        assert(replaced(x, p, with) =~= s + seq![c] + t);
    } else {
        assert(x.take(n) != p) by {
            assert(x.take(n)[s.len() as int] == c);
            assert(!is_space(p[s.len() as int]));
        }
        if s.len() == 0 {
            assert(x.skip(1) =~= t);
            assert(replaced(x, p, with) =~= replaced(s, p, with) + seq![c] + right);
        } else {
            assert(x.skip(1) =~= s.skip(1) + seq![c] + t);
            lemma_replaced_split(s.skip(1), c, t, p, with);
            assert(x[0] == s[0]);
            assert(replaced(s.skip(1), p, with) == s.skip(1));
            assert(replaced(x, p, with) =~= s + seq![c] + right);
        }
    }
}

spec fn all_words(list: Seq<Seq<char>>) -> bool {
    forall|k: int| 0 <= k < list.len() ==> is_word(#[trigger] list[k])
}

proof fn lemma_blanked_split(s: Seq<char>, c: char, t: Seq<char>, list: Seq<Seq<char>>)
    requires
        all_words(list),
        is_space(c),
    ensures
        blanked(s + seq![c] + t, list) == blanked(s, list) + seq![c] + blanked(t, list),
    decreases list.len(),
{
    if list.len() > 0 {
        let short = list.drop_last();
        assert(is_word(list[list.len() - 1]));
        lemma_blanked_split(s, c, t, short);
        lemma_replaced_split(blanked(s, short), c, blanked(t, short), list.last(), " "@);
    }
}

proof fn lemma_order(list: Seq<Seq<char>>)
    ensures
        forall|w: Seq<char>| #[trigger] longest_first(list).contains(w) <==> list.contains(w),
        (forall|k: int| 0 <= k < list.len() ==> is_word(#[trigger] list[k])) ==> all_words(
            longest_first(list),
        ),
{
    broadcast use vstd::seq_lib::group_to_multiset_ensures;

    law_longest_first(list);
    let order = longest_first(list);
    assert forall|w: Seq<char>| #[trigger] order.contains(w) <==> list.contains(w) by {
        assert(order.contains(w) <==> order.to_multiset().count(w) > 0);
        assert(list.contains(w) <==> list.to_multiset().count(w) > 0);
    }
    if forall|k: int| 0 <= k < list.len() ==> is_word(#[trigger] list[k]) {
        assert forall|k: int| 0 <= k < order.len() implies is_word(#[trigger] order[k]) by {
            assert(order.contains(order[k]));
            let j = choose|j: int| 0 <= j < list.len() && list[j] == order[k];
            assert(is_word(list[j]));
        }
    }
}

proof fn lemma_words_of_stripped(lower: Seq<char>, list: Seq<Seq<char>>)
    ensures
        words(stripped(lower, list)) == words(blanked(lower, longest_first(list))),
{
    let b = blanked(lower, longest_first(list));
    lemma_words(b);
    law_words_of_joined(words(b));
}

/// Control words of one word are removed from what stands before white space and from
/// what stands behind it, each by itself.
pub proof fn law_each_word_by_itself(a: Seq<char>, c: char, b: Seq<char>, list: Seq<Seq<char>>)
    requires
        is_space(c),
        forall|k: int| 0 <= k < list.len() ==> is_word(#[trigger] list[k]),
    ensures
        words(shaped(a + seq![c] + b, list, false)) == words(shaped(a, list, false)) + words(
            shaped(b, list, false),
        ),
{
    lemma_order(list);
    let order = longest_first(list);
    lemma_blanked_split(a, c, b, order);
    law_white_space_parts_words(blanked(a, order), c, blanked(b, order));
    lemma_words_of_stripped(a + seq![c] + b, list);
    lemma_words_of_stripped(a, list);
    lemma_words_of_stripped(b, list);
}

proof fn lemma_bytes(a: Seq<char>, b: Seq<char>)
    ensures
        byte_len(a + b) == byte_len(a) + byte_len(b),
        byte_len(a) >= a.len(),
    decreases a.len(),
{
    if a.len() == 0 {
        assert(a + b =~= b);
    } else {
        lemma_bytes(a.drop_first(), b);
        assert((a + b).drop_first() =~= a.drop_first() + b);
        assert((a + b)[0] == a[0]);
        assert(encode_scalar(a[0] as u32).len() >= 1);
    }
}

proof fn lemma_part_is_shorter(w: Seq<char>, q: Seq<char>)
    requires
        has_part(w, q),
        q != w,
    ensures
        byte_len(q) < byte_len(w),
{
    let i = choose|i: int| occurs_at(w, q, i);
    let a = w.take(i);
    let b = w.skip(i + q.len());
    assert(w =~= a + q + b);
    lemma_bytes(a + q, b);
    lemma_bytes(a, q);
    lemma_bytes(b, Seq::empty());
    if a.len() == 0 && b.len() == 0 {
        assert(w =~= q);
    }
}

proof fn lemma_untouched(w: Seq<char>, list: Seq<Seq<char>>)
    requires
        all_words(list),
        forall|k: int| 0 <= k < list.len() ==> !has_part(w, #[trigger] list[k]),
    ensures
        blanked(w, list) == w,
    decreases list.len(),
{
    if list.len() > 0 {
        let short = list.drop_last();
        assert forall|k: int| 0 <= k < short.len() implies !has_part(w, #[trigger] short[k]) by {
            assert(short[k] == list[k]);
        }
        lemma_untouched(w, short);
        assert(is_word(list[list.len() - 1]));
        lemma_replaced_absent(w, list.last(), " "@);
    }
}

proof fn lemma_blank_stays(list: Seq<Seq<char>>, q: Seq<char>)
    requires
        is_word(q),
    ensures
        replaced(" "@, q, " "@) == " "@,
{
    reveal_strlit(" ");
    if has_part(" "@, q) {
        let i = choose|i: int| occurs_at(" "@, q, i);
        assert(" "@.subrange(i, i + q.len())[0] == ' ');
        assert(!is_space(q[0]));
    }
    lemma_replaced_absent(" "@, q, " "@);
}

proof fn lemma_taken_out(w: Seq<char>, order: Seq<Seq<char>>, i: int, n: int)
    requires
        is_word(w),
        all_words(order),
        descending(order),
        0 <= i < n <= order.len(),
        order[i] == w,
        forall|k: int| 0 <= k < i ==> order[k] != w,
    ensures
        blanked(w, order.take(n)) == " "@,
    decreases n,
{
    let now = order.take(n);
    assert(now.drop_last() =~= order.take(n - 1));
    assert(now.last() == order[n - 1]);
    if n == i + 1 {
        let before = order.take(i);
        assert forall|k: int| 0 <= k < before.len() implies !has_part(w, #[trigger] before[k]) by {
            assert(before[k] == order[k]);
            assert(byte_len(order[k]) >= byte_len(order[i]));
            if has_part(w, order[k]) {
                lemma_part_is_shorter(w, order[k]);
            }
        }
        assert forall|k: int| 0 <= k < before.len() implies is_word(#[trigger] before[k]) by {
            assert(before[k] == order[k]);
        }
        lemma_untouched(w, before);
        assert(w.take(w.len() as int) =~= w);
        assert(w.skip(w.len() as int) =~= Seq::<char>::empty());
        assert(replaced(w.skip(w.len() as int), w, " "@) =~= Seq::<char>::empty());
        assert(" "@ + Seq::<char>::empty() =~= " "@);
    } else {
        lemma_taken_out(w, order, i, n - 1);
        assert(is_word(order[n - 1]));
        lemma_blank_stays(order, order[n - 1]);
    }
}

proof fn lemma_empty_stays(list: Seq<Seq<char>>)
    requires
        all_words(list),
    ensures
        blanked(Seq::empty(), list) == Seq::<char>::empty(),
    decreases list.len(),
{
    if list.len() > 0 {
        assert(is_word(list[list.len() - 1]));
        lemma_empty_stays(list.drop_last());
    }
}

/// A word of the text is a control word, or has none in it.
pub open spec fn apart(w: Seq<char>, list: Seq<Seq<char>>) -> bool {
    list.contains(w) || forall|k: int| 0 <= k < list.len() ==> !has_part(w, #[trigger] list[k])
}

proof fn lemma_word_apart(w: Seq<char>, list: Seq<Seq<char>>)
    requires
        is_word(w),
        apart(w, list),
        forall|k: int| 0 <= k < list.len() ==> is_word(#[trigger] list[k]),
    ensures
        words(blanked(w, longest_first(list))) == (if list.contains(w) {
            Seq::<Seq<char>>::empty()
        } else {
            seq![w]
        }),
{
    lemma_order(list);
    law_longest_first(list);
    let order = longest_first(list);
    if list.contains(w) {
        assert(order.contains(w));
        order.index_of_first_ensures(w);
        let i = order.index_of_first(w)->0;
        lemma_taken_out(w, order, i, order.len() as int);
        assert(order.take(order.len() as int) =~= order);
        reveal_strlit(" ");
        assert(" "@ =~= seq![' ']);
        assert(is_space(' '));
        assert(" "@.skip(1) =~= Seq::<char>::empty());
        assert(words(Seq::<char>::empty()) =~= Seq::<Seq<char>>::empty());
    } else {
        assert forall|k: int| 0 <= k < order.len() implies !has_part(w, #[trigger] order[k]) by {
            assert(order.contains(order[k]));
            let j = choose|j: int| 0 <= j < list.len() && list[j] == order[k];
            assert(!has_part(w, list[j]));
        }
        lemma_untouched(w, order);
        lemma_one_word(w);
    }
}

proof fn lemma_filtered(lower: Seq<char>, list: Seq<Seq<char>>)
    requires
        forall|k: int| 0 <= k < list.len() ==> is_word(#[trigger] list[k]),
        forall|k: int| 0 <= k < words(lower).len() ==> apart(#[trigger] words(lower)[k], list),
    ensures
        words(blanked(lower, longest_first(list))) == words(lower).filter(
            |w: Seq<char>| !list.contains(w),
        ),
    decreases lower.len(),
{
    let f = |w: Seq<char>| !list.contains(w);
    let order = longest_first(list);
    lemma_order(list);
    lemma_word_len(lower);
    let n = word_len(lower) as int;
    let a = lower.take(n);
    lemma_empty_stays(order);
    assert(words(Seq::<char>::empty()) =~= Seq::<Seq<char>>::empty());
    if n > 0 {
        assert(is_word(a)) by {
            assert forall|i: int| 0 <= i < a.len() implies !is_space(#[trigger] a[i]) by {
                assert(!is_space(lower[i]));
            }
        }
        lemma_one_word(a);
    } else {
        assert(a =~= Seq::<char>::empty());
    }
    reveal(Seq::filter);
    assert(seq![a].filter(f) =~= (if list.contains(a) {
        Seq::<Seq<char>>::empty()
    } else {
        seq![a]
    })) by {
        assert(seq![a].last() == a);
        assert(seq![a].drop_last() =~= Seq::<Seq<char>>::empty());
        assert(Seq::<Seq<char>>::empty().filter(f) =~= Seq::<Seq<char>>::empty());
    }
    assert(Seq::<Seq<char>>::empty().filter(f) =~= Seq::<Seq<char>>::empty());
    if n == lower.len() {
        assert(a =~= lower);
        if n > 0 {
            assert(words(lower)[0] == a);
            lemma_word_apart(a, list);
        }
    } else {
        let c = lower[n];
        let b = lower.skip(n + 1);
        assert(lower =~= a + seq![c] + b);
        law_white_space_parts_words(a, c, b);
        lemma_blanked_split(a, c, b, order);
        law_white_space_parts_words(blanked(a, order), c, blanked(b, order));
        let m = words(a).len() as int;
        assert forall|k: int| 0 <= k < words(b).len() implies apart(#[trigger] words(b)[k], list) by {
            assert(words(lower)[m + k] == words(b)[k]);
        }
        lemma_filtered(b, list);
        if n > 0 {
            assert(words(lower)[0] == a);
            lemma_word_apart(a, list);
        }
        Seq::filter_distributes_over_add(words(a), words(b), f);
    }
}

/// Where each word of a text is a control word or has none in it, just the control
/// words go: the others are typed in their order, with single spaces between them.
pub proof fn law_other_words_stay(lower: Seq<char>, list: Seq<Seq<char>>)
    requires
        forall|k: int| 0 <= k < list.len() ==> is_word(#[trigger] list[k]),
        forall|k: int| 0 <= k < words(lower).len() ==> apart(#[trigger] words(lower)[k], list),
    ensures
        shaped(lower, list, false) == joined(
            words(lower).filter(|w: Seq<char>| !list.contains(w)),
            seq![' '],
        ),
{
    reveal_strlit(" ");
    assert(" "@ =~= seq![' ']);
    lemma_filtered(lower, list);
}

/// One control word, of whatever characters, goes wherever it stands, and parts what is
/// around it: up to its first place the words of the text stay, and behind it the text
/// is dealt with in the same way. A text that does not have it keeps its words.
pub proof fn law_one_control_word(s: Seq<char>, p: Seq<char>, i: int)
    requires
        p.len() > 0,
    ensures
        occurs_at(s, p, i) && (forall|j: int| 0 <= j < i ==> !occurs_at(s, p, j)) ==> words(
            shaped(s, seq![p], false),
        ) == words(s.take(i)) + words(shaped(s.skip(i + p.len()), seq![p], false)),
        !has_part(s, p) ==> words(shaped(s, seq![p], false)) == words(s),
{
    let list = seq![p];
    let order = longest_first(list);
    assert(order =~= list) by {
        assert(list.drop_last() =~= Seq::<Seq<char>>::empty());
        assert(longest_first(list.drop_last()) =~= Seq::<Seq<char>>::empty());
    }
    reveal_strlit(" ");
    assert(" "@ =~= seq![' ']);
    assert forall|t: Seq<char>| #[trigger] blanked(t, list) == replaced(t, p, seq![' ']) by {
        assert(list.drop_last() =~= Seq::<Seq<char>>::empty());
        assert(blanked(t, list.drop_last()) == t);
        assert(list.last() == p);
    }
    lemma_words_of_stripped(s, list);
    if occurs_at(s, p, i) && (forall|j: int| 0 <= j < i ==> !occurs_at(s, p, j)) {
        let rest = s.skip(i + p.len());
        law_replaced(s, p, seq![' '], i);
        law_white_space_parts_words(s.take(i), ' ', replaced(rest, p, seq![' ']));
        lemma_words_of_stripped(rest, list);
    }
    if !has_part(s, p) {
        lemma_replaced_absent(s, p, seq![' ']);
    }
}

proof fn lemma_placed_first(list: Seq<Seq<char>>, p: Seq<char>)
    requires
        forall|k: int| 0 <= k < list.len() ==> byte_len(#[trigger] list[k]) < byte_len(p),
    ensures
        placed(list, p) == seq![p] + list,
    decreases list.len(),
{
    if list.len() > 0 {
        assert(byte_len(list[list.len() - 1]) < byte_len(p));
        let short = list.drop_last();
        assert forall|k: int| 0 <= k < short.len() implies byte_len(#[trigger] short[k]) < byte_len(
            p,
        ) by {
            assert(short[k] == list[k]);
        }
        lemma_placed_first(short, p);
    }
    assert(placed(list, p) =~= seq![p] + list);
}

proof fn lemma_placed_behind(p: Seq<char>, list: Seq<Seq<char>>, w: Seq<char>)
    requires
        byte_len(p) >= byte_len(w),
    ensures
        placed(seq![p] + list, w) == seq![p] + placed(list, w),
    decreases list.len(),
{
    let both = seq![p] + list;
    if list.len() == 0 {
        assert(both.last() == p);
    } else {
        assert(both.last() == list.last());
        assert(both.drop_last() =~= seq![p] + list.drop_last());
        if byte_len(list.last()) < byte_len(w) {
            lemma_placed_behind(p, list.drop_last(), w);
        }
    }
    assert(placed(both, w) =~= seq![p] + placed(list, w));
}

proof fn lemma_longest_leads(list: Seq<Seq<char>>, j: int)
    requires
        0 <= j < list.len(),
        forall|k: int| 0 <= k < j ==> byte_len(#[trigger] list[k]) < byte_len(list[j]),
        forall|k: int| j < k < list.len() ==> byte_len(#[trigger] list[k]) <= byte_len(list[j]),
    ensures
        longest_first(list) == seq![list[j]] + longest_first(list.remove(j)),
    decreases list.len(),
{
    let p = list[j];
    let short = list.drop_last();
    let w = list.last();
    if j == list.len() - 1 {
        lemma_order(short);
        let done = longest_first(short);
        assert forall|k: int| 0 <= k < done.len() implies byte_len(#[trigger] done[k]) < byte_len(
            p,
        ) by {
            assert(done.contains(done[k]));
            let i = choose|i: int| 0 <= i < short.len() && short[i] == done[k];
            assert(list[i] == done[k]);
        }
        lemma_placed_first(done, p);
        assert(list.remove(j) =~= short);
    } else {
        assert(short[j] == p);
        assert forall|k: int| 0 <= k < j implies byte_len(#[trigger] short[k]) < byte_len(p) by {
            assert(short[k] == list[k]);
        }
        assert forall|k: int| j < k < short.len() implies byte_len(#[trigger] short[k]) <= byte_len(
            p,
        ) by {
            assert(short[k] == list[k]);
        }
        lemma_longest_leads(short, j);
        assert(byte_len(list[list.len() - 1]) <= byte_len(p));
        lemma_placed_behind(p, longest_first(short.remove(j)), w);
        assert(list.remove(j).drop_last() =~= short.remove(j));
        assert(list.remove(j).last() == w);
    }
}

proof fn lemma_blanked_first(s: Seq<char>, p: Seq<char>, list: Seq<Seq<char>>)
    ensures
        blanked(s, seq![p] + list) == blanked(replaced(s, p, " "@), list),
    decreases list.len(),
{
    let both = seq![p] + list;
    if list.len() == 0 {
        assert(both.drop_last() =~= Seq::<Seq<char>>::empty());
        assert(both.last() == p);
        assert(blanked(s, both.drop_last()) == s);
    } else {
        assert(both.drop_last() =~= seq![p] + list.drop_last());
        assert(both.last() == list.last());
        lemma_blanked_first(s, p, list.drop_last());
    }
}

/// Of several control words the longest goes first, wherever it is in the list, and
/// then the others: so a control word within a longer one does not spoil that one.
pub proof fn law_longest_control_word_goes_first(s: Seq<char>, list: Seq<Seq<char>>, j: int)
    requires
        0 <= j < list.len(),
        forall|k: int| 0 <= k < j ==> byte_len(#[trigger] list[k]) < byte_len(list[j]),
        forall|k: int| j < k < list.len() ==> byte_len(#[trigger] list[k]) <= byte_len(list[j]),
    ensures
        shaped(s, list, false) == shaped(replaced(s, list[j], seq![' ']), list.remove(j), false),
{
    lemma_longest_leads(list, j);
    lemma_blanked_first(s, list[j], longest_first(list.remove(j)));
    reveal_strlit(" ");
    assert(" "@ =~= seq![' ']);
}

/// Neither a wake word nor a stop word of the settings is ever typed, not even as a
/// part of a word.
pub proof fn law_control_words_are_not_typed(cfg: Config, text: Seq<char>, i: int)
    ensures
        0 <= i < cfg.wake_words@.len() && is_word(lowercase(cfg.wake_words@[i]@)) ==> !has_part(
            shaped(lowercase(text), lower_texts(control_words(cfg)), false),
            lowercase(cfg.wake_words@[i]@),
        ),
        0 <= i < cfg.stop_words@.len() && is_word(lowercase(cfg.stop_words@[i]@)) ==> !has_part(
            shaped(lowercase(text), lower_texts(control_words(cfg)), false),
            lowercase(cfg.stop_words@[i]@),
        ),
{
    let list = lower_texts(control_words(cfg));
    let n = cfg.stop_words@.len() as int;
    if 0 <= i < cfg.wake_words@.len() && is_word(lowercase(cfg.wake_words@[i]@)) {
        assert(list[n + i] == lowercase(cfg.wake_words@[i]@));
        law_control_words_are_gone(lowercase(text), list, list[n + i]);
    }
    if 0 <= i < n && is_word(lowercase(cfg.stop_words@[i]@)) {
        assert(list[i] == lowercase(cfg.stop_words@[i]@));
        law_control_words_are_gone(lowercase(text), list, list[i]);
    }
}

/// Only the wake words and the stop words of the settings are control words: a text
/// that has none of them in it is typed whole, with single spaces between its words.
pub proof fn law_only_control_words_go(cfg: Config, text: Seq<char>)
    requires
        forall|i: int|
            0 <= i < cfg.wake_words@.len() ==> is_word(
                lowercase((#[trigger] cfg.wake_words@[i])@),
            ) && !has_part(lowercase(text), lowercase(cfg.wake_words@[i]@)),
        forall|i: int|
            0 <= i < cfg.stop_words@.len() ==> is_word(
                lowercase((#[trigger] cfg.stop_words@[i])@),
            ) && !has_part(lowercase(text), lowercase(cfg.stop_words@[i]@)),
    ensures
        shaped(lowercase(text), lower_texts(control_words(cfg)), false) == joined(
            words(lowercase(text)),
            seq![' '],
        ),
{
    let list = lower_texts(control_words(cfg));
    let n = cfg.stop_words@.len() as int;
    let lower = lowercase(text);
    assert forall|k: int| 0 <= k < list.len() implies is_word(#[trigger] list[k]) && !has_part(
        lower,
        list[k],
    ) by {
        if k < n {
            assert(list[k] == lowercase(cfg.stop_words@[k]@));
        } else {
            assert(list[k] == lowercase(cfg.wake_words@[k - n]@));
        }
    }
    lemma_order(list);
    let order = longest_first(list);
    assert forall|k: int| 0 <= k < order.len() implies !has_part(lower, #[trigger] order[k]) by {
        assert(order.contains(order[k]));
        let j = choose|j: int| 0 <= j < list.len() && list[j] == order[k];
        assert(!has_part(lower, list[j]));
    }
    lemma_untouched(lower, order);
    reveal_strlit(" ");
    assert(" "@ =~= seq![' ']);
}

/// The capital letter changes the first character of what is typed and nothing else.
pub proof fn law_capital_letter(lower: Seq<char>, list: Seq<Seq<char>>)
    ensures
        ({
            let plain = shaped(lower, list, false);
            shaped(lower, list, true) == (if plain.len() == 0 {
                plain
            } else {
                uppercase_char(plain[0]) + plain.skip(1)
            })
        }),
{
}

// ── white space at the ends ───────────────────────────────────────────────
/// White space is what Unicode says it is: these 25 characters and no others.
pub proof fn law_white_space(c: char)
    ensures
        is_space(c) <==> seq![
            0x9u32,
            0xA,
            0xB,
            0xC,
            0xD,
            0x20,
            0x85,
            0xA0,
            0x1680,
            0x2000,
            0x2001,
            0x2002,
            0x2003,
            0x2004,
            0x2005,
            0x2006,
            0x2007,
            0x2008,
            0x2009,
            0x200A,
            0x2028,
            0x2029,
            0x202F,
            0x205F,
            0x3000,
        ].contains(c as u32),
{
    let u = c as u32;
    let all = seq![
        0x9u32,
        0xA,
        0xB,
        0xC,
        0xD,
        0x20,
        0x85,
        0xA0,
        0x1680,
        0x2000,
        0x2001,
        0x2002,
        0x2003,
        0x2004,
        0x2005,
        0x2006,
        0x2007,
        0x2008,
        0x2009,
        0x200A,
        0x2028,
        0x2029,
        0x202F,
        0x205F,
        0x3000,
    ];
    if 0x9 <= u <= 0xD {
        assert(all[u - 0x9] == u);
    } else if 0x2000 <= u <= 0x200A {
        assert(all[u - 0x2000 + 9] == u);
    } else if is_space(c) {
        assert(all[5] == 0x20 && all[6] == 0x85 && all[7] == 0xA0 && all[8] == 0x1680);
        assert(all[20] == 0x2028 && all[21] == 0x2029 && all[22] == 0x202F);
        assert(all[23] == 0x205F && all[24] == 0x3000);
    }
}

/// Trimming takes the white space at both ends away, and nothing between.
pub proof fn law_trimmed(a: Seq<char>, s: Seq<char>, b: Seq<char>)
    requires
        forall|i: int| 0 <= i < a.len() ==> is_space(#[trigger] a[i]),
        forall|i: int| 0 <= i < b.len() ==> is_space(#[trigger] b[i]),
        s.len() > 0 ==> !is_space(s[0]) && !is_space(s.last()),
    ensures
        trimmed(a + s + b) == s,
{
    if s.len() > 0 {
        lemma_trim_front(a, s + b);
        assert(a + s + b =~= a + (s + b));
        assert((s + b)[0] == s[0]);
        assert(trim_start(s + b) == s + b);
        lemma_trim_back(s, b);
        assert(trim_end(s) == s);
    } else {
        let t = a + b;
        assert(a + s + b =~= t + Seq::<char>::empty());
        assert forall|i: int| 0 <= i < t.len() implies is_space(#[trigger] t[i]) by {
            if i >= a.len() {
                assert(is_space(b[i - a.len()]));
            }
        }
        lemma_trim_front(t, Seq::empty());
        assert(s =~= Seq::<char>::empty());
    }
}

proof fn lemma_trim_front(a: Seq<char>, s: Seq<char>)
    requires
        forall|i: int| 0 <= i < a.len() ==> is_space(#[trigger] a[i]),
    ensures
        trim_start(a + s) == trim_start(s),
    decreases a.len(),
{
    if a.len() > 0 {
        assert((a + s)[0] == a[0]);
        assert((a + s).skip(1) =~= a.skip(1) + s);
        lemma_trim_front(a.skip(1), s);
    } else {
        assert(a + s =~= s);
    }
}

proof fn lemma_trim_back(s: Seq<char>, b: Seq<char>)
    requires
        forall|i: int| 0 <= i < b.len() ==> is_space(#[trigger] b[i]),
    ensures
        trim_end(s + b) == trim_end(s),
    decreases b.len(),
{
    if b.len() > 0 {
        assert((s + b).last() == b.last());
        assert(is_space(b[b.len() - 1]));
        assert((s + b).drop_last() =~= s + b.drop_last());
        lemma_trim_back(s, b.drop_last());
    } else {
        assert(s + b =~= s);
    }
}

/// Of the words in a list, the first that is heard is given, and none if none is heard.
pub proof fn law_first_word_that_is_heard(lower: Seq<char>, list: Seq<Seq<char>>, fuzzy: bool)
    ensures
        match first_word(lower, list, fuzzy) {
            Some(w) => exists|i: int|
                0 <= i < list.len() && (#[trigger] list[i]) == w && has_word(lower, w, fuzzy)
                    && forall|k: int|
                    0 <= k < i ==> !has_word(lower, #[trigger] list[k], fuzzy),
            None => forall|k: int|
                0 <= k < list.len() ==> !has_word(lower, #[trigger] list[k], fuzzy),
        },
    decreases list.len(),
{
    if list.len() > 0 && !has_word(lower, list[0], fuzzy) {
        let rest = list.skip(1);
        law_first_word_that_is_heard(lower, rest, fuzzy);
        match first_word(lower, list, fuzzy) {
            Some(w) => {
                let i = choose|i: int|
                    0 <= i < rest.len() && (#[trigger] rest[i]) == w && has_word(lower, w, fuzzy)
                        && forall|k: int|
                        0 <= k < i ==> !has_word(lower, #[trigger] rest[k], fuzzy);
                assert(list[i + 1] == w);
                assert forall|k: int| 0 <= k < i + 1 implies !has_word(
                    lower,
                    #[trigger] list[k],
                    fuzzy,
                ) by {
                    if k > 0 {
                        assert(rest[k - 1] == list[k]);
                    }
                }
            },
            None => {
                assert forall|k: int| 0 <= k < list.len() implies !has_word(
                    lower,
                    #[trigger] list[k],
                    fuzzy,
                ) by {
                    if k > 0 {
                        assert(rest[k - 1] == list[k]);
                    }
                }
            },
        }
    }
}

} // verus!
