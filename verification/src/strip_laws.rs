//! Removing control words really removes them.

use crate::phrase::{blanked, first_word, has_word, law_longest_first, longest_first, stripped};
use crate::text::{
    has_part, is_space, joined, lemma_word_len, occurs_at, replaced, spread, word_len, words,
};
use vstd::prelude::*;

verus! {

/// A text of at least one character, none of them white space.
pub open spec fn is_word(p: Seq<char>) -> bool {
    &&& p.len() > 0
    &&& forall|i: int| 0 <= i < p.len() ==> !is_space(#[trigger] p[i])
}

spec fn no_blank(p: Seq<char>) -> bool {
    forall|i: int| 0 <= i < p.len() ==> #[trigger] p[i] != ' '
}

proof fn lemma_word_no_blank(p: Seq<char>)
    requires
        is_word(p),
    ensures
        no_blank(p),
{
    assert forall|i: int| 0 <= i < p.len() implies #[trigger] p[i] != ' ' by {
        assert(!is_space(p[i]));
    }
}

proof fn lemma_part_later(s: Seq<char>, n: int, p: Seq<char>)
    requires
        0 <= n <= s.len(),
        has_part(s.skip(n), p),
    ensures
        has_part(s, p),
{
    let i = choose|i: int| occurs_at(s.skip(n), p, i);
    assert(s.subrange(i + n, i + n + p.len()) =~= s.skip(n).subrange(i, i + p.len()));
    assert(occurs_at(s, p, i + n));
}

proof fn lemma_part_in_part(s: Seq<char>, t: Seq<char>, p: Seq<char>)
    requires
        has_part(s, t),
        has_part(t, p),
    ensures
        has_part(s, p),
{
    let i = choose|i: int| occurs_at(s, t, i);
    let j = choose|j: int| occurs_at(t, p, j);
    assert(s.subrange(i + j, i + j + p.len()) =~= s.subrange(i, i + t.len()).subrange(
        j,
        j + p.len(),
    ));
    assert(occurs_at(s, p, i + j));
}

// The blank-free beginning of a replaced text stood in the text itself.
proof fn lemma_replaced_start(t: Seq<char>, q: Seq<char>, m: int)
    requires
        q.len() > 0,
        0 <= m <= replaced(t, q, seq![' ']).len(),
        no_blank(replaced(t, q, seq![' ']).take(m)),
    ensures
        m <= t.len(),
        replaced(t, q, seq![' ']).take(m) == t.take(m),
    decreases t.len(),
{
    let r = replaced(t, q, seq![' ']);
    if m == 0 {
        assert(r.take(0) =~= t.take(0));
    } else if t.len() < q.len() {
    } else if t.take(q.len() as int) == q {
        assert(r.take(m)[0] == ' ');
    } else {
        let rest = replaced(t.skip(1), q, seq![' ']);
        assert(r =~= seq![t[0]] + rest);
        assert(rest.take(m - 1) =~= r.take(m).skip(1));
        assert forall|i: int| 0 <= i < m - 1 implies #[trigger] rest.take(m - 1)[i] != ' ' by {
            assert(r.take(m)[i + 1] == rest.take(m - 1)[i]);
        }
        lemma_replaced_start(t.skip(1), q, m - 1);
        assert(r.take(m) =~= seq![t[0]] + rest.take(m - 1));
        assert(t.take(m) =~= seq![t[0]] + t.skip(1).take(m - 1));
    }
}

proof fn lemma_spread(s: Seq<char>)
    ensures
        spread(s, seq![' ']).len() == 2 * s.len() + 1,
        forall|k: int|
            0 <= k < spread(s, seq![' ']).len() ==> (#[trigger] spread(s, seq![' '])[k]) == (if k % 2
                == 0 {
                ' '
            } else {
                s[k / 2]
            }),
    decreases s.len(),
{
    if s.len() > 0 {
        lemma_spread(s.drop_last());
    }
}

proof fn lemma_part_of_replaced(s: Seq<char>, q: Seq<char>, p: Seq<char>, i: int)
    requires
        p.len() > 0,
        no_blank(p),
        occurs_at(replaced(s, q, seq![' ']), p, i),
    ensures
        has_part(s, p),
    decreases s.len(),
{
    let r = replaced(s, q, seq![' ']);
    assert(r.subrange(i, i + p.len())[0] == r[i]);
    if q.len() == 0 {
        lemma_spread(s);
        assert(r[i] == p[0]);
        if p.len() > 1 {
            assert(r.subrange(i, i + p.len())[1] == r[i + 1]);
            assert(p[1] == r[i + 1]);
        }
        assert(p =~= s.subrange(i / 2, i / 2 + p.len()));
        assert(occurs_at(s, p, i / 2));
    } else if s.len() < q.len() {
    } else if s.take(q.len() as int) == q {
        let rest = replaced(s.skip(q.len() as int), q, seq![' ']);
        assert(r =~= seq![' '] + rest);
        assert(p[0] == r[i]);
        assert(rest.subrange(i - 1, i - 1 + p.len()) =~= r.subrange(i, i + p.len()));
        lemma_part_of_replaced(s.skip(q.len() as int), q, p, i - 1);
        lemma_part_later(s, q.len() as int, p);
    } else {
        let rest = replaced(s.skip(1), q, seq![' ']);
        assert(r =~= seq![s[0]] + rest);
        if i == 0 {
            assert(r.take(p.len() as int) =~= r.subrange(0, p.len() as int));
            lemma_replaced_start(s, q, p.len() as int);
            assert(s.subrange(0, p.len() as int) =~= s.take(p.len() as int));
            assert(occurs_at(s, p, 0));
        } else {
            assert(rest.subrange(i - 1, i - 1 + p.len()) =~= r.subrange(i, i + p.len()));
            lemma_part_of_replaced(s.skip(1), q, p, i - 1);
            lemma_part_later(s, 1, p);
        }
    }
}

proof fn lemma_replaced_is_gone(s: Seq<char>, p: Seq<char>, i: int)
    requires
        p.len() > 0,
        no_blank(p),
    ensures
        !occurs_at(replaced(s, p, seq![' ']), p, i),
    decreases s.len(),
{
    let r = replaced(s, p, seq![' ']);
    if occurs_at(r, p, i) {
        assert(r.subrange(i, i + p.len())[0] == r[i]);
        if s.len() < p.len() {
        } else if s.take(p.len() as int) == p {
            let rest = replaced(s.skip(p.len() as int), p, seq![' ']);
            assert(r =~= seq![' '] + rest);
            assert(p[0] == r[i]);
            assert(rest.subrange(i - 1, i - 1 + p.len()) =~= r.subrange(i, i + p.len()));
            lemma_replaced_is_gone(s.skip(p.len() as int), p, i - 1);
        } else {
            let rest = replaced(s.skip(1), p, seq![' ']);
            assert(r =~= seq![s[0]] + rest);
            if i == 0 {
                assert(r.take(p.len() as int) =~= r.subrange(0, p.len() as int));
                lemma_replaced_start(s, p, p.len() as int);
            } else {
                assert(rest.subrange(i - 1, i - 1 + p.len()) =~= r.subrange(i, i + p.len()));
                lemma_replaced_is_gone(s.skip(1), p, i - 1);
            }
        }
    }
}

proof fn lemma_blanked_is_gone(s: Seq<char>, list: Seq<Seq<char>>, p: Seq<char>)
    requires
        is_word(p),
        list.contains(p),
    ensures
        !has_part(blanked(s, list), p),
    decreases list.len(),
{
    lemma_word_no_blank(p);
    reveal_strlit(" ");
    assert(" "@ =~= seq![' ']);
    let short = list.drop_last();
    let before = blanked(s, short);
    if has_part(blanked(s, list), p) {
        let i = choose|i: int| occurs_at(blanked(s, list), p, i);
        if list.last() == p {
            lemma_replaced_is_gone(before, p, i);
        } else {
            let k = choose|k: int| 0 <= k < list.len() && list[k] == p;
            assert(short[k] == p);
            lemma_blanked_is_gone(s, short, p);
            lemma_part_of_replaced(before, list.last(), p, i);
        }
    }
}

proof fn lemma_part_of_joined(list: Seq<Seq<char>>, p: Seq<char>, i: int)
    requires
        p.len() > 0,
        no_blank(p),
        occurs_at(joined(list, seq![' ']), p, i),
    ensures
        exists|k: int| 0 <= k < list.len() && has_part(#[trigger] list[k], p),
    decreases list.len(),
{
    let r = joined(list, seq![' ']);
    if list.len() == 0 {
    } else if list.len() == 1 {
        assert(occurs_at(list[0], p, i));
        assert(has_part(list[0], p));
    } else {
        let a = joined(list.drop_last(), seq![' ']);
        let b = list.last();
        assert(r =~= a + seq![' '] + b);
        if i + p.len() <= a.len() {
            assert(a.subrange(i, i + p.len()) =~= r.subrange(i, i + p.len()));
            lemma_part_of_joined(list.drop_last(), p, i);
            let k = choose|k: int|
                0 <= k < list.drop_last().len() && has_part(#[trigger] list.drop_last()[k], p);
            assert(has_part(list[k], p));
        } else if i > a.len() {
            let j = i - a.len() - 1;
            assert(b.subrange(j, j + p.len()) =~= r.subrange(i, i + p.len()));
            assert(occurs_at(b, p, j));
            assert(has_part(list[list.len() - 1], p));
        } else {
            let at = a.len() - i;
            assert(r.subrange(i, i + p.len())[at] == ' ');
            assert(p[at] == ' ');
        }
    }
}

/// The words of a text are parts of it, and each is a word.
pub proof fn lemma_words(s: Seq<char>)
    ensures
        forall|k: int|
            0 <= k < words(s).len() ==> is_word(#[trigger] words(s)[k]) && has_part(s, words(s)[k]),
    decreases s.len(),
{
    lemma_word_len(s);
    if s.len() == 0 {
    } else if is_space(s[0]) {
        lemma_words(s.skip(1));
        assert forall|k: int| 0 <= k < words(s).len() implies is_word(#[trigger] words(s)[k])
            && has_part(s, words(s)[k]) by {
            assert(words(s)[k] == words(s.skip(1))[k]);
            lemma_part_later(s, 1, words(s)[k]);
        }
    } else {
        let n = word_len(s) as int;
        lemma_words(s.skip(n));
        assert forall|k: int| 0 <= k < words(s).len() implies is_word(#[trigger] words(s)[k])
            && has_part(s, words(s)[k]) by {
            if k == 0 {
                assert(words(s)[0] == s.take(n));
                assert(s.take(n) =~= s.subrange(0, n));
                assert(occurs_at(s, s.take(n), 0));
            } else {
                assert(words(s)[k] == words(s.skip(n))[k - 1]);
                lemma_part_later(s, n, words(s)[k]);
            }
        }
    }
}

/// A control word of one word is nowhere in the text that is left when the
/// control words were removed.
pub proof fn law_control_words_are_gone(lower: Seq<char>, list: Seq<Seq<char>>, p: Seq<char>)
    requires
        is_word(p),
        list.contains(p),
    ensures
        !has_part(stripped(lower, list), p),
{
    broadcast use vstd::seq_lib::group_to_multiset_ensures;

    lemma_word_no_blank(p);
    reveal_strlit(" ");
    assert(" "@ =~= seq![' ']);
    law_longest_first(list);
    let order = longest_first(list);
    assert(list.to_multiset().count(p) > 0);
    assert(order.contains(p));
    let left = blanked(lower, order);
    lemma_blanked_is_gone(lower, order, p);
    if has_part(stripped(lower, list), p) {
        let i = choose|i: int| occurs_at(stripped(lower, list), p, i);
        lemma_part_of_joined(words(left), p, i);
        let k = choose|k: int| 0 <= k < words(left).len() && has_part(#[trigger] words(left)[k], p);
        lemma_words(left);
        lemma_part_in_part(left, words(left)[k], p);
    }
}

proof fn lemma_words_of_joined_push(list: Seq<Seq<char>>)
    requires
        forall|k: int| 0 <= k < list.len() ==> is_word(#[trigger] list[k]),
        list.len() > 1,
    ensures
        joined(list, seq![' ']) == list[0] + seq![' '] + joined(list.skip(1), seq![' ']),
    decreases list.len(),
{
    let short = list.drop_last();
    if list.len() == 2 {
        assert(joined(short, seq![' ']) == short[0]);
        assert(joined(list.skip(1), seq![' ']) == list[1]);
    } else {
        lemma_words_of_joined_push(short);
        assert(list.skip(1).drop_last() =~= short.skip(1));
        assert(list.skip(1).last() == list.last());
        let tail = joined(short.skip(1), seq![' ']);
        assert(joined(list, seq![' ']) == joined(short, seq![' ']) + seq![' '] + list.last());
        assert(joined(list.skip(1), seq![' ']) == tail + seq![' '] + list.last());
        assert(short[0] + seq![' '] + tail + seq![' '] + list.last() =~= list[0] + seq![' '] + (tail
            + seq![' '] + list.last()));
    }
}

pub proof fn lemma_word_len_of(w: Seq<char>, rest: Seq<char>)
    requires
        is_word(w),
        rest.len() == 0 || is_space(rest[0]),
    ensures
        word_len(w + rest) == w.len(),
    decreases w.len(),
{
    let s = w + rest;
    assert(s[0] == w[0] && !is_space(w[0]));
    assert(s.skip(1) =~= w.skip(1) + rest);
    if w.len() > 1 {
        assert(is_word(w.skip(1)));
        lemma_word_len_of(w.skip(1), rest);
    } else {
        assert(s.skip(1) =~= rest);
        assert(word_len(rest) == 0);
    }
}

/// Words joined by single spaces are read back as the same words.
pub proof fn law_words_of_joined(list: Seq<Seq<char>>)
    requires
        forall|k: int| 0 <= k < list.len() ==> is_word(#[trigger] list[k]),
    ensures
        words(joined(list, " "@)) == list,
    decreases list.len(),
{
    reveal_strlit(" ");
    assert(" "@ =~= seq![' ']);
    let s = joined(list, seq![' ']);
    if list.len() == 0 {
        assert(words(s) =~= list);
    } else if list.len() == 1 {
        lemma_word_len_of(list[0], Seq::empty());
        assert(list[0] + Seq::<char>::empty() =~= s);
        assert(!is_space(list[0][0]));
        assert(s.take(s.len() as int) =~= s);
        assert(words(s.skip(s.len() as int)) =~= Seq::<Seq<char>>::empty());
        assert(words(s) =~= list);
    } else {
        lemma_words_of_joined_push(list);
        let tail = joined(list.skip(1), seq![' ']);
        let rest = seq![' '] + tail;
        assert(s =~= list[0] + rest);
        lemma_word_len_of(list[0], rest);
        let n = list[0].len() as int;
        assert(!is_space(list[0][0]));
        assert(s[0] == list[0][0]);
        assert(s.take(n) =~= list[0]);
        assert(s.skip(n) =~= rest);
        assert(rest.skip(1) =~= tail);
        assert(words(rest) == words(tail));
        law_words_of_joined(list.skip(1));
        assert(words(s) =~= seq![list[0]] + list.skip(1));
        assert(words(s) =~= list);
    }
}

/// What is left when control words were removed has no leading or trailing
/// white space and single spaces between its words: its words, joined by single
/// spaces, give it back.
pub proof fn law_stripped_is_tidy(lower: Seq<char>, list: Seq<Seq<char>>)
    ensures
        joined(words(stripped(lower, list)), " "@) == stripped(lower, list),
{
    let ws = words(blanked(lower, longest_first(list)));
    lemma_words(blanked(lower, longest_first(list)));
    law_words_of_joined(ws);
}

/// A control word is found exactly if the text has one of the list, and it is
/// the first of the list that the text has.
pub proof fn law_first_word(lower: Seq<char>, list: Seq<Seq<char>>, fuzzy: bool)
    ensures
        first_word(lower, list, fuzzy) is Some <==> exists|k: int|
            0 <= k < list.len() && has_word(lower, #[trigger] list[k], fuzzy),
        first_word(lower, list, fuzzy) is Some ==> exists|k: int|
            0 <= k < list.len() && #[trigger] list[k] == first_word(lower, list, fuzzy)->0
                && has_word(lower, list[k], fuzzy) && forall|j: int|
                0 <= j < k ==> !has_word(lower, #[trigger] list[j], fuzzy),
    decreases list.len(),
{
    if list.len() > 0 {
        if has_word(lower, list[0], fuzzy) {
        } else {
            let tail = list.skip(1);
            law_first_word(lower, tail, fuzzy);
            if first_word(lower, list, fuzzy) is Some {
                let k = choose|k: int|
                    0 <= k < tail.len() && #[trigger] tail[k] == first_word(lower, tail, fuzzy)->0
                        && has_word(lower, tail[k], fuzzy) && forall|j: int|
                        0 <= j < k ==> !has_word(lower, #[trigger] tail[j], fuzzy);
                assert(list[k + 1] == tail[k]);
                assert forall|j: int| 0 <= j < k + 1 implies !has_word(
                    lower,
                    #[trigger] list[j],
                    fuzzy,
                ) by {
                    if j > 0 {
                        assert(tail[j - 1] == list[j]);
                    }
                }
            } else {
                assert forall|k: int| 0 <= k < list.len() implies !has_word(
                    lower,
                    #[trigger] list[k],
                    fuzzy,
                ) by {
                    if k > 0 {
                        assert(tail[k - 1] == list[k]);
                    }
                }
            }
        }
    }
}

} // verus!
