//! What is done to a recognised phrase: finding and removing the control words,
//! the capital letter, and the keystrokes that turn one text into another.

use crate::config::Config;
use crate::distance::{distance, lev};
use crate::text::{
    chars_of, contains, copy_list, has_part, join, joined, lemma_texts_push, lowercase, replace,
    replaced, same, split_whitespace, string_of, texts, to_lowercase, to_uppercase, uppercase_char,
    words,
};
use vstd::prelude::*;
use vstd::utf8::encode_utf8;

verus! {

// ── live typing ───────────────────────────────────────────────────────────
/// How many characters two texts have in common at their start.
pub open spec fn common_len(a: Seq<char>, b: Seq<char>) -> nat
    decreases a.len(),
{
    if a.len() > 0 && b.len() > 0 && a[0] == b[0] {
        1 + common_len(a.skip(1), b.skip(1))
    } else {
        0
    }
}

pub proof fn lemma_common_len(a: Seq<char>, b: Seq<char>)
    ensures
        common_len(a, b) <= a.len(),
        common_len(a, b) <= b.len(),
        a.take(common_len(a, b) as int) == b.take(common_len(a, b) as int),
        forall|n: int|
            0 <= n <= a.len() && n <= b.len() && #[trigger] a.take(n) == b.take(n) ==> n
                <= common_len(a, b),
    decreases a.len(),
{
    let c = common_len(a, b) as int;
    if a.len() > 0 && b.len() > 0 && a[0] == b[0] {
        let (s, t) = (a.skip(1), b.skip(1));
        lemma_common_len(s, t);
        assert(a.take(c) =~= seq![a[0]] + s.take(c - 1));
        assert(b.take(c) =~= seq![b[0]] + t.take(c - 1));
        assert forall|n: int|
            0 <= n <= a.len() && n <= b.len() && #[trigger] a.take(n) == b.take(n) implies n
            <= c by {
            if n > 0 {
                assert(s.take(n - 1) =~= a.take(n).skip(1));
                assert(t.take(n - 1) =~= b.take(n).skip(1));
            }
        }
    } else {
        assert(a.take(0) =~= b.take(0));
        assert forall|n: int|
            0 <= n <= a.len() && n <= b.len() && #[trigger] a.take(n) == b.take(n) implies n
            <= c by {
            if n > 0 {
                assert(a.take(n)[0] == a[0]);
                assert(b.take(n)[0] == b[0]);
            }
        }
    }
}

/// What stands on a screen that showed `screen` after `back` presses of
/// Backspace and the typing of `suffix`.
pub open spec fn retyped(screen: Seq<char>, back: int, suffix: Seq<char>) -> Seq<char> {
    screen.take(screen.len() - back) + suffix
}

/// The keystrokes that turn `emitted` into `target`: how many characters to
/// erase and what to type then.
pub fn diff(emitted: &str, target: &str) -> (r: (usize, String))
    ensures
        r.0 == emitted@.len() - common_len(emitted@, target@),
        r.1@ == target@.skip(common_len(emitted@, target@) as int),
{
    let a = chars_of(emitted);
    let b = chars_of(target);
    let mut k: usize = 0;
    assert(a@.skip(0) =~= a@ && b@.skip(0) =~= b@);
    while k < a.len() && k < b.len() && a[k] == b[k]
        invariant
            k <= a@.len(),
            k <= b@.len(),
            common_len(a@, b@) == k + common_len(a@.skip(k as int), b@.skip(k as int)),
        decreases a@.len() - k,
    {
        assert(a@.skip(k as int).skip(1) =~= a@.skip(k + 1));
        assert(b@.skip(k as int).skip(1) =~= b@.skip(k + 1));
        k += 1;
    }
    assert(common_len(a@.skip(k as int), b@.skip(k as int)) == 0) by {
        if k < a@.len() && k < b@.len() {
            assert(a@.skip(k as int)[0] == a@[k as int]);
            assert(b@.skip(k as int)[0] == b@[k as int]);
        }
    }
    let suffix = string_of(&b, k, b.len());
    assert(suffix@ =~= b@.skip(k as int));
    (a.len() - k, suffix)
}

/// Whatever stands before the emitted text, the keystrokes of `diff` replace
/// the emitted text by the target and leave the rest alone.
pub proof fn law_diff_reaches_target(before: Seq<char>, emitted: Seq<char>, target: Seq<char>)
    ensures
        ({
            let c = common_len(emitted, target) as int;
            &&& 0 <= emitted.len() - c <= emitted.len()
            &&& retyped(before + emitted, emitted.len() - c, target.skip(c)) == before + target
        }),
{
    let c = common_len(emitted, target) as int;
    lemma_common_len(emitted, target);
    assert((before + emitted).take(before.len() + c) =~= before + emitted.take(c));
    assert(before + emitted.take(c) + target.skip(c) =~= before + (target.take(c) + target.skip(c)));
    assert(target.take(c) + target.skip(c) =~= target);
}

/// No other keystrokes that erase within the emitted text and give the target
/// erase fewer characters.
pub proof fn law_diff_erases_least(
    emitted: Seq<char>,
    target: Seq<char>,
    back: int,
    suffix: Seq<char>,
)
    requires
        0 <= back <= emitted.len(),
        retyped(emitted, back, suffix) == target,
    ensures
        emitted.len() - common_len(emitted, target) <= back,
{
    lemma_common_len(emitted, target);
    let n = emitted.len() - back;
    assert(target.take(n) =~= emitted.take(n));
}

/// Nothing is erased where the phrase only grows, and nothing at all is done
/// where it stays the same.
pub proof fn law_diff_of_growth(emitted: Seq<char>, more: Seq<char>)
    ensures
        emitted.len() - common_len(emitted, emitted + more) == 0,
        (emitted + more).skip(common_len(emitted, emitted + more) as int) == more,
{
    lemma_common_len(emitted, emitted + more);
    let n = emitted.len() as int;
    assert(emitted.take(n) =~= (emitted + more).take(n));
    assert((emitted + more).skip(n) =~= more);
}

// ── control words ─────────────────────────────────────────────────────────
/// The number of bytes of a text in UTF-8.
pub open spec fn byte_len(w: Seq<char>) -> nat {
    encode_utf8(w).len()
}

/// `list` with `w` put behind the last text that is at least as long.
pub open spec fn placed(list: Seq<Seq<char>>, w: Seq<char>) -> Seq<Seq<char>>
    decreases list.len(),
{
    if list.len() == 0 || byte_len(list.last()) >= byte_len(w) {
        list.push(w)
    } else {
        placed(list.drop_last(), w).push(list.last())
    }
}

/// The texts with the longest first; those of one length keep their order.
pub open spec fn longest_first(list: Seq<Seq<char>>) -> Seq<Seq<char>>
    decreases list.len(),
{
    if list.len() == 0 {
        list
    } else {
        placed(longest_first(list.drop_last()), list.last())
    }
}

proof fn lemma_placed(list: Seq<Seq<char>>, w: Seq<char>)
    ensures
        placed(list, w).len() == list.len() + 1,
        placed(list, w).to_multiset() == list.to_multiset().insert(w),
        forall|i: int|
            0 <= i < placed(list, w).len() ==> #[trigger] placed(list, w)[i] == w || list.contains(
                placed(list, w)[i],
            ),
    decreases list.len(),
{
    broadcast use vstd::seq_lib::group_to_multiset_ensures;

    if list.len() == 0 || byte_len(list.last()) >= byte_len(w) {
    } else {
        let short = list.drop_last();
        lemma_placed(short, w);
        assert(list =~= short.push(list.last()));
        assert(placed(list, w).to_multiset() =~= list.to_multiset().insert(w));
        assert forall|i: int| 0 <= i < placed(list, w).len() implies #[trigger] placed(list, w)[i]
            == w || list.contains(placed(list, w)[i]) by {
            if i < placed(short, w).len() {
                assert(placed(list, w)[i] == placed(short, w)[i]);
                if placed(short, w)[i] != w {
                    let k = choose|k: int| 0 <= k < short.len() && short[k] == placed(short, w)[i];
                    assert(list[k] == placed(list, w)[i]);
                }
            } else {
                assert(list[list.len() - 1] == placed(list, w)[i]);
            }
        }
    }
}

/// No text is longer than one before it.
pub open spec fn descending(list: Seq<Seq<char>>) -> bool {
    forall|i: int, j: int|
        0 <= i <= j < list.len() ==> byte_len(#[trigger] list[i]) >= byte_len(#[trigger] list[j])
}

proof fn lemma_placed_descending(list: Seq<Seq<char>>, w: Seq<char>)
    requires
        descending(list),
    ensures
        descending(placed(list, w)),
    decreases list.len(),
{
    if list.len() == 0 || byte_len(list.last()) >= byte_len(w) {
        assert forall|i: int, j: int| 0 <= i <= j < list.push(w).len() implies byte_len(
            #[trigger] list.push(w)[i],
        ) >= byte_len(#[trigger] list.push(w)[j]) by {
            if j == list.len() && i < j {
                assert(byte_len(list[i]) >= byte_len(list[list.len() - 1]));
            }
        }
    } else {
        let short = list.drop_last();
        lemma_placed_descending(short, w);
        lemma_placed(short, w);
        let p = placed(list, w);
        assert forall|i: int, j: int| 0 <= i <= j < p.len() implies byte_len(#[trigger] p[i])
            >= byte_len(#[trigger] p[j]) by {
            if j < p.len() - 1 {
                assert(byte_len(placed(short, w)[i]) >= byte_len(placed(short, w)[j]));
            } else if i < j {
                assert(p[i] == placed(short, w)[i]);
                if p[i] != w {
                    let k = choose|k: int| 0 <= k < short.len() && short[k] == placed(short, w)[i];
                    assert(byte_len(list[k]) >= byte_len(list[list.len() - 1]));
                }
            }
        }
    }
}

/// The texts of `list` whose UTF-8 form has `n` bytes, in their order.
pub open spec fn of_length(list: Seq<Seq<char>>, n: nat) -> Seq<Seq<char>> {
    list.filter(|w: Seq<char>| byte_len(w) == n)
}

proof fn lemma_placed_stable(list: Seq<Seq<char>>, w: Seq<char>, n: nat)
    requires
        descending(list),
    ensures
        of_length(placed(list, w), n) == of_length(list.push(w), n),
    decreases list.len(),
{
    let f = |x: Seq<char>| byte_len(x) == n;
    if list.len() == 0 || byte_len(list.last()) >= byte_len(w) {
    } else {
        let short = list.drop_last();
        let last = list.last();
        lemma_placed_stable(short, w, n);
        reveal(Seq::filter);
        assert(placed(list, w).drop_last() =~= placed(short, w));
        assert(placed(list, w).last() == last);
        assert(short.push(w).drop_last() =~= short);
        assert(list.push(w).drop_last() =~= list);
        assert(list =~= short.push(last));
        assert(byte_len(last) < byte_len(w));
        if byte_len(w) == n {
            assert(of_length(list, n) == of_length(short, n));
        } else {
            assert(of_length(short.push(w), n) == of_length(short, n));
            assert(of_length(list.push(w), n) == of_length(list, n));
        }
    }
}

/// Putting the longest first loses no text and adds none, leaves no text behind
/// a shorter one, and keeps the order of texts of one length.
pub proof fn law_longest_first(list: Seq<Seq<char>>)
    ensures
        longest_first(list).to_multiset() == list.to_multiset(),
        descending(longest_first(list)),
        forall|n: nat| #[trigger] of_length(longest_first(list), n) == of_length(list, n),
    decreases list.len(),
{
    broadcast use vstd::seq_lib::group_to_multiset_ensures;

    if list.len() > 0 {
        let short = list.drop_last();
        let done = longest_first(short);
        law_longest_first(short);
        lemma_placed(done, list.last());
        lemma_placed_descending(done, list.last());
        assert(list =~= short.push(list.last()));
        assert forall|n: nat| #[trigger] of_length(longest_first(list), n) == of_length(list, n) by {
            lemma_placed_stable(done, list.last(), n);
            assert(of_length(done, n) == of_length(short, n));
            reveal(Seq::filter);
            assert(done.push(list.last()).drop_last() =~= done);
        }
    }
}

/// Puts the longest texts first.
pub fn sort_longest_first(list: &Vec<String>) -> (r: Vec<String>)
    ensures
        texts(r@) == longest_first(texts(list@)),
{
    let mut r: Vec<String> = Vec::new();
    let mut i: usize = 0;
    let ghost all = texts(list@);
    assert(all.take(0) =~= Seq::<Seq<char>>::empty());
    assert(texts(r@) =~= longest_first(all.take(0)));
    while i < list.len()
        invariant
            i <= list@.len(),
            all == texts(list@),
            texts(r@) == longest_first(all.take(i as int)),
        decreases list@.len() - i,
    {
        let ghost was = texts(r@);
        let w = list[i].clone();
        let size: usize = w.as_str().as_bytes().len();
        let mut at: usize = r.len();
        assert(was.take(at as int) =~= was);
        while at > 0 && r[at - 1].as_str().as_bytes().len() < size
            invariant
                at <= r@.len(),
                was == texts(r@),
                size == byte_len(w@),
                placed(was, w@) == placed(was.take(at as int), w@) + was.skip(at as int),
            decreases at,
        {
            proof {
                let t = was.take(at as int);
                assert(t.last() == r@[at - 1]@);
                assert(t.drop_last() =~= was.take(at - 1));
                assert(placed(was.take(at - 1), w@).push(t.last()) + was.skip(at as int) =~= placed(
                    was.take(at - 1),
                    w@,
                ) + was.skip(at - 1));
            }
            at -= 1;
        }
        proof {
            let t = was.take(at as int);
            if at > 0 {
                assert(t.last() == r@[at - 1]@);
            }
            assert(placed(t, w@) == t.push(w@));
            assert(all.take(i + 1).drop_last() =~= all.take(i as int));
            assert(all.take(i + 1).last() == w@);
            assert(texts(r@.insert(at as int, w)) =~= t.push(w@) + was.skip(at as int));
        }
        r.insert(at, w);
        i += 1;
    }
    assert(all.take(i as int) =~= all);
    r
}

/// `text` with each of the words, one after another, replaced by a space.
pub open spec fn blanked(text: Seq<char>, list: Seq<Seq<char>>) -> Seq<char>
    decreases list.len(),
{
    if list.len() == 0 {
        text
    } else {
        replaced(blanked(text, list.drop_last()), list.last(), " "@)
    }
}

/// A text in lower case without the control words, which are in lower case too:
/// the longest are removed first, and single spaces stand between what is left.
pub open spec fn stripped(lower: Seq<char>, list: Seq<Seq<char>>) -> Seq<char> {
    joined(words(blanked(lower, longest_first(list))), " "@)
}

/// The texts in lower case.
pub open spec fn lower_texts(list: Seq<Seq<char>>) -> Seq<Seq<char>> {
    list.map_values(|w: Seq<char>| lowercase(w))
}

/// A list of strings in lower case.
pub fn lower_list(list: &[String]) -> (r: Vec<String>)
    ensures
        texts(r@) == lower_texts(texts(list@)),
{
    let mut r: Vec<String> = Vec::new();
    let mut i: usize = 0;
    while i < list.len()
        invariant
            i <= list@.len(),
            texts(r@) == lower_texts(texts(list@)).take(i as int),
        decreases list@.len() - i,
    {
        let w = to_lowercase(&list[i]);
        proof {
            lemma_texts_push(r@, w);
            assert(lower_texts(texts(list@)).take(i + 1) =~= lower_texts(texts(list@)).take(
                i as int,
            ).push(w@));
        }
        r.push(w);
        i += 1;
    }
    assert(lower_texts(texts(list@)).take(i as int) =~= lower_texts(texts(list@)));
    r
}

/// Removes control words from a text, both in lower case.
pub fn strip_lowered(lower: &str, list: &Vec<String>) -> (r: String)
    ensures
        r@ == stripped(lower@, texts(list@)),
{
    let sorted = sort_longest_first(list);
    let mut out: String = lower.to_owned();
    let mut i: usize = 0;
    let ghost all = texts(sorted@);
    assert(all.take(0) =~= Seq::<Seq<char>>::empty());
    while i < sorted.len()
        invariant
            i <= sorted@.len(),
            all == texts(sorted@),
            out@ == blanked(lower@, all.take(i as int)),
        decreases sorted@.len() - i,
    {
        out = replace(&out, &sorted[i], " ");
        proof {
            assert(all.take(i + 1).drop_last() =~= all.take(i as int));
            assert(all.take(i + 1).last() == sorted@[i as int]@);
        }
        i += 1;
    }
    assert(all.take(i as int) =~= all);
    let list = split_whitespace(&out);
    join(&list, " ")
}

/// Removes control words from a text. The result is in lower case.
pub fn strip_words(text: &str, list: &[String]) -> (r: String)
    ensures
        r@ == stripped(lowercase(text@), lower_texts(texts(list@))),
{
    let lower = to_lowercase(text);
    let low = lower_list(list);
    strip_lowered(&lower, &low)
}

/// `text` with `upper` in place of its first character.
pub fn with_initial(text: &str, upper: &str) -> (r: String)
    requires
        text@.len() > 0,
    ensures
        r@ == upper@ + text@.skip(1),
{
    let v = chars_of(text);
    let rest = string_of(&v, 1, v.len());
    assert(rest@ =~= text@.skip(1));
    let mut r: String = upper.to_owned();
    r.append(&rest);
    r
}

/// A text with its first character in upper case.
pub open spec fn capitalized(text: Seq<char>) -> Seq<char> {
    if text.len() == 0 {
        text
    } else {
        uppercase_char(text[0]) + text.skip(1)
    }
}

/// Puts the first character of a text in upper case.
pub fn capitalize(text: &str) -> (r: String)
    ensures
        r@ == capitalized(text@),
{
    let v = chars_of(text);
    if v.len() == 0 {
        text.to_owned()
    } else {
        let upper = to_uppercase(v[0]);
        with_initial(text, &upper)
    }
}

/// The stop words and then the wake words of the settings.
pub open spec fn control_words(cfg: Config) -> Seq<Seq<char>> {
    texts(cfg.stop_words@) + texts(cfg.wake_words@)
}

/// What is typed for a recognised text, given the text and the control words in
/// lower case.
pub open spec fn shaped(lower: Seq<char>, control: Seq<Seq<char>>, cap: bool) -> Seq<char> {
    if cap {
        capitalized(stripped(lower, control))
    } else {
        stripped(lower, control)
    }
}

/// One list after another.
pub fn concat(a: &Vec<String>, b: &Vec<String>) -> (r: Vec<String>)
    ensures
        texts(r@) == texts(a@) + texts(b@),
{
    let mut r = copy_list(a);
    let mut i: usize = 0;
    assert(texts(b@).take(0) =~= Seq::<Seq<char>>::empty());
    assert(texts(a@) + Seq::<Seq<char>>::empty() =~= texts(a@));
    while i < b.len()
        invariant
            i <= b@.len(),
            texts(r@) == texts(a@) + texts(b@).take(i as int),
        decreases b@.len() - i,
    {
        proof {
            lemma_texts_push(r@, b@[i as int]);
            assert(texts(a@) + texts(b@).take(i + 1) =~= (texts(a@) + texts(b@).take(
                i as int,
            )).push(b@[i as int]@));
        }
        r.push(b[i].clone());
        i += 1;
    }
    assert(texts(b@).take(i as int) =~= texts(b@));
    r
}

/// Prepares a recognised text for typing: without the control words, trimmed,
/// and with a capital letter where the settings ask for it.
pub fn shape(cfg: &Config, raw: &str) -> (r: String)
    ensures
        r@ == shaped(lowercase(raw@), lower_texts(control_words(*cfg)), cfg.capitalize),
{
    let control = concat(&cfg.stop_words, &cfg.wake_words);
    let cleaned = strip_words(raw, &control);
    if cfg.capitalize {
        capitalize(&cleaned)
    } else {
        cleaned
    }
}

/// The text, in lower case, has the control word: as part of the text where the
/// word holds a space, else as one of its words, or one edit away from one if
/// `fuzzy`.
pub open spec fn has_word(lower: Seq<char>, w: Seq<char>, fuzzy: bool) -> bool {
    if w.len() == 0 {
        false
    } else if w.contains(' ') {
        has_part(lower, w)
    } else {
        exists|k: int|
            0 <= k < words(lower).len() && ((#[trigger] words(lower)[k]) == w || fuzzy && distance(
                words(lower)[k],
                w,
            ) <= 1)
    }
}

/// The first of the control words that the text has.
pub open spec fn first_word(
    lower: Seq<char>,
    list: Seq<Seq<char>>,
    fuzzy: bool,
) -> Option<Seq<char>>
    decreases list.len(),
{
    if list.len() == 0 {
        None
    } else if has_word(lower, list[0], fuzzy) {
        Some(list[0])
    } else {
        first_word(lower, list.skip(1), fuzzy)
    }
}

fn holds_word(lower: &str, w: &str, fuzzy: bool) -> (r: bool)
    ensures
        r == has_word(lower@, w@, fuzzy),
{
    let v = chars_of(w);
    if v.len() == 0 {
        return false;
    }
    let mut i: usize = 0;
    while i < v.len() && v[i] != ' '
        invariant
            v@ == w@,
            i <= v@.len(),
            forall|k: int| 0 <= k < i ==> v@[k] != ' ',
        decreases v@.len() - i,
    {
        i += 1;
    }
    if i < v.len() {
        assert(w@[i as int] == ' ');
        return contains(lower, w);
    }
    let tokens = split_whitespace(lower);
    let mut k: usize = 0;
    while k < tokens.len()
        invariant
            k <= tokens@.len(),
            texts(tokens@) == words(lower@),
            forall|x: int|
                0 <= x < k ==> !((#[trigger] words(lower@)[x]) == w@ || fuzzy && distance(
                    words(lower@)[x],
                    w@,
                ) <= 1),
            w@.len() > 0,
            !w@.contains(' '),
        decreases tokens@.len() - k,
    {
        assert(words(lower@)[k as int] == tokens@[k as int]@);
        if same(&tokens[k], w) || (fuzzy && lev(&tokens[k], w) <= 1) {
            return true;
        }
        k += 1;
    }
    assert(texts(tokens@).len() == tokens@.len());
    false
}

/// The first of the control words that the text has, both in lower case.
pub fn find_word(lower: &str, list: &Vec<String>, fuzzy: bool) -> (r: Option<String>)
    ensures
        match r {
            Some(w) => first_word(lower@, texts(list@), fuzzy) == Some(w@),
            None => first_word(lower@, texts(list@), fuzzy) is None,
        },
{
    let ghost all = texts(list@);
    let mut i: usize = 0;
    assert(all.skip(0) =~= all);
    while i < list.len()
        invariant
            i <= list@.len(),
            all == texts(list@),
            first_word(lower@, all, fuzzy) == first_word(lower@, all.skip(i as int), fuzzy),
        decreases list@.len() - i,
    {
        assert(all.skip(i as int)[0] == list@[i as int]@);
        assert(all.skip(i as int).skip(1) =~= all.skip(i + 1));
        if holds_word(lower, &list[i], fuzzy) {
            return Some(list[i].clone());
        }
        i += 1;
    }
    None
}

/// The first of the control words that a recognised text has, in lower case.
/// `fuzzy` lets a word differ in one character: so a wake word is heard well, while
/// a stop word must be exact.
pub fn contains_word(text: &str, list: &[String], fuzzy: bool) -> (r: Option<String>)
    ensures
        match r {
            Some(w) => first_word(lowercase(text@), lower_texts(texts(list@)), fuzzy) == Some(w@),
            None => first_word(lowercase(text@), lower_texts(texts(list@)), fuzzy) is None,
        },
{
    let lower = to_lowercase(text);
    let low = lower_list(list);
    find_word(&lower, &low, fuzzy)
}

} // verus!
