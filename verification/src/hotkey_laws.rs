//! What the parts of a hotkey mean, and what does not matter in its notation: the order
//! of the parts, their case, the spaces around them, and a part said twice.

use crate::config::{ascii_hotkey_parts, hotkey_of, hotkey_parts, key_code, last_key};
use crate::text::{
    all_ascii, all_digits, decimal, is_digit, law_decimal, lemma_part_len, lemma_trimmed_lowered,
    lowercase, lowered, number_of, part_len, parts, trimmed,
};
use vstd::prelude::*;

verus! {

// ── order, repetition and spaces ──────────────────────────────────────────
/// All parts that name a key name the same one.
pub open spec fn one_key(p: Seq<Seq<char>>) -> bool {
    forall|i: int, j: int|
        0 <= i < p.len() && 0 <= j < p.len() && (#[trigger] key_code(p[i])) is Some && (
        #[trigger] key_code(p[j])) is Some ==> key_code(p[i]) == key_code(p[j])
}

/// Two lists hold the same parts, in whatever order and however often.
pub open spec fn same_parts(p: Seq<Seq<char>>, q: Seq<Seq<char>>) -> bool {
    forall|x: Seq<char>|
        #![trigger p.contains(x)]
        #![trigger q.contains(x)]
        p.contains(x) <==> q.contains(x)
}

/// The parts of a hotkey between the `+` signs, trimmed, in the case they are written in.
pub open spec fn tidy_parts(s: Seq<char>) -> Seq<Seq<char>> {
    parts(s, seq!['+']).map_values(|p: Seq<char>| trimmed(p))
}

proof fn lemma_last_key(p: Seq<Seq<char>>) -> (i: int)
    ensures
        last_key(p) is Some ==> 0 <= i < p.len() && key_code(p[i]) == last_key(p),
        last_key(p) is None ==> forall|k: int|
            0 <= k < p.len() ==> (#[trigger] key_code(p[k])) is None,
    decreases p.len(),
{
    if p.len() == 0 {
        0
    } else if key_code(p.last()) is Some {
        p.len() - 1
    } else {
        let i = lemma_last_key(p.drop_last());
        if last_key(p) is None {
            assert forall|k: int| 0 <= k < p.len() implies (#[trigger] key_code(p[k])) is None by {
                if k < p.len() - 1 {
                    assert(key_code(p.drop_last()[k]) is None);
                }
            }
        }
        i
    }
}

/// A hotkey is what its parts are, in whatever order they stand and however often
/// each is there, as long as they name no two keys.
pub proof fn law_hotkey_is_its_parts(p: Seq<Seq<char>>, q: Seq<Seq<char>>)
    requires
        same_parts(p, q),
        one_key(p),
    ensures
        hotkey_of(p) == hotkey_of(q),
{
    let i = lemma_last_key(p);
    let j = lemma_last_key(q);
    if last_key(p) is Some {
        assert(p.contains(p[i]));
        let k = choose|k: int| 0 <= k < q.len() && q[k] == p[i];
        assert(key_code(q[k]) is Some);
    }
    if last_key(q) is Some {
        assert(q.contains(q[j]));
        let k = choose|k: int| 0 <= k < p.len() && p[k] == q[j];
        assert(key_code(p[k]) is Some);
        assert(key_code(p[i]) == key_code(p[k]));
    }
}

/// The parts of a hotkey may stand in any order, as long as they name no two keys.
pub proof fn law_hotkey_parts_in_any_order(p: Seq<Seq<char>>, q: Seq<Seq<char>>)
    requires
        p.to_multiset() == q.to_multiset(),
        one_key(p),
    ensures
        hotkey_of(p) == hotkey_of(q),
{
    p.to_multiset_ensures();
    q.to_multiset_ensures();
    assert forall|x: Seq<char>| p.contains(x) <==> q.contains(x) by {
        assert(p.contains(x) <==> p.to_multiset().count(x) > 0);
        assert(q.contains(x) <==> q.to_multiset().count(x) > 0);
    }
    law_hotkey_is_its_parts(p, q);
}

proof fn lemma_lowered_parts(s: Seq<char>, t: Seq<char>)
    requires
        same_parts(tidy_parts(s), tidy_parts(t)),
    ensures
        forall|x: Seq<char>| #[trigger]
            hotkey_parts(s).contains(x) ==> hotkey_parts(t).contains(x),
{
    assert forall|x: Seq<char>| #[trigger] hotkey_parts(s).contains(x) implies hotkey_parts(
        t,
    ).contains(x) by {
        let i = choose|i: int| 0 <= i < hotkey_parts(s).len() && hotkey_parts(s)[i] == x;
        let y = tidy_parts(s)[i];
        assert(x == lowercase(y));
        assert(tidy_parts(s).contains(y));
        assert(tidy_parts(t).contains(y));
        let k = choose|k: int| 0 <= k < tidy_parts(t).len() && tidy_parts(t)[k] == y;
        assert(hotkey_parts(t)[k] == x);
    }
}

/// Two texts with the same parts between the `+` signs are the same hotkey, whatever
/// the order of the parts, however often each is there and whatever white space is
/// around it, as long as the parts name no two keys.
pub proof fn law_hotkey_text_in_any_order(s: Seq<char>, t: Seq<char>)
    requires
        same_parts(tidy_parts(s), tidy_parts(t)),
        one_key(hotkey_parts(s)),
    ensures
        hotkey_of(hotkey_parts(s)) == hotkey_of(hotkey_parts(t)),
{
    lemma_lowered_parts(s, t);
    lemma_lowered_parts(t, s);
    law_hotkey_is_its_parts(hotkey_parts(s), hotkey_parts(t));
}

proof fn lemma_lowered_ascii_parts(s: Seq<char>, t: Seq<char>)
    requires
        same_parts(tidy_parts(s), tidy_parts(t)),
    ensures
        forall|x: Seq<char>| #[trigger]
            ascii_hotkey_parts(s).contains(x) ==> ascii_hotkey_parts(t).contains(x),
{
    assert forall|x: Seq<char>| #[trigger]
        ascii_hotkey_parts(s).contains(x) implies ascii_hotkey_parts(t).contains(x) by {
        let i = choose|i: int|
            0 <= i < ascii_hotkey_parts(s).len() && ascii_hotkey_parts(s)[i] == x;
        let y = tidy_parts(s)[i];
        assert(tidy_parts(s).contains(y));
        assert(tidy_parts(t).contains(y));
        let k = choose|k: int| 0 <= k < tidy_parts(t).len() && tidy_parts(t)[k] == y;
        assert(ascii_hotkey_parts(t)[k] == x);
    }
}

/// The same for texts of ASCII characters.
pub proof fn law_ascii_hotkey_text_in_any_order(s: Seq<char>, t: Seq<char>)
    requires
        all_ascii(s),
        all_ascii(t),
        same_parts(tidy_parts(s), tidy_parts(t)),
        one_key(ascii_hotkey_parts(s)),
    ensures
        hotkey_of(ascii_hotkey_parts(s)) == hotkey_of(ascii_hotkey_parts(t)),
{
    lemma_lowered_ascii_parts(s, t);
    lemma_lowered_ascii_parts(t, s);
    law_hotkey_is_its_parts(ascii_hotkey_parts(s), ascii_hotkey_parts(t));
}

// ── case ──────────────────────────────────────────────────────────────────
/// Uppercase of one ASCII character.
pub open spec fn ascii_upper(c: char) -> char {
    if 'a' <= c <= 'z' {
        (c as u32 - 32) as char
    } else {
        c
    }
}

/// A text with `a`–`z` in upper case.
pub open spec fn raised(s: Seq<char>) -> Seq<char> {
    s.map_values(|c: char| ascii_upper(c))
}

proof fn lemma_part_len_lowered(s: Seq<char>)
    ensures
        part_len(lowered(s), seq!['+']) == part_len(s, seq!['+']),
    decreases s.len(),
{
    if s.len() > 0 {
        let seps = seq!['+'];
        assert(seps.contains(s[0]) <==> s[0] == '+') by {
            if s[0] == '+' {
                assert(seps[0] == s[0]);
            }
        }
        assert(seps.contains(lowered(s)[0]) <==> lowered(s)[0] == '+') by {
            if lowered(s)[0] == '+' {
                assert(seps[0] == lowered(s)[0]);
            }
        }
        assert(lowered(s).skip(1) =~= lowered(s.skip(1)));
        lemma_part_len_lowered(s.skip(1));
    }
}

proof fn lemma_parts_lowered(s: Seq<char>)
    ensures
        parts(lowered(s), seq!['+']) == parts(s, seq!['+']).map_values(
            |p: Seq<char>| lowered(p),
        ),
    decreases s.len(),
{
    let seps = seq!['+'];
    lemma_part_len(s, seps);
    lemma_part_len_lowered(s);
    let n = part_len(s, seps) as int;
    if n < s.len() {
        lemma_parts_lowered(s.skip(n + 1));
        assert(lowered(s).take(n) =~= lowered(s.take(n)));
        assert(lowered(s).skip(n + 1) =~= lowered(s.skip(n + 1)));
    }
    assert(parts(lowered(s), seps) =~= parts(s, seps).map_values(|p: Seq<char>| lowered(p)));
}

proof fn lemma_parts_of_lowered(s: Seq<char>)
    ensures
        ascii_hotkey_parts(s) == tidy_parts(lowered(s)),
{
    lemma_parts_lowered(s);
    assert forall|i: int| 0 <= i < parts(s, seq!['+']).len() implies #[trigger] tidy_parts(
        lowered(s),
    )[i] == ascii_hotkey_parts(s)[i] by {
        lemma_trimmed_lowered(parts(s, seq!['+'])[i]);
    }
    assert(ascii_hotkey_parts(s) =~= tidy_parts(lowered(s)));
}

/// Two ASCII texts that differ in case alone are the same hotkey.
pub proof fn law_hotkey_in_any_case(s: Seq<char>, t: Seq<char>)
    requires
        all_ascii(s),
        all_ascii(t),
        lowered(s) == lowered(t),
    ensures
        ascii_hotkey_parts(s) == ascii_hotkey_parts(t),
        hotkey_of(ascii_hotkey_parts(s)) == hotkey_of(ascii_hotkey_parts(t)),
{
    lemma_parts_of_lowered(s);
    lemma_parts_of_lowered(t);
}

/// An ASCII text and its upper-case form are the same hotkey.
pub proof fn law_hotkey_in_upper_case(s: Seq<char>)
    requires
        all_ascii(s),
    ensures
        all_ascii(raised(s)),
        ascii_hotkey_parts(raised(s)) == ascii_hotkey_parts(s),
        hotkey_of(ascii_hotkey_parts(raised(s))) == hotkey_of(ascii_hotkey_parts(s)),
{
    assert(lowered(raised(s)) =~= lowered(s));
    assert forall|i: int| 0 <= i < raised(s).len() implies (#[trigger] raised(s)[i] as u32)
        < 128 by {
        assert((s[i] as u32) < 128);
    }
    law_hotkey_in_any_case(s, raised(s));
}

// ── what the parts mean ───────────────────────────────────────────────────
/// A hotkey has the key of the last part that names one, and none if no part does. Each
/// of its four modifiers is down if some part names it.
pub proof fn law_what_a_hotkey_means(p: Seq<Seq<char>>)
    ensures
        hotkey_of(p) is None <==> forall|i: int|
            0 <= i < p.len() ==> (#[trigger] key_code(p[i])) is None,
        hotkey_of(p) matches Some(h) ==> {
            &&& exists|i: int|
                0 <= i < p.len() && (#[trigger] key_code(p[i])) == Some(h.1) && forall|j: int|
                    i < j < p.len() ==> (#[trigger] key_code(p[j])) is None
            &&& h.0 < 16
            &&& h.0 % 2 == 1 <==> p.contains("alt"@)
            &&& h.0 / 2 % 2 == 1 <==> p.contains("ctrl"@) || p.contains("control"@)
            &&& h.0 / 4 % 2 == 1 <==> p.contains("shift"@)
            &&& h.0 / 8 == 1 <==> p.contains("win"@) || p.contains("super"@) || p.contains("meta"@)
        },
{
    let i = lemma_last_key(p);
    if hotkey_of(p) is Some {
        let k = last_key(p)->0;
        let n = lemma_key_behind(p);
        assert(key_code(p[n]) == Some(k));
    }
}

proof fn lemma_key_behind(p: Seq<Seq<char>>) -> (i: int)
    requires
        last_key(p) is Some,
    ensures
        0 <= i < p.len(),
        key_code(p[i]) == last_key(p),
        forall|j: int| i < j < p.len() ==> (#[trigger] key_code(p[j])) is None,
    decreases p.len(),
{
    if key_code(p.last()) is Some {
        p.len() - 1
    } else {
        let i = lemma_key_behind(p.drop_last());
        assert forall|j: int| i < j < p.len() implies (#[trigger] key_code(p[j])) is None by {
            if j < p.len() - 1 {
                assert(key_code(p.drop_last()[j]) is None);
            }
        }
        i
    }
}

/// A letter in either case names its key, a digit its own, and no other character one.
pub proof fn law_key_of_a_character(c: char)
    ensures
        'a' <= c <= 'z' ==> key_code(seq![c]) == Some((c as u32 - 0x20) as u32),
        'A' <= c <= 'Z' ==> key_code(seq![c]) == Some(c as u32),
        '0' <= c <= '9' ==> key_code(seq![c]) == Some(c as u32),
        key_code(seq![c]) is Some ==> 'a' <= c <= 'z' || 'A' <= c <= 'Z' || '0' <= c <= '9',
{
    reveal_strlit("space");
    let p = seq![c];
    assert(p[0] == c);
    assert(p.skip(1).len() == 0);
}

/// A longer part names a key if it is `space`, or `f` with a number from 1 to 12 behind it.
pub proof fn law_key_of_a_word(p: Seq<char>, n: u32)
    ensures
        key_code("space"@) == Some(0x20u32),
        1 <= n <= 12 ==> key_code(seq!['f'] + decimal(n as nat)) == Some((0x6F + n) as u32),
        n == 0 || n > 12 ==> key_code(seq!['f'] + decimal(n as nat)) is None,
        key_code(p) is Some && p.len() != 1 ==> p == "space"@ || p[0] == 'f' && (exists|i: int|
            1 <= i < p.len() && is_digit(#[trigger] p[i])),
        key_code(p) is Some && p.len() != 1 && p != "space"@ ==> 0x70 <= key_code(p)->0 <= 0x7B,
        key_code(Seq::empty()) is None,
{
    reveal_strlit("space");
    assert("space"@[0] == 's');
    let d = decimal(n as nat);
    law_decimal(n as nat);
    let f = seq!['f'] + d;
    assert(f[0] == 'f');
    assert(f.skip(1) =~= d);
    assert(is_digit(d[0]));
    assert(number_of(d) == Some(n));
    if key_code(p) is Some && p.len() != 1 && p != "space"@ {
        let rest = p.skip(1);
        assert(number_of(rest) is Some);
        if rest[0] == '+' {
            assert(all_digits(rest.skip(1)));
            assert(is_digit(rest.skip(1)[0]));
            assert(p[2] == rest.skip(1)[0]);
        } else {
            assert(is_digit(rest[0]));
            assert(p[1] == rest[0]);
        }
    }
}

} // verus!
