//! Lists of words and key names as the settings window shows and reads them.

use crate::config::{
    ascii_hotkey_parts, bit, hotkey_of, key_code, last_key, MOD_ALT, MOD_CONTROL,
    MOD_SHIFT, MOD_WIN,
};
use crate::phrase::{capitalize, capitalized};
use crate::text::{
    all_ascii, ascii_lower, chars_of, decimal, is_digit, is_space, join,
    joined, law_decimal, lemma_texts_push, lowercase, lowered, number_of, number_text,
    part_len, parts, same, split, texts, to_lowercase, trim, trim_start, trimmed,
};
use vstd::prelude::*;

verus! {

/// The texts that are not empty.
pub open spec fn nonempty(list: Seq<Seq<char>>) -> Seq<Seq<char>>
    decreases list.len(),
{
    if list.len() == 0 {
        Seq::empty()
    } else if list.last().len() > 0 {
        nonempty(list.drop_last()).push(list.last())
    } else {
        nonempty(list.drop_last())
    }
}

/// Leaves out the empty texts.
pub fn without_empty(list: &Vec<String>) -> (r: Vec<String>)
    ensures
        texts(r@) == nonempty(texts(list@)),
{
    let ghost all = texts(list@);
    let mut r: Vec<String> = Vec::new();
    let mut i: usize = 0;
    assert(all.take(0) =~= Seq::<Seq<char>>::empty());
    assert(texts(r@) =~= Seq::<Seq<char>>::empty());
    while i < list.len()
        invariant
            i <= list@.len(),
            all == texts(list@),
            texts(r@) == nonempty(all.take(i as int)),
        decreases list@.len() - i,
    {
        proof {
            assert(all.take(i + 1).drop_last() =~= all.take(i as int));
            assert(all.take(i + 1).last() == list@[i as int]@);
            lemma_texts_push(r@, list@[i as int]);
        }
        if chars_of(&list[i]).len() > 0 {
            r.push(list[i].clone());
        }
        i += 1;
    }
    assert(all.take(i as int) =~= all);
    r
}

/// The words of a list with commas: trimmed, in lower case, without empty ones.
pub open spec fn listed(s: Seq<char>) -> Seq<Seq<char>> {
    nonempty(parts(s, seq![',']).map_values(|p: Seq<char>| lowercase(trimmed(p))))
}

/// Reads a list of words with commas.
pub fn split_words(s: &str) -> (r: Vec<String>)
    ensures
        texts(r@) == listed(s@),
{
    let seps: [char; 1] = [','];
    let list = split(s, &seps);
    assert(seps@ =~= seq![',']);
    let ghost want = parts(s@, seq![',']).map_values(|p: Seq<char>| lowercase(trimmed(p)));
    let mut low: Vec<String> = Vec::new();
    let mut i: usize = 0;
    while i < list.len()
        invariant
            i <= list@.len(),
            texts(list@) == parts(s@, seq![',']),
            want == parts(s@, seq![',']).map_values(|p: Seq<char>| lowercase(trimmed(p))),
            texts(low@) == want.take(i as int),
        decreases list@.len() - i,
    {
        let t = trim(&list[i]);
        let w = to_lowercase(&t);
        proof {
            assert(texts(list@)[i as int] == list@[i as int]@);
            lemma_texts_push(low@, w);
            assert(want[i as int] == w@);
            assert(want.take(i + 1) =~= want.take(i as int).push(w@));
        }
        low.push(w);
        i += 1;
    }
    proof {
        assert(texts(list@).len() == list@.len());
        assert(want.take(i as int) =~= want);
    }
    without_empty(&low)
}

// ── labels ────────────────────────────────────────────────────────────────
/// How a part of a hotkey is shown.
pub open spec fn part_label(p: Seq<char>) -> Seq<char> {
    if p == "ctrl"@ || p == "control"@ {
        "Ctrl"@
    } else if p == "alt"@ {
        "Alt"@
    } else if p == "shift"@ {
        "Shift"@
    } else if p == "win"@ || p == "super"@ || p == "meta"@ {
        "Win"@
    } else if p == "space"@ {
        "Space"@
    } else {
        capitalized(p)
    }
}

fn label_of(p: &str) -> (r: String)
    ensures
        r@ == part_label(p@),
{
    if same(p, "ctrl") || same(p, "control") {
        "Ctrl".to_owned()
    } else if same(p, "alt") {
        "Alt".to_owned()
    } else if same(p, "shift") {
        "Shift".to_owned()
    } else if same(p, "win") || same(p, "super") || same(p, "meta") {
        "Win".to_owned()
    } else if same(p, "space") {
        "Space".to_owned()
    } else {
        capitalize(p)
    }
}

/// The labels of the parts of a hotkey.
pub open spec fn part_labels(hk: Seq<char>) -> Seq<Seq<char>> {
    parts(hk, seq!['+']).map_values(|p: Seq<char>| part_label(trimmed(p)))
}

/// A hotkey as it is shown: `ctrl+alt+j` as `Ctrl + Alt + J`.
pub fn hotkey_label(hk: &str) -> (r: String)
    ensures
        r@ == joined(nonempty(part_labels(hk@)), " + "@),
{
    let seps: [char; 1] = ['+'];
    let list = split(hk, &seps);
    assert(seps@ =~= seq!['+']);
    let ghost want = part_labels(hk@);
    let mut out: Vec<String> = Vec::new();
    let mut i: usize = 0;
    while i < list.len()
        invariant
            i <= list@.len(),
            texts(list@) == parts(hk@, seq!['+']),
            want == part_labels(hk@),
            texts(out@) == want.take(i as int),
        decreases list@.len() - i,
    {
        let t = trim(&list[i]);
        let w = label_of(&t);
        proof {
            assert(texts(list@)[i as int] == list@[i as int]@);
            lemma_texts_push(out@, w);
            assert(want[i as int] == w@);
            assert(want.take(i + 1) =~= want.take(i as int).push(w@));
        }
        out.push(w);
        i += 1;
    }
    proof {
        assert(texts(list@).len() == list@.len());
        assert(want.take(i as int) =~= want);
    }
    let kept = without_empty(&out);
    join(&kept, " + ")
}

// ── capturing a hotkey ────────────────────────────────────────────────────
/// The modifier keys that are down.
#[derive(Clone, Copy, PartialEq, Eq, Structural, Debug)]
pub struct Mods {
    pub ctrl: bool,
    pub alt: bool,
    pub shift: bool,
    pub win: bool,
}

/// The name of a key that a hotkey may have: a letter, a digit, the space bar or
/// a function key.
pub open spec fn key_name(vk: u32) -> Option<Seq<char>> {
    if 0x41 <= vk <= 0x5A {
        Some(seq![(vk + 32) as char])
    } else if 0x30 <= vk <= 0x39 {
        Some(seq![vk as char])
    } else if vk == 0x20 {
        Some("space"@)
    } else if 0x70 <= vk <= 0x7B {
        Some("f"@ + decimal((vk - 0x6F) as nat))
    } else {
        None
    }
}

pub open spec fn named(on: bool, name: Seq<char>) -> Seq<Seq<char>> {
    if on {
        seq![name]
    } else {
        Seq::empty()
    }
}

/// The names of the modifiers that are down.
pub open spec fn mod_names(m: Mods) -> Seq<Seq<char>> {
    named(m.ctrl, "ctrl"@) + named(m.alt, "alt"@) + named(m.shift, "shift"@) + named(
        m.win,
        "win"@,
    )
}

/// The hotkey that was pressed. None for a key that a hotkey cannot have, and
/// none without a modifier.
pub open spec fn captured(vk: u32, m: Mods) -> Option<Seq<char>> {
    match key_name(vk) {
        Some(k) => if mod_names(m).len() > 0 {
            Some(joined(mod_names(m).push(k), "+"@))
        } else {
            None
        },
        None => None,
    }
}

fn letter(vk: u32) -> (r: char)
    requires
        0x41 <= vk <= 0x5A || 0x30 <= vk <= 0x39,
    ensures
        r == (if vk >= 0x41 {
            (vk + 32) as char
        } else {
            vk as char
        }),
{
    let code: u8 = if vk >= 0x41 {
        (vk + 32) as u8
    } else {
        vk as u8
    };
    code as char
}

fn name_of(vk: u32) -> (r: Option<String>)
    ensures
        match r {
            Some(s) => key_name(vk) == Some(s@),
            None => key_name(vk) is None,
        },
{
    if (0x41 <= vk && vk <= 0x5A) || (0x30 <= vk && vk <= 0x39) {
        let mut s = String::new();
        s.push(letter(vk));
        assert(Some(s@) == key_name(vk)) by {
            assert(s@ =~= key_name(vk)->0);
        }
        Some(s)
    } else if vk == 0x20 {
        Some("space".to_owned())
    } else if 0x70 <= vk && vk <= 0x7B {
        let mut s = "f".to_owned();
        let n = number_text((vk - 0x6F) as u64);
        s.append(&n);
        Some(s)
    } else {
        None
    }
}

fn add_name(list: &mut Vec<String>, on: bool, name: &str)
    ensures
        texts(final(list)@) == texts(old(list)@) + named(on, name@),
{
    if on {
        let s = name.to_owned();
        proof {
            lemma_texts_push(list@, s);
        }
        list.push(s);
    }
    assert(texts(list@) =~= texts(old(list)@) + named(on, name@));
}

/// The hotkey that was pressed.
pub fn capture(vk: u32, m: Mods) -> (r: Option<String>)
    ensures
        match r {
            Some(s) => captured(vk, m) == Some(s@),
            None => captured(vk, m) is None,
        },
{
    let key = match name_of(vk) {
        Some(k) => k,
        None => return None,
    };
    let mut list: Vec<String> = Vec::new();
    assert(texts(list@) =~= Seq::<Seq<char>>::empty());
    add_name(&mut list, m.ctrl, "ctrl");
    add_name(&mut list, m.alt, "alt");
    add_name(&mut list, m.shift, "shift");
    add_name(&mut list, m.win, "win");
    assert(texts(list@) =~= mod_names(m));
    assert(texts(list@).len() == list@.len());
    if list.len() == 0 {
        return None;
    }
    proof {
        lemma_texts_push(list@, key);
    }
    list.push(key);
    Some(join(&list, "+"))
}

// ── laws ──────────────────────────────────────────────────────────────────
/// The text has none of the separators.
pub open spec fn unparted(p: Seq<char>, seps: Seq<char>) -> bool {
    forall|i: int| 0 <= i < p.len() ==> !seps.contains(#[trigger] p[i])
}

proof fn lemma_part_len_of(p: Seq<char>, rest: Seq<char>, seps: Seq<char>)
    requires
        unparted(p, seps),
        rest.len() == 0 || seps.contains(rest[0]),
    ensures
        part_len(p + rest, seps) == p.len(),
    decreases p.len(),
{
    let s = p + rest;
    if p.len() > 0 {
        assert(s[0] == p[0]);
        assert(s.skip(1) =~= p.skip(1) + rest);
        assert(unparted(p.skip(1), seps)) by {
            assert forall|i: int| 0 <= i < p.skip(1).len() implies !seps.contains(
                #[trigger] p.skip(1)[i],
            ) by {
                assert(p[i + 1] == p.skip(1)[i]);
            }
        }
        lemma_part_len_of(p.skip(1), rest, seps);
    } else {
        assert(s =~= rest);
    }
}

proof fn lemma_joined_front(list: Seq<Seq<char>>, sep: Seq<char>)
    requires
        list.len() > 1,
    ensures
        joined(list, sep) == list[0] + sep + joined(list.skip(1), sep),
    decreases list.len(),
{
    let short = list.drop_last();
    if list.len() == 2 {
        assert(joined(short, sep) == short[0]);
        assert(joined(list.skip(1), sep) == list[1]);
    } else {
        lemma_joined_front(short, sep);
        assert(list.skip(1).drop_last() =~= short.skip(1));
        assert(list.skip(1).last() == list.last());
        let tail = joined(short.skip(1), sep);
        assert(joined(list, sep) == joined(short, sep) + sep + list.last());
        assert(joined(list.skip(1), sep) == tail + sep + list.last());
        assert(short[0] + sep + tail + sep + list.last() =~= list[0] + sep + (tail + sep
            + list.last()));
    }
}

/// Texts without the separator, joined by it, are read back.
pub proof fn law_parts_of_joined(list: Seq<Seq<char>>, c: char)
    requires
        list.len() > 0,
        forall|k: int| 0 <= k < list.len() ==> unparted(#[trigger] list[k], seq![c]),
    ensures
        parts(joined(list, seq![c]), seq![c]) == list,
    decreases list.len(),
{
    let seps = seq![c];
    let s = joined(list, seps);
    if list.len() == 1 {
        lemma_part_len_of(list[0], Seq::empty(), seps);
        assert(list[0] + Seq::<char>::empty() =~= s);
        assert(parts(s, seps) =~= list);
    } else {
        lemma_joined_front(list, seps);
        let tail = joined(list.skip(1), seps);
        let rest = seps + tail;
        assert(s =~= list[0] + rest);
        assert(rest[0] == c);
        assert(seps.contains(c)) by {
            assert(seps[0] == c);
        }
        lemma_part_len_of(list[0], rest, seps);
        let n = list[0].len() as int;
        assert(s.take(n) =~= list[0]);
        assert(s.skip(n + 1) =~= tail);
        assert forall|k: int| 0 <= k < list.skip(1).len() implies unparted(
            #[trigger] list.skip(1)[k],
            seps,
        ) by {
            assert(list[k + 1] == list.skip(1)[k]);
        }
        law_parts_of_joined(list.skip(1), c);
        assert(parts(s, seps) =~= seq![list[0]] + list.skip(1));
        assert(parts(s, seps) =~= list);
    }
}

/// Neither the first nor the last character is white space.
pub open spec fn tidy(w: Seq<char>) -> bool {
    w.len() > 0 && !is_space(w[0]) && !is_space(w.last())
}

proof fn lemma_trim_spaced(w: Seq<char>)
    requires
        tidy(w),
    ensures
        trimmed(w) == w,
        trimmed(seq![' '] + w) == w,
{
    let s = seq![' '] + w;
    assert(s.skip(1) =~= w);
    assert(is_space(' '));
    assert(trim_start(w) == w);
    assert(trim_start(s) == trim_start(w));
}

/// The word as it stands in a list behind a comma.
spec fn behind_comma(list: Seq<Seq<char>>) -> Seq<Seq<char>> {
    Seq::new(
        list.len(),
        |i: int|
            if i == 0 {
                list[0]
            } else {
                seq![' '] + list[i]
            },
    )
}

proof fn lemma_comma_space(list: Seq<Seq<char>>)
    requires
        list.len() > 0,
    ensures
        joined(list, seq![',', ' ']) == joined(behind_comma(list), seq![',']),
    decreases list.len(),
{
    let b = behind_comma(list);
    if list.len() > 1 {
        let short = list.drop_last();
        lemma_comma_space(short);
        assert(b.drop_last() =~= behind_comma(short));
        assert(joined(list, seq![',', ' ']) =~= joined(short, seq![',', ' ']) + seq![',', ' ']
            + list.last());
        assert(joined(b, seq![',']) == joined(b.drop_last(), seq![',']) + seq![','] + b.last());
        assert(joined(short, seq![',', ' ']) + seq![',', ' '] + list.last() =~= joined(
            b.drop_last(),
            seq![','],
        ) + seq![','] + b.last());
    } else {
        assert(b[0] == list[0]);
    }
}

proof fn lemma_nonempty_all(list: Seq<Seq<char>>)
    requires
        forall|k: int| 0 <= k < list.len() ==> (#[trigger] list[k]).len() > 0,
    ensures
        nonempty(list) == list,
    decreases list.len(),
{
    if list.len() > 0 {
        let short = list.drop_last();
        assert forall|k: int| 0 <= k < short.len() implies (#[trigger] short[k]).len() > 0 by {
            assert(list[k] == short[k]);
        }
        lemma_nonempty_all(short);
        assert(list[list.len() - 1].len() > 0);
        assert(short.push(list.last()) =~= list);
    } else {
        assert(nonempty(list) =~= list);
    }
}

/// Words shown as a list with commas are read back the same, if they are in
/// lower case, have no commas and no white space at their ends.
pub proof fn law_words_survive(list: Seq<Seq<char>>)
    requires
        list.len() > 0,
        forall|k: int|
            0 <= k < list.len() ==> tidy(#[trigger] list[k]) && unparted(list[k], seq![','])
                && lowercase(list[k]) == list[k],
    ensures
        listed(joined(list, ", "@)) == list,
{
    reveal_strlit(", ");
    assert(", "@ =~= seq![',', ' ']);
    let b = behind_comma(list);
    lemma_comma_space(list);
    assert forall|k: int| 0 <= k < b.len() implies unparted(#[trigger] b[k], seq![',']) by {
        assert(unparted(list[k], seq![',']));
        assert forall|i: int| 0 <= i < b[k].len() implies !seq![','].contains(
            #[trigger] b[k][i],
        ) by {
            if k == 0 {
                assert(b[k][i] == list[k][i]);
            } else if i > 0 {
                assert(b[k][i] == list[k][i - 1]);
            } else {
                assert(b[k][0] == ' ');
            }
        }
    }
    law_parts_of_joined(b, ',');
    let low = b.map_values(|p: Seq<char>| lowercase(trimmed(p)));
    assert forall|k: int| 0 <= k < list.len() implies low[k] == list[k] by {
        assert(tidy(list[k]));
        lemma_trim_spaced(list[k]);
    }
    assert(low =~= list);
    lemma_nonempty_all(list);
}

/// A text of lower-case letters and digits, at least one.
spec fn simple(p: Seq<char>) -> bool {
    p.len() > 0 && forall|i: int|
        0 <= i < p.len() ==> ('a' <= #[trigger] p[i] <= 'z' || is_digit(p[i]))
}

proof fn lemma_simple(p: Seq<char>)
    requires
        simple(p),
    ensures
        unparted(p, seq!['+']),
        tidy(p),
        lowered(p) == p,
        all_ascii(p),
{
    assert(p[p.len() - 1] == p.last());
    assert('a' <= p[0] <= 'z' || is_digit(p[0]));
    assert forall|i: int| 0 <= i < p.len() implies !seq!['+'].contains(#[trigger] p[i]) by {
        assert('a' <= p[i] <= 'z' || is_digit(p[i]));
    }
    assert forall|i: int| 0 <= i < p.len() implies ascii_lower(#[trigger] p[i]) == p[i] by {
        assert('a' <= p[i] <= 'z' || is_digit(p[i]));
    }
    assert(lowered(p) =~= p);
}

proof fn lemma_simple_hotkey(list: Seq<Seq<char>>)
    requires
        list.len() > 0,
        forall|k: int| 0 <= k < list.len() ==> simple(#[trigger] list[k]),
    ensures
        ascii_hotkey_parts(joined(list, "+"@)) == list,
{
    reveal_strlit("+");
    assert("+"@ =~= seq!['+']);
    assert forall|k: int| 0 <= k < list.len() implies unparted(#[trigger] list[k], seq!['+']) by {
        lemma_simple(list[k]);
    }
    law_parts_of_joined(list, '+');
    let got = ascii_hotkey_parts(joined(list, "+"@));
    assert forall|k: int| 0 <= k < list.len() implies got[k] == list[k] by {
        lemma_simple(list[k]);
        lemma_trim_spaced(list[k]);
    }
    assert(got =~= list);
}

proof fn lemma_names()
    ensures
        simple("ctrl"@),
        simple("alt"@),
        simple("shift"@),
        simple("win"@),
        simple("space"@),
        "ctrl"@.len() == 4,
        "alt"@.len() == 3,
        "shift"@.len() == 5,
        "win"@.len() == 3,
        "space"@.len() == 5,
        "control"@.len() == 7,
        "super"@.len() == 5,
        "meta"@.len() == 4,
        "ctrl"@[0] == 'c',
        "alt"@[0] == 'a',
        "shift"@[1] == 'h',
        "win"@[0] == 'w',
        "space"@[1] == 'p',
        "control"@[0] == 'c',
        "super"@[1] == 'u',
        "meta"@[0] == 'm',
        "f"@ == seq!['f'],
{
    reveal_strlit("ctrl");
    reveal_strlit("alt");
    reveal_strlit("shift");
    reveal_strlit("win");
    reveal_strlit("space");
    reveal_strlit("control");
    reveal_strlit("super");
    reveal_strlit("meta");
    reveal_strlit("f");
    assert("f"@ =~= seq!['f']);
}

proof fn lemma_key_name(vk: u32)
    requires
        key_name(vk) is Some,
    ensures
        simple(key_name(vk)->0),
        key_code(key_name(vk)->0) == Some(vk),
        key_name(vk)->0 != "ctrl"@,
        key_name(vk)->0 != "control"@,
        key_name(vk)->0 != "alt"@,
        key_name(vk)->0 != "shift"@,
        key_name(vk)->0 != "win"@,
        key_name(vk)->0 != "super"@,
        key_name(vk)->0 != "meta"@,
{
    lemma_names();
    let k = key_name(vk)->0;
    if 0x70 <= vk <= 0x7B {
        let n = (vk - 0x6F) as nat;
        let d = decimal(n);
        law_decimal(n);
        assert(k =~= seq!['f'] + d);
        assert(k.skip(1) =~= d);
        assert(is_digit(d[0]));
        assert(number_of(d) == Some(n as u32)) by {
            assert(d[0] != '+');
        }
        assert(d.len() <= 2) by {
            if n >= 10 {
                assert(decimal(n / 10).len() == 1);
            }
        }
        assert(k[0] == 'f');
        assert forall|i: int| 0 <= i < k.len() implies ('a' <= #[trigger] k[i] <= 'z' || is_digit(
            k[i],
        )) by {
            if i > 0 {
                assert(k[i] == d[i - 1]);
            }
        }
    } else if vk != 0x20 {
        assert(k.len() == 1);
    }
}

proof fn lemma_contains_named(on: bool, name: Seq<char>, x: Seq<char>)
    ensures
        named(on, name).contains(x) == (on && x == name),
{
    if on {
        assert(named(on, name)[0] == name);
    }
}

proof fn lemma_contains_concat(a: Seq<Seq<char>>, b: Seq<Seq<char>>, x: Seq<char>)
    ensures
        (a + b).contains(x) == (a.contains(x) || b.contains(x)),
{
    let s = a + b;
    if a.contains(x) {
        let i = choose|i: int| 0 <= i < a.len() && a[i] == x;
        assert(s[i] == x);
    }
    if b.contains(x) {
        let i = choose|i: int| 0 <= i < b.len() && b[i] == x;
        assert(s[a.len() + i] == x);
    }
    if s.contains(x) {
        let i = choose|i: int| 0 <= i < s.len() && s[i] == x;
        if i < a.len() {
            assert(a[i] == x);
        } else {
            assert(b[i - a.len()] == x);
        }
    }
}

proof fn lemma_pressed_contains(vk: u32, m: Mods, x: Seq<char>)
    requires
        key_name(vk) is Some,
    ensures
        mod_names(m).push(key_name(vk)->0).contains(x) == ((m.ctrl && x == "ctrl"@) || (m.alt && x
            == "alt"@) || (m.shift && x == "shift"@) || (m.win && x == "win"@) || x
            == key_name(vk)->0),
{
    let k = key_name(vk)->0;
    let a = named(m.ctrl, "ctrl"@);
    let b = named(m.alt, "alt"@);
    let c = named(m.shift, "shift"@);
    let d = named(m.win, "win"@);
    lemma_contains_named(m.ctrl, "ctrl"@, x);
    lemma_contains_named(m.alt, "alt"@, x);
    lemma_contains_named(m.shift, "shift"@, x);
    lemma_contains_named(m.win, "win"@, x);
    lemma_contains_named(true, k, x);
    lemma_contains_concat(a, b, x);
    lemma_contains_concat(a + b, c, x);
    lemma_contains_concat(a + b + c, d, x);
    lemma_contains_concat(mod_names(m), named(true, k), x);
    assert(mod_names(m).push(k) =~= mod_names(m) + named(true, k));
}

/// A hotkey that was captured is read as the modifiers and the key that were
/// pressed.
pub proof fn law_captured_hotkey_is_read(vk: u32, m: Mods)
    requires
        captured(vk, m) is Some,
    ensures
        hotkey_of(ascii_hotkey_parts(captured(vk, m)->0)) == Some(
            (
                (bit(m.alt, MOD_ALT) + bit(m.ctrl, MOD_CONTROL) + bit(m.shift, MOD_SHIFT) + bit(
                    m.win,
                    MOD_WIN,
                )) as u32,
                vk,
            ),
        ),
        all_ascii(captured(vk, m)->0),
{
    let k = key_name(vk)->0;
    let list = mod_names(m).push(k);
    lemma_names();
    lemma_key_name(vk);
    assert forall|i: int| 0 <= i < list.len() implies simple(#[trigger] list[i]) by {
        assert(list.contains(list[i]));
        lemma_pressed_contains(vk, m, list[i]);
    }
    lemma_simple_hotkey(list);
    assert(list.last() == k);
    assert(last_key(list) == Some(vk));
    lemma_pressed_contains(vk, m, "alt"@);
    lemma_pressed_contains(vk, m, "ctrl"@);
    lemma_pressed_contains(vk, m, "control"@);
    lemma_pressed_contains(vk, m, "shift"@);
    lemma_pressed_contains(vk, m, "win"@);
    lemma_pressed_contains(vk, m, "super"@);
    lemma_pressed_contains(vk, m, "meta"@);
    lemma_joined_ascii(list);
}

proof fn lemma_joined_ascii(list: Seq<Seq<char>>)
    requires
        forall|k: int| 0 <= k < list.len() ==> simple(#[trigger] list[k]),
    ensures
        all_ascii(joined(list, "+"@)),
    decreases list.len(),
{
    reveal_strlit("+");
    if list.len() == 1 {
        lemma_simple(list[0]);
    } else if list.len() > 1 {
        let short = list.drop_last();
        assert forall|k: int| 0 <= k < short.len() implies simple(#[trigger] short[k]) by {
            assert(list[k] == short[k]);
        }
        lemma_joined_ascii(short);
        lemma_simple(list[list.len() - 1]);
        let a = joined(short, "+"@);
        let b = list.last();
        let s = joined(list, "+"@);
        assert(s =~= a + "+"@ + b);
        assert forall|i: int| 0 <= i < s.len() implies (#[trigger] s[i] as u32) < 128 by {
            if i < a.len() {
                assert(s[i] == a[i]);
            } else if i > a.len() {
                assert(s[i] == b[i - a.len() - 1]);
            } else {
                assert(s[i] == '+');
            }
        }
    }
}

} // verus!
