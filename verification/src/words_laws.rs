//! How lists with commas, pressed keys and numbers are read, and how hotkeys are shown.

use crate::config::{ascii_hotkey_parts, hotkey_of, key_code, modifiers};
use crate::text::{
    decimal, is_digit, law_decimal, lemma_part_len, lowercase, lowered, number_of, part_len, parts,
    trimmed, uppercase_char,
};
use crate::wordmap::precedes;
use crate::words::{
    captured, law_captured_hotkey_is_read, listed, mod_names, nonempty, part_label, part_labels, Mods,
};
use vstd::prelude::*;

verus! {

/// A text without separators is its only part, and a separator parts what stands before
/// it from what stands behind it.
pub proof fn law_separator_parts(a: Seq<char>, c: char, b: Seq<char>, seps: Seq<char>)
    requires
        seps.contains(c),
    ensures
        (forall|i: int| 0 <= i < a.len() ==> !seps.contains(#[trigger] a[i])) ==> parts(a, seps)
            == seq![a],
        parts(a + seq![c] + b, seps) == parts(a, seps) + parts(b, seps),
    decreases a.len(),
{
    let s = a + seq![c] + b;
    let n = part_len(a, seps) as int;
    lemma_part_len(a, seps);
    lemma_part_len(s, seps);
    let m = part_len(s, seps) as int;
    assert(m == n) by {
        if m < n {
            assert(s[m] == a[m]);
        } else if m > n {
            assert(!seps.contains(s[n]));
            assert(s[n] == (if n < a.len() {
                a[n]
            } else {
                c
            }));
        }
    }
    assert(s.take(n) =~= a.take(n));
    if n < a.len() {
        assert(s.skip(n + 1) =~= a.skip(n + 1) + seq![c] + b);
        law_separator_parts(a.skip(n + 1), c, b, seps);
        assert(parts(s, seps) =~= parts(a, seps) + parts(b, seps));
    } else {
        assert(a.take(n) =~= a);
        assert(s.skip(n + 1) =~= b);
        assert(parts(s, seps) =~= parts(a, seps) + parts(b, seps));
    }
    if forall|i: int| 0 <= i < a.len() ==> !seps.contains(#[trigger] a[i]) {
        assert(n == a.len()) by {
            if n < a.len() {
                assert(!seps.contains(a[n]));
            }
        }
    }
}

proof fn lemma_nonempty_concat(a: Seq<Seq<char>>, b: Seq<Seq<char>>)
    ensures
        nonempty(a + b) == nonempty(a) + nonempty(b),
    decreases b.len(),
{
    if b.len() == 0 {
        assert(a + b =~= a);
        assert(nonempty(a) + nonempty(b) =~= nonempty(a));
    } else {
        assert((a + b).drop_last() =~= a + b.drop_last());
        assert((a + b).last() == b.last());
        lemma_nonempty_concat(a, b.drop_last());
        assert(nonempty(a + b) =~= nonempty(a) + nonempty(b));
    }
}

/// A list with commas: each text between commas is a word, without the white space
/// around it and in lower case; empty ones are left out.
pub proof fn law_list_with_commas(a: Seq<char>, b: Seq<char>)
    ensures
        !a.contains(',') ==> listed(a) == (if lowercase(trimmed(a)).len() > 0 {
            seq![lowercase(trimmed(a))]
        } else {
            Seq::<Seq<char>>::empty()
        }),
        listed(a + seq![','] + b) == listed(a) + listed(b),
{
    let seps = seq![','];
    assert(seps[0] == ',');
    assert(seps.contains(','));
    law_separator_parts(a, ',', b, seps);
    let f = |p: Seq<char>| lowercase(trimmed(p));
    let (p, q) = (parts(a, seps), parts(b, seps));
    assert((p + q).map_values(f) =~= p.map_values(f) + q.map_values(f));
    lemma_nonempty_concat(p.map_values(f), q.map_values(f));
    if !a.contains(',') {
        assert forall|i: int| 0 <= i < a.len() implies !seps.contains(#[trigger] a[i]) by {
            assert(a.contains(a[i]));
        }
        let w = lowercase(trimmed(a));
        assert(p.map_values(f) =~= seq![w]);
        let one = seq![w];
        assert(one.last() == w);
        assert(one.drop_last() =~= Seq::<Seq<char>>::empty());
        assert(nonempty(one.drop_last()) =~= Seq::<Seq<char>>::empty());
        assert(nonempty(one) =~= (if w.len() > 0 {
            seq![w]
        } else {
            Seq::<Seq<char>>::empty()
        }));
    }
}

/// A hotkey is made of a letter, a digit, the space bar or a function key with at least
/// one modifier, and of nothing else; it is read as the keys that were pressed.
pub proof fn law_what_makes_a_hotkey(vk: u32, m: Mods)
    ensures
        captured(vk, m) is Some <==> (0x41 <= vk <= 0x5A || 0x30 <= vk <= 0x39 || vk == 0x20
            || 0x70 <= vk <= 0x7B) && (m.ctrl || m.alt || m.shift || m.win),
        captured(vk, m) is Some ==> hotkey_of(ascii_hotkey_parts(captured(vk, m)->0)) == Some(
            (
                ((if m.alt {
                    1int
                } else {
                    0
                }) + (if m.ctrl {
                    2int
                } else {
                    0
                }) + (if m.shift {
                    4int
                } else {
                    0
                }) + (if m.win {
                    8int
                } else {
                    0
                })) as u32,
                vk,
            ),
        ),
{
    if captured(vk, m) is Some {
        law_captured_hotkey_is_read(vk, m);
    }
    assert(mod_names(m).len() > 0 <==> m.ctrl || m.alt || m.shift || m.win);
}

// ── labels ────────────────────────────────────────────────────────────────
/// A modifier or the space bar is shown by a capitalised name that, in lower case, names the
/// same; the names of one modifier are shown alike. Any other part is shown as it is, with
/// its first letter in upper case.
pub proof fn law_label_of_a_part(p: Seq<char>, q: Seq<char>)
    ensures
        modifiers(seq![p]) > 0 || p == "space"@ ==> ({
            let l = part_label(p);
            &&& modifiers(seq![lowered(l)]) == modifiers(seq![p])
            &&& key_code(lowered(l)) == key_code(p)
            &&& l.len() > 0
            &&& 'A' <= l[0] <= 'Z'
            &&& lowered(l).skip(1) == l.skip(1)
        }),
        modifiers(seq![p]) > 0 && modifiers(seq![p]) == modifiers(seq![q]) ==> part_label(p)
            == part_label(q),
        modifiers(seq![p]) == 0 && p != "space"@ && p.len() > 0 ==> part_label(p)
            == uppercase_char(p[0]) + p.skip(1),
        part_label(Seq::empty()) == Seq::<char>::empty(),
{
    lemma_literals();
    lemma_one_part(p);
    lemma_one_part(q);
    lemma_one_part(lowered(part_label(p)));
    let e = Seq::<char>::empty();
    assert(e.len() == 0);
    let l = part_label(p);
    assert(lowered("Ctrl"@) =~= "ctrl"@);
    assert(lowered("Alt"@) =~= "alt"@);
    assert(lowered("Shift"@) =~= "shift"@);
    assert(lowered("Win"@) =~= "win"@);
    assert(lowered("Space"@) =~= "space"@);
    assert(lowered("Ctrl"@).skip(1) =~= "Ctrl"@.skip(1));
    assert(lowered("Alt"@).skip(1) =~= "Alt"@.skip(1));
    assert(lowered("Shift"@).skip(1) =~= "Shift"@.skip(1));
    assert(lowered("Win"@).skip(1) =~= "Win"@.skip(1));
    assert(lowered("Space"@).skip(1) =~= "Space"@.skip(1));
}

proof fn lemma_one_part(p: Seq<char>)
    ensures
        forall|x: Seq<char>| #[trigger] seq![p].contains(x) <==> p == x,
{
    assert(seq![p][0] == p);
}

proof fn lemma_literals()
    ensures
        "ctrl"@ == seq!['c', 't', 'r', 'l'],
        "Ctrl"@ == seq!['C', 't', 'r', 'l'],
        "control"@ == seq!['c', 'o', 'n', 't', 'r', 'o', 'l'],
        "alt"@ == seq!['a', 'l', 't'],
        "Alt"@ == seq!['A', 'l', 't'],
        "shift"@ == seq!['s', 'h', 'i', 'f', 't'],
        "Shift"@ == seq!['S', 'h', 'i', 'f', 't'],
        "win"@ == seq!['w', 'i', 'n'],
        "Win"@ == seq!['W', 'i', 'n'],
        "super"@ == seq!['s', 'u', 'p', 'e', 'r'],
        "meta"@ == seq!['m', 'e', 't', 'a'],
        "space"@ == seq!['s', 'p', 'a', 'c', 'e'],
        "Space"@ == seq!['S', 'p', 'a', 'c', 'e'],
{
    reveal_strlit("ctrl");
    reveal_strlit("Ctrl");
    reveal_strlit("control");
    reveal_strlit("alt");
    reveal_strlit("Alt");
    reveal_strlit("shift");
    reveal_strlit("Shift");
    reveal_strlit("win");
    reveal_strlit("Win");
    reveal_strlit("super");
    reveal_strlit("meta");
    reveal_strlit("space");
    reveal_strlit("Space");
}

/// The labels of a hotkey are those of its parts, trimmed, one after another.
pub proof fn law_labels_of_a_hotkey(a: Seq<char>, b: Seq<char>)
    ensures
        part_labels(a + seq!['+'] + b) == part_labels(a) + part_labels(b),
        (forall|i: int| 0 <= i < a.len() ==> #[trigger] a[i] != '+') ==> part_labels(a) == seq![
            part_label(trimmed(a)),
        ],
{
    let seps = seq!['+'];
    assert(seps[0] == '+');
    law_separator_parts(a, '+', b, seps);
    assert(part_labels(a + seps + b) =~= part_labels(a) + part_labels(b));
    if forall|i: int| 0 <= i < a.len() ==> #[trigger] a[i] != '+' {
        assert forall|i: int| 0 <= i < a.len() implies !seps.contains(#[trigger] a[i]) by {}
        assert(part_labels(a) =~= seq![part_label(trimmed(a))]);
    }
}

// ── numbers and the order of words ────────────────────────────────────────
/// Digits are read as the number that they write, a plus sign before them or not; a text
/// that is empty, or has anything else in it, is no number.
pub proof fn law_numbers_are_read(n: u32, s: Seq<char>, i: int)
    ensures
        number_of(decimal(n as nat)) == Some(n),
        number_of(seq!['+'] + decimal(n as nat)) == Some(n),
        number_of(Seq::empty()) is None,
        0 <= i < s.len() && !('0' <= s[i] <= '9') && (i > 0 || s[0] != '+') ==> number_of(s) is None,
{
    let d = decimal(n as nat);
    law_decimal(n as nat);
    assert(is_digit(d[0]));
    let p = seq!['+'] + d;
    assert(p[0] == '+');
    assert(p.skip(1) =~= d);
    if 0 <= i < s.len() && !('0' <= s[i] <= '9') && (i > 0 || s[0] != '+') {
        if s[0] == '+' {
            assert(s.skip(1)[i - 1] == s[i]);
        }
    }
}

/// Words are ordered as in a dictionary: the first characters that differ decide, and what
/// goes on stands behind what ends.
pub proof fn law_order_of_words(p: Seq<char>, c: char, a: Seq<char>, d: char, b: Seq<char>)
    requires
        c < d,
    ensures
        precedes(p + seq![c] + a, p + seq![d] + b),
        !precedes(p + seq![d] + b, p + seq![c] + a),
        precedes(p, p + seq![c] + a),
        !precedes(p + seq![c] + a, p),
        !precedes(p, p),
    decreases p.len(),
{
    let x = p + seq![c] + a;
    let y = p + seq![d] + b;
    if p.len() > 0 {
        let q = p.skip(1);
        law_order_of_words(q, c, a, d, b);
        assert(x.skip(1) =~= q + seq![c] + a);
        assert(y.skip(1) =~= q + seq![d] + b);
    } else {
        assert(x[0] == c && y[0] == d);
    }
}

} // verus!
