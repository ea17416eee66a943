//! What does not matter to spoken punctuation, and how its texts look.

use crate::punct::{
    all_in, are_command_words, blank, closes, command, command_at, composed, kind, lists_keys,
    mark_for, readings, rule_for, rule_table, rule_words, spaced, with_mark, with_word,
    without_blanks, Draft, Kind, Said,
};
use crate::strip_laws::{is_word, law_words_of_joined, lemma_words};
use crate::text::{
    all_ascii, is_space, joined, lemma_trimmed_ascii, lemma_trimmed_lowered, lemma_trimmed_twice,
    lowercase, lowered, trimmed, uppercase_char, words,
};
use crate::wordmap::precedes;
use vstd::prelude::*;

verus! {

// ── the built-in commands ─────────────────────────────────────────────────
/// Which of the built-in phrases it is, by its length and one character.
spec fn which(s: Seq<char>) -> int {
    if s.len() == 5 {
        if s[0] == 'т' {
            0
        } else {
            10
        }
    } else if s.len() == 7 {
        1
    } else if s.len() == 19 {
        if s[8] == 'е' {
            2
        } else if s[8] == 'о' {
            16
        } else {
            18
        }
    } else if s.len() == 12 {
        if s[0] == 'з' {
            3
        } else {
            19
        }
    } else if s.len() == 20 {
        4
    } else if s.len() == 16 {
        5
    } else if s.len() == 9 {
        6
    } else if s.len() == 15 {
        if s[0] == 'т' {
            7
        } else if s[0] == 'о' {
            15
        } else if s[0] == 'з' {
            17
        } else {
            22
        }
    } else if s.len() == 10 {
        8
    } else if s.len() == 4 {
        9
    } else if s.len() == 14 {
        if s[0] == 'о' {
            11
        } else if s[0] == 'з' {
            13
        } else {
            20
        }
    } else if s.len() == 18 {
        if s[7] == 'о' {
            12
        } else {
            14
        }
    } else if s.len() == 11 {
        21
    } else {
        -1
    }
}

proof fn lemma_phrases_differ(k: int)
    requires
        0 <= k < rule_table().len(),
    ensures
        rule_table().len() == 23,
        which(rule_table()[k].0) == k,
{
    let t = rule_table();
    assert(which(t[0].0) == 0) by {
        reveal_strlit("точка");
    }
    assert(which(t[1].0) == 1) by {
        reveal_strlit("запятая");
    }
    assert(which(t[2].0) == 2) by {
        reveal_strlit("вопросительный знак");
    }
    assert(which(t[3].0) == 3) by {
        reveal_strlit("знак вопроса");
    }
    assert(which(t[4].0) == 4) by {
        reveal_strlit("восклицательный знак");
    }
    assert(which(t[5].0) == 5) by {
        reveal_strlit("знак восклицания");
    }
    assert(which(t[6].0) == 6) by {
        reveal_strlit("двоеточие");
    }
    assert(which(t[7].0) == 7) by {
        reveal_strlit("точка с запятой");
    }
    assert(which(t[8].0) == 8) by {
        reveal_strlit("многоточие");
    }
    assert(which(t[9].0) == 9) by {
        reveal_strlit("тире");
    }
    assert(which(t[10].0) == 10) by {
        reveal_strlit("дефис");
    }
    assert(which(t[11].0) == 11) by {
        reveal_strlit("открыть скобку");
    }
    assert(which(t[12].0) == 12) by {
        reveal_strlit("скобка открывается");
    }
    assert(which(t[13].0) == 13) by {
        reveal_strlit("закрыть скобку");
    }
    assert(which(t[14].0) == 14) by {
        reveal_strlit("скобка закрывается");
    }
    assert(which(t[15].0) == 15) by {
        reveal_strlit("открыть кавычки");
    }
    assert(which(t[16].0) == 16) by {
        reveal_strlit("кавычки открываются");
    }
    assert(which(t[17].0) == 17) by {
        reveal_strlit("закрыть кавычки");
    }
    assert(which(t[18].0) == 18) by {
        reveal_strlit("кавычки закрываются");
    }
    assert(which(t[19].0) == 19) by {
        reveal_strlit("новая строка");
    }
    assert(which(t[20].0) == 20) by {
        reveal_strlit("с новой строки");
    }
    assert(which(t[21].0) == 21) by {
        reveal_strlit("новый абзац");
    }
    assert(which(t[22].0) == 22) by {
        reveal_strlit("с нового абзаца");
    }
}

proof fn lemma_rule_none(table: Seq<(Seq<char>, Seq<char>)>, phrase: Seq<char>)
    requires
        forall|j: int| 0 <= j < table.len() ==> (#[trigger] table[j]).0 != phrase,
    ensures
        rule_for(table, phrase) is None,
    decreases table.len(),
{
    if table.len() > 0 {
        let rest = table.skip(1);
        assert(table[0].0 != phrase);
        assert forall|j: int| 0 <= j < rest.len() implies (#[trigger] rest[j]).0 != phrase by {
            assert(rest[j] == table[j + 1]);
        }
        lemma_rule_none(rest, phrase);
    }
}

proof fn lemma_rule_at(table: Seq<(Seq<char>, Seq<char>)>, phrase: Seq<char>, k: int)
    requires
        0 <= k < table.len(),
        table[k].0 == phrase,
        forall|j: int| 0 <= j < k ==> (#[trigger] table[j]).0 != phrase,
    ensures
        rule_for(table, phrase) == Some(table[k].1),
    decreases table.len(),
{
    if k > 0 {
        let rest = table.skip(1);
        assert(table[0].0 != phrase);
        assert forall|j: int| 0 <= j < k - 1 implies (#[trigger] rest[j]).0 != phrase by {
            assert(rest[j] == table[j + 1]);
        }
        lemma_rule_at(rest, phrase, k - 1);
    }
}

/// The mark of a built-in phrase is that of its line in the table.
proof fn lemma_built_in(phrase: Seq<char>) -> (k: int)
    ensures
        -1 <= k < 23,
        k >= 0 ==> phrase == rule_table()[k].0 && mark_for(phrase, Map::empty()) == Some(
            rule_table()[k].1,
        ),
        k < 0 ==> mark_for(phrase, Map::empty()) is None && forall|j: int|
            0 <= j < 23 ==> (#[trigger] rule_table()[j]).0 != phrase,
{
    let t = rule_table();
    lemma_phrases_differ(0);
    if exists|j: int| 0 <= j < t.len() && (#[trigger] t[j]).0 == phrase {
        let k = choose|j: int| 0 <= j < t.len() && (#[trigger] t[j]).0 == phrase;
        lemma_phrases_differ(k);
        assert forall|j: int| 0 <= j < k implies (#[trigger] t[j]).0 != phrase by {
            lemma_phrases_differ(j);
        }
        lemma_rule_at(t, phrase, k);
        k
    } else {
        lemma_rule_none(t, phrase);
        -1
    }
}

/// What is said for each built-in mark, and that nothing else is a built-in command.
pub proof fn law_built_in_commands(phrase: Seq<char>)
    ensures
        ({
            let mark = mark_for(phrase, Map::empty());
            &&& mark == Some(seq!['.']) <==> phrase == "точка"@
            &&& mark == Some(seq![',']) <==> phrase == "запятая"@
            &&& mark == Some(seq!['?']) <==> phrase == "вопросительный знак"@ || phrase == "знак вопроса"@
            &&& mark == Some(seq!['!']) <==> phrase == "восклицательный знак"@ || phrase == "знак восклицания"@
            &&& mark == Some(seq![':']) <==> phrase == "двоеточие"@
            &&& mark == Some(seq![';']) <==> phrase == "точка с запятой"@
            &&& mark == Some(seq!['…']) <==> phrase == "многоточие"@
            &&& mark == Some(seq!['—']) <==> phrase == "тире"@
            &&& mark == Some(seq!['-']) <==> phrase == "дефис"@
            &&& mark == Some(seq!['(']) <==> phrase == "открыть скобку"@ || phrase == "скобка открывается"@
            &&& mark == Some(seq![')']) <==> phrase == "закрыть скобку"@ || phrase == "скобка закрывается"@
            &&& mark == Some(seq!['«']) <==> phrase == "открыть кавычки"@ || phrase == "кавычки открываются"@
            &&& mark == Some(seq!['»']) <==> phrase == "закрыть кавычки"@ || phrase == "кавычки закрываются"@
            &&& mark == Some(seq!['\n']) <==> phrase == "новая строка"@ || phrase == "с новой строки"@
            &&& mark == Some(seq!['\n', '\n']) <==> phrase == "новый абзац"@ || phrase == "с нового абзаца"@
            &&& mark is Some <==> mark == Some(seq!['.']) || mark == Some(seq![',']) || mark == Some(seq!['?']) || mark == Some(seq!['!']) || mark == Some(seq![':']) || mark == Some(seq![';']) || mark == Some(seq!['…']) || mark == Some(seq!['—']) || mark == Some(seq!['-']) || mark == Some(seq!['(']) || mark == Some(seq![')']) || mark == Some(seq!['«']) || mark == Some(seq!['»']) || mark == Some(seq!['\n']) || mark == Some(seq!['\n', '\n'])
        }),
{
    reveal_strlit(".");
    reveal_strlit(",");
    reveal_strlit("?");
    reveal_strlit("!");
    reveal_strlit(":");
    reveal_strlit(";");
    reveal_strlit("…");
    reveal_strlit("—");
    reveal_strlit("-");
    reveal_strlit("(");
    reveal_strlit(")");
    reveal_strlit("«");
    reveal_strlit("»");
    reveal_strlit("\n");
    reveal_strlit("\n\n");
    assert("."@ =~= seq!['.']);
    assert(","@ =~= seq![',']);
    assert("?"@ =~= seq!['?']);
    assert("!"@ =~= seq!['!']);
    assert(":"@ =~= seq![':']);
    assert(";"@ =~= seq![';']);
    assert("…"@ =~= seq!['…']);
    assert("—"@ =~= seq!['—']);
    assert("-"@ =~= seq!['-']);
    assert("("@ =~= seq!['(']);
    assert(")"@ =~= seq![')']);
    assert("«"@ =~= seq!['«']);
    assert("»"@ =~= seq!['»']);
    assert("\n"@ =~= seq!['\n']);
    assert("\n\n"@ =~= seq!['\n', '\n']);
    assert(seq!['.'][0] == '.');
    assert(seq![','][0] == ',');
    assert(seq!['?'][0] == '?');
    assert(seq!['!'][0] == '!');
    assert(seq![':'][0] == ':');
    assert(seq![';'][0] == ';');
    assert(seq!['…'][0] == '…');
    assert(seq!['—'][0] == '—');
    assert(seq!['-'][0] == '-');
    assert(seq!['('][0] == '(');
    assert(seq![')'][0] == ')');
    assert(seq!['«'][0] == '«');
    assert(seq!['»'][0] == '»');
    assert(seq!['\n'][0] == '\n');
    assert(seq!['\n', '\n'].len() == 2);
    let t = rule_table();
    lemma_phrases_differ(0);
    let k = lemma_built_in(phrase);
    if k >= 0 {
        assert(t[k].0 == phrase);
    } else {
        assert(t[0].0 != phrase);
        assert(t[1].0 != phrase);
        assert(t[2].0 != phrase);
        assert(t[3].0 != phrase);
        assert(t[4].0 != phrase);
        assert(t[5].0 != phrase);
        assert(t[6].0 != phrase);
        assert(t[7].0 != phrase);
        assert(t[8].0 != phrase);
        assert(t[9].0 != phrase);
        assert(t[10].0 != phrase);
        assert(t[11].0 != phrase);
        assert(t[12].0 != phrase);
        assert(t[13].0 != phrase);
        assert(t[14].0 != phrase);
        assert(t[15].0 != phrase);
        assert(t[16].0 != phrase);
        assert(t[17].0 != phrase);
        assert(t[18].0 != phrase);
        assert(t[19].0 != phrase);
        assert(t[20].0 != phrase);
        assert(t[21].0 != phrase);
        assert(t[22].0 != phrase);
    }
    assert(t[0].0 == "точка"@ && t[0].1 == seq!['.']);
    assert(t[1].0 == "запятая"@ && t[1].1 == seq![',']);
    assert(t[2].0 == "вопросительный знак"@ && t[2].1 == seq!['?']);
    assert(t[3].0 == "знак вопроса"@ && t[3].1 == seq!['?']);
    assert(t[4].0 == "восклицательный знак"@ && t[4].1 == seq!['!']);
    assert(t[5].0 == "знак восклицания"@ && t[5].1 == seq!['!']);
    assert(t[6].0 == "двоеточие"@ && t[6].1 == seq![':']);
    assert(t[7].0 == "точка с запятой"@ && t[7].1 == seq![';']);
    assert(t[8].0 == "многоточие"@ && t[8].1 == seq!['…']);
    assert(t[9].0 == "тире"@ && t[9].1 == seq!['—']);
    assert(t[10].0 == "дефис"@ && t[10].1 == seq!['-']);
    assert(t[11].0 == "открыть скобку"@ && t[11].1 == seq!['(']);
    assert(t[12].0 == "скобка открывается"@ && t[12].1 == seq!['(']);
    assert(t[13].0 == "закрыть скобку"@ && t[13].1 == seq![')']);
    assert(t[14].0 == "скобка закрывается"@ && t[14].1 == seq![')']);
    assert(t[15].0 == "открыть кавычки"@ && t[15].1 == seq!['«']);
    assert(t[16].0 == "кавычки открываются"@ && t[16].1 == seq!['«']);
    assert(t[17].0 == "закрыть кавычки"@ && t[17].1 == seq!['»']);
    assert(t[18].0 == "кавычки закрываются"@ && t[18].1 == seq!['»']);
    assert(t[19].0 == "новая строка"@ && t[19].1 == seq!['\n']);
    assert(t[20].0 == "с новой строки"@ && t[20].1 == seq!['\n']);
    assert(t[21].0 == "новый абзац"@ && t[21].1 == seq!['\n', '\n']);
    assert(t[22].0 == "с нового абзаца"@ && t[22].1 == seq!['\n', '\n']);
    lemma_phrases_differ(0);
    lemma_phrases_differ(1);
    lemma_phrases_differ(2);
    lemma_phrases_differ(3);
    lemma_phrases_differ(4);
    lemma_phrases_differ(5);
    lemma_phrases_differ(6);
    lemma_phrases_differ(7);
    lemma_phrases_differ(8);
    lemma_phrases_differ(9);
    lemma_phrases_differ(10);
    lemma_phrases_differ(11);
    lemma_phrases_differ(12);
    lemma_phrases_differ(13);
    lemma_phrases_differ(14);
    lemma_phrases_differ(15);
    lemma_phrases_differ(16);
    lemma_phrases_differ(17);
    lemma_phrases_differ(18);
    lemma_phrases_differ(19);
    lemma_phrases_differ(20);
    lemma_phrases_differ(21);
    lemma_phrases_differ(22);
}

// ── white space and case ──────────────────────────────────────────────────
/// The amount and the kind of white space in a text do not matter: its words with
/// single spaces between them give the same.
pub proof fn law_white_space_does_not_matter(
    text: Seq<char>,
    extra: Map<Seq<char>, Seq<char>>,
    cap: bool,
    prefix: Seq<char>,
)
    ensures
        words(joined(words(text), " "@)) == words(text),
        composed(readings(words(joined(words(text), " "@))), 0, extra, cap, prefix, blank())
            == composed(readings(words(text)), 0, extra, cap, prefix, blank()),
{
    lemma_words(text);
    law_words_of_joined(words(text));
}

/// White space around the prefix does not matter.
pub proof fn law_padding_of_prefix_does_not_matter(prefix: Seq<char>)
    ensures
        lowercase(trimmed(trimmed(prefix))) == lowercase(trimmed(prefix)),
{
    lemma_trimmed_twice(prefix);
}

/// Neither does the case of a prefix of ASCII characters: prefixes that differ in
/// case alone are the same prefix, and so is the trimmed one in lower case.
pub proof fn law_case_of_prefix_does_not_matter(p: Seq<char>, q: Seq<char>)
    requires
        lowered(p) == lowered(q),
    ensures
        lowered(trimmed(p)) == lowered(trimmed(q)),
        lowered(trimmed(lowered(trimmed(p)))) == lowered(trimmed(p)),
{
    lemma_trimmed_lowered(p);
    lemma_trimmed_lowered(q);
    lemma_trimmed_lowered(trimmed(p));
    lemma_trimmed_twice(p);
    assert(lowered(lowered(trimmed(p))) =~= lowered(trimmed(p)));
}

/// A text reads as its words with single spaces between them, and a prefix of ASCII
/// characters as the trimmed one in lower case.
pub proof fn law_only_words_and_prefix_matter(
    text: Seq<char>,
    extra: Map<Seq<char>, Seq<char>>,
    cap: bool,
    prefix: Seq<char>,
)
    requires
        all_ascii(prefix),
    ensures
        all_ascii(lowered(trimmed(prefix))),
        composed(
            readings(words(joined(words(text), " "@))),
            0,
            extra,
            cap,
            lowered(trimmed(lowered(trimmed(prefix)))),
            blank(),
        ) == composed(
            readings(words(text)),
            0,
            extra,
            cap,
            lowered(trimmed(prefix)),
            blank(),
        ),
{
    law_white_space_does_not_matter(text, extra, cap, lowered(trimmed(prefix)));
    law_case_of_prefix_does_not_matter(prefix, prefix);
    lemma_trimmed_ascii(prefix);
    let p = trimmed(prefix);
    assert forall|i: int| 0 <= i < lowered(p).len() implies (#[trigger] lowered(p)[i] as u32)
        < 128 by {
        assert((p[i] as u32) < 128);
    }
}

// ── spaces ────────────────────────────────────────────────────────────────
/// No space at either end, no two in a row, and none before a line break.
pub open spec fn well_spaced(s: Seq<char>) -> bool {
    &&& s.len() > 0 ==> s[0] != ' ' && s.last() != ' '
    &&& forall|i: int| 0 <= i < s.len() - 1 && #[trigger] s[i] == ' ' ==> !is_space(s[i + 1])
}

/// A mark without white space, or one of the two that break the line.
pub open spec fn is_mark(sym: Seq<char>) -> bool {
    ||| kind(sym) is Newline
    ||| forall|i: int| 0 <= i < sym.len() ==> !is_space(#[trigger] sym[i])
}

proof fn lemma_rule_is_mark(table: Seq<(Seq<char>, Seq<char>)>, phrase: Seq<char>)
    requires
        forall|k: int| 0 <= k < table.len() ==> is_mark((#[trigger] table[k]).1),
        rule_for(table, phrase) is Some,
    ensures
        is_mark(rule_for(table, phrase)->0),
    decreases table.len(),
{
    if table[0].0 != phrase {
        assert forall|k: int| 0 <= k < table.skip(1).len() implies is_mark(
            (#[trigger] table.skip(1)[k]).1,
        ) by {
            assert(table.skip(1)[k] == table[k + 1]);
        }
        lemma_rule_is_mark(table.skip(1), phrase);
    }
}

proof fn lemma_rules_are_marks()
    ensures
        forall|k: int| 0 <= k < rule_table().len() ==> is_mark((#[trigger] rule_table()[k]).1),
{
    reveal_strlit(".");
    reveal_strlit(",");
    reveal_strlit("?");
    reveal_strlit("!");
    reveal_strlit(":");
    reveal_strlit(";");
    reveal_strlit("…");
    reveal_strlit("—");
    reveal_strlit("-");
    reveal_strlit("(");
    reveal_strlit(")");
    reveal_strlit("«");
    reveal_strlit("»");
    assert forall|k: int| 0 <= k < rule_table().len() implies is_mark(
        (#[trigger] rule_table()[k]).1,
    ) by {
        let sym = rule_table()[k].1;
        if sym != "\n"@ && sym != "\n\n"@ {
            assert(sym.len() == 1);
            assert(!is_space(sym[0]));
        }
    }
}

/// The built-in marks are marks, and so are all there are if those of the user's are.
proof fn lemma_marks(phrase: Seq<char>, extra: Map<Seq<char>, Seq<char>>)
    requires
        forall|k: Seq<char>| #[trigger] extra.dom().contains(k) ==> is_mark(extra[k]),
        mark_for(phrase, extra) is Some,
    ensures
        is_mark(mark_for(phrase, extra)->0),
{
    lemma_rules_are_marks();
    if !extra.dom().contains(phrase) {
        lemma_rule_is_mark(rule_table(), phrase);
    }
}

proof fn lemma_command_is_mark(
    list: Seq<Said>,
    i: int,
    extra: Map<Seq<char>, Seq<char>>,
    prefix: Seq<char>,
)
    requires
        forall|k: Seq<char>| #[trigger] extra.dom().contains(k) ==> is_mark(extra[k]),
        0 <= i < list.len(),
        command(list, i, extra, prefix) is Some,
    ensures
        match command(list, i, extra, prefix) {
            Some((n, sym)) => n >= 1 && is_mark(sym),
            None => false,
        },
{
    let b = if prefix.len() == 0 {
        i
    } else {
        i + 1
    };
    assert(command_at(list, b, extra) is Some);
    let s = list[b];
    if s.three is Some && mark_for(s.three->0, extra) is Some {
        lemma_marks(s.three->0, extra);
    } else if s.two is Some && mark_for(s.two->0, extra) is Some {
        lemma_marks(s.two->0, extra);
    } else {
        lemma_marks(s.one, extra);
    }
}

/// Characters that are no white space go behind a text, with or without a space.
proof fn lemma_put(s: Seq<char>, space: bool, w: Seq<char>)
    requires
        well_spaced(s),
        forall|i: int| 0 <= i < w.len() ==> !is_space(#[trigger] w[i]),
        space ==> w.len() > 0,
    ensures
        well_spaced(spaced(s, space) + w),
{
    let t = spaced(s, space);
    let r = t + w;
    if r.len() > 0 {
        if s.len() > 0 {
            assert(r[0] == s[0]);
        } else {
            assert(r[0] == w[0]);
        }
        if w.len() > 0 {
            assert(r.last() == w.last());
            assert(!is_space(w[w.len() - 1]));
        } else {
            assert(r.last() == s.last());
        }
    }
    assert forall|i: int| 0 <= i < r.len() - 1 && #[trigger] r[i] == ' ' implies !is_space(
        r[i + 1],
    ) by {
        if i < s.len() {
            assert(s[i] == ' ');
            assert(i < s.len() - 1);
            assert(r[i + 1] == s[i + 1]);
        } else if i < t.len() {
            assert(r[i + 1] == w[0]);
        } else {
            assert(!is_space(w[i - t.len()]));
        }
    }
}

proof fn lemma_with_mark(d: Draft, sym: Seq<char>)
    requires
        well_spaced(d.text),
        is_mark(sym),
    ensures
        well_spaced(with_mark(d, sym).text),
{
    let s = d.text;
    match kind(sym) {
        Kind::Newline(n) => {
            assert(without_blanks(s) == s);
            let r = s + Seq::new(n as nat, |i: int| '\n');
            assert forall|i: int| 0 <= i < r.len() - 1 && #[trigger] r[i] == ' ' implies !is_space(
                r[i + 1],
            ) by {
                assert(s[i] == ' ');
                assert(i < s.len() - 1);
                assert(r[i + 1] == s[i + 1]);
            }
            if r.len() > 0 {
                assert(r[0] == '\n' || r[0] == s[0]);
                assert(r.last() == '\n' || r.last() == s.last());
            }
        },
        Kind::Open => {
            reveal_strlit("«");
            reveal_strlit("(");
            reveal_strlit("[");
            reveal_strlit("{");
            lemma_put(s, d.need_space, sym);
        },
        Kind::Free => {
            reveal_strlit("—");
            assert(sym.len() > 0);
            lemma_put(s, true, sym);
        },
        _ => {
            lemma_put(s, false, sym);
        },
    }
}

proof fn lemma_well_spaced(
    list: Seq<Said>,
    i: int,
    extra: Map<Seq<char>, Seq<char>>,
    cap: bool,
    prefix: Seq<char>,
    d: Draft,
)
    requires
        forall|k: Seq<char>| #[trigger] extra.dom().contains(k) ==> is_mark(extra[k]),
        forall|k: int|
            0 <= k < list.len() ==> is_word((#[trigger] list[k]).word) && (cap ==> is_word(
                list[k].capital,
            )),
        0 <= i,
        well_spaced(d.text),
    ensures
        well_spaced(composed(list, i, extra, cap, prefix, d).text),
    decreases
            if i < list.len() {
                list.len() - i
            } else {
                0
            },
{
    if i < list.len() {
        match command(list, i, extra, prefix) {
            Some((n, sym)) => {
                lemma_command_is_mark(list, i, extra, prefix);
                lemma_with_mark(d, sym);
                lemma_well_spaced(list, i + n, extra, cap, prefix, with_mark(d, sym));
            },
            None => {
                assert(is_word(list[i].word));
                let w = if cap && d.sentence_start {
                    list[i].capital
                } else {
                    list[i].word
                };
                lemma_put(d.text, d.need_space, w);
                lemma_well_spaced(list, i + 1, extra, cap, prefix, with_word(d, list[i], cap));
            },
        }
    }
}

/// The text has no space at either end, no two spaces in a row and none before a line
/// break: with the built-in marks, and with marks of the user's that hold no white
/// space or break the line as the built-in ones do; where no word, nor its form with
/// a capital letter, is empty or holds white space.
pub proof fn law_text_is_well_spaced(
    list: Seq<Said>,
    extra: Map<Seq<char>, Seq<char>>,
    cap: bool,
    prefix: Seq<char>,
)
    requires
        forall|k: Seq<char>| #[trigger] extra.dom().contains(k) ==> is_mark(extra[k]),
        forall|k: int|
            0 <= k < list.len() ==> is_word((#[trigger] list[k]).word) && (cap ==> is_word(
                list[k].capital,
            )),
    ensures
        well_spaced(composed(list, 0, extra, cap, prefix, blank()).text),
{
    lemma_well_spaced(list, 0, extra, cap, prefix, blank());
}

// ── marks and words side by side ──────────────────────────────────────────
/// The mark sits right behind what it closes.
pub open spec fn is_closing(c: char) -> bool {
    c == '.' || c == ',' || c == '!' || c == '?' || c == ':' || c == ';' || c == '…' || c == '»' || c
        == ')' || c == ']' || c == '}'
}

/// The mark sits right before what it opens.
pub open spec fn is_opening(c: char) -> bool {
    c == '«' || c == '(' || c == '[' || c == '{'
}

proof fn lemma_kind_of_one(c: char)
    ensures
        kind(seq![c]) == (if c == '\n' {
            Kind::Newline(1)
        } else if is_opening(c) {
            Kind::Open
        } else if c == '—' {
            Kind::Free
        } else if is_closing(c) {
            Kind::Tail
        } else {
            Kind::Glue
        }),
        kind(seq!['\n', '\n']) == Kind::Newline(2),
{
    reveal_strlit("\n");
    reveal_strlit("\n\n");
    reveal_strlit("«");
    reveal_strlit("(");
    reveal_strlit("[");
    reveal_strlit("{");
    reveal_strlit("—");
    assert("\n"@ =~= seq!['\n']);
    assert("\n\n"@ =~= seq!['\n', '\n']);
    assert("«"@ =~= seq!['«']);
    assert("("@ =~= seq!['(']);
    assert("["@ =~= seq!['[']);
    assert("{"@ =~= seq!['{']);
    assert("—"@ =~= seq!['—']);
    let sym = seq![c];
    assert(sym[0] == c && sym.len() == 1);
    lemma_tail_set(c);
    assert(all_in(sym, ".,!?:;…»)]}"@) <==> is_closing(c)) by {
        if all_in(sym, ".,!?:;…»)]}"@) {
            assert(".,!?:;…»)]}"@.contains(sym[0]));
        }
    }
    assert(seq!['\n', '\n'].len() == 2);
}

proof fn lemma_tail_set(c: char)
    ensures
        ".,!?:;…»)]}"@.contains(c) <==> is_closing(c),
        ".!?…"@.contains(c) <==> c == '.' || c == '!' || c == '?' || c == '…',
{
    reveal_strlit(".,!?:;…»)]}");
    reveal_strlit(".!?…");
    let t = ".,!?:;…»)]}"@;
    assert(t.len() == 11);
    assert(t[0] == '.' && t[1] == ',' && t[2] == '!' && t[3] == '?' && t[4] == ':' && t[5] == ';'
        && t[6] == '…' && t[7] == '»' && t[8] == ')' && t[9] == ']' && t[10] == '}');
    if t.contains(c) {
        let i = choose|i: int| 0 <= i < t.len() && t[i] == c;
        assert(i == 0 || i == 1 || i == 2 || i == 3 || i == 4 || i == 5 || i == 6 || i == 7 || i
            == 8 || i == 9 || i == 10);
    }
    let u = ".!?…"@;
    assert(u.len() == 4);
    assert(u[0] == '.' && u[1] == '!' && u[2] == '?' && u[3] == '…');
    if u.contains(c) {
        let i = choose|i: int| 0 <= i < u.len() && u[i] == c;
        assert(i == 0 || i == 1 || i == 2 || i == 3);
    }
}

/// A sentence ends with a mark exactly if the mark has a full stop, an exclamation
/// mark, a question mark or an ellipsis in it.
pub proof fn law_what_ends_a_sentence(sym: Seq<char>)
    ensures
        closes(sym) <==> exists|i: int|
            0 <= i < sym.len() && ((#[trigger] sym[i]) == '.' || sym[i] == '!' || sym[i] == '?'
                || sym[i] == '…'),
{
    if closes(sym) {
        let i = choose|i: int| 0 <= i < sym.len() && ".!?…"@.contains(#[trigger] sym[i]);
        lemma_tail_set(sym[i]);
    }
    if exists|i: int|
        0 <= i < sym.len() && ((#[trigger] sym[i]) == '.' || sym[i] == '!' || sym[i] == '?'
            || sym[i] == '…') {
        let i = choose|i: int|
            0 <= i < sym.len() && ((#[trigger] sym[i]) == '.' || sym[i] == '!' || sym[i] == '?'
                || sym[i] == '…');
        lemma_tail_set(sym[i]);
        assert(".!?…"@.contains(sym[i]));
    }
}

/// A text ends with another.
pub open spec fn ends_in(s: Seq<char>, end: Seq<char>) -> bool {
    s.len() >= end.len() && s.skip(s.len() - end.len()) == end
}

/// The word behind a mark that ends a sentence, or behind a line break, begins with a
/// capital letter where that is asked for. Behind any other mark it does exactly if a
/// word in the place of the mark would. Without capitals every word stays as it was
/// said.
pub proof fn law_capital_behind_the_end_of_a_sentence(d: Draft, sym: Seq<char>, w: Said)
    ensures
        sym == seq!['.'] || sym == seq!['!'] || sym == seq!['?'] || sym == seq!['…'] || sym
            == seq!['\n'] || sym == seq!['\n', '\n'] ==> ends_in(
            with_word(with_mark(d, sym), w, true).text,
            w.capital,
        ),
        (exists|i: int|
            0 <= i < sym.len() && ((#[trigger] sym[i]) == '.' || sym[i] == '!' || sym[i] == '?'
                || sym[i] == '…')) ==> ends_in(
            with_word(with_mark(d, sym), w, true).text,
            w.capital,
        ),
        (forall|i: int|
            0 <= i < sym.len() ==> (#[trigger] sym[i]) != '.' && sym[i] != '!' && sym[i] != '?'
                && sym[i] != '…' && sym[i] != '\n') ==> with_mark(d, sym).sentence_start
            == d.sentence_start && ends_in(
            with_word(with_mark(d, sym), w, true).text,
            if d.sentence_start {
                w.capital
            } else {
                w.word
            },
        ),
        ends_in(with_word(d, w, false).text, w.word),
{
    law_what_ends_a_sentence(sym);
    lemma_kind_of_one('\n');
    let a = with_mark(d, sym);
    if sym == seq!['.'] || sym == seq!['!'] || sym == seq!['?'] || sym == seq!['…'] {
        assert(sym[0] == '.' || sym[0] == '!' || sym[0] == '?' || sym[0] == '…');
    }
    assert(ends_in(spaced(a.text, a.need_space) + w.capital, w.capital)) by {
        lemma_ends_in(spaced(a.text, a.need_space), w.capital);
    }
    lemma_ends_in(spaced(a.text, a.need_space), w.word);
    lemma_ends_in(spaced(d.text, d.need_space), w.word);
    if forall|i: int|
        0 <= i < sym.len() ==> (#[trigger] sym[i]) != '.' && sym[i] != '!' && sym[i] != '?'
            && sym[i] != '…' && sym[i] != '\n' {
        reveal_strlit("\n");
        reveal_strlit("\n\n");
        assert("\n"@[0] == '\n' && "\n\n"@[0] == '\n');
        assert(!(kind(sym) is Newline));
        assert(!closes(sym));
    }
}

proof fn lemma_ends_in(s: Seq<char>, end: Seq<char>)
    ensures
        ends_in(s + end, end),
{
    assert((s + end).skip(s.len() as int) =~= end);
}

/// The first word of a text, with or without a capital letter, and a word right behind
/// another: a space comes between them, and the second has no capital letter.
pub proof fn law_words_side_by_side(d: Draft, a: Said, b: Said, cap: bool)
    requires
        a.word.len() > 0,
        a.capital.len() > 0,
    ensures
        with_word(blank(), a, true).text == a.capital,
        with_word(blank(), a, false).text == a.word,
        with_word(with_word(d, a, cap), b, true).text == with_word(d, a, cap).text + seq![' ']
            + b.word,
        with_word(with_word(d, a, cap), b, false).text == with_word(d, a, cap).text + seq![' ']
            + b.word,
{
    let first = with_word(d, a, cap);
    assert(spaced(blank().text, false) + a.capital =~= a.capital);
    assert(spaced(blank().text, false) + a.word =~= a.word);
    assert(first.text.len() > 0);
    assert(first.text.push(' ') + b.word =~= first.text + seq![' '] + b.word);
}

/// A mark of one character behind a word: a closing one right behind it, an opening one
/// and the dash with a space before them, a line break and every other mark right
/// behind it.
pub proof fn law_mark_behind_word(d: Draft, a: Said, c: char, cap: bool)
    requires
        is_word(a.word),
        is_word(a.capital),
    ensures
        ({
            let first = with_word(d, a, cap);
            with_mark(first, seq![c]).text == (if is_opening(c) || c == '—' {
                first.text + seq![' ', c]
            } else {
                first.text + seq![c]
            })
        }),
        with_mark(with_word(d, a, cap), seq!['\n', '\n']).text == with_word(d, a, cap).text + seq![
            '\n',
            '\n',
        ],
{
    let first = with_word(d, a, cap);
    let w = if cap && d.sentence_start {
        a.capital
    } else {
        a.word
    };
    lemma_kind_of_one(c);
    assert(first.text.last() == w.last());
    assert(!is_space(w[w.len() - 1]));
    assert(without_blanks(first.text) == first.text);
    assert(first.text.push(' ') + seq![c] =~= first.text + seq![' ', c]);
    lemma_breaks();
}

proof fn lemma_breaks()
    ensures
        Seq::new(1, |i: int| '\n') == seq!['\n'],
        Seq::new(2, |i: int| '\n') == seq!['\n', '\n'],
{
    assert(Seq::new(1, |i: int| '\n') =~= seq!['\n']);
    assert(Seq::new(2, |i: int| '\n') =~= seq!['\n', '\n']);
}

/// A word behind a mark of one character: behind a closing one and behind the dash a
/// space comes first; behind an opening one, a line break and every other mark it
/// comes right away.
pub proof fn law_word_behind_mark(d: Draft, c: char, w: Said, cap: bool)
    ensures
        ({
            let marked = with_mark(d, seq![c]);
            let said = if cap && marked.sentence_start {
                w.capital
            } else {
                w.word
            };
            with_word(marked, w, cap).text == (if is_closing(c) || c == '—' {
                marked.text + seq![' '] + said
            } else {
                marked.text + said
            })
        }),
        ({
            let marked = with_mark(d, seq!['\n', '\n']);
            with_word(marked, w, cap).text == marked.text + (if cap {
                w.capital
            } else {
                w.word
            })
        }),
{
    lemma_kind_of_one(c);
    lemma_breaks();
    let marked = with_mark(d, seq![c]);
    let said = if cap && marked.sentence_start {
        w.capital
    } else {
        w.word
    };
    assert(marked.text.len() > 0);
    assert(marked.text.push(' ') + said =~= marked.text + seq![' '] + said);
}

/// A mark of one character at the start of a text stands there alone; behind another
/// mark, a dash has a space before it, an opening one has where a word would have, and
/// all others come right away.
pub proof fn law_mark_behind_mark(d: Draft, b: char, c: char)
    requires
        b != ' ',
    ensures
        with_mark(blank(), seq![c]).text == seq![c],
        ({
            let first = with_mark(d, seq![b]);
            with_mark(first, seq![c]).text == (if c == '—' || (is_opening(c) && (is_closing(b) || b
                == '—')) {
                first.text + seq![' ', c]
            } else {
                first.text + seq![c]
            })
        }),
{
    lemma_kind_of_one(b);
    lemma_kind_of_one(c);
    lemma_breaks();
    let first = with_mark(d, seq![b]);
    assert(first.text.len() > 0 && first.text.last() == b);
    assert(without_blanks(first.text) == first.text);
    assert(first.text.push(' ') + seq![c] =~= first.text + seq![' ', c]);
    assert(blank().text =~= Seq::<char>::empty());
    assert(Seq::<char>::empty() + seq![c] =~= seq![c]);
    assert(without_blanks(blank().text) == blank().text);
}

/// A mark of several characters of the user's: if all of them are closing ones it sits
/// right behind the word and a space follows, else spaces are around it. Two line
/// breaks are a line break.
pub proof fn law_longer_marks(d: Draft, a: Said, sym: Seq<char>, b: Said, cap: bool)
    requires
        a.word.len() > 0,
        a.capital.len() > 0,
        sym.len() > 1,
        sym != seq!['\n', '\n'],
    ensures
        ({
            let first = with_word(d, a, cap);
            let marked = with_mark(first, sym);
            let said = if cap && marked.sentence_start {
                b.capital
            } else {
                b.word
            };
            let closing = forall|i: int| 0 <= i < sym.len() ==> is_closing(#[trigger] sym[i]);
            with_word(marked, b, cap).text == (if closing {
                first.text + sym + seq![' '] + said
            } else {
                first.text + seq![' '] + sym + seq![' '] + said
            })
        }),
{
    reveal_strlit("\n");
    reveal_strlit("\n\n");
    reveal_strlit("«");
    reveal_strlit("(");
    reveal_strlit("[");
    reveal_strlit("{");
    reveal_strlit("—");
    assert("\n\n"@ =~= seq!['\n', '\n']);
    assert("\n"@.len() == 1 && "«"@.len() == 1 && "("@.len() == 1 && "["@.len() == 1 && "{"@.len()
        == 1 && "—"@.len() == 1);
    let closing = forall|i: int| 0 <= i < sym.len() ==> is_closing(#[trigger] sym[i]);
    assert(all_in(sym, ".,!?:;…»)]}"@) <==> closing) by {
        if closing {
            assert forall|i: int| 0 <= i < sym.len() implies ".,!?:;…»)]}"@.contains(
                #[trigger] sym[i],
            ) by {
                lemma_tail_set(sym[i]);
            }
        }
        if all_in(sym, ".,!?:;…»)]}"@) {
            assert forall|i: int| 0 <= i < sym.len() implies is_closing(#[trigger] sym[i]) by {
                lemma_tail_set(sym[i]);
                assert(".,!?:;…»)]}"@.contains(sym[i]));
            }
        }
    }
    let first = with_word(d, a, cap);
    let marked = with_mark(first, sym);
    let said = if cap && marked.sentence_start {
        b.capital
    } else {
        b.word
    };
    assert(first.text.len() > 0);
    assert(first.text.push(' ') + sym =~= first.text + seq![' '] + sym);
    assert(marked.text.push(' ') + said =~= marked.text + seq![' '] + said);
}

// ── from the words of a text to commands ──────────────────────────────────
/// What is read of a word: the word, the word with its first character in upper case,
/// and in lower case the word alone, with the next one and with the next two, joined by
/// single spaces, as far as there are so many.
pub proof fn law_what_is_read(ws: Seq<Seq<char>>, i: int)
    requires
        0 <= i < ws.len(),
        ws[i].len() > 0,
    ensures
        readings(ws).len() == ws.len(),
        readings(ws)[i].word == ws[i],
        readings(ws)[i].capital == uppercase_char(ws[i][0]) + ws[i].skip(1),
        readings(ws)[i].one == lowercase(ws[i]),
        readings(ws)[i].two == (if i + 1 < ws.len() {
            Some(lowercase(ws[i] + seq![' '] + ws[i + 1]))
        } else {
            None
        }),
        readings(ws)[i].three == (if i + 2 < ws.len() {
            Some(lowercase(ws[i] + seq![' '] + ws[i + 1] + seq![' '] + ws[i + 2]))
        } else {
            None
        }),
{
    reveal_strlit(" ");
    assert(" "@ =~= seq![' ']);
    if i + 1 < ws.len() {
        let p = ws.subrange(i, i + 2);
        assert(p.drop_last() =~= seq![ws[i]]);
        assert(p.last() == ws[i + 1]);
        assert(joined(seq![ws[i]], " "@) == ws[i]);
    }
    if i + 2 < ws.len() {
        let p = ws.subrange(i, i + 3);
        let q = ws.subrange(i, i + 2);
        assert(p.drop_last() =~= q);
        assert(p.last() == ws[i + 2]);
        assert(q.drop_last() =~= seq![ws[i]]);
        assert(q.last() == ws[i + 1]);
        assert(joined(seq![ws[i]], " "@) == ws[i]);
    }
}

/// A mark of the user's counts for its phrase, and the built-in one for all phrases
/// that the user has not set.
pub proof fn law_whose_mark_counts(phrase: Seq<char>, extra: Map<Seq<char>, Seq<char>>)
    ensures
        extra.dom().contains(phrase) ==> mark_for(phrase, extra) == Some(extra[phrase]),
        !extra.dom().contains(phrase) ==> mark_for(phrase, extra) == mark_for(
            phrase,
            Map::empty(),
        ),
{
}

/// Without a prefix word the longest phrase at a place that is a command gives its
/// mark; a word that begins no command is an ordinary word.
pub proof fn law_command_without_prefix(
    list: Seq<Said>,
    i: int,
    extra: Map<Seq<char>, Seq<char>>,
)
    requires
        0 <= i < list.len(),
    ensures
        ({
            let found = command(list, i, extra, Seq::empty());
            let three = match list[i].three {
                Some(p) => mark_for(p, extra),
                None => None,
            };
            let two = match list[i].two {
                Some(p) => mark_for(p, extra),
                None => None,
            };
            let one = mark_for(list[i].one, extra);
            &&& three matches Some(sym) ==> found == Some((3int, sym))
            &&& three is None ==> (two matches Some(sym) ==> found == Some((2int, sym)))
            &&& three is None && two is None ==> (one matches Some(sym) ==> found == Some(
                (1int, sym),
            ))
            &&& three is None && two is None && one is None ==> found is None
        }),
{
}

/// With a prefix word, a command takes effect right behind it, and takes the prefix
/// with it.
pub proof fn law_command_with_prefix(
    list: Seq<Said>,
    i: int,
    extra: Map<Seq<char>, Seq<char>>,
    prefix: Seq<char>,
)
    requires
        prefix.len() > 0,
        0 <= i < list.len() - 1,
        list[i].one == prefix,
    ensures
        match command(list, i + 1, extra, Seq::empty()) {
            Some((n, sym)) => command(list, i, extra, prefix) == Some((n + 1, sym)),
            None => command(list, i, extra, prefix) is None,
        },
{
}

/// A text is composed from left to right: where a command takes effect, its mark is
/// added and its words are gone; else the word is added.
pub proof fn law_composed_from_left_to_right(
    list: Seq<Said>,
    i: int,
    extra: Map<Seq<char>, Seq<char>>,
    cap: bool,
    prefix: Seq<char>,
    d: Draft,
)
    requires
        0 <= i <= list.len(),
    ensures
        i == list.len() ==> composed(list, i, extra, cap, prefix, d) == d,
        i < list.len() ==> (match command(list, i, extra, prefix) {
            Some((n, sym)) => composed(list, i, extra, cap, prefix, d) == composed(
                list,
                i + n,
                extra,
                cap,
                prefix,
                with_mark(d, sym),
            ),
            None => composed(list, i, extra, cap, prefix, d) == composed(
                list,
                i + 1,
                extra,
                cap,
                prefix,
                with_word(d, list[i], cap),
            ),
        }),
        blank().text.len() == 0,
{
}

/// Two words with a command of one word between them, wherever they stand in a text: the
/// mark takes the place of the command and sits between the words as it must.
pub proof fn law_mark_between_words(
    list: Seq<Said>,
    i: int,
    extra: Map<Seq<char>, Seq<char>>,
    cap: bool,
    d: Draft,
    c: char,
)
    requires
        0 <= i,
        i + 3 == list.len(),
        is_word(list[i].word),
        is_word(list[i].capital),
        command(list, i, extra, Seq::empty()) is None,
        command(list, i + 1, extra, Seq::empty()) == Some((1int, seq![c])),
        command(list, i + 2, extra, Seq::empty()) is None,
    ensures
        ({
            let first = with_word(d, list[i], cap).text;
            let between = if is_closing(c) {
                seq![c, ' ']
            } else if is_opening(c) {
                seq![' ', c]
            } else if c == '—' {
                seq![' ', c, ' ']
            } else {
                seq![c]
            };
            let last = if cap && (c == '.' || c == '!' || c == '?' || c == '…' || c == '\n') {
                list[i + 2].capital
            } else {
                list[i + 2].word
            };
            composed(list, i, extra, cap, Seq::empty(), d).text == first + between + last
        }),
{
    let none = Seq::<char>::empty();
    let d1 = with_word(d, list[i], cap);
    let d2 = with_mark(d1, seq![c]);
    let d3 = with_word(d2, list[i + 2], cap);
    law_composed_from_left_to_right(list, i, extra, cap, none, d);
    law_composed_from_left_to_right(list, i + 1, extra, cap, none, d1);
    law_composed_from_left_to_right(list, i + 2, extra, cap, none, d2);
    law_composed_from_left_to_right(list, i + 3, extra, cap, none, d3);
    law_mark_behind_word(d, list[i], c, cap);
    law_word_behind_mark(d1, c, list[i + 2], cap);
    law_what_ends_a_sentence(seq![c]);
    lemma_kind_of_one(c);
    assert(seq![c][0] == c);
    let last = if cap && (c == '.' || c == '!' || c == '?' || c == '…' || c == '\n') {
        list[i + 2].capital
    } else {
        list[i + 2].word
    };
    assert(d2.sentence_start <==> (c == '.' || c == '!' || c == '?' || c == '…' || c == '\n'));
    assert(d1.text + seq![c] + seq![' '] + last =~= d1.text + seq![c, ' '] + last);
    assert(d1.text + seq![' ', c] + seq![' '] + last =~= d1.text + seq![' ', c, ' '] + last);
}

/// The recogniser is told of all phrases that are commands, of the user's in lower case,
/// and of the prefix word if there is one; and of nothing else.
pub proof fn law_recogniser_knows_all_commands(
    all: Seq<Seq<char>>,
    extra: Map<Seq<char>, Seq<char>>,
    prefix: Seq<char>,
    x: Seq<char>,
)
    requires
        are_command_words(all, extra, prefix),
    ensures
        mark_for(x, Map::empty()) is Some ==> all.contains(x),
        extra.dom().contains(x) ==> all.contains(lowercase(x)),
        lowercase(trimmed(prefix)).len() > 0 ==> all.contains(lowercase(trimmed(prefix))),
        all.contains(x) ==> mark_for(x, Map::empty()) is Some || x == lowercase(trimmed(prefix))
            || exists|k: Seq<char>| #[trigger] extra.dom().contains(k) && x == lowercase(k),
{
    let last = if lowercase(trimmed(prefix)).len() > 0 {
        seq![lowercase(trimmed(prefix))]
    } else {
        Seq::<Seq<char>>::empty()
    };
    let keys = choose|keys: Seq<Seq<char>>|
        #[trigger] lists_keys(keys, extra) && all == rule_words() + keys.map_values(
            |w: Seq<char>| lowercase(w),
        ) + last;
    let own = keys.map_values(|w: Seq<char>| lowercase(w));
    let n = rule_words().len() as int;
    lemma_phrases_differ(0);
    let k = lemma_built_in(x);
    if k >= 0 {
        assert(all[k] == rule_words()[k]);
        assert(all[k] == x);
    }
    if extra.dom().contains(x) {
        assert(keys.contains(x));
        let j = choose|j: int| 0 <= j < keys.len() && keys[j] == x;
        assert(all[n + j] == own[j]);
        assert(all[n + j] == lowercase(x));
    }
    if lowercase(trimmed(prefix)).len() > 0 {
        assert(all[n + own.len()] == last[0]);
    }
    if all.contains(x) {
        let j = choose|j: int| 0 <= j < all.len() && all[j] == x;
        if j < n {
            assert(rule_words()[j] == x);
            assert(rule_table()[j].0 == x);
        } else if j < n + own.len() {
            assert(own[j - n] == x);
            assert(keys.contains(keys[j - n]));
            assert(extra.dom().contains(keys[j - n]));
        } else {
            assert(last[j - n - own.len()] == x);
        }
    }
}

/// A command for a new line or paragraph takes the blanks at the end of the text away and
/// nothing else, and puts one or two line breaks there. What follows is a new sentence and
/// stands right behind the break.
pub proof fn law_line_breaks(d: Draft)
    ensures
        ({
            let line = with_mark(d, "\n"@);
            let paragraph = with_mark(d, "\n\n"@);
            let n = line.text.len() - 1;
            &&& 0 <= n <= d.text.len()
            &&& line.text == d.text.take(n).push('\n')
            &&& n > 0 ==> d.text[n - 1] != ' '
            &&& forall|i: int| n <= i < d.text.len() ==> #[trigger] d.text[i] == ' '
            &&& paragraph.text == line.text.push('\n')
            &&& line.sentence_start && paragraph.sentence_start
            &&& !line.need_space && !paragraph.need_space
        }),
{
    lemma_breaks();
    lemma_without_blanks(d.text);
    let line = with_mark(d, "\n"@);
    let paragraph = with_mark(d, "\n\n"@);
    let bare = without_blanks(d.text);
    assert(line.text =~= bare.push('\n'));
    reveal_strlit("\n");
    reveal_strlit("\n\n");
    assert("\n"@.len() == 1 && "\n\n"@.len() == 2);
    assert(paragraph.text =~= line.text.push('\n'));
    assert(bare =~= d.text.take(bare.len() as int));
}

proof fn lemma_without_blanks(s: Seq<char>)
    ensures
        ({
            let n = without_blanks(s).len() as int;
            &&& n <= s.len()
            &&& without_blanks(s) == s.take(n)
            &&& n > 0 ==> s[n - 1] != ' '
            &&& forall|i: int| n <= i < s.len() ==> #[trigger] s[i] == ' '
        }),
    decreases s.len(),
{
    if s.len() > 0 && s.last() == ' ' {
        lemma_without_blanks(s.drop_last());
        let n = without_blanks(s).len() as int;
        assert(s.take(n) =~= s.drop_last().take(n));
        assert forall|i: int| n <= i < s.len() implies #[trigger] s[i] == ' ' by {
            if i < s.len() - 1 {
                assert(s.drop_last()[i] == ' ');
            }
        }
    } else {
        assert(s.take(s.len() as int) =~= s);
    }
}

/// The recogniser is given the 23 built-in commands first and then the user's own in
/// alphabetical order, each once and in lower case.
pub proof fn law_order_of_the_commands(
    all: Seq<Seq<char>>,
    extra: Map<Seq<char>, Seq<char>>,
    prefix: Seq<char>,
    x: Seq<char>,
)
    requires
        are_command_words(all, extra, prefix),
    ensures
        exists|keys: Seq<Seq<char>>|
            {
                &&& #[trigger] in_alphabetical_order(keys)
                &&& keys.contains(x) <==> extra.dom().contains(x)
                &&& 23 + keys.len() <= all.len() <= 24 + keys.len()
                &&& forall|i: int| 0 <= i < keys.len() ==> all[23 + i] == lowercase(#[trigger] keys[i])
            },
{
    let last = if lowercase(trimmed(prefix)).len() > 0 {
        seq![lowercase(trimmed(prefix))]
    } else {
        Seq::<Seq<char>>::empty()
    };
    let keys = choose|keys: Seq<Seq<char>>|
        #[trigger] lists_keys(keys, extra) && all == rule_words() + keys.map_values(
            |w: Seq<char>| lowercase(w),
        ) + last;
    let own = keys.map_values(|w: Seq<char>| lowercase(w));
    assert(rule_words().len() == 23);
    assert(in_alphabetical_order(keys));
    assert forall|i: int| 0 <= i < keys.len() implies all[23 + i] == lowercase(
        #[trigger] keys[i],
    ) by {
        assert(all[23 + i] == own[i]);
    }
}

/// Each text comes before all that stand behind it.
pub open spec fn in_alphabetical_order(keys: Seq<Seq<char>>) -> bool {
    forall|i: int, j: int|
        0 <= i < j < keys.len() ==> precedes(#[trigger] keys[i], #[trigger] keys[j])
}

} // verus!
