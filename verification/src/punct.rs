//! Spoken punctuation: command words in a recognised text become marks.
//!
//! «привет запятая как дела знак вопроса» becomes «Привет, как дела?».

use crate::phrase::{capitalize, capitalized};
use crate::text::{
    all_ascii, chars_of, join_range, joined, lemma_texts_push, lemma_trimmed_ascii, lowercase,
    lowered, opt_text, same, split_whitespace, texts, to_lowercase, trim, trimmed, words,
};
use crate::wordmap::{ascending, WordMap};
use vstd::prelude::*;

verus! {

/// How a mark sits between its neighbours.
#[derive(Clone, Copy, PartialEq, Eq, Structural, Debug)]
pub enum Kind {
    /// Right behind the word before it: `. , ! ? : ; … » )`.
    Tail,
    /// Right before the next word: `« (`.
    Open,
    /// With spaces on both sides: `—`.
    Free,
    /// Without spaces on either side: hyphen, `@`, `/`.
    Glue,
    /// So many line breaks.
    Newline(u8),
}

/// The built-in commands: what is said and the mark for it. Only explicit forms:
/// ordinary words such as «вопрос» or «абзац» are none.
pub open spec fn rule_table() -> Seq<(Seq<char>, Seq<char>)> {
    seq![
        ("точка"@, "."@),
        ("запятая"@, ","@),
        ("вопросительный знак"@, "?"@),
        ("знак вопроса"@, "?"@),
        ("восклицательный знак"@, "!"@),
        ("знак восклицания"@, "!"@),
        ("двоеточие"@, ":"@),
        ("точка с запятой"@, ";"@),
        ("многоточие"@, "…"@),
        ("тире"@, "—"@),
        ("дефис"@, "-"@),
        ("открыть скобку"@, "("@),
        ("скобка открывается"@, "("@),
        ("закрыть скобку"@, ")"@),
        ("скобка закрывается"@, ")"@),
        ("открыть кавычки"@, "«"@),
        ("кавычки открываются"@, "«"@),
        ("закрыть кавычки"@, "»"@),
        ("кавычки закрываются"@, "»"@),
        ("новая строка"@, "\n"@),
        ("с новой строки"@, "\n"@),
        ("новый абзац"@, "\n\n"@),
        ("с нового абзаца"@, "\n\n"@),
    ]
}

spec fn pair_texts(v: Seq<(&'static str, &'static str)>) -> Seq<(Seq<char>, Seq<char>)> {
    v.map_values(|p: (&'static str, &'static str)| (p.0@, p.1@))
}

fn rules() -> (r: Vec<(&'static str, &'static str)>)
    ensures
        pair_texts(r@) == rule_table(),
{
    let r: Vec<(&'static str, &'static str)> = vec![
        ("точка", "."),
        ("запятая", ","),
        ("вопросительный знак", "?"),
        ("знак вопроса", "?"),
        ("восклицательный знак", "!"),
        ("знак восклицания", "!"),
        ("двоеточие", ":"),
        ("точка с запятой", ";"),
        ("многоточие", "…"),
        ("тире", "—"),
        ("дефис", "-"),
        ("открыть скобку", "("),
        ("скобка открывается", "("),
        ("закрыть скобку", ")"),
        ("скобка закрывается", ")"),
        ("открыть кавычки", "«"),
        ("кавычки открываются", "«"),
        ("закрыть кавычки", "»"),
        ("кавычки закрываются", "»"),
        ("новая строка", "\n"),
        ("с новой строки", "\n"),
        ("новый абзац", "\n\n"),
        ("с нового абзаца", "\n\n"),
    ];
    assert(pair_texts(r@) =~= rule_table());
    r
}

/// What is said for each built-in command.
pub open spec fn rule_words() -> Seq<Seq<char>> {
    rule_table().map_values(|p: (Seq<char>, Seq<char>)| p.0)
}

/// The command words, to be made known to the recogniser: the built-in ones, then
/// the user's in lower case, then the prefix word if there is one.
pub fn command_words(extra: &WordMap, prefix: &str) -> (r: Vec<String>)
    ensures
        are_command_words(texts(r@), extra@, prefix@),
{
    let table = rules();
    let mut v: Vec<String> = Vec::new();
    let mut i: usize = 0;
    while i < table.len()
        invariant
            i <= table@.len(),
            pair_texts(table@) == rule_table(),
            texts(v@) == rule_words().take(i as int),
        decreases table@.len() - i,
    {
        let w = table[i].0.to_owned();
        proof {
            lemma_texts_push(v@, w);
            assert(pair_texts(table@)[i as int].0 == w@);
            assert(rule_words().take(i + 1) =~= rule_words().take(i as int).push(w@));
        }
        v.push(w);
        i += 1;
    }
    assert(pair_texts(table@).len() == table@.len());
    assert(rule_words().take(i as int) =~= rule_words());
    let keys = extra.keys();
    let mut k: usize = 0;
    let ghost own = texts(keys@).map_values(|w: Seq<char>| lowercase(w));
    assert(rule_words() + own.take(0) =~= rule_words());
    while k < keys.len()
        invariant
            k <= keys@.len(),
            own == texts(keys@).map_values(|w: Seq<char>| lowercase(w)),
            texts(v@) == rule_words() + own.take(k as int),
        decreases keys@.len() - k,
    {
        let w = to_lowercase(&keys[k]);
        proof {
            lemma_texts_push(v@, w);
            assert(own[k as int] == w@);
            assert(rule_words() + own.take(k + 1) =~= (rule_words() + own.take(k as int)).push(w@));
        }
        v.push(w);
        k += 1;
    }
    assert(own.take(k as int) =~= own);
    let t = trim(prefix);
    let p = to_lowercase(&t);
    let ghost before = texts(v@);
    if chars_of(&p).len() > 0 {
        proof {
            lemma_texts_push(v@, p);
        }
        v.push(p);
    }
    proof {
        let last = if lowercase(trimmed(prefix@)).len() > 0 {
            seq![lowercase(trimmed(prefix@))]
        } else {
            Seq::<Seq<char>>::empty()
        };
        assert(texts(v@) =~= rule_words() + own + last);
        assert(lists_keys(texts(keys@), extra@));
    }
    v
}

/// `keys` are the words of the map in ascending order.
pub open spec fn lists_keys(keys: Seq<Seq<char>>, extra: Map<Seq<char>, Seq<char>>) -> bool {
    &&& ascending(keys)
    &&& forall|k: Seq<char>| #[trigger] keys.contains(k) <==> extra.dom().contains(k)
}

/// `all` is the list of command words: the built-in ones, the user's in lower
/// case, and the prefix word if there is one.
pub open spec fn are_command_words(
    all: Seq<Seq<char>>,
    extra: Map<Seq<char>, Seq<char>>,
    prefix: Seq<char>,
) -> bool {
    let last = if lowercase(trimmed(prefix)).len() > 0 {
        seq![lowercase(trimmed(prefix))]
    } else {
        Seq::<Seq<char>>::empty()
    };
    exists|keys: Seq<Seq<char>>|
        #[trigger] lists_keys(keys, extra) && all == rule_words() + keys.map_values(
            |w: Seq<char>| lowercase(w),
        ) + last
}

// ── marks ─────────────────────────────────────────────────────────────────
/// All characters of `s` are in `set`.
pub open spec fn all_in(s: Seq<char>, set: Seq<char>) -> bool {
    forall|i: int| 0 <= i < s.len() ==> set.contains(#[trigger] s[i])
}

/// How a mark sits between its neighbours.
pub open spec fn kind(sym: Seq<char>) -> Kind {
    if sym == "\n"@ {
        Kind::Newline(1)
    } else if sym == "\n\n"@ {
        Kind::Newline(2)
    } else if sym == "«"@ || sym == "("@ || sym == "["@ || sym == "{"@ {
        Kind::Open
    } else if sym == "—"@ {
        Kind::Free
    } else if all_in(sym, ".,!?:;…»)]}"@) {
        Kind::Tail
    } else if sym.len() == 1 {
        Kind::Glue
    } else {
        Kind::Free
    }
}

/// A sentence ends with the mark.
pub open spec fn closes(sym: Seq<char>) -> bool {
    exists|i: int| 0 <= i < sym.len() && ".!?…"@.contains(#[trigger] sym[i])
}

fn in_set(c: char, set: &str) -> (r: bool)
    ensures
        r == set@.contains(c),
{
    let v = chars_of(set);
    let mut i: usize = 0;
    while i < v.len()
        invariant
            v@ == set@,
            i <= v@.len(),
            forall|k: int| 0 <= k < i ==> v@[k] != c,
        decreases v@.len() - i,
    {
        if v[i] == c {
            return true;
        }
        i += 1;
    }
    false
}

/// How a mark sits between its neighbours.
pub fn kind_of(sym: &str) -> (r: Kind)
    ensures
        r == kind(sym@),
{
    if same(sym, "\n") {
        return Kind::Newline(1);
    }
    if same(sym, "\n\n") {
        return Kind::Newline(2);
    }
    if same(sym, "«") || same(sym, "(") || same(sym, "[") || same(sym, "{") {
        return Kind::Open;
    }
    if same(sym, "—") {
        return Kind::Free;
    }
    let v = chars_of(sym);
    let mut i: usize = 0;
    while i < v.len() && in_set(v[i], ".,!?:;…»)]}")
        invariant
            v@ == sym@,
            i <= v@.len(),
            forall|k: int| 0 <= k < i ==> ".,!?:;…»)]}"@.contains(#[trigger] v@[k]),
        decreases v@.len() - i,
    {
        i += 1;
    }
    if i == v.len() {
        return Kind::Tail;
    }
    assert(!all_in(sym@, ".,!?:;…»)]}"@)) by {
        assert(!".,!?:;…»)]}"@.contains(sym@[i as int]));
    }
    if v.len() == 1 {
        Kind::Glue
    } else {
        Kind::Free
    }
}

/// Does a sentence end with the mark.
pub fn ends_sentence(sym: &str) -> (r: bool)
    ensures
        r == closes(sym@),
{
    let v = chars_of(sym);
    let mut i: usize = 0;
    while i < v.len()
        invariant
            v@ == sym@,
            i <= v@.len(),
            forall|k: int| 0 <= k < i ==> !".!?…"@.contains(#[trigger] v@[k]),
        decreases v@.len() - i,
    {
        if in_set(v[i], ".!?…") {
            assert(".!?…"@.contains(sym@[i as int]));
            return true;
        }
        i += 1;
    }
    false
}

// ── finding commands ──────────────────────────────────────────────────────
/// The mark of the first rule for the phrase.
pub open spec fn rule_for(
    table: Seq<(Seq<char>, Seq<char>)>,
    phrase: Seq<char>,
) -> Option<Seq<char>>
    decreases table.len(),
{
    if table.len() == 0 {
        None
    } else if table[0].0 == phrase {
        Some(table[0].1)
    } else {
        rule_for(table.skip(1), phrase)
    }
}

/// The mark for a phrase: the user's, else the built-in one.
pub open spec fn mark_for(
    phrase: Seq<char>,
    extra: Map<Seq<char>, Seq<char>>,
) -> Option<Seq<char>> {
    if extra.dom().contains(phrase) {
        Some(extra[phrase])
    } else {
        rule_for(rule_table(), phrase)
    }
}

/// The mark for a phrase, the user's table first.
pub fn lookup(phrase: &str, extra: &WordMap) -> (r: Option<String>)
    ensures
        opt_text(r) == mark_for(phrase@, extra@),
{
    if let Some(s) = extra.get(phrase) {
        return Some(s);
    }
    let table = rules();
    let ghost all = rule_table();
    let mut i: usize = 0;
    assert(all.skip(0) =~= all);
    while i < table.len()
        invariant
            i <= table@.len(),
            all == pair_texts(table@),
            all == rule_table(),
            !extra@.dom().contains(phrase@),
            rule_for(all, phrase@) == rule_for(all.skip(i as int), phrase@),
        decreases table@.len() - i,
    {
        proof {
            assert(all.skip(i as int)[0] == pair_texts(table@)[i as int]);
            assert(all.skip(i as int).skip(1) =~= all.skip(i + 1));
        }
        if same(table[i].0, phrase) {
            return Some(table[i].1.to_owned());
        }
        i += 1;
    }
    None
}

/// A word of the recognised text with what else is read of it.
pub struct Spoken {
    /// The word.
    pub word: String,
    /// The word with a capital letter.
    pub capital: String,
    /// The word in lower case.
    pub one: String,
    /// It and the next word in lower case, if there is a next word.
    pub two: Option<String>,
    /// It and the next two words in lower case, if there are so many.
    pub three: Option<String>,
}

/// A spoken word as characters.
pub struct Said {
    pub word: Seq<char>,
    pub capital: Seq<char>,
    pub one: Seq<char>,
    pub two: Option<Seq<char>>,
    pub three: Option<Seq<char>>,
}

impl View for Spoken {
    type V = Said;

    open spec fn view(&self) -> Said {
        Said {
            word: self.word@,
            capital: self.capital@,
            one: self.one@,
            two: opt_text(self.two),
            three: opt_text(self.three),
        }
    }
}

pub open spec fn said(v: Seq<Spoken>) -> Seq<Said> {
    v.map_values(|s: Spoken| s@)
}

/// The longest command, of up to three words, at a position: how many words it
/// has and its mark.
pub open spec fn command_at(
    list: Seq<Said>,
    i: int,
    extra: Map<Seq<char>, Seq<char>>,
) -> Option<(int, Seq<char>)> {
    if i >= list.len() {
        None
    } else if list[i].three is Some && mark_for(list[i].three->0, extra) is Some {
        Some((3, mark_for(list[i].three->0, extra)->0))
    } else if list[i].two is Some && mark_for(list[i].two->0, extra) is Some {
        Some((2, mark_for(list[i].two->0, extra)->0))
    } else if mark_for(list[i].one, extra) is Some {
        Some((1, mark_for(list[i].one, extra)->0))
    } else {
        None
    }
}

/// The command that takes effect at a position. With a prefix word, only one
/// behind the prefix does, and it takes the prefix with it.
pub open spec fn command(
    list: Seq<Said>,
    i: int,
    extra: Map<Seq<char>, Seq<char>>,
    prefix: Seq<char>,
) -> Option<(int, Seq<char>)> {
    if prefix.len() == 0 {
        command_at(list, i, extra)
    } else if list[i].one == prefix {
        match command_at(list, i + 1, extra) {
            Some((n, sym)) => Some((n + 1, sym)),
            None => None,
        }
    } else {
        None
    }
}

fn find_command(list: &Vec<Spoken>, i: usize, extra: &WordMap, prefix: &str) -> (r: Option<
    (usize, String),
>)
    requires
        i < list@.len(),
    ensures
        match r {
            Some((n, sym)) => command(said(list@), i as int, extra@, prefix@) == Some(
                (n as int, sym@),
            ) && 1 <= n <= 4,
            None => command(said(list@), i as int, extra@, prefix@) is None,
        },
{
    let len: usize = list.len();
    let (base, skip): (usize, usize) = if chars_of(prefix).len() == 0 {
        (i, 0)
    } else if same(&list[i].one, prefix) {
        (i + 1, 1)
    } else {
        assert(said(list@)[i as int] == list@[i as int]@);
        return None;
    };
    assert(said(list@)[i as int] == list@[i as int]@);
    if base >= len {
        return None;
    }
    assert(said(list@)[base as int] == list@[base as int]@);
    if let Some(p) = &list[base].three {
        if let Some(sym) = lookup(p, extra) {
            return Some((3 + skip, sym));
        }
    }
    if let Some(p) = &list[base].two {
        if let Some(sym) = lookup(p, extra) {
            return Some((2 + skip, sym));
        }
    }
    if let Some(sym) = lookup(&list[base].one, extra) {
        return Some((1 + skip, sym));
    }
    None
}

// ── composing the text ────────────────────────────────────────────────────
/// The text so far, whether a space belongs before the next word, and whether
/// the next word begins a sentence.
pub struct Draft {
    pub text: Seq<char>,
    pub need_space: bool,
    pub sentence_start: bool,
}

/// A text without the spaces at its end.
pub open spec fn without_blanks(s: Seq<char>) -> Seq<char>
    decreases s.len(),
{
    if s.len() > 0 && s.last() == ' ' {
        without_blanks(s.drop_last())
    } else {
        s
    }
}

pub open spec fn spaced(s: Seq<char>, space: bool) -> Seq<char> {
    if space && s.len() > 0 {
        s.push(' ')
    } else {
        s
    }
}

/// The draft with a mark added.
pub open spec fn with_mark(d: Draft, sym: Seq<char>) -> Draft {
    let sentence_start = d.sentence_start || closes(sym) || kind(sym) is Newline;
    match kind(sym) {
        Kind::Tail => Draft { text: d.text + sym, need_space: true, sentence_start },
        Kind::Open => Draft {
            text: spaced(d.text, d.need_space) + sym,
            need_space: false,
            sentence_start,
        },
        Kind::Free => Draft {
            text: spaced(d.text, true) + sym,
            need_space: true,
            sentence_start,
        },
        Kind::Glue => Draft { text: d.text + sym, need_space: false, sentence_start },
        Kind::Newline(n) => Draft {
            text: without_blanks(d.text) + Seq::new(n as nat, |i: int| '\n'),
            need_space: false,
            sentence_start,
        },
    }
}

/// The draft with an ordinary word added.
pub open spec fn with_word(d: Draft, w: Said, cap: bool) -> Draft {
    Draft {
        text: spaced(d.text, d.need_space) + (if cap && d.sentence_start {
            w.capital
        } else {
            w.word
        }),
        need_space: true,
        sentence_start: false,
    }
}

/// The draft with the words from position `i` on added.
pub open spec fn composed(
    list: Seq<Said>,
    i: int,
    extra: Map<Seq<char>, Seq<char>>,
    cap: bool,
    prefix: Seq<char>,
    d: Draft,
) -> Draft
    decreases
            if i < list.len() {
                list.len() - i
            } else {
                0
            },
{
    if i >= list.len() {
        d
    } else {
        match command(list, i, extra, prefix) {
            Some((n, sym)) => composed(list, i + n, extra, cap, prefix, with_mark(d, sym)),
            None => composed(list, i + 1, extra, cap, prefix, with_word(d, list[i], cap)),
        }
    }
}

/// A draft before any word.
pub open spec fn blank() -> Draft {
    Draft { text: Seq::empty(), need_space: false, sentence_start: true }
}

/// Puts a mark behind the text.
fn put_mark(out: &mut Vec<char>, need_space: bool, sentence_start: bool, sym: &str) -> (r: (
    bool,
    bool,
))
    ensures
        (Draft { text: final(out)@, need_space: r.0, sentence_start: r.1 }) == with_mark(
            (Draft { text: old(out)@, need_space, sentence_start }),
            sym@,
        ),
{
    let v = chars_of(sym);
    let k = kind_of(sym);
    let ghost was = out@;
    let need: bool = match k {
        Kind::Tail => {
            out.extend_from_slice(v.as_slice());
            assert(out@ =~= was + sym@);
            true
        },
        Kind::Open => {
            if out.len() > 0 && need_space {
                out.push(' ');
            }
            out.extend_from_slice(v.as_slice());
            assert(out@ =~= spaced(was, need_space) + sym@);
            false
        },
        Kind::Free => {
            if out.len() > 0 {
                out.push(' ');
            }
            out.extend_from_slice(v.as_slice());
            assert(out@ =~= spaced(was, true) + sym@);
            true
        },
        Kind::Glue => {
            out.extend_from_slice(v.as_slice());
            assert(out@ =~= was + sym@);
            false
        },
        Kind::Newline(n) => {
            while out.len() > 0 && out[out.len() - 1] == ' '
                invariant
                    without_blanks(out@) == without_blanks(was),
                decreases out@.len(),
            {
                assert(out@.take(out@.len() - 1) =~= out@.drop_last());
                let len: usize = out.len() - 1;
                out.truncate(len);
            }
            let ghost bare = out@;
            let mut i: u8 = 0;
            while i < n
                invariant
                    i <= n,
                    out@ == bare + Seq::new(i as nat, |x: int| '\n'),
                decreases n - i,
            {
                out.push('\n');
                i += 1;
                assert(out@ =~= bare + Seq::new(i as nat, |x: int| '\n'));
            }
            assert(bare == without_blanks(was));
            assert(out@ =~= without_blanks(was) + Seq::new(n as nat, |x: int| '\n'));
            false
        },
    };
    let newline: bool = match k {
        Kind::Newline(_) => true,
        _ => false,
    };
    (need, sentence_start || ends_sentence(sym) || newline)
}

/// Composes the text from the words as they were read. `prefix` is in lower
/// case.
pub fn compose(list: &Vec<Spoken>, extra: &WordMap, cap: bool, prefix: &str) -> (r: String)
    ensures
        r@ == composed(said(list@), 0, extra@, cap, prefix@, blank()).text,
{
    let ghost all = said(list@);
    let mut out: Vec<char> = Vec::new();
    let mut need_space = false;
    let mut sentence_start = true;
    let mut i: usize = 0;
    assert(out@ =~= Seq::<char>::empty());
    while i < list.len()
        invariant
            i <= list@.len(),
            all == said(list@),
            composed(all, 0, extra@, cap, prefix@, blank()) == composed(
                all,
                i as int,
                extra@,
                cap,
                prefix@,
                (Draft { text: out@, need_space, sentence_start }),
            ),
        decreases list@.len() - i,
    {
        assert(all[i as int] == list@[i as int]@);
        match find_command(list, i, extra, prefix) {
            Some((n, sym)) => {
                let (a, b) = put_mark(&mut out, need_space, sentence_start, &sym);
                need_space = a;
                sentence_start = b;
                if n < list.len() - i {
                    i += n;
                } else {
                    proof {
                        let d = Draft { text: out@, need_space, sentence_start };
                        let past = i + n;
                        assert(composed(all, past, extra@, cap, prefix@, d) == d);
                        assert(composed(all, all.len() as int, extra@, cap, prefix@, d) == d);
                    }
                    i = list.len();
                }
            },
            None => {
                let ghost was = out@;
                if need_space && out.len() > 0 {
                    out.push(' ');
                }
                let v = if cap && sentence_start {
                    chars_of(&list[i].capital)
                } else {
                    chars_of(&list[i].word)
                };
                out.extend_from_slice(v.as_slice());
                assert(out@ =~= spaced(was, need_space) + v@);
                need_space = true;
                sentence_start = false;
                i += 1;
            },
        }
    }
    crate::text::string_of(&out, 0, out.len())
}

/// A part of a list of words in lower case, if there are so many words.
pub open spec fn phrase_at(list: Seq<Seq<char>>, i: int, n: int) -> Option<Seq<char>> {
    if i + n <= list.len() {
        Some(lowercase(joined(list.subrange(i, i + n), " "@)))
    } else {
        None
    }
}

/// The words of a text as they are read.
pub open spec fn readings(list: Seq<Seq<char>>) -> Seq<Said> {
    Seq::new(
        list.len(),
        |i: int|
            Said {
                word: list[i],
                capital: capitalized(list[i]),
                one: lowercase(list[i]),
                two: phrase_at(list, i, 2),
                three: phrase_at(list, i, 3),
            },
    )
}

/// Reads the words of a text.
pub fn read(text: &str) -> (r: Vec<Spoken>)
    ensures
        said(r@) == readings(words(text@)),
{
    let tokens = split_whitespace(text);
    let mut out: Vec<Spoken> = Vec::new();
    let ghost all = words(text@);
    let mut i: usize = 0;
    let n: usize = tokens.len();
    assert(texts(tokens@).len() == n);
    while i < n
        invariant
            i <= n == tokens@.len(),
            n == all.len(),
            all == texts(tokens@),
            said(out@) == readings(all).take(i as int),
        decreases n - i,
    {
        let two = if n - i >= 2 {
            let p = join_range(&tokens, i, i + 2, " ");
            Some(to_lowercase(&p))
        } else {
            None
        };
        let three = if n - i >= 3 {
            let p = join_range(&tokens, i, i + 3, " ");
            Some(to_lowercase(&p))
        } else {
            None
        };
        let s = Spoken {
            word: tokens[i].clone(),
            capital: capitalize(&tokens[i]),
            one: to_lowercase(&tokens[i]),
            two,
            three,
        };
        proof {
            assert(all[i as int] == tokens@[i as int]@);
            assert(s@ == readings(all)[i as int]);
            assert(said(out@.push(s)) =~= said(out@).push(s@));
            assert(readings(all).take(i + 1) =~= readings(all).take(i as int).push(s@));
        }
        out.push(s);
        i += 1;
    }
    assert(readings(all).take(n as int) =~= readings(all));
    out
}

/// Replaces the command words of a text by marks.
///
/// `cap` asks for a capital letter at the start of a sentence. `prefix`, if it
/// is not empty, is a word that must stand before a command; a command word
/// without it stays an ordinary word.
pub fn apply(text: &str, extra: &WordMap, cap: bool, prefix: &str) -> (r: String)
    ensures
        r@ == composed(
            readings(words(text@)),
            0,
            extra@,
            cap,
            lowercase(trimmed(prefix@)),
            blank(),
        ).text,
        all_ascii(prefix@) ==> r@ == composed(
            readings(words(text@)),
            0,
            extra@,
            cap,
            lowered(trimmed(prefix@)),
            blank(),
        ).text,
{
    let list = read(text);
    let t = trim(prefix);
    proof {
        if all_ascii(prefix@) {
            lemma_trimmed_ascii(prefix@);
        }
    }
    let p = to_lowercase(&t);
    compose(&list, extra, cap, &p)
}

// ── laws ──────────────────────────────────────────────────────────────────
/// A command of the user's takes the place of a built-in one.
pub proof fn law_user_words_override(
    phrase: Seq<char>,
    symbol: Seq<char>,
    extra: Map<Seq<char>, Seq<char>>,
)
    ensures
        mark_for(phrase, extra.insert(phrase, symbol)) == Some(symbol),
        forall|other: Seq<char>|
            other != phrase ==> mark_for(other, extra.insert(phrase, symbol)) == #[trigger] mark_for(
                other,
                extra,
            ),
{
}

/// The command at a position is the longest there is: no phrase with more words
/// at that position is a command.
pub proof fn law_longest_command(list: Seq<Said>, i: int, extra: Map<Seq<char>, Seq<char>>)
    requires
        0 <= i < list.len(),
    ensures
        ({
            let three = list[i].three is Some && mark_for(list[i].three->0, extra) is Some;
            let two = list[i].two is Some && mark_for(list[i].two->0, extra) is Some;
            let one = mark_for(list[i].one, extra) is Some;
            match command_at(list, i, extra) {
                Some((n, _)) => 1 <= n <= 3 && (three ==> n == 3) && (two ==> n >= 2),
                None => !three && !two && !one,
            }
        }),
{
}

/// A text without commands, as a draft from its words alone.
pub open spec fn plain(list: Seq<Said>, n: int, cap: bool) -> Seq<char>
    recommends
        0 <= n <= list.len(),
    decreases n,
{
    if n <= 0 {
        Seq::empty()
    } else if n == 1 {
        if cap {
            list[0].capital
        } else {
            list[0].word
        }
    } else {
        plain(list, n - 1, cap).push(' ') + list[n - 1].word
    }
}

proof fn lemma_plain(
    list: Seq<Said>,
    i: int,
    extra: Map<Seq<char>, Seq<char>>,
    cap: bool,
    prefix: Seq<char>,
    d: Draft,
)
    requires
        0 <= i <= list.len(),
        forall|k: int| 0 <= k < list.len() ==> #[trigger] command(list, k, extra, prefix) is None,
        forall|k: int|
            0 <= k < list.len() ==> (#[trigger] list[k]).word.len() > 0 && (cap
                ==> list[k].capital.len() > 0),
        i == 0 ==> d == blank(),
        i > 0 ==> d == (Draft {
            text: plain(list, i, cap),
            need_space: true,
            sentence_start: false,
        }) && d.text.len() > 0,
    ensures
        composed(list, i, extra, cap, prefix, d).text == plain(list, list.len() as int, cap),
    decreases list.len() - i,
{
    if i < list.len() {
        assert(command(list, i, extra, prefix) is None);
        let next = with_word(d, list[i], cap);
        assert(next.text =~= plain(list, i + 1, cap));
        assert(list[i].word.len() > 0);
        lemma_plain(list, i + 1, extra, cap, prefix, next);
    }
}

/// A text in which no command takes effect keeps its words, with single spaces
/// between them; only the first word may get a capital letter.
pub proof fn law_plain_text_untouched(
    list: Seq<Said>,
    extra: Map<Seq<char>, Seq<char>>,
    cap: bool,
    prefix: Seq<char>,
)
    requires
        forall|k: int| 0 <= k < list.len() ==> #[trigger] command(list, k, extra, prefix) is None,
        forall|k: int|
            0 <= k < list.len() ==> (#[trigger] list[k]).word.len() > 0 && (cap
                ==> list[k].capital.len() > 0),
    ensures
        composed(list, 0, extra, cap, prefix, blank()).text == plain(
            list,
            list.len() as int,
            cap,
        ),
{
    lemma_plain(list, 0, extra, cap, prefix, blank());
}

/// With a prefix word that is not said, no command takes effect, whatever the
/// words are.
pub proof fn law_prefix_gates_commands(
    list: Seq<Said>,
    extra: Map<Seq<char>, Seq<char>>,
    prefix: Seq<char>,
    i: int,
)
    requires
        prefix.len() > 0,
        0 <= i < list.len(),
        list[i].one != prefix,
    ensures
        command(list, i, extra, prefix) is None,
{
}

/// A prefix word with no command behind it is an ordinary word.
pub proof fn law_prefix_alone_is_a_word(
    list: Seq<Said>,
    extra: Map<Seq<char>, Seq<char>>,
    prefix: Seq<char>,
    i: int,
)
    requires
        prefix.len() > 0,
        0 <= i < list.len(),
        command_at(list, i + 1, extra) is None,
    ensures
        command(list, i, extra, prefix) is None,
{
}

} // verus!
