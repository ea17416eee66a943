//! Text as sequences of characters: words, trimming, splitting, joining and
//! replacing, with the two case mappings that only the Unicode tables decide.

use vstd::prelude::*;

verus! {

// ── what the standard library does ───────────────────────────────────────
/// `String::push` appends one character to the end of the string.
pub assume_specification[ String::push ](s: &mut String, c: char)
    ensures
        final(s)@ == old(s)@.push(c),
;

/// The lowercase form of a text, as `str::to_lowercase` gives it.
pub uninterp spec fn lowercase(s: Seq<char>) -> Seq<char>;

/// The uppercase mapping of one character, as `char::to_uppercase` yields it.
pub uninterp spec fn uppercase_char(c: char) -> Seq<char>;

/// Lowercase of one ASCII character.
pub open spec fn ascii_lower(c: char) -> char {
    if 'A' <= c <= 'Z' {
        (c as u32 + 32) as char
    } else {
        c
    }
}

/// A text with `A`–`Z` in lower case.
pub open spec fn lowered(s: Seq<char>) -> Seq<char> {
    s.map_values(|c: char| ascii_lower(c))
}

/// All characters are ASCII.
pub open spec fn all_ascii(s: Seq<char>) -> bool {
    forall|i: int| 0 <= i < s.len() ==> (#[trigger] s[i] as u32) < 128
}

/// Calls `str::to_lowercase`. The result is named `lowercase`; for a text of
/// ASCII characters it is the text with `A`–`Z` mapped to `a`–`z`.
#[verifier::external_body]
pub(crate) fn to_lowercase(s: &str) -> (r: String)
    ensures
        r@ == lowercase(s@),
        all_ascii(s@) ==> r@ == lowered(s@),
{
    s.to_lowercase()
}

/// Calls `char::to_uppercase` and collects what it yields: one character or
/// more, named `uppercase_char`.
#[verifier::external_body]
pub(crate) fn to_uppercase(c: char) -> (r: String)
    ensures
        r@ == uppercase_char(c),
        r@.len() >= 1,
{
    c.to_uppercase().collect()
}

// ── characters and strings ────────────────────────────────────────────────
/// The characters of a string.
pub fn chars_of(s: &str) -> (r: Vec<char>)
    ensures
        r@ == s@,
{
    let mut r: Vec<char> = Vec::new();
    for c in it: s.chars()
        invariant
            it.seq() == s@,
            r@ == s@.take(it.index() as int),
    {
        r.push(c);
        assert(s@.take(it.index() + 1) == s@.take(it.index() as int).push(c));
    }
    assert(s@.take(s@.len() as int) == s@);
    r
}

/// The characters `a..b` of a list, as a string.
pub fn string_of(v: &Vec<char>, a: usize, b: usize) -> (r: String)
    requires
        a <= b <= v@.len(),
    ensures
        r@ == v@.subrange(a as int, b as int),
{
    let mut r = String::new();
    let mut i: usize = a;
    while i < b
        invariant
            a <= i <= b <= v@.len(),
            r@ == v@.subrange(a as int, i as int),
        decreases b - i,
    {
        r.push(v[i]);
        assert(v@.subrange(a as int, i + 1) == v@.subrange(a as int, i as int).push(v@[i as int]));
        i += 1;
    }
    r
}

/// Two texts are the same.
pub fn same(a: &str, b: &str) -> (r: bool)
    ensures
        r == (a@ == b@),
{
    a.to_owned() == b.to_owned()
}

/// The texts of a list of strings.
pub open spec fn texts(v: Seq<String>) -> Seq<Seq<char>> {
    v.map_values(|s: String| s@)
}

/// The text of a string, if there is one.
pub open spec fn opt_text(o: Option<String>) -> Option<Seq<char>> {
    match o {
        Some(s) => Some(s@),
        None => None,
    }
}

pub proof fn lemma_texts_push(v: Seq<String>, s: String)
    ensures
        texts(v.push(s)) == texts(v).push(s@),
{
    assert(texts(v.push(s)) =~= texts(v).push(s@));
}

/// A copy of a list of strings.
pub fn copy_list(v: &Vec<String>) -> (r: Vec<String>)
    ensures
        texts(r@) == texts(v@),
{
    let mut r: Vec<String> = Vec::new();
    let mut i: usize = 0;
    while i < v.len()
        invariant
            i <= v@.len(),
            texts(r@) == texts(v@).take(i as int),
        decreases v@.len() - i,
    {
        proof {
            assert(texts(v@).take(i + 1) == texts(v@).take(i as int).push(v@[i as int]@));
            lemma_texts_push(r@, v@[i as int]);
        }
        r.push(v[i].clone());
        i += 1;
    }
    assert(texts(v@).take(v@.len() as int) == texts(v@));
    r
}

/// Two lists hold the same strings in the same order.
pub fn same_list(a: &Vec<String>, b: &Vec<String>) -> (r: bool)
    ensures
        r == (texts(a@) == texts(b@)),
{
    if a.len() != b.len() {
        assert(texts(a@).len() != texts(b@).len());
        return false;
    }
    let mut i: usize = 0;
    while i < a.len()
        invariant
            i <= a@.len() == b@.len(),
            forall|k: int| 0 <= k < i ==> (#[trigger] a@[k])@ == b@[k]@,
        decreases a@.len() - i,
    {
        if !same(&a[i], &b[i]) {
            assert(texts(a@)[i as int] != texts(b@)[i as int]);
            return false;
        }
        i += 1;
    }
    assert(texts(a@) =~= texts(b@));
    true
}

// ── white space ───────────────────────────────────────────────────────────
/// The characters with the Unicode property `White_Space`.
pub open spec fn is_space(c: char) -> bool {
    let u = c as u32;
    ||| 0x9 <= u <= 0xD
    ||| u == 0x20
    ||| u == 0x85
    ||| u == 0xA0
    ||| u == 0x1680
    ||| 0x2000 <= u <= 0x200A
    ||| u == 0x2028
    ||| u == 0x2029
    ||| u == 0x202F
    ||| u == 0x205F
    ||| u == 0x3000
}

/// Is the character white space.
pub fn is_whitespace(c: char) -> (r: bool)
    ensures
        r == is_space(c),
{
    let u: u32 = c as u32;
    (0x9 <= u && u <= 0xD) || u == 0x20 || u == 0x85 || u == 0xA0 || u == 0x1680 || (0x2000 <= u
        && u <= 0x200A) || u == 0x2028 || u == 0x2029 || u == 0x202F || u == 0x205F || u == 0x3000
}

/// How many characters of `s` stand before its first white space.
pub open spec fn word_len(s: Seq<char>) -> nat
    decreases s.len(),
{
    if s.len() == 0 || is_space(s[0]) {
        0
    } else {
        1 + word_len(s.skip(1))
    }
}

pub proof fn lemma_word_len(s: Seq<char>)
    ensures
        word_len(s) <= s.len(),
        forall|i: int| 0 <= i < word_len(s) ==> !is_space(#[trigger] s[i]),
        word_len(s) < s.len() ==> is_space(s[word_len(s) as int]),
    decreases s.len(),
{
    if s.len() > 0 && !is_space(s[0]) {
        let t = s.skip(1);
        lemma_word_len(t);
        assert forall|i: int| 0 <= i < word_len(s) implies !is_space(#[trigger] s[i]) by {
            if i > 0 {
                assert(t[i - 1] == s[i]);
            }
        }
        if word_len(s) < s.len() {
            assert(t[word_len(t) as int] == s[word_len(s) as int]);
        }
    }
}

/// The words of a text: its maximal runs of characters that are not white
/// space, in order.
pub open spec fn words(s: Seq<char>) -> Seq<Seq<char>>
    decreases s.len(),
{
    proof {
        lemma_word_len(s);
    }
    if s.len() == 0 {
        Seq::empty()
    } else if is_space(s[0]) {
        words(s.skip(1))
    } else {
        seq![s.take(word_len(s) as int)] + words(s.skip(word_len(s) as int))
    }
}

/// The words of a text.
pub fn split_whitespace(s: &str) -> (r: Vec<String>)
    ensures
        texts(r@) == words(s@),
{
    let v = chars_of(s);
    let n: usize = v.len();
    let mut out: Vec<String> = Vec::new();
    let mut i: usize = 0;
    assert(v@.skip(0) == v@);
    assert(texts(out@) + words(v@) == words(v@));
    while i < n
        invariant
            i <= n == v@.len(),
            texts(out@) + words(v@.skip(i as int)) == words(v@),
        decreases n - i,
    {
        let ghost rest = v@.skip(i as int);
        assert(rest[0] == v@[i as int]);
        if is_whitespace(v[i]) {
            i += 1;
            assert(rest.skip(1) == v@.skip(i as int));
        } else {
            let mut j: usize = i;
            while j < n && !is_whitespace(v[j])
                invariant
                    i <= j <= n == v@.len(),
                    word_len(v@.skip(i as int)) == (j - i) + word_len(v@.skip(j as int)),
                decreases n - j,
            {
                assert(v@.skip(j as int).skip(1) == v@.skip(j + 1));
                j += 1;
            }
            assert(word_len(v@.skip(j as int)) == 0);
            let w = string_of(&v, i, j);
            proof {
                lemma_word_len(rest);
                assert(w@ == rest.take(word_len(rest) as int));
                assert(rest.skip(word_len(rest) as int) == v@.skip(j as int));
                lemma_texts_push(out@, w);
                assert(texts(out@).push(w@) + words(v@.skip(j as int)) == texts(out@) + (seq![w@]
                    + words(v@.skip(j as int))));
            }
            out.push(w);
            i = j;
        }
    }
    assert(words(v@.skip(n as int)) == Seq::<Seq<char>>::empty());
    assert(texts(out@) + Seq::<Seq<char>>::empty() == texts(out@));
    out
}

/// A text without its leading white space.
pub open spec fn trim_start(s: Seq<char>) -> Seq<char>
    decreases s.len(),
{
    if s.len() > 0 && is_space(s[0]) {
        trim_start(s.skip(1))
    } else {
        s
    }
}

/// A text without its trailing white space.
pub open spec fn trim_end(s: Seq<char>) -> Seq<char>
    decreases s.len(),
{
    if s.len() > 0 && is_space(s.last()) {
        trim_end(s.drop_last())
    } else {
        s
    }
}

/// A text without leading and trailing white space.
pub open spec fn trimmed(s: Seq<char>) -> Seq<char> {
    trim_end(trim_start(s))
}

/// A text without leading and trailing white space.
pub fn trim(s: &str) -> (r: String)
    ensures
        r@ == trimmed(s@),
{
    let v = chars_of(s);
    let n: usize = v.len();
    let mut a: usize = 0;
    assert(v@.skip(0) == v@);
    while a < n && is_whitespace(v[a])
        invariant
            a <= n == v@.len(),
            trim_start(v@) == trim_start(v@.skip(a as int)),
        decreases n - a,
    {
        assert(v@.skip(a as int).skip(1) == v@.skip(a + 1));
        a += 1;
    }
    assert(trim_start(v@) == v@.skip(a as int));
    let mut b: usize = n;
    assert(v@.subrange(a as int, n as int) == v@.skip(a as int));
    while a < b && is_whitespace(v[b - 1])
        invariant
            a <= b <= n == v@.len(),
            trim_end(v@.skip(a as int)) == trim_end(v@.subrange(a as int, b as int)),
        decreases b,
    {
        assert(v@.subrange(a as int, b as int).drop_last() == v@.subrange(a as int, b - 1));
        b -= 1;
    }
    string_of(&v, a, b)
}

proof fn lemma_trim_start_lowered(s: Seq<char>)
    ensures
        trim_start(lowered(s)) == lowered(trim_start(s)),
    decreases s.len(),
{
    if s.len() > 0 && is_space(s[0]) {
        assert(lowered(s).skip(1) =~= lowered(s.skip(1)));
        lemma_trim_start_lowered(s.skip(1));
    }
}

proof fn lemma_trim_end_lowered(s: Seq<char>)
    ensures
        trim_end(lowered(s)) == lowered(trim_end(s)),
    decreases s.len(),
{
    if s.len() > 0 && is_space(s.last()) {
        assert(lowered(s).drop_last() =~= lowered(s.drop_last()));
        lemma_trim_end_lowered(s.drop_last());
    }
}

pub proof fn lemma_trimmed_lowered(s: Seq<char>)
    ensures
        trimmed(lowered(s)) == lowered(trimmed(s)),
{
    lemma_trim_start_lowered(s);
    lemma_trim_end_lowered(trim_start(s));
}

pub proof fn lemma_trimmed_ascii(s: Seq<char>)
    requires
        all_ascii(s),
    ensures
        all_ascii(trimmed(s)),
{
    lemma_trim_start_ascii(s);
    lemma_trim_end_ascii(trim_start(s));
}

proof fn lemma_trim_start_ascii(s: Seq<char>)
    requires
        all_ascii(s),
    ensures
        all_ascii(trim_start(s)),
    decreases s.len(),
{
    if s.len() > 0 && is_space(s[0]) {
        lemma_trim_start_ascii(s.skip(1));
    }
}

proof fn lemma_trim_end_ascii(s: Seq<char>)
    requires
        all_ascii(s),
    ensures
        all_ascii(trim_end(s)),
    decreases s.len(),
{
    if s.len() > 0 && is_space(s.last()) {
        lemma_trim_end_ascii(s.drop_last());
    }
}

proof fn lemma_trim_end_start(s: Seq<char>)
    requires
        s.len() > 0 ==> !is_space(s[0]),
    ensures
        trim_start(trim_end(s)) == trim_end(s),
        trim_end(trim_end(s)) == trim_end(s),
    decreases s.len(),
{
    if s.len() > 0 && is_space(s.last()) {
        assert(s.drop_last().len() > 0 ==> s.drop_last()[0] == s[0]);
        lemma_trim_end_start(s.drop_last());
    }
}

proof fn lemma_trim_start_first(s: Seq<char>)
    ensures
        trim_start(s).len() > 0 ==> !is_space(trim_start(s)[0]),
    decreases s.len(),
{
    if s.len() > 0 && is_space(s[0]) {
        lemma_trim_start_first(s.skip(1));
    }
}

/// Trimming a second time changes nothing.
pub proof fn lemma_trimmed_twice(s: Seq<char>)
    ensures
        trimmed(trimmed(s)) == trimmed(s),
{
    lemma_trim_start_first(s);
    lemma_trim_end_start(trim_start(s));
}

// ── splitting and joining ─────────────────────────────────────────────────
/// How many characters of `s` stand before the first that is in `seps`.
pub open spec fn part_len(s: Seq<char>, seps: Seq<char>) -> nat
    decreases s.len(),
{
    if s.len() == 0 || seps.contains(s[0]) {
        0
    } else {
        1 + part_len(s.skip(1), seps)
    }
}

pub proof fn lemma_part_len(s: Seq<char>, seps: Seq<char>)
    ensures
        part_len(s, seps) <= s.len(),
        forall|i: int| 0 <= i < part_len(s, seps) ==> !seps.contains(#[trigger] s[i]),
        part_len(s, seps) < s.len() ==> seps.contains(s[part_len(s, seps) as int]),
    decreases s.len(),
{
    if s.len() > 0 && !seps.contains(s[0]) {
        let t = s.skip(1);
        lemma_part_len(t, seps);
        assert forall|i: int| 0 <= i < part_len(s, seps) implies !seps.contains(#[trigger] s[i]) by {
            if i > 0 {
                assert(t[i - 1] == s[i]);
            }
        }
        if part_len(s, seps) < s.len() {
            assert(t[part_len(t, seps) as int] == s[part_len(s, seps) as int]);
        }
    }
}

/// The parts of a text between the characters in `seps`: one more part than
/// there are separators, empty parts included.
pub open spec fn parts(s: Seq<char>, seps: Seq<char>) -> Seq<Seq<char>>
    decreases s.len(),
{
    proof {
        lemma_part_len(s, seps);
    }
    if part_len(s, seps) >= s.len() {
        seq![s]
    } else {
        seq![s.take(part_len(s, seps) as int)] + parts(s.skip(part_len(s, seps) as int + 1), seps)
    }
}

/// Is the character one of the list.
pub fn one_of(c: char, list: &[char]) -> (r: bool)
    ensures
        r == list@.contains(c),
{
    let mut i: usize = 0;
    while i < list.len()
        invariant
            i <= list@.len(),
            forall|k: int| 0 <= k < i ==> list@[k] != c,
        decreases list@.len() - i,
    {
        if list[i] == c {
            return true;
        }
        i += 1;
    }
    false
}

/// The parts of a text between the separators.
pub fn split(s: &str, seps: &[char]) -> (r: Vec<String>)
    ensures
        texts(r@) == parts(s@, seps@),
        r@.len() >= 1,
{
    let v = chars_of(s);
    let n: usize = v.len();
    let mut out: Vec<String> = Vec::new();
    let mut i: usize = 0;
    assert(v@.skip(0) == v@);
    assert(texts(out@) + parts(v@, seps@) == parts(v@, seps@));
    loop
        invariant
            v@ == s@,
            i <= n == v@.len(),
            texts(out@) + parts(v@.skip(i as int), seps@) == parts(v@, seps@),
        decreases n - i,
    {
        let ghost before = texts(out@);
        let ghost rest = v@.skip(i as int);
        let mut j: usize = i;
        while j < n && !one_of(v[j], seps)
            invariant
                i <= j <= n == v@.len(),
                part_len(v@.skip(i as int), seps@) == (j - i) + part_len(v@.skip(j as int), seps@),
            decreases n - j,
        {
            assert(v@.skip(j as int).skip(1) == v@.skip(j + 1));
            j += 1;
        }
        assert(part_len(v@.skip(j as int), seps@) == 0);
        let w = string_of(&v, i, j);
        proof {
            lemma_part_len(rest, seps@);
            lemma_texts_push(out@, w);
        }
        out.push(w);
        if j == n {
            proof {
                assert(w@ == rest);
                assert(before + seq![rest] == before.push(w@));
                assert(texts(out@).len() == out@.len());
            }
            return out;
        }
        proof {
            assert(w@ == rest.take(part_len(rest, seps@) as int));
            assert(rest.skip(part_len(rest, seps@) as int + 1) == v@.skip(j + 1));
            assert(before.push(w@) + parts(v@.skip(j + 1), seps@) == before + (seq![w@] + parts(
                v@.skip(j + 1),
                seps@,
            )));
        }
        i = j + 1;
    }
}

/// The texts of `list`, one after another, with `sep` between neighbours.
pub open spec fn joined(list: Seq<Seq<char>>, sep: Seq<char>) -> Seq<char>
    decreases list.len(),
{
    if list.len() == 0 {
        Seq::empty()
    } else if list.len() == 1 {
        list[0]
    } else {
        joined(list.drop_last(), sep) + sep + list.last()
    }
}

/// Joins the strings `a..b` of a list with `sep` between neighbours.
pub fn join_range(list: &Vec<String>, a: usize, b: usize, sep: &str) -> (r: String)
    requires
        a <= b <= list@.len(),
    ensures
        r@ == joined(texts(list@).subrange(a as int, b as int), sep@),
{
    let mut r = String::new();
    let mut i: usize = a;
    assert(texts(list@).subrange(a as int, a as int) =~= Seq::<Seq<char>>::empty());
    while i < b
        invariant
            a <= i <= b <= list@.len(),
            r@ == joined(texts(list@).subrange(a as int, i as int), sep@),
        decreases b - i,
    {
        if i > a {
            r.append(sep);
        }
        r.append(list[i].as_str());
        proof {
            let now = texts(list@).subrange(a as int, i + 1);
            assert(now.drop_last() == texts(list@).subrange(a as int, i as int));
            assert(now.last() == list@[i as int]@);
            if i == a {
                assert(now[0] == list@[i as int]@);
                assert(r@ =~= list@[i as int]@);
            }
        }
        i += 1;
    }
    r
}

/// Joins a list of strings with `sep` between neighbours.
pub fn join(list: &Vec<String>, sep: &str) -> (r: String)
    ensures
        r@ == joined(texts(list@), sep@),
{
    assert(texts(list@).subrange(0, list@.len() as int) =~= texts(list@));
    join_range(list, 0, list.len(), sep)
}

// ── searching and replacing ───────────────────────────────────────────────
/// `pat` stands in `s` at position `i`.
pub open spec fn occurs_at(s: Seq<char>, pat: Seq<char>, i: int) -> bool {
    &&& 0 <= i
    &&& i + pat.len() <= s.len()
    &&& s.subrange(i, i + pat.len()) == pat
}

/// `pat` stands somewhere in `s`.
pub open spec fn has_part(s: Seq<char>, pat: Seq<char>) -> bool {
    exists|i: int| occurs_at(s, pat, i)
}

/// Does `pat` stand in `s` at position `i`.
pub fn stands_at(s: &Vec<char>, pat: &Vec<char>, i: usize) -> (r: bool)
    requires
        i <= s@.len(),
    ensures
        r == occurs_at(s@, pat@, i as int),
{
    if pat.len() > s.len() - i {
        return false;
    }
    let mut k: usize = 0;
    while k < pat.len()
        invariant
            k <= pat@.len(),
            i + pat@.len() <= s@.len() <= usize::MAX,
            forall|x: int| 0 <= x < k ==> s@[i + x] == #[trigger] pat@[x],
        decreases pat@.len() - k,
    {
        if s[i + k] != pat[k] {
            assert(s@.subrange(i as int, i + pat@.len())[k as int] != pat@[k as int]);
            return false;
        }
        k += 1;
    }
    assert(s@.subrange(i as int, i + pat@.len()) =~= pat@);
    true
}

/// Does `pat` stand anywhere in `s`.
pub fn contains(s: &str, pat: &str) -> (r: bool)
    ensures
        r == has_part(s@, pat@),
{
    let v = chars_of(s);
    let p = chars_of(pat);
    let mut i: usize = 0;
    loop
        invariant
            v@ == s@,
            p@ == pat@,
            i <= v@.len(),
            forall|k: int| 0 <= k < i ==> !occurs_at(s@, pat@, k),
        decreases v@.len() - i,
    {
        if stands_at(&v, &p, i) {
            return true;
        }
        if i == v.len() {
            return false;
        }
        i += 1;
    }
}

/// Does `s` end with `pat`.
pub fn ends_with(s: &str, pat: &str) -> (r: bool)
    ensures
        r == (pat@.len() <= s@.len() && occurs_at(s@, pat@, s@.len() - pat@.len())),
{
    let v = chars_of(s);
    let p = chars_of(pat);
    if p.len() > v.len() {
        return false;
    }
    stands_at(&v, &p, v.len() - p.len())
}

/// `s` with `with` put before every character and at the end.
pub open spec fn spread(s: Seq<char>, with: Seq<char>) -> Seq<char>
    decreases s.len(),
{
    if s.len() == 0 {
        with
    } else {
        spread(s.drop_last(), with) + seq![s.last()] + with
    }
}

/// `s` with every occurrence of `pat` replaced, left to right and without
/// overlaps. An empty `pat` occurs around every character.
pub open spec fn replaced(s: Seq<char>, pat: Seq<char>, with: Seq<char>) -> Seq<char>
    decreases s.len(),
{
    if pat.len() == 0 {
        spread(s, with)
    } else if s.len() < pat.len() {
        s
    } else if s.take(pat.len() as int) == pat {
        with + replaced(s.skip(pat.len() as int), pat, with)
    } else {
        seq![s[0]] + replaced(s.skip(1), pat, with)
    }
}

/// Replaces every occurrence of `pat` in `s`.
pub fn replace(s: &str, pat: &str, with: &str) -> (r: String)
    ensures
        r@ == replaced(s@, pat@, with@),
{
    let v = chars_of(s);
    let p = chars_of(pat);
    let n: usize = v.len();
    let mut out = String::new();
    let mut i: usize = 0;
    if p.len() == 0 {
        out.append(with);
        assert(v@.take(0) =~= Seq::<char>::empty());
        assert(out@ =~= with@);
        while i < n
            invariant
                i <= n == v@.len(),
                out@ == spread(v@.take(i as int), with@),
            decreases n - i,
        {
            out.push(v[i]);
            out.append(with);
            proof {
                let now = v@.take(i + 1);
                assert(now.drop_last() == v@.take(i as int));
                assert(now.last() == v@[i as int]);
                assert(out@ =~= spread(now.drop_last(), with@) + seq![now.last()] + with@);
            }
            i += 1;
        }
        assert(v@.take(n as int) == v@);
        return out;
    }
    assert(v@.skip(0) == v@);
    assert(out@ + replaced(v@, p@, with@) =~= replaced(v@, p@, with@));
    while i < n
        invariant
            i <= n == v@.len(),
            p@.len() > 0,
            out@ + replaced(v@.skip(i as int), p@, with@) == replaced(v@, p@, with@),
        decreases n - i,
    {
        let ghost rest = v@.skip(i as int);
        let ghost before = out@;
        if stands_at(&v, &p, i) {
            out.append(with);
            proof {
                assert(rest.take(p@.len() as int) =~= v@.subrange(i as int, i + p@.len()));
                assert(rest.skip(p@.len() as int) =~= v@.skip(i + p@.len()));
                let tail = replaced(v@.skip(i + p@.len()), p@, with@);
                assert(replaced(rest, p@, with@) == with@ + tail);
                assert(before + (with@ + tail) =~= out@ + tail);
            }
            i += p.len();
        } else {
            out.push(v[i]);
            proof {
                assert(rest[0] == v@[i as int]);
                assert(rest.skip(1) =~= v@.skip(i + 1));
                if rest.len() >= p@.len() {
                    assert(rest.take(p@.len() as int) =~= v@.subrange(i as int, i + p@.len()));
                    let tail = replaced(v@.skip(i + 1), p@, with@);
                    assert(before + (seq![rest[0]] + tail) =~= out@ + tail);
                } else {
                    assert(replaced(v@.skip(i + 1), p@, with@) == v@.skip(i + 1));
                    assert(before + rest =~= out@ + v@.skip(i + 1));
                }
            }
            i += 1;
        }
    }
    assert(v@.skip(n as int) =~= Seq::<char>::empty());
    assert(out@ + Seq::<char>::empty() =~= out@);
    out
}

/// A text without the slashes at its end.
pub open spec fn without_slashes(s: Seq<char>) -> Seq<char>
    decreases s.len(),
{
    if s.len() > 0 && s.last() == '/' {
        without_slashes(s.drop_last())
    } else {
        s
    }
}

/// How long a text is without the slashes at its end.
pub fn len_without_slashes(v: &Vec<char>) -> (n: usize)
    ensures
        n <= v@.len(),
        v@.take(n as int) == without_slashes(v@),
{
    let mut n: usize = v.len();
    assert(v@.take(n as int) =~= v@);
    while n > 0 && v[n - 1] == '/'
        invariant
            n <= v@.len(),
            without_slashes(v@.take(n as int)) == without_slashes(v@),
        decreases n,
    {
        assert(v@.take(n as int).drop_last() =~= v@.take(n - 1));
        n -= 1;
    }
    n
}

// ── numbers ───────────────────────────────────────────────────────────────
/// The character is one of `0`–`9`.
pub open spec fn is_digit(c: char) -> bool {
    '0' <= c <= '9'
}

/// The number that a row of decimal digits stands for.
pub open spec fn digits_value(s: Seq<char>) -> nat
    decreases s.len(),
{
    if s.len() == 0 {
        0
    } else {
        10 * digits_value(s.drop_last()) + (s.last() as u32 - '0' as u32) as nat
    }
}

/// All characters are decimal digits.
pub open spec fn all_digits(s: Seq<char>) -> bool {
    forall|i: int| 0 <= i < s.len() ==> is_digit(#[trigger] s[i])
}

/// The number that a text stands for: an optional `+`, then decimal digits
/// only, at least one, with a value that fits in 32 bits.
pub open spec fn number_of(s: Seq<char>) -> Option<u32> {
    let d = if s.len() > 0 && s[0] == '+' {
        s.skip(1)
    } else {
        s
    };
    if d.len() > 0 && all_digits(d) && digits_value(d) <= u32::MAX {
        Some(digits_value(d) as u32)
    } else {
        None
    }
}

pub proof fn lemma_digits_grow(s: Seq<char>, i: int)
    requires
        0 <= i <= s.len(),
        all_digits(s),
    ensures
        digits_value(s.take(i)) <= digits_value(s),
    decreases s.len(),
{
    if i < s.len() {
        lemma_digits_grow(s.drop_last(), i);
        assert(s.drop_last().take(i) == s.take(i));
    } else {
        assert(s.take(i) == s);
    }
}

/// Is the character one of `0`–`9`.
pub fn is_ascii_digit(c: char) -> (r: bool)
    ensures
        r == is_digit(c),
{
    let u: u32 = c as u32;
    0x30 <= u && u <= 0x39
}

/// Reads a number.
#[verifier::loop_isolation(false)]
pub fn parse_number(s: &str) -> (r: Option<u32>)
    ensures
        r == number_of(s@),
{
    let v = chars_of(s);
    let n: usize = v.len();
    let start: usize = if n > 0 && v[0] == '+' {
        1
    } else {
        0
    };
    let ghost d = if s@.len() > 0 && s@[0] == '+' {
        s@.skip(1)
    } else {
        s@
    };
    assert(d =~= v@.skip(start as int));
    if start == n {
        return None;
    }
    let mut k: usize = start;
    while k < n
        invariant
            start <= k <= n == v@.len(),
            d == v@.skip(start as int),
            forall|x: int| 0 <= x < k - start ==> is_digit(#[trigger] d[x]),
        decreases n - k,
    {
        if !is_ascii_digit(v[k]) {
            assert(d[k - start] == v@[k as int]);
            return None;
        }
        k += 1;
    }
    let mut value: u32 = 0;
    let mut i: usize = start;
    assert(d.take(0) =~= Seq::<char>::empty());
    while i < n
        invariant
            start <= i <= n == v@.len(),
            d == v@.skip(start as int),
            all_digits(d),
            value == digits_value(d.take(i - start)),
        decreases n - i,
    {
        let ghost now = d.take(i - start + 1);
        assert(is_digit(d[i - start]));
        let c: u32 = v[i] as u32 - '0' as u32;
        proof {
            assert(now.drop_last() =~= d.take(i - start));
            assert(now.last() == v@[i as int]);
            lemma_digits_grow(d, i - start + 1);
        }
        if value > 429_496_729 || (value == 429_496_729 && c > 5) {
            return None;
        }
        value = value * 10 + c;
        i += 1;
    }
    assert(d.take(n - start) =~= d);
    Some(value)
}

/// The character for a number below ten.
pub open spec fn digit(d: int) -> char {
    (0x30 + d) as char
}

/// A number in decimal digits.
pub open spec fn decimal(n: nat) -> Seq<char>
    decreases n,
{
    if n < 10 {
        seq![digit(n as int)]
    } else {
        decimal(n / 10).push(digit((n % 10) as int))
    }
}

fn digit_char(d: u64) -> (r: char)
    requires
        d < 10,
    ensures
        r == digit(d as int),
{
    match d {
        0 => '0',
        1 => '1',
        2 => '2',
        3 => '3',
        4 => '4',
        5 => '5',
        6 => '6',
        7 => '7',
        8 => '8',
        _ => '9',
    }
}

/// A number in decimal digits.
pub fn number_text(n: u64) -> (r: String)
    ensures
        r@ == decimal(n as nat),
    decreases n,
{
    if n < 10 {
        let mut r = String::new();
        r.push(digit_char(n));
        assert(r@ =~= decimal(n as nat));
        r
    } else {
        let mut r = number_text(n / 10);
        r.push(digit_char(n % 10));
        r
    }
}

/// A number written in decimal digits reads as that number.
pub proof fn law_decimal(n: nat)
    ensures
        decimal(n).len() > 0,
        all_digits(decimal(n)),
        digits_value(decimal(n)) == n,
    decreases n,
{
    let s = decimal(n);
    if n < 10 {
        assert(s.drop_last() =~= Seq::<char>::empty());
        assert(digits_value(s.drop_last()) == 0);
        assert(is_digit(s[0]));
    } else {
        law_decimal(n / 10);
        assert(s.drop_last() =~= decimal(n / 10));
        assert forall|i: int| 0 <= i < s.len() implies is_digit(#[trigger] s[i]) by {
            if i < s.len() - 1 {
                assert(is_digit(decimal(n / 10)[i]));
            }
        }
    }
}

} // verus!
