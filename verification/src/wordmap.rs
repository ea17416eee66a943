//! A map from words to symbols that lists its words in ascending order.

use crate::text::{chars_of, same, texts, lemma_texts_push};
use vstd::prelude::*;

verus! {

/// `a` comes before `b` in the order of their characters' code points.
pub open spec fn precedes(a: Seq<char>, b: Seq<char>) -> bool
    decreases a.len(),
{
    if b.len() == 0 {
        false
    } else if a.len() == 0 {
        true
    } else if a[0] != b[0] {
        a[0] < b[0]
    } else {
        precedes(a.skip(1), b.skip(1))
    }
}

proof fn lemma_precedes_irreflexive(a: Seq<char>)
    ensures
        !precedes(a, a),
    decreases a.len(),
{
    if a.len() > 0 {
        lemma_precedes_irreflexive(a.skip(1));
    }
}

pub proof fn lemma_precedes_total(a: Seq<char>, b: Seq<char>)
    ensures
        !(precedes(a, b) && precedes(b, a)),
        !precedes(a, a),
        a != b ==> precedes(a, b) || precedes(b, a),
    decreases a.len() + b.len(),
{
    lemma_precedes_irreflexive(a);
    if a.len() > 0 && b.len() > 0 && a[0] == b[0] {
        lemma_precedes_total(a.skip(1), b.skip(1));
        if a.skip(1) == b.skip(1) {
            assert(a =~= seq![a[0]] + a.skip(1));
            assert(b =~= seq![b[0]] + b.skip(1));
        }
    } else if a.len() == 0 && b.len() == 0 {
        assert(a =~= b);
    }
}

pub proof fn lemma_precedes_transitive(a: Seq<char>, b: Seq<char>, c: Seq<char>)
    requires
        precedes(a, b),
        precedes(b, c),
    ensures
        precedes(a, c),
    decreases a.len(),
{
    if a.len() > 0 && a[0] == b[0] && b[0] == c[0] {
        lemma_precedes_transitive(a.skip(1), b.skip(1), c.skip(1));
    }
}

/// Has `a` the lower code point.
fn lower_code(a: char, b: char) -> (r: bool)
    ensures
        r == (a < b),
{
    (a as u32) < (b as u32)
}

/// Does `a` come before `b`.
pub fn comes_before(a: &str, b: &str) -> (r: bool)
    ensures
        r == precedes(a@, b@),
{
    let av = chars_of(a);
    let bv = chars_of(b);
    let mut i: usize = 0;
    assert(av@.skip(0) =~= av@ && bv@.skip(0) =~= bv@);
    while i < av.len() && i < bv.len()
        invariant
            av@ == a@,
            bv@ == b@,
            i <= av@.len(),
            i <= bv@.len(),
            precedes(a@, b@) == precedes(av@.skip(i as int), bv@.skip(i as int)),
        decreases av@.len() - i,
    {
        assert(av@.skip(i as int).skip(1) =~= av@.skip(i + 1));
        assert(bv@.skip(i as int).skip(1) =~= bv@.skip(i + 1));
        if av[i] != bv[i] {
            assert(av@.skip(i as int)[0] == av@[i as int]);
            assert(bv@.skip(i as int)[0] == bv@[i as int]);
            return lower_code(av[i], bv[i]);
        }
        i += 1;
    }
    i == av.len() && i < bv.len()
}

/// The keys of a list of entries.
pub open spec fn keys_of(e: Seq<(String, String)>) -> Seq<Seq<char>> {
    e.map_values(|p: (String, String)| p.0@)
}

/// Each text comes before the next ones.
pub open spec fn ascending(k: Seq<Seq<char>>) -> bool {
    forall|i: int, j: int| 0 <= i < j < k.len() ==> precedes(#[trigger] k[i], #[trigger] k[j])
}

spec fn position(e: Seq<(String, String)>, k: Seq<char>) -> int {
    choose|i: int| 0 <= i < e.len() && (#[trigger] e[i]).0@ == k
}

spec fn map_of(e: Seq<(String, String)>) -> Map<Seq<char>, Seq<char>> {
    Map::new(|k: Seq<char>| keys_of(e).contains(k), |k: Seq<char>| e[position(e, k)].1@)
}

proof fn lemma_map_at(e: Seq<(String, String)>, i: int)
    requires
        ascending(keys_of(e)),
        0 <= i < e.len(),
    ensures
        map_of(e).dom().contains(e[i].0@),
        map_of(e)[e[i].0@] == e[i].1@,
{
    let k = e[i].0@;
    assert(keys_of(e)[i] == k);
    let p = position(e, k);
    assert(0 <= p < e.len() && e[p].0@ == k);
    assert(keys_of(e)[p] == k);
    lemma_precedes_total(k, k);
    if p < i {
        assert(precedes(keys_of(e)[p], keys_of(e)[i]));
    } else if i < p {
        assert(precedes(keys_of(e)[i], keys_of(e)[p]));
    }
}

/// Words and the symbols they stand for. No word occurs twice.
pub struct WordMap {
    entries: Vec<(String, String)>,
}

impl View for WordMap {
    type V = Map<Seq<char>, Seq<char>>;

    closed spec fn view(&self) -> Map<Seq<char>, Seq<char>> {
        map_of(self.entries@)
    }
}

impl WordMap {
    #[verifier::type_invariant]
    spec fn in_order(self) -> bool {
        ascending(keys_of(self.entries@))
    }

    /// A map without words.
    pub fn new() -> (r: WordMap)
        ensures
            r@ == Map::<Seq<char>, Seq<char>>::empty(),
    {
        let r = WordMap { entries: Vec::new() };
        assert(r@ =~= Map::<Seq<char>, Seq<char>>::empty());
        r
    }

    /// The symbol of a word.
    pub fn get(&self, word: &str) -> (r: Option<String>)
        ensures
            match r {
                Some(s) => self@.dom().contains(word@) && s@ == self@[word@],
                None => !self@.dom().contains(word@),
            },
    {
        proof {
            use_type_invariant(self);
        }
        let mut i: usize = 0;
        while i < self.entries.len()
            invariant
                ascending(keys_of(self.entries@)),
                i <= self.entries@.len(),
                forall|k: int| 0 <= k < i ==> (#[trigger] self.entries@[k]).0@ != word@,
            decreases self.entries@.len() - i,
        {
            if same(&self.entries[i].0, word) {
                proof {
                    lemma_map_at(self.entries@, i as int);
                }
                return Some(self.entries[i].1.clone());
            }
            i += 1;
        }
        proof {
            if keys_of(self.entries@).contains(word@) {
                let k = choose|k: int|
                    0 <= k < keys_of(self.entries@).len() && keys_of(self.entries@)[k] == word@;
                assert(self.entries@[k].0@ == word@);
            }
        }
        None
    }

    /// Gives a word its symbol, in place of the one it had.
    pub fn insert(&mut self, word: String, symbol: String)
        ensures
            final(self)@ == old(self)@.insert(word@, symbol@),
    {
        proof {
            use_type_invariant(&*self);
        }
        let ghost k = word@;
        let mut e: Vec<(String, String)> = Vec::new();
        std::mem::swap(&mut e, &mut self.entries);
        let ghost was = e@;
        let mut at: usize = 0;
        while at < e.len() && comes_before(&e[at].0, &word)
            invariant
                e@ == was,
                at <= e@.len(),
                forall|i: int| 0 <= i < at ==> precedes((#[trigger] e@[i]).0@, word@),
            decreases e@.len() - at,
        {
            at += 1;
        }
        if at < e.len() && same(&e[at].0, &word) {
            let ghost v = symbol@;
            e[at] = (word, symbol);
            proof {
                assert(keys_of(e@) =~= keys_of(was));
                lemma_same_maps(was, e@, k, v, at as int);
            }
        } else {
            let ghost v = symbol@;
            proof {
                let entry = (word, symbol);
                let now = was.insert(at as int, entry);
                lemma_insert_ascending(was, at as int, entry);
                lemma_new_maps(was, now, k, v, at as int);
            }
            e.insert(at, (word, symbol));
        }
        self.entries = e;
    }

    /// The words in ascending order.
    pub fn keys(&self) -> (r: Vec<String>)
        ensures
            ascending(texts(r@)),
            forall|k: Seq<char>| #[trigger] texts(r@).contains(k) <==> self@.dom().contains(k),
    {
        proof {
            use_type_invariant(self);
        }
        let mut r: Vec<String> = Vec::new();
        let mut i: usize = 0;
        while i < self.entries.len()
            invariant
                i <= self.entries@.len(),
                texts(r@) == keys_of(self.entries@).take(i as int),
            decreases self.entries@.len() - i,
        {
            proof {
                assert(keys_of(self.entries@).take(i + 1) =~= keys_of(self.entries@).take(
                    i as int,
                ).push(self.entries@[i as int].0@));
                lemma_texts_push(r@, self.entries@[i as int].0);
            }
            r.push(self.entries[i].0.clone());
            i += 1;
        }
        assert(keys_of(self.entries@).take(i as int) =~= keys_of(self.entries@));
        r
    }

    /// A copy of the map.
    pub fn copy(&self) -> (r: WordMap)
        ensures
            r@ == self@,
    {
        proof {
            use_type_invariant(self);
        }
        let mut e: Vec<(String, String)> = Vec::new();
        let mut i: usize = 0;
        while i < self.entries.len()
            invariant
                i <= self.entries@.len(),
                e@.len() == i,
                forall|k: int|
                    0 <= k < i ==> (#[trigger] e@[k]).0@ == self.entries@[k].0@ && e@[k].1@
                        == self.entries@[k].1@,
            decreases self.entries@.len() - i,
        {
            e.push((self.entries[i].0.clone(), self.entries[i].1.clone()));
            i += 1;
        }
        proof {
            assert(keys_of(e@) =~= keys_of(self.entries@));
            assert forall|k: Seq<char>| #[trigger] map_of(e@).dom().contains(k) implies map_of(
                e@,
            )[k] == map_of(self.entries@)[k] by {
                let i = choose|i: int| 0 <= i < keys_of(e@).len() && keys_of(e@)[i] == k;
                lemma_map_at(e@, i);
                lemma_map_at(self.entries@, i);
            }
            assert(map_of(e@) =~= map_of(self.entries@));
        }
        WordMap { entries: e }
    }
}

proof fn lemma_insert_ascending(was: Seq<(String, String)>, at: int, entry: (String, String))
    requires
        ascending(keys_of(was)),
        0 <= at <= was.len(),
        forall|i: int| 0 <= i < at ==> precedes((#[trigger] was[i]).0@, entry.0@),
        at < was.len() ==> !precedes(was[at].0@, entry.0@) && was[at].0@ != entry.0@,
    ensures
        ascending(keys_of(was.insert(at, entry))),
{
    let now = was.insert(at, entry);
    let kn = keys_of(now);
    let kw = keys_of(was);
    if at < was.len() {
        lemma_precedes_total(was[at].0@, entry.0@);
    }
    assert forall|i: int, j: int| 0 <= i < j < kn.len() implies precedes(
        #[trigger] kn[i],
        #[trigger] kn[j],
    ) by {
        let wi = if i < at { i } else { i - 1 };
        let wj = if j < at { j } else { j - 1 };
        if i != at {
            assert(kn[i] == kw[wi]);
        }
        if j != at {
            assert(kn[j] == kw[wj]);
        }
        if i == at {
            assert(precedes(entry.0@, kw[at]));
            if wj != at {
                assert(precedes(kw[at], kw[wj]));
                lemma_precedes_transitive(entry.0@, kw[at], kw[wj]);
            }
        } else if j == at {
            assert(precedes(was[i].0@, entry.0@));
        } else {
            assert(precedes(kw[wi], kw[wj]));
        }
    }
}

proof fn lemma_new_maps(
    was: Seq<(String, String)>,
    now: Seq<(String, String)>,
    k: Seq<char>,
    v: Seq<char>,
    at: int,
)
    requires
        ascending(keys_of(was)),
        ascending(keys_of(now)),
        0 <= at <= was.len(),
        now.len() == was.len() + 1,
        forall|i: int| 0 <= i < at ==> #[trigger] now[i] == was[i],
        forall|i: int| at <= i < was.len() ==> now[i + 1] == #[trigger] was[i],
        now[at].0@ == k,
        now[at].1@ == v,
    ensures
        map_of(now) == map_of(was).insert(k, v),
{
    let m = map_of(was).insert(k, v);
    assert forall|x: Seq<char>| map_of(now).dom().contains(x) == m.dom().contains(x) by {
        if keys_of(now).contains(x) {
            let i = choose|i: int| 0 <= i < keys_of(now).len() && keys_of(now)[i] == x;
            if i < at {
                assert(keys_of(was)[i] == x);
            } else if i > at {
                assert(now[(i - 1) + 1] == was[i - 1]);
                assert(keys_of(was)[i - 1] == x);
            }
        }
        if keys_of(was).contains(x) {
            let i = choose|i: int| 0 <= i < keys_of(was).len() && keys_of(was)[i] == x;
            if i < at {
                assert(now[i] == was[i]);
                assert(keys_of(now)[i] == x);
            } else {
                assert(now[i + 1] == was[i]);
                assert(keys_of(now)[i + 1] == x);
            }
        }
        assert(keys_of(now)[at] == k);
    }
    assert forall|x: Seq<char>| #[trigger] map_of(now).dom().contains(x) implies map_of(now)[x]
        == m[x] by {
        let i = choose|i: int| 0 <= i < keys_of(now).len() && keys_of(now)[i] == x;
        lemma_map_at(now, i);
        if i < at {
            lemma_map_at(was, i);
        } else if i > at {
            assert(now[(i - 1) + 1] == was[i - 1]);
            lemma_map_at(was, i - 1);
        }
        if i != at && x == k {
            lemma_precedes_total(k, k);
            assert(keys_of(now)[i] == k && keys_of(now)[at] == k);
            if i < at {
                assert(precedes(keys_of(now)[i], keys_of(now)[at]));
            } else {
                assert(precedes(keys_of(now)[at], keys_of(now)[i]));
            }
        }
    }
    assert(map_of(now) =~= m);
}

proof fn lemma_same_maps(
    was: Seq<(String, String)>,
    now: Seq<(String, String)>,
    k: Seq<char>,
    v: Seq<char>,
    at: int,
)
    requires
        ascending(keys_of(was)),
        keys_of(now) == keys_of(was),
        0 <= at < was.len() == now.len(),
        forall|i: int| 0 <= i < was.len() && i != at ==> #[trigger] now[i] == was[i],
        now[at].0@ == k,
        now[at].1@ == v,
    ensures
        map_of(now) == map_of(was).insert(k, v),
{
    let m = map_of(was).insert(k, v);
    assert(keys_of(now)[at] == k);
    assert forall|x: Seq<char>| #[trigger] map_of(now).dom().contains(x) implies map_of(now)[x]
        == m[x] by {
        let i = choose|i: int| 0 <= i < keys_of(now).len() && keys_of(now)[i] == x;
        lemma_map_at(now, i);
        lemma_map_at(was, i);
        if i != at && x == k {
            lemma_precedes_total(k, k);
            if i < at {
                assert(precedes(keys_of(was)[i], keys_of(was)[at]));
            } else {
                assert(precedes(keys_of(was)[at], keys_of(was)[i]));
            }
        }
    }
    assert(map_of(now) =~= m);
}

} // verus!
