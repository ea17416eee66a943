//! Edit distance between two words, for hearing a wake word that the
//! recognizer spelled a little differently.

use crate::text::chars_of;
use vstd::prelude::*;

verus! {

/// The least of three numbers.
pub open spec fn least(a: nat, b: nat, c: nat) -> nat {
    if a <= b && a <= c {
        a
    } else if b <= c {
        b
    } else {
        c
    }
}

/// The Levenshtein distance: the least number of characters that must be
/// inserted, removed or replaced to turn `a` into `b`.
pub open spec fn distance(a: Seq<char>, b: Seq<char>) -> nat
    decreases a.len() + b.len(),
{
    if a.len() == 0 {
        b.len()
    } else if b.len() == 0 {
        a.len()
    } else {
        let cost: nat = if a.last() == b.last() {
            0
        } else {
            1
        };
        least(
            distance(a.drop_last(), b) + 1,
            distance(a, b.drop_last()) + 1,
            distance(a.drop_last(), b.drop_last()) + cost,
        )
    }
}

/// The distance is at least the difference of the lengths and at most the
/// greater length.
pub proof fn law_distance_bounds(a: Seq<char>, b: Seq<char>)
    ensures
        distance(a, b) <= a.len() || distance(a, b) <= b.len(),
        a.len() <= b.len() + distance(a, b),
        b.len() <= a.len() + distance(a, b),
    decreases a.len() + b.len(),
{
    if a.len() > 0 && b.len() > 0 {
        law_distance_bounds(a.drop_last(), b);
        law_distance_bounds(a, b.drop_last());
        law_distance_bounds(a.drop_last(), b.drop_last());
    }
}

/// The distance is the same in both directions.
pub proof fn law_distance_symmetric(a: Seq<char>, b: Seq<char>)
    ensures
        distance(a, b) == distance(b, a),
    decreases a.len() + b.len(),
{
    if a.len() > 0 && b.len() > 0 {
        law_distance_symmetric(a.drop_last(), b);
        law_distance_symmetric(a, b.drop_last());
        law_distance_symmetric(a.drop_last(), b.drop_last());
    }
}

/// Only equal words are at distance zero.
pub proof fn law_distance_zero(a: Seq<char>, b: Seq<char>)
    ensures
        distance(a, b) == 0 <==> a == b,
    decreases a.len() + b.len(),
{
    if a.len() == 0 || b.len() == 0 {
        if distance(a, b) == 0 {
            assert(a =~= b);
        }
    } else {
        law_distance_zero(a.drop_last(), b.drop_last());
        assert(a =~= a.drop_last().push(a.last()));
        assert(b =~= b.drop_last().push(b.last()));
    }
}

/// Going through a third word is never shorter.
pub proof fn law_distance_triangle(a: Seq<char>, b: Seq<char>, c: Seq<char>)
    ensures
        distance(a, c) <= distance(a, b) + distance(b, c),
    decreases a.len() + b.len() + c.len(),
{
    law_distance_bounds(a, b);
    law_distance_bounds(b, c);
    law_distance_bounds(a, c);
    if a.len() > 0 && b.len() > 0 && c.len() > 0 {
        law_distance_triangle(a.drop_last(), b, c);
        law_distance_triangle(a, b, c.drop_last());
        law_distance_triangle(a, b.drop_last(), c);
        law_distance_triangle(a, b.drop_last(), c.drop_last());
        law_distance_triangle(a.drop_last(), b.drop_last(), c);
        law_distance_triangle(a.drop_last(), b.drop_last(), c.drop_last());
    }
}

/// `y` is `x` with one character inserted, removed or replaced.
pub open spec fn one_edit(x: Seq<char>, y: Seq<char>) -> bool {
    ||| exists|i: int, c: char| 0 <= i <= x.len() && y == #[trigger] x.insert(i, c)
    ||| exists|i: int| 0 <= i < x.len() && y == #[trigger] x.remove(i)
    ||| exists|i: int, c: char| 0 <= i < x.len() && y == #[trigger] x.update(i, c)
}

/// Each word of the path is one edit away from the word before it.
pub open spec fn edit_path(path: Seq<Seq<char>>) -> bool {
    &&& path.len() > 0
    &&& forall|k: int| 0 <= k < path.len() - 1 ==> #[trigger] one_edit(path[k], path[k + 1])
}

proof fn lemma_insert(x: Seq<char>, i: int, c: char)
    requires
        0 <= i <= x.len(),
    ensures
        distance(x, x.insert(i, c)) <= 1,
    decreases x.len() - i,
{
    let y = x.insert(i, c);
    law_distance_zero(x, x);
    if i == x.len() {
        assert(y.drop_last() =~= x);
    } else {
        assert(y.drop_last() =~= x.drop_last().insert(i, c));
        lemma_insert(x.drop_last(), i, c);
    }
}

proof fn lemma_update(x: Seq<char>, i: int, c: char)
    requires
        0 <= i < x.len(),
    ensures
        distance(x, x.update(i, c)) <= 1,
    decreases x.len() - i,
{
    let y = x.update(i, c);
    law_distance_zero(x.drop_last(), x.drop_last());
    if i == x.len() - 1 {
        assert(y.drop_last() =~= x.drop_last());
    } else {
        assert(y.drop_last() =~= x.drop_last().update(i, c));
        lemma_update(x.drop_last(), i, c);
    }
}

proof fn lemma_one_edit(x: Seq<char>, y: Seq<char>)
    requires
        one_edit(x, y),
    ensures
        distance(x, y) <= 1,
{
    if exists|i: int, c: char| 0 <= i <= x.len() && y == #[trigger] x.insert(i, c) {
        let (i, c) = choose|i: int, c: char| 0 <= i <= x.len() && y == #[trigger] x.insert(i, c);
        lemma_insert(x, i, c);
    } else if exists|i: int| 0 <= i < x.len() && y == #[trigger] x.remove(i) {
        let i = choose|i: int| 0 <= i < x.len() && y == #[trigger] x.remove(i);
        assert(y.insert(i, x[i]) =~= x);
        lemma_insert(y, i, x[i]);
        law_distance_symmetric(x, y);
    } else {
        let (i, c) = choose|i: int, c: char| 0 <= i < x.len() && y == #[trigger] x.update(i, c);
        lemma_update(x, i, c);
    }
}

/// No way of turning one word into another by single edits is shorter than
/// their distance.
pub proof fn law_distance_is_least(path: Seq<Seq<char>>)
    requires
        edit_path(path),
    ensures
        distance(path[0], path.last()) <= path.len() - 1,
    decreases path.len(),
{
    if path.len() == 1 {
        law_distance_zero(path[0], path[0]);
    } else {
        let front = path.drop_last();
        assert forall|k: int| 0 <= k < front.len() - 1 implies #[trigger] one_edit(
            front[k],
            front[k + 1],
        ) by {
            assert(one_edit(path[k], path[k + 1]));
        }
        law_distance_is_least(front);
        let k = path.len() - 2;
        assert(one_edit(path[k], path[k + 1]));
        lemma_one_edit(path[k], path[k + 1]);
        law_distance_triangle(path[0], front.last(), path.last());
    }
}

proof fn lemma_edit_push(x: Seq<char>, y: Seq<char>, c: char)
    requires
        one_edit(x, y),
    ensures
        one_edit(x.push(c), y.push(c)),
{
    if exists|i: int, d: char| 0 <= i <= x.len() && y == #[trigger] x.insert(i, d) {
        let (i, d) = choose|i: int, d: char| 0 <= i <= x.len() && y == #[trigger] x.insert(i, d);
        assert(y.push(c) =~= x.push(c).insert(i, d));
    } else if exists|i: int| 0 <= i < x.len() && y == #[trigger] x.remove(i) {
        let i = choose|i: int| 0 <= i < x.len() && y == #[trigger] x.remove(i);
        assert(y.push(c) =~= x.push(c).remove(i));
    } else {
        let (i, d) = choose|i: int, d: char| 0 <= i < x.len() && y == #[trigger] x.update(i, d);
        assert(y.push(c) =~= x.push(c).update(i, d));
    }
}

/// There is a way of turning one word into another in as many single edits as
/// their distance says.
pub proof fn law_distance_is_reached(a: Seq<char>, b: Seq<char>) -> (path: Seq<Seq<char>>)
    ensures
        edit_path(path),
        path[0] == a,
        path.last() == b,
        path.len() == distance(a, b) + 1,
    decreases a.len() + b.len(),
{
    if a.len() == 0 {
        let path = Seq::new(b.len() + 1, |k: int| b.take(k));
        assert forall|k: int| 0 <= k < path.len() - 1 implies #[trigger] one_edit(
            path[k],
            path[k + 1],
        ) by {
            assert(path[k + 1] =~= path[k].insert(k, b[k]));
        }
        assert(path[0] =~= a);
        assert(path.last() =~= b);
        path
    } else if b.len() == 0 {
        let path = Seq::new(a.len() + 1, |k: int| a.take(a.len() - k));
        assert forall|k: int| 0 <= k < path.len() - 1 implies #[trigger] one_edit(
            path[k],
            path[k + 1],
        ) by {
            assert(path[k + 1] =~= path[k].remove(path[k].len() - 1));
        }
        assert(path[0] =~= a);
        assert(path.last() =~= b);
        path
    } else if distance(a, b) == distance(a.drop_last(), b) + 1 {
        let rest = law_distance_is_reached(a.drop_last(), b);
        let path = seq![a] + rest;
        assert forall|k: int| 0 <= k < path.len() - 1 implies #[trigger] one_edit(
            path[k],
            path[k + 1],
        ) by {
            if k == 0 {
                assert(path[1] =~= a.remove(a.len() - 1));
            } else {
                let j = k - 1;
                assert(one_edit(rest[j], rest[j + 1]));
            }
        }
        path
    } else if distance(a, b) == distance(a, b.drop_last()) + 1 {
        let rest = law_distance_is_reached(a, b.drop_last());
        let path = rest.push(b);
        assert forall|k: int| 0 <= k < path.len() - 1 implies #[trigger] one_edit(
            path[k],
            path[k + 1],
        ) by {
            if k == rest.len() - 1 {
                assert(b =~= b.drop_last().insert(b.len() - 1, b.last()));
            } else {
                assert(one_edit(rest[k], rest[k + 1]));
            }
        }
        path
    } else {
        let c = a.last();
        let rest = law_distance_is_reached(a.drop_last(), b.drop_last());
        let same = Seq::new(rest.len(), |k: int| rest[k].push(c));
        assert forall|k: int| 0 <= k < same.len() - 1 implies #[trigger] one_edit(
            same[k],
            same[k + 1],
        ) by {
            assert(one_edit(rest[k], rest[k + 1]));
            lemma_edit_push(rest[k], rest[k + 1], c);
        }
        assert(same[0] =~= a);
        if c == b.last() {
            assert(same.last() =~= b);
            same
        } else {
            let path = same.push(b);
            assert forall|k: int| 0 <= k < path.len() - 1 implies #[trigger] one_edit(
                path[k],
                path[k + 1],
            ) by {
                if k == same.len() - 1 {
                    assert(b =~= same[k].update(b.len() - 1, b.last()));
                } else {
                    assert(one_edit(same[k], same[k + 1]));
                }
            }
            path
        }
    }
}

proof fn lemma_cell(a: Seq<char>, b: Seq<char>, i: int, j: int)
    requires
        0 <= i < a.len(),
        0 <= j < b.len(),
    ensures
        distance(a.take(i + 1), b.take(j + 1)) == least(
            distance(a.take(i), b.take(j + 1)) + 1,
            distance(a.take(i + 1), b.take(j)) + 1,
            distance(a.take(i), b.take(j)) + if a[i] == b[j] {
                0nat
            } else {
                1nat
            },
        ),
{
    assert(a.take(i + 1).drop_last() =~= a.take(i));
    assert(b.take(j + 1).drop_last() =~= b.take(j));
}

/// The Levenshtein distance of two words.
pub fn lev(a: &str, b: &str) -> (r: usize)
    ensures
        r == distance(a@, b@),
{
    let av = chars_of(a);
    let bv = chars_of(b);
    let n: usize = av.len();
    let m: usize = bv.len();
    if n == 0 {
        return m;
    }
    if m == 0 {
        return n;
    }
    // `row[j]` is the distance of the first `i` characters of `a` to the first
    // `j + 1` characters of `b`
    let mut row: Vec<usize> = Vec::new();
    let mut j: usize = 0;
    while j < m
        invariant
            j <= m,
            m == bv@.len(),
            row@.len() == j,
            forall|k: int| 0 <= k < j ==> #[trigger] row@[k] == k + 1,
        decreases m - j,
    {
        row.push(j + 1);
        j += 1;
    }
    assert(av@.take(0) =~= Seq::<char>::empty());
    let mut i: usize = 0;
    while i < n
        invariant
            i <= n,
            n == av@.len(),
            m == bv@.len(),
            m > 0,
            row@.len() == m,
            forall|k: int|
                0 <= k < m ==> #[trigger] row@[k] == distance(av@.take(i as int), bv@.take(k + 1)),
        decreases n - i,
    {
        let ghost above = row@;
        // the cells left of the current one, in this row and in the one above
        let mut left: usize = i + 1;
        let mut corner: usize = i;
        assert(bv@.take(0) =~= Seq::<char>::empty());
        let mut j: usize = 0;
        while j < m
            invariant
                i < n,
                j <= m,
                n == av@.len(),
                m == bv@.len(),
                row@.len() == m,
                above.len() == m,
                forall|k: int|
                    0 <= k < m ==> #[trigger] above[k] == distance(
                        av@.take(i as int),
                        bv@.take(k + 1),
                    ),
                forall|k: int|
                    0 <= k < j ==> #[trigger] row@[k] == distance(av@.take(i + 1), bv@.take(k + 1)),
                forall|k: int| j <= k < m ==> #[trigger] row@[k] == above[k],
                left == distance(av@.take(i + 1), bv@.take(j as int)),
                corner == distance(av@.take(i as int), bv@.take(j as int)),
            decreases m - j,
        {
            let ghost here = distance(av@.take(i + 1), bv@.take(j + 1));
            proof {
                lemma_cell(av@, bv@, i as int, j as int);
                law_distance_bounds(av@.take(i as int), bv@.take(j as int));
                law_distance_bounds(av@.take(i + 1), bv@.take(j + 1));
            }
            let up: usize = row[j];
            let mut best: usize = if av[i] == bv[j] {
                corner
            } else {
                corner + 1
            };
            if up < best {
                best = up + 1;
            }
            if left < best {
                best = left + 1;
            }
            assert(best == here);
            corner = up;
            left = best;
            row[j] = best;
            j += 1;
        }
        i += 1;
    }
    assert(av@.take(n as int) =~= av@);
    assert(bv@.take(m as int) =~= bv@);
    row[m - 1]
}

} // verus!
