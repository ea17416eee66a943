//! Rounding to the nearest, and what single precision makes of whole numbers and
//! their quotients.

use vstd::prelude::*;

verus! {

/// `n / d` rounded to the nearest integer; a half goes to the even one.
pub open spec fn rounded(n: int, d: int) -> int {
    if 2 * (n % d) > d || (2 * (n % d) == d && (n / d) % 2 == 1) {
        n / d + 1
    } else {
        n / d
    }
}

// ── single precision ──────────────────────────────────────────────────────
/// A number of single precision has so many significant steps: from here on, not
/// every whole number is one.
pub const STEPS: u32 = 0x100_0000;

/// The number of single precision nearest to `p / d`, where that is at least half
/// of `STEPS`: a whole number.
pub open spec fn large(p: int, d: int) -> int
    decreases p - d,
{
    if 0 < d && p >= d * STEPS {
        2 * large(p, 2 * d)
    } else {
        rounded(p, d)
    }
}

/// The number of single precision nearest to `p / d`, where that is less than half
/// of `STEPS`: a whole number of steps, and how many steps make one.
pub open spec fn small(p: int, d: int) -> (int, int)
    decreases d * STEPS - p,
{
    if p <= 0 {
        (0, 1)
    } else if 2 * p < d * STEPS {
        let (k, m) = small(2 * p, d);
        (k, 2 * m)
    } else {
        (rounded(p, d), 1)
    }
}

/// The number of single precision nearest to a whole number.
pub open spec fn single(u: int) -> int {
    if u < STEPS {
        u
    } else {
        large(u, 1)
    }
}

/// The quotient of two whole numbers in single precision, rounded down.
pub open spec fn quotient_down(p: int, d: int) -> int {
    if 2 * p >= d * STEPS {
        large(p, d)
    } else {
        small(p, d).0 / small(p, d).1
    }
}

/// The quotient of two whole numbers in single precision, rounded up.
pub open spec fn quotient_up(p: int, d: int) -> int {
    if 2 * p >= d * STEPS {
        large(p, d)
    } else {
        (small(p, d).0 + small(p, d).1 - 1) / small(p, d).1
    }
}

// ── how far off ───────────────────────────────────────────────────────────
proof fn lemma_rounded(p: int, d: int)
    requires
        0 <= p,
        0 < d,
    ensures
        0 <= rounded(p, d) <= p + 1,
        2 * p - d <= 2 * (rounded(p, d) * d) <= 2 * p + d,
{
    let (q, r) = (p / d, p % d);
    assert(p == q * d + r && 0 <= r < d && 0 <= q <= p) by (nonlinear_arith)
        requires
            q == p / d,
            r == p % d,
            0 <= p,
            0 < d,
    ;
    assert((q + 1) * d == q * d + d) by (nonlinear_arith);
}

/// The nearest integer is at most `k` where the quotient is less than half above it.
proof fn lemma_rounded_below(p: int, d: int, k: int)
    requires
        0 <= p,
        0 < d,
        2 * p < (2 * k + 1) * d,
    ensures
        rounded(p, d) <= k,
{
    lemma_rounded(p, d);
    let n = rounded(p, d);
    if n > k {
        let (q, r) = (p / d, p % d);
        assert(p == q * d + r && 0 <= r < d) by (nonlinear_arith)
            requires
                q == p / d,
                r == p % d,
                0 < d,
        ;
        assert(q < k + 1) by (nonlinear_arith)
            requires
                p == q * d + r,
                0 <= r,
                0 < d,
                2 * p < (2 * k + 1) * d,
        ;
        assert(q == k && n == k + 1);
        assert((2 * k + 1) * d == 2 * (q * d) + d) by (nonlinear_arith)
            requires
                q == k,
        ;
    }
}

/// The nearest integer is at least `k` where the quotient is less than half below it.
proof fn lemma_rounded_above(p: int, d: int, k: int)
    requires
        0 <= p,
        0 < d,
        2 * p > (2 * k - 1) * d,
    ensures
        rounded(p, d) >= k,
{
    let n = rounded(p, d);
    if n < k {
        let (q, r) = (p / d, p % d);
        assert(p == q * d + r && 0 <= r < d) by (nonlinear_arith)
            requires
                q == p / d,
                r == p % d,
                0 < d,
        ;
        assert(q > k - 2) by (nonlinear_arith)
            requires
                p == q * d + r,
                r < d,
                0 < d,
                2 * p > (2 * k - 1) * d,
        ;
        assert(q == k - 1 && n == q);
        assert((2 * k - 1) * d == 2 * (q * d) + d) by (nonlinear_arith)
            requires
                q == k - 1,
        ;
    }
}

/// Rounding adds at most one part in `STEPS`.
proof fn lemma_large(p: int, d: int)
    requires
        0 < d,
        2 * p >= d * STEPS,
    ensures
        0 <= large(p, d),
        large(p, d) * d * STEPS <= p * (STEPS + 1),
    decreases p - d,
{
    if p >= d * STEPS {
        lemma_large(p, 2 * d);
        let n = large(p, 2 * d);
        assert(n * (2 * d) * STEPS == (2 * n) * d * STEPS) by (nonlinear_arith);
    } else {
        lemma_rounded(p, d);
        let n = rounded(p, d) * d;
        assert(2 * n <= 2 * p + d);
        assert(rounded(p, d) * d * STEPS <= p * (STEPS + 1)) by (nonlinear_arith)
            requires
                n == rounded(p, d) * d,
                2 * n <= 2 * p + d,
                d * STEPS <= 2 * p,
        ;
    }
}

/// The steps of a small quotient: as many as make it fill the significant ones.
proof fn lemma_small(p: int, d: int)
    requires
        0 < p,
        0 < d,
        p < d * STEPS,
    ensures
        0 < small(p, d).1,
        d * STEPS <= 2 * (p * small(p, d).1),
        p * small(p, d).1 < d * STEPS,
        small(p, d).0 == rounded(p * small(p, d).1, d),
    decreases d * STEPS - p,
{
    if 2 * p < d * STEPS {
        lemma_small(2 * p, d);
        let m = small(2 * p, d).1;
        assert((2 * p) * m == p * (2 * m)) by (nonlinear_arith);
    }
}

pub proof fn lemma_single(u: int)
    requires
        0 <= u,
    ensures
        0 <= single(u),
        single(u) * STEPS <= u * (STEPS + 1),
        0 < u ==> 0 < single(u),
{
    if u >= STEPS {
        lemma_large(u, 1);
        lemma_large_positive(u, 1);
    }
}

proof fn lemma_large_positive(p: int, d: int)
    requires
        0 < d,
        2 * p >= d * STEPS,
    ensures
        0 < large(p, d),
    decreases p - d,
{
    if p >= d * STEPS {
        lemma_large_positive(p, 2 * d);
    } else {
        assert((2 * 1 - 1) * d == d) by (nonlinear_arith);
        lemma_rounded_above(p, d, 1);
    }
}

/// A quotient rounded down is at most the quotient and one part in `STEPS` of it.
pub proof fn lemma_quotient_down(p: int, d: int)
    requires
        0 <= p,
        0 < d,
    ensures
        0 <= quotient_down(p, d),
        quotient_down(p, d) * d * STEPS <= p * (STEPS + 1),
{
    if 2 * p >= d * STEPS {
        lemma_large(p, d);
    } else if p > 0 {
        lemma_small(p, d);
        let (k, m) = small(p, d);
        let a = k / m;
        let x = p * m;
        lemma_rounded(x, d);
        assert(0 <= a && a * m <= k) by (nonlinear_arith)
            requires
                a == k / m,
                0 <= k,
                0 < m,
        ;
        let n = k * d;
        assert(n * STEPS <= x * (STEPS + 1)) by (nonlinear_arith)
            requires
                2 * n <= 2 * x + d,
                d * STEPS <= 2 * x,
        ;
        assert(a * m * d <= n) by (nonlinear_arith)
            requires
                a * m <= k,
                n == k * d,
                0 < d,
        ;
        assert(a * d * STEPS <= p * (STEPS + 1)) by (nonlinear_arith)
            requires
                a * m * d <= n,
                n * STEPS <= x * (STEPS + 1),
                x == p * m,
                0 < m,
        ;
    } else {
        assert(quotient_down(p, d) == 0);
    }
}

/// Where the dividend is below `STEPS`, rounding takes a quotient over no integer.
pub proof fn lemma_quotients_exact(p: int, d: int)
    requires
        0 <= p < STEPS,
        0 < d,
    ensures
        quotient_down(p, d) == p / d,
        quotient_up(p, d) == (p + d - 1) / d,
{
    let f = p / d;
    let c = (p + d - 1) / d;
    assert(f * d <= p <= (f + 1) * d - 1 && (c - 1) * d + 1 <= p <= c * d && 0 <= f && 0 <= c)
        by (nonlinear_arith)
        requires
            f == p / d,
            c == (p + d - 1) / d,
            0 < d,
            0 <= p,
    ;
    if 2 * p >= d * STEPS {
        assert(d == 1);
        assert(large(p, 1) == p);
    } else if p > 0 {
        lemma_small(p, d);
        let (k, m) = small(p, d);
        let x = p * m;
        assert(2 * m > d) by (nonlinear_arith)
            requires
                d * STEPS <= 2 * (p * m),
                0 < p < STEPS,
                0 < m,
        ;
        assert(2 * x < (2 * ((f + 1) * m - 1) + 1) * d) by (nonlinear_arith)
            requires
                x == p * m,
                p <= (f + 1) * d - 1,
                2 * m > d,
                0 < m,
        ;
        lemma_rounded_below(x, d, (f + 1) * m - 1);
        assert(2 * x > (2 * (f * m) - 1) * d) by (nonlinear_arith)
            requires
                x == p * m,
                f * d <= p,
                0 < m,
                0 < d,
        ;
        lemma_rounded_above(x, d, f * m);
        assert(k / m == f) by (nonlinear_arith)
            requires
                f * m <= k <= (f + 1) * m - 1,
                0 < m,
        ;
        assert(2 * x < (2 * (c * m) + 1) * d) by (nonlinear_arith)
            requires
                x == p * m,
                p <= c * d,
                0 < m,
                0 < d,
        ;
        lemma_rounded_below(x, d, c * m);
        assert(2 * x > (2 * ((c - 1) * m + 1) - 1) * d) by (nonlinear_arith)
            requires
                x == p * m,
                p >= (c - 1) * d + 1,
                2 * m > d,
                0 < m,
        ;
        lemma_rounded_above(x, d, (c - 1) * m + 1);
        assert((k + m - 1) / m == c) by (nonlinear_arith)
            requires
                (c - 1) * m + 1 <= k <= c * m,
                0 < m,
        ;
    } else {
        assert(f == 0) by (nonlinear_arith)
            requires
                f == p / d,
                p == 0,
                0 < d,
        ;
        assert(c == 0) by (nonlinear_arith)
            requires
                (c - 1) * d + 1 <= p <= c * d,
                p == 0,
                0 < d,
        ;
    }
}

// ── computing it ──────────────────────────────────────────────────────────
/// The greatest dividend and divisor that the functions below take.
pub const MOST: u128 = 0x100_0000_0000_0000_0000;

/// `p / d` rounded to the nearest integer; a half goes to the even one.
pub fn round_to_even(p: u128, d: u128) -> (r: u128)
    requires
        0 < d <= MOST,
        p <= MOST * STEPS,
    ensures
        r == rounded(p as int, d as int),
        r <= p + 1,
{
    let q: u128 = p / d;
    let m: u128 = p % d;
    assert(q <= p) by (nonlinear_arith)
        requires
            q == p / d,
            0 < d,
    ;
    if 2 * m > d || (2 * m == d && q % 2 == 1) {
        q + 1
    } else {
        q
    }
}

fn large_quotient(p: u128, d: u128) -> (r: u128)
    requires
        0 < d <= MOST,
        p <= MOST,
        2 * p >= d * STEPS,
    ensures
        r == large(p as int, d as int),
        r <= 2 * p,
    decreases p - d,
{
    proof {
        lemma_large(p as int, d as int);
        let n = large(p as int, d as int);
        assert(n <= 2 * p) by (nonlinear_arith)
            requires
                n * d * STEPS <= p * (STEPS + 1),
                0 < d,
                0 <= n,
                0 <= p,
        ;
    }
    if p >= d * 0x100_0000 {
        2 * large_quotient(p, 2 * d)
    } else {
        round_to_even(p, d)
    }
}

fn small_quotient(p: u128, d: u128) -> (r: (u128, u128))
    requires
        0 < p,
        0 < d <= MOST,
        p < d * STEPS,
    ensures
        r.0 == small(p as int, d as int).0,
        r.1 == small(p as int, d as int).1,
        r.0 <= MOST * STEPS + 1,
        0 < r.1 <= MOST * STEPS,
    decreases d * STEPS - p,
{
    proof {
        lemma_small(p as int, d as int);
        let m = small(p as int, d as int).1;
        lemma_rounded(p * m, d as int);
        assert(m <= p * m) by (nonlinear_arith)
            requires
                0 < p,
                0 < m,
        ;
    }
    if 2 * p < d * 0x100_0000 {
        let (k, m) = small_quotient(2 * p, d);
        (k, 2 * m)
    } else {
        (round_to_even(p, d), 1)
    }
}

/// The number of single precision nearest to a whole number.
pub fn nearest_single(u: u128) -> (r: u128)
    requires
        u <= MOST,
    ensures
        r == single(u as int),
        r <= 2 * u,
        0 < u ==> 0 < r,
{
    proof {
        lemma_single(u as int);
    }
    if u < STEPS as u128 {
        u
    } else {
        large_quotient(u, 1)
    }
}

/// The quotient of two whole numbers in single precision, rounded down.
pub fn divide_down(p: u128, d: u128) -> (r: u128)
    requires
        0 < d <= MOST,
        p <= MOST,
    ensures
        r == quotient_down(p as int, d as int),
{
    if 2 * p >= d * 0x100_0000 {
        large_quotient(p, d)
    } else if p == 0 {
        0
    } else {
        let (k, m) = small_quotient(p, d);
        k / m
    }
}

/// The quotient of two whole numbers in single precision, rounded up.
pub fn divide_up(p: u128, d: u128) -> (r: u128)
    requires
        0 < d <= MOST,
        p <= MOST,
    ensures
        r == quotient_up(p as int, d as int),
{
    if 2 * p >= d * 0x100_0000 {
        large_quotient(p, d)
    } else if p == 0 {
        0
    } else {
        let (k, m) = small_quotient(p, d);
        (k + m - 1) / m
    }
}

// ── laws ──────────────────────────────────────────────────────────────────
/// The rounded quotient is off by half at most, and the even one of two that are as near.
pub proof fn law_rounded_to_the_nearest(n: int, d: int, other: int)
    requires
        0 <= n,
        0 < d,
    ensures
        -d <= 2 * (rounded(n, d) * d - n) <= d,
        2 * (other * d - n) == d || 2 * (n - other * d) == d ==> rounded(n, d) % 2 == 0,
{
    lemma_rounded(n, d);
    let (q, r) = (n / d, n % d);
    assert(n == q * d + r && 0 <= r < d) by (nonlinear_arith)
        requires
            q == n / d,
            r == n % d,
            0 < d,
    ;
    if 2 * (other * d - n) == d || 2 * (n - other * d) == d {
        assert(2 * r == d) by (nonlinear_arith)
            requires
                2 * (other * d - n) == d || 2 * (n - other * d) == d,
                n == q * d + r,
                0 <= r < d,
                0 < d,
        ;
    }
}

/// In single precision a whole number below 2^24 is itself, and any other is off by one
/// part in 2^24 at most.
pub proof fn law_single_precision(u: int)
    requires
        0 <= u,
    ensures
        u < 0x100_0000 ==> single(u) == u,
        u * 0xFF_FFFF <= single(u) * 0x100_0000 <= u * 0x100_0001,
{
    lemma_single(u);
    if u >= STEPS {
        lemma_large_below(u, 1);
    }
}

proof fn lemma_large_below(p: int, d: int)
    requires
        0 < d,
        2 * p >= d * STEPS,
    ensures
        p * (STEPS - 1) <= large(p, d) * d * STEPS,
    decreases p - d,
{
    if p >= d * STEPS {
        lemma_large_below(p, 2 * d);
        let n = large(p, 2 * d);
        assert(n * (2 * d) * STEPS == (2 * n) * d * STEPS) by (nonlinear_arith);
    } else {
        lemma_rounded(p, d);
        let n = rounded(p, d) * d;
        assert(p * (STEPS - 1) <= rounded(p, d) * d * STEPS) by (nonlinear_arith)
            requires
                n == rounded(p, d) * d,
                2 * p - d <= 2 * n,
                d * STEPS <= 2 * p,
        ;
    }
}

} // verus!
