//! Softening a picture: each sample becomes the mean of its neighbours in a row,
//! then in a column, three times over.

use vstd::arithmetic::div_mod::{lemma_fundamental_div_mod, lemma_fundamental_div_mod_converse};
use vstd::prelude::*;

verus! {

/// The sample at a position; beyond the ends of the line, that at the end.
pub open spec fn sample(line: Seq<u8>, k: int) -> int {
    if k < 0 {
        line[0] as int
    } else if k >= line.len() {
        line[line.len() - 1] as int
    } else {
        line[k] as int
    }
}

/// The sum of the samples at the positions from `lo` up to but not including
/// `hi`.
pub open spec fn span_sum(line: Seq<u8>, lo: int, hi: int) -> int
    decreases hi - lo,
{
    if hi <= lo {
        0
    } else {
        span_sum(line, lo, hi - 1) + sample(line, hi - 1)
    }
}

/// How many samples a window wider than the line lacks at its far end.
pub open spec fn lacking(len: int, r: int) -> int {
    if r > len - 1 {
        r - (len - 1)
    } else {
        0
    }
}

/// The sum of the samples up to `r` positions away.
pub open spec fn window_sum(line: Seq<u8>, b: int, r: int) -> int {
    span_sum(line, b - r, b + r + 1 - lacking(line.len() as int, r))
}

/// The mean of the samples up to `r` positions away, rounded down.
pub open spec fn smoothed(line: Seq<u8>, b: int, r: int) -> u8 {
    (window_sum(line, b, r) / (2 * r + 1)) as u8
}

proof fn lemma_span_bound(line: Seq<u8>, lo: int, hi: int)
    requires
        line.len() > 0,
        lo <= hi,
    ensures
        0 <= span_sum(line, lo, hi) <= 255 * (hi - lo),
    decreases hi - lo,
{
    if lo < hi {
        lemma_span_bound(line, lo, hi - 1);
    }
}

proof fn lemma_span_front(line: Seq<u8>, lo: int, hi: int)
    requires
        lo < hi,
    ensures
        span_sum(line, lo, hi) == sample(line, lo) + span_sum(line, lo + 1, hi),
    decreases hi - lo,
{
    if lo + 1 < hi {
        lemma_span_front(line, lo, hi - 1);
    } else {
        assert(span_sum(line, lo, hi - 1) == 0);
        assert(span_sum(line, lo + 1, hi) == 0);
    }
}

proof fn lemma_span_before(line: Seq<u8>, r: int, hi: int)
    requires
        line.len() > 0,
        0 <= r,
        0 <= hi,
    ensures
        span_sum(line, -r, hi) == r * line[0] + span_sum(line, 0, hi),
    decreases r,
{
    if r > 0 {
        lemma_span_front(line, -r, hi);
        lemma_span_before(line, r - 1, hi);
        assert(r * line[0] == (r - 1) * line[0] + line[0]) by (nonlinear_arith);
    } else {
        assert(r * line[0] == 0) by (nonlinear_arith)
            requires
                r == 0,
        ;
    }
}

proof fn lemma_smoothed_bound(line: Seq<u8>, b: int, r: int)
    requires
        line.len() > 0,
        0 <= r,
        0 <= b,
    ensures
        0 <= window_sum(line, b, r) <= 255 * (2 * r + 1),
        0 <= window_sum(line, b, r) / (2 * r + 1) <= 255,
{
    let d = lacking(line.len() as int, r);
    assert(0 <= d <= r);
    lemma_span_bound(line, b - r, b + r + 1 - d);
    let s = window_sum(line, b, r);
    let n = 2 * r + 1;
    assert(0 <= s / n <= 255) by (nonlinear_arith)
        requires
            0 <= s <= 255 * n,
            n >= 1,
    ;
}

/// Softens one line of samples with a window of `r` on each side.
pub fn smooth_line(line: &Vec<u8>, r: usize) -> (out: Vec<u8>)
    requires
        line@.len() > 0,
        line@.len() + r < usize::MAX,
        255 * (2 * r + 2) <= u32::MAX,
    ensures
        out@ == Seq::new(line@.len(), |b: int| smoothed(line@, b, r as int)),
{
    let ghost l = line@;
    let m: usize = line.len();
    let win: u32 = (2 * r + 1) as u32;
    let ghost d = lacking(m as int, r as int);
    assert(line[0] as u32 * (r as u32) <= 255 * r) by (nonlinear_arith)
        requires
            line[0] <= 255,
            r <= u32::MAX,
    ;
    let mut sum: u32 = line[0] as u32 * (r as u32);
    let last: usize = if r < m - 1 {
        r
    } else {
        m - 1
    };
    let mut k: usize = 0;
    assert(line[0] * r == r * line[0]) by (nonlinear_arith);
    while k <= last
        invariant
            l == line@,
            m == l.len(),
            m > 0,
            k <= last + 1,
            last < m,
            last <= r,
            m + r < usize::MAX,
            255 * (2 * r + 2) <= u32::MAX,
            sum == r * l[0] + span_sum(l, 0, k as int),
            0 <= r * l[0] <= 255 * r,
        decreases last + 1 - k,
    {
        proof {
            lemma_span_bound(l, 0, k as int);
        }
        sum += line[k] as u32;
        k += 1;
    }
    proof {
        lemma_span_before(l, r as int, k as int);
        assert(k == r + 1 - d);
        assert(sum == window_sum(l, 0, r as int));
    }
    let mut out: Vec<u8> = Vec::new();
    let mut b: usize = 0;
    while b < m
        invariant
            l == line@,
            m == l.len(),
            m > 0,
            b <= m,
            m + r < usize::MAX,
            255 * (2 * r + 2) <= u32::MAX,
            win == 2 * r + 1,
            d == lacking(m as int, r as int),
            0 <= d <= r,
            sum == window_sum(l, b as int, r as int),
            out@.len() == b,
            forall|x: int| 0 <= x < b ==> #[trigger] out@[x] == smoothed(l, x, r as int),
        decreases m - b,
    {
        proof {
            lemma_smoothed_bound(l, b as int, r as int);
            lemma_smoothed_bound(l, b + 1, r as int);
            lemma_span_front(l, b - r, b + r + 1 - d);
            assert(window_sum(l, b + 1, r as int) == window_sum(l, b as int, r as int) + sample(
                l,
                b + r + 1 - d,
            ) - sample(l, b - r));
        }
        out.push((sum / win) as u8);
        let ahead: usize = if b + r + 1 < m - 1 {
            b + r + 1
        } else {
            m - 1
        };
        let behind: usize = if b > r {
            b - r
        } else {
            0
        };
        let add: u32 = line[ahead] as u32;
        let gone: u32 = line[behind] as u32;
        assert(add == sample(l, b + r + 1 - d));
        assert(gone == sample(l, b - r));
        sum = sum + add - gone;
        b += 1;
    }
    assert(out@ =~= Seq::new(l.len(), |x: int| smoothed(l, x, r as int)));
    out
}

// ── a picture of four channels ────────────────────────────────────────────
/// The samples of one channel along a row.
pub open spec fn row(data: Seq<u8>, w: int, y: int, ch: int) -> Seq<u8> {
    Seq::new(w as nat, |x: int| data[(y * w + x) * 4 + ch])
}

/// The samples of one channel along a column.
pub open spec fn column(data: Seq<u8>, w: int, h: int, x: int, ch: int) -> Seq<u8> {
    Seq::new(h as nat, |y: int| data[(y * w + x) * 4 + ch])
}

/// One sample of a softened picture.
pub open spec fn passed_at(data: Seq<u8>, w: int, h: int, r: int, horiz: bool, i: int) -> u8 {
    let ch = i % 4;
    let x = (i / 4) % w;
    let y = (i / 4) / w;
    if horiz {
        smoothed(row(data, w, y, ch), x, r)
    } else {
        smoothed(column(data, w, h, x, ch), y, r)
    }
}

/// A picture softened along its rows or its columns.
pub open spec fn passed(data: Seq<u8>, w: int, h: int, r: int, horiz: bool) -> Seq<u8> {
    Seq::new(data.len(), |i: int| passed_at(data, w, h, r, horiz, i))
}

/// A picture softened along its rows and then its columns, `times` times.
pub open spec fn passed_times(data: Seq<u8>, w: int, h: int, r: int, times: nat) -> Seq<u8>
    decreases times,
{
    if times == 0 {
        data
    } else {
        passed(
            passed(passed_times(data, w, h, r, (times - 1) as nat), w, h, r, true),
            w,
            h,
            r,
            false,
        )
    }
}

/// A softened picture.
pub open spec fn blurred(data: Seq<u8>, w: int, h: int, r: int) -> Seq<u8> {
    if r == 0 {
        data
    } else {
        passed_times(data, w, h, r, 3)
    }
}

pub proof fn lemma_index(w: int, h: int, x: int, y: int, ch: int)
    requires
        0 <= x < w,
        0 <= y < h,
        0 <= ch < 4,
    ensures
        0 <= (y * w + x) * 4 + ch < w * h * 4,
        0 <= y * w + x < w * h,
        ((y * w + x) * 4 + ch) % 4 == ch,
        ((y * w + x) * 4 + ch) / 4 == y * w + x,
        (y * w + x) % w == x,
        (y * w + x) / w == y,
{
    let p = y * w + x;
    assert(0 <= p < w * h) by (nonlinear_arith)
        requires
            p == y * w + x,
            0 <= x < w,
            0 <= y < h,
    ;
    lemma_fundamental_div_mod_converse(p, w, y, x);
}

pub proof fn lemma_place(w: int, h: int, i: int)
    requires
        0 < w,
        0 < h,
        0 <= i < w * h * 4,
    ensures
        0 <= (i / 4) % w < w,
        0 <= (i / 4) / w < h,
        i == ((i / 4) / w * w + (i / 4) % w) * 4 + i % 4,
{
    let p = i / 4;
    lemma_fundamental_div_mod(p, w);
    let y = p / w;
    let x = p % w;
    assert(0 <= x < w) by (nonlinear_arith)
        requires
            x == p % w,
            w > 0,
    ;
    assert(p == y * w + x) by (nonlinear_arith)
        requires
            p == w * y + x,
    ;
    assert(0 <= y < h) by (nonlinear_arith)
        requires
            p == y * w + x,
            0 <= x < w,
            0 <= p < w * h,
    ;
}

// Which line and which channel of it a sample belongs to.
spec fn line_no(w: int, horiz: bool, i: int) -> int {
    if horiz {
        (i / 4) / w
    } else {
        (i / 4) % w
    }
}

spec fn place_no(w: int, horiz: bool, i: int) -> int {
    if horiz {
        (i / 4) % w
    } else {
        (i / 4) / w
    }
}

spec fn index_of(w: int, horiz: bool, a: int, b: int, ch: int) -> int {
    if horiz {
        (a * w + b) * 4 + ch
    } else {
        (b * w + a) * 4 + ch
    }
}

fn sample_index(w: usize, h: usize, horiz: bool, a: usize, b: usize, ch: usize) -> (i: usize)
    requires
        w * h * 4 <= usize::MAX,
        a < (if horiz {
            h
        } else {
            w
        }),
        b < (if horiz {
            w
        } else {
            h
        }),
        ch < 4,
    ensures
        i == index_of(w as int, horiz, a as int, b as int, ch as int),
        i < w * h * 4,
{
    let (x, y): (usize, usize) = if horiz {
        (b, a)
    } else {
        (a, b)
    };
    proof {
        lemma_index(w as int, h as int, x as int, y as int, ch as int);
        assert(0 <= y * w <= y * w + x) by (nonlinear_arith);
    }
    (y * w + x) * 4 + ch
}

/// Softens a picture of `w` by `h` points, four samples each, along its rows or
/// its columns.
pub fn box_pass(data: &mut Vec<u8>, w: usize, h: usize, r: usize, horiz: bool)
    requires
        old(data)@.len() == w * h * 4,
        w + r < usize::MAX,
        h + r < usize::MAX,
        255 * (2 * r + 2) <= u32::MAX,
    ensures
        final(data)@ == passed(old(data)@, w as int, h as int, r as int, horiz),
{
    let ghost src = data@;
    let ghost want = passed(src, w as int, h as int, r as int, horiz);
    let total: usize = data.len();
    assert(total == w * h * 4);
    if total == 0 {
        assert(data@ =~= want);
        return;
    }
    assert(w > 0 && h > 0) by (nonlinear_arith)
        requires
            w * h * 4 > 0,
    ;
    let (n, m): (usize, usize) = if horiz {
        (h, w)
    } else {
        (w, h)
    };
    let mut a: usize = 0;
    while a < n
        invariant
            w > 0,
            h > 0,
            w * h * 4 == total,
            data@.len() == total,
            src.len() == total,
            n == (if horiz {
                h
            } else {
                w
            }),
            m == (if horiz {
                w
            } else {
                h
            }),
            a <= n,
            w + r < usize::MAX,
            h + r < usize::MAX,
            255 * (2 * r + 2) <= u32::MAX,
            want == passed(src, w as int, h as int, r as int, horiz),
            forall|i: int|
                0 <= i < total ==> #[trigger] data@[i] == (if line_no(w as int, horiz, i) < a {
                    want[i]
                } else {
                    src[i]
                }),
        decreases n - a,
    {
        let mut ch: usize = 0;
        while ch < 4
            invariant
                w > 0,
                h > 0,
                w * h * 4 == total,
                data@.len() == total,
                src.len() == total,
                n == (if horiz {
                    h
                } else {
                    w
                }),
                m == (if horiz {
                    w
                } else {
                    h
                }),
                a < n,
                ch <= 4,
                w + r < usize::MAX,
                h + r < usize::MAX,
                255 * (2 * r + 2) <= u32::MAX,
                want == passed(src, w as int, h as int, r as int, horiz),
                forall|i: int|
                    0 <= i < total ==> #[trigger] data@[i] == (if line_no(w as int, horiz, i) < a
                        || (line_no(w as int, horiz, i) == a && i % 4 < ch) {
                        want[i]
                    } else {
                        src[i]
                    }),
            decreases 4 - ch,
        {
            let line = take_line(data, w, h, horiz, a, ch);
            let soft = smooth_line(&line, r);
            proof {
                let full = if horiz {
                    row(src, w as int, a as int, ch as int)
                } else {
                    column(src, w as int, h as int, a as int, ch as int)
                };
                assert forall|b: int| 0 <= b < m implies #[trigger] line@[b] == full[b] by {
                    let (x, y) = if horiz {
                        (b, a as int)
                    } else {
                        (a as int, b)
                    };
                    lemma_index(w as int, h as int, x, y, ch as int);
                }
                assert(line@ =~= full);
            }
            put_line(data, &soft, w, h, horiz, a, ch);
            proof {
                assert forall|i: int| 0 <= i < total implies #[trigger] data@[i] == (if line_no(
                    w as int,
                    horiz,
                    i,
                ) < a || (line_no(w as int, horiz, i) == a && i % 4 < ch + 1) {
                    want[i]
                } else {
                    src[i]
                }) by {
                    lemma_place(w as int, h as int, i);
                }
            }
            ch += 1;
        }
        a += 1;
    }
    proof {
        assert forall|i: int| 0 <= i < total implies data@[i] == want[i] by {
            lemma_place(w as int, h as int, i);
        }
        assert(data@ =~= want);
    }
}

fn take_line(data: &Vec<u8>, w: usize, h: usize, horiz: bool, a: usize, ch: usize) -> (line: Vec<
    u8,
>)
    requires
        data@.len() == w * h * 4,
        a < (if horiz {
            h
        } else {
            w
        }),
        ch < 4,
    ensures
        line@ == Seq::new(
            (if horiz {
                w
            } else {
                h
            }) as nat,
            |b: int| data@[index_of(w as int, horiz, a as int, b, ch as int)],
        ),
{
    let total: usize = data.len();
    let m: usize = if horiz {
        w
    } else {
        h
    };
    let mut line: Vec<u8> = Vec::new();
    let mut b: usize = 0;
    while b < m
        invariant
            total == data@.len(),
            data@.len() == w * h * 4,
            a < (if horiz {
                h
            } else {
                w
            }),
            m == (if horiz {
                w
            } else {
                h
            }),
            ch < 4,
            b <= m,
            line@.len() == b,
            forall|k: int|
                0 <= k < b ==> #[trigger] line@[k] == data@[index_of(
                    w as int,
                    horiz,
                    a as int,
                    k,
                    ch as int,
                )],
        decreases m - b,
    {
        let i: usize = sample_index(w, h, horiz, a, b, ch);
        line.push(data[i]);
        b += 1;
    }
    line
}

fn put_line(
    data: &mut Vec<u8>,
    line: &Vec<u8>,
    w: usize,
    h: usize,
    horiz: bool,
    a: usize,
    ch: usize,
)
    requires
        w > 0,
        h > 0,
        old(data)@.len() == w * h * 4,
        a < (if horiz {
            h
        } else {
            w
        }),
        line@.len() == (if horiz {
            w
        } else {
            h
        }),
        ch < 4,
    ensures
        final(data)@.len() == old(data)@.len(),
        forall|i: int|
            0 <= i < final(data)@.len() ==> #[trigger] final(data)@[i] == (if line_no(
                w as int,
                horiz,
                i,
            ) == a && i % 4 == ch {
                line@[place_no(w as int, horiz, i)]
            } else {
                old(data)@[i]
            }),
{
    let ghost was = data@;
    let total: usize = data.len();
    let mut b: usize = 0;
    while b < line.len()
        invariant
            w > 0,
            h > 0,
            total == w * h * 4,
            data@.len() == total,
            was.len() == total,
            a < (if horiz {
                h
            } else {
                w
            }),
            line@.len() == (if horiz {
                w
            } else {
                h
            }),
            ch < 4,
            b <= line@.len(),
            forall|i: int|
                0 <= i < total ==> #[trigger] data@[i] == (if line_no(w as int, horiz, i) == a && i
                    % 4 == ch && place_no(w as int, horiz, i) < b {
                    line@[place_no(w as int, horiz, i)]
                } else {
                    was[i]
                }),
        decreases line@.len() - b,
    {
        let at: usize = sample_index(w, h, horiz, a, b, ch);
        let ghost before = data@;
        data[at] = line[b];
        proof {
            let (x, y) = if horiz {
                (b as int, a as int)
            } else {
                (a as int, b as int)
            };
            lemma_index(w as int, h as int, x, y, ch as int);
            assert forall|i: int| 0 <= i < total implies #[trigger] data@[i] == (if line_no(
                w as int,
                horiz,
                i,
            ) == a && i % 4 == ch && place_no(w as int, horiz, i) < b + 1 {
                line@[place_no(w as int, horiz, i)]
            } else {
                was[i]
            }) by {
                lemma_place(w as int, h as int, i);
                if i != at {
                    assert(data@[i] == before[i]);
                }
            }
        }
        b += 1;
    }
    proof {
        assert forall|i: int| 0 <= i < total implies #[trigger] data@[i] == (if line_no(
            w as int,
            horiz,
            i,
        ) == a && i % 4 == ch {
            line@[place_no(w as int, horiz, i)]
        } else {
            was[i]
        }) by {
            lemma_place(w as int, h as int, i);
        }
    }
}

/// Softens a picture of `w` by `h` points, four samples each.
pub fn blur(data: &mut Vec<u8>, w: usize, h: usize, r: usize)
    requires
        old(data)@.len() == w * h * 4,
        w + r < usize::MAX,
        h + r < usize::MAX,
        255 * (2 * r + 2) <= u32::MAX,
    ensures
        final(data)@ == blurred(old(data)@, w as int, h as int, r as int),
{
    if r == 0 {
        return;
    }
    let mut t: usize = 0;
    while t < 3
        invariant
            t <= 3,
            data@.len() == w * h * 4,
            w + r < usize::MAX,
            h + r < usize::MAX,
            255 * (2 * r + 2) <= u32::MAX,
            data@ == passed_times(old(data)@, w as int, h as int, r as int, t as nat),
        decreases 3 - t,
    {
        box_pass(data, w, h, r, true);
        box_pass(data, w, h, r, false);
        t += 1;
    }
}

// ── laws ──────────────────────────────────────────────────────────────────
proof fn lemma_span_even(line: Seq<u8>, c: u8, lo: int, hi: int)
    requires
        line.len() > 0,
        forall|i: int| 0 <= i < line.len() ==> #[trigger] line[i] == c,
        lo <= hi,
    ensures
        span_sum(line, lo, hi) == c * (hi - lo),
    decreases hi - lo,
{
    if lo < hi {
        lemma_span_even(line, c, lo, hi - 1);
        assert(sample(line, hi - 1) == c);
        assert(c * (hi - lo) == c * (hi - 1 - lo) + c) by (nonlinear_arith);
    } else {
        assert(c * (hi - lo) == 0) by (nonlinear_arith)
            requires
                hi == lo,
        ;
    }
}

/// A line of one colour keeps it, if the window is not wider than the line.
pub proof fn law_even_line_stays(line: Seq<u8>, c: u8, b: int, r: int)
    requires
        0 <= r < line.len(),
        forall|i: int| 0 <= i < line.len() ==> #[trigger] line[i] == c,
    ensures
        smoothed(line, b, r) == c,
{
    lemma_span_even(line, c, b - r, b + r + 1);
    let n = 2 * r + 1;
    assert((c * n) / n == c) by (nonlinear_arith)
        requires
            n >= 1,
    ;
}

proof fn lemma_span_at_most(line: Seq<u8>, top: u8, lo: int, hi: int)
    requires
        line.len() > 0,
        forall|i: int| 0 <= i < line.len() ==> #[trigger] line[i] <= top,
        lo <= hi,
    ensures
        0 <= span_sum(line, lo, hi) <= top * (hi - lo),
    decreases hi - lo,
{
    if lo < hi {
        lemma_span_at_most(line, top, lo, hi - 1);
        assert(0 <= sample(line, hi - 1) <= top);
        assert(top * (hi - lo) == top * (hi - 1 - lo) + top) by (nonlinear_arith);
    } else {
        assert(top * (hi - lo) == 0) by (nonlinear_arith)
            requires
                hi == lo,
        ;
    }
}

/// Softening makes nothing brighter than the brightest sample of the line.
pub proof fn law_never_brighter(line: Seq<u8>, top: u8, b: int, r: int)
    requires
        line.len() > 0,
        0 <= r,
        0 <= b,
        forall|i: int| 0 <= i < line.len() ==> #[trigger] line[i] <= top,
    ensures
        smoothed(line, b, r) <= top,
{
    let d = lacking(line.len() as int, r);
    lemma_span_at_most(line, top, b - r, b + r + 1 - d);
    lemma_smoothed_bound(line, b, r);
    let s = window_sum(line, b, r);
    let n = 2 * r + 1;
    assert(top * (n - d) <= top * n) by (nonlinear_arith)
        requires
            0 <= d,
            0 <= top,
    ;
    assert(s / n <= top) by (nonlinear_arith)
        requires
            0 <= s <= top * n,
            n >= 1,
    ;
}

} // verus!
