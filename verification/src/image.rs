//! Pictures of four samples a point: cutting, shrinking, placing.

use crate::paint::{lemma_index, lemma_place};
use crate::rounding::{
    divide_down, divide_up, lemma_quotient_down, lemma_quotients_exact, lemma_single,
    nearest_single, quotient_down, quotient_up, single, STEPS,
};
use vstd::prelude::*;

verus! {

/// A picture: red, green, blue and opacity of each point, row by row.
pub struct Image {
    pub w: usize,
    pub h: usize,
    pub data: Vec<u8>,
}

impl Image {
    /// The picture has points, and four samples for each.
    pub open spec fn ok(&self) -> bool {
        &&& self.w > 0
        &&& self.h > 0
        &&& self.data@.len() == self.w * self.h * 4
    }

    /// A sample of a point.
    pub open spec fn at(&self, x: int, y: int, k: int) -> u8 {
        self.data@[(y * self.w + x) * 4 + k]
    }

    /// A copy.
    pub fn copy(&self) -> (r: Image)
        ensures
            r.w == self.w,
            r.h == self.h,
            r.data@ == self.data@,
    {
        let mut data: Vec<u8> = Vec::new();
        data.extend_from_slice(self.data.as_slice());
        assert(data@ =~= self.data@);
        Image { w: self.w, h: self.h, data }
    }
}

/// A rectangle of points: left, top, right and bottom, all within it.
pub type Frame = (usize, usize, usize, usize);

/// The rectangle lies within a picture of `w` by `h` points.
pub open spec fn within(b: Frame, w: int, h: int) -> bool {
    &&& b.0 <= b.2 < w
    &&& b.1 <= b.3 < h
}

// ── the content of a picture ──────────────────────────────────────────────
/// The point is not (nearly) transparent.
pub open spec fn visible(img: Image, x: int, y: int) -> bool {
    img.at(x, y, 3) > 8
}

pub open spec fn inside(x: int, y: int, w: int, h: int) -> bool {
    0 <= x < w && 0 <= y < h
}

/// The picture has a visible point.
pub open spec fn has_content(img: Image) -> bool {
    exists|x: int, y: int| inside(x, y, img.w as int, img.h as int) && #[trigger] visible(img, x, y)
}

/// The smallest rectangle around all visible points.
pub open spec fn is_tight(img: Image, b: Frame) -> bool {
    &&& within(b, img.w as int, img.h as int)
    &&& forall|x: int, y: int|
        inside(x, y, img.w as int, img.h as int) && #[trigger] visible(img, x, y) ==> b.0 <= x
            <= b.2 && b.1 <= y <= b.3
    &&& exists|y: int| 0 <= y < img.h && #[trigger] visible(img, b.0 as int, y)
    &&& exists|y: int| 0 <= y < img.h && #[trigger] visible(img, b.2 as int, y)
    &&& exists|x: int| 0 <= x < img.w && #[trigger] visible(img, x, b.1 as int)
    &&& exists|x: int| 0 <= x < img.w && #[trigger] visible(img, x, b.3 as int)
}

/// The smallest rectangle around all visible points; the whole picture if there
/// is none.
#[verifier::loop_isolation(false)]
pub fn content_box(img: &Image) -> (b: Frame)
    requires
        img.ok(),
    ensures
        has_content(*img) ==> is_tight(*img, b),
        !has_content(*img) ==> b == (0usize, 0usize, (img.w - 1) as usize, (img.h - 1) as usize),
        within(b, img.w as int, img.h as int),
{
    let (w, h): (usize, usize) = (img.w, img.h);
    let total: usize = img.data.len();
    let mut found = false;
    let mut x0: usize = 0;
    let mut y0: usize = 0;
    let mut x1: usize = 0;
    let mut y1: usize = 0;
    let mut y: usize = 0;
    while y < h
        invariant
            img.ok(),
            w == img.w,
            h == img.h,
            y <= h,
            found ==> within((x0, y0, x1, y1), w as int, h as int),
            found ==> exists|v: int| 0 <= v < h && #[trigger] visible(*img, x0 as int, v),
            found ==> exists|v: int| 0 <= v < h && #[trigger] visible(*img, x1 as int, v),
            found ==> exists|u: int| 0 <= u < w && #[trigger] visible(*img, u, y0 as int),
            found ==> exists|u: int| 0 <= u < w && #[trigger] visible(*img, u, y1 as int),
            forall|u: int, v: int|
                inside(u, v, w as int, y as int) && #[trigger] visible(*img, u, v) ==> found && x0
                    <= u <= x1 && y0 <= v <= y1,
        decreases h - y,
    {
        let mut x: usize = 0;
        while x < w
            invariant
                img.ok(),
                w == img.w,
                h == img.h,
                y < h,
                x <= w,
                found ==> within((x0, y0, x1, y1), w as int, h as int),
                found ==> exists|v: int| 0 <= v < h && #[trigger] visible(*img, x0 as int, v),
                found ==> exists|v: int| 0 <= v < h && #[trigger] visible(*img, x1 as int, v),
                found ==> exists|u: int| 0 <= u < w && #[trigger] visible(*img, u, y0 as int),
                found ==> exists|u: int| 0 <= u < w && #[trigger] visible(*img, u, y1 as int),
                forall|u: int, v: int|
                    (inside(u, v, w as int, y as int) || (v == y && 0 <= u < x))
                        && #[trigger] visible(*img, u, v) ==> found && x0 <= u <= x1 && y0 <= v
                        <= y1,
            decreases w - x,
        {
            proof {
                lemma_index(w as int, h as int, x as int, y as int, 3);
                assert(0 <= y * w <= y * w + x) by (nonlinear_arith);
            }
            if img.data[(y * w + x) * 4 + 3] > 8 {
                assert(visible(*img, x as int, y as int));
                if !found {
                    found = true;
                    x0 = x;
                    y0 = y;
                    x1 = x;
                    y1 = y;
                } else {
                    if x < x0 {
                        x0 = x;
                    }
                    if x > x1 {
                        x1 = x;
                    }
                    if y > y1 {
                        y1 = y;
                    }
                    if y < y0 {
                        y0 = y;
                    }
                }
            }
            x += 1;
        }
        y += 1;
    }
    if found {
        assert(has_content(*img)) by {
            let v = choose|v: int| 0 <= v < h && #[trigger] visible(*img, x0 as int, v);
            assert(inside(x0 as int, v, w as int, h as int));
        }
        (x0, y0, x1, y1)
    } else {
        (0, 0, w - 1, h - 1)
    }
}

/// The smallest rectangle around two.
pub fn union_box(a: Frame, b: Frame) -> (r: Frame)
    ensures
        r.0 == (if a.0 < b.0 {
            a.0
        } else {
            b.0
        }),
        r.1 == (if a.1 < b.1 {
            a.1
        } else {
            b.1
        }),
        r.2 == (if a.2 > b.2 {
            a.2
        } else {
            b.2
        }),
        r.3 == (if a.3 > b.3 {
            a.3
        } else {
            b.3
        }),
{
    (
        if a.0 < b.0 {
            a.0
        } else {
            b.0
        },
        if a.1 < b.1 {
            a.1
        } else {
            b.1
        },
        if a.2 > b.2 {
            a.2
        } else {
            b.2
        },
        if a.3 > b.3 {
            a.3
        } else {
            b.3
        },
    )
}

// ── cutting ───────────────────────────────────────────────────────────────
/// The samples of a rectangle of a picture `w` points wide.
pub open spec fn cropped(data: Seq<u8>, w: int, b: Frame) -> Seq<u8> {
    let bw = b.2 - b.0 + 1;
    let bh = b.3 - b.1 + 1;
    Seq::new(
        (bw * bh * 4) as nat,
        |i: int| data[(((i / 4) / bw + b.1) * w + (i / 4) % bw + b.0) * 4 + i % 4],
    )
}

/// Cuts a rectangle out of a picture.
pub fn crop(img: &Image, b: Frame) -> (r: Image)
    requires
        img.ok(),
        within(b, img.w as int, img.h as int),
    ensures
        r.ok(),
        r.w == b.2 - b.0 + 1,
        r.h == b.3 - b.1 + 1,
        r.data@ == cropped(img.data@, img.w as int, b),
{
    let total: usize = img.data.len();
    let bw: usize = b.2 - b.0 + 1;
    let bh: usize = b.3 - b.1 + 1;
    let ghost want = cropped(img.data@, img.w as int, b);
    assert(bw * bh <= img.w * img.h) by (nonlinear_arith)
        requires
            bw <= img.w,
            bh <= img.h,
    ;
    let count: usize = bw * bh;
    let mut data: Vec<u8> = Vec::new();
    let mut p: usize = 0;
    while p < count
        invariant
            img.ok(),
            total == img.data@.len(),
            within(b, img.w as int, img.h as int),
            bw == b.2 - b.0 + 1,
            bh == b.3 - b.1 + 1,
            count == bw * bh,
            count * 4 <= total,
            p <= count,
            want == cropped(img.data@, img.w as int, b),
            want.len() == count * 4,
            data@ == want.take(p * 4),
        decreases count - p,
    {
        let x: usize = p % bw;
        let y: usize = p / bw;
        proof {
            lemma_place(bw as int, bh as int, p * 4);
            assert((p * 4) / 4 == p);
            lemma_index(img.w as int, img.h as int, x + b.0, y + b.1, 0);
            assert(0 <= (y + b.1) * img.w <= (y + b.1) * img.w + (x + b.0)) by (nonlinear_arith)
                requires
                    x >= 0,
                    y >= 0,
            ;
        }
        let at: usize = ((y + b.1) * img.w + (x + b.0)) * 4;
        data.push(img.data[at]);
        data.push(img.data[at + 1]);
        data.push(img.data[at + 2]);
        data.push(img.data[at + 3]);
        proof {
            assert(data@ =~= want.take(p * 4 + 4)) by {
                assert((p * 4 + 1) / 4 == p && (p * 4 + 1) % 4 == 1);
                assert((p * 4 + 2) / 4 == p && (p * 4 + 2) % 4 == 2);
                assert((p * 4 + 3) / 4 == p && (p * 4 + 3) % 4 == 3);
            }
        }
        p += 1;
    }
    assert(want.take(count * 4) =~= want);
    Image { w: bw, h: bh, data }
}

// ── shrinking ─────────────────────────────────────────────────────────────
/// The sum of a sample over part of a row.
pub open spec fn row_sum(data: Seq<u8>, w: int, y: int, x0: int, x1: int, k: int) -> int
    decreases x1 - x0,
{
    if x1 <= x0 {
        0
    } else {
        row_sum(data, w, y, x0, x1 - 1, k) + data[(y * w + x1 - 1) * 4 + k]
    }
}

/// The sum of a sample over a rectangle.
pub open spec fn area_sum(
    data: Seq<u8>,
    w: int,
    x0: int,
    x1: int,
    y0: int,
    y1: int,
    k: int,
) -> int
    decreases y1 - y0,
{
    if y1 <= y0 {
        0
    } else {
        area_sum(data, w, x0, x1, y0, y1 - 1, k) + row_sum(data, w, y1 - 1, x0, x1, k)
    }
}

/// The mean of a sample over a rectangle, rounded down.
pub open spec fn area_mean(
    data: Seq<u8>,
    w: int,
    xs: (usize, usize),
    ys: (usize, usize),
    k: int,
) -> u8 {
    (area_sum(data, w, xs.0 as int, xs.1 as int, ys.0 as int, ys.1 as int, k) / ((xs.1 - xs.0) * (
    ys.1 - ys.0))) as u8
}

proof fn lemma_row_sum(data: Seq<u8>, w: int, y: int, x0: int, x1: int, k: int)
    requires
        x0 <= x1,
    ensures
        0 <= row_sum(data, w, y, x0, x1, k) <= 255 * (x1 - x0),
    decreases x1 - x0,
{
    if x0 < x1 {
        lemma_row_sum(data, w, y, x0, x1 - 1, k);
    }
}

proof fn lemma_area_sum(data: Seq<u8>, w: int, x0: int, x1: int, y0: int, y1: int, k: int)
    requires
        x0 <= x1,
        y0 <= y1,
    ensures
        0 <= area_sum(data, w, x0, x1, y0, y1, k) <= 255 * ((x1 - x0) * (y1 - y0)),
    decreases y1 - y0,
{
    if y0 < y1 {
        lemma_area_sum(data, w, x0, x1, y0, y1 - 1, k);
        lemma_row_sum(data, w, y1 - 1, x0, x1, k);
        assert((x1 - x0) * (y1 - y0) == (x1 - x0) * (y1 - 1 - y0) + (x1 - x0)) by (nonlinear_arith);
    } else {
        assert((x1 - x0) * (y1 - y0) == 0) by (nonlinear_arith)
            requires
                y1 == y0,
        ;
    }
}

/// The spans lie within `n` positions and none is empty.
pub open spec fn spans_ok(spans: Seq<(usize, usize)>, n: int) -> bool {
    forall|i: int| 0 <= i < spans.len() ==> (#[trigger] spans[i]).0 < spans[i].1 <= n
}

/// A picture of means: each point is the mean over one span of columns and one
/// of rows.
pub open spec fn averaged(
    data: Seq<u8>,
    w: int,
    xs: Seq<(usize, usize)>,
    ys: Seq<(usize, usize)>,
) -> Seq<u8> {
    Seq::new(
        (xs.len() * ys.len() * 4) as nat,
        |i: int|
            area_mean(
                data,
                w,
                xs[(i / 4) % (xs.len() as int)],
                ys[(i / 4) / (xs.len() as int)],
                i % 4,
            ),
    )
}

fn mean_of(img: &Image, xs: (usize, usize), ys: (usize, usize), k: usize) -> (r: u8)
    requires
        img.ok(),
        xs.0 < xs.1 <= img.w,
        ys.0 < ys.1 <= img.h,
        k < 4,
    ensures
        r == area_mean(img.data@, img.w as int, xs, ys, k as int),
{
    let total: usize = img.data.len();
    let mut sum: u128 = 0;
    let mut y: usize = ys.0;
    let ghost dx = xs.1 - xs.0;
    while y < ys.1
        invariant
            img.ok(),
            total == img.data@.len(),
            xs.0 < xs.1 <= img.w,
            ys.0 <= y <= ys.1 <= img.h,
            k < 4,
            dx == xs.1 - xs.0,
            sum == area_sum(
                img.data@,
                img.w as int,
                xs.0 as int,
                xs.1 as int,
                ys.0 as int,
                y as int,
                k as int,
            ),
        decreases ys.1 - y,
    {
        let ghost before = sum as int;
        proof {
            lemma_area_sum(
                img.data@,
                img.w as int,
                xs.0 as int,
                xs.1 as int,
                ys.0 as int,
                y as int,
                k as int,
            );
            assert(dx * (y - ys.0) <= img.w * img.h) by (nonlinear_arith)
                requires
                    0 <= dx <= img.w,
                    0 <= y - ys.0 <= img.h,
            ;
        }
        let mut x: usize = xs.0;
        while x < xs.1
            invariant
                img.ok(),
                total == img.data@.len(),
                xs.0 <= x <= xs.1 <= img.w,
                y < img.h,
                k < 4,
                before <= 255 * (img.w * img.h),
                sum == before + row_sum(
                    img.data@,
                    img.w as int,
                    y as int,
                    xs.0 as int,
                    x as int,
                    k as int,
                ),
            decreases xs.1 - x,
        {
            proof {
                lemma_index(img.w as int, img.h as int, x as int, y as int, k as int);
                assert(0 <= y * img.w <= y * img.w + x) by (nonlinear_arith);
                lemma_row_sum(
                    img.data@,
                    img.w as int,
                    y as int,
                    xs.0 as int,
                    x as int,
                    k as int,
                );
            }
            sum += img.data[(y * img.w + x) * 4 + k] as u128;
            x += 1;
        }
        y += 1;
    }
    proof {
        lemma_area_sum(
            img.data@,
            img.w as int,
            xs.0 as int,
            xs.1 as int,
            ys.0 as int,
            ys.1 as int,
            k as int,
        );
        let dy = ys.1 - ys.0;
        assert(0 < dx * dy <= img.w * img.h) by (nonlinear_arith)
            requires
                0 < dx <= img.w,
                0 < dy <= img.h,
        ;
        let s = sum as int;
        let n = dx * dy;
        assert(0 <= s / n <= 255) by (nonlinear_arith)
            requires
                0 <= s <= 255 * n,
                n > 0,
        ;
    }
    let n: usize = (xs.1 - xs.0) * (ys.1 - ys.0);
    (sum / n as u128) as u8
}

/// Shrinks a picture: each point of the new one is the mean over one span of
/// columns and one of rows.
pub fn average(img: &Image, xs: &Vec<(usize, usize)>, ys: &Vec<(usize, usize)>) -> (r: Image)
    requires
        img.ok(),
        xs@.len() > 0,
        ys@.len() > 0,
        xs@.len() * ys@.len() * 4 <= usize::MAX,
        spans_ok(xs@, img.w as int),
        spans_ok(ys@, img.h as int),
    ensures
        r.ok(),
        r.w == xs@.len(),
        r.h == ys@.len(),
        r.data@ == averaged(img.data@, img.w as int, xs@, ys@),
{
    let w: usize = xs.len();
    let h: usize = ys.len();
    let ghost want = averaged(img.data@, img.w as int, xs@, ys@);
    assert(0 <= w * h <= w * h * 4) by (nonlinear_arith);
    let count: usize = w * h;
    let mut data: Vec<u8> = Vec::new();
    let mut p: usize = 0;
    while p < count
        invariant
            img.ok(),
            w == xs@.len(),
            h == ys@.len(),
            w > 0,
            h > 0,
            count == w * h,
            spans_ok(xs@, img.w as int),
            spans_ok(ys@, img.h as int),
            p <= count,
            count * 4 <= usize::MAX,
            want == averaged(img.data@, img.w as int, xs@, ys@),
            want.len() == count * 4,
            data@ == want.take(p * 4),
        decreases count - p,
    {
        let x: usize = p % w;
        proof {
            lemma_place(w as int, h as int, p * 4);
            assert((p * 4) / 4 == p);
        }
        let y: usize = p / w;
        data.push(mean_of(img, xs[x], ys[y], 0));
        data.push(mean_of(img, xs[x], ys[y], 1));
        data.push(mean_of(img, xs[x], ys[y], 2));
        data.push(mean_of(img, xs[x], ys[y], 3));
        proof {
            assert(data@ =~= want.take(p * 4 + 4)) by {
                assert((p * 4 + 1) / 4 == p && (p * 4 + 1) % 4 == 1);
                assert((p * 4 + 2) / 4 == p && (p * 4 + 2) % 4 == 2);
                assert((p * 4 + 3) / 4 == p && (p * 4 + 3) % 4 == 3);
            }
        }
        p += 1;
    }
    assert(want.take(count * 4) =~= want);
    Image { w, h, data }
}

/// `i` times `n` in single precision.
pub open spec fn times(i: int, n: int) -> int {
    single(single(i) * single(n))
}

/// The positions that part `i` of `to` equal parts of `n` positions touches, found in
/// single precision: at least one, and none behind the last unless the part begins
/// there.
pub open spec fn span_of(n: int, to: int, i: int) -> (int, int) {
    let a = quotient_down(times(i, n), single(to));
    let c = quotient_up(times(i + 1, n), single(to));
    let b = if c < n {
        c
    } else {
        n
    };
    (
        a,
        if a + 1 < b {
            b
        } else {
            a + 1
        },
    )
}

pub open spec fn are_spans(spans: Seq<(usize, usize)>, n: int, to: int) -> bool {
    &&& spans.len() == to
    &&& forall|i: int|
        0 <= i < to ==> (#[trigger] spans[i]).0 == span_of(n, to, i).0 && spans[i].1 == span_of(
            n,
            to,
            i,
        ).1
}

/// No part begins behind the last position.
pub open spec fn spans_within(n: int, to: int) -> bool {
    forall|i: int| 0 <= i < to ==> (#[trigger] span_of(n, to, i)).0 < n
}

/// In up to a million parts, single precision is fine enough for every part to begin
/// within the positions.
pub proof fn law_spans_within(n: int, to: int)
    requires
        0 < n,
        0 < to <= 0x10_0000,
    ensures
        spans_within(n, to),
{
    assert forall|i: int| 0 <= i < to implies (#[trigger] span_of(n, to, i)).0 < n by {
        let s = STEPS as int;
        let m = single(n);
        lemma_single(n);
        let x = i * m;
        assert(0 <= x) by (nonlinear_arith)
            requires
                0 <= i,
                0 <= m,
                x == i * m,
        ;
        let p = single(x);
        lemma_single(x);
        let a = quotient_down(p, to);
        lemma_quotient_down(p, to);
        assert(a == span_of(n, to, i).0);
        if a >= n {
            let s1 = s + 1;
            assert(n * to * s <= p * s1) by (nonlinear_arith)
                requires
                    a * to * s <= p * s1,
                    a >= n,
                    0 < to,
                    0 < s,
            ;
            assert(n * to * s * s <= x * s1 * s1) by (nonlinear_arith)
                requires
                    n * to * s <= p * s1,
                    p * s <= x * s1,
                    0 < s,
                    0 < s1,
            ;
            assert(x * s <= i * (n * s1)) by (nonlinear_arith)
                requires
                    x == i * m,
                    m * s <= n * s1,
                    0 <= i,
            ;
            assert(n * to * s * s * s <= i * (n * s1) * s1 * s1) by (nonlinear_arith)
                requires
                    n * to * s * s <= x * s1 * s1,
                    x * s <= i * (n * s1),
                    0 < s,
                    0 < s1,
            ;
            assert(to * (s * s * s) <= i * (s1 * s1 * s1)) by (nonlinear_arith)
                requires
                    n * to * s * s * s <= i * (n * s1) * s1 * s1,
                    0 < n,
            ;
            assert(i * (s1 * s1 * s1) <= (to - 1) * (s1 * s1 * s1)) by (nonlinear_arith)
                requires
                    i <= to - 1,
                    0 < s1,
            ;
            assert(s * s * s == 0x100_0000_0000_0000_0000);
            assert(s1 * s1 * s1 == 0x100_0003_0000_0300_0001);
            assert(to * 0x100_0000_0000_0000_0000 <= (to - 1) * 0x100_0003_0000_0300_0001);
        }
    }
}

/// Up to a product that single precision holds exactly, the parts are those of whole
/// numbers: from the quotient rounded down to the next one rounded up.
pub proof fn law_spans_are_exact(n: int, to: int, i: int)
    requires
        0 < n,
        0 < to,
        n * to < STEPS,
        0 <= i < to,
    ensures
        span_of(n, to, i) == (i * n / to, ((i + 1) * n + to - 1) / to),
{
    let p = i * n;
    let q = (i + 1) * n;
    assert(0 <= p < q <= n * to && n <= n * to && to <= n * to && q == p + n) by (nonlinear_arith)
        requires
            p == i * n,
            q == (i + 1) * n,
            0 < n,
            0 < to,
            0 <= i < to,
    ;
    lemma_quotients_exact(p, to);
    lemma_quotients_exact(q, to);
    let a = p / to;
    let b = (q + to - 1) / to;
    assert(a < b <= n) by (nonlinear_arith)
        requires
            a == p / to,
            b == (q + to - 1) / to,
            q == p + n,
            q <= n * to,
            0 < n,
            0 < to,
            0 <= p,
    ;
}

/// `i` times `n` in single precision.
fn product(i: u128, n: u128) -> (r: u128)
    requires
        i <= u32::MAX,
        n <= u32::MAX,
    ensures
        r == times(i as int, n as int),
        r <= 0x10_0000_0000_0000_0000,
{
    let a: u128 = nearest_single(i);
    let b: u128 = nearest_single(n);
    assert(a * b <= 0x4_0000_0000_0000_0000) by (nonlinear_arith)
        requires
            0 <= a <= 0x2_0000_0000,
            0 <= b <= 0x2_0000_0000,
    ;
    nearest_single(a * b)
}

/// The positions that each of `to` equal parts of `n` positions touches.
pub fn spans(n: usize, to: usize) -> (r: Vec<(usize, usize)>)
    requires
        0 < n <= u32::MAX,
        0 < to <= u32::MAX,
        spans_within(n as int, to as int),
    ensures
        are_spans(r@, n as int, to as int),
        spans_ok(r@, n as int),
{
    let mut r: Vec<(usize, usize)> = Vec::new();
    let d: u128 = nearest_single(to as u128);
    let mut i: usize = 0;
    while i < to
        invariant
            0 < n <= u32::MAX,
            0 < to <= u32::MAX,
            spans_within(n as int, to as int),
            d == single(to as int),
            0 < d <= 0x2_0000_0000,
            i <= to,
            r@.len() == i,
            spans_ok(r@, n as int),
            forall|k: int|
                0 <= k < i ==> (#[trigger] r@[k]).0 == span_of(n as int, to as int, k).0 && r@[k].1
                    == span_of(n as int, to as int, k).1,
        decreases to - i,
    {
        let from: u128 = divide_down(product(i as u128, n as u128), d);
        let up: u128 = divide_up(product(i as u128 + 1, n as u128), d);
        assert(from == span_of(n as int, to as int, i as int).0);
        assert(from < n);
        let a: usize = from as usize;
        let b: usize = if up < n as u128 {
            up as usize
        } else {
            n
        };
        r.push(
            (
                a,
                if a + 1 < b {
                    b
                } else {
                    a + 1
                },
            ),
        );
        i += 1;
    }
    r
}

/// A picture brought to another size by taking means; one of that size already
/// is left as it is.
pub open spec fn is_resized(src: Image, r: Image, w: int, h: int) -> bool {
    &&& r.w == w
    &&& r.h == h
    &&& if src.w == w && src.h == h {
        r.data@ == src.data@
    } else {
        exists|xs: Seq<(usize, usize)>, ys: Seq<(usize, usize)>|
            #![trigger are_spans(xs, src.w as int, w), are_spans(ys, src.h as int, h)]
            are_spans(xs, src.w as int, w) && are_spans(ys, src.h as int, h) && r.data@ == averaged(
                src.data@,
                src.w as int,
                xs,
                ys,
            )
    }
}

/// Brings a picture to another size by taking means.
pub fn resize(src: &Image, w: usize, h: usize) -> (r: Image)
    requires
        src.ok(),
        w > 0,
        h > 0,
        w * h * 4 <= usize::MAX,
        src.w <= u32::MAX,
        src.h <= u32::MAX,
        w <= u32::MAX,
        h <= u32::MAX,
        (src.w, src.h) != (w, h) ==> spans_within(src.w as int, w as int) && spans_within(
            src.h as int,
            h as int,
        ),
    ensures
        r.ok(),
        is_resized(*src, r, w as int, h as int),
{
    if src.w == w && src.h == h {
        return src.copy();
    }
    let xs = spans(src.w, w);
    let ys = spans(src.h, h);
    average(src, &xs, &ys)
}

// ── placing ───────────────────────────────────────────────────────────────
/// A picture of `tw` by `th` points in the middle of a transparent square.
pub open spec fn centred(data: Seq<u8>, tw: int, th: int, size: int) -> Seq<u8> {
    let ox = (size - tw) / 2;
    let oy = (size - th) / 2;
    Seq::new(
        (size * size * 4) as nat,
        |i: int|
            {
                let x = (i / 4) % size - ox;
                let y = (i / 4) / size - oy;
                if inside(x, y, tw, th) {
                    data[(y * tw + x) * 4 + i % 4]
                } else {
                    0u8
                }
            },
    )
}

/// Puts a picture in the middle of a transparent square.
pub fn centre(img: &Image, size: usize) -> (r: Image)
    requires
        img.ok(),
        img.w <= size,
        img.h <= size,
        size * size * 4 <= usize::MAX,
    ensures
        r.ok(),
        r.w == size,
        r.h == size,
        r.data@ == centred(img.data@, img.w as int, img.h as int, size as int),
{
    let ox: usize = (size - img.w) / 2;
    let oy: usize = (size - img.h) / 2;
    let ghost want = centred(img.data@, img.w as int, img.h as int, size as int);
    assert(0 <= size * size <= size * size * 4) by (nonlinear_arith);
    let total: usize = img.data.len();
    let count: usize = size * size;
    let mut data: Vec<u8> = Vec::new();
    let mut p: usize = 0;
    while p < count
        invariant
            img.ok(),
            total == img.data@.len(),
            0 < img.w <= size,
            0 < img.h <= size,
            ox == (size - img.w) / 2,
            oy == (size - img.h) / 2,
            count == size * size,
            p <= count,
            count * 4 <= usize::MAX,
            want == centred(img.data@, img.w as int, img.h as int, size as int),
            want.len() == count * 4,
            data@ == want.take(p * 4),
        decreases count - p,
    {
        let x: usize = p % size;
        let y: usize = p / size;
        proof {
            lemma_place(size as int, size as int, p * 4);
            assert((p * 4) / 4 == p);
        }
        if ox <= x && x - ox < img.w && oy <= y && y - oy < img.h {
            proof {
                lemma_index(img.w as int, img.h as int, x - ox, y - oy, 0);
                let u = x - ox;
                let v = y - oy;
                assert(0 <= v * img.w <= v * img.w + u) by (nonlinear_arith)
                    requires
                        u >= 0,
                        v >= 0,
                ;
            }
            let at: usize = ((y - oy) * img.w + (x - ox)) * 4;
            data.push(img.data[at]);
            data.push(img.data[at + 1]);
            data.push(img.data[at + 2]);
            data.push(img.data[at + 3]);
        } else {
            data.push(0);
            data.push(0);
            data.push(0);
            data.push(0);
        }
        proof {
            assert(data@ =~= want.take(p * 4 + 4)) by {
                assert((p * 4 + 1) / 4 == p && (p * 4 + 1) % 4 == 1);
                assert((p * 4 + 2) / 4 == p && (p * 4 + 2) % 4 == 2);
                assert((p * 4 + 3) / 4 == p && (p * 4 + 3) % 4 == 3);
            }
        }
        p += 1;
    }
    assert(want.take(count * 4) =~= want);
    Image { w: size, h: size, data }
}

// ── laws ──────────────────────────────────────────────────────────────────
/// The rectangle around two contains both, and every rectangle that contains
/// both contains it.
pub proof fn law_union_box(a: Frame, b: Frame, r: Frame, c: Frame)
    requires
        r.0 == (if a.0 < b.0 {
            a.0
        } else {
            b.0
        }),
        r.1 == (if a.1 < b.1 {
            a.1
        } else {
            b.1
        }),
        r.2 == (if a.2 > b.2 {
            a.2
        } else {
            b.2
        }),
        r.3 == (if a.3 > b.3 {
            a.3
        } else {
            b.3
        }),
    ensures
        contains_box(r, a),
        contains_box(r, b),
        contains_box(c, a) && contains_box(c, b) ==> contains_box(c, r),
{
}

/// The first rectangle contains the second.
pub open spec fn contains_box(outer: Frame, inner: Frame) -> bool {
    outer.0 <= inner.0 && outer.1 <= inner.1 && inner.2 <= outer.2 && inner.3 <= outer.3
}

/// There is only one smallest rectangle around the visible points.
pub proof fn law_tight_box_is_one(img: Image, a: Frame, b: Frame)
    requires
        is_tight(img, a),
        is_tight(img, b),
    ensures
        a == b,
{
    let (w, h) = (img.w as int, img.h as int);
    let y = choose|y: int| 0 <= y < h && #[trigger] visible(img, a.0 as int, y);
    assert(inside(a.0 as int, y, w, h));
    let y = choose|y: int| 0 <= y < h && #[trigger] visible(img, b.0 as int, y);
    assert(inside(b.0 as int, y, w, h));
    let y = choose|y: int| 0 <= y < h && #[trigger] visible(img, a.2 as int, y);
    assert(inside(a.2 as int, y, w, h));
    let y = choose|y: int| 0 <= y < h && #[trigger] visible(img, b.2 as int, y);
    assert(inside(b.2 as int, y, w, h));
    let x = choose|x: int| 0 <= x < w && #[trigger] visible(img, x, a.1 as int);
    assert(inside(x, a.1 as int, w, h));
    let x = choose|x: int| 0 <= x < w && #[trigger] visible(img, x, b.1 as int);
    assert(inside(x, b.1 as int, w, h));
    let x = choose|x: int| 0 <= x < w && #[trigger] visible(img, x, a.3 as int);
    assert(inside(x, a.3 as int, w, h));
    let x = choose|x: int| 0 <= x < w && #[trigger] visible(img, x, b.3 as int);
    assert(inside(x, b.3 as int, w, h));
}

} // verus!
