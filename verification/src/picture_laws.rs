//! What becomes of the points of a picture that is cut, placed, shrunk, coloured or
//! softened.

use crate::ico::{
    bitmap, bitmap_points, bodies, directory, icon_file, law_parts_are_where_said, le16, le32,
    lemma_bodies_grow, line, mask_row, offset, small, zeros, Part,
};
use crate::icons::{around, bare, icon_pixel, is_common, is_content, shown_opacity, tinted};
use crate::image::{
    area_mean, area_sum, averaged, centred, cropped, has_content, inside, row_sum, visible, within,
    Frame, Image,
};
use crate::paint::{
    blurred, column, lemma_index, passed, passed_times, row, smoothed, span_sum,
};
use crate::pixels::{dimmed, freed, overlay_pixel, packed, straightened};
use vstd::arithmetic::div_mod::lemma_fundamental_div_mod_converse;
use vstd::prelude::*;

verus! {

// ── cutting and placing ───────────────────────────────────────────────────
/// Every point of a cut picture is the point that stood as far from the corner of the
/// rectangle.
pub proof fn law_cut_points_stay(img: Image, r: Image, b: Frame, x: int, y: int, k: int)
    requires
        img.ok(),
        within(b, img.w as int, img.h as int),
        r.w == b.2 - b.0 + 1,
        r.h == b.3 - b.1 + 1,
        r.data@ == cropped(img.data@, img.w as int, b),
        0 <= x < r.w,
        0 <= y < r.h,
        0 <= k < 4,
    ensures
        r.at(x, y, k) == img.at(b.0 + x, b.1 + y, k),
{
    lemma_index(r.w as int, r.h as int, x, y, k);
}

/// A placed picture is there point for point, with the same margin on both sides or one
/// point more on the far side, and all else is transparent.
pub proof fn law_placed_in_the_middle(img: Image, r: Image, x: int, y: int, k: int) -> (margin: (
    int,
    int,
))
    requires
        img.ok(),
        0 < img.w <= r.w,
        0 < img.h <= r.h,
        r.h == r.w,
        r.data@ == centred(img.data@, img.w as int, img.h as int, r.w as int),
        0 <= x < r.w,
        0 <= y < r.h,
        0 <= k < 4,
    ensures
        margin.0 <= r.w - img.w - margin.0 <= margin.0 + 1,
        margin.1 <= r.h - img.h - margin.1 <= margin.1 + 1,
        r.at(x, y, k) == (if margin.0 <= x < margin.0 + img.w && margin.1 <= y < margin.1 + img.h {
            img.at(x - margin.0, y - margin.1, k)
        } else {
            0
        }),
{
    lemma_index(r.w as int, r.h as int, x, y, k);
    ((r.w - img.w) / 2, (r.h - img.h) / 2)
}

/// The content of a picture: every point more opaque than 8 lies within the rectangle,
/// each side of which touches such a point. Without such points it is the whole picture.
pub proof fn law_content_of_a_picture(img: Image, b: Frame, x: int, y: int)
    requires
        img.ok(),
        is_content(img, b),
        0 <= x < img.w,
        0 <= y < img.h,
        img.at(x, y, 3) > 8,
    ensures
        b.0 <= x <= b.2 < img.w,
        b.1 <= y <= b.3 < img.h,
        exists|v: int| 0 <= v < img.h && #[trigger] img.at(b.0 as int, v, 3) > 8,
        exists|v: int| 0 <= v < img.h && #[trigger] img.at(b.2 as int, v, 3) > 8,
        exists|u: int| 0 <= u < img.w && #[trigger] img.at(u, b.1 as int, 3) > 8,
        exists|u: int| 0 <= u < img.w && #[trigger] img.at(u, b.3 as int, 3) > 8,
{
    assert(inside(x, y, img.w as int, img.h as int) && visible(img, x, y));
    assert(has_content(img));
    let v = choose|v: int| 0 <= v < img.h && #[trigger] visible(img, b.0 as int, v);
    assert(img.at(b.0 as int, v, 3) > 8);
    let v = choose|v: int| 0 <= v < img.h && #[trigger] visible(img, b.2 as int, v);
    assert(img.at(b.2 as int, v, 3) > 8);
    let u = choose|u: int| 0 <= u < img.w && #[trigger] visible(img, u, b.1 as int);
    assert(img.at(u, b.1 as int, 3) > 8);
    let u = choose|u: int| 0 <= u < img.w && #[trigger] visible(img, u, b.3 as int);
    assert(img.at(u, b.3 as int, 3) > 8);
}

/// A picture without a point more opaque than 8 is content as a whole.
pub proof fn law_empty_picture_is_all_content(img: Image, b: Frame)
    requires
        img.ok(),
        is_content(img, b),
        forall|x: int, y: int|
            0 <= x < img.w && 0 <= y < img.h ==> #[trigger] img.at(x, y, 3) <= 8,
    ensures
        b == (0usize, 0usize, (img.w - 1) as usize, (img.h - 1) as usize),
{
    if has_content(img) {
        let (x, y) = choose|x: int, y: int|
            inside(x, y, img.w as int, img.h as int) && #[trigger] visible(img, x, y);
        assert(img.at(x, y, 3) <= 8);
    }
}

/// The common frame holds the content of both pictures, and each of its sides is a side of
/// one of them.
pub proof fn law_common_frame_holds_both(a: Image, b: Image, f: Frame)
    requires
        is_common(a, b, f),
    ensures
        exists|x: Frame, y: Frame|
            #![trigger is_content(a, x), is_content(b, y)]
            is_content(a, x) && is_content(b, y) && f.0 <= x.0 && f.0 <= y.0 && (f.0 == x.0 || f.0
                == y.0) && f.1 <= x.1 && f.1 <= y.1 && (f.1 == x.1 || f.1 == y.1) && x.2 <= f.2
                && y.2 <= f.2 && (f.2 == x.2 || f.2 == y.2) && x.3 <= f.3 && y.3 <= f.3 && (f.3
                == x.3 || f.3 == y.3),
{
    let (x, y) = choose|x: Frame, y: Frame|
        #![trigger is_content(a, x), is_content(b, y)]
        is_content(a, x) && is_content(b, y) && f == around(x, y);
    assert(is_content(a, x) && is_content(b, y));
}

// ── shrinking ─────────────────────────────────────────────────────────────
proof fn lemma_row_parts(data: Seq<u8>, w: int, y: int, x0: int, m: int, x1: int, k: int)
    requires
        x0 <= m <= x1,
    ensures
        row_sum(data, w, y, x0, x1, k) == row_sum(data, w, y, x0, m, k) + row_sum(
            data,
            w,
            y,
            m,
            x1,
            k,
        ),
    decreases x1 - m,
{
    if m < x1 {
        lemma_row_parts(data, w, y, x0, m, x1 - 1, k);
    }
}

/// The sum over a rectangle is the sum over its parts, however it is parted, down to single
/// samples.
pub proof fn law_sum_of_an_area(
    data: Seq<u8>,
    w: int,
    xs: (int, int, int),
    ys: (int, int, int),
    k: int,
)
    requires
        xs.0 <= xs.1 <= xs.2,
        ys.0 <= ys.1 <= ys.2,
    ensures
        area_sum(data, w, xs.0, xs.2, ys.0, ys.2, k) == area_sum(
            data,
            w,
            xs.0,
            xs.1,
            ys.0,
            ys.2,
            k,
        ) + area_sum(data, w, xs.1, xs.2, ys.0, ys.2, k),
        area_sum(data, w, xs.0, xs.2, ys.0, ys.2, k) == area_sum(
            data,
            w,
            xs.0,
            xs.2,
            ys.0,
            ys.1,
            k,
        ) + area_sum(data, w, xs.0, xs.2, ys.1, ys.2, k),
        area_sum(data, w, xs.0, xs.0 + 1, ys.0, ys.0 + 1, k) == data[(ys.0 * w + xs.0) * 4 + k],
    decreases ys.2 - ys.0,
{
    lemma_row_parts(data, w, ys.2 - 1, xs.0, xs.1, xs.2, k);
    lemma_area_of_one(data, w, xs.0, ys.0, k);
    if ys.0 < ys.2 {
        law_sum_of_an_area(data, w, xs, (ys.0, ys.0, ys.2 - 1), k);
    }
    lemma_rows_parted(data, w, xs.0, xs.2, ys.0, ys.1, ys.2, k);
}

proof fn lemma_rows_parted(
    data: Seq<u8>,
    w: int,
    x0: int,
    x1: int,
    y0: int,
    m: int,
    y1: int,
    k: int,
)
    requires
        y0 <= m <= y1,
    ensures
        area_sum(data, w, x0, x1, y0, y1, k) == area_sum(data, w, x0, x1, y0, m, k) + area_sum(
            data,
            w,
            x0,
            x1,
            m,
            y1,
            k,
        ),
    decreases y1 - m,
{
    if m < y1 {
        lemma_rows_parted(data, w, x0, x1, y0, m, y1 - 1, k);
    }
}

proof fn lemma_area_of_one(data: Seq<u8>, w: int, x: int, y: int, k: int)
    ensures
        area_sum(data, w, x, x + 1, y, y + 1, k) == data[(y * w + x) * 4 + k],
{
    reveal_with_fuel(row_sum, 2);
    reveal_with_fuel(area_sum, 2);
    assert(area_sum(data, w, x, x + 1, y, y, k) == 0);
    assert(row_sum(data, w, y, x, x, k) == 0);
}

proof fn lemma_row_bounds(data: Seq<u8>, w: int, y: int, x0: int, x1: int, k: int)
    requires
        x0 <= x1,
    ensures
        0 <= row_sum(data, w, y, x0, x1, k) <= 255 * (x1 - x0),
    decreases x1 - x0,
{
    if x0 < x1 {
        lemma_row_bounds(data, w, y, x0, x1 - 1, k);
    }
}

proof fn lemma_area_bounds(data: Seq<u8>, w: int, x0: int, x1: int, y0: int, y1: int, k: int)
    requires
        x0 <= x1,
        y0 <= y1,
    ensures
        0 <= area_sum(data, w, x0, x1, y0, y1, k) <= 255 * ((x1 - x0) * (y1 - y0)),
    decreases y1 - y0,
{
    if y0 < y1 {
        lemma_area_bounds(data, w, x0, x1, y0, y1 - 1, k);
        lemma_row_bounds(data, w, y1 - 1, x0, x1, k);
        assert((x1 - x0) * (y1 - y0) == (x1 - x0) * (y1 - 1 - y0) + (x1 - x0)) by (nonlinear_arith);
    } else {
        assert((x1 - x0) * (y1 - y0) == 0) by (nonlinear_arith)
            requires
                y0 == y1,
        ;
    }
}

/// A mean over a rectangle, times the number of its points, is the sum or less than one
/// point short of it.
pub proof fn law_mean_of_an_area(
    data: Seq<u8>,
    w: int,
    xs: (usize, usize),
    ys: (usize, usize),
    k: int,
)
    requires
        xs.0 < xs.1,
        ys.0 < ys.1,
    ensures
        ({
            let n = (xs.1 - xs.0) * (ys.1 - ys.0);
            let sum = area_sum(data, w, xs.0 as int, xs.1 as int, ys.0 as int, ys.1 as int, k);
            let mean = area_mean(data, w, xs, ys, k) as int;
            n > 0 && mean * n <= sum < (mean + 1) * n
        }),
{
    let n = (xs.1 - xs.0) * (ys.1 - ys.0);
    let sum = area_sum(data, w, xs.0 as int, xs.1 as int, ys.0 as int, ys.1 as int, k);
    lemma_area_bounds(data, w, xs.0 as int, xs.1 as int, ys.0 as int, ys.1 as int, k);
    assert(n > 0) by (nonlinear_arith)
        requires
            n == (xs.1 - xs.0) * (ys.1 - ys.0),
            xs.0 < xs.1,
            ys.0 < ys.1,
    ;
    let q = sum / n;
    assert(0 <= q <= 255 && q * n <= sum < (q + 1) * n) by (nonlinear_arith)
        requires
            q == sum / n,
            n > 0,
            0 <= sum <= 255 * n,
    ;
}

/// The point in column `x` and row `y` of a picture of means is the mean over span `x` of
/// the columns and span `y` of the rows.
pub proof fn law_each_point_is_a_mean(
    data: Seq<u8>,
    w: int,
    xs: Seq<(usize, usize)>,
    ys: Seq<(usize, usize)>,
    x: int,
    y: int,
    k: int,
)
    requires
        0 <= x < xs.len(),
        0 <= y < ys.len(),
        0 <= k < 4,
    ensures
        averaged(data, w, xs, ys).len() == xs.len() * ys.len() * 4,
        averaged(data, w, xs, ys)[(y * xs.len() + x) * 4 + k] == area_mean(data, w, xs[x], ys[y], k),
{
    lemma_index(xs.len() as int, ys.len() as int, x, y, k);
}

// ── colouring ─────────────────────────────────────────────────────────────
/// Recoloured, an opaque point has the colour itself, a transparent one none, and any
/// other the part of it that its opacity is of 255, rounded down.
pub proof fn law_new_colour(data: Seq<u8>, r: u8, g: u8, b: u8, p: int)
    requires
        0 <= p,
        4 * p + 3 < data.len(),
    ensures
        ({
            let t = tinted(data, r, g, b);
            let a = data[4 * p + 3] as int;
            &&& t.len() == data.len()
            &&& t[4 * p + 3] == a
            &&& t[4 * p] * 255 <= r * a < t[4 * p] * 255 + 255
            &&& t[4 * p + 1] * 255 <= g * a < t[4 * p + 1] * 255 + 255
            &&& t[4 * p + 2] * 255 <= b * a < t[4 * p + 2] * 255 + 255
            &&& a == 255 ==> t[4 * p] == r && t[4 * p + 1] == g && t[4 * p + 2] == b
            &&& a == 0 ==> t[4 * p] == 0 && t[4 * p + 1] == 0 && t[4 * p + 2] == 0
        }),
{
    let a = data[4 * p + 3];
    lemma_part(r, a);
    lemma_part(g, a);
    lemma_part(b, a);
    assert((4 * p) / 4 == p && (4 * p + 1) / 4 == p && (4 * p + 2) / 4 == p);
}

proof fn lemma_part(c: u8, a: u8)
    ensures
        0 <= c as int * a as int <= 255 * 255,
        0 <= c as int * a as int / 255 <= 255,
        a == 0 ==> c as int * a as int == 0,
        a == 255 ==> c as int * a as int == 255 * c,
{
    assert(0 <= c as int * a as int <= 255 * 255) by (nonlinear_arith)
        requires
            c <= 255,
            a <= 255,
    ;
    assert(a == 0 ==> c as int * a as int == 0) by (nonlinear_arith);
    assert(a == 255 ==> c as int * a as int == 255 * c) by (nonlinear_arith);
}

// ── pixels ────────────────────────────────────────────────────────────────
/// The bytes of a pixel, from the top down: opacity, red, green and blue.
pub proof fn law_bytes_of_a_pixel(a: u8, r: u8, g: u8, b: u8)
    ensures
        ({
            let p = packed(a as int, r as int, g as int, b as int);
            &&& 0 <= p <= 0xFFFF_FFFF
            &&& p / 0x100_0000 == a
            &&& p / 0x1_0000 % 256 == r
            &&& p / 256 % 256 == g
            &&& p % 256 == b
        }),
{
    lemma_bytes(a as int, r as int, g as int, b as int);
}

proof fn lemma_bytes(a: int, r: int, g: int, b: int)
    requires
        0 <= a < 256,
        0 <= r < 256,
        0 <= g < 256,
        0 <= b < 256,
    ensures
        0 <= packed(a, r, g, b) <= 0xFFFF_FFFF,
        packed(a, r, g, b) / 0x100_0000 == a,
        packed(a, r, g, b) / 0x1_0000 % 256 == r,
        packed(a, r, g, b) / 256 % 256 == g,
        packed(a, r, g, b) % 256 == b,
{
    let p = packed(a, r, g, b);
    lemma_fundamental_div_mod_converse(p, 0x100_0000, a, r * 0x1_0000 + g * 0x100 + b);
    lemma_fundamental_div_mod_converse(p, 0x1_0000, a * 0x100 + r, g * 0x100 + b);
    lemma_fundamental_div_mod_converse(p, 0x100, a * 0x1_0000 + r * 0x100 + g, b);
    lemma_fundamental_div_mod_converse(a * 0x100 + r, 0x100, a, r);
    lemma_fundamental_div_mod_converse(a * 0x1_0000 + r * 0x100 + g, 0x100, a * 0x100 + r, g);
}

/// Freed of its opacity, rounded down, a colour fills the place of its dimmed form: none
/// where there is no opacity, and full where it is as bright as the opacity or brighter.
pub proof fn law_colour_without_opacity(c: u8, a: u8)
    ensures
        0 <= bare(c, a) <= 255,
        a == 0 ==> bare(c, a) == 0,
        a == 255 ==> bare(c, a) == c,
        0 < a && a <= c ==> bare(c, a) == 255,
        0 < a && c < a ==> bare(c, a) * a <= c * 255 < (bare(c, a) + 1) * a,
{
    let (x, n) = (c as int, a as int);
    if a > 0 {
        let q = x * 255 / n;
        assert(0 <= q && q * n <= x * 255 < (q + 1) * n && (x < n ==> q <= 255) && (n <= x ==> q
            >= 255)) by (nonlinear_arith)
            requires
                q == x * 255 / n,
                n > 0,
                x >= 0,
        ;
        if a == 255 {
            assert(x * 255 / 255 == x);
        }
    }
}

/// The same to the nearest: off by half the opacity at most.
pub proof fn law_nearest_colour_without_opacity(c: u8, a: u8)
    ensures
        a == 0 ==> freed(c, a) == 0,
        a == 255 ==> freed(c, a) == c,
        0 < a && a <= c ==> freed(c, a) == 255,
        0 < a && c < a ==> -a <= 2 * (freed(c, a) * a - c * 255) <= a,
{
    let (x, n) = (c as int, a as int);
    if a > 0 {
        let m = x * 255 + n / 2;
        let q = m / n;
        assert(0 <= q && q * n <= m < q * n + n && (x < n ==> q <= 255) && (n <= x ==> q >= 255))
            by (nonlinear_arith)
            requires
                q == m / n,
                m == x * 255 + n / 2,
                n > 0,
                x >= 0,
        ;
        if a == 255 {
            assert((x * 255 + 127) / 255 == x);
        }
    }
}

/// Straight samples: the opacity stays, and each colour is freed of that of its own point.
pub proof fn law_straight_samples(data: Seq<u8>, p: int)
    requires
        0 <= p < data.len() / 4,
    ensures
        straightened(data)[4 * p + 3] == data[4 * p + 3],
        forall|k: int|
            0 <= k < 3 ==> #[trigger] straightened(data)[4 * p + k] == freed(
                data[4 * p + k],
                data[4 * p + 3],
            ),
{
    assert forall|k: int| 0 <= k < 3 implies #[trigger] straightened(data)[4 * p + k] == freed(
        data[4 * p + k],
        data[4 * p + 3],
    ) by {
        assert((4 * p + k) / 4 == p && (4 * p + k) % 4 == k);
    }
}

/// A pixel of an icon shows the opacity of the point, or 45 parts in a hundred of it where
/// it is faint, and the colours freed of the opacity that the point had.
pub proof fn law_pixel_of_an_icon(r: u8, g: u8, b: u8, a: u8, faint: bool)
    ensures
        ({
            let p = icon_pixel(r, g, b, a, faint);
            let shown = p / 0x100_0000;
            &&& !faint ==> shown == a
            &&& faint ==> shown * 100 <= a * 45 < shown * 100 + 100
            &&& p / 0x1_0000 % 256 == bare(r, a)
            &&& p / 256 % 256 == bare(g, a)
            &&& p % 256 == bare(b, a)
        }),
{
    law_colour_without_opacity(r, a);
    law_colour_without_opacity(g, a);
    law_colour_without_opacity(b, a);
    let (x, y, z) = (bare(r, a), bare(g, a), bare(b, a));
    let shown = shown_opacity(a, faint);
    assert(icon_pixel(r, g, b, a, faint) == packed(shown, x, y, z));
    lemma_bytes(shown, x, y, z);
}

/// A pixel of the overlay has the opacity of the point and its colours dimmed by it.
pub proof fn law_pixel_of_the_overlay(r: u8, g: u8, b: u8, a: u8)
    ensures
        ({
            let p = overlay_pixel(r, g, b, a);
            let (x, y, z) = (p / 0x1_0000 % 256, p / 256 % 256, p % 256);
            &&& p / 0x100_0000 == a
            &&& x * 255 <= r * a < x * 255 + 255
            &&& y * 255 <= g * a < y * 255 + 255
            &&& z * 255 <= b * a < z * 255 + 255
        }),
{
    lemma_part(r, a);
    lemma_part(g, a);
    lemma_part(b, a);
    let (x, y, z) = (dimmed(r, a), dimmed(g, a), dimmed(b, a));
    assert(overlay_pixel(r, g, b, a) == packed(a as int, x, y, z));
    lemma_bytes(a as int, x, y, z);
}

// ── softening ─────────────────────────────────────────────────────────────
/// The sum over a span is the sum over its parts; a place beyond an end counts as the
/// sample at that end.
pub proof fn law_sum_of_a_span(line: Seq<u8>, lo: int, m: int, hi: int)
    requires
        line.len() > 0,
        lo <= m <= hi,
    ensures
        span_sum(line, lo, hi) == span_sum(line, lo, m) + span_sum(line, m, hi),
        0 <= m < line.len() ==> span_sum(line, m, m + 1) == line[m],
        m < 0 ==> span_sum(line, m, m + 1) == line[0],
        m >= line.len() ==> span_sum(line, m, m + 1) == line.last(),
    decreases hi - m,
{
    reveal_with_fuel(span_sum, 2);
    assert(span_sum(line, m, m) == 0);
    if m < hi {
        law_sum_of_a_span(line, lo, m, hi - 1);
    }
}

proof fn lemma_sum_bounds(line: Seq<u8>, lo: int, hi: int)
    requires
        line.len() > 0,
        lo <= hi,
    ensures
        0 <= span_sum(line, lo, hi) <= 255 * (hi - lo),
    decreases hi - lo,
{
    if lo < hi {
        lemma_sum_bounds(line, lo, hi - 1);
    }
}

/// A softened sample is the mean of the samples up to `r` places away, rounded down. In a
/// line no longer than `r`, the far side reaches only as far as the line is long.
pub proof fn law_softened_sample(line: Seq<u8>, b: int, r: int)
    requires
        line.len() > 0,
        0 <= r,
        0 <= b < line.len(),
    ensures
        ({
            let s = smoothed(line, b, r) as int;
            let end = if r < line.len() {
                b + r + 1
            } else {
                b + line.len()
            };
            s * (2 * r + 1) <= span_sum(line, b - r, end) < (s + 1) * (2 * r + 1)
        }),
{
    let end = if r < line.len() {
        b + r + 1
    } else {
        b + line.len()
    };
    let sum = span_sum(line, b - r, end);
    let n = 2 * r + 1;
    lemma_sum_bounds(line, b - r, end);
    let q = sum / n;
    assert(0 <= q <= 255 && q * n <= sum < (q + 1) * n) by (nonlinear_arith)
        requires
            q == sum / n,
            n > 0,
            0 <= sum <= 255 * n,
    ;
}

/// Softening along the rows takes each sample from its own row and channel, and softening
/// along the columns from its own column and channel.
pub proof fn law_softened_by_lines(data: Seq<u8>, w: int, h: int, r: int, x: int, y: int, ch: int)
    requires
        0 <= x < w,
        0 <= y < h,
        0 <= ch < 4,
        data.len() == w * h * 4,
    ensures
        ({
            let own_row = Seq::new(w as nat, |i: int| data[(y * w + i) * 4 + ch]);
            let own_column = Seq::new(h as nat, |i: int| data[(i * w + x) * 4 + ch]);
            let at = (y * w + x) * 4 + ch;
            &&& passed(data, w, h, r, true)[at] == smoothed(own_row, x, r)
            &&& passed(data, w, h, r, false)[at] == smoothed(own_column, y, r)
        }),
{
    lemma_index(w, h, x, y, ch);
    assert(row(data, w, y, ch) =~= Seq::new(w as nat, |i: int| data[(y * w + i) * 4 + ch]));
    assert(column(data, w, h, x, ch) =~= Seq::new(
        h as nat,
        |i: int| data[(i * w + x) * 4 + ch],
    ));
}

/// A softened picture went three times along the rows and then the columns; with no reach
/// it is left as it is.
pub proof fn law_softened_three_times(data: Seq<u8>, w: int, h: int, r: int)
    requires
        0 <= r,
    ensures
        r == 0 ==> blurred(data, w, h, r) == data,
        r > 0 ==> ({
            let once = passed(passed(data, w, h, r, true), w, h, r, false);
            let twice = passed(passed(once, w, h, r, true), w, h, r, false);
            blurred(data, w, h, r) == passed(passed(twice, w, h, r, true), w, h, r, false)
        }),
{
    reveal_with_fuel(passed_times, 4);
}

// ── icon files ────────────────────────────────────────────────────────────
/// The number that two bytes of a file hold, the lowest first.
pub open spec fn short_at(b: Seq<u8>, at: int) -> int {
    b[at] + b[at + 1] * 0x100
}

/// The number that four bytes of a file hold, the lowest first.
pub open spec fn long_at(b: Seq<u8>, at: int) -> int {
    b[at] + b[at + 1] * 0x100 + b[at + 2] * 0x1_0000 + b[at + 3] * 0x100_0000
}

proof fn lemma_numbers_read(n: int)
    requires
        0 <= n <= 0xFFFF_FFFF,
    ensures
        le32(n).len() == 4,
        long_at(le32(n), 0) == n,
        le16(n).len() == 2,
        n <= 0xFFFF ==> short_at(le16(n), 0) == n,
{
}

/// What the head of a bitmap says: its own length, the width, the height of points and mask
/// together, one plane, 32 bits a point, no compression, and the bytes of the points. Behind
/// them lies a mask of zeros, whose rows have a bit for each point and whole groups of four
/// bytes.
pub proof fn law_head_of_a_bitmap(img: Image)
    requires
        img.ok(),
        small(img),
    ensures
        ({
            let f = bitmap(img);
            let points = img.w * img.h * 4;
            &&& long_at(f, 0) == 40
            &&& long_at(f, 4) == img.w
            &&& long_at(f, 8) == img.h * 2
            &&& short_at(f, 12) == 1
            &&& short_at(f, 14) == 32
            &&& long_at(f, 16) == 0
            &&& long_at(f, 20) == points
            &&& forall|i: int| 24 <= i < 40 ==> #[trigger] f[i] == 0
            &&& forall|i: int| 40 + points <= i < f.len() ==> #[trigger] f[i] == 0
            &&& f.len() == 40 + points + mask_row(img.w as int) * img.h
            &&& mask_row(img.w as int) % 4 == 0
            &&& img.w <= mask_row(img.w as int) * 8 < img.w + 32
        }),
{
    let (w, h) = (img.w as int, img.h as int);
    assert(0 <= w * h * 4 <= 0xFFFF_FFFF) by (nonlinear_arith)
        requires
            0 <= w <= 0x7FFF,
            0 <= h <= 0x7FFF,
    ;
    assert(0 <= mask_row(w) * h) by (nonlinear_arith)
        requires
            0 <= mask_row(w),
            0 <= h,
    ;
    lemma_numbers_read(40);
    lemma_numbers_read(w);
    lemma_numbers_read(h * 2);
    lemma_numbers_read(1);
    lemma_numbers_read(32);
    lemma_numbers_read(0);
    lemma_numbers_read(w * h * 4);
    let f = bitmap(img);
    assert(f.subrange(0, 4) =~= le32(40));
    assert(f.subrange(4, 8) =~= le32(w));
    assert(f.subrange(8, 12) =~= le32(h * 2));
    assert(f.subrange(12, 14) =~= le16(1));
    assert(f.subrange(14, 16) =~= le16(32));
    assert(f.subrange(16, 20) =~= le32(0));
    assert(f.subrange(20, 24) =~= le32(w * h * 4));
    assert(f.subrange(24, 40) =~= zeros(16));
    assert forall|i: int| 24 <= i < 40 implies #[trigger] f[i] == 0 by {
        assert(f[i] == f.subrange(24, 40)[i - 24]);
    }
    lemma_ends(f, 0);
    lemma_ends(f, 4);
    lemma_ends(f, 8);
    lemma_ends(f, 16);
    lemma_ends(f, 20);
    assert(f[12] == f.subrange(12, 14)[0] && f[13] == f.subrange(12, 14)[1]);
    assert(f[14] == f.subrange(14, 16)[0] && f[15] == f.subrange(14, 16)[1]);
}

proof fn lemma_ends(f: Seq<u8>, at: int)
    requires
        0 <= at,
        at + 4 <= f.len(),
    ensures
        long_at(f, at) == long_at(f.subrange(at, at + 4), 0),
{
}

/// In a bitmap the rows stand from the lowest up, and a point is its blue, green and red,
/// freed of the opacity, and the opacity.
pub proof fn law_points_of_a_bitmap(img: Image, x: int, y: int)
    requires
        img.ok(),
        small(img),
        0 <= x < img.w,
        0 <= y < img.h,
    ensures
        ({
            let f = bitmap(img);
            let at = 40 + ((img.h - 1 - y) * img.w + x) * 4;
            let a = img.at(x, y, 3);
            &&& 40 <= at
            &&& at + 4 <= f.len()
            &&& f[at] == bare(img.at(x, y, 2), a)
            &&& f[at + 1] == bare(img.at(x, y, 1), a)
            &&& f[at + 2] == bare(img.at(x, y, 0), a)
            &&& f[at + 3] == a
        }),
{
    law_head_of_a_bitmap(img);
    let (w, h) = (img.w as int, img.h as int);
    let v = h - 1 - y;
    lemma_index(w, h, x, v, 0);
    lemma_index(w, h, x, v, 1);
    lemma_index(w, h, x, v, 2);
    lemma_index(w, h, x, v, 3);
    let points = bitmap_points(img);
    let f = bitmap(img);
    assert(0 <= mask_row(w) * h) by (nonlinear_arith)
        requires
            0 <= mask_row(w),
            0 <= h,
    ;
    assert(f.subrange(40, 40 + w * h * 4) =~= points);
    let p = (v * w + x) * 4;
    let a = img.at(x, y, 3);
    law_colour_without_opacity(img.at(x, y, 0), a);
    law_colour_without_opacity(img.at(x, y, 1), a);
    law_colour_without_opacity(img.at(x, y, 2), a);
    assert(f[40 + p] == points[p] && f[40 + p + 1] == points[p + 1]);
    assert(f[40 + p + 2] == points[p + 2] && f[40 + p + 3] == points[p + 3]);
}

proof fn lemma_lines(list: Seq<Part>, i: int, n: int)
    requires
        0 <= i < n <= list.len(),
    ensures
        directory(list, n).len() == 16 * n,
        directory(list, n).subrange(16 * i, 16 * i + 16) == line(list, i),
    decreases n,
{
    assert(line(list, n - 1).len() == 16);
    if n == 1 {
        assert(directory(list, 0) =~= Seq::<u8>::empty());
        assert(directory(list, 1).subrange(0, 16) =~= line(list, 0));
    } else if i < n - 1 {
        lemma_lines(list, i, n - 1);
        assert(directory(list, n).subrange(16 * i, 16 * i + 16) =~= directory(
            list,
            n - 1,
        ).subrange(16 * i, 16 * i + 16));
    } else {
        lemma_lines(list, 0, n - 1);
        assert(directory(list, n).subrange(16 * i, 16 * i + 16) =~= line(list, i));
    }
}

/// What an icon file says: that it holds icons, how many, and of each its side (zero for 256
/// and more), one plane, 32 bits a point, how many bytes it has and where they begin.
pub proof fn law_directory_of_an_icon_file(list: Seq<Part>, i: int)
    requires
        0 <= i < list.len() <= u16::MAX,
        offset(list, list.len() as int) <= u32::MAX,
        0 <= list[i].size,
    ensures
        ({
            let f = icon_file(list);
            let at = 6 + 16 * i;
            let begin = long_at(f, at + 12);
            &&& short_at(f, 0) == 0
            &&& short_at(f, 2) == 1
            &&& short_at(f, 4) == list.len()
            &&& f[at] == (if list[i].size < 256 {
                list[i].size
            } else {
                0
            })
            &&& f[at + 1] == f[at]
            &&& f[at + 2] == 0
            &&& f[at + 3] == 0
            &&& short_at(f, at + 4) == 1
            &&& short_at(f, at + 6) == 32
            &&& long_at(f, at + 8) == list[i].data.len()
            &&& begin + list[i].data.len() <= f.len()
            &&& f.subrange(begin, begin + list[i].data.len()) == list[i].data
        }),
{
    let n = list.len() as int;
    let f = icon_file(list);
    lemma_lines(list, i, n);
    lemma_bodies_grow(list, i, n);
    lemma_bodies_grow(list, i + 1, n);
    law_parts_are_where_said(list, i);
    lemma_numbers_read(0);
    lemma_numbers_read(1);
    lemma_numbers_read(32);
    lemma_numbers_read(n);
    assert(bodies(list, i + 1).len() == bodies(list, i).len() + list[i].data.len());
    lemma_numbers_read(list[i].data.len() as int);
    lemma_numbers_read(offset(list, i));
    assert(f.subrange(0, 2) =~= le16(0));
    assert(f.subrange(2, 4) =~= le16(1));
    assert(f.subrange(4, 6) =~= le16(n));
    let at = 6 + 16 * i;
    let l = line(list, i);
    assert(f.subrange(6, 6 + 16 * n) =~= directory(list, n));
    assert(f.subrange(at, at + 16) =~= directory(list, n).subrange(16 * i, 16 * i + 16));
    assert forall|k: int| 0 <= k < 16 implies #[trigger] f[at + k] == l[k] by {
        assert(f[at + k] == f.subrange(at, at + 16)[k]);
    }
    assert(l.subrange(4, 6) =~= le16(1));
    assert(l.subrange(6, 8) =~= le16(32));
    assert(l.subrange(8, 12) =~= le32(list[i].data.len() as int));
    assert(l.subrange(12, 16) =~= le32(offset(list, i)));
    lemma_ends(l, 8);
    lemma_ends(l, 12);
    assert(f[0] == f.subrange(0, 2)[0] && f[1] == f.subrange(0, 2)[1]);
    assert(f[2] == f.subrange(2, 4)[0] && f[3] == f.subrange(2, 4)[1]);
    assert(f[4] == f.subrange(4, 6)[0] && f[5] == f.subrange(4, 6)[1]);
    assert(l[4] == l.subrange(4, 6)[0] && l[5] == l.subrange(4, 6)[1]);
    assert(l[6] == l.subrange(6, 8)[0] && l[7] == l.subrange(6, 8)[1]);
    assert(f[at + 8] == l[8] && f[at + 9] == l[9] && f[at + 10] == l[10] && f[at + 11] == l[11]);
    assert(f[at + 12] == l[12] && f[at + 13] == l[13] && f[at + 14] == l[14] && f[at + 15]
        == l[15]);
    assert(f[at] == f[at + 0]);
    assert(f[at + 4] == l[4] && f[at + 5] == l[5] && f[at + 6] == l[6] && f[at + 7] == l[7]);
    assert(f[at + 1] == l[1] && f[at + 2] == l[2] && f[at + 3] == l[3]);
}

} // verus!
