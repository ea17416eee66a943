//! From samples to the pixels that windows and icons take.

use vstd::prelude::*;

verus! {

/// A pixel of 32 bits: opacity, red, green and blue from the top down.
pub open spec fn packed(a: int, r: int, g: int, b: int) -> int {
    a * 0x100_0000 + r * 0x1_0000 + g * 0x100 + b
}

/// Makes a pixel.
pub fn pack(a: u8, r: u8, g: u8, b: u8) -> (p: u32)
    ensures
        p == packed(a as int, r as int, g as int, b as int),
{
    a as u32 * 0x100_0000 + r as u32 * 0x1_0000 + g as u32 * 0x100 + b as u32
}

/// The pixels of samples, each made by `f` of the four samples of a point.
pub open spec fn pixels_of(data: Seq<u8>, f: spec_fn(u8, u8, u8, u8) -> int) -> Seq<int> {
    Seq::new(
        data.len() / 4,
        |i: int| f(data[i * 4], data[i * 4 + 1], data[i * 4 + 2], data[i * 4 + 3]),
    )
}

/// Pixels as numbers.
pub open spec fn numbers(v: Seq<u32>) -> Seq<int> {
    v.map_values(|p: u32| p as int)
}

// ── the overlay ───────────────────────────────────────────────────────────
/// A colour sample freed of its opacity, to the nearest.
pub open spec fn freed(c: u8, a: u8) -> u8 {
    if a == 0 {
        0
    } else if (c as int * 255 + a as int / 2) / (a as int) > 255 {
        255
    } else {
        ((c as int * 255 + a as int / 2) / (a as int)) as u8
    }
}

/// Samples whose colours are freed of their opacity.
pub open spec fn straightened(data: Seq<u8>) -> Seq<u8> {
    Seq::new(
        (data.len() / 4 * 4) as nat,
        |i: int|
            if i % 4 == 3 {
                data[i]
            } else {
                freed(data[i], data[i / 4 * 4 + 3])
            },
    )
}

fn free_of(c: u8, a: u8) -> (r: u8)
    ensures
        r == freed(c, a),
{
    if a == 0 {
        0
    } else {
        let q: u32 = (c as u32 * 255 + a as u32 / 2) / (a as u32);
        if q > 255 {
            255
        } else {
            q as u8
        }
    }
}

/// Frees the colours of a picture of their opacity.
pub fn straight(data: &Vec<u8>) -> (r: Vec<u8>)
    ensures
        r@ == straightened(data@),
{
    let mut r: Vec<u8> = Vec::new();
    let n: usize = data.len() / 4;
    let total: usize = data.len();
    let ghost want = straightened(data@);
    let mut p: usize = 0;
    while p < n
        invariant
            n == data@.len() / 4,
            total == data@.len(),
            p <= n,
            want == straightened(data@),
            r@ == want.take(p * 4),
        decreases n - p,
    {
        let a: u8 = data[p * 4 + 3];
        r.push(free_of(data[p * 4], a));
        r.push(free_of(data[p * 4 + 1], a));
        r.push(free_of(data[p * 4 + 2], a));
        r.push(a);
        assert(r@ =~= want.take(p * 4 + 4));
        p += 1;
    }
    assert(want.take(n * 4) =~= want);
    r
}

/// A colour sample dimmed by its opacity, rounded down.
pub open spec fn dimmed(c: u8, a: u8) -> int {
    c as int * a as int / 255
}

proof fn lemma_dimmed(c: u8, a: u8)
    ensures
        0 <= dimmed(c, a) <= a,
        0 <= c as int * a as int <= 255 * 255,
{
    assert(0 <= c as int * a as int <= 255 * a as int) by (nonlinear_arith)
        requires
            c <= 255,
    ;
}

/// A pixel of the overlay from straight samples: the colours are dimmed by the
/// opacity.
pub open spec fn overlay_pixel(r: u8, g: u8, b: u8, a: u8) -> int {
    packed(a as int, dimmed(r, a), dimmed(g, a), dimmed(b, a))
}

fn dim(c: u8, a: u8) -> (r: u8)
    ensures
        r == dimmed(c, a),
{
    proof {
        lemma_dimmed(c, a);
    }
    (c as u32 * a as u32 / 255) as u8
}

/// The pixels of the overlay from straight samples.
pub fn overlay_pixels(data: &Vec<u8>) -> (r: Vec<u32>)
    ensures
        numbers(r@) == pixels_of(data@, |r: u8, g: u8, b: u8, a: u8| overlay_pixel(r, g, b, a)),
{
    let mut out: Vec<u32> = Vec::new();
    let n: usize = data.len() / 4;
    let total: usize = data.len();
    let ghost f = |r: u8, g: u8, b: u8, a: u8| overlay_pixel(r, g, b, a);
    let mut p: usize = 0;
    while p < n
        invariant
            n == data@.len() / 4,
            total == data@.len(),
            p <= n,
            f == (|r: u8, g: u8, b: u8, a: u8| overlay_pixel(r, g, b, a)),
            numbers(out@) == pixels_of(data@, f).take(p as int),
        decreases n - p,
    {
        let a: u8 = data[p * 4 + 3];
        let v: u32 = pack(a, dim(data[p * 4], a), dim(data[p * 4 + 1], a), dim(data[p * 4 + 2], a));
        proof {
            assert(numbers(out@.push(v)) =~= numbers(out@).push(v as int));
            assert(pixels_of(data@, f)[p as int] == v);
            assert(pixels_of(data@, f).take(p + 1) =~= pixels_of(data@, f).take(p as int).push(
                v as int,
            ));
        }
        out.push(v);
        p += 1;
    }
    assert(pixels_of(data@, f).take(n as int) =~= pixels_of(data@, f));
    out
}

/// Freed of its opacity and dimmed again, a colour that was no brighter than its
/// opacity comes back the same or darker by one.
pub proof fn law_overlay_colour(c: u8, a: u8)
    requires
        c <= a,
    ensures
        c - 1 <= dimmed(freed(c, a), a) <= c,
{
    let (x, n) = (c as int, a as int);
    if a > 0 {
        let s = (x * 255 + n / 2) / n;
        assert(s <= 255) by (nonlinear_arith)
            requires
                s == (x * 255 + n / 2) / n,
                0 <= x <= n,
                0 < n,
        ;
        assert(n * s <= x * 255 + n / 2 && x * 255 + n / 2 < n * s + n) by (nonlinear_arith)
            requires
                s == (x * 255 + n / 2) / n,
                0 < n,
        ;
        assert(s * n == n * s) by (nonlinear_arith);
        assert(freed(c, a) == s) by {
            assert(s >= 0) by (nonlinear_arith)
                requires
                    s == (x * 255 + n / 2) / n,
                    0 < n,
                    0 <= x,
            ;
        }
    }
}

// ── windows ───────────────────────────────────────────────────────────────
/// The pixels of samples whose colours are dimmed already.
pub fn window_pixels(data: &Vec<u8>) -> (r: Vec<u32>)
    ensures
        numbers(r@) == pixels_of(
            data@,
            |r: u8, g: u8, b: u8, a: u8| packed(a as int, r as int, g as int, b as int),
        ),
{
    let mut out: Vec<u32> = Vec::new();
    let n: usize = data.len() / 4;
    let total: usize = data.len();
    let ghost f = |r: u8, g: u8, b: u8, a: u8| packed(a as int, r as int, g as int, b as int);
    let mut p: usize = 0;
    while p < n
        invariant
            n == data@.len() / 4,
            total == data@.len(),
            p <= n,
            f == (|r: u8, g: u8, b: u8, a: u8| packed(a as int, r as int, g as int, b as int)),
            numbers(out@) == pixels_of(data@, f).take(p as int),
        decreases n - p,
    {
        let v: u32 = pack(data[p * 4 + 3], data[p * 4], data[p * 4 + 1], data[p * 4 + 2]);
        proof {
            assert(numbers(out@.push(v)) =~= numbers(out@).push(v as int));
            assert(pixels_of(data@, f)[p as int] == v);
            assert(pixels_of(data@, f).take(p + 1) =~= pixels_of(data@, f).take(p as int).push(
                v as int,
            ));
        }
        out.push(v);
        p += 1;
    }
    assert(pixels_of(data@, f).take(n as int) =~= pixels_of(data@, f));
    out
}

/// A pixel with its opacity replaced.
pub fn with_opacity(p: u32, a: u8) -> (r: u32)
    ensures
        r == p % 0x100_0000 + a * 0x100_0000,
{
    p % 0x100_0000 + a as u32 * 0x100_0000
}

/// Gives the pixels back the opacity of the samples, which drawing text on them
/// has spoilt.
pub fn restore_opacity(pixels: &mut Vec<u32>, data: &Vec<u8>)
    requires
        old(pixels)@.len() == data@.len() / 4,
    ensures
        final(pixels)@.len() == old(pixels)@.len(),
        forall|i: int|
            0 <= i < final(pixels)@.len() ==> #[trigger] final(pixels)@[i] == old(pixels)@[i]
                % 0x100_0000 + data@[i * 4 + 3] * 0x100_0000,
{
    let ghost was = pixels@;
    let n: usize = pixels.len();
    let total: usize = data.len();
    let mut i: usize = 0;
    while i < n
        invariant
            n == was.len(),
            pixels@.len() == n,
            n == data@.len() / 4,
            total == data@.len(),
            i <= n,
            forall|k: int|
                0 <= k < i ==> #[trigger] pixels@[k] == was[k] % 0x100_0000 + data@[k * 4 + 3]
                    * 0x100_0000,
            forall|k: int| i <= k < n ==> #[trigger] pixels@[k] == was[k],
        decreases n - i,
    {
        let p: u32 = pixels[i];
        pixels[i] = with_opacity(p, data[i * 4 + 3]);
        i += 1;
    }
}

/// Restoring the opacity of pixels that nothing was drawn on changes nothing.
pub proof fn law_restore_unspoilt(a: u8, r: u8, g: u8, b: u8)
    ensures
        packed(a as int, r as int, g as int, b as int) % 0x100_0000 + a * 0x100_0000 == packed(
            a as int,
            r as int,
            g as int,
            b as int,
        ),
{
}

} // verus!
