//! The icons in the notification area: a waveform that fills its square, white
//! at rest, dimmed when listening is off, coloured during dictation.

use crate::image::{
    centre, centred, content_box, crop, cropped, has_content, is_tight, union_box, within,
    Frame, Image,
};
use crate::pixels::{numbers, pack, packed, pixels_of};
use vstd::prelude::*;

verus! {

/// What an icon shows.
#[derive(Clone, Copy, PartialEq, Eq, Structural, Debug)]
pub enum Tray {
    /// Waiting for a wake word.
    Idle,
    /// Dictation is on.
    Rec,
    /// Listening is off.
    Off,
}

/// Dark ink for the white waveform, where the taskbar is light.
pub const INK_R: u8 = 30;

pub const INK_G: u8 = 32;

pub const INK_B: u8 = 52;

/// The size of an icon: at least 8 and at most 256 points.
pub fn icon_size(size: i32) -> (r: u32)
    ensures
        r == (if size < 8 {
            8int
        } else if size > 256 {
            256
        } else {
            size as int
        }),
{
    if size < 8 {
        8
    } else if size > 256 {
        256
    } else {
        size as u32
    }
}

// ── reading PNG ───────────────────────────────────────────────────────────
/// A number of four bytes, the highest first.
pub open spec fn big_endian(b: Seq<u8>, at: int) -> int {
    b[at] * 0x100_0000 + b[at + 1] * 0x1_0000 + b[at + 2] * 0x100 + b[at + 3]
}

/// The size that a PNG file declares is one that memory can hold.
pub open spec fn size_can_be(png: Seq<u8>) -> bool {
    png.len() >= 24 ==> big_endian(png, 16) * big_endian(png, 20) * 4 <= 0x7FFF_FFFF
}

/// What `Pixmap::decode_png` makes of a file: width, height and the samples with
/// the colours dimmed by the opacity; nothing if it is no good.
pub uninterp spec fn png_picture(png: Seq<u8>) -> Option<(int, int, Seq<u8>)>;

/// Calls `tiny_skia::Pixmap::decode_png`. Which picture it gives, or that it
/// gives none, is named `png_picture`; a picture has points, four samples for
/// each, and sides of 32 bits.
#[verifier::external_body]
pub(crate) fn decode_png(png: &[u8]) -> (r: Option<Image>)
    requires
        size_can_be(png@),
    ensures
        match r {
            Some(img) => img.ok() && img.w <= u32::MAX && img.h <= u32::MAX && png_picture(png@)
                == Some((img.w as int, img.h as int, img.data@)),
            None => png_picture(png@) is None,
        },
{
    let pm = tiny_skia::Pixmap::decode_png(png).ok()?;
    Some(Image { w: pm.width() as usize, h: pm.height() as usize, data: pm.data().to_vec() })
}

// ── framing ───────────────────────────────────────────────────────────────
/// The rectangle is the content of the picture, or the whole of it where it has
/// none.
pub open spec fn is_content(img: Image, b: Frame) -> bool {
    if has_content(img) {
        is_tight(img, b)
    } else {
        b == (0usize, 0usize, (img.w - 1) as usize, (img.h - 1) as usize)
    }
}

/// The smallest rectangle around two.
pub open spec fn around(a: Frame, b: Frame) -> Frame {
    (
        if a.0 < b.0 {
            a.0
        } else {
            b.0
        },
        if a.1 < b.1 {
            a.1
        } else {
            b.1
        },
        if a.2 > b.2 {
            a.2
        } else {
            b.2
        },
        if a.3 > b.3 {
            a.3
        } else {
            b.3
        },
    )
}

/// The common frame of two pictures: around the content of both.
pub open spec fn is_common(a: Image, b: Image, f: Frame) -> bool {
    exists|x: Frame, y: Frame|
        #![trigger is_content(a, x), is_content(b, y)]
        is_content(a, x) && is_content(b, y) && f == around(x, y)
}

/// The common frame of two pictures. Framed alike, the waveform does not jump
/// when the icon changes.
pub fn common_frame(a: &Image, b: &Image) -> (f: Frame)
    requires
        a.ok(),
        b.ok(),
    ensures
        is_common(*a, *b, f),
        f.0 <= f.2,
        f.1 <= f.3,
{
    let x = content_box(a);
    let y = content_box(b);
    assert(is_content(*a, x) && is_content(*b, y));
    union_box(x, y)
}

/// What is to be shrunk into the icon: the picture for the state, cut to the
/// common frame of both pictures. Nothing if a picture cannot be read or the
/// frame reaches beyond the picture.
pub fn tray_glyph(state: Tray, rest: &[u8], rec: &[u8]) -> (r: Option<Image>)
    requires
        size_can_be(rest@),
        size_can_be(rec@),
    ensures
        ({
            let own = png_picture(
                if state == Tray::Rec {
                    rec@
                } else {
                    rest@
                },
            );
            let other = png_picture(
                if state == Tray::Rec {
                    rest@
                } else {
                    rec@
                },
            );
            match r {
                Some(img) => own is Some && other is Some && img.ok() && exists|
                    a: Image,
                    b: Image,
                    f: Frame,
                |
                    #![trigger is_common(a, b, f)]
                    Some((a.w as int, a.h as int, a.data@)) == own && Some(
                        (b.w as int, b.h as int, b.data@),
                    ) == other && is_common(a, b, f) && within(f, a.w as int, a.h as int) && img.w
                        == f.2 - f.0 + 1 && img.h == f.3 - f.1 + 1 && img.data@ == cropped(
                        a.data@,
                        a.w as int,
                        f,
                    ),
                None => own is None || other is None || exists|a: Image, b: Image, f: Frame|
                    #![trigger is_common(a, b, f)]
                    Some((a.w as int, a.h as int, a.data@)) == own && Some(
                        (b.w as int, b.h as int, b.data@),
                    ) == other && is_common(a, b, f) && !within(f, a.w as int, a.h as int),
            }
        }),
{
    let recording = state == Tray::Rec;
    let (own, other) = if recording {
        (decode_png(rec), decode_png(rest))
    } else {
        (decode_png(rest), decode_png(rec))
    };
    match (own, other) {
        (Some(a), Some(b)) => frame(&a, &b),
        _ => None,
    }
}

/// Cuts a picture to its common frame with another. Nothing if the frame reaches
/// beyond the picture.
pub fn frame(own: &Image, other: &Image) -> (r: Option<Image>)
    requires
        own.ok(),
        other.ok(),
    ensures
        exists|f: Frame| #[trigger]
            is_common(*own, *other, f) && match r {
                Some(img) => img.ok() && within(f, own.w as int, own.h as int) && img.w == f.2 - f.0
                    + 1 && img.h == f.3 - f.1 + 1 && img.data@ == cropped(
                    own.data@,
                    own.w as int,
                    f,
                ),
                None => !within(f, own.w as int, own.h as int),
            },
{
    let f = common_frame(own, other);
    if f.2 < own.w && f.3 < own.h {
        Some(crop(own, f))
    } else {
        None
    }
}

// ── colouring ─────────────────────────────────────────────────────────────
/// Samples of one colour with the opacity they had.
pub open spec fn tinted(data: Seq<u8>, r: u8, g: u8, b: u8) -> Seq<u8> {
    Seq::new(
        data.len(),
        |i: int|
            if i % 4 == 3 || i / 4 * 4 + 3 >= data.len() {
                data[i]
            } else {
                let c = if i % 4 == 0 {
                    r
                } else if i % 4 == 1 {
                    g
                } else {
                    b
                };
                (c as int * data[i / 4 * 4 + 3] as int / 255) as u8
            },
    )
}

proof fn lemma_product(c: u8, a: u8)
    ensures
        0 <= c as int * a as int <= 255 * a as int,
        0 <= c as int * a as int / 255 <= a,
{
    assert(0 <= c as int * a as int <= 255 * a as int) by (nonlinear_arith)
        requires
            c <= 255,
    ;
}

/// Recolours a picture of one colour and keeps its opacity.
pub fn tint(img: &mut Image, r: u8, g: u8, b: u8)
    requires
        old(img).ok(),
    ensures
        final(img).w == old(img).w,
        final(img).h == old(img).h,
        final(img).ok(),
        final(img).data@ == tinted(old(img).data@, r, g, b),
{
    let ghost src = img.data@;
    let ghost want = tinted(src, r, g, b);
    let n: usize = img.data.len();
    assert(n % 4 == 0);
    let mut i: usize = 0;
    while i < n
        invariant
            n == src.len(),
            n % 4 == 0,
            i <= n,
            i % 4 == 0,
            img.w == old(img).w,
            img.h == old(img).h,
            img.data@.len() == n,
            want == tinted(src, r, g, b),
            forall|k: int| 0 <= k < i ==> #[trigger] img.data@[k] == want[k],
            forall|k: int| i <= k < n ==> #[trigger] img.data@[k] == src[k],
        decreases n - i,
    {
        let a: u8 = img.data[i + 3];
        proof {
            lemma_product(r, a);
            lemma_product(g, a);
            lemma_product(b, a);
            assert(i / 4 * 4 == i);
            assert((i + 1) / 4 * 4 == i && (i + 1) % 4 == 1);
            assert((i + 2) / 4 * 4 == i && (i + 2) % 4 == 2);
            assert((i + 3) % 4 == 3);
        }
        img.data[i] = (r as u32 * a as u32 / 255) as u8;
        img.data[i + 1] = (g as u32 * a as u32 / 255) as u8;
        img.data[i + 2] = (b as u32 * a as u32 / 255) as u8;
        i += 4;
    }
    assert(img.data@ =~= want);
}

/// No sample of a recoloured picture is brighter than its opacity.
pub proof fn law_tint_within_opacity(data: Seq<u8>, r: u8, g: u8, b: u8, i: int)
    requires
        data.len() % 4 == 0,
        0 <= i < data.len(),
    ensures
        tinted(data, r, g, b)[i] <= tinted(data, r, g, b)[i / 4 * 4 + 3],
        tinted(data, r, g, b)[i / 4 * 4 + 3] == data[i / 4 * 4 + 3],
{
    let a = data[i / 4 * 4 + 3];
    lemma_product(r, a);
    lemma_product(g, a);
    lemma_product(b, a);
    let top = i / 4 * 4 + 3;
    assert(top % 4 == 3 && top < data.len());
}

/// The finished icon: the shrunk picture in the middle of its square, in dark
/// ink if the taskbar is light and the picture is the white one.
pub fn tray_picture(state: Tray, light: bool, shrunk: &Image, size: usize) -> (r: Image)
    requires
        shrunk.ok(),
        shrunk.w <= size,
        shrunk.h <= size,
        size * size * 4 <= usize::MAX,
    ensures
        r.ok(),
        r.w == size,
        r.h == size,
        ({
            let square = centred(shrunk.data@, shrunk.w as int, shrunk.h as int, size as int);
            r.data@ == (if state != Tray::Rec && light {
                tinted(square, INK_R, INK_G, INK_B)
            } else {
                square
            })
        }),
        state != Tray::Rec && light ==> forall|p: int|
            0 <= p < size * size && #[trigger] r.data@[4 * p + 3] == 255 ==> r.data@[4 * p] == 30
                && r.data@[4 * p + 1] == 32 && r.data@[4 * p + 2] == 52,
{
    let mut r = centre(shrunk, size);
    if state != Tray::Rec && light {
        tint(&mut r, INK_R, INK_G, INK_B);
        assert forall|p: int|
            0 <= p < size * size && #[trigger] r.data@[4 * p + 3] == 255 implies r.data@[4 * p]
            == 30 && r.data@[4 * p + 1] == 32 && r.data@[4 * p + 2] == 52 by {
            assert((4 * p) / 4 == p && (4 * p + 1) / 4 == p && (4 * p + 2) / 4 == p);
        }
    }
    r
}

// ── pixels of an icon ─────────────────────────────────────────────────────
/// A colour freed of its opacity, rounded down.
pub open spec fn bare(c: u8, a: u8) -> int {
    if a == 0 {
        0
    } else if c as int * 255 / a as int > 255 {
        255
    } else {
        c as int * 255 / a as int
    }
}

/// The opacity of an icon: less than half where it is to look faint.
pub open spec fn shown_opacity(a: u8, faint: bool) -> int {
    if faint {
        a as int * 45 / 100
    } else {
        a as int
    }
}

/// A pixel of an icon.
pub open spec fn icon_pixel(r: u8, g: u8, b: u8, a: u8, faint: bool) -> int {
    packed(shown_opacity(a, faint), bare(r, a), bare(g, a), bare(b, a))
}

/// A colour freed of its opacity.
pub fn unpremultiply(c: u8, a: u8) -> (r: u8)
    ensures
        r == bare(c, a),
{
    if a == 0 {
        0
    } else {
        let q: u32 = c as u32 * 255 / (a as u32);
        if q > 255 {
            255
        } else {
            q as u8
        }
    }
}

/// The pixels of an icon. It looks faint when listening is off.
pub fn icon_pixels(img: &Image, state: Tray) -> (out: Vec<u32>)
    ensures
        numbers(out@) == pixels_of(
            img.data@,
            |r: u8, g: u8, b: u8, a: u8| icon_pixel(r, g, b, a, state == Tray::Off),
        ),
{
    let faint = state == Tray::Off;
    let data = &img.data;
    let mut out: Vec<u32> = Vec::new();
    let n: usize = data.len() / 4;
    let total: usize = data.len();
    let ghost f = |r: u8, g: u8, b: u8, a: u8| icon_pixel(r, g, b, a, state == Tray::Off);
    let mut p: usize = 0;
    while p < n
        invariant
            n == data@.len() / 4,
            total == data@.len(),
            data@ == img.data@,
            p <= n,
            faint == (state == Tray::Off),
            f == (|r: u8, g: u8, b: u8, a: u8| icon_pixel(r, g, b, a, state == Tray::Off)),
            numbers(out@) == pixels_of(data@, f).take(p as int),
        decreases n - p,
    {
        let a: u8 = data[p * 4 + 3];
        let shown: u8 = if faint {
            (a as u32 * 45 / 100) as u8
        } else {
            a
        };
        let v: u32 = pack(
            shown,
            unpremultiply(data[p * 4], a),
            unpremultiply(data[p * 4 + 1], a),
            unpremultiply(data[p * 4 + 2], a),
        );
        proof {
            assert(numbers(out@.push(v)) =~= numbers(out@).push(v as int));
            assert(pixels_of(data@, f)[p as int] == v);
            assert(pixels_of(data@, f).take(p + 1) =~= pixels_of(data@, f).take(p as int).push(
                v as int,
            ));
        }
        out.push(v);
        p += 1;
    }
    assert(pixels_of(data@, f).take(n as int) =~= pixels_of(data@, f));
    out
}

} // verus!
