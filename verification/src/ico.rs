//! The icon file of the program: several sizes in one file, the small ones as
//! bitmaps and the largest as it came.

use crate::icons::{bare, decode_png, png_picture, size_can_be, unpremultiply};
use crate::image::{is_resized, law_spans_within, resize, Image};
use crate::paint::{lemma_index, lemma_place};
use vstd::prelude::*;

verus! {

// ── numbers ───────────────────────────────────────────────────────────────
/// A number of two bytes, the lowest first.
pub open spec fn le16(n: int) -> Seq<u8> {
    seq![(n % 256) as u8, (n / 256 % 256) as u8]
}

/// A number of four bytes, the lowest first.
pub open spec fn le32(n: int) -> Seq<u8> {
    seq![
        (n % 256) as u8,
        (n / 256 % 256) as u8,
        (n / 0x1_0000 % 256) as u8,
        (n / 0x100_0000 % 256) as u8,
    ]
}

fn put16(out: &mut Vec<u8>, n: u16)
    ensures
        final(out)@ == old(out)@ + le16(n as int),
{
    out.push((n % 256) as u8);
    out.push((n / 256 % 256) as u8);
    assert(out@ =~= old(out)@ + le16(n as int));
}

fn put32(out: &mut Vec<u8>, n: u32)
    ensures
        final(out)@ == old(out)@ + le32(n as int),
{
    out.push((n % 256) as u8);
    out.push((n / 256 % 256) as u8);
    out.push((n / 0x1_0000 % 256) as u8);
    out.push((n / 0x100_0000 % 256) as u8);
    assert(out@ =~= old(out)@ + le32(n as int));
}

pub open spec fn zeros(n: int) -> Seq<u8> {
    Seq::new(n as nat, |i: int| 0u8)
}

fn put_zeros(out: &mut Vec<u8>, n: usize)
    ensures
        final(out)@ == old(out)@ + zeros(n as int),
{
    let mut i: usize = 0;
    assert(out@ + zeros(0) =~= out@);
    while i < n
        invariant
            i <= n,
            out@ == old(out)@ + zeros(i as int),
        decreases n - i,
    {
        out.push(0);
        i += 1;
        assert(out@ =~= old(out)@ + zeros(i as int));
    }
}

// ── a bitmap ──────────────────────────────────────────────────────────────
/// The points of a picture, the lowest row first: blue, green and red freed of
/// the opacity, and the opacity.
pub open spec fn bitmap_points(img: Image) -> Seq<u8> {
    Seq::new(
        (img.w * img.h * 4) as nat,
        |i: int|
            {
                let x = (i / 4) % (img.w as int);
                let y = img.h - 1 - (i / 4) / (img.w as int);
                if i % 4 == 3 {
                    img.at(x, y, 3)
                } else {
                    bare(img.at(x, y, 2 - i % 4), img.at(x, y, 3)) as u8
                }
            },
    )
}

/// Bytes in a row of the mask: one bit a point, rounded up to four bytes.
pub open spec fn mask_row(w: int) -> int {
    (w + 31) / 32 * 4
}

/// A picture as a bitmap for an icon file: a header with twice the height, the
/// points and an empty mask.
pub open spec fn bitmap(img: Image) -> Seq<u8> {
    le32(40) + le32(img.w as int) + le32(img.h * 2) + le16(1) + le16(32) + le32(0) + le32(
        img.w * img.h * 4,
    ) + zeros(16) + bitmap_points(img) + zeros(mask_row(img.w as int) * img.h)
}

/// The picture is small enough for an icon file.
pub open spec fn small(img: Image) -> bool {
    img.w <= 0x7FFF && img.h <= 0x7FFF
}

/// A picture as a bitmap for an icon file.
pub fn bmp_entry(img: &Image) -> (v: Vec<u8>)
    requires
        img.ok(),
        small(*img),
    ensures
        v@ == bitmap(*img),
{
    let (w, h): (usize, usize) = (img.w, img.h);
    let total: usize = img.data.len();
    assert(w * h <= 0x7FFF * 0x7FFF) by (nonlinear_arith)
        requires
            w <= 0x7FFF,
            h <= 0x7FFF,
    ;
    let rows: usize = (w + 31) / 32 * 4;
    assert(rows * h <= 0x2000 * 0x7FFF) by (nonlinear_arith)
        requires
            rows <= 0x2000,
            h <= 0x7FFF,
    ;
    let mut v: Vec<u8> = Vec::new();
    put32(&mut v, 40);
    put32(&mut v, w as u32);
    put32(&mut v, (h * 2) as u32);
    put16(&mut v, 1);
    put16(&mut v, 32);
    put32(&mut v, 0);
    put32(&mut v, (w * h * 4) as u32);
    put_zeros(&mut v, 16);
    let ghost head = v@;
    let ghost points = bitmap_points(*img);
    let count: usize = w * h;
    let mut p: usize = 0;
    assert(v@ =~= head + points.take(0));
    while p < count
        invariant
            img.ok(),
            w == img.w,
            h == img.h,
            total == img.data@.len(),
            count == w * h,
            count * 4 == total,
            p <= count,
            points == bitmap_points(*img),
            points.len() == count * 4,
            v@ == head + points.take(p * 4),
        decreases count - p,
    {
        let x: usize = p % w;
        proof {
            lemma_place(w as int, h as int, p * 4);
            assert((p * 4) / 4 == p);
        }
        let y: usize = h - 1 - p / w;
        proof {
            lemma_index(w as int, h as int, x as int, y as int, 0);
            assert(0 <= y * w <= y * w + x) by (nonlinear_arith);
        }
        let i: usize = (y * w + x) * 4;
        let a: u8 = img.data[i + 3];
        v.push(unpremultiply(img.data[i + 2], a));
        v.push(unpremultiply(img.data[i + 1], a));
        v.push(unpremultiply(img.data[i], a));
        v.push(a);
        proof {
            assert(v@ =~= head + points.take(p * 4 + 4)) by {
                assert((p * 4 + 1) / 4 == p && (p * 4 + 1) % 4 == 1);
                assert((p * 4 + 2) / 4 == p && (p * 4 + 2) % 4 == 2);
                assert((p * 4 + 3) / 4 == p && (p * 4 + 3) % 4 == 3);
            }
        }
        p += 1;
    }
    assert(points.take(count * 4) =~= points);
    put_zeros(&mut v, rows * h);
    assert(v@ =~= bitmap(*img)) by {
        assert(head =~= le32(40) + le32(img.w as int) + le32(img.h * 2) + le16(1) + le16(32) + le32(
            0,
        ) + le32(img.w * img.h * 4) + zeros(16));
        assert((h * 2) as u32 == img.h * 2);
    }
    v
}

// ── the file ──────────────────────────────────────────────────────────────
/// A size in the file: what it holds and how many points wide and high it is.
pub struct Entry {
    pub data: Vec<u8>,
    pub size: u32,
}

/// The same with the bytes as a sequence.
pub struct Part {
    pub data: Seq<u8>,
    pub size: int,
}

pub open spec fn part_of(e: Entry) -> Part {
    Part { data: e.data@, size: e.size as int }
}

pub open spec fn all_parts(v: Seq<Entry>) -> Seq<Part> {
    v.map_values(|e: Entry| part_of(e))
}

/// The bytes of the first `n` parts, one after another.
pub open spec fn bodies(list: Seq<Part>, n: int) -> Seq<u8>
    decreases n,
{
    if n <= 0 {
        Seq::empty()
    } else {
        bodies(list, n - 1) + list[n - 1].data
    }
}

/// Where part `i` begins in the file.
pub open spec fn offset(list: Seq<Part>, i: int) -> int {
    6 + 16 * list.len() as int + bodies(list, i).len() as int
}

/// The size as one byte; 256 and more are written as zero.
pub open spec fn dimension(size: int) -> u8 {
    if size >= 256 {
        0
    } else {
        size as u8
    }
}

/// The line of part `i` in the directory.
pub open spec fn line(list: Seq<Part>, i: int) -> Seq<u8> {
    seq![dimension(list[i].size), dimension(list[i].size), 0u8, 0u8] + le16(1) + le16(32) + le32(
        list[i].data.len() as int,
    ) + le32(offset(list, i))
}

/// The first `n` lines of the directory.
pub open spec fn directory(list: Seq<Part>, n: int) -> Seq<u8>
    decreases n,
{
    if n <= 0 {
        Seq::empty()
    } else {
        directory(list, n - 1) + line(list, n - 1)
    }
}

/// An icon file: a header, the directory, and the parts.
pub open spec fn icon_file(list: Seq<Part>) -> Seq<u8> {
    le16(0) + le16(1) + le16(list.len() as int) + directory(list, list.len() as int) + bodies(
        list,
        list.len() as int,
    )
}

pub proof fn lemma_bodies_grow(list: Seq<Part>, i: int, n: int)
    requires
        0 <= i <= n,
    ensures
        bodies(list, i).len() <= bodies(list, n).len(),
    decreases n - i,
{
    if i < n {
        lemma_bodies_grow(list, i, n - 1);
    }
}

/// Builds an icon file from its parts.
pub fn build_ico(entries: &Vec<Entry>) -> (out: Vec<u8>)
    requires
        entries@.len() <= u16::MAX,
        offset(all_parts(entries@), entries@.len() as int) <= u32::MAX,
    ensures
        out@ == icon_file(all_parts(entries@)),
{
    let ghost list = all_parts(entries@);
    let n: usize = entries.len();
    let mut out: Vec<u8> = Vec::new();
    put16(&mut out, 0);
    put16(&mut out, 1);
    put16(&mut out, n as u16);
    let ghost head = le16(0) + le16(1) + le16(list.len() as int);
    assert(out@ =~= head + directory(list, 0));
    let mut at: u32 = 6 + 16 * n as u32;
    let mut i: usize = 0;
    while i < n
        invariant
            n == entries@.len(),
            n <= u16::MAX,
            list == all_parts(entries@),
            i <= n,
            offset(list, n as int) <= u32::MAX,
            at == offset(list, i as int),
            out@ == head + directory(list, i as int),
        decreases n - i,
    {
        let ghost was = out@;
        let e = &entries[i];
        proof {
            assert(list[i as int] == part_of(*e));
            lemma_bodies_grow(list, i as int, n as int);
            lemma_bodies_grow(list, i + 1, n as int);
            assert(bodies(list, i + 1) == bodies(list, i as int) + list[i as int].data);
        }
        let dim: u8 = if e.size >= 256 {
            0
        } else {
            e.size as u8
        };
        let len: u32 = e.data.len() as u32;
        out.push(dim);
        out.push(dim);
        out.push(0);
        out.push(0);
        put16(&mut out, 1);
        put16(&mut out, 32);
        put32(&mut out, len);
        put32(&mut out, at);
        proof {
            assert(out@ =~= was + line(list, i as int));
            assert(directory(list, i + 1) == directory(list, i as int) + line(list, i as int));
            assert(head + directory(list, i + 1) =~= was + line(list, i as int));
        }
        at += len;
        i += 1;
    }
    let ghost front = out@;
    let mut k: usize = 0;
    assert(out@ =~= front + bodies(list, 0));
    while k < n
        invariant
            n == entries@.len(),
            list == all_parts(entries@),
            k <= n,
            out@ == front + bodies(list, k as int),
        decreases n - k,
    {
        let ghost was = out@;
        assert(list[k as int] == part_of(entries@[k as int]));
        out.extend_from_slice(entries[k].data.as_slice());
        proof {
            assert(out@ =~= was + entries@[k as int].data@);
            assert(front + bodies(list, k + 1) =~= was + list[k as int].data);
        }
        k += 1;
    }
    out
}

proof fn lemma_directory_len(list: Seq<Part>, n: int)
    requires
        0 <= n <= list.len(),
    ensures
        directory(list, n).len() == 16 * n,
    decreases n,
{
    if n > 0 {
        lemma_directory_len(list, n - 1);
    }
}

proof fn lemma_body_at(list: Seq<Part>, i: int, n: int)
    requires
        0 <= i < n <= list.len(),
    ensures
        bodies(list, i).len() + list[i].data.len() <= bodies(list, n).len(),
        bodies(list, n).subrange(
            bodies(list, i).len() as int,
            (bodies(list, i).len() + list[i].data.len()) as int,
        ) == list[i].data,
    decreases n - i,
{
    let a = bodies(list, i).len() as int;
    let b = a + list[i].data.len();
    if i == n - 1 {
        assert(bodies(list, n).subrange(a, b) =~= list[i].data);
    } else {
        lemma_body_at(list, i, n - 1);
        assert(bodies(list, n).subrange(a, b) =~= bodies(list, n - 1).subrange(a, b));
    }
}

/// Each part stands in the file where its line of the directory says.
pub proof fn law_parts_are_where_said(list: Seq<Part>, i: int)
    requires
        0 <= i < list.len(),
    ensures
        offset(list, i) + list[i].data.len() <= icon_file(list).len(),
        icon_file(list).subrange(offset(list, i), offset(list, i) + list[i].data.len())
            == list[i].data,
{
    let n = list.len() as int;
    lemma_directory_len(list, n);
    lemma_body_at(list, i, n);
    let a = bodies(list, i).len() as int;
    let b = a + list[i].data.len();
    let start = 6 + 16 * n;
    assert(icon_file(list).subrange(start + a, start + b) =~= bodies(list, n).subrange(a, b));
}

/// A picture brought to a size, as a bitmap.
pub fn bitmap_of_size(img: &Image, size: u32) -> (v: Vec<u8>)
    requires
        img.ok(),
        img.w <= u32::MAX,
        img.h <= u32::MAX,
        0 < size <= 0x7FFF,
    ensures
        exists|small: Image| #[trigger]
            is_resized(*img, small, size as int, size as int) && v@ == bitmap(small),
{
    let s: usize = size as usize;
    assert(s * s * 4 <= 0x7FFF * 0x7FFF * 4) by (nonlinear_arith)
        requires
            s <= 0x7FFF,
    ;
    proof {
        law_spans_within(img.w as int, size as int);
        law_spans_within(img.h as int, size as int);
    }
    let small = resize(img, s, s);
    assert(is_resized(*img, small, size as int, size as int));
    bmp_entry(&small)
}

/// A part of an icon file from a PNG file: of the size 256 as it came, of the others
/// as a bitmap. Nothing where the file must be read and cannot be.
pub fn entry(png: &Vec<u8>, size: u32) -> (r: Option<Entry>)
    requires
        size != 256 ==> 0 < size <= 0x7FFF && size_can_be(png@),
    ensures
        match r {
            Some(e) => e.size == size && if size == 256 {
                e.data@ == png@
            } else {
                exists|img: Image, small: Image|
                    #![trigger is_resized(img, small, size as int, size as int)]
                    png_picture(png@) == Some((img.w as int, img.h as int, img.data@))
                        && is_resized(img, small, size as int, size as int) && e.data@ == bitmap(
                        small,
                    )
            },
            None => size != 256 && png_picture(png@) is None,
        },
{
    if size == 256 {
        let mut data: Vec<u8> = Vec::new();
        data.extend_from_slice(png.as_slice());
        assert(data@ =~= png@);
        return Some(Entry { data, size });
    }
    match decode_png(png.as_slice()) {
        Some(img) => Some(Entry { data: bitmap_of_size(&img, size), size }),
        None => None,
    }
}

} // verus!
