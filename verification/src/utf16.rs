//! UTF-16, as the system's windows and registry hold text.

use crate::text::{chars_of, string_of};
use vstd::prelude::*;

verus! {

/// `char::from_u32` gives the character with a code point, and none for a number
/// that is no code point of a character.
pub assume_specification[ char::from_u32 ](i: u32) -> (r: Option<char>)
    ensures
        match r {
            Some(c) => c as u32 == i,
            None => 0xD800 <= i <= 0xDFFF || i > 0x10FFFF,
        },
;

pub open spec fn is_high(u: u16) -> bool {
    0xD800 <= u <= 0xDBFF
}

pub open spec fn is_low(u: u16) -> bool {
    0xDC00 <= u <= 0xDFFF
}

/// The code units of one character.
pub open spec fn units(c: char) -> Seq<u16> {
    let u = c as u32;
    if u < 0x10000 {
        seq![u as u16]
    } else {
        seq![
            (0xD800 + (u - 0x10000) / 0x400) as u16,
            (0xDC00 + (u - 0x10000) % 0x400) as u16,
        ]
    }
}

/// The code units of a text.
pub open spec fn encoded(s: Seq<char>) -> Seq<u16>
    decreases s.len(),
{
    if s.len() == 0 {
        Seq::empty()
    } else {
        units(s[0]) + encoded(s.skip(1))
    }
}

/// The character that two surrogates stand for.
pub open spec fn combined(high: u16, low: u16) -> int {
    0x10000 + (high - 0xD800) * 0x400 + (low - 0xDC00)
}

/// The text of a row of code units. A surrogate without its other half reads as
/// the replacement character.
pub open spec fn decoded(u: Seq<u16>) -> Seq<char>
    decreases u.len(),
{
    if u.len() == 0 {
        Seq::empty()
    } else if !is_high(u[0]) && !is_low(u[0]) {
        seq![u[0] as char] + decoded(u.skip(1))
    } else if is_high(u[0]) && u.len() > 1 && is_low(u[1]) {
        seq![combined(u[0], u[1]) as char] + decoded(u.skip(2))
    } else {
        seq!['\u{FFFD}'] + decoded(u.skip(1))
    }
}

fn push_units(out: &mut Vec<u16>, c: char)
    ensures
        final(out)@ == old(out)@ + units(c),
{
    let u: u32 = c as u32;
    if u < 0x10000 {
        out.push(u as u16);
        assert(out@ =~= old(out)@ + units(c));
    } else {
        let v: u32 = u - 0x10000;
        out.push((0xD800 + v / 0x400) as u16);
        out.push((0xDC00 + v % 0x400) as u16);
        assert(out@ =~= old(out)@ + units(c));
    }
}

/// The code units of a text.
pub fn encode(s: &str) -> (r: Vec<u16>)
    ensures
        r@ == encoded(s@),
{
    let v = chars_of(s);
    let mut out: Vec<u16> = Vec::new();
    let mut i: usize = 0;
    assert(v@.skip(0) =~= v@);
    assert(out@ + encoded(v@) =~= encoded(v@));
    while i < v.len()
        invariant
            i <= v@.len(),
            out@ + encoded(v@.skip(i as int)) == encoded(v@),
        decreases v@.len() - i,
    {
        let ghost was = out@;
        push_units(&mut out, v[i]);
        proof {
            let rest = v@.skip(i as int);
            assert(rest[0] == v@[i as int]);
            assert(rest.skip(1) =~= v@.skip(i + 1));
            assert(was + (units(rest[0]) + encoded(v@.skip(i + 1))) =~= out@ + encoded(
                v@.skip(i + 1),
            ));
        }
        i += 1;
    }
    assert(out@ + encoded(v@.skip(i as int)) =~= out@);
    out
}

/// The code units of a text with a zero behind them.
pub fn wide(s: &str) -> (r: Vec<u16>)
    ensures
        r@ == encoded(s@).push(0),
{
    let mut r = encode(s);
    r.push(0);
    r
}

fn scalar(i: u32) -> (r: char)
    requires
        i < 0xD800 || 0xE000 <= i <= 0x10FFFF,
    ensures
        r as u32 == i,
{
    match char::from_u32(i) {
        Some(c) => c,
        None => '\u{FFFD}',
    }
}

/// The text of the code units `a..b`.
pub fn decode_range(u: &Vec<u16>, a: usize, b: usize) -> (r: String)
    requires
        a <= b <= u@.len(),
    ensures
        r@ == decoded(u@.subrange(a as int, b as int)),
{
    let ghost all = u@.subrange(a as int, b as int);
    let mut out: Vec<char> = Vec::new();
    let mut i: usize = a;
    assert(all.skip(0) =~= all);
    assert(out@ + decoded(all) =~= decoded(all));
    while i < b
        invariant
            a <= i <= b <= u@.len(),
            all == u@.subrange(a as int, b as int),
            out@ + decoded(all.skip(i - a)) == decoded(all),
        decreases b - i,
    {
        let ghost was = out@;
        let ghost rest = all.skip(i - a);
        assert(rest[0] == u@[i as int]);
        assert(rest.skip(1) =~= all.skip(i - a + 1));
        let x: u16 = u[i];
        let high = 0xD800 <= x && x <= 0xDBFF;
        let low = 0xDC00 <= x && x <= 0xDFFF;
        if !high && !low {
            out.push(scalar(x as u32));
            assert(was + (seq![x as char] + decoded(rest.skip(1))) =~= out@ + decoded(
                rest.skip(1),
            ));
            i += 1;
        } else if high && b - i > 1 && 0xDC00 <= u[i + 1] && u[i + 1] <= 0xDFFF {
            let y: u16 = u[i + 1];
            assert(rest[1] == y);
            assert(rest.skip(2) =~= all.skip(i - a + 2));
            let c = scalar(0x10000 + (x as u32 - 0xD800) * 0x400 + (y as u32 - 0xDC00));
            assert(c == combined(x, y) as char);
            out.push(c);
            assert(was + (seq![c] + decoded(rest.skip(2))) =~= out@ + decoded(rest.skip(2)));
            i += 2;
        } else {
            if b - i > 1 {
                assert(rest[1] == u@[i + 1]);
            }
            out.push('\u{FFFD}');
            assert(was + (seq!['\u{FFFD}'] + decoded(rest.skip(1))) =~= out@ + decoded(
                rest.skip(1),
            ));
            i += 1;
        }
    }
    assert(out@ + decoded(all.skip(i - a)) =~= out@);
    string_of(&out, 0, out.len())
}

/// The text of a row of code units.
pub fn decode(u: &Vec<u16>) -> (r: String)
    ensures
        r@ == decoded(u@),
{
    assert(u@.subrange(0, u@.len() as int) =~= u@);
    decode_range(u, 0, u.len())
}

proof fn lemma_decode_first(c: char, t: Seq<u16>)
    ensures
        decoded(units(c) + t) == seq![c] + decoded(t),
{
    let e = units(c) + t;
    let u = c as u32;
    if u < 0x10000 {
        assert(e[0] == u as u16);
        assert(e.skip(1) =~= t);
        assert(e[0] as char == c);
    } else {
        assert(e[0] == (0xD800 + (u - 0x10000) / 0x400) as u16);
        assert(e[1] == (0xDC00 + (u - 0x10000) % 0x400) as u16);
        assert(e.skip(2) =~= t);
        assert(combined(e[0], e[1]) == u);
    }
}

/// A text is read back from its code units.
pub proof fn law_decode_of_encode(s: Seq<char>)
    ensures
        decoded(encoded(s)) == s,
    decreases s.len(),
{
    if s.len() == 0 {
        assert(decoded(encoded(s)) =~= s);
    } else {
        law_decode_of_encode(s.skip(1));
        lemma_decode_first(s[0], encoded(s.skip(1)));
        assert(seq![s[0]] + s.skip(1) =~= s);
    }
}

/// The code units of two texts in a row are those of the first and then those of
/// the second.
pub proof fn law_encode_concat(a: Seq<char>, b: Seq<char>)
    ensures
        encoded(a + b) == encoded(a) + encoded(b),
    decreases a.len(),
{
    if a.len() == 0 {
        assert(a + b =~= b);
        assert(encoded(a) + encoded(b) =~= encoded(b));
    } else {
        assert((a + b).skip(1) =~= a.skip(1) + b);
        law_encode_concat(a.skip(1), b);
        assert(units(a[0]) + (encoded(a.skip(1)) + encoded(b)) =~= (units(a[0]) + encoded(
            a.skip(1),
        )) + encoded(b));
    }
}

} // verus!
