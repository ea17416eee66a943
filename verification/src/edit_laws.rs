//! What typing, erasing and moving do to the text of a field.

use crate::edit::{
    all_selected, back_over, backspaced, cut, deleted, forth_over, left_word, moved, right_word,
    selected, separates, typed, typed_all, Field,
};
use crate::utf16::decoded;
use vstd::prelude::*;

verus! {

// ── typing and erasing ────────────────────────────────────────────────────
/// Where something is selected, Backspace and Delete take out just that; a code unit
/// that is typed takes its place. What stands before and behind it stays, and the caret
/// goes where the selection was.
pub proof fn law_edit_of_a_selection(f: Field, a: Seq<u16>, mid: Seq<u16>, b: Seq<u16>, ch: u16)
    requires
        f.t == a + mid + b,
        mid.len() > 0,
        (f.caret == a.len() && f.anchor == a.len() + mid.len()) || (f.anchor == a.len() && f.caret
            == a.len() + mid.len()),
    ensures
        selected(f) == decoded(mid),
        cut(f) == (Field {
            t: a + b,
            caret: a.len() as int,
            anchor: a.len() as int,
            numeric: f.numeric,
        }),
        backspaced(f) == cut(f),
        deleted(f) == cut(f),
        !f.numeric ==> typed(f, ch) == (Field {
            t: a + seq![ch] + b,
            caret: a.len() as int + 1,
            anchor: a.len() as int + 1,
            numeric: false,
        }),
{
    assert(f.t.subrange(a.len() as int, (a.len() + mid.len()) as int) =~= mid);
    assert(f.t.take(a.len() as int) + f.t.skip((a.len() + mid.len()) as int) =~= a + b);
    assert((a + b).insert(a.len() as int, ch) =~= a + seq![ch] + b);
}

/// Where nothing is selected, a code unit that is typed stands at the caret and the
/// caret behind it; Backspace takes out the code unit before the caret, Delete the one
/// behind it, and nothing where there is none.
pub proof fn law_edit_at_the_caret(f: Field, a: Seq<u16>, b: Seq<u16>, ch: u16)
    requires
        f.t == a + b,
        f.caret == a.len(),
        f.anchor == a.len(),
    ensures
        cut(f) == f,
        !f.numeric ==> typed(f, ch) == (Field {
            t: a + seq![ch] + b,
            caret: a.len() as int + 1,
            anchor: a.len() as int + 1,
            numeric: false,
        }),
        a.len() > 0 ==> backspaced(f) == (Field {
            t: a.drop_last() + b,
            caret: a.len() - 1,
            anchor: a.len() - 1,
            numeric: f.numeric,
        }),
        a.len() == 0 ==> backspaced(f) == f,
        b.len() > 0 ==> deleted(f) == (Field { t: a + b.skip(1), ..f }),
        b.len() == 0 ==> deleted(f) == f,
{
    assert(f.t.take(a.len() as int) + f.t.skip(a.len() as int) =~= f.t);
    assert(f.t.insert(a.len() as int, ch) =~= a + seq![ch] + b);
    if a.len() > 0 {
        assert(f.t.remove(a.len() - 1) =~= a.drop_last() + b);
    }
    if b.len() > 0 {
        assert(f.t.remove(a.len() as int) =~= a + b.skip(1));
    }
}

/// A field for numbers takes digits and the point as any field does, a comma as a point,
/// and nothing else.
pub proof fn law_field_for_numbers(f: Field, ch: u16)
    requires
        f.numeric,
    ensures
        0x30 <= ch <= 0x39 || ch == 0x2E ==> typed(f, ch) == (Field {
            numeric: true,
            ..typed(Field { numeric: false, ..f }, ch)
        }),
        typed(f, 0x2C) == typed(f, 0x2E),
        !(0x30 <= ch <= 0x39) && ch != 0x2E && ch != 0x2C ==> typed(f, ch) == f,
{
}

/// A text is typed one code unit after another; control characters are passed over.
pub proof fn law_text_is_typed_in_order(f: Field, units: Seq<u16>, ch: u16)
    ensures
        typed_all(f, Seq::empty()) == f,
        typed_all(f, units.push(ch)) == (if ch < 0x20 {
            typed_all(f, units)
        } else {
            typed(typed_all(f, units), ch)
        }),
{
    assert(units.push(ch).drop_last() =~= units);
    assert(units.push(ch).last() == ch);
}

// ── moving ────────────────────────────────────────────────────────────────
/// Moving the caret leaves the text alone. The caret stops at the end of the text; the
/// other end of the selection stays if it is to be kept, else nothing is selected.
/// Selecting all selects the whole text.
pub proof fn law_caret_moves(f: Field, pos: int, keep: bool)
    requires
        f.ok(),
        0 <= pos,
    ensures
        moved(f, pos, keep).t == f.t,
        moved(f, pos, keep).numeric == f.numeric,
        pos <= f.t.len() ==> moved(f, pos, keep).caret == pos,
        pos > f.t.len() ==> moved(f, pos, keep).caret == f.t.len(),
        moved(f, pos, keep).anchor == (if keep {
            f.anchor
        } else {
            moved(f, pos, keep).caret
        }),
        all_selected(f).t == f.t,
        all_selected(f).numeric == f.numeric,
        all_selected(f).caret == f.t.len(),
        selected(all_selected(f)) == decoded(f.t),
{
    let a = all_selected(f);
    assert(a.t.subrange(0, a.t.len() as int) =~= a.t);
}

/// Space, comma, semicolon and tab stand between words.
pub open spec fn between(c: u16) -> bool {
    c == 0x20 || c == 0x2C || c == 0x3B || c == 0x09
}

proof fn lemma_back_over(t: Seq<u16>, i: int, sep: bool)
    requires
        0 <= i <= t.len(),
    ensures
        0 <= back_over(t, i, sep) <= i,
        forall|k: int| back_over(t, i, sep) <= k < i ==> separates(#[trigger] t[k]) == sep,
        back_over(t, i, sep) > 0 ==> separates(t[back_over(t, i, sep) - 1]) != sep,
    decreases i,
{
    if i > 0 && separates(t[i - 1]) == sep {
        lemma_back_over(t, i - 1, sep);
    }
}

proof fn lemma_forth_over(t: Seq<u16>, i: int, sep: bool)
    requires
        0 <= i <= t.len(),
    ensures
        i <= forth_over(t, i, sep) <= t.len(),
        forall|k: int| i <= k < forth_over(t, i, sep) ==> separates(#[trigger] t[k]) == sep,
        forth_over(t, i, sep) < t.len() ==> separates(t[forth_over(t, i, sep)]) != sep,
    decreases t.len() - i,
{
    if i < t.len() && separates(t[i]) == sep {
        lemma_forth_over(t, i + 1, sep);
    }
}

/// To the left, the caret goes back over what stands between words and then to the
/// start of the word there; to the right, behind the word and to the start of the next
/// one. `m` is where the two kinds meet.
pub proof fn law_caret_goes_word_by_word(f: Field) -> (m: (int, int))
    requires
        f.ok(),
    ensures
        0 <= left_word(f) <= m.0 <= f.caret,
        forall|k: int| m.0 <= k < f.caret ==> between(#[trigger] f.t[k]),
        forall|k: int| left_word(f) <= k < m.0 ==> !between(#[trigger] f.t[k]),
        m.0 > 0 ==> left_word(f) < m.0,
        left_word(f) > 0 ==> between(f.t[left_word(f) - 1]),
        f.caret <= m.1 <= right_word(f) <= f.t.len(),
        forall|k: int| f.caret <= k < m.1 ==> !between(#[trigger] f.t[k]),
        forall|k: int| m.1 <= k < right_word(f) ==> between(#[trigger] f.t[k]),
        m.1 < f.t.len() ==> m.1 < right_word(f),
        right_word(f) < f.t.len() ==> !between(f.t[right_word(f)]),
{
    let a = back_over(f.t, f.caret, true);
    lemma_back_over(f.t, f.caret, true);
    lemma_back_over(f.t, a, false);
    let b = forth_over(f.t, f.caret, false);
    lemma_forth_over(f.t, f.caret, false);
    lemma_forth_over(f.t, b, true);
    assert forall|k: int| a <= k < f.caret implies between(#[trigger] f.t[k]) by {
        assert(separates(f.t[k]));
    }
    assert forall|k: int| left_word(f) <= k < a implies !between(#[trigger] f.t[k]) by {
        assert(!separates(f.t[k]));
    }
    assert forall|k: int| f.caret <= k < b implies !between(#[trigger] f.t[k]) by {
        assert(!separates(f.t[k]));
    }
    assert forall|k: int| b <= k < right_word(f) implies between(#[trigger] f.t[k]) by {
        assert(separates(f.t[k]));
    }
    (a, b)
}

} // verus!
