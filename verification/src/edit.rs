//! A one-line text field: its text, the caret and the selection.

use crate::utf16::{decode, decode_range, decoded, encode, encoded, law_decode_of_encode};
use vstd::prelude::*;

verus! {

/// A text field. The text is in code units; what is selected lies between the
/// caret and the anchor.
pub struct Edit {
    pub t: Vec<u16>,
    pub caret: usize,
    pub anchor: usize,
    /// Only digits and the decimal point can be typed.
    pub numeric: bool,
}

/// A text field with its text as a sequence.
pub struct Field {
    pub t: Seq<u16>,
    pub caret: int,
    pub anchor: int,
    pub numeric: bool,
}

impl View for Edit {
    type V = Field;

    open spec fn view(&self) -> Field {
        Field {
            t: self.t@,
            caret: self.caret as int,
            anchor: self.anchor as int,
            numeric: self.numeric,
        }
    }
}

impl Field {
    /// Caret and anchor lie within the text.
    pub open spec fn ok(self) -> bool {
        0 <= self.caret <= self.t.len() && 0 <= self.anchor <= self.t.len()
    }

    /// Where the selection begins.
    pub open spec fn low(self) -> int {
        if self.caret < self.anchor {
            self.caret
        } else {
            self.anchor
        }
    }

    /// Where the selection ends.
    pub open spec fn high(self) -> int {
        if self.caret < self.anchor {
            self.anchor
        } else {
            self.caret
        }
    }
}

/// A field with a text, the caret behind it.
pub open spec fn fresh(s: Seq<char>, numeric: bool) -> Field {
    Field {
        t: encoded(s),
        caret: encoded(s).len() as int,
        anchor: encoded(s).len() as int,
        numeric,
    }
}

/// The field without what was selected.
pub open spec fn cut(f: Field) -> Field {
    Field {
        t: f.t.take(f.low()) + f.t.skip(f.high()),
        caret: f.low(),
        anchor: f.low(),
        ..f
    }
}

/// The code unit may stand in a number.
pub open spec fn in_number(ch: u16) -> bool {
    0x30 <= ch <= 0x39 || ch == 0x2E || ch == 0x2C
}

/// The field after a code unit was typed: it takes the place of the selection. A
/// field for numbers takes only what may stand in one, and a comma as a point.
pub open spec fn typed(f: Field, ch: u16) -> Field {
    if f.numeric && !in_number(ch) {
        f
    } else {
        let c = cut(f);
        let unit = if f.numeric && ch == 0x2C {
            0x2Eu16
        } else {
            ch
        };
        Field { t: c.t.insert(c.caret, unit), caret: c.caret + 1, anchor: c.caret + 1, ..c }
    }
}

/// The field after code units were typed one after another; control characters
/// are left out.
pub open spec fn typed_all(f: Field, units: Seq<u16>) -> Field
    decreases units.len(),
{
    if units.len() == 0 {
        f
    } else {
        let before = typed_all(f, units.drop_last());
        if units.last() >= 0x20 {
            typed(before, units.last())
        } else {
            before
        }
    }
}

/// The field after Backspace.
pub open spec fn backspaced(f: Field) -> Field {
    if f.caret != f.anchor {
        cut(f)
    } else if f.caret == 0 {
        f
    } else {
        Field { t: f.t.remove(f.caret - 1), caret: f.caret - 1, anchor: f.caret - 1, ..f }
    }
}

/// The field after Delete.
pub open spec fn deleted(f: Field) -> Field {
    if f.caret != f.anchor {
        cut(f)
    } else if f.caret >= f.t.len() {
        f
    } else {
        Field { t: f.t.remove(f.caret), ..f }
    }
}

/// The field with the caret moved; the selection reaches to it if `keep`.
pub open spec fn moved(f: Field, pos: int, keep: bool) -> Field {
    let p = if pos < f.t.len() {
        pos
    } else {
        f.t.len() as int
    };
    Field {
        caret: p,
        anchor: if keep {
            f.anchor
        } else {
            p
        },
        ..f
    }
}

/// The field with all its text selected.
pub open spec fn all_selected(f: Field) -> Field {
    Field { anchor: 0, caret: f.t.len() as int, ..f }
}

/// What is selected.
pub open spec fn selected(f: Field) -> Seq<char> {
    decoded(f.t.subrange(f.low(), f.high()))
}

/// The code unit stands between words.
pub open spec fn separates(c: u16) -> bool {
    c == 0x20 || c == 0x2C || c == 0x3B || c == 0x09
}

/// Back from `i` over code units that separate words, or over those that do not.
pub open spec fn back_over(t: Seq<u16>, i: int, sep: bool) -> int
    decreases i,
{
    if 0 < i <= t.len() && separates(t[i - 1]) == sep {
        back_over(t, i - 1, sep)
    } else {
        i
    }
}

/// Forward from `i` over code units that separate words, or over those that do
/// not.
pub open spec fn forth_over(t: Seq<u16>, i: int, sep: bool) -> int
    decreases t.len() - i,
{
    if 0 <= i < t.len() && separates(t[i]) == sep {
        forth_over(t, i + 1, sep)
    } else {
        i
    }
}

/// The start of the word before the caret.
pub open spec fn left_word(f: Field) -> int {
    back_over(f.t, back_over(f.t, f.caret, true), false)
}

/// The start of the word behind the caret.
pub open spec fn right_word(f: Field) -> int {
    forth_over(f.t, forth_over(f.t, f.caret, false), true)
}

/// Does the code unit stand between words.
pub fn is_sep(c: u16) -> (r: bool)
    ensures
        r == separates(c),
{
    c == 0x20 || c == 0x2C || c == 0x3B || c == 0x09
}

impl Edit {
    /// A field with a text, the caret behind it.
    pub fn new(s: &str, numeric: bool) -> (r: Edit)
        ensures
            r@ == fresh(s@, numeric),
            r@.ok(),
    {
        let t = encode(s);
        let n: usize = t.len();
        Edit { t, caret: n, anchor: n, numeric }
    }

    /// The text.
    pub fn text(&self) -> (r: String)
        ensures
            r@ == decoded(self.t@),
    {
        decode(&self.t)
    }

    /// Where the selection begins and ends.
    pub fn sel(&self) -> (r: (usize, usize))
        ensures
            r.0 == self@.low(),
            r.1 == self@.high(),
    {
        if self.caret < self.anchor {
            (self.caret, self.anchor)
        } else {
            (self.anchor, self.caret)
        }
    }

    /// Is anything selected.
    pub fn has_sel(&self) -> (r: bool)
        ensures
            r == (self.caret != self.anchor),
    {
        self.caret != self.anchor
    }

    /// Removes what is selected. Returns whether anything was.
    pub fn del_sel(&mut self) -> (r: bool)
        requires
            old(self)@.ok(),
        ensures
            r == (old(self).caret != old(self).anchor),
            final(self)@ == cut(old(self)@),
            final(self)@.ok(),
    {
        let (a, b) = self.sel();
        if a == b {
            assert(self.t@.take(a as int) + self.t@.skip(a as int) =~= self.t@);
            return false;
        }
        let mut tail = self.t.split_off(b);
        self.t.truncate(a);
        self.t.append(&mut tail);
        assert(self.t@ =~= old(self).t@.take(a as int) + old(self).t@.skip(b as int));
        self.caret = a;
        self.anchor = a;
        true
    }

    /// Types a code unit in place of the selection.
    pub fn insert(&mut self, ch: u16)
        requires
            old(self)@.ok(),
        ensures
            final(self)@ == typed(old(self)@, ch),
            final(self)@.ok(),
    {
        if self.numeric && !((0x30 <= ch && ch <= 0x39) || ch == 0x2E || ch == 0x2C) {
            return;
        }
        self.del_sel();
        let unit: u16 = if self.numeric && ch == 0x2C {
            0x2E
        } else {
            ch
        };
        self.t.insert(self.caret, unit);
        let len: usize = self.t.len();
        assert(self.caret < len);
        self.caret = self.caret + 1;
        self.anchor = self.caret;
    }

    /// Types a text.
    pub fn insert_str(&mut self, s: &str)
        requires
            old(self)@.ok(),
        ensures
            final(self)@ == typed_all(old(self)@, encoded(s@)),
            final(self)@.ok(),
    {
        let units = encode(s);
        let mut i: usize = 0;
        assert(units@.take(0) =~= Seq::<u16>::empty());
        while i < units.len()
            invariant
                i <= units@.len(),
                self@.ok(),
                self@ == typed_all(old(self)@, units@.take(i as int)),
            decreases units@.len() - i,
        {
            assert(units@.take(i + 1).drop_last() =~= units@.take(i as int));
            assert(units@.take(i + 1).last() == units@[i as int]);
            if units[i] >= 0x20 {
                self.insert(units[i]);
            }
            i += 1;
        }
        assert(units@.take(i as int) =~= units@);
    }

    /// Backspace.
    pub fn backspace(&mut self)
        requires
            old(self)@.ok(),
        ensures
            final(self)@ == backspaced(old(self)@),
            final(self)@.ok(),
    {
        if self.del_sel() {
            return;
        }
        assert(self@ == old(self)@) by {
            assert(cut(old(self)@).t =~= old(self)@.t);
        }
        if self.caret == 0 {
            return;
        }
        self.caret = self.caret - 1;
        self.t.remove(self.caret);
        self.anchor = self.caret;
    }

    /// Delete.
    pub fn delete(&mut self)
        requires
            old(self)@.ok(),
        ensures
            final(self)@ == deleted(old(self)@),
            final(self)@.ok(),
    {
        if self.del_sel() {
            return;
        }
        assert(self@ == old(self)@) by {
            assert(cut(old(self)@).t =~= old(self)@.t);
        }
        if self.caret >= self.t.len() {
            return;
        }
        self.t.remove(self.caret);
    }

    /// Moves the caret, and the anchor with it unless the selection is kept.
    pub fn move_to(&mut self, pos: usize, keep_sel: bool)
        requires
            old(self)@.ok(),
        ensures
            final(self)@ == moved(old(self)@, pos as int, keep_sel),
            final(self)@.ok(),
    {
        self.caret = if pos < self.t.len() {
            pos
        } else {
            self.t.len()
        };
        if !keep_sel {
            self.anchor = self.caret;
        }
    }

    /// The start of the word before the caret.
    pub fn word_left(&self) -> (r: usize)
        requires
            self@.ok(),
        ensures
            r == left_word(self@),
            r <= self.caret,
    {
        let mut i: usize = self.caret;
        while i > 0 && is_sep(self.t[i - 1])
            invariant
                i <= self.caret <= self.t@.len(),
                back_over(self.t@, self.caret as int, true) == back_over(
                    self.t@,
                    i as int,
                    true,
                ),
            decreases i,
        {
            i -= 1;
        }
        let ghost mid = i as int;
        while i > 0 && !is_sep(self.t[i - 1])
            invariant
                i <= self.caret <= self.t@.len(),
                back_over(self.t@, mid, false) == back_over(self.t@, i as int, false),
            decreases i,
        {
            i -= 1;
        }
        i
    }

    /// The start of the word behind the caret.
    pub fn word_right(&self) -> (r: usize)
        requires
            self@.ok(),
        ensures
            r == right_word(self@),
            self.caret <= r <= self.t@.len(),
    {
        let n: usize = self.t.len();
        let mut i: usize = self.caret;
        while i < n && !is_sep(self.t[i])
            invariant
                self.caret <= i <= n == self.t@.len(),
                forth_over(self.t@, self.caret as int, false) == forth_over(
                    self.t@,
                    i as int,
                    false,
                ),
            decreases n - i,
        {
            i += 1;
        }
        let ghost mid = i as int;
        while i < n && is_sep(self.t[i])
            invariant
                self.caret <= i <= n == self.t@.len(),
                forth_over(self.t@, mid, true) == forth_over(self.t@, i as int, true),
            decreases n - i,
        {
            i += 1;
        }
        i
    }

    /// Selects the whole text.
    pub fn select_all(&mut self)
        ensures
            final(self)@ == all_selected(old(self)@),
            final(self)@.ok(),
    {
        self.anchor = 0;
        self.caret = self.t.len();
    }

    /// What is selected.
    pub fn sel_text(&self) -> (r: String)
        requires
            self@.ok(),
        ensures
            r@ == selected(self@),
    {
        let (a, b) = self.sel();
        decode_range(&self.t, a, b)
    }
}

// ── laws ──────────────────────────────────────────────────────────────────
/// A field holds the text it was made with.
pub proof fn law_fresh_text(s: Seq<char>, numeric: bool)
    ensures
        decoded(fresh(s, numeric).t) == s,
        fresh(s, numeric).ok(),
{
    law_decode_of_encode(s);
}

/// Whatever is done to a field, caret and anchor stay within its text.
pub proof fn law_caret_stays_within(f: Field, ch: u16, pos: int, keep: bool)
    requires
        f.ok(),
        0 <= pos,
    ensures
        cut(f).ok(),
        typed(f, ch).ok(),
        backspaced(f).ok(),
        deleted(f).ok(),
        moved(f, pos, keep).ok(),
        all_selected(f).ok(),
{
}

/// Backspace undoes the typing of a code unit where nothing was selected.
pub proof fn law_backspace_undoes_typing(f: Field, ch: u16)
    requires
        f.ok(),
        f.caret == f.anchor,
        !f.numeric || in_number(ch),
    ensures
        backspaced(typed(f, ch)) == f,
{
    assert(cut(f).t =~= f.t);
    let unit = if f.numeric && ch == 0x2C {
        0x2Eu16
    } else {
        ch
    };
    assert(f.t.insert(f.caret, unit).remove(f.caret) =~= f.t);
    assert(backspaced(typed(f, ch)).t =~= f.t);
}

/// A text without control characters, typed where nothing is selected in a field
/// for any text, stands at the caret, and the caret behind it.
pub proof fn law_typed_text_stands_at_caret(f: Field, units: Seq<u16>)
    requires
        f.ok(),
        f.caret == f.anchor,
        !f.numeric,
        forall|i: int| 0 <= i < units.len() ==> #[trigger] units[i] >= 0x20,
    ensures
        typed_all(f, units) == (Field {
            t: f.t.take(f.caret) + units + f.t.skip(f.caret),
            caret: f.caret + units.len(),
            anchor: f.caret + units.len(),
            numeric: false,
        }),
    decreases units.len(),
{
    if units.len() == 0 {
        assert(f.t.take(f.caret) + units + f.t.skip(f.caret) =~= f.t);
    } else {
        let u = units.drop_last();
        assert forall|i: int| 0 <= i < u.len() implies #[trigger] u[i] >= 0x20 by {
            assert(units[i] == u[i]);
        }
        law_typed_text_stands_at_caret(f, u);
        let b = typed_all(f, u);
        assert(cut(b).t =~= b.t);
        assert(b.t.insert(b.caret, units.last()) =~= f.t.take(f.caret) + units + f.t.skip(
            f.caret,
        ));
    }
}

/// Selecting everything and typing puts the new text in place of the old one.
pub proof fn law_typing_replaces_selection(f: Field, ch: u16)
    requires
        f.ok(),
        !f.numeric,
    ensures
        typed(all_selected(f), ch).t == seq![ch],
{
    let a = all_selected(f);
    assert(cut(a).t =~= Seq::<u16>::empty());
    assert(cut(a).t.insert(0, ch) =~= seq![ch]);
}

} // verus!
