//! The keyboard input that types a text or erases characters.

use crate::utf16::{encode, encoded};
use vstd::prelude::*;

verus! {

/// The virtual key of Backspace.
pub const VK_BACK: u16 = 0x08;

#[derive(Clone, Copy, PartialEq, Eq, Structural, Debug)]
pub enum Key {
    /// A code unit, whatever the keyboard layout is.
    Unit(u16),
    /// A key of the keyboard.
    Virtual(u16),
}

/// A key goes down or up.
#[derive(Clone, Copy, PartialEq, Eq, Structural, Debug)]
pub struct KeyEvent {
    pub key: Key,
    pub up: bool,
}

/// Each of the keys pressed and released, one after another.
pub open spec fn presses(keys: Seq<Key>) -> Seq<KeyEvent>
    decreases keys.len(),
{
    if keys.len() == 0 {
        Seq::empty()
    } else {
        presses(keys.drop_last()).push(KeyEvent { key: keys.last(), up: false }).push(
            KeyEvent { key: keys.last(), up: true },
        )
    }
}

/// The input that types a text: one key for each code unit.
pub fn type_text(text: &str) -> (r: Vec<KeyEvent>)
    ensures
        r@ == presses(encoded(text@).map_values(|u: u16| Key::Unit(u))),
        r@.len() == 2 * encoded(text@).len(),
        forall|i: int|
            0 <= i < encoded(text@).len() ==> r@[2 * i] == (KeyEvent {
                key: Key::Unit(#[trigger] encoded(text@)[i]),
                up: false,
            }) && r@[2 * i + 1] == (KeyEvent { key: Key::Unit(encoded(text@)[i]), up: true }),
{
    let units = encode(text);
    let ghost keys = units@.map_values(|u: u16| Key::Unit(u));
    let mut r: Vec<KeyEvent> = Vec::new();
    let mut i: usize = 0;
    assert(keys.take(0) =~= Seq::<Key>::empty());
    while i < units.len()
        invariant
            i <= units@.len(),
            keys == units@.map_values(|u: u16| Key::Unit(u)),
            r@ == presses(keys.take(i as int)),
        decreases units@.len() - i,
    {
        assert(keys.take(i + 1).drop_last() =~= keys.take(i as int));
        assert(keys.take(i + 1).last() == Key::Unit(units@[i as int]));
        r.push(KeyEvent { key: Key::Unit(units[i]), up: false });
        r.push(KeyEvent { key: Key::Unit(units[i]), up: true });
        i += 1;
    }
    assert(keys.take(i as int) =~= keys);
    proof {
        law_keys_are_released(keys);
        assert forall|k: int| 0 <= k < encoded(text@).len() implies r@[2 * k] == (KeyEvent {
            key: Key::Unit(#[trigger] encoded(text@)[k]),
            up: false,
        }) && r@[2 * k + 1] == (KeyEvent { key: Key::Unit(encoded(text@)[k]), up: true }) by {
            assert(keys[k] == Key::Unit(encoded(text@)[k]));
        }
    }
    r
}

/// The input that presses Backspace `n` times.
pub fn backspace(n: usize) -> (r: Vec<KeyEvent>)
    ensures
        r@ == presses(Seq::new(n as nat, |i: int| Key::Virtual(VK_BACK))),
        r@.len() == 2 * n,
        forall|i: int|
            0 <= i < r@.len() ==> #[trigger] r@[i] == (KeyEvent {
                key: Key::Virtual(0x08),
                up: i % 2 == 1,
            }),
{
    let ghost keys = Seq::new(n as nat, |i: int| Key::Virtual(VK_BACK));
    let mut r: Vec<KeyEvent> = Vec::new();
    let mut i: usize = 0;
    assert(keys.take(0) =~= Seq::<Key>::empty());
    while i < n
        invariant
            i <= n,
            keys == Seq::new(n as nat, |x: int| Key::Virtual(VK_BACK)),
            r@ == presses(keys.take(i as int)),
        decreases n - i,
    {
        assert(keys.take(i + 1).drop_last() =~= keys.take(i as int));
        r.push(KeyEvent { key: Key::Virtual(VK_BACK), up: false });
        r.push(KeyEvent { key: Key::Virtual(VK_BACK), up: true });
        i += 1;
    }
    assert(keys.take(i as int) =~= keys);
    proof {
        law_keys_are_released(keys);
        assert forall|k: int| 0 <= k < r@.len() implies #[trigger] r@[k] == (KeyEvent {
            key: Key::Virtual(0x08),
            up: k % 2 == 1,
        }) by {
            assert(keys[k / 2] == Key::Virtual(0x08));
            assert(k == 2 * (k / 2) || k == 2 * (k / 2) + 1);
        }
    }
    r
}

/// Every key that goes down comes up right after, and there are two events for
/// each key.
pub proof fn law_keys_are_released(keys: Seq<Key>)
    ensures
        presses(keys).len() == 2 * keys.len(),
        forall|i: int|
            0 <= i < keys.len() ==> presses(keys)[2 * i] == (KeyEvent {
                key: #[trigger] keys[i],
                up: false,
            }) && presses(keys)[2 * i + 1] == (KeyEvent { key: keys[i], up: true }),
    decreases keys.len(),
{
    if keys.len() > 0 {
        let short = keys.drop_last();
        law_keys_are_released(short);
        assert forall|i: int| 0 <= i < keys.len() implies presses(keys)[2 * i] == (KeyEvent {
            key: #[trigger] keys[i],
            up: false,
        }) && presses(keys)[2 * i + 1] == (KeyEvent { key: keys[i], up: true }) by {
            if i < short.len() {
                assert(short[i] == keys[i]);
                assert(presses(keys)[2 * i] == presses(short)[2 * i]);
                assert(presses(keys)[2 * i + 1] == presses(short)[2 * i + 1]);
            }
        }
    }
}

} // verus!
