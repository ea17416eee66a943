//! State that the threads share.

use vstd::prelude::*;

verus! {

/// What the windows show: the sound level, and whether dictation and listening
/// are on.
#[derive(Clone, Copy, PartialEq, Eq, Structural, Debug)]
pub struct Shared {
    /// The sound level, 0 to 1000.
    pub level: u32,
    pub dictating: bool,
    pub enabled: bool,
}

impl Shared {
    /// Silence, no dictation, listening on.
    pub fn init() -> (r: Shared)
        ensures
            r == (Shared { level: 0, dictating: false, enabled: true }),
    {
        Shared { level: 0, dictating: false, enabled: true }
    }

    /// A new sound level.
    pub fn send_level(&mut self, level: u32)
        ensures
            *final(self) == (Shared { level, ..*old(self) }),
    {
        self.level = level;
    }

    pub fn current_level(&self) -> (r: u32)
        ensures
            r == self.level,
    {
        self.level
    }

    pub fn is_dictating(&self) -> (r: bool)
        ensures
            r == self.dictating,
    {
        self.dictating
    }

    pub fn is_enabled(&self) -> (r: bool)
        ensures
            r == self.enabled,
    {
        self.enabled
    }

    /// Dictation began or ended.
    pub fn set_dictating(&mut self, on: bool)
        ensures
            *final(self) == (Shared { dictating: on, ..*old(self) }),
    {
        self.dictating = on;
    }

    /// Listening was turned on or off.
    pub fn set_enabled(&mut self, on: bool)
        ensures
            *final(self) == (Shared { enabled: on, ..*old(self) }),
    {
        self.enabled = on;
    }
}

/// The low and the high half of a number, each as 32 bits with a sign.
pub open spec fn low_half(v: i64) -> i32 {
    (v & 0xFFFF_FFFF) as i32
}

pub open spec fn high_half(v: i64) -> i32 {
    ((v >> 32) & 0xFFFF_FFFF) as i32
}

/// The number that two halves make.
pub open spec fn whole(lo: i32, hi: i32) -> i64 {
    ((hi as u32 as i64) << 32) | (lo as u32 as i64)
}

/// Parts the value of a window handle into two halves.
pub fn pack_hwnd(value: isize) -> (r: (i32, i32))
    ensures
        r.0 == low_half(value as i64),
        r.1 == high_half(value as i64),
{
    let v: i64 = value as i64;
    ((v & 0xFFFF_FFFF) as i32, ((v >> 32) & 0xFFFF_FFFF) as i32)
}

/// The value of a window handle from its two halves.
pub fn unpack_hwnd(lo: i32, hi: i32) -> (r: isize)
    ensures
        r == whole(lo, hi) as isize,
{
    let l: i64 = lo as u32 as i64;
    let h: i64 = hi as u32 as i64;
    ((h << 32) | l) as isize
}

/// The value of a window handle is read back from its halves.
pub proof fn law_hwnd(value: isize)
    ensures
        whole(low_half(value as i64), high_half(value as i64)) as isize == value,
{
    let v = value as i64;
    assert((((((v >> 32) & 0xFFFF_FFFF) as i32) as u32 as i64) << 32) | (((v & 0xFFFF_FFFF)
        as i32) as u32 as i64) == v) by (bit_vector);
}

} // verus!
