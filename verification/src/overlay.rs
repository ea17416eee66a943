//! When the overlay is on the screen, and what its buttons do.
//!
//! Times are nanoseconds of a clock that never goes back.

use crate::text::same;
use vstd::prelude::*;

verus! {

/// A part of the overlay.
#[derive(Clone, Copy, PartialEq, Eq, Structural, Debug)]
pub enum Region {
    Outside,
    Pill,
    Mic,
    Gear,
    Close,
}

/// How long the overlay stays as if the mouse were over it after the mouse left.
pub const HOVER_GRACE: u64 = 450_000_000;

/// How long the overlay stays after dictation ended, where it shows only with
/// dictation.
pub const OVERLAY_LINGER: u64 = 8_000_000_000;

/// The period of the timer while the overlay is on the screen, in milliseconds.
pub const TIMER_FAST: u32 = 8;

/// The period of the timer while it is not.
pub const TIMER_IDLE: u32 = 40;

/// What the overlay remembers.
#[derive(Clone, Copy, PartialEq, Eq, Structural, Debug)]
pub struct Overlay {
    /// The mouse is over it.
    pub hovered: bool,
    /// When the mouse left it.
    pub left_at: Option<u64>,
    /// The system will tell when the mouse leaves.
    pub tracking: bool,
    /// The part under the mouse.
    pub region: Region,
    /// Dictation was on at the last tick.
    pub last_dictating: bool,
    /// When dictation ended.
    pub ended_at: Option<u64>,
    /// It was closed by its button.
    pub dismissed: bool,
    /// The fast timer runs.
    pub hires: bool,
}

/// Less than `limit` has passed since the moment, if there is one.
pub open spec fn recent(at: Option<u64>, now: u64, limit: u64) -> bool {
    match at {
        Some(t) => now - t < limit,
        None => false,
    }
}

fn is_recent(at: Option<u64>, now: u64, limit: u64) -> (r: bool)
    requires
        limit > 0,
    ensures
        r == recent(at, now, limit),
{
    match at {
        Some(t) => if now <= t {
            true
        } else {
            now - t < limit
        },
        None => false,
    }
}

/// The mouse is over the overlay or left it a moment ago.
pub open spec fn active(o: Overlay, now: u64) -> bool {
    o.hovered || recent(o.left_at, now, HOVER_GRACE)
}

/// The overlay once it has seen whether dictation is on.
pub open spec fn noticed(o: Overlay, dictating: bool, now: u64) -> Overlay {
    if dictating == o.last_dictating {
        o
    } else if dictating {
        Overlay { dismissed: false, ended_at: None, last_dictating: true, ..o }
    } else {
        Overlay { ended_at: Some(now), last_dictating: false, ..o }
    }
}

/// The overlay belongs on the screen.
pub open spec fn wanted(
    o: Overlay,
    mode: Seq<char>,
    dictating: bool,
    enabled: bool,
    now: u64,
) -> bool {
    if mode == "hidden"@ {
        false
    } else if mode == "always"@ {
        enabled && !o.dismissed
    } else {
        dictating || (!o.dismissed && (recent(o.ended_at, now, OVERLAY_LINGER) || active(o, now)))
    }
}

/// What a tick asks for.
#[derive(Clone, Copy, PartialEq, Eq, Structural, Debug)]
pub struct Tick {
    /// The overlay belongs on the screen.
    pub show: bool,
    /// The window is to be placed and shown now.
    pub appear: bool,
    /// A frame is to be drawn, also while the overlay fades.
    pub draw: bool,
    /// The timer is to run with this period from now on.
    pub timer: Option<u32>,
}

/// What a tick asks for and what the overlay remembers after it.
pub open spec fn ticked(
    o: Overlay,
    mode: Seq<char>,
    dictating: bool,
    enabled: bool,
    visible: bool,
    now: u64,
) -> (Overlay, Tick) {
    let seen = noticed(o, dictating, now);
    let show = wanted(seen, mode, dictating, enabled, now);
    let on_screen = show || visible;
    (
        Overlay { hires: on_screen, ..seen },
        Tick {
            show,
            appear: show && !visible,
            draw: on_screen,
            timer: if on_screen == o.hires {
                None
            } else if on_screen {
                Some(TIMER_FAST)
            } else {
                Some(TIMER_IDLE)
            },
        },
    )
}

/// What a click asks for.
#[derive(Clone, Copy, PartialEq, Eq, Structural, Debug)]
pub enum Click {
    Nothing,
    /// Start or end dictation.
    Toggle,
    OpenSettings,
}

impl Overlay {
    pub fn new() -> (r: Overlay)
        ensures
            r == (Overlay {
                hovered: false,
                left_at: None,
                tracking: false,
                region: Region::Outside,
                last_dictating: false,
                ended_at: None,
                dismissed: false,
                hires: false,
            }),
    {
        Overlay {
            hovered: false,
            left_at: None,
            tracking: false,
            region: Region::Outside,
            last_dictating: false,
            ended_at: None,
            dismissed: false,
            hires: false,
        }
    }

    /// Is the mouse over the overlay, or was it a moment ago.
    pub fn hover_active(&self, now: u64) -> (r: bool)
        ensures
            r == active(*self, now),
    {
        self.hovered || is_recent(self.left_at, now, HOVER_GRACE)
    }

    /// The timer ticks. `visible` says whether the window is on the screen.
    pub fn tick(
        &mut self,
        mode: &str,
        dictating: bool,
        enabled: bool,
        visible: bool,
        now: u64,
    ) -> (r: Tick)
        ensures
            (*final(self), r) == ticked(*old(self), mode@, dictating, enabled, visible, now),
    {
        if dictating != self.last_dictating {
            if dictating {
                self.dismissed = false;
                self.ended_at = None;
            } else {
                self.ended_at = Some(now);
            }
            self.last_dictating = dictating;
        }
        let lingering = is_recent(self.ended_at, now, OVERLAY_LINGER);
        let show = if same(mode, "hidden") {
            false
        } else if same(mode, "always") {
            enabled && !self.dismissed
        } else {
            dictating || (!self.dismissed && (lingering || self.hover_active(now)))
        };
        let on_screen = show || visible;
        let mut timer: Option<u32> = None;
        if on_screen && !self.hires {
            timer = Some(TIMER_FAST);
            self.hires = true;
        } else if !on_screen && self.hires {
            timer = Some(TIMER_IDLE);
            self.hires = false;
        }
        Tick { show, appear: show && !visible, draw: on_screen, timer }
    }

    /// A frame was drawn. `gone` says whether the overlay has faded away. Returns
    /// whether the window is to be hidden now.
    pub fn faded(&mut self, show: bool, gone: bool) -> (r: bool)
        ensures
            r == (!show && gone),
            *final(self) == (if r {
                Overlay {
                    hovered: false,
                    left_at: None,
                    tracking: false,
                    region: Region::Outside,
                    ..*old(self)
                }
            } else {
                *old(self)
            }),
    {
        if !show && gone {
            self.hovered = false;
            self.left_at = None;
            self.tracking = false;
            self.region = Region::Outside;
            true
        } else {
            false
        }
    }

    /// The mouse moves over a part of the overlay. Returns whether the system is
    /// to be asked to tell when the mouse leaves.
    pub fn mouse_move(&mut self, region: Region) -> (r: bool)
        ensures
            r == !old(self).tracking,
            *final(self) == (Overlay {
                hovered: true,
                left_at: None,
                region,
                tracking: true,
                ..*old(self)
            }),
    {
        self.hovered = true;
        self.left_at = None;
        self.region = region;
        let ask = !self.tracking;
        self.tracking = true;
        ask
    }

    /// The mouse left.
    pub fn mouse_leave(&mut self, now: u64)
        ensures
            *final(self) == (Overlay {
                hovered: false,
                left_at: Some(now),
                tracking: false,
                region: Region::Outside,
                ..*old(self)
            }),
    {
        self.hovered = false;
        self.left_at = Some(now);
        self.tracking = false;
        self.region = Region::Outside;
    }

    /// The mouse button was released over a part of the overlay. The cross hides
    /// the overlay in any mode and ends dictation if it is on.
    pub fn click(&mut self, region: Region, dictating: bool) -> (r: Click)
        ensures
            r == (match region {
                Region::Mic => Click::Toggle,
                Region::Close => if dictating {
                    Click::Toggle
                } else {
                    Click::Nothing
                },
                Region::Gear => Click::OpenSettings,
                _ => Click::Nothing,
            }),
            *final(self) == (Overlay {
                dismissed: old(self).dismissed || region == Region::Close,
                ..*old(self)
            }),
    {
        match region {
            Region::Mic => Click::Toggle,
            Region::Close => {
                self.dismissed = true;
                if dictating {
                    Click::Toggle
                } else {
                    Click::Nothing
                }
            },
            Region::Gear => Click::OpenSettings,
            _ => Click::Nothing,
        }
    }

    /// Is the mouse over a button.
    pub fn over_button(&self) -> (r: bool)
        ensures
            r == (self.region == Region::Mic || self.region == Region::Gear || self.region
                == Region::Close),
    {
        match self.region {
            Region::Mic | Region::Gear | Region::Close => true,
            _ => false,
        }
    }
}

/// Do clicks at a part reach the overlay, or what lies behind it.
pub fn takes_clicks(region: Region) -> (r: bool)
    ensures
        r == (region != Region::Outside),
{
    region != Region::Outside
}

/// Half of a number, rounded towards zero.
pub open spec fn half(n: int) -> int {
    if n >= 0 {
        n / 2
    } else {
        -((-n) / 2)
    }
}

/// Where the overlay goes: in the middle of the work area, `margin` above its
/// lower edge.
pub fn place(left: i32, right: i32, bottom: i32, w: i32, h: i32, margin: i32) -> (r: (i32, i32))
    requires
        i32::MIN <= right - left <= i32::MAX,
        i32::MIN <= right - left - w <= i32::MAX,
        i32::MIN <= left + half(right - left - w) <= i32::MAX,
        i32::MIN <= bottom - h <= i32::MAX,
        i32::MIN <= bottom - h - margin <= i32::MAX,
    ensures
        r.0 == left + half(right - left - w),
        r.1 == bottom - h - margin,
        ({
            let before = r.0 - left;
            let behind = right - (r.0 + w);
            if right - left >= w {
                0 <= before <= behind <= before + 1
            } else {
                before - 1 <= behind <= before <= 0
            }
        }),
{
    let d: i64 = right as i64 - left as i64 - w as i64;
    let x: i64 = if d >= 0 {
        left as i64 + d / 2
    } else {
        left as i64 - (-d) / 2
    };
    (x as i32, bottom - h - margin)
}

// ── laws ──────────────────────────────────────────────────────────────────
/// The hidden overlay is never shown.
pub proof fn law_hidden_stays_hidden(
    o: Overlay,
    dictating: bool,
    enabled: bool,
    visible: bool,
    now: u64,
)
    ensures
        !ticked(o, "hidden"@, dictating, enabled, visible, now).1.show,
{
}

/// A closed overlay stays away, whatever the mode, until dictation begins: ticks
/// without dictation neither show it nor forget that it was closed.
pub proof fn law_closed_until_dictation(
    o: Overlay,
    mode: Seq<char>,
    enabled: bool,
    visible: bool,
    now: u64,
)
    requires
        o.dismissed,
    ensures
        ({
            let (next, t) = ticked(o, mode, false, enabled, visible, now);
            !t.show && next.dismissed
        }),
{
}

/// The beginning of dictation brings a closed overlay back, unless it is hidden
/// or, in the mode where it always shows, listening is off.
pub proof fn law_dictation_reopens(
    o: Overlay,
    mode: Seq<char>,
    enabled: bool,
    visible: bool,
    now: u64,
)
    requires
        !o.last_dictating,
        mode != "hidden"@,
        mode == "always"@ ==> enabled,
    ensures
        ({
            let (next, t) = ticked(o, mode, true, enabled, visible, now);
            t.show && !next.dismissed
        }),
{
}

/// In the mode that shows the overlay with dictation, it stays for a while after
/// dictation ended, and then goes unless the mouse is over it.
pub proof fn law_overlay_lingers(o: Overlay, mode: Seq<char>, enabled: bool, visible: bool, now: u64)
    requires
        mode != "hidden"@,
        mode != "always"@,
        !o.last_dictating,
        !o.dismissed,
    ensures
        ticked(o, mode, false, enabled, visible, now).1.show == (recent(
            o.ended_at,
            now,
            OVERLAY_LINGER,
        ) || active(o, now)),
{
}

/// The fast timer runs exactly while the overlay is on the screen or about to
/// be, and a new period is asked for only when that changes.
pub proof fn law_fast_timer(
    o: Overlay,
    mode: Seq<char>,
    dictating: bool,
    enabled: bool,
    visible: bool,
    now: u64,
)
    ensures
        ({
            let (next, t) = ticked(o, mode, dictating, enabled, visible, now);
            &&& next.hires == (t.show || visible)
            &&& t.timer is Some <==> next.hires != o.hires
            &&& t.timer == Some(TIMER_FAST) ==> next.hires
            &&& t.timer == Some(TIMER_IDLE) ==> !next.hires
        }),
{
}

} // verus!
