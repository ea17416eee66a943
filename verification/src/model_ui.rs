//! The window that offers to download a model and shows how far it has come.

use crate::model::{human, in_words, Installer, Progress, Status};
use vstd::prelude::*;

verus! {

/// The main button: downloads or tries again.
pub const B_MAIN: u8 = 0;

/// The other button: puts off, stops or closes.
pub const B_ALT: u8 = 1;

/// The cross.
pub const B_CLOSE: u8 = 2;

/// How long the window shows that all is done, in nanoseconds.
pub const DONE_FOR: u64 = 1_600_000_000;

// ── texts ─────────────────────────────────────────────────────────────────
/// The title, the text below it and the main button, if there is one.
pub open spec fn labelled(p: Progress) -> (Seq<char>, Seq<char>, Option<Seq<char>>) {
    match p {
        Progress::Idle | Progress::Cancelled => (
            "Нужна модель распознавания"@,
            "Один раз скачаем ~23 МБ — дальше всё работает без интернета"@,
            Some("Скачать"@),
        ),
        Progress::Downloading { got, total } => (
            "Загружаю модель…"@,
            in_words(got as int, total as int),
            None,
        ),
        Progress::Extracting => ("Распаковываю…"@, "Почти готово"@, None),
        Progress::Done => ("Готово"@, "Модель на месте — можно диктовать"@, None),
        Progress::Failed(e) => ("Не удалось скачать"@, e, Some("Повторить"@)),
    }
}

/// The title, the text below it and the main button, if there is one.
pub fn labels(st: &Status) -> (r: (String, String, Option<String>))
    ensures
        (
            r.0@,
            r.1@,
            match r.2 {
                Some(s) => Some(s@),
                None => None,
            },
        ) == labelled(st@),
{
    match st {
        Status::Idle | Status::Cancelled => (
            "Нужна модель распознавания".to_owned(),
            "Один раз скачаем ~23 МБ — дальше всё работает без интернета".to_owned(),
            Some("Скачать".to_owned()),
        ),
        Status::Downloading { got, total } => (
            "Загружаю модель…".to_owned(),
            human(*got, *total),
            None,
        ),
        Status::Extracting => ("Распаковываю…".to_owned(), "Почти готово".to_owned(), None),
        Status::Done => (
            "Готово".to_owned(),
            "Модель на месте — можно диктовать".to_owned(),
            None,
        ),
        Status::Failed(e) => (
            "Не удалось скачать".to_owned(),
            e.clone(),
            Some("Повторить".to_owned()),
        ),
    }
}

/// The label of the other button.
pub open spec fn alt_label(p: Progress) -> Seq<char> {
    match p {
        Progress::Downloading { .. } | Progress::Extracting => "Отмена"@,
        Progress::Done => "Закрыть"@,
        _ => "Не сейчас"@,
    }
}

/// The buttons from the right to the left, each with its label.
pub open spec fn button_row(p: Progress) -> Seq<(u8, Seq<char>)> {
    match labelled(p).2 {
        Some(m) => seq![(B_MAIN, m), (B_ALT, alt_label(p))],
        None => seq![(B_ALT, alt_label(p))],
    }
}

/// The buttons from the right to the left, each with its label.
pub fn buttons(st: &Status) -> (r: Vec<(u8, String)>)
    ensures
        r@.map_values(|b: (u8, String)| (b.0, b.1@)) == button_row(st@),
{
    let alt = match st {
        Status::Downloading { .. } | Status::Extracting => "Отмена".to_owned(),
        Status::Done => "Закрыть".to_owned(),
        _ => "Не сейчас".to_owned(),
    };
    let mut out: Vec<(u8, String)> = Vec::new();
    let (_, _, main) = labels(st);
    if let Some(m) = main {
        out.push((B_MAIN, m));
    }
    out.push((B_ALT, alt));
    assert(out@.map_values(|b: (u8, String)| (b.0, b.1@)) =~= button_row(st@));
    out
}

// ── buttons ───────────────────────────────────────────────────────────────
/// What a button asks for.
#[derive(Clone, Copy, PartialEq, Eq, Structural, Debug)]
pub enum Press {
    /// Begin to download in the background, and draw.
    Begin,
    /// Draw: a download is under way already.
    Draw,
    /// Close the window.
    Close,
}

/// A button is clicked. The main one begins a download unless one is running;
/// any other stops one that is running and closes the window.
pub fn activate(id: u8, model: &mut Installer) -> (r: Press)
    ensures
        id == B_MAIN && !old(model).running ==> r == Press::Begin && final(model).running
            && !final(model).cancelled && final(model).status@ == (Progress::Downloading {
            got: 0,
            total: 0,
        }),
        id == B_MAIN && old(model).running ==> r == Press::Draw && *final(model) == *old(model),
        id != B_MAIN ==> r == Press::Close && final(model).running == old(model).running
            && final(model).status == old(model).status && final(model).cancelled == (old(
            model,
        ).cancelled || old(model).running),
{
    if id == B_MAIN {
        if model.start() {
            Press::Begin
        } else {
            Press::Draw
        }
    } else {
        if model.is_running() {
            model.cancel();
        }
        Press::Close
    }
}

/// What the mouse does in the window, and since when all is done.
#[derive(Clone, Copy)]
pub struct Dlg {
    /// The button under the mouse.
    pub hot: Option<u8>,
    /// The button that the mouse went down over.
    pub press: Option<u8>,
    pub track_leave: bool,
    /// When the window first saw that all is done.
    pub done_at: Option<u64>,
}

/// The window is to be drawn, closed or left.
#[derive(Clone, Copy, PartialEq, Eq, Structural, Debug)]
pub enum Next {
    Wait,
    Draw,
    Close,
}

/// What a tick of the timer makes of the window, and what is to be done.
pub open spec fn ticked(d: Dlg, p: Progress, hovering: bool, now: u64) -> (Dlg, Next) {
    let moving = p is Downloading || p is Extracting || hovering;
    if p is Done {
        let at = match d.done_at {
            Some(t) => t,
            None => now,
        };
        (
            Dlg { done_at: Some(at), ..d },
            if now - at > DONE_FOR {
                Next::Close
            } else {
                Next::Draw
            },
        )
    } else if moving {
        (d, Next::Draw)
    } else {
        (d, Next::Wait)
    }
}

impl Dlg {
    /// A window that was just opened.
    pub fn new() -> (r: Dlg)
        ensures
            r == (Dlg { hot: None, press: None, track_leave: false, done_at: None }),
    {
        Dlg { hot: None, press: None, track_leave: false, done_at: None }
    }

    /// The mouse moves over a button, or beside them. Returns whether to ask to
    /// be told when it leaves.
    pub fn mouse_move(&mut self, hit: Option<u8>) -> (track: bool)
        ensures
            *final(self) == (Dlg { hot: hit, track_leave: true, ..*old(self) }),
            track == !old(self).track_leave,
    {
        self.hot = hit;
        let track = !self.track_leave;
        self.track_leave = true;
        track
    }

    /// The mouse leaves the window.
    pub fn mouse_leave(&mut self)
        ensures
            *final(self) == (Dlg { hot: None, track_leave: false, ..*old(self) }),
    {
        self.hot = None;
        self.track_leave = false;
    }

    /// The mouse button goes down.
    pub fn mouse_down(&mut self, hit: Option<u8>)
        ensures
            *final(self) == (Dlg { press: hit, ..*old(self) }),
    {
        self.press = hit;
    }

    /// The mouse button goes up. Returns the button that was clicked, if it went
    /// down over the same one.
    pub fn mouse_up(&mut self, hit: Option<u8>) -> (r: Option<u8>)
        ensures
            *final(self) == (Dlg { press: None, ..*old(self) }),
            r == (if hit is Some && hit == old(self).press {
                hit
            } else {
                None
            }),
    {
        let press = self.press;
        self.press = None;
        match (hit, press) {
            (Some(h), Some(p)) => if h == p {
                hit
            } else {
                None
            },
            _ => None,
        }
    }

    /// The timer ticks. `hovering` says whether a button is changing its colour.
    /// While all is done the window is drawn, and closed after a while.
    pub fn tick(&mut self, st: &Status, hovering: bool, now: u64) -> (r: Next)
        ensures
            (*final(self), r) == ticked(*old(self), st@, hovering, now),
    {
        let moving = match st {
            Status::Downloading { .. } | Status::Extracting => true,
            _ => hovering,
        };
        if let Status::Done = st {
            let at: u64 = match self.done_at {
                Some(t) => t,
                None => now,
            };
            self.done_at = Some(at);
            if now >= at && now - at > DONE_FOR {
                Next::Close
            } else {
                Next::Draw
            }
        } else if moving {
            Next::Draw
        } else {
            Next::Wait
        }
    }
}

/// Does a key close the window: Escape does, and a download goes on.
pub fn closes(key: u32) -> (r: bool)
    ensures
        r == (key == 0x1B),
{
    key == 0x1B
}

// ── laws ──────────────────────────────────────────────────────────────────
/// The window offers to download exactly while nothing is being downloaded,
/// unpacked or done.
pub proof fn law_main_button(p: Progress)
    ensures
        button_row(p).len() == 2 <==> p is Idle || p is Cancelled || p is Failed,
        button_row(p).last().0 == B_ALT,
{
}

/// Once all is done, the window closes at the first tick that comes late enough
/// after the tick that first saw it, and at no tick before.
pub proof fn law_closes_after_a_while(d: Dlg, first: u64, later: u64, hovering: bool)
    requires
        d.done_at is None,
        first <= later,
    ensures
        ticked(d, Progress::Done, hovering, first).1 == Next::Draw,
        ticked(ticked(d, Progress::Done, hovering, first).0, Progress::Done, hovering, later).1
            == Next::Close <==> later - first > DONE_FOR,
{
}

/// The window is never closed by the timer unless all is done.
pub proof fn law_stays_until_done(d: Dlg, p: Progress, hovering: bool, now: u64)
    requires
        !(p is Done),
    ensures
        ticked(d, p, hovering, now).0 == d,
        ticked(d, p, hovering, now).1 != Next::Close,
{
}

} // verus!
