//! The settings window: what its parts do on clicks and keys, and the settings
//! that it saves. Where things lie on the screen is not known here: a click
//! comes with the part it hit.

use crate::config::{Config, Settings};
use crate::edit::{
    all_selected, backspaced, cut, deleted, fresh, left_word, moved, right_word, selected, typed,
    typed_all, Edit, Field,
};
use crate::text::{
    chars_of, join, joined, lowercase, part_len, same, string_of,
    texts, to_lowercase, trim, trimmed,
};
use crate::utf16::{decoded, encoded};
use crate::words::{
    capture, captured, hotkey_label, listed, nonempty, part_labels, split_words, Mods,
};
use vstd::prelude::*;

verus! {

// ── parts of the window ───────────────────────────────────────────────────
#[derive(Clone, Copy, PartialEq, Eq, Structural, Debug)]
pub enum Id {
    Close,
    Device,
    Wake,
    Stop,
    Hotkey,
    Mode0,
    Mode1,
    Mode2,
    Live,
    More,
    Silence,
    OvScale,
    Hotwords,
    Space,
    Caps,
    Startup,
    Updates,
    Cancel,
    Save,
}

/// What kind of control a part is.
#[derive(Clone, Copy, PartialEq, Eq, Structural, Debug)]
pub enum K {
    Icon,
    Edit,
    Select,
    Seg,
    Toggle,
    Btn,
    Slider,
    More,
}

pub open spec fn kind(id: Id) -> K {
    match id {
        Id::Close => K::Icon,
        Id::Device => K::Select,
        Id::Wake | Id::Stop | Id::Silence | Id::Hotwords => K::Edit,
        Id::Hotkey | Id::Cancel | Id::Save => K::Btn,
        Id::Mode0 | Id::Mode1 | Id::Mode2 => K::Seg,
        Id::Live | Id::Space | Id::Caps | Id::Startup | Id::Updates => K::Toggle,
        Id::More => K::More,
        Id::OvScale => K::Slider,
    }
}

/// What kind of control a part is.
pub fn kind_of(id: Id) -> (r: K)
    ensures
        r == kind(id),
{
    match id {
        Id::Close => K::Icon,
        Id::Device => K::Select,
        Id::Wake | Id::Stop | Id::Silence | Id::Hotwords => K::Edit,
        Id::Hotkey | Id::Cancel | Id::Save => K::Btn,
        Id::Mode0 | Id::Mode1 | Id::Mode2 => K::Seg,
        Id::Live | Id::Space | Id::Caps | Id::Startup | Id::Updates => K::Toggle,
        Id::More => K::More,
        Id::OvScale => K::Slider,
    }
}

/// The parts below «Дополнительно», from the top down.
pub open spec fn more_parts() -> Seq<Id> {
    seq![
        Id::Silence,
        Id::Hotwords,
        Id::OvScale,
        Id::Space,
        Id::Caps,
        Id::Startup,
        Id::Updates,
    ]
}

/// The parts that Tab goes through, in order, where the first `shown` of those
/// below «Дополнительно» are visible.
pub open spec fn tab_order(shown: int) -> Seq<Id> {
    seq![
        Id::Device,
        Id::Wake,
        Id::Stop,
        Id::Hotkey,
        Id::Mode0,
        Id::Mode1,
        Id::Mode2,
        Id::Live,
        Id::More,
    ] + more_parts().take(
        if shown < 7 {
            shown
        } else {
            7
        },
    ) + seq![Id::Cancel, Id::Save]
}

/// The parts that Tab goes through.
pub fn focusables(shown: usize) -> (r: Vec<Id>)
    ensures
        r@ == tab_order(shown as int),
{
    let mut v: Vec<Id> = vec![
        Id::Device,
        Id::Wake,
        Id::Stop,
        Id::Hotkey,
        Id::Mode0,
        Id::Mode1,
        Id::Mode2,
        Id::Live,
        Id::More,
    ];
    let ghost front = v@;
    let more: Vec<Id> = vec![
        Id::Silence,
        Id::Hotwords,
        Id::OvScale,
        Id::Space,
        Id::Caps,
        Id::Startup,
        Id::Updates,
    ];
    assert(more@ =~= more_parts());
    let n: usize = if shown < 7 {
        shown
    } else {
        7
    };
    let mut i: usize = 0;
    while i < n
        invariant
            i <= n <= 7,
            more@ == more_parts(),
            v@ == front + more_parts().take(i as int),
        decreases n - i,
    {
        v.push(more[i]);
        i += 1;
        assert(v@ =~= front + more_parts().take(i as int));
    }
    v.push(Id::Cancel);
    v.push(Id::Save);
    assert(v@ =~= tab_order(shown as int));
    v
}

/// All parts in the order in which they are laid out.
pub open spec fn layout_order() -> Seq<Id> {
    seq![Id::Close] + tab_order(7)
}

/// A part lies below «Дополнительно».
pub open spec fn is_more(id: Id) -> bool {
    more_parts().contains(id)
}

/// Does a part lie below «Дополнительно».
pub fn below_more(id: Id) -> (r: bool)
    ensures
        r == is_more(id),
{
    let more: Vec<Id> = vec![
        Id::Silence,
        Id::Hotwords,
        Id::OvScale,
        Id::Space,
        Id::Caps,
        Id::Startup,
        Id::Updates,
    ];
    assert(more@ =~= more_parts());
    let mut i: usize = 0;
    while i < more.len()
        invariant
            i <= more@.len(),
            more@ == more_parts(),
            forall|k: int| 0 <= k < i ==> more@[k] != id,
        decreases more@.len() - i,
    {
        if more[i] == id {
            assert(more@[i as int] == id);
            return true;
        }
        i += 1;
    }
    false
}

/// All parts in the order in which they are laid out.
pub fn all_parts() -> (r: Vec<Id>)
    ensures
        r@ == layout_order(),
{
    let mut r: Vec<Id> = Vec::new();
    r.push(Id::Close);
    let mut rest = focusables(7);
    r.append(&mut rest);
    assert(r@ =~= layout_order());
    r
}

/// The last of the first `n` parts that the mouse is over and that is not folded
/// away.
pub open spec fn topmost(inside: Seq<bool>, folded: Seq<bool>, n: int) -> Option<Id>
    decreases n,
{
    if n <= 0 {
        None
    } else {
        let id = layout_order()[n - 1];
        if inside[n - 1] && !(is_more(id) && folded[n - 1]) {
            Some(id)
        } else {
            topmost(inside, folded, n - 1)
        }
    }
}

/// The part under the mouse. For each part, in the order in which they are laid
/// out, `inside` says whether the mouse is over its place, and `folded` whether
/// its place is outside the visible band.
pub fn hit(inside: &Vec<bool>, folded: &Vec<bool>) -> (r: Option<Id>)
    requires
        inside@.len() == layout_order().len(),
        folded@.len() == layout_order().len(),
    ensures
        r == topmost(inside@, folded@, layout_order().len() as int),
{
    let parts = all_parts();
    let mut i: usize = parts.len();
    while i > 0
        invariant
            i <= parts@.len() == inside@.len() == folded@.len(),
            parts@ == layout_order(),
            topmost(inside@, folded@, i as int) == topmost(
                inside@,
                folded@,
                layout_order().len() as int,
            ),
        decreases i,
    {
        i -= 1;
        let id = parts[i];
        if inside[i] && !(below_more(id) && folded[i]) {
            return Some(id);
        }
    }
    None
}

/// The first place in a text that the mouse is before.
pub open spec fn first_before(before: Seq<bool>, i: int) -> int
    decreases before.len() - i,
{
    if i < 0 || i >= before.len() || before[i] {
        i
    } else {
        first_before(before, i + 1)
    }
}

/// The place in a text where the mouse is. For each unit of the text, `before`
/// says whether the mouse is before its middle.
pub fn caret_from_x(before: &Vec<bool>) -> (r: usize)
    ensures
        r == first_before(before@, 0),
        r <= before@.len(),
{
    let mut i: usize = 0;
    while i < before.len() && !before[i]
        invariant
            i <= before@.len(),
            first_before(before@, i as int) == first_before(before@, 0),
        decreases before@.len() - i,
    {
        i += 1;
    }
    i
}

/// The labels of the segments.
pub fn seg_label(i: usize) -> (r: &'static str)
    requires
        i < 3,
    ensures
        r@ == (if i == 0 {
            "Всегда"@
        } else if i == 1 {
            "При диктовке"@
        } else {
            "Никогда"@
        }),
{
    if i == 0 {
        "Всегда"
    } else if i == 1 {
        "При диктовке"
    } else {
        "Никогда"
    }
}

// ── the window ────────────────────────────────────────────────────────────
/// How many rows the list of microphones shows at most.
pub const P_MAX: usize = 7;

/// How long the caret stays on or off, in nanoseconds.
pub const BLINK: u64 = 530_000_000;

/// The microphones to choose from.
pub struct Mics {
    pub devices: Vec<String>,
    /// The chosen one, counted from 1; 0 is the default microphone.
    pub device: usize,
}

/// The microphones to choose from, as plain values.
pub struct MicsView {
    pub devices: Seq<Seq<char>>,
    pub device: int,
}

impl View for Mics {
    type V = MicsView;

    open spec fn view(&self) -> MicsView {
        MicsView { devices: texts(self.devices@), device: self.device as int }
    }
}

/// The texts that the user can set.
pub struct Fields {
    pub wake: Edit,
    pub stop: Edit,
    pub silence: Edit,
    pub hotwords: Edit,
    pub hotkey: String,
}

/// The texts that the user can set, as plain values.
pub struct FieldsView {
    pub wake: Field,
    pub stop: Field,
    pub silence: Field,
    pub hotwords: Field,
    pub hotkey: Seq<char>,
}

impl View for Fields {
    type V = FieldsView;

    open spec fn view(&self) -> FieldsView {
        FieldsView {
            wake: self.wake@,
            stop: self.stop@,
            silence: self.silence@,
            hotwords: self.hotwords@,
            hotkey: self.hotkey@,
        }
    }
}

/// What else the user can set.
#[derive(Clone, Copy)]
pub struct Flags {
    /// When the overlay shows: 0 always, 1 while dictating, 2 never.
    pub mode: u8,
    pub live: bool,
    pub space: bool,
    pub caps: bool,
    pub startup: bool,
    pub updates: bool,
}

/// What the user is doing.
#[derive(Clone, Copy)]
pub struct Ui {
    /// A new hotkey is being pressed.
    pub capturing: bool,
    /// The part below «Дополнительно» is open.
    pub expanded: bool,
    pub focus: Option<Id>,
    pub hot: Option<Id>,
    pub press: Option<Id>,
    pub drag_edit: bool,
    pub drag_slider: bool,
    pub track_leave: bool,
    pub caret_on: bool,
    /// When the caret went on or off.
    pub caret_at: u64,
    /// The window is to be drawn anew.
    pub dirty: bool,
}

/// The list of microphones.
#[derive(Clone, Copy)]
pub struct Popup {
    pub on: bool,
    /// The row under the mouse; -1 for none.
    pub hot: i32,
    /// The first row that shows.
    pub top: usize,
}

/// The list of microphones, as plain values.
pub struct Rows {
    pub on: bool,
    pub hot: int,
    pub top: int,
}

impl View for Popup {
    type V = Rows;

    open spec fn view(&self) -> Rows {
        Rows { on: self.on, hot: self.hot as int, top: self.top as int }
    }
}

/// The window.
pub struct Win {
    pub mics: Mics,
    pub fields: Fields,
    pub flags: Flags,
    pub ui: Ui,
    pub list: Popup,
}

/// What the window holds, as plain values.
pub struct Form {
    pub mics: MicsView,
    pub fields: FieldsView,
    pub flags: Flags,
    pub ui: Ui,
    pub list: Rows,
}

impl View for Win {
    type V = Form;

    open spec fn view(&self) -> Form {
        Form {
            mics: self.mics@,
            fields: self.fields@,
            flags: self.flags,
            ui: self.ui,
            list: self.list@,
        }
    }
}

impl Form {
    /// The rows of the list of microphones: the default one and the others.
    pub open spec fn rows(self) -> int {
        self.mics.devices.len() as int + 1
    }

    /// The first row that can show at the top of the list.
    pub open spec fn max_top(self) -> int {
        if self.rows() > P_MAX {
            self.rows() - P_MAX
        } else {
            0
        }
    }

    /// The fields are in order, the chosen microphone and mode exist, and the
    /// list shows rows that exist.
    pub open spec fn ok(self) -> bool {
        &&& self.fields.wake.ok()
        &&& self.fields.stop.ok()
        &&& self.fields.silence.ok()
        &&& self.fields.hotwords.ok()
        &&& 0 <= self.flags.mode <= 2
        &&& self.mics.devices.len() < 0x7FFF_FFFF
        &&& 0 <= self.mics.device < self.rows()
        &&& -1 <= self.list.hot < self.rows()
        &&& 0 <= self.list.top <= self.max_top()
    }
}

/// One thing to do outside.
#[derive(PartialEq, Eq, Debug)]
pub enum Effect {
    /// Release the hotkey while a new one is pressed.
    PauseHotkey,
    /// Take the hotkey of the settings again.
    ResumeHotkey,
    /// Place, draw and show the list of microphones.
    ShowPopup,
    HidePopup,
    /// Draw the list of microphones.
    DrawPopup,
    /// Put a text on the clipboard.
    Copy(String),
    /// Keep getting the mouse though it leaves the window.
    Capture,
    ReleaseCapture,
    /// Ask to be told when the mouse leaves.
    TrackLeave,
    /// Move the slider to the mouse.
    SlideTo,
    /// Move the slider by one step, up if `true`.
    SlideBy(bool),
    /// Close the window.
    Close,
    /// Save the settings of the window and close it.
    Save,
}

/// One thing to do outside, with its text as characters.
pub enum Eff {
    PauseHotkey,
    ResumeHotkey,
    ShowPopup,
    HidePopup,
    DrawPopup,
    Copy(Seq<char>),
    Capture,
    ReleaseCapture,
    TrackLeave,
    SlideTo,
    SlideBy(bool),
    Close,
    Save,
}

impl View for Effect {
    type V = Eff;

    open spec fn view(&self) -> Eff {
        match self {
            Effect::PauseHotkey => Eff::PauseHotkey,
            Effect::ResumeHotkey => Eff::ResumeHotkey,
            Effect::ShowPopup => Eff::ShowPopup,
            Effect::HidePopup => Eff::HidePopup,
            Effect::DrawPopup => Eff::DrawPopup,
            Effect::Copy(s) => Eff::Copy(s@),
            Effect::Capture => Eff::Capture,
            Effect::ReleaseCapture => Eff::ReleaseCapture,
            Effect::TrackLeave => Eff::TrackLeave,
            Effect::SlideTo => Eff::SlideTo,
            Effect::SlideBy(b) => Eff::SlideBy(*b),
            Effect::Close => Eff::Close,
            Effect::Save => Eff::Save,
        }
    }
}

pub open spec fn effs(v: Seq<Effect>) -> Seq<Eff> {
    v.map_values(|e: Effect| e@)
}

fn none() -> (r: Vec<Effect>)
    ensures
        effs(r@) == Seq::<Eff>::empty(),
{
    let r: Vec<Effect> = Vec::new();
    assert(effs(r@) =~= Seq::<Eff>::empty());
    r
}

fn one(e: Effect) -> (r: Vec<Effect>)
    ensures
        effs(r@) == seq![e@],
{
    let mut r: Vec<Effect> = Vec::new();
    r.push(e);
    assert(effs(r@) =~= seq![e@]);
    r
}

fn and(a: Vec<Effect>, b: Vec<Effect>) -> (r: Vec<Effect>)
    ensures
        effs(r@) == effs(a@) + effs(b@),
{
    let mut r = a;
    let mut more = b;
    r.append(&mut more);
    assert(effs(r@) =~= effs(a@) + effs(b@));
    r
}

// ── the fields ────────────────────────────────────────────────────────────
/// The text field of a part.
pub open spec fn field(f: Form, id: Id) -> Field {
    match id {
        Id::Wake => f.fields.wake,
        Id::Stop => f.fields.stop,
        Id::Silence => f.fields.silence,
        _ => f.fields.hotwords,
    }
}

/// The form with the text field of a part replaced.
pub open spec fn with_field(f: Form, id: Id, e: Field) -> Form {
    match id {
        Id::Wake => Form { fields: FieldsView { wake: e, ..f.fields }, ..f },
        Id::Stop => Form { fields: FieldsView { stop: e, ..f.fields }, ..f },
        Id::Silence => Form { fields: FieldsView { silence: e, ..f.fields }, ..f },
        _ => Form { fields: FieldsView { hotwords: e, ..f.fields }, ..f },
    }
}

/// The focus is in a text field.
pub open spec fn in_field(f: Form) -> bool {
    f.ui.focus is Some && kind(f.ui.focus->0) == K::Edit
}

// ── the list of microphones ───────────────────────────────────────────────
/// The list opens, scrolled so that the chosen row shows.
pub open spec fn popup_shown(f: Form) -> (Form, Seq<Eff>) {
    let top = if f.mics.device + 1 > P_MAX {
        if f.mics.device + 1 - P_MAX < f.max_top() {
            f.mics.device + 1 - P_MAX
        } else {
            f.max_top()
        }
    } else {
        0
    };
    (
        Form {
            ui: Ui { dirty: true, ..f.ui },
            list: Rows { on: true, top, hot: f.mics.device },
            ..f
        },
        seq![Eff::ShowPopup],
    )
}

/// The list closes, if it is open.
pub open spec fn popup_closed(f: Form) -> (Form, Seq<Eff>) {
    if f.list.on {
        (
            Form { ui: Ui { dirty: true, ..f.ui }, list: Rows { on: false, ..f.list }, ..f },
            seq![Eff::HidePopup],
        )
    } else {
        (f, Seq::empty())
    }
}

/// A row of the list is chosen, if there is such a row, and the list closes.
pub open spec fn popup_picked(f: Form, i: int) -> (Form, Seq<Eff>) {
    popup_closed(
        if i < f.rows() {
            Form { mics: MicsView { device: i, ..f.mics }, ..f }
        } else {
            f
        },
    )
}

pub open spec fn clamped(v: int, lo: int, hi: int) -> int {
    if v < lo {
        lo
    } else if v > hi {
        hi
    } else {
        v
    }
}

/// The list is scrolled by so many rows, down for negative ones.
pub open spec fn popup_scrolled(f: Form, delta: int) -> (Form, Seq<Eff>) {
    if f.rows() <= P_MAX {
        (f, Seq::empty())
    } else {
        (
            Form { list: Rows { top: clamped(f.list.top - delta, 0, f.max_top()), ..f.list }, ..f },
            seq![Eff::DrawPopup],
        )
    }
}

/// The row under the mouse moves up or down by the keyboard; the list follows it.
pub open spec fn popup_stepped(f: Form, up: bool) -> (Form, Seq<Eff>) {
    let hot = clamped(
        if up {
            f.list.hot - 1
        } else {
            f.list.hot + 1
        },
        0,
        f.rows() - 1,
    );
    let top = if hot < f.list.top {
        hot
    } else if hot >= f.list.top + P_MAX {
        hot - P_MAX + 1
    } else {
        f.list.top
    };
    (Form { list: Rows { hot, top, ..f.list }, ..f }, seq![Eff::DrawPopup])
}

// ── a new hotkey ──────────────────────────────────────────────────────────
pub open spec fn capture_started(f: Form) -> (Form, Seq<Eff>) {
    if f.ui.capturing {
        (f, Seq::empty())
    } else {
        (
            Form { ui: Ui { capturing: true, focus: Some(Id::Hotkey), ..f.ui }, ..f },
            seq![Eff::PauseHotkey],
        )
    }
}

pub open spec fn capture_stopped(f: Form) -> (Form, Seq<Eff>) {
    if f.ui.capturing {
        (Form { ui: Ui { capturing: false, ..f.ui }, ..f }, seq![Eff::ResumeHotkey])
    } else {
        (f, Seq::empty())
    }
}

pub const VK_BACK: u32 = 0x08;

pub const VK_TAB: u32 = 0x09;

pub const VK_RETURN: u32 = 0x0D;

pub const VK_ESCAPE: u32 = 0x1B;

pub const VK_SPACE: u32 = 0x20;

pub const VK_END: u32 = 0x23;

pub const VK_HOME: u32 = 0x24;

pub const VK_LEFT: u32 = 0x25;

pub const VK_UP: u32 = 0x26;

pub const VK_RIGHT: u32 = 0x27;

pub const VK_DOWN: u32 = 0x28;

pub const VK_DELETE: u32 = 0x2E;

/// The key alone is a modifier: Shift, Control, Alt or a Windows key, on either
/// side.
pub open spec fn is_modifier(vk: u32) -> bool {
    ||| 0x10 <= vk % 0x1_0000 <= 0x12
    ||| vk % 0x1_0000 == 0x5B
    ||| vk % 0x1_0000 == 0x5C
    ||| 0xA0 <= vk <= 0xA5
}

/// A key while a new hotkey is pressed. Escape gives up; a modifier alone, a key
/// that no hotkey can have and a key without modifiers are passed over.
pub open spec fn capture_keyed(f: Form, vk: u32, m: Mods) -> (Form, Seq<Eff>) {
    if vk % 0x1_0000 == VK_ESCAPE {
        capture_stopped(f)
    } else if is_modifier(vk) || captured(vk, m) is None {
        (f, Seq::empty())
    } else {
        capture_stopped(Form { fields: FieldsView { hotkey: captured(vk, m)->0, ..f.fields }, ..f })
    }
}

// ── parts at work ─────────────────────────────────────────────────────────
/// What a segment or a switch makes of the settings.
pub open spec fn turned(f: Flags, id: Id) -> Flags {
    match id {
        Id::Mode0 => Flags { mode: 0, ..f },
        Id::Mode1 => Flags { mode: 1, ..f },
        Id::Mode2 => Flags { mode: 2, ..f },
        Id::Live => Flags { live: !f.live, ..f },
        Id::Space => Flags { space: !f.space, ..f },
        Id::Caps => Flags { caps: !f.caps, ..f },
        Id::Startup => Flags { startup: !f.startup, ..f },
        Id::Updates => Flags { updates: !f.updates, ..f },
        _ => f,
    }
}

/// A part is clicked or chosen by the keyboard.
pub open spec fn activated(f: Form, id: Id) -> (Form, Seq<Eff>) {
    let d = Form { ui: Ui { dirty: true, ..f.ui }, ..f };
    match id {
        Id::Close | Id::Cancel => (f, seq![Eff::Close]),
        Id::Save => (f, seq![Eff::Save]),
        Id::More => (
            Form { ui: Ui { expanded: !f.ui.expanded, ..d.ui }, ..d },
            Seq::empty(),
        ),
        Id::Hotkey => capture_started(d),
        Id::Device => if f.list.on {
            popup_closed(d)
        } else {
            popup_shown(d)
        },
        _ => (Form { flags: turned(f.flags, id), ..d }, Seq::empty()),
    }
}

/// The mouse turns to a part, or away from all parts: the list closes and a new
/// hotkey is given up, unless that is what the part is for.
pub open spec fn turned_to(f: Form, hit: Option<Id>) -> (Form, Seq<Eff>) {
    let (a, first) = if hit != Some(Id::Device) {
        popup_closed(f)
    } else {
        (f, Seq::<Eff>::empty())
    };
    let (b, second) = if hit != Some(Id::Hotkey) {
        capture_stopped(a)
    } else {
        (a, Seq::<Eff>::empty())
    };
    (b, first + second)
}

/// What the mouse button does to the part that it goes down over.
pub open spec fn pressed_on(f: Form, id: Id, double: bool, pos: int, now: u64) -> (Form, Seq<Eff>) {
    match kind(id) {
        K::Edit => {
            let e = field(f, id);
            let e2 = if double {
                all_selected(e)
            } else {
                Field { caret: pos, anchor: pos, ..e }
            };
            let ui = Ui {
                focus: Some(id),
                drag_edit: !double,
                caret_on: true,
                caret_at: now,
                ..f.ui
            };
            (Form { ui, ..with_field(f, id, e2) }, seq![Eff::Capture])
        },
        K::Slider => (
            Form { ui: Ui { focus: Some(id), drag_slider: true, ..f.ui }, ..f },
            seq![Eff::SlideTo, Eff::Capture],
        ),
        K::Icon => (Form { ui: Ui { press: Some(id), ..f.ui }, ..f }, Seq::empty()),
        _ => (
            Form { ui: Ui { focus: Some(id), press: Some(id), ..f.ui }, ..f },
            Seq::empty(),
        ),
    }
}

/// The mouse button goes down over a part, or beside all parts. `pos` is the
/// place in the text of a field.
pub open spec fn pressed(
    f: Form,
    hit: Option<Id>,
    double: bool,
    pos: int,
    now: u64,
) -> (Form, Seq<Eff>) {
    let (t, before) = turned_to(f, hit);
    let d = Form { ui: Ui { dirty: true, ..t.ui }, ..t };
    match hit {
        Some(id) => {
            let (g, after) = pressed_on(d, id, double, pos, now);
            (g, before + after)
        },
        None => (Form { ui: Ui { focus: None, press: None, ..d.ui }, ..d }, before),
    }
}

/// The mouse button goes up: a part works if the button went down over it too.
pub open spec fn released(f: Form, hit: Option<Id>) -> (Form, Seq<Eff>) {
    let ui = Ui { drag_edit: false, drag_slider: false, press: None, dirty: true, ..f.ui };
    let c = Form { ui, ..f };
    if hit is Some && f.ui.press == hit {
        let (d, effects) = activated(c, hit->0);
        (d, seq![Eff::ReleaseCapture] + effects)
    } else {
        (c, seq![Eff::ReleaseCapture])
    }
}

/// The mouse moves. While text is being selected, `pos` is the place in it.
pub open spec fn mouse_moved(f: Form, hit: Option<Id>, pos: int) -> (Form, Seq<Eff>) {
    if f.ui.drag_edit {
        match f.ui.focus {
            Some(id) => if kind(id) == K::Edit {
                (
                    Form {
                        ui: Ui { dirty: true, ..f.ui },
                        ..with_field(f, id, Field { caret: pos, ..field(f, id) })
                    },
                    Seq::empty(),
                )
            } else {
                (Form { ui: Ui { dirty: true, ..f.ui }, ..f }, Seq::empty())
            },
            None => (f, Seq::empty()),
        }
    } else if f.ui.drag_slider {
        (Form { ui: Ui { dirty: true, ..f.ui }, ..f }, seq![Eff::SlideTo])
    } else {
        (
            Form {
                ui: Ui {
                    hot: hit,
                    dirty: f.ui.dirty || hit != f.ui.hot,
                    track_leave: true,
                    ..f.ui
                },
                ..f
            },
            if f.ui.track_leave {
                Seq::empty()
            } else {
                seq![Eff::TrackLeave]
            },
        )
    }
}

/// The mouse leaves the window.
pub open spec fn mouse_left(f: Form) -> Form {
    let dirty = f.ui.dirty || f.ui.hot is Some;
    Form { ui: Ui { track_leave: false, hot: None, dirty, ..f.ui }, ..f }
}

/// A character is typed.
pub open spec fn char_typed(f: Form, ch: u16, ctrl: bool, now: u64) -> Form {
    if ch < 0x20 || ctrl || f.ui.capturing || !in_field(f) {
        f
    } else {
        let id = f.ui.focus->0;
        Form {
            ui: Ui { caret_on: true, caret_at: now, dirty: true, ..f.ui },
            ..with_field(f, id, typed(field(f, id), ch))
        }
    }
}

/// The window stops being the active one.
pub open spec fn deactivated(f: Form) -> (Form, Seq<Eff>) {
    let (a, first) = popup_closed(f);
    let (b, second) = capture_stopped(a);
    (b, first + second)
}

// ── keys ──────────────────────────────────────────────────────────────────
/// A text up to its first line break.
pub open spec fn first_line(s: Seq<char>) -> Seq<char> {
    s.take(part_len(s, seq!['\r', '\n']) as int)
}

/// A key in a text field: what becomes of it and what goes to the clipboard.
pub open spec fn field_keyed(
    e: Field,
    vk: u32,
    m: Mods,
    clip: Option<Seq<char>>,
) -> (Field, Seq<Eff>) {
    let v = vk % 0x1_0000;
    let back = if e.caret > 0 {
        e.caret - 1
    } else {
        0
    };
    if v == VK_LEFT {
        (
            moved(
                e,
                if m.ctrl {
                    left_word(e)
                } else {
                    back
                },
                m.shift,
            ),
            Seq::empty(),
        )
    } else if v == VK_RIGHT {
        (
            moved(
                e,
                if m.ctrl {
                    right_word(e)
                } else {
                    e.caret + 1
                },
                m.shift,
            ),
            Seq::empty(),
        )
    } else if v == VK_HOME {
        (moved(e, 0, m.shift), Seq::empty())
    } else if v == VK_END {
        (moved(e, e.t.len() as int, m.shift), Seq::empty())
    } else if v == VK_BACK {
        (backspaced(e), Seq::empty())
    } else if v == VK_DELETE && !m.ctrl {
        (
            deleted(e),
            if m.shift && e.caret != e.anchor {
                seq![Eff::Copy(selected(e))]
            } else {
                Seq::empty()
            },
        )
    } else if vk == 0x41 && m.ctrl {
        (all_selected(e), Seq::empty())
    } else if vk == 0x43 && m.ctrl {
        (e, seq![Eff::Copy(selected(e))])
    } else if vk == 0x58 && m.ctrl {
        (cut(e), seq![Eff::Copy(selected(e))])
    } else if vk == 0x56 && m.ctrl && clip is Some {
        (typed_all(e, encoded(first_line(clip->0))), Seq::empty())
    } else {
        (e, Seq::empty())
    }
}

/// The part of a mode.
pub open spec fn mode_part(mode: u8) -> Id {
    if mode == 0 {
        Id::Mode0
    } else if mode == 1 {
        Id::Mode1
    } else {
        Id::Mode2
    }
}

/// A mode is chosen by the keyboard: the focus goes to its segment.
pub open spec fn mode_set(f: Form, mode: u8) -> Form {
    Form {
        flags: Flags { mode, ..f.flags },
        ui: Ui { focus: Some(mode_part(mode)), ..f.ui },
        ..f
    }
}

/// A key while the focus is on a part that is no text field.
pub open spec fn part_keyed(f: Form, id: Id, vk: u32) -> (Form, Seq<Eff>) {
    let v = vk % 0x1_0000;
    let mode = f.flags.mode;
    if v == VK_LEFT && kind(id) == K::Seg {
        (
            mode_set(
                f,
                if mode > 0 {
                    (mode - 1) as u8
                } else {
                    0
                },
            ),
            Seq::empty(),
        )
    } else if v == VK_RIGHT && kind(id) == K::Seg {
        (
            mode_set(
                f,
                if mode < 2 {
                    (mode + 1) as u8
                } else {
                    2
                },
            ),
            Seq::empty(),
        )
    } else if v == VK_LEFT && id == Id::OvScale {
        (f, seq![Eff::SlideBy(false)])
    } else if v == VK_RIGHT && id == Id::OvScale {
        (f, seq![Eff::SlideBy(true)])
    } else {
        (f, Seq::empty())
    }
}

/// The place of a part in a list, if it is there.
pub open spec fn place_in(list: Seq<Id>, id: Option<Id>) -> Option<int> {
    match id {
        Some(x) => if list.contains(x) {
            list.index_of_first(x)
        } else {
            None
        },
        None => None,
    }
}

/// The part that Tab goes to.
pub open spec fn next_part(list: Seq<Id>, focus: Option<Id>, back: bool) -> Id {
    let n = list.len() as int;
    match place_in(list, focus) {
        Some(i) => if back {
            list[(i + n - 1) % n]
        } else {
            list[(i + 1) % n]
        },
        None => if back {
            list[n - 1]
        } else {
            list[0]
        },
    }
}

/// Tab: the focus goes on, and the text of a field is selected.
pub open spec fn tabbed(f: Form, back: bool, shown: int, now: u64) -> Form {
    let id = next_part(tab_order(shown), f.ui.focus, back);
    let g = Form { ui: Ui { focus: Some(id), caret_on: true, caret_at: now, ..f.ui }, ..f };
    if kind(id) == K::Edit {
        with_field(g, id, all_selected(field(g, id)))
    } else {
        g
    }
}

/// The key works the window, whatever part has the focus: Escape, Return, Tab,
/// Space, the arrows in the open list, and the arrow that opens it.
pub open spec fn is_command(f: Form, v: u32) -> bool {
    ||| v == VK_ESCAPE
    ||| v == VK_RETURN
    ||| v == VK_TAB
    ||| v == VK_SPACE
    ||| (v == VK_UP || v == VK_DOWN) && f.list.on
    ||| v == VK_DOWN && f.ui.focus == Some(Id::Device)
}

/// Return: chooses the row of the open list, or works the part with the focus if
/// it is one of three, or saves.
pub open spec fn entered(f: Form) -> (Form, Seq<Eff>) {
    if f.list.on {
        popup_picked(
            f,
            if f.list.hot > 0 {
                f.list.hot
            } else {
                0
            },
        )
    } else if f.ui.focus == Some(Id::More) || f.ui.focus == Some(Id::Device) || f.ui.focus == Some(
        Id::Hotkey,
    ) {
        activated(f, f.ui.focus->0)
    } else {
        (f, seq![Eff::Save])
    }
}

/// A key that works the window.
pub open spec fn commanded(f: Form, v: u32, shift: bool, shown: int, now: u64) -> (Form, Seq<Eff>) {
    if v == VK_ESCAPE {
        if f.list.on {
            popup_closed(f)
        } else {
            (f, seq![Eff::Close])
        }
    } else if v == VK_RETURN {
        entered(f)
    } else if v == VK_TAB {
        (tabbed(f, shift, shown, now), Seq::empty())
    } else if v == VK_SPACE {
        if f.ui.focus is Some && kind(f.ui.focus->0) != K::Edit {
            activated(f, f.ui.focus->0)
        } else {
            (f, Seq::empty())
        }
    } else if f.list.on {
        popup_stepped(f, v == VK_UP)
    } else {
        popup_shown(f)
    }
}

/// A key for the part with the focus.
pub open spec fn focus_keyed(
    f: Form,
    vk: u32,
    m: Mods,
    clip: Option<Seq<char>>,
    now: u64,
) -> (Form, Seq<Eff>) {
    match f.ui.focus {
        None => (f, Seq::empty()),
        Some(id) => if kind(id) == K::Edit {
            let (e, effects) = field_keyed(field(f, id), vk, m, clip);
            let ui = Ui { caret_on: true, caret_at: now, ..f.ui };
            (Form { ui, ..with_field(f, id, e) }, effects)
        } else {
            part_keyed(f, id, vk)
        },
    }
}

/// A key goes down. `clip` is the text on the clipboard, if it was asked for.
pub open spec fn keyed(
    f: Form,
    vk: u32,
    m: Mods,
    clip: Option<Seq<char>>,
    shown: int,
    now: u64,
) -> (Form, Seq<Eff>) {
    let d = Form { ui: Ui { dirty: true, ..f.ui }, ..f };
    let v = vk % 0x1_0000;
    if f.ui.capturing {
        capture_keyed(d, vk, m)
    } else if is_command(f, v) {
        commanded(d, v, m.shift, shown, now)
    } else {
        focus_keyed(d, vk, m, clip, now)
    }
}

/// The key pastes: the text on the clipboard is wanted for it.
pub open spec fn pastes(f: Form, vk: u32, m: Mods) -> bool {
    !f.ui.capturing && vk == 0x56 && m.ctrl && in_field(f)
}

// ── making and saving ─────────────────────────────────────────────────────
/// The mode of the overlay by its name.
pub open spec fn mode_of(name: Seq<char>) -> u8 {
    if name == "dictation"@ {
        1
    } else if name == "hidden"@ {
        2
    } else {
        0
    }
}

/// The name of a mode of the overlay.
pub open spec fn mode_name(mode: u8) -> Seq<char> {
    if mode == 0 {
        "always"@
    } else if mode == 1 {
        "dictation"@
    } else {
        "hidden"@
    }
}

/// The row of a microphone in the list: 1 more than its place among the devices,
/// 0 if it is not among them or none is chosen.
pub open spec fn row_of(devices: Seq<Seq<char>>, name: Option<Seq<char>>) -> int {
    match name {
        Some(n) => if devices.contains(n) {
            devices.index_of_first(n)->0 + 1
        } else {
            0
        },
        None => 0,
    }
}

/// A window that shows the settings.
pub open spec fn opened(
    s: Settings,
    devices: Seq<Seq<char>>,
    startup: bool,
    silence: Seq<char>,
    hotwords: Seq<char>,
    now: u64,
) -> Form {
    Form {
        mics: MicsView { devices, device: row_of(devices, s.device_name) },
        fields: FieldsView {
            wake: fresh(joined(s.wake_words, ", "@), false),
            stop: fresh(joined(s.stop_words, ", "@), false),
            silence: fresh(silence, true),
            hotwords: fresh(hotwords, true),
            hotkey: s.hotkey,
        },
        flags: Flags {
            mode: mode_of(s.overlay_mode),
            live: s.live_typing,
            space: s.append_space,
            caps: s.capitalize,
            startup,
            updates: s.check_updates,
        },
        ui: Ui {
            capturing: false,
            expanded: false,
            focus: None,
            hot: None,
            press: None,
            drag_edit: false,
            drag_slider: false,
            track_leave: false,
            caret_on: true,
            caret_at: now,
            dirty: true,
        },
        list: Rows { on: false, hot: -1, top: 0 },
    }
}

/// The settings that the window holds; what it does not show stays as it was, and
/// so does a list of words or a hotkey that was left empty.
pub open spec fn built(f: Form, s: Settings) -> Settings {
    let wake = listed(decoded(f.fields.wake.t));
    let stop = listed(decoded(f.fields.stop.t));
    Settings {
        device_name: if f.mics.device == 0 {
            None
        } else {
            Some(f.mics.devices[f.mics.device - 1])
        },
        wake_words: if wake.len() > 0 {
            wake
        } else {
            s.wake_words
        },
        stop_words: if stop.len() > 0 {
            stop
        } else {
            s.stop_words
        },
        hotkey: if trimmed(f.fields.hotkey).len() > 0 {
            lowercase(trimmed(f.fields.hotkey))
        } else {
            s.hotkey
        },
        overlay_mode: mode_name(f.flags.mode),
        live_typing: f.flags.live,
        append_space: f.flags.space,
        capitalize: f.flags.caps,
        check_updates: f.flags.updates,
        ..s
    }
}

fn find_device(devices: &Vec<String>, name: &Option<String>) -> (r: usize)
    requires
        devices@.len() < 0x7FFF_FFFF,
    ensures
        r == row_of(
            texts(devices@),
            match name {
                Some(n) => Some(n@),
                None => None,
            },
        ),
        r <= devices@.len(),
{
    let n = match name {
        Some(n) => n,
        None => return 0,
    };
    let ghost all = texts(devices@);
    let mut i: usize = 0;
    while i < devices.len()
        invariant
            i <= devices@.len(),
            devices@.len() < 0x7FFF_FFFF,
            all == texts(devices@),
            *name == Some(*n),
            forall|k: int| 0 <= k < i ==> (#[trigger] all[k]) != n@,
        decreases devices@.len() - i,
    {
        assert(all[i as int] == devices@[i as int]@);
        if same(&devices[i], n) {
            proof {
                all.index_of_first_ensures(n@);
                let k = all.index_of_first(n@)->0;
                assert(all[i as int] == n@);
                assert(k == i) by {
                    if k < i {
                        assert(all[k] != n@);
                    }
                }
            }
            return i + 1;
        }
        i += 1;
    }
    0
}

impl Win {
    /// A window that shows the settings. `silence` and `hotwords` are the texts
    /// of the two fields for numbers.
    pub fn make_win(
        cfg: &Config,
        devices: Vec<String>,
        startup: bool,
        silence: &str,
        hotwords: &str,
        now: u64,
    ) -> (r: Win)
        requires
            devices@.len() < 0x7FFF_FFFF,
        ensures
            r@ == opened(cfg@, texts(devices@), startup, silence@, hotwords@, now),
            r@.ok(),
    {
        let device: usize = find_device(&devices, &cfg.device_name);
        let wake = join(&cfg.wake_words, ", ");
        let stop = join(&cfg.stop_words, ", ");
        let mode: u8 = if same(&cfg.overlay_mode, "dictation") {
            1
        } else if same(&cfg.overlay_mode, "hidden") {
            2
        } else {
            0
        };
        Win {
            mics: Mics { devices, device },
            fields: Fields {
                wake: Edit::new(&wake, false),
                stop: Edit::new(&stop, false),
                silence: Edit::new(silence, true),
                hotwords: Edit::new(hotwords, true),
                hotkey: cfg.hotkey.clone(),
            },
            flags: Flags {
                mode,
                live: cfg.live_typing,
                space: cfg.append_space,
                caps: cfg.capitalize,
                startup,
                updates: cfg.check_updates,
            },
            ui: Ui {
                capturing: false,
                expanded: false,
                focus: None,
                hot: None,
                press: None,
                drag_edit: false,
                drag_slider: false,
                track_leave: false,
                caret_on: true,
                caret_at: now,
                dirty: true,
            },
            list: Popup { on: false, hot: -1, top: 0 },
        }
    }

    /// The settings that the window holds, on top of the current ones.
    pub fn build_config(&self, cfg: &Config) -> (r: Config)
        requires
            self@.ok(),
        ensures
            r@ == built(self@, cfg@),
    {
        let mut r = cfg.copy();
        r.device_name = if self.mics.device == 0 {
            None
        } else {
            assert(texts(self.mics.devices@)[self.mics.device - 1] == self.mics.devices@[self.mics.device
                - 1]@);
            Some(self.mics.devices[self.mics.device - 1].clone())
        };
        let wake = split_words(&self.fields.wake.text());
        assert(texts(wake@).len() == wake@.len());
        if wake.len() > 0 {
            r.wake_words = wake;
        }
        let stop = split_words(&self.fields.stop.text());
        assert(texts(stop@).len() == stop@.len());
        if stop.len() > 0 {
            r.stop_words = stop;
        }
        let hk = trim(&self.fields.hotkey);
        if chars_of(&hk).len() > 0 {
            r.hotkey = to_lowercase(&hk);
        }
        r.overlay_mode = if self.flags.mode == 0 {
            "always".to_owned()
        } else if self.flags.mode == 1 {
            "dictation".to_owned()
        } else {
            "hidden".to_owned()
        };
        r.live_typing = self.flags.live;
        r.append_space = self.flags.space;
        r.capitalize = self.flags.caps;
        r.check_updates = self.flags.updates;
        r
    }

    /// The text field of a part.
    pub fn edit(&self, id: Id) -> (r: Option<&Edit>)
        ensures
            match r {
                Some(e) => kind(id) == K::Edit && e@ == field(self@, id),
                None => kind(id) != K::Edit,
            },
    {
        match id {
            Id::Wake => Some(&self.fields.wake),
            Id::Stop => Some(&self.fields.stop),
            Id::Silence => Some(&self.fields.silence),
            Id::Hotwords => Some(&self.fields.hotwords),
            _ => None,
        }
    }

    /// The text field of a part, to be changed.
    pub fn edit_mut(&mut self, id: Id) -> (r: &mut Edit)
        requires
            kind(id) == K::Edit,
        ensures
            (*r)@ == field(old(self)@, id),
            final(self)@ == with_field(old(self)@, id, (*final(r))@),
    {
        match id {
            Id::Wake => &mut self.fields.wake,
            Id::Stop => &mut self.fields.stop,
            Id::Silence => &mut self.fields.silence,
            _ => &mut self.fields.hotwords,
        }
    }

    /// How many rows the list of microphones has.
    pub fn popup_rows(&self) -> (r: usize)
        requires
            self.mics.devices@.len() < 0x7FFF_FFFF,
        ensures
            r == self@.rows(),
    {
        self.mics.devices.len() + 1
    }

    /// The text of a row of the list.
    pub fn popup_item(&self, i: usize) -> (r: String)
        ensures
            r@ == (if i == 0 {
                "По умолчанию"@
            } else if i <= self.mics.devices@.len() {
                self.mics.devices@[i - 1]@
            } else {
                Seq::<char>::empty()
            }),
    {
        if i == 0 {
            "По умолчанию".to_owned()
        } else if i <= self.mics.devices.len() {
            self.mics.devices[i - 1].clone()
        } else {
            String::new()
        }
    }

    /// The text on the button for the hotkey.
    pub fn hotkey_text(&self) -> (r: String)
        ensures
            r@ == (if self.ui.capturing {
                "Нажмите клавиши…"@
            } else {
                joined(nonempty(part_labels(self.fields.hotkey@)), " + "@)
            }),
    {
        if self.ui.capturing {
            "Нажмите клавиши…".to_owned()
        } else {
            hotkey_label(&self.fields.hotkey)
        }
    }

    /// The row of the list at a place on the screen: `r` rows below its top.
    /// Returns -1 where there is none.
    pub fn popup_row(&self, r: Option<usize>) -> (i: i32)
        requires
            self@.ok(),
        ensures
            i == (match r {
                Some(k) => if k < P_MAX && k < self@.rows() && self.list.top + k < self@.rows() {
                    self.list.top + k
                } else {
                    -1
                },
                None => -1,
            }),
    {
        match r {
            Some(k) => {
                let rows: usize = self.popup_rows();
                if k < P_MAX && k < rows && self.list.top + k < rows {
                    (self.list.top + k) as i32
                } else {
                    -1
                }
            },
            None => -1,
        }
    }

    /// Opens the list of microphones.
    pub fn popup_show(&mut self) -> (r: Vec<Effect>)
        requires
            old(self)@.ok(),
        ensures
            final(self)@ == popup_shown(old(self)@).0,
            effs(r@) == popup_shown(old(self)@).1,
            final(self)@.ok(),
    {
        let rows: usize = self.popup_rows();
        let max_top: usize = if rows > P_MAX {
            rows - P_MAX
        } else {
            0
        };
        self.list.top = if self.mics.device + 1 > P_MAX {
            if self.mics.device + 1 - P_MAX < max_top {
                self.mics.device + 1 - P_MAX
            } else {
                max_top
            }
        } else {
            0
        };
        self.list.on = true;
        self.list.hot = self.mics.device as i32;
        self.ui.dirty = true;
        one(Effect::ShowPopup)
    }

    /// Closes the list.
    pub fn popup_close(&mut self) -> (r: Vec<Effect>)
        requires
            old(self)@.ok(),
        ensures
            (final(self)@, effs(r@)) == popup_closed(old(self)@),
            final(self)@.ok(),
    {
        if !self.list.on {
            return none();
        }
        self.list.on = false;
        self.ui.dirty = true;
        one(Effect::HidePopup)
    }

    /// Opens or closes the list.
    pub fn popup_toggle(&mut self) -> (r: Vec<Effect>)
        requires
            old(self)@.ok(),
        ensures
            (final(self)@, effs(r@)) == (if old(self).list.on {
                popup_closed(old(self)@)
            } else {
                popup_shown(old(self)@)
            }),
            final(self)@.ok(),
    {
        if self.list.on {
            self.popup_close()
        } else {
            self.popup_show()
        }
    }

    /// Chooses a row of the list.
    pub fn popup_pick(&mut self, i: usize) -> (r: Vec<Effect>)
        requires
            old(self)@.ok(),
        ensures
            (final(self)@, effs(r@)) == popup_picked(old(self)@, i as int),
            final(self)@.ok(),
    {
        if i < self.popup_rows() {
            self.mics.device = i;
        }
        self.popup_close()
    }

    /// Scrolls the list.
    pub fn popup_scroll(&mut self, delta: i32) -> (r: Vec<Effect>)
        requires
            old(self)@.ok(),
        ensures
            (final(self)@, effs(r@)) == popup_scrolled(old(self)@, delta as int),
            final(self)@.ok(),
    {
        let total: usize = self.popup_rows();
        if total <= P_MAX {
            return none();
        }
        let max_top: i64 = (total - P_MAX) as i64;
        let t: i64 = self.list.top as i64 - delta as i64;
        self.list.top = if t < 0 {
            0
        } else if t > max_top {
            max_top as usize
        } else {
            t as usize
        };
        one(Effect::DrawPopup)
    }

    /// The mouse wheel: the list scrolls if it is open.
    pub fn wheel(&mut self, delta: i32) -> (r: Vec<Effect>)
        requires
            old(self)@.ok(),
        ensures
            (final(self)@, effs(r@)) == (if old(self).list.on {
                popup_scrolled(old(self)@, delta as int)
            } else {
                (old(self)@, Seq::<Eff>::empty())
            }),
            final(self)@.ok(),
    {
        if self.list.on {
            self.popup_scroll(delta)
        } else {
            none()
        }
    }

    /// The mouse moves over the list: `row` is the row under it, -1 for none.
    pub fn popup_hover(&mut self, row: i32) -> (r: Vec<Effect>)
        requires
            old(self)@.ok(),
            -1 <= row < old(self)@.rows(),
        ensures
            final(self)@ == (Form {
                list: Rows { hot: row as int, ..old(self)@.list },
                ..old(self)@
            }),
            effs(r@) == (if row != old(self).list.hot {
                seq![Eff::DrawPopup]
            } else {
                Seq::<Eff>::empty()
            }),
            final(self)@.ok(),
    {
        if row != self.list.hot {
            self.list.hot = row;
            one(Effect::DrawPopup)
        } else {
            none()
        }
    }

    /// A click in the list: `row` is the row under the mouse, -1 for none.
    pub fn popup_click(&mut self, row: i32) -> (r: Vec<Effect>)
        requires
            old(self)@.ok(),
        ensures
            (final(self)@, effs(r@)) == (if row >= 0 {
                popup_picked(old(self)@, row as int)
            } else {
                (old(self)@, Seq::<Eff>::empty())
            }),
            final(self)@.ok(),
    {
        if row >= 0 {
            self.popup_pick(row as usize)
        } else {
            none()
        }
    }

    fn popup_step(&mut self, up: bool) -> (r: Vec<Effect>)
        requires
            old(self)@.ok(),
        ensures
            (final(self)@, effs(r@)) == popup_stepped(old(self)@, up),
            final(self)@.ok(),
    {
        let total: i32 = self.popup_rows() as i32;
        let h: i32 = if up {
            if self.list.hot < 1 {
                0
            } else {
                self.list.hot - 1
            }
        } else if self.list.hot + 1 > total - 1 {
            total - 1
        } else {
            self.list.hot + 1
        };
        self.list.hot = h;
        let row: usize = h as usize;
        if row < self.list.top {
            self.list.top = row;
        } else if row >= self.list.top + P_MAX {
            self.list.top = row - P_MAX + 1;
        }
        one(Effect::DrawPopup)
    }

    /// Begins to wait for a new hotkey.
    pub fn start_capture(&mut self) -> (r: Vec<Effect>)
        requires
            old(self)@.ok(),
        ensures
            (final(self)@, effs(r@)) == capture_started(old(self)@),
            final(self)@.ok(),
    {
        if self.ui.capturing {
            return none();
        }
        self.ui.capturing = true;
        self.ui.focus = Some(Id::Hotkey);
        one(Effect::PauseHotkey)
    }

    /// Stops waiting for a new hotkey.
    pub fn stop_capture(&mut self) -> (r: Vec<Effect>)
        requires
            old(self)@.ok(),
        ensures
            (final(self)@, effs(r@)) == capture_stopped(old(self)@),
            final(self)@.ok(),
    {
        if !self.ui.capturing {
            return none();
        }
        self.ui.capturing = false;
        one(Effect::ResumeHotkey)
    }

    /// A key while a new hotkey is pressed.
    pub fn capture_key(&mut self, vk: u32, m: Mods) -> (r: Vec<Effect>)
        requires
            old(self)@.ok(),
        ensures
            (final(self)@, effs(r@)) == capture_keyed(old(self)@, vk, m),
            final(self)@.ok(),
    {
        let v: u32 = vk % 0x1_0000;
        if v == VK_ESCAPE {
            return self.stop_capture();
        }
        if (0x10 <= v && v <= 0x12) || v == 0x5B || v == 0x5C || (0xA0 <= vk && vk <= 0xA5) {
            return none();
        }
        match capture(vk, m) {
            Some(s) => {
                self.fields.hotkey = s;
                self.stop_capture()
            },
            None => none(),
        }
    }

    /// A part is clicked or chosen by the keyboard.
    pub fn activate(&mut self, id: Id) -> (r: Vec<Effect>)
        requires
            old(self)@.ok(),
        ensures
            (final(self)@, effs(r@)) == activated(old(self)@, id),
            final(self)@.ok(),
    {
        match id {
            Id::Close | Id::Cancel => one(Effect::Close),
            Id::Save => one(Effect::Save),
            Id::More => {
                let ui = self.ui;
                self.ui = Ui { expanded: !ui.expanded, dirty: true, ..ui };
                none()
            },
            Id::Hotkey => {
                self.ui.dirty = true;
                self.start_capture()
            },
            Id::Device => {
                self.ui.dirty = true;
                self.popup_toggle()
            },
            _ => {
                self.ui.dirty = true;
                self.flags = turn(self.flags, id);
                none()
            },
        }
    }

    fn turn_to(&mut self, hit: Option<Id>) -> (r: Vec<Effect>)
        requires
            old(self)@.ok(),
        ensures
            (final(self)@, effs(r@)) == turned_to(old(self)@, hit),
            final(self)@.ok(),
            forall|id: Id| #[trigger] field(final(self)@, id) == field(old(self)@, id),
    {
        let a = if hit != Some(Id::Device) {
            self.popup_close()
        } else {
            none()
        };
        let b = if hit != Some(Id::Hotkey) {
            self.stop_capture()
        } else {
            none()
        };
        and(a, b)
    }

    fn press_on(&mut self, id: Id, double: bool, pos: usize, now: u64) -> (r: Vec<Effect>)
        requires
            old(self)@.ok(),
            kind(id) == K::Edit ==> pos <= field(old(self)@, id).t.len(),
        ensures
            (final(self)@, effs(r@)) == pressed_on(old(self)@, id, double, pos as int, now),
            final(self)@.ok(),
    {
        let ui = self.ui;
        match kind_of(id) {
            K::Edit => {
                let e = self.edit_mut(id);
                if double {
                    e.select_all();
                } else {
                    e.caret = pos;
                    e.anchor = pos;
                }
                self.ui = Ui {
                    focus: Some(id),
                    drag_edit: !double,
                    caret_on: true,
                    caret_at: now,
                    ..ui
                };
                one(Effect::Capture)
            },
            K::Slider => {
                self.ui = Ui { focus: Some(id), drag_slider: true, ..ui };
                let a = one(Effect::SlideTo);
                let b = one(Effect::Capture);
                let r = and(a, b);
                assert(effs(r@) =~= seq![Eff::SlideTo, Eff::Capture]);
                r
            },
            K::Icon => {
                self.ui = Ui { press: Some(id), ..ui };
                none()
            },
            _ => {
                self.ui = Ui { focus: Some(id), press: Some(id), ..ui };
                none()
            },
        }
    }

    /// The mouse button goes down. `hit` is the part under the mouse, `pos` the
    /// place in its text if it is a field.
    pub fn mouse_down(&mut self, hit: Option<Id>, double: bool, pos: usize, now: u64) -> (r: Vec<
        Effect,
    >)
        requires
            old(self)@.ok(),
            hit is Some && kind(hit->0) == K::Edit ==> pos <= field(old(self)@, hit->0).t.len(),
        ensures
            (final(self)@, effs(r@)) == pressed(old(self)@, hit, double, pos as int, now),
            final(self)@.ok(),
    {
        let before = self.turn_to(hit);
        self.ui.dirty = true;
        match hit {
            Some(id) => {
                let after = self.press_on(id, double, pos, now);
                and(before, after)
            },
            None => {
                let ui = self.ui;
                self.ui = Ui { focus: None, press: None, ..ui };
                before
            },
        }
    }

    /// The mouse button goes up over a part.
    pub fn mouse_up(&mut self, hit: Option<Id>) -> (r: Vec<Effect>)
        requires
            old(self)@.ok(),
        ensures
            (final(self)@, effs(r@)) == released(old(self)@, hit),
            final(self)@.ok(),
    {
        self.ui.drag_edit = false;
        self.ui.drag_slider = false;
        let press = self.ui.press;
        self.ui.press = None;
        self.ui.dirty = true;
        let r = one(Effect::ReleaseCapture);
        match hit {
            Some(id) => if press == Some(id) {
                let more = self.activate(id);
                and(r, more)
            } else {
                r
            },
            None => r,
        }
    }

    /// The mouse moves. `hit` is the part under it; while text is being selected,
    /// `pos` is the place in the text.
    pub fn mouse_move(&mut self, hit: Option<Id>, pos: usize) -> (r: Vec<Effect>)
        requires
            old(self)@.ok(),
            old(self).ui.drag_edit && in_field(old(self)@) ==> pos <= field(
                old(self)@,
                old(self).ui.focus->0,
            ).t.len(),
        ensures
            (final(self)@, effs(r@)) == mouse_moved(old(self)@, hit, pos as int),
            final(self)@.ok(),
    {
        if self.ui.drag_edit {
            match self.ui.focus {
                Some(id) => {
                    if kind_of(id) == K::Edit {
                        let e = self.edit_mut(id);
                        e.caret = pos;
                    }
                    self.ui.dirty = true;
                },
                None => {},
            }
            none()
        } else if self.ui.drag_slider {
            self.ui.dirty = true;
            one(Effect::SlideTo)
        } else {
            if hit != self.ui.hot {
                self.ui.hot = hit;
                self.ui.dirty = true;
            }
            if !self.ui.track_leave {
                self.ui.track_leave = true;
                one(Effect::TrackLeave)
            } else {
                none()
            }
        }
    }

    /// The mouse leaves the window.
    pub fn mouse_leave(&mut self)
        requires
            old(self)@.ok(),
        ensures
            final(self)@ == mouse_left(old(self)@),
            final(self)@.ok(),
    {
        self.ui.track_leave = false;
        if self.ui.hot.is_some() {
            self.ui.hot = None;
            self.ui.dirty = true;
        }
    }

    /// A character is typed.
    pub fn on_char(&mut self, ch: u16, ctrl: bool, now: u64)
        requires
            old(self)@.ok(),
        ensures
            final(self)@ == char_typed(old(self)@, ch, ctrl, now),
            final(self)@.ok(),
    {
        if ch < 0x20 || ctrl || self.ui.capturing {
            return;
        }
        match self.ui.focus {
            Some(id) => {
                if kind_of(id) == K::Edit {
                    let e = self.edit_mut(id);
                    e.insert(ch);
                    self.ui.caret_on = true;
                    self.ui.caret_at = now;
                    self.ui.dirty = true;
                }
            },
            None => {},
        }
    }

    /// The window stops being the active one.
    pub fn deactivate(&mut self) -> (r: Vec<Effect>)
        requires
            old(self)@.ok(),
        ensures
            (final(self)@, effs(r@)) == deactivated(old(self)@),
            final(self)@.ok(),
    {
        let a = self.popup_close();
        let b = self.stop_capture();
        and(a, b)
    }

    /// The resolution of the screen changed.
    pub fn dpi_changed(&mut self) -> (r: Vec<Effect>)
        requires
            old(self)@.ok(),
        ensures
            ({
                let closed = popup_closed(old(self)@).0;
                final(self)@ == (Form { ui: Ui { dirty: true, ..closed.ui }, ..closed })
            }),
            effs(r@) == popup_closed(old(self)@).1,
            final(self)@.ok(),
    {
        let r = self.popup_close();
        self.ui.dirty = true;
        r
    }

    /// The window is destroyed.
    pub fn destroyed(&self) -> (r: Vec<Effect>)
        ensures
            effs(r@) == (if self.ui.capturing {
                seq![Eff::ResumeHotkey]
            } else {
                Seq::<Eff>::empty()
            }),
    {
        if self.ui.capturing {
            one(Effect::ResumeHotkey)
        } else {
            none()
        }
    }

    /// The timer ticks: the caret of the field with the focus blinks.
    /// `animating` says whether something else moves. Returns whether the window
    /// is to be drawn.
    pub fn tick(&mut self, animating: bool, now: u64) -> (need: bool)
        requires
            old(self)@.ok(),
        ensures
            (final(self)@, need) == ticked(old(self)@, animating, now),
            final(self)@.ok(),
    {
        let in_edit = match self.ui.focus {
            Some(id) => kind_of(id) == K::Edit,
            None => false,
        };
        let mut moving = animating;
        if in_edit && !self.ui.drag_edit {
            if now >= self.ui.caret_at && now - self.ui.caret_at >= BLINK {
                self.ui.caret_on = !self.ui.caret_on;
                self.ui.caret_at = now;
                moving = true;
            }
        } else if !self.ui.caret_on {
            self.ui.caret_on = true;
            moving = true;
        }
        let need = moving || self.ui.dirty;
        self.ui.dirty = false;
        need
    }

    /// Is the text on the clipboard wanted for a key.
    pub fn wants_clipboard(&self, vk: u32, m: Mods) -> (r: bool)
        ensures
            r == pastes(self@, vk, m),
    {
        let in_edit = match self.ui.focus {
            Some(id) => kind_of(id) == K::Edit,
            None => false,
        };
        !self.ui.capturing && vk == 0x56 && m.ctrl && in_edit
    }

    fn tab(&mut self, back: bool, shown: usize, now: u64)
        requires
            old(self)@.ok(),
        ensures
            final(self)@ == tabbed(old(self)@, back, shown as int, now),
            final(self)@.ok(),
    {
        let id = part_after(self.ui.focus, back, shown);
        let ui = self.ui;
        self.ui = Ui { focus: Some(id), caret_on: true, caret_at: now, ..ui };
        if kind_of(id) == K::Edit {
            let e = self.edit_mut(id);
            e.select_all();
        }
    }

    fn field_key(e: &mut Edit, vk: u32, m: Mods, clip: Option<&str>) -> (r: Vec<Effect>)
        requires
            old(e)@.ok(),
        ensures
            (final(e)@, effs(r@)) == field_keyed(
                old(e)@,
                vk,
                m,
                match clip {
                    Some(s) => Some(s@),
                    None => None,
                },
            ),
            final(e)@.ok(),
    {
        let v: u32 = vk % 0x1_0000;
        let len: usize = e.t.len();
        if v == VK_LEFT {
            let p: usize = if m.ctrl {
                e.word_left()
            } else if e.caret > 0 {
                e.caret - 1
            } else {
                0
            };
            e.move_to(p, m.shift);
            none()
        } else if v == VK_RIGHT {
            let p: usize = if m.ctrl {
                e.word_right()
            } else if e.caret < len {
                e.caret + 1
            } else {
                len
            };
            e.move_to(p, m.shift);
            none()
        } else if v == VK_HOME {
            e.move_to(0, m.shift);
            none()
        } else if v == VK_END {
            e.move_to(len, m.shift);
            none()
        } else if v == VK_BACK {
            e.backspace();
            none()
        } else if v == VK_DELETE && !m.ctrl {
            let r = if m.shift && e.has_sel() {
                one(Effect::Copy(e.sel_text()))
            } else {
                none()
            };
            e.delete();
            r
        } else if vk == 0x41 && m.ctrl {
            e.select_all();
            none()
        } else if vk == 0x43 && m.ctrl {
            one(Effect::Copy(e.sel_text()))
        } else if vk == 0x58 && m.ctrl {
            let r = one(Effect::Copy(e.sel_text()));
            e.del_sel();
            r
        } else if vk == 0x56 && m.ctrl {
            match clip {
                Some(s) => {
                    let line = line_of(s);
                    e.insert_str(&line);
                },
                None => {},
            }
            none()
        } else {
            none()
        }
    }

    fn set_mode(&mut self, mode: u8)
        requires
            old(self)@.ok(),
            mode <= 2,
        ensures
            final(self)@ == mode_set(old(self)@, mode),
            final(self)@.ok(),
    {
        let ui = self.ui;
        let flags = self.flags;
        self.flags = Flags { mode, ..flags };
        self.ui = Ui { focus: Some(part_of_mode(mode)), ..ui };
    }

    fn part_key(&mut self, id: Id, vk: u32) -> (r: Vec<Effect>)
        requires
            old(self)@.ok(),
        ensures
            (final(self)@, effs(r@)) == part_keyed(old(self)@, id, vk),
            final(self)@.ok(),
    {
        let v: u32 = vk % 0x1_0000;
        let seg = kind_of(id) == K::Seg;
        let mode: u8 = self.flags.mode;
        if v == VK_LEFT && seg {
            self.set_mode(
                if mode > 0 {
                    mode - 1
                } else {
                    0
                },
            );
            none()
        } else if v == VK_RIGHT && seg {
            self.set_mode(
                if mode < 2 {
                    mode + 1
                } else {
                    2
                },
            );
            none()
        } else if v == VK_LEFT && id == Id::OvScale {
            one(Effect::SlideBy(false))
        } else if v == VK_RIGHT && id == Id::OvScale {
            one(Effect::SlideBy(true))
        } else {
            none()
        }
    }

    fn enter(&mut self) -> (r: Vec<Effect>)
        requires
            old(self)@.ok(),
        ensures
            (final(self)@, effs(r@)) == entered(old(self)@),
            final(self)@.ok(),
    {
        if self.list.on {
            let i: usize = if self.list.hot > 0 {
                self.list.hot as usize
            } else {
                0
            };
            return self.popup_pick(i);
        }
        match self.ui.focus {
            Some(id) => if id == Id::More || id == Id::Device || id == Id::Hotkey {
                self.activate(id)
            } else {
                one(Effect::Save)
            },
            None => one(Effect::Save),
        }
    }

    fn command(&mut self, v: u32, shift: bool, shown: usize, now: u64) -> (r: Vec<Effect>)
        requires
            old(self)@.ok(),
        ensures
            (final(self)@, effs(r@)) == commanded(old(self)@, v, shift, shown as int, now),
            final(self)@.ok(),
    {
        if v == VK_ESCAPE {
            if self.list.on {
                self.popup_close()
            } else {
                one(Effect::Close)
            }
        } else if v == VK_RETURN {
            self.enter()
        } else if v == VK_TAB {
            self.tab(shift, shown, now);
            none()
        } else if v == VK_SPACE {
            match self.ui.focus {
                Some(id) => if kind_of(id) != K::Edit {
                    self.activate(id)
                } else {
                    none()
                },
                None => none(),
            }
        } else if self.list.on {
            self.popup_step(v == VK_UP)
        } else {
            self.popup_show()
        }
    }

    fn focus_key(&mut self, vk: u32, m: Mods, clip: Option<&str>, now: u64) -> (r: Vec<Effect>)
        requires
            old(self)@.ok(),
        ensures
            (final(self)@, effs(r@)) == focus_keyed(
                old(self)@,
                vk,
                m,
                match clip {
                    Some(s) => Some(s@),
                    None => None,
                },
                now,
            ),
            final(self)@.ok(),
    {
        match self.ui.focus {
            None => none(),
            Some(id) => if kind_of(id) == K::Edit {
                let e = self.edit_mut(id);
                let r = Win::field_key(e, vk, m, clip);
                let ui = self.ui;
                self.ui = Ui { caret_on: true, caret_at: now, ..ui };
                r
            } else {
                self.part_key(id, vk)
            },
        }
    }

    /// A key goes down. `clip` is the text on the clipboard where it is wanted;
    /// `shown` says how many of the parts below «Дополнительно» are visible.
    pub fn on_key(
        &mut self,
        vk: u32,
        m: Mods,
        clip: Option<&str>,
        shown: usize,
        now: u64,
    ) -> (r: Vec<Effect>)
        requires
            old(self)@.ok(),
        ensures
            (final(self)@, effs(r@)) == keyed(
                old(self)@,
                vk,
                m,
                match clip {
                    Some(s) => Some(s@),
                    None => None,
                },
                shown as int,
                now,
            ),
            final(self)@.ok(),
    {
        let v: u32 = vk % 0x1_0000;
        self.ui.dirty = true;
        if self.ui.capturing {
            self.capture_key(vk, m)
        } else if v == VK_ESCAPE || v == VK_RETURN || v == VK_TAB || v == VK_SPACE || ((v == VK_UP
            || v == VK_DOWN) && self.list.on) || (v == VK_DOWN && self.ui.focus == Some(
            Id::Device,
        )) {
            self.command(v, m.shift, shown, now)
        } else {
            self.focus_key(vk, m, clip, now)
        }
    }
}

/// What a tick of the timer makes of the window, and whether it is to be drawn.
pub open spec fn ticked(f: Form, animating: bool, now: u64) -> (Form, bool) {
    let blinks = in_field(f) && !f.ui.drag_edit;
    let due = now - f.ui.caret_at >= BLINK;
    let turned = if blinks {
        due
    } else {
        !f.ui.caret_on
    };
    (
        Form { ui: Ui { caret_on: if turned {
                !f.ui.caret_on
            } else {
                f.ui.caret_on
            }, caret_at: if blinks && due {
                now
            } else {
                f.ui.caret_at
            }, dirty: false, ..f.ui }, ..f },
        animating || turned || f.ui.dirty,
    )
}

/// The place of a part in a list, or the length of the list.
fn find_part(list: &Vec<Id>, id: Id) -> (r: usize)
    ensures
        r <= list@.len(),
        place_in(list@, Some(id)) == (if r < list@.len() {
            Some(r as int)
        } else {
            None
        }),
{
    let mut i: usize = 0;
    while i < list.len() && list[i] != id
        invariant
            i <= list@.len(),
            forall|k: int| 0 <= k < i ==> list@[k] != id,
        decreases list@.len() - i,
    {
        i += 1;
    }
    proof {
        list@.index_of_first_ensures(id);
        if i < list@.len() {
            assert(list@.contains(list@[i as int]));
        }
    }
    i
}

/// The part that Tab goes to.
pub fn part_after(focus: Option<Id>, back: bool, shown: usize) -> (r: Id)
    ensures
        r == next_part(tab_order(shown as int), focus, back),
{
    let list = focusables(shown);
    let n: usize = list.len();
    let at: usize = match focus {
        Some(id) => find_part(&list, id),
        None => n,
    };
    if at < n {
        proof {
            lemma_round(at as int, n as int);
        }
        if back {
            if at == 0 {
                list[n - 1]
            } else {
                list[at - 1]
            }
        } else if at + 1 < n {
            list[at + 1]
        } else {
            list[0]
        }
    } else if back {
        list[n - 1]
    } else {
        list[0]
    }
}

fn turn(f: Flags, id: Id) -> (r: Flags)
    ensures
        r == turned(f, id),
{
    match id {
        Id::Mode0 => Flags { mode: 0, ..f },
        Id::Mode1 => Flags { mode: 1, ..f },
        Id::Mode2 => Flags { mode: 2, ..f },
        Id::Live => Flags { live: !f.live, ..f },
        Id::Space => Flags { space: !f.space, ..f },
        Id::Caps => Flags { caps: !f.caps, ..f },
        Id::Startup => Flags { startup: !f.startup, ..f },
        Id::Updates => Flags { updates: !f.updates, ..f },
        _ => f,
    }
}

fn part_of_mode(mode: u8) -> (r: Id)
    requires
        mode <= 2,
    ensures
        r == mode_part(mode),
{
    if mode == 0 {
        Id::Mode0
    } else if mode == 1 {
        Id::Mode1
    } else {
        Id::Mode2
    }
}

fn line_of(s: &str) -> (r: String)
    ensures
        r@ == first_line(s@),
{
    let v = chars_of(s);
    let n: usize = v.len();
    let mut i: usize = 0;
    assert(v@.skip(0) =~= v@);
    while i < n && v[i] != '\r' && v[i] != '\n'
        invariant
            v@ == s@,
            i <= n == v@.len(),
            part_len(s@, seq!['\r', '\n']) == i + part_len(
                v@.skip(i as int),
                seq!['\r', '\n'],
            ),
        decreases n - i,
    {
        proof {
            let rest = v@.skip(i as int);
            assert(rest[0] == v@[i as int]);
            assert(!seq!['\r', '\n'].contains(rest[0]));
            assert(rest.skip(1) =~= v@.skip(i + 1));
        }
        i += 1;
    }
    assert(part_len(v@.skip(i as int), seq!['\r', '\n']) == 0) by {
        if i < n {
            let seps = seq!['\r', '\n'];
            assert(v@.skip(i as int)[0] == v@[i as int]);
            assert(seps[0] == '\r' && seps[1] == '\n');
            assert(seps.contains(v@[i as int]));
        }
    }
    let r = string_of(&v, 0, i);
    assert(r@ =~= s@.take(i as int));
    r
}

/// How many rows a turn of the mouse wheel is: one for each 120, towards zero.
pub fn wheel_rows(turn: i16) -> (r: i32)
    ensures
        r == (if turn >= 0 {
            turn / 120
        } else {
            -((-turn) / 120)
        }),
{
    let t: i32 = turn as i32;
    if t >= 0 {
        t / 120
    } else {
        -((-t) / 120)
    }
}

/// One step around a circle of `n` places, in both directions.
pub proof fn lemma_round(i: int, n: int)
    requires
        0 <= i < n,
    ensures
        (i + 1) % n == (if i + 1 < n {
            i + 1
        } else {
            0
        }),
        (i + n - 1) % n == (if i > 0 {
            i - 1
        } else {
            n - 1
        }),
{
    if i + 1 < n {
        vstd::arithmetic::div_mod::lemma_small_mod((i + 1) as nat, n as nat);
    } else {
        vstd::arithmetic::div_mod::lemma_mod_self_0(n);
    }
    if i > 0 {
        vstd::arithmetic::div_mod::lemma_mod_add_multiples_vanish(i - 1, n);
        vstd::arithmetic::div_mod::lemma_small_mod((i - 1) as nat, n as nat);
    } else {
        vstd::arithmetic::div_mod::lemma_small_mod((n - 1) as nat, n as nat);
    }
}

} // verus!
