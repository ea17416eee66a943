//! The notification area and its menu, the messages of the main window, and what
//! new settings bring about.

use crate::config::Config;
use crate::icons::Tray;
use crate::text::{same, same_list};
use crate::utf16::{encode, encoded, wide};
use vstd::prelude::*;

verus! {

// ── window messages ───────────────────────────────────────────────────────
pub const WM_DESTROY: u32 = 0x0002;

pub const WM_SETTINGCHANGE: u32 = 0x001A;

pub const WM_CONTEXTMENU: u32 = 0x007B;

pub const WM_COMMAND: u32 = 0x0111;

pub const WM_TIMER: u32 = 0x0113;

pub const WM_LBUTTONUP: u32 = 0x0202;

pub const WM_RBUTTONUP: u32 = 0x0205;

pub const WM_HOTKEY: u32 = 0x0312;

pub const NIN_BALLOONUSERCLICK: u32 = 0x0405;

pub const WM_APP_TRAY: u32 = 0x8001;

pub const WM_APP_STATE: u32 = 0x8002;

pub const WM_APP_UPDATE: u32 = 0x8003;

pub const HOTKEY_ID: i32 = 1;

pub const OVERLAY_TIMER: usize = 1;

/// The lower 16 bits.
pub open spec fn low_word(lp: i64) -> u32 {
    (lp & 0xFFFF) as u32
}

/// A coordinate in the lower 16 bits, with its sign.
pub open spec fn x_of(lp: i64) -> i32 {
    (lp & 0xFFFF) as i16 as i32
}

/// A coordinate in the next 16 bits, with its sign.
pub open spec fn y_of(lp: i64) -> i32 {
    ((lp >> 16) & 0xFFFF) as i16 as i32
}

/// The point that a mouse message carries.
pub fn mouse_point(lp: i64) -> (r: (i32, i32))
    ensures
        r == (x_of(lp), y_of(lp)),
{
    ((lp & 0xFFFF) as i16 as i32, ((lp >> 16) & 0xFFFF) as i16 as i32)
}

/// A point packed as the system packs it is read back, with its signs.
pub proof fn law_mouse_point(x: i16, y: i16)
    ensures
        x_of(((y as u16 as i64) << 16) | (x as u16 as i64)) == x,
        y_of(((y as u16 as i64) << 16) | (x as u16 as i64)) == y,
{
    assert(((((y as u16 as i64) << 16) | (x as u16 as i64)) & 0xFFFF) as i16 == x) by (bit_vector);
    assert((((((y as u16 as i64) << 16) | (x as u16 as i64)) >> 16) & 0xFFFF) as i16 == y)
        by (bit_vector);
}

/// What the main window does.
#[derive(Clone, Copy, PartialEq, Eq, Structural, Debug)]
pub enum MainAction {
    /// What any window does.
    Default,
    Nothing,
    ShowMenu,
    /// Start or end dictation.
    Toggle,
    OpenReleasePage,
    /// Show the icon for the current state.
    UpdateIcon,
    /// Tell about an update that was found.
    AnnounceUpdate,
    TickOverlay,
    /// A setting of the system changed; its name is at hand.
    SettingChanged,
    Quit,
}

/// What the main window does about a message.
pub open spec fn main_action(msg: u32, wp: usize, lp: i64) -> MainAction {
    if msg == WM_APP_TRAY {
        if low_word(lp) == WM_RBUTTONUP || low_word(lp) == WM_CONTEXTMENU {
            MainAction::ShowMenu
        } else if low_word(lp) == WM_LBUTTONUP {
            MainAction::Toggle
        } else if low_word(lp) == NIN_BALLOONUSERCLICK {
            MainAction::OpenReleasePage
        } else {
            MainAction::Nothing
        }
    } else if msg == WM_APP_STATE {
        MainAction::UpdateIcon
    } else if msg == WM_APP_UPDATE {
        MainAction::AnnounceUpdate
    } else if msg == WM_HOTKEY {
        if wp as i32 == HOTKEY_ID {
            MainAction::Toggle
        } else {
            MainAction::Nothing
        }
    } else if msg == WM_TIMER {
        if wp == OVERLAY_TIMER {
            MainAction::TickOverlay
        } else {
            MainAction::Nothing
        }
    } else if msg == WM_SETTINGCHANGE {
        if wp == 0 && lp != 0 {
            MainAction::SettingChanged
        } else {
            MainAction::Nothing
        }
    } else if msg == WM_COMMAND {
        MainAction::Nothing
    } else if msg == WM_DESTROY {
        MainAction::Quit
    } else {
        MainAction::Default
    }
}

/// What the main window does about a message.
pub fn main_message(msg: u32, wp: usize, lp: i64) -> (r: MainAction)
    ensures
        r == main_action(msg, wp, lp),
{
    if msg == WM_APP_TRAY {
        let event: u32 = (lp & 0xFFFF) as u32;
        if event == WM_RBUTTONUP || event == WM_CONTEXTMENU {
            MainAction::ShowMenu
        } else if event == WM_LBUTTONUP {
            MainAction::Toggle
        } else if event == NIN_BALLOONUSERCLICK {
            MainAction::OpenReleasePage
        } else {
            MainAction::Nothing
        }
    } else if msg == WM_APP_STATE {
        MainAction::UpdateIcon
    } else if msg == WM_APP_UPDATE {
        MainAction::AnnounceUpdate
    } else if msg == WM_HOTKEY {
        if wp as i32 == HOTKEY_ID {
            MainAction::Toggle
        } else {
            MainAction::Nothing
        }
    } else if msg == WM_TIMER {
        if wp == OVERLAY_TIMER {
            MainAction::TickOverlay
        } else {
            MainAction::Nothing
        }
    } else if msg == WM_SETTINGCHANGE {
        if wp == 0 && lp != 0 {
            MainAction::SettingChanged
        } else {
            MainAction::Nothing
        }
    } else if msg == WM_COMMAND {
        MainAction::Nothing
    } else if msg == WM_DESTROY {
        MainAction::Quit
    } else {
        MainAction::Default
    }
}

/// Is it the colours of the system that changed, so that the icons must change.
pub fn is_theme_change(name: &str) -> (r: bool)
    ensures
        r == (name@ == "ImmersiveColorSet"@),
{
    same(name, "ImmersiveColorSet")
}

// ── the icon ──────────────────────────────────────────────────────────────
/// What the icon shows: listening off before all, then dictation.
pub fn tray_state(enabled: bool, dictating: bool) -> (r: Tray)
    ensures
        r == (if !enabled {
            Tray::Off
        } else if dictating {
            Tray::Rec
        } else {
            Tray::Idle
        }),
{
    if !enabled {
        Tray::Off
    } else if dictating {
        Tray::Rec
    } else {
        Tray::Idle
    }
}

/// A text in a field of `n` code units: as many as fit, with the zero if that
/// fits too.
pub fn field(s: &str, n: usize) -> (r: Vec<u16>)
    ensures
        r@ == encoded(s@).push(0).take(
            if n < encoded(s@).len() + 1 {
                n as int
            } else {
                encoded(s@).len() as int + 1
            },
        ),
{
    let mut v = wide(s);
    if n < v.len() {
        v.truncate(n);
    }
    assert(v@ =~= encoded(s@).push(0).take(
        if n < encoded(s@).len() + 1 {
            n as int
        } else {
            encoded(s@).len() as int + 1
        },
    ));
    v
}

/// The name of a font in its field of 32 code units, of which the last stays
/// zero.
pub fn face_name(s: &str) -> (r: Vec<u16>)
    ensures
        r@ == encoded(s@).take(
            if encoded(s@).len() < 31 {
                encoded(s@).len() as int
            } else {
                31
            },
        ),
{
    let mut v = encode(s);
    if v.len() > 31 {
        v.truncate(31);
    }
    assert(v@ =~= encoded(s@).take(
        if encoded(s@).len() < 31 {
            encoded(s@).len() as int
        } else {
            31
        },
    ));
    v
}

/// What is said about an update.
pub fn balloon_text(version: &str) -> (r: String)
    ensures
        r@ == "Версия "@ + version@ + " — откройте страницу релиза"@,
{
    let mut r = "Версия ".to_owned();
    r.append(version);
    r.append(" — откройте страницу релиза");
    r
}

// ── the menu ──────────────────────────────────────────────────────────────
pub const ID_SETTINGS: usize = 1;

pub const ID_ENABLED: usize = 2;

pub const ID_DICTATE: usize = 3;

pub const ID_QUIT: usize = 4;

pub const ID_MODEL: usize = 5;

pub const ID_UPDATE: usize = 6;

/// A line of the menu.
#[derive(PartialEq, Eq, Debug)]
pub enum MenuItem {
    Separator,
    Command { id: usize, label: String, checked: bool },
}

/// A line of the menu with the label as characters.
pub enum Line {
    Separator,
    Command { id: usize, label: Seq<char>, checked: bool },
}

impl View for MenuItem {
    type V = Line;

    open spec fn view(&self) -> Line {
        match self {
            MenuItem::Separator => Line::Separator,
            MenuItem::Command { id, label, checked } => Line::Command {
                id: *id,
                label: label@,
                checked: *checked,
            },
        }
    }
}

pub open spec fn lines(v: Seq<MenuItem>) -> Seq<Line> {
    v.map_values(|m: MenuItem| m@)
}

pub open spec fn item(id: usize, label: Seq<char>) -> Line {
    Line::Command { id, label, checked: false }
}

/// The menu. The line about an update is there only if one was found, and the
/// line about the model only if it is missing.
pub open spec fn menu_lines(
    dictating: bool,
    enabled: bool,
    update: Option<Seq<char>>,
    installed: bool,
) -> Seq<Line> {
    seq![
        item(
            ID_DICTATE,
            if dictating {
                "Остановить диктовку"@
            } else {
                "Начать диктовку"@
            },
        ),
        Line::Separator,
        Line::Command { id: ID_ENABLED, label: "Прослушивание микрофона"@, checked: enabled },
    ] + (match update {
        Some(v) => seq![
            item(ID_UPDATE, "Обновление "@ + v + " — открыть…"@),
            Line::Separator,
        ],
        None => Seq::<Line>::empty(),
    }) + seq![item(ID_SETTINGS, "Настройки…"@)] + (if installed {
        Seq::<Line>::empty()
    } else {
        seq![item(ID_MODEL, "Загрузить модель…"@)]
    }) + seq![Line::Separator, item(ID_QUIT, "Выход"@)]
}

fn add_line(v: &mut Vec<MenuItem>, m: MenuItem)
    ensures
        lines(final(v)@) == lines(old(v)@) + seq![m@],
{
    v.push(m);
    assert(lines(v@) =~= lines(old(v)@) + seq![m@]);
}

fn add_item(v: &mut Vec<MenuItem>, id: usize, label: &str)
    ensures
        lines(final(v)@) == lines(old(v)@) + seq![item(id, label@)],
{
    add_line(v, MenuItem::Command { id, label: label.to_owned(), checked: false });
}

/// The menu of the icon.
pub fn menu(dictating: bool, enabled: bool, update: Option<&str>, installed: bool) -> (r: Vec<
    MenuItem,
>)
    ensures
        lines(r@) == menu_lines(
            dictating,
            enabled,
            match update {
                Some(v) => Some(v@),
                None => None,
            },
            installed,
        ),
{
    let mut v: Vec<MenuItem> = Vec::new();
    assert(lines(v@) =~= Seq::<Line>::empty());
    if dictating {
        add_item(&mut v, ID_DICTATE, "Остановить диктовку");
    } else {
        add_item(&mut v, ID_DICTATE, "Начать диктовку");
    }
    add_line(&mut v, MenuItem::Separator);
    add_line(
        &mut v,
        MenuItem::Command {
            id: ID_ENABLED,
            label: "Прослушивание микрофона".to_owned(),
            checked: enabled,
        },
    );
    if let Some(ver) = update {
        let mut label = "Обновление ".to_owned();
        label.append(ver);
        label.append(" — открыть…");
        add_item(&mut v, ID_UPDATE, &label);
        add_line(&mut v, MenuItem::Separator);
    }
    add_item(&mut v, ID_SETTINGS, "Настройки…");
    if !installed {
        add_item(&mut v, ID_MODEL, "Загрузить модель…");
    }
    add_line(&mut v, MenuItem::Separator);
    add_item(&mut v, ID_QUIT, "Выход");
    assert(lines(v@) =~= menu_lines(
        dictating,
        enabled,
        match update {
            Some(x) => Some(x@),
            None => None,
        },
        installed,
    ));
    v
}

/// What a line of the menu does.
#[derive(Clone, Copy, PartialEq, Eq, Structural, Debug)]
pub enum MenuAction {
    Nothing,
    Toggle,
    SetEnabled(bool),
    OpenSettings,
    OpenModel,
    OpenReleasePage,
    Quit,
}

/// What the chosen line of the menu does.
pub fn menu_action(id: usize, enabled: bool) -> (r: MenuAction)
    ensures
        r == (if id == ID_DICTATE {
            MenuAction::Toggle
        } else if id == ID_ENABLED {
            MenuAction::SetEnabled(!enabled)
        } else if id == ID_SETTINGS {
            MenuAction::OpenSettings
        } else if id == ID_MODEL {
            MenuAction::OpenModel
        } else if id == ID_UPDATE {
            MenuAction::OpenReleasePage
        } else if id == ID_QUIT {
            MenuAction::Quit
        } else {
            MenuAction::Nothing
        }),
{
    if id == ID_DICTATE {
        MenuAction::Toggle
    } else if id == ID_ENABLED {
        MenuAction::SetEnabled(!enabled)
    } else if id == ID_SETTINGS {
        MenuAction::OpenSettings
    } else if id == ID_MODEL {
        MenuAction::OpenModel
    } else if id == ID_UPDATE {
        MenuAction::OpenReleasePage
    } else if id == ID_QUIT {
        MenuAction::Quit
    } else {
        MenuAction::Nothing
    }
}

/// Every line of the menu that is no separator does something, and the menu
/// always offers to quit.
pub proof fn law_menu_lines_work(
    dictating: bool,
    enabled: bool,
    update: Option<Seq<char>>,
    installed: bool,
    i: int,
)
    requires
        0 <= i < menu_lines(dictating, enabled, update, installed).len(),
    ensures
        menu_lines(dictating, enabled, update, installed)[i] matches Line::Command { id, .. }
            ==> 1 <= id <= 6,
        menu_lines(dictating, enabled, update, installed).last() == item(ID_QUIT, "Выход"@),
        menu_lines(dictating, enabled, update, installed)[i] matches Line::Command { id, .. } ==> (
        id == ID_UPDATE ==> update is Some) && (id == ID_MODEL ==> !installed),
{
}

// ── new settings ──────────────────────────────────────────────────────────
/// One thing to do about new settings.
#[derive(Clone, Copy, PartialEq, Eq, Structural, Debug)]
pub enum ApplyAction {
    /// Write the settings file.
    Save,
    /// Listen to the chosen microphone.
    RebuildStream,
    /// Take the new hotkey.
    RegisterHotkey,
    /// Make the recogniser anew: its words changed.
    Reload,
    /// Let the recogniser forget the current phrase.
    Reset,
}

/// What is to be done about new settings.
pub open spec fn applied(old: Config, new: Config, score_changed: bool) -> Seq<ApplyAction> {
    let first = seq![ApplyAction::Save];
    let stream = if old@.device_name != new@.device_name {
        seq![ApplyAction::RebuildStream]
    } else {
        Seq::<ApplyAction>::empty()
    };
    let hotkey = if old@.hotkey != new@.hotkey {
        seq![ApplyAction::RegisterHotkey]
    } else {
        Seq::<ApplyAction>::empty()
    };
    let last = if old@.wake_words != new@.wake_words || old@.stop_words != new@.stop_words
        || score_changed {
        seq![ApplyAction::Reload]
    } else {
        seq![ApplyAction::Reset]
    };
    first + stream + hotkey + last
}

fn same_name(a: &Option<String>, b: &Option<String>) -> (r: bool)
    ensures
        r == ((match a {
            Some(s) => Some(s@),
            None => None,
        }) == (match b {
            Some(s) => Some(s@),
            None => None,
        })),
{
    match (a, b) {
        (Some(x), Some(y)) => same(x, y),
        (None, None) => true,
        _ => false,
    }
}

/// What is to be done about new settings, in order. Everything takes effect
/// without a restart. `score_changed` says whether the weight of the recogniser's
/// words changed.
pub fn apply(was: &Config, new: &Config, score_changed: bool) -> (r: Vec<ApplyAction>)
    ensures
        r@ == applied(*was, *new, score_changed),
{
    let mut v: Vec<ApplyAction> = Vec::new();
    v.push(ApplyAction::Save);
    if !same_name(&was.device_name, &new.device_name) {
        v.push(ApplyAction::RebuildStream);
    }
    if !same(&was.hotkey, &new.hotkey) {
        v.push(ApplyAction::RegisterHotkey);
    }
    if !same_list(&was.wake_words, &new.wake_words) || !same_list(&was.stop_words, &new.stop_words)
        || score_changed {
        v.push(ApplyAction::Reload);
    } else {
        v.push(ApplyAction::Reset);
    }
    assert(v@ =~= applied(*was, *new, score_changed));
    v
}

} // verus!
