//! What the icon's menu offers, what messages and new settings bring about, and when
//! the overlay is on the screen.

use crate::config::Config;
use crate::overlay::{ticked, Overlay};
use crate::ui::{applied, main_action, menu_lines, ApplyAction, Line, MainAction};
use vstd::prelude::*;

verus! {

// ── the menu ──────────────────────────────────────────────────────────────
proof fn lemma_contains<A>(a: Seq<A>, b: Seq<A>, x: A)
    ensures
        (a + b).contains(x) <==> a.contains(x) || b.contains(x),
{
    let c = a + b;
    if a.contains(x) {
        let i = choose|i: int| 0 <= i < a.len() && a[i] == x;
        assert(c[i] == x);
    }
    if b.contains(x) {
        let i = choose|i: int| 0 <= i < b.len() && b[i] == x;
        assert(c[a.len() + i] == x);
    }
    if c.contains(x) {
        let i = choose|i: int| 0 <= i < c.len() && c[i] == x;
        if i < a.len() {
            assert(a[i] == x);
        } else {
            assert(b[i - a.len()] == x);
        }
    }
}

/// The lines of the menu: one that starts or stops dictation, by what is on; one for
/// listening, with a mark if it is on; one for an update exactly if one was found, with
/// its version; one for the settings; one for the model exactly if it is missing; and
/// one to quit. There are no others but separators.
pub proof fn law_lines_of_the_menu(
    dictating: bool,
    enabled: bool,
    update: Option<Seq<char>>,
    installed: bool,
    id: usize,
    label: Seq<char>,
    checked: bool,
)
    ensures
        menu_lines(dictating, enabled, update, installed).contains(
            Line::Command { id, label, checked },
        ) <==> {
            ||| id == 3 && !checked && label == (if dictating {
                "Остановить диктовку"@
            } else {
                "Начать диктовку"@
            })
            ||| id == 2 && checked == enabled && label == "Прослушивание микрофона"@
            ||| id == 6 && !checked && (update matches Some(v) && label == "Обновление "@ + v
                + " — открыть…"@)
            ||| id == 1 && !checked && label == "Настройки…"@
            ||| id == 5 && !checked && !installed && label == "Загрузить модель…"@
            ||| id == 4 && !checked && label == "Выход"@
        },
{
    let x = Line::Command { id, label, checked };
    let a = seq![
        crate::ui::item(
            3,
            if dictating {
                "Остановить диктовку"@
            } else {
                "Начать диктовку"@
            },
        ),
        Line::Separator,
        Line::Command { id: 2, label: "Прослушивание микрофона"@, checked: enabled },
    ];
    let b = match update {
        Some(v) => seq![
            crate::ui::item(6, "Обновление "@ + v + " — открыть…"@),
            Line::Separator,
        ],
        None => Seq::<Line>::empty(),
    };
    let c = seq![crate::ui::item(1, "Настройки…"@)];
    let d = if installed {
        Seq::<Line>::empty()
    } else {
        seq![crate::ui::item(5, "Загрузить модель…"@)]
    };
    let e = seq![Line::Separator, crate::ui::item(4, "Выход"@)];
    assert(menu_lines(dictating, enabled, update, installed) =~= a + b + c + d + e);
    lemma_contains(a + b + c + d, e, x);
    lemma_contains(a + b + c, d, x);
    lemma_contains(a + b, c, x);
    lemma_contains(a, b, x);
    assert(a[0] == crate::ui::item(
        3,
        if dictating {
            "Остановить диктовку"@
        } else {
            "Начать диктовку"@
        },
    ));
    assert(a[2] == Line::Command { id: 2, label: "Прослушивание микрофона"@, checked: enabled });
    assert(c[0] == crate::ui::item(1, "Настройки…"@));
    assert(e[1] == crate::ui::item(4, "Выход"@));
    if !installed {
        assert(d[0] == crate::ui::item(5, "Загрузить модель…"@));
    }
    match update {
        Some(v) => {
            assert(b[0] == crate::ui::item(6, "Обновление "@ + v + " — открыть…"@));
        },
        None => {},
    }
}

// ── messages ──────────────────────────────────────────────────────────────
/// What brings about what: dictation is toggled by a click on the icon with the left
/// button and by the hotkey, the menu comes up by the right button and by the menu key,
/// a click on the notification opens the release page; the icon changes when the state
/// did, an update is announced when one was found, the overlay moves with its timer, and
/// the end of the main window ends the program.
pub proof fn law_messages(msg: u32, wp: usize, lp: i64)
    ensures
        ({
            let done = main_action(msg, wp, lp);
            let event = (lp & 0xFFFF) as u32;
            &&& done == MainAction::Toggle <==> (msg == 0x8001 && event == 0x0202) || (msg == 0x0312
                && wp as i32 == 1)
            &&& done == MainAction::ShowMenu <==> msg == 0x8001 && (event == 0x0205 || event
                == 0x007B)
            &&& done == MainAction::OpenReleasePage <==> msg == 0x8001 && event == 0x0405
            &&& done == MainAction::UpdateIcon <==> msg == 0x8002
            &&& done == MainAction::AnnounceUpdate <==> msg == 0x8003
            &&& done == MainAction::TickOverlay <==> msg == 0x0113 && wp == 1
            &&& done == MainAction::SettingChanged <==> msg == 0x001A && wp == 0 && lp != 0
            &&& done == MainAction::Quit <==> msg == 0x0002
            &&& done == MainAction::Default <==> msg != 0x8001 && msg != 0x8002 && msg != 0x8003
                && msg != 0x0312 && msg != 0x0113 && msg != 0x001A && msg != 0x0111 && msg != 0x0002
        }),
{
}

// ── new settings ──────────────────────────────────────────────────────────
/// New settings are saved first. The microphone is opened anew exactly if another one
/// was chosen, the hotkey is taken anew exactly if it changed, and the recogniser is
/// made anew exactly if its words or their weight changed; else it just starts anew.
pub proof fn law_new_settings_take_effect(was: Config, new: Config, score_changed: bool)
    ensures
        ({
            let list = applied(was, new, score_changed);
            let words = was@.wake_words != new@.wake_words || was@.stop_words != new@.stop_words
                || score_changed;
            &&& list.len() > 0 && list[0] == ApplyAction::Save
            &&& list.contains(ApplyAction::RebuildStream) <==> was@.device_name != new@.device_name
            &&& list.contains(ApplyAction::RegisterHotkey) <==> was@.hotkey != new@.hotkey
            &&& list.contains(ApplyAction::Reload) <==> words
            &&& list.contains(ApplyAction::Reset) <==> !words
        }),
{
    let list = applied(was, new, score_changed);
    let n = list.len() as int;
    if was@.device_name != new@.device_name {
        assert(list[1] == ApplyAction::RebuildStream);
    }
    if was@.hotkey != new@.hotkey {
        assert(list[n - 2] == ApplyAction::RegisterHotkey);
    }
    assert(list[n - 1] == ApplyAction::Reload || list[n - 1] == ApplyAction::Reset);
    assert forall|i: int| 0 <= i < n implies {
        ||| list[i] == ApplyAction::Save
        ||| list[i] == ApplyAction::RebuildStream && was@.device_name != new@.device_name
        ||| list[i] == ApplyAction::RegisterHotkey && was@.hotkey != new@.hotkey
        ||| i == n - 1
    } by {}
}

// ── the overlay ───────────────────────────────────────────────────────────
/// The moment was less than `limit` ago.
pub open spec fn lately(at: Option<u64>, now: u64, limit: int) -> bool {
    match at {
        Some(t) => now < t + limit,
        None => false,
    }
}

/// When the overlay belongs on the screen. Hidden: never. Always: while listening is on,
/// unless it was closed. Else: during dictation, and unless it was closed for eight
/// seconds after it and while the mouse is over it or was a moment ago. That it was
/// closed is forgotten when dictation begins.
pub proof fn law_when_the_overlay_shows(
    o: Overlay,
    mode: Seq<char>,
    dictating: bool,
    enabled: bool,
    visible: bool,
    now: u64,
)
    ensures
        ({
            let (next, t) = ticked(o, mode, dictating, enabled, visible, now);
            let begins = dictating && !o.last_dictating;
            let ends = !dictating && o.last_dictating;
            let closed = o.dismissed && !begins;
            let lingers = ends || (!begins && lately(o.ended_at, now, 8_000_000_000));
            let hovered = o.hovered || lately(o.left_at, now, 450_000_000);
            &&& mode == "hidden"@ ==> !t.show
            &&& mode != "hidden"@ && mode == "always"@ ==> t.show == (enabled && !closed)
            &&& mode != "hidden"@ && mode != "always"@ ==> t.show == (dictating || (!closed && (
            lingers || hovered)))
            &&& t.appear == (t.show && !visible)
            &&& t.draw == (t.show || visible)
            &&& next.dismissed == closed
        }),
{
}

/// What a tick leaves behind: whether dictation was on, when it ended, and which timer
/// runs. Where the mouse is stays as it was.
pub proof fn law_what_a_tick_remembers(
    o: Overlay,
    mode: Seq<char>,
    dictating: bool,
    enabled: bool,
    visible: bool,
    now: u64,
)
    ensures
        ({
            let (next, t) = ticked(o, mode, dictating, enabled, visible, now);
            &&& next.last_dictating == dictating
            &&& dictating && !o.last_dictating ==> next.ended_at is None
            &&& !dictating && o.last_dictating ==> next.ended_at == Some(now)
            &&& dictating == o.last_dictating ==> next.ended_at == o.ended_at
            &&& next.hovered == o.hovered && next.left_at == o.left_at && next.region == o.region
                && next.tracking == o.tracking
            &&& t.timer == (if (t.show || visible) && !o.hires {
                Some(8u32)
            } else if !t.show && !visible && o.hires {
                Some(40u32)
            } else {
                None
            })
        }),
{
}

} // verus!
