//! What the parts of the settings window do, and what of it is saved.

use crate::config::Settings;
use crate::edit::{
    all_selected, backspaced, cut, deleted, left_word, moved, right_word, selected, typed,
    typed_all, Field,
};
use crate::settings::{
    activated, built, capture_keyed, char_typed, field, first_before, first_line, keyed,
    layout_order, mouse_left, mouse_moved, next_part, opened, pastes, popup_closed, popup_picked,
    popup_scrolled, popup_shown, popup_stepped, pressed, pressed_on, released, tab_order, ticked,
    topmost, turned_to, with_field, Eff, Form, Id, Ui,
};
use crate::text::{joined, lemma_part_len, lowercase, part_len, trimmed};
use crate::utf16::{decoded, encoded, law_decode_of_encode};
use crate::words::{captured, law_words_survive, listed, tidy, unparted, Mods};
use vstd::prelude::*;

verus! {

// ── what the window shows and what it saves ───────────────────────────────
/// A window that opens shows the settings: the lists of words with commas, the hotkey,
/// the switches, the mode of the overlay, and the chosen microphone, or the default one
/// if it is not there. Nothing is being done in it.
pub proof fn law_window_shows_the_settings(
    s: Settings,
    devices: Seq<Seq<char>>,
    startup: bool,
    silence: Seq<char>,
    hotwords: Seq<char>,
    now: u64,
    k: int,
)
    ensures
        ({
            let f = opened(s, devices, startup, silence, hotwords, now);
            &&& decoded(f.fields.wake.t) == joined(s.wake_words, ", "@)
            &&& decoded(f.fields.stop.t) == joined(s.stop_words, ", "@)
            &&& decoded(f.fields.silence.t) == silence
            &&& decoded(f.fields.hotwords.t) == hotwords
            &&& f.fields.silence.numeric && f.fields.hotwords.numeric
            &&& !f.fields.wake.numeric && !f.fields.stop.numeric
            &&& f.fields.hotkey == s.hotkey
            &&& f.mics.devices == devices
            &&& s.device_name is None ==> f.mics.device == 0
            &&& s.device_name matches Some(n) ==> !devices.contains(n) ==> f.mics.device == 0
            &&& s.device_name matches Some(n) ==> 0 <= k < devices.len() && devices[k] == n && (
            forall|j: int| 0 <= j < k ==> devices[j] != n) ==> f.mics.device == k + 1
            &&& s.overlay_mode == "dictation"@ ==> f.flags.mode == 1
            &&& s.overlay_mode == "hidden"@ ==> f.flags.mode == 2
            &&& s.overlay_mode != "dictation"@ && s.overlay_mode != "hidden"@ ==> f.flags.mode == 0
            &&& f.flags.live == s.live_typing
            &&& f.flags.space == s.append_space
            &&& f.flags.caps == s.capitalize
            &&& f.flags.updates == s.check_updates
            &&& f.flags.startup == startup
            &&& !f.ui.capturing && !f.ui.expanded && f.ui.focus is None && f.ui.press is None
            &&& !f.list.on
        }),
{
    law_decode_of_encode(joined(s.wake_words, ", "@));
    law_decode_of_encode(joined(s.stop_words, ", "@));
    law_decode_of_encode(silence);
    law_decode_of_encode(hotwords);
    reveal_strlit("dictation");
    reveal_strlit("hidden");
    assert("dictation"@.len() == 9 && "hidden"@.len() == 6);
    match s.device_name {
        Some(n) => {
            if devices.contains(n) {
                devices.index_of_first_ensures(n);
                if 0 <= k < devices.len() && devices[k] == n && (forall|j: int|
                    0 <= j < k ==> devices[j] != n) {
                    let i = devices.index_of_first(n)->0;
                    assert(i == k) by {
                        if i < k {
                            assert(devices[i] != n);
                        }
                    }
                }
            } else if 0 <= k < devices.len() {
                assert(devices[k] != n);
            }
        },
        None => {},
    }
}

/// What is saved is what the window holds, whatever the settings were: the chosen
/// microphone, the mode of the overlay, every switch, the words in the two fields unless
/// a field has none, and the hotkey unless it is empty.
pub proof fn law_settings_come_from_the_window(f: Form, s: Settings)
    requires
        f.ok(),
    ensures
        ({
            let b = built(f, s);
            &&& f.mics.device == 0 ==> b.device_name is None
            &&& f.mics.device > 0 ==> b.device_name == Some(f.mics.devices[f.mics.device - 1])
            &&& f.flags.mode == 0 ==> b.overlay_mode == "always"@
            &&& f.flags.mode == 1 ==> b.overlay_mode == "dictation"@
            &&& f.flags.mode == 2 ==> b.overlay_mode == "hidden"@
            &&& b.live_typing == f.flags.live
            &&& b.append_space == f.flags.space
            &&& b.capitalize == f.flags.caps
            &&& b.check_updates == f.flags.updates
            &&& listed(decoded(f.fields.wake.t)).len() > 0 ==> b.wake_words == listed(
                decoded(f.fields.wake.t),
            )
            &&& listed(decoded(f.fields.stop.t)).len() > 0 ==> b.stop_words == listed(
                decoded(f.fields.stop.t),
            )
            &&& trimmed(f.fields.hotkey).len() > 0 ==> b.hotkey == lowercase(
                trimmed(f.fields.hotkey),
            )
        }),
{
}

/// Lists of words that are typed with commas between them are saved, whatever words were
/// there before.
pub proof fn law_typed_words_are_saved(f: Form, s: Settings, list: Seq<Seq<char>>)
    requires
        list.len() > 0,
        forall|k: int|
            0 <= k < list.len() ==> tidy(#[trigger] list[k]) && unparted(list[k], seq![','])
                && lowercase(list[k]) == list[k],
    ensures
        decoded(f.fields.stop.t) == joined(list, ", "@) ==> built(f, s).stop_words == list,
        decoded(f.fields.wake.t) == joined(list, ", "@) ==> built(f, s).wake_words == list,
{
    law_words_survive(list);
}

/// What the window does not show stays as it was, and so do a list of words and a hotkey
/// that were left empty.
pub proof fn law_what_is_not_shown_stays(f: Form, s: Settings)
    ensures
        ({
            let b = built(f, s);
            &&& b.model_path == s.model_path
            &&& b.punctuation == s.punctuation
            &&& b.punctuation_prefix == s.punctuation_prefix
            &&& b.punctuation_words == s.punctuation_words
            &&& listed(decoded(f.fields.wake.t)).len() == 0 ==> b.wake_words == s.wake_words
            &&& listed(decoded(f.fields.stop.t)).len() == 0 ==> b.stop_words == s.stop_words
            &&& trimmed(f.fields.hotkey).len() == 0 ==> b.hotkey == s.hotkey
        }),
{
}

// ── parts at work ─────────────────────────────────────────────────────────
/// Every switch turns over its own setting and every segment chooses its own mode, and
/// all other settings stay.
pub proof fn law_switches_and_segments(f: Form, s: Settings, id: Id)
    requires
        f.ok(),
    ensures
        ({
            let b = built(f, s);
            let g = activated(f, id).0;
            let c = built(g, s);
            &&& id == Id::Live ==> c == (Settings { live_typing: !b.live_typing, ..b })
            &&& id == Id::Space ==> c == (Settings { append_space: !b.append_space, ..b })
            &&& id == Id::Caps ==> c == (Settings { capitalize: !b.capitalize, ..b })
            &&& id == Id::Updates ==> c == (Settings { check_updates: !b.check_updates, ..b })
            &&& id == Id::Mode0 ==> c == (Settings { overlay_mode: "always"@, ..b })
            &&& id == Id::Mode1 ==> c == (Settings { overlay_mode: "dictation"@, ..b })
            &&& id == Id::Mode2 ==> c == (Settings { overlay_mode: "hidden"@, ..b })
            &&& g.flags.startup == (f.flags.startup != (id == Id::Startup))
            &&& id == Id::Startup || id == Id::Close || id == Id::Cancel || id == Id::Save || id
                == Id::More || id == Id::Hotkey || id == Id::Device ==> c == b
        }),
{
}

/// The buttons: the cross and Cancel close the window and Save saves, and nothing else
/// changes; «Дополнительно» opens or folds what is below it; the button of the hotkey
/// starts to take a new one; the box of microphones opens or closes its list.
pub proof fn law_buttons(f: Form, id: Id)
    ensures
        ({
            let (g, effects) = activated(f, id);
            &&& id == Id::Close || id == Id::Cancel ==> g == f && effects == seq![Eff::Close]
            &&& id == Id::Save ==> g == f && effects == seq![Eff::Save]
            &&& g.ui.expanded == (f.ui.expanded != (id == Id::More))
            &&& g.ui.capturing == (f.ui.capturing || id == Id::Hotkey)
            &&& id == Id::Hotkey && !f.ui.capturing ==> effects == seq![Eff::PauseHotkey]
                && g.ui.focus == Some(Id::Hotkey)
            &&& g.list.on == (f.list.on != (id == Id::Device))
            &&& id == Id::Device ==> effects == (if f.list.on {
                seq![Eff::HidePopup]
            } else {
                seq![Eff::ShowPopup]
            })
            &&& id != Id::Close && id != Id::Cancel && id != Id::Save && id != Id::Hotkey && id
                != Id::Device ==> effects == Seq::<Eff>::empty()
            &&& g.fields == f.fields && g.mics == f.mics
            &&& id != Id::Hotkey ==> g.ui.focus == f.ui.focus
        }),
{
}

/// A row that is chosen in the list is the microphone that is saved: the first is the
/// default one, and each other the device of that name. The list closes; a row that is
/// not there changes nothing else.
pub proof fn law_chosen_microphone_is_saved(f: Form, s: Settings, i: int)
    requires
        f.ok(),
        0 <= i,
    ensures
        ({
            let (g, effects) = popup_picked(f, i);
            &&& !g.list.on
            &&& effects == (if f.list.on {
                seq![Eff::HidePopup]
            } else {
                Seq::<Eff>::empty()
            })
            &&& i == 0 ==> built(g, s) == (Settings { device_name: None, ..built(f, s) })
            &&& 0 < i <= f.mics.devices.len() ==> built(g, s) == (Settings {
                device_name: Some(f.mics.devices[i - 1]),
                ..built(f, s)
            })
            &&& i > f.mics.devices.len() ==> built(g, s) == built(f, s)
            &&& g.fields == f.fields && g.flags == f.flags && g.mics.devices == f.mics.devices
        }),
{
}

/// The list of microphones: opening marks the chosen row, closing an open list hides it
/// and closing a closed one does nothing, and neither changes the choice. The wheel moves
/// the rows as far as there are rows, and does nothing where all rows show. The keys go
/// one row up or down, and stay at the first and the last.
pub proof fn law_list_of_microphones(f: Form, delta: int, up: bool)
    requires
        f.ok(),
    ensures
        ({
            let n = f.mics.devices.len() as int;
            let (a, first) = popup_shown(f);
            let (b, second) = popup_closed(f);
            let (c, third) = popup_scrolled(f, delta);
            let (d, fourth) = popup_stepped(f, up);
            &&& a.list.on && a.list.hot == f.mics.device && first == seq![Eff::ShowPopup]
            &&& 0 <= a.list.top && a.list.top + 7 <= (if n + 1 > 7 {
                n + 1
            } else {
                7
            })
            &&& f.mics.device < 7 ==> a.list.top == 0
            &&& !b.list.on
            &&& f.list.on ==> second == seq![Eff::HidePopup]
            &&& !f.list.on ==> b == f && second == Seq::<Eff>::empty()
            &&& n + 1 <= 7 ==> c == f && third == Seq::<Eff>::empty()
            &&& n + 1 > 7 ==> third == seq![Eff::DrawPopup] && (if f.list.top - delta < 0 {
                c.list.top == 0
            } else if f.list.top - delta > n + 1 - 7 {
                c.list.top == n + 1 - 7
            } else {
                c.list.top == f.list.top - delta
            })
            &&& c.list.on == f.list.on && c.list.hot == f.list.hot
            &&& fourth == seq![Eff::DrawPopup] && d.list.on == f.list.on
            &&& up && f.list.hot > 0 ==> d.list.hot == f.list.hot - 1
            &&& up && f.list.hot <= 0 ==> d.list.hot == 0
            &&& !up && f.list.hot < n ==> d.list.hot == f.list.hot + 1
            &&& !up && f.list.hot == n ==> d.list.hot == n
            &&& a.mics == f.mics && b.mics == f.mics && c.mics == f.mics && d.mics == f.mics
            &&& a.fields == f.fields && b.fields == f.fields && c.fields == f.fields && d.fields
                == f.fields
            &&& a.flags == f.flags && b.flags == f.flags && c.flags == f.flags && d.flags
                == f.flags
        }),
{
}

/// While a new hotkey is taken: Escape gives up and keeps the old one; a modifier alone,
/// and keys that make no hotkey, are passed over; the first keys that make one are it.
pub proof fn law_new_hotkey(f: Form, vk: u32, m: Mods)
    requires
        f.ui.capturing,
    ensures
        ({
            let (g, effects) = capture_keyed(f, vk, m);
            let alone = vk == 0x10 || vk == 0x11 || vk == 0x12 || vk == 0x5B || vk == 0x5C || (0xA0
                <= vk <= 0xA5);
            &&& vk == 0x1B ==> !g.ui.capturing && g.fields == f.fields && effects == seq![
                Eff::ResumeHotkey,
            ]
            &&& alone || (vk < 0x1_0000 && vk != 0x1B && captured(vk, m) is None) ==> g == f
                && effects == Seq::<Eff>::empty()
            &&& vk < 0x1_0000 && !alone && vk != 0x1B ==> (captured(vk, m) matches Some(hk)
                ==> !g.ui.capturing && g.fields.hotkey == hk && effects == seq![Eff::ResumeHotkey])
            &&& g.fields.wake == f.fields.wake && g.fields.stop == f.fields.stop && g.flags
                == f.flags && g.mics == f.mics && g.list == f.list
        }),
{
}

// ── the mouse ─────────────────────────────────────────────────────────────
/// The button goes down: the list closes unless it is over the box of microphones, and
/// taking a hotkey ends unless it is over that button.
#[verifier::rlimit(30)]
pub proof fn law_button_down_ends_what_was_on(
    f: Form,
    hit: Option<Id>,
    double: bool,
    pos: int,
    now: u64,
)
    ensures
        ({
            let (g, effects) = pressed(f, hit, double, pos, now);
            &&& g.list.on == (f.list.on && hit == Some(Id::Device))
            &&& g.ui.capturing == (f.ui.capturing && hit == Some(Id::Hotkey))
            &&& f.list.on && hit != Some(Id::Device) ==> effects.contains(Eff::HidePopup)
            &&& f.ui.capturing && hit != Some(Id::Hotkey) ==> effects.contains(Eff::ResumeHotkey)
            &&& hit == Some(Id::OvScale) ==> effects.contains(Eff::SlideTo)
        }),
{
    let (g, effects) = pressed(f, hit, double, pos, now);
    let (t, before) = turned_to(f, hit);
    let after = match hit {
        Some(id) => pressed_on(
            Form { ui: Ui { dirty: true, ..t.ui }, ..t },
            id,
            double,
            pos,
            now,
        ).1,
        None => Seq::<Eff>::empty(),
    };
    assert(effects =~= before + after);
    if f.list.on && hit != Some(Id::Device) {
        assert(before[0] == Eff::HidePopup);
        assert(effects[0] == Eff::HidePopup);
    }
    if f.ui.capturing && hit != Some(Id::Hotkey) {
        assert(before[before.len() - 1] == Eff::ResumeHotkey);
        assert(effects[before.len() - 1] == Eff::ResumeHotkey);
    }
    if hit == Some(Id::OvScale) {
        assert(after[0] == Eff::SlideTo);
        assert(effects[before.len() as int] == Eff::SlideTo);
    }
}

proof fn lemma_turned(f: Form, hit: Option<Id>)
    ensures
        ({
            let t = turned_to(f, hit).0;
            &&& t.flags == f.flags && t.mics == f.mics && t.fields == f.fields
            &&& t.ui.focus == f.ui.focus && t.ui.press == f.ui.press
        }),
{
}

/// The button goes down: the focus goes to the part, but not to the cross, and away
/// beside all parts. No setting changes.
#[verifier::rlimit(30)]
pub proof fn law_button_goes_down(
    f: Form,
    hit: Option<Id>,
    double: bool,
    pos: int,
    now: u64,
    id: Id,
)
    ensures
        ({
            let g = pressed(f, hit, double, pos, now).0;
            let edit = id == Id::Wake || id == Id::Stop || id == Id::Silence || id == Id::Hotwords;
            &&& g.flags == f.flags && g.mics == f.mics && g.fields.hotkey == f.fields.hotkey
            &&& hit is None ==> g.ui.focus is None && g.ui.press is None && g.fields == f.fields
            &&& hit == Some(Id::Close) ==> g.ui.press == hit && g.ui.focus == f.ui.focus
            &&& hit == Some(id) && id != Id::Close ==> g.ui.focus == hit
            &&& hit == Some(id) && !edit && id != Id::OvScale ==> g.ui.press == hit && g.fields
                == f.fields
            &&& hit == Some(Id::OvScale) ==> g.ui.drag_slider && g.fields == f.fields
        }),
{
    lemma_turned(f, hit);
}

/// The button goes down in a field: the caret goes to the mouse, and all is selected by a
/// double click.
#[verifier::rlimit(30)]
pub proof fn law_button_goes_down_in_a_field(f: Form, double: bool, pos: int, now: u64, id: Id)
    requires
        id == Id::Wake || id == Id::Stop || id == Id::Silence || id == Id::Hotwords,
    ensures
        ({
            let g = pressed(f, Some(id), double, pos, now).0;
            &&& !double ==> field(g, id) == (Field {
                caret: pos,
                anchor: pos,
                ..field(f, id)
            }) && g.ui.drag_edit
            &&& double ==> field(g, id) == all_selected(field(f, id)) && !g.ui.drag_edit
        }),
{
    lemma_turned(f, Some(id));
}

/// The button goes up: a part works exactly if the button went down over it too, and
/// then as if it was chosen by the keyboard.
#[verifier::rlimit(30)]
pub proof fn law_button_goes_up(f: Form, hit: Option<Id>, id: Id)
    ensures
        ({
            let (g, effects) = released(f, hit);
            let (worked, more) = activated(f, id);
            &&& g.ui.press is None && !g.ui.drag_edit && !g.ui.drag_slider
            &&& hit == Some(id) && f.ui.press == hit ==> g.flags == worked.flags && g.mics
                == worked.mics && g.fields == worked.fields && g.ui.expanded == worked.ui.expanded
                && g.ui.capturing == worked.ui.capturing && g.list.on == worked.list.on && effects
                == seq![Eff::ReleaseCapture] + more
            &&& hit is None || f.ui.press != hit ==> g.flags == f.flags && g.fields == f.fields
                && g.mics == f.mics && g.list == f.list && g.ui.expanded == f.ui.expanded
                && g.ui.capturing == f.ui.capturing && effects == seq![Eff::ReleaseCapture]
        }),
{
}

/// What is saved is in the microphone, the fields and the switches alone.
pub proof fn law_what_is_saved(f: Form, g: Form, s: Settings)
    requires
        f.mics == g.mics,
        f.fields == g.fields,
        f.flags == g.flags,
    ensures
        built(f, s) == built(g, s),
{
}

/// The mouse moves: with the button down in a field it selects up to the mouse, on the
/// slider it moves it, and else it marks the part under it. The text of no field changes.
#[verifier::rlimit(30)]
pub proof fn law_mouse_moves(f: Form, hit: Option<Id>, pos: int, id: Id)
    ensures
        ({
            let (g, effects) = mouse_moved(f, hit, pos);
            let edit = id == Id::Wake || id == Id::Stop || id == Id::Silence || id == Id::Hotwords;
            &&& f.ui.drag_edit && f.ui.focus == Some(id) && edit ==> field(g, id) == (Field {
                caret: pos,
                ..field(f, id)
            })
            &&& !f.ui.drag_edit && f.ui.drag_slider ==> effects == seq![Eff::SlideTo]
            &&& !f.ui.drag_edit && !f.ui.drag_slider ==> g.ui.hot == hit && g.ui.track_leave
                && effects == (if f.ui.track_leave {
                Seq::<Eff>::empty()
            } else {
                seq![Eff::TrackLeave]
            })
            &&& !f.ui.drag_edit ==> g.fields == f.fields
            &&& g.fields.wake.t == f.fields.wake.t && g.fields.stop.t == f.fields.stop.t
            &&& g.fields.silence.t == f.fields.silence.t && g.fields.hotwords.t
                == f.fields.hotwords.t && g.fields.hotkey == f.fields.hotkey
            &&& g.flags == f.flags && g.mics == f.mics && g.list == f.list
            &&& mouse_left(f).ui.hot is None && !mouse_left(f).ui.track_leave
            &&& mouse_left(f).fields == f.fields && mouse_left(f).flags == f.flags && mouse_left(
                f,
            ).mics == f.mics
        }),
{
}

/// The mouse is over the part that was laid out last among those it is over, where the
/// parts that are folded away do not count.
pub proof fn law_part_under_the_mouse(inside: Seq<bool>, folded: Seq<bool>, n: int) -> (k: int)
    requires
        0 <= n <= layout_order().len(),
    ensures
        ({
            let more = |id: Id|
                id == Id::Silence || id == Id::Hotwords || id == Id::OvScale || id == Id::Space || id
                    == Id::Caps || id == Id::Startup || id == Id::Updates;
            let counts = |i: int| inside[i] && !(more(layout_order()[i]) && folded[i]);
            &&& topmost(inside, folded, n) is Some ==> 0 <= k < n && counts(k) && topmost(
                inside,
                folded,
                n,
            ) == Some(layout_order()[k]) && (forall|i: int| k < i < n ==> !#[trigger] counts(i))
            &&& topmost(inside, folded, n) is None ==> forall|i: int|
                0 <= i < n ==> !#[trigger] counts(i)
        }),
    decreases n,
{
    let more = |id: Id|
        id == Id::Silence || id == Id::Hotwords || id == Id::OvScale || id == Id::Space || id
            == Id::Caps || id == Id::Startup || id == Id::Updates;
    let counts = |i: int| inside[i] && !(more(layout_order()[i]) && folded[i]);
    if n <= 0 {
        0
    } else {
        lemma_more(layout_order()[n - 1]);
        if counts(n - 1) {
            n - 1
        } else {
            law_part_under_the_mouse(inside, folded, n - 1)
        }
    }
}

proof fn lemma_more(id: Id)
    ensures
        crate::settings::is_more(id) <==> id == Id::Silence || id == Id::Hotwords || id
            == Id::OvScale || id == Id::Space || id == Id::Caps || id == Id::Startup || id
            == Id::Updates,
{
    let m = crate::settings::more_parts();
    assert(m.len() == 7);
    assert(m[0] == Id::Silence && m[1] == Id::Hotwords && m[2] == Id::OvScale && m[3] == Id::Space
        && m[4] == Id::Caps && m[5] == Id::Startup && m[6] == Id::Updates);
}

/// The caret goes before the first code unit whose middle is right of the mouse, and
/// behind all if there is none.
pub proof fn law_caret_goes_to_the_mouse(before: Seq<bool>, i: int)
    requires
        0 <= i <= before.len(),
    ensures
        i <= first_before(before, i) <= before.len(),
        forall|k: int| i <= k < first_before(before, i) ==> !#[trigger] before[k],
        first_before(before, i) < before.len() ==> before[first_before(before, i)],
    decreases before.len() - i,
{
    if i < before.len() && !before[i] {
        law_caret_goes_to_the_mouse(before, i + 1);
    }
}

// ── the keyboard ──────────────────────────────────────────────────────────
/// A field is changed by itself: the others, and all else in the window, stay.
pub proof fn law_fields_are_apart(f: Form, id: Id, e: Field, other: Id)
    requires
        id == Id::Wake || id == Id::Stop || id == Id::Silence || id == Id::Hotwords,
        other == Id::Wake || other == Id::Stop || other == Id::Silence || other == Id::Hotwords,
    ensures
        field(with_field(f, id, e), id) == e,
        other != id ==> field(with_field(f, id, e), other) == field(f, other),
        field(f, Id::Wake) == f.fields.wake,
        field(f, Id::Stop) == f.fields.stop,
        field(f, Id::Silence) == f.fields.silence,
        field(f, Id::Hotwords) == f.fields.hotwords,
        with_field(f, id, e).fields.hotkey == f.fields.hotkey,
        with_field(f, id, e).flags == f.flags,
        with_field(f, id, e).mics == f.mics,
        with_field(f, id, e).list == f.list,
        with_field(f, id, e).ui == f.ui,
{
}

/// What changes of the window is drawn: the part under the mouse, a field, and the list.
/// Nothing of this takes back that it is to be drawn.
pub proof fn law_changes_are_drawn(
    f: Form,
    hit: Option<Id>,
    pos: int,
    ch: u16,
    ctrl: bool,
    now: u64,
)
    ensures
        ({
            let left = mouse_left(f);
            let over = mouse_moved(f, hit, pos).0;
            let letter = char_typed(f, ch, ctrl, now);
            &&& left.ui.dirty == (f.ui.dirty || f.ui.hot is Some)
            &&& over.ui.hot != f.ui.hot || over.fields != f.fields || f.ui.dirty ==> over.ui.dirty
            &&& over.ui.hot == f.ui.hot && !f.ui.drag_edit && !f.ui.drag_slider ==> over.ui.dirty
                == f.ui.dirty
            &&& letter.fields != f.fields || f.ui.dirty ==> letter.ui.dirty
            &&& popup_shown(f).0.ui.dirty
            &&& f.list.on ==> popup_closed(f).0.ui.dirty
        }),
{
}

/// Whatever a button of the mouse does is drawn.
#[verifier::rlimit(60)]
pub proof fn law_clicks_are_drawn(f: Form, hit: Option<Id>, double: bool, pos: int, now: u64)
    ensures
        pressed(f, hit, double, pos, now).0.ui.dirty,
        released(f, hit).0.ui.dirty,
{
}

/// A character that is typed goes into the field with the focus and nowhere else; and
/// nowhere at all if it is a control character, with Control held down, while a hotkey
/// is taken, or if no field has the focus.
pub proof fn law_typed_character(f: Form, ch: u16, ctrl: bool, now: u64, id: Id)
    ensures
        ({
            let g = char_typed(f, ch, ctrl, now);
            let edit = id == Id::Wake || id == Id::Stop || id == Id::Silence || id == Id::Hotwords;
            &&& f.ui.focus == Some(id) && edit && ch >= 0x20 && !ctrl && !f.ui.capturing ==> field(
                g,
                id,
            ) == typed(field(f, id), ch)
            &&& f.ui.focus != Some(id) && edit ==> field(g, id) == field(f, id)
            &&& ch < 0x20 || ctrl || f.ui.capturing || f.ui.focus is None || (f.ui.focus == Some(id)
                && !edit) ==> g == f
            &&& g.flags == f.flags && g.mics == f.mics && g.list == f.list && g.fields.hotkey
                == f.fields.hotkey && g.ui.focus == f.ui.focus
        }),
{
}

/// Escape closes the open list, else the window.
#[verifier::rlimit(30)]
pub proof fn law_escape(f: Form, m: Mods, clip: Option<Seq<char>>, shown: int, now: u64)
    requires
        !f.ui.capturing,
    ensures
        ({
            let (g, effects) = keyed(f, 0x1B, m, clip, shown, now);
            &&& !g.list.on
            &&& g.mics == f.mics && g.fields == f.fields && g.flags == f.flags
            &&& effects == (if f.list.on {
                seq![Eff::HidePopup]
            } else {
                seq![Eff::Close]
            })
        }),
{
}

/// Return chooses the marked row of the open list; else it works «Дополнительно», the
/// box of microphones and the button of the hotkey, and with the focus anywhere else it
/// saves.
#[verifier::rlimit(30)]
pub proof fn law_return(
    f: Form,
    m: Mods,
    clip: Option<Seq<char>>,
    shown: int,
    now: u64,
    id: Id,
)
    requires
        f.ok(),
        !f.ui.capturing,
    ensures
        ({
            let (g, effects) = keyed(f, 0x0D, m, clip, shown, now);
            let (worked, more) = activated(f, id);
            let works = id == Id::More || id == Id::Device || id == Id::Hotkey;
            &&& g.fields == f.fields && g.flags == f.flags
            &&& f.list.on ==> !g.list.on && effects == seq![Eff::HidePopup] && g.mics.device == (
            if f.list.hot > 0 {
                f.list.hot
            } else {
                0
            })
            &&& !f.list.on ==> g.mics == f.mics
            &&& !f.list.on && f.ui.focus == Some(id) && works ==> effects == more && g.ui.expanded
                == worked.ui.expanded && g.ui.capturing == worked.ui.capturing && g.list.on
                == worked.list.on
            &&& !f.list.on && (f.ui.focus is None || (f.ui.focus == Some(id) && !works)) ==> effects
                == seq![Eff::Save]
        }),
{
}

/// Space works the part with the focus, unless that is a field.
#[verifier::rlimit(30)]
pub proof fn law_space(
    f: Form,
    m: Mods,
    clip: Option<Seq<char>>,
    shown: int,
    now: u64,
    id: Id,
)
    requires
        !f.ui.capturing,
    ensures
        ({
            let (g, effects) = keyed(f, 0x20, m, clip, shown, now);
            let (worked, more) = activated(f, id);
            let edit = id == Id::Wake || id == Id::Stop || id == Id::Silence || id == Id::Hotwords;
            &&& f.ui.focus == Some(id) && !edit ==> effects == more && g.flags == worked.flags
                && g.mics == worked.mics && g.fields == worked.fields && g.ui.expanded
                == worked.ui.expanded && g.list.on == worked.list.on && g.ui.capturing
                == worked.ui.capturing
            &&& f.ui.focus is None || (f.ui.focus == Some(id) && edit) ==> effects == Seq::<
                Eff,
            >::empty() && g.fields == f.fields && g.flags == f.flags && g.mics == f.mics
        }),
{
}

/// Down opens the list of the box of microphones.
#[verifier::rlimit(30)]
pub proof fn law_down(f: Form, m: Mods, clip: Option<Seq<char>>, shown: int, now: u64)
    requires
        !f.ui.capturing,
        !f.list.on,
        f.ui.focus == Some(Id::Device),
    ensures
        keyed(f, 0x28, m, clip, shown, now).0.list.on,
        keyed(f, 0x28, m, clip, shown, now).1 == seq![Eff::ShowPopup],
{
}

/// The arrows: in the open list one row up or down; on the segments one mode to the left
/// or right, as far as there are modes, and the focus goes along; on the slider one step.
#[verifier::rlimit(30)]
pub proof fn law_arrows(
    f: Form,
    m: Mods,
    clip: Option<Seq<char>>,
    shown: int,
    now: u64,
    id: Id,
)
    requires
        f.ok(),
        !f.ui.capturing,
        f.ui.focus == Some(id),
    ensures
        ({
            let (l, l_effects) = keyed(f, 0x25, m, clip, shown, now);
            let (r, r_effects) = keyed(f, 0x27, m, clip, shown, now);
            let (up, up_effects) = keyed(f, 0x26, m, clip, shown, now);
            let (dn, dn_effects) = keyed(f, 0x28, m, clip, shown, now);
            let seg = id == Id::Mode0 || id == Id::Mode1 || id == Id::Mode2;
            &&& seg ==> l.flags.mode == (if f.flags.mode > 0 {
                f.flags.mode - 1
            } else {
                0
            }) && r.flags.mode == (if f.flags.mode < 2 {
                f.flags.mode + 1
            } else {
                2
            })
            &&& seg ==> (l.flags.mode == 0 ==> l.ui.focus == Some(Id::Mode0)) && (l.flags.mode == 1
                ==> l.ui.focus == Some(Id::Mode1)) && (r.flags.mode == 1 ==> r.ui.focus == Some(
                Id::Mode1,
            )) && (r.flags.mode == 2 ==> r.ui.focus == Some(Id::Mode2))
            &&& id == Id::OvScale ==> l_effects == seq![Eff::SlideBy(false)] && r_effects == seq![
                Eff::SlideBy(true),
            ]
            &&& !seg ==> l.flags == f.flags && r.flags == f.flags && l.ui.focus == f.ui.focus
                && r.ui.focus == f.ui.focus
            &&& f.list.on ==> up_effects == seq![Eff::DrawPopup] && dn_effects == seq![
                Eff::DrawPopup,
            ] && up.list.hot == popup_stepped(f, true).0.list.hot && dn.list.hot == popup_stepped(
                f,
                false,
            ).0.list.hot
            &&& !f.list.on ==> up.list == f.list && up.flags == f.flags && up.fields == f.fields
        }),
{
}

/// Tab moves the focus through the visible parts, backwards with Shift, and selects the
/// text of a field that it comes to. No setting changes.
#[verifier::rlimit(30)]
pub proof fn law_tab(
    f: Form,
    m: Mods,
    clip: Option<Seq<char>>,
    shown: int,
    now: u64,
    s: Settings,
    id: Id,
)
    requires
        f.ok(),
        !f.ui.capturing,
        0 <= shown,
    ensures
        ({
            let (g, effects) = keyed(f, 0x09, m, clip, shown, now);
            let edit = id == Id::Wake || id == Id::Stop || id == Id::Silence || id == Id::Hotwords;
            &&& effects == Seq::<Eff>::empty()
            &&& g.ui.focus == Some(next_part(tab_order(shown), f.ui.focus, m.shift))
            &&& g.ui.focus == Some(id) && edit ==> field(g, id) == all_selected(field(f, id))
            &&& built(g, s) == built(f, s) && g.flags == f.flags
            &&& f.ui.focus is None && !m.shift ==> g.ui.focus == Some(Id::Device)
            &&& f.ui.focus is None && m.shift ==> g.ui.focus == Some(Id::Save)
        }),
{
    let list = tab_order(shown);
    assert(list[0] == Id::Device);
    assert(list[list.len() - 1] == Id::Save);
}

/// What keys do to the field with the focus: the arrows, Home and End move the caret,
/// by words with Control, and keep the selection with Shift; Backspace and Delete erase;
/// Control with A, C, X and V selects all, copies, cuts and pastes. Shift with Delete
/// cuts. All other keys leave it alone.
#[verifier::rlimit(30)]
pub proof fn law_keys_in_a_field(
    f: Form,
    vk: u32,
    m: Mods,
    clip: Option<Seq<char>>,
    shown: int,
    now: u64,
    id: Id,
)
    requires
        f.ok(),
        !f.ui.capturing,
        !f.list.on,
        id == Id::Wake || id == Id::Stop || id == Id::Silence || id == Id::Hotwords,
        f.ui.focus == Some(id),
        vk < 0x1_0000,
        vk != 0x1B && vk != 0x0D && vk != 0x09 && vk != 0x20,
    ensures
        ({
            let (g, effects) = keyed(f, vk, m, clip, shown, now);
            let e = field(f, id);
            let e2 = field(g, id);
            let still = Seq::<Eff>::empty();
            &&& vk == 0x25 && !m.ctrl ==> effects == still && e2 == moved(
                e,
                if e.caret > 0 {
                    e.caret - 1
                } else {
                    0
                },
                m.shift,
            )
            &&& vk == 0x25 && m.ctrl ==> effects == still && e2 == moved(e, left_word(e), m.shift)
            &&& vk == 0x27 && !m.ctrl ==> effects == still && e2 == moved(e, e.caret + 1, m.shift)
            &&& vk == 0x27 && m.ctrl ==> effects == still && e2 == moved(e, right_word(e), m.shift)
            &&& vk == 0x24 ==> effects == still && e2 == moved(e, 0, m.shift)
            &&& vk == 0x23 ==> effects == still && e2 == moved(e, e.t.len() as int, m.shift)
            &&& vk == 0x08 ==> effects == still && e2 == backspaced(e)
            &&& vk == 0x2E && !m.ctrl ==> e2 == deleted(e) && effects == (if m.shift && e.caret
                != e.anchor {
                seq![Eff::Copy(selected(e))]
            } else {
                still
            })
            &&& vk == 0x41 && m.ctrl ==> effects == still && e2 == all_selected(e)
            &&& vk == 0x43 && m.ctrl ==> effects == seq![Eff::Copy(selected(e))] && e2 == e
            &&& vk == 0x58 && m.ctrl ==> effects == seq![Eff::Copy(selected(e))] && e2 == cut(e)
            &&& vk == 0x56 && m.ctrl ==> effects == still && e2 == (match clip {
                Some(s) => typed_all(e, encoded(first_line(s))),
                None => e,
            })
            &&& !(vk == 0x25 || vk == 0x27 || vk == 0x24 || vk == 0x23 || vk == 0x08 || (vk == 0x2E
                && !m.ctrl) || (m.ctrl && (vk == 0x41 || vk == 0x43 || vk == 0x58 || vk == 0x56)))
                ==> effects == still && e2 == e
            &&& g.flags == f.flags && g.mics == f.mics && g.list == f.list && g.ui.focus
                == f.ui.focus && g.fields.hotkey == f.fields.hotkey
            &&& id != Id::Wake ==> g.fields.wake == f.fields.wake
            &&& id != Id::Stop ==> g.fields.stop == f.fields.stop
            &&& id != Id::Silence ==> g.fields.silence == f.fields.silence
            &&& id != Id::Hotwords ==> g.fields.hotwords == f.fields.hotwords
        }),
{
}

/// Of a text that is pasted, what stands before the first line break is typed. The
/// clipboard is read exactly for Control with V in a field.
pub proof fn law_first_line_is_pasted(
    line: Seq<char>,
    c: char,
    rest: Seq<char>,
    f: Form,
    vk: u32,
    m: Mods,
    id: Id,
)
    requires
        forall|i: int| 0 <= i < line.len() ==> #[trigger] line[i] != '\r' && line[i] != '\n',
        c == '\r' || c == '\n',
    ensures
        first_line(line) == line,
        first_line(line + seq![c] + rest) == line,
        f.ui.focus == Some(id) ==> (pastes(f, vk, m) <==> !f.ui.capturing && vk == 0x56 && m.ctrl
            && (id == Id::Wake || id == Id::Stop || id == Id::Silence || id == Id::Hotwords)),
        f.ui.focus is None ==> !pastes(f, vk, m),
{
    let seps = seq!['\r', '\n'];
    assert(seps[0] == '\r' && seps[1] == '\n');
    let s = line + seq![c] + rest;
    lemma_part_len(line, seps);
    lemma_part_len(s, seps);
    let n = part_len(line, seps) as int;
    if n < line.len() {
        assert(seps.contains(line[n]));
    }
    assert(line.take(n) =~= line);
    let k = part_len(s, seps) as int;
    if k < line.len() {
        assert(seps.contains(s[k]));
        assert(s[k] == line[k]);
    }
    if k > line.len() {
        assert(!seps.contains(s[line.len() as int]));
        assert(s[line.len() as int] == c);
    }
    assert(s.take(k) =~= line);
}

/// The caret of the field with the focus turns on and off about twice a second, and is
/// on everywhere else; a tick asks for a drawing if something changed, and changes
/// nothing but the caret.
pub proof fn law_caret_blinks(f: Form, animating: bool, now: u64)
    requires
        f.ui.caret_at <= now,
    ensures
        ({
            let (g, need) = ticked(f, animating, now);
            let edit = f.ui.focus == Some(Id::Wake) || f.ui.focus == Some(Id::Stop) || f.ui.focus
                == Some(Id::Silence) || f.ui.focus == Some(Id::Hotwords);
            &&& edit && !f.ui.drag_edit && now - f.ui.caret_at >= 530_000_000 ==> g.ui.caret_on
                == !f.ui.caret_on && g.ui.caret_at == now && need
            &&& edit && !f.ui.drag_edit && now - f.ui.caret_at < 530_000_000 ==> g.ui.caret_on
                == f.ui.caret_on && g.ui.caret_at == f.ui.caret_at
            &&& !edit || f.ui.drag_edit ==> g.ui.caret_on
            &&& need <==> animating || f.ui.dirty || g.ui.caret_on != f.ui.caret_on
            &&& !g.ui.dirty
            &&& g.fields == f.fields && g.flags == f.flags && g.mics == f.mics && g.list == f.list
                && g.ui.focus == f.ui.focus && g.ui.capturing == f.ui.capturing
        }),
{
}

} // verus!
