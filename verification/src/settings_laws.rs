//! What holds of the settings window, whatever happens to it.

use crate::config::Settings;
use crate::settings::{
    built, capture_started, capture_stopped, deactivated, keyed, lemma_round, more_parts,
    next_part, opened, place_in, popup_shown, popup_stepped, released, tab_order, Eff, Form, Id,
    P_MAX, VK_RETURN, VK_SPACE,
};
use crate::text::{joined, lowercase, parts, trimmed};
use crate::utf16::law_decode_of_encode;
use crate::words::{law_words_survive, listed, nonempty, tidy, unparted, Mods};
use vstd::prelude::*;

verus! {

/// A window that is opened and saved untouched leaves the settings as they were: if the
/// chosen microphone is there, the mode of the overlay is one of the three, the hotkey
/// and the words are tidy and in lower case, and no word has a comma. Where a list has
/// no words, that nothing in lower case is nothing must be known too.
pub proof fn law_untouched_settings_stay(
    s: Settings,
    devices: Seq<Seq<char>>,
    startup: bool,
    silence: Seq<char>,
    hotwords: Seq<char>,
    now: u64,
)
    requires
        s.device_name matches Some(n) ==> devices.contains(n),
        s.overlay_mode == "always"@ || s.overlay_mode == "dictation"@ || s.overlay_mode
            == "hidden"@,
        trimmed(s.hotkey) == s.hotkey,
        lowercase(s.hotkey) == s.hotkey,
        forall|k: int|
            0 <= k < s.wake_words.len() ==> tidy(#[trigger] s.wake_words[k]) && unparted(
                s.wake_words[k],
                seq![','],
            ) && lowercase(s.wake_words[k]) == s.wake_words[k],
        forall|k: int|
            0 <= k < s.stop_words.len() ==> tidy(#[trigger] s.stop_words[k]) && unparted(
                s.stop_words[k],
                seq![','],
            ) && lowercase(s.stop_words[k]) == s.stop_words[k],
        s.wake_words.len() == 0 || s.stop_words.len() == 0 ==> lowercase(Seq::empty()) == Seq::<
            char,
        >::empty(),
    ensures
        built(opened(s, devices, startup, silence, hotwords, now), s) == s,
{
    let f = opened(s, devices, startup, silence, hotwords, now);
    let b = built(f, s);
    law_decode_of_encode(joined(s.wake_words, ", "@));
    law_decode_of_encode(joined(s.stop_words, ", "@));
    if s.wake_words.len() > 0 {
        law_words_survive(s.wake_words);
    } else {
        lemma_nothing_listed();
    }
    if s.stop_words.len() > 0 {
        law_words_survive(s.stop_words);
    } else {
        lemma_nothing_listed();
    }
    match s.device_name {
        Some(n) => {
            devices.index_of_first_ensures(n);
        },
        None => {},
    }
    reveal_strlit("always");
    reveal_strlit("dictation");
    reveal_strlit("hidden");
    assert("always"@.len() == 6 && "dictation"@.len() == 9 && "hidden"@.len() == 6);
    assert("always"@[0] == 'a' && "hidden"@[0] == 'h');
    assert(b.overlay_mode == s.overlay_mode);
    assert(b.device_name == s.device_name);
    assert(b.wake_words =~= s.wake_words);
    assert(b.stop_words =~= s.stop_words);
}

proof fn lemma_nothing_listed()
    requires
        lowercase(Seq::empty()) == Seq::<char>::empty(),
    ensures
        listed(joined(Seq::<Seq<char>>::empty(), ", "@)) == Seq::<Seq<char>>::empty(),
{
    let s = joined(Seq::<Seq<char>>::empty(), ", "@);
    assert(s =~= Seq::<char>::empty());
    let p = parts(s, seq![',']);
    assert(p =~= seq![s]);
    let low = p.map_values(|p: Seq<char>| lowercase(trimmed(p)));
    assert(trimmed(s) == s);
    assert(low =~= seq![s]);
    assert(low.last() == s);
    assert(low.drop_last() =~= Seq::<Seq<char>>::empty());
    assert(nonempty(low.drop_last()) == Seq::<Seq<char>>::empty());
}

/// The chosen row shows when the list opens.
pub proof fn law_chosen_row_shows(f: Form)
    requires
        f.ok(),
    ensures
        ({
            let g = popup_shown(f).0;
            g.list.top <= g.mics.device < g.list.top + P_MAX && g.list.hot == g.mics.device
        }),
{
}

/// The row that the keyboard moves to shows.
pub proof fn law_stepped_row_shows(f: Form, up: bool)
    requires
        f.ok(),
    ensures
        ({
            let g = popup_stepped(f, up).0;
            g.list.top <= g.list.hot < g.list.top + P_MAX
        }),
{
}

/// The list moves no further than it must for the row to show: not at all where the row
/// shows already, else until the row is the first or the last that shows.
pub proof fn law_list_moves_least(f: Form, up: bool)
    requires
        f.ok(),
    ensures
        ({
            let g = popup_stepped(f, up).0;
            let h = popup_shown(f).0;
            &&& f.list.top <= g.list.hot < f.list.top + 7 ==> g.list.top == f.list.top
            &&& g.list.hot < f.list.top ==> g.list.hot == g.list.top
            &&& g.list.hot >= f.list.top + 7 ==> g.list.hot == g.list.top + 6
            &&& f.mics.device < 7 ==> h.list.top == 0
            &&& f.mics.device >= 7 ==> f.mics.device == h.list.top + 6
        }),
{
}

/// Nothing but Save, and Return outside the list and the three parts that it
/// works, saves the settings.
pub proof fn law_only_save_saves(
    f: Form,
    vk: u32,
    m: Mods,
    clip: Option<Seq<char>>,
    shown: int,
    now: u64,
)
    ensures
        keyed(f, vk, m, clip, shown, now).1.contains(Eff::Save) ==> !f.ui.capturing && (vk % 0x1_0000
            == VK_RETURN || (vk % 0x1_0000 == VK_SPACE && f.ui.focus == Some(Id::Save))),
{
    let list = keyed(f, vk, m, clip, shown, now).1;
    if list.contains(Eff::Save) {
        let i = choose|i: int| 0 <= i < list.len() && list[i] == Eff::Save;
        assert(list[i] == Eff::Save);
    }
}

/// A click saves exactly if the button went down and up over Save, and closes the window
/// exactly if it did so over the cross or Cancel.
pub proof fn law_clicks_that_end_the_window(f: Form, hit: Option<Id>)
    ensures
        released(f, hit).1.contains(Eff::Save) <==> hit == Some(Id::Save) && f.ui.press == hit,
        released(f, hit).1.contains(Eff::Close) <==> (hit == Some(Id::Close) || hit == Some(
            Id::Cancel,
        )) && f.ui.press == hit,
{
    let list = released(f, hit).1;
    if hit is Some && f.ui.press == hit {
        assert(list.len() <= 2 && list[0] == Eff::ReleaseCapture);
        if list.len() == 2 {
            assert(list.contains(list[1]));
        }
    } else {
        assert(list.len() == 1 && list[0] == Eff::ReleaseCapture);
    }
}

/// The place of a part where all parts are visible.
spec fn rank(id: Id) -> int {
    match id {
        Id::Device => 0,
        Id::Wake => 1,
        Id::Stop => 2,
        Id::Hotkey => 3,
        Id::Mode0 => 4,
        Id::Mode1 => 5,
        Id::Mode2 => 6,
        Id::Live => 7,
        Id::More => 8,
        Id::Silence => 9,
        Id::Hotwords => 10,
        Id::OvScale => 11,
        Id::Space => 12,
        Id::Caps => 13,
        Id::Startup => 14,
        Id::Updates => 15,
        Id::Cancel => 16,
        Id::Save => 17,
        Id::Close => 18,
    }
}

proof fn lemma_more_rank(k: int)
    requires
        0 <= k < 7,
    ensures
        more_parts().len() == 7,
        rank(more_parts()[k]) == 9 + k,
{
    assert(k == 0 || k == 1 || k == 2 || k == 3 || k == 4 || k == 5 || k == 6);
}

proof fn lemma_front_rank(front: Seq<Id>, k: int)
    requires
        front == seq![
            Id::Device,
            Id::Wake,
            Id::Stop,
            Id::Hotkey,
            Id::Mode0,
            Id::Mode1,
            Id::Mode2,
            Id::Live,
            Id::More,
        ],
        0 <= k < 9,
    ensures
        front.len() == 9,
        rank(front[k]) == k,
{
    assert(k == 0 || k == 1 || k == 2 || k == 3 || k == 4 || k == 5 || k == 6 || k == 7 || k == 8);
}

/// The parts come in the order of their ranks, whatever is visible.
proof fn lemma_part_rank(shown: int, i: int)
    requires
        0 <= shown,
        0 <= i < tab_order(shown).len(),
    ensures
        tab_order(shown).len() == 11 + (if shown < 7 {
            shown
        } else {
            7
        }),
        rank(tab_order(shown)[i]) == (if i < 9 + (if shown < 7 {
            shown
        } else {
            7
        }) {
            i
        } else {
            i + 7 - (if shown < 7 {
                shown
            } else {
                7
            })
        }),
{
    let n = if shown < 7 {
        shown
    } else {
        7
    };
    let front = seq![
        Id::Device,
        Id::Wake,
        Id::Stop,
        Id::Hotkey,
        Id::Mode0,
        Id::Mode1,
        Id::Mode2,
        Id::Live,
        Id::More,
    ];
    lemma_front_rank(front, 0);
    lemma_more_rank(0);
    let mid = more_parts().take(n);
    let back = seq![Id::Cancel, Id::Save];
    let list = front + mid + back;
    assert(list == tab_order(shown));
    if i < 9 {
        lemma_front_rank(front, i);
        assert(list[i] == front[i]);
    } else if i < 9 + n {
        lemma_more_rank(i - 9);
        assert(list[i] == more_parts()[i - 9]);
    } else {
        assert(list[i] == back[i - 9 - n]);
    }
}

proof fn lemma_parts_differ(shown: int)
    requires
        0 <= shown,
    ensures
        tab_order(shown).len() >= 11,
        tab_order(shown).no_duplicates(),
{
    let list = tab_order(shown);
    assert(list.len() > 0);
    lemma_part_rank(shown, 0);
    assert forall|i: int, j: int| 0 <= i < list.len() && 0 <= j < list.len() && i != j implies list[i]
        != list[j] by {
        lemma_part_rank(shown, i);
        lemma_part_rank(shown, j);
    }
}

proof fn lemma_next_part(list: Seq<Id>, i: int)
    requires
        list.no_duplicates(),
        0 <= i < list.len(),
    ensures
        next_part(list, Some(list[i]), false) == list[if i + 1 < list.len() {
            i + 1
        } else {
            0
        }],
        next_part(list, Some(list[i]), true) == list[if i > 0 {
            i - 1
        } else {
            list.len() - 1
        }],
{
    let id = list[i];
    assert(list.contains(id));
    list.index_of_first_ensures(id);
    let k = list.index_of_first(id)->0;
    assert(k == i);
    assert(place_in(list, Some(id)) == Some(i));
    lemma_round(i, list.len() as int);
}

/// Tab goes to the part behind the one with the focus, and from the last to the first,
/// so that no part is left out; Shift+Tab goes the other way, and each undoes the other.
pub proof fn law_tab_goes_round(shown: int, i: int)
    requires
        0 <= shown,
        0 <= i < tab_order(shown).len(),
    ensures
        ({
            let list = tab_order(shown);
            let id = list[i];
            &&& next_part(list, Some(id), false) == list[if i + 1 < list.len() {
                i + 1
            } else {
                0
            }]
            &&& next_part(list, Some(next_part(list, Some(id), false)), true) == id
            &&& next_part(list, Some(next_part(list, Some(id), true)), false) == id
        }),
{
    let list = tab_order(shown);
    let n = list.len() as int;
    lemma_parts_differ(shown);
    lemma_next_part(list, i);
    let a = if i + 1 < n {
        i + 1
    } else {
        0
    };
    let b = if i > 0 {
        i - 1
    } else {
        n - 1
    };
    lemma_next_part(list, a);
    lemma_next_part(list, b);
}

/// While a new hotkey is pressed, the window is neither closed nor saved by keys.
pub proof fn law_capture_keeps_window(
    f: Form,
    vk: u32,
    m: Mods,
    clip: Option<Seq<char>>,
    shown: int,
    now: u64,
)
    requires
        f.ui.capturing,
    ensures
        !keyed(f, vk, m, clip, shown, now).1.contains(Eff::Close),
        !keyed(f, vk, m, clip, shown, now).1.contains(Eff::Save),
{
    let list = keyed(f, vk, m, clip, shown, now).1;
    assert forall|i: int| 0 <= i < list.len() implies list[i] == Eff::ResumeHotkey by {}
}

/// The hotkey is released exactly while a new one is pressed: each start releases
/// it and each end takes it again.
pub proof fn law_hotkey_paused_while_capturing(f: Form)
    ensures
        capture_started(f).0.ui.capturing,
        !capture_stopped(f).0.ui.capturing,
        capture_started(f).1 == (if f.ui.capturing {
            Seq::<Eff>::empty()
        } else {
            seq![Eff::PauseHotkey]
        }),
        capture_stopped(f).1 == (if f.ui.capturing {
            seq![Eff::ResumeHotkey]
        } else {
            Seq::<Eff>::empty()
        }),
        !deactivated(f).0.ui.capturing && !deactivated(f).0.list.on,
{
}

} // verus!
