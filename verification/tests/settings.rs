use voice_inputter::config::Config;
use voice_inputter::settings::{
    all_parts, below_more, caret_from_x, focusables, hit, kind_of, part_after, seg_label,
    wheel_rows, Effect, Id, Win, BLINK, K, VK_DELETE, VK_DOWN, VK_END, VK_ESCAPE, VK_HOME, VK_LEFT, VK_RETURN,
    VK_RIGHT, VK_SPACE, VK_TAB, VK_UP,
};
use voice_inputter::words::Mods;

const NONE: Mods = Mods { ctrl: false, alt: false, shift: false, win: false };
const CTRL: Mods = Mods { ctrl: true, alt: false, shift: false, win: false };
const SHIFT: Mods = Mods { ctrl: false, alt: false, shift: true, win: false };

fn window(devices: usize) -> Win {
    let names = (0..devices).map(|i| format!("mic {i}")).collect();
    Win::make_win(&Config::default(), names, false, "30", "2", 0)
}

fn press(w: &mut Win, vk: u32, m: Mods) -> Vec<Effect> {
    w.on_key(vk, m, None, 0, 1)
}

#[test]
fn opened_and_saved_untouched_nothing_changes() {
    let mut cfg = Config::default();
    cfg.device_name = Some("mic 1".to_string());
    cfg.overlay_mode = "dictation".to_string();
    let names = vec!["mic 0".to_string(), "mic 1".to_string()];
    let w = Win::make_win(&cfg, names, true, "30", "2", 0);
    assert_eq!(w.mics.device, 2);
    assert_eq!(w.fields.wake.text(), "джарвис, компьютер");
    assert_eq!(w.flags.mode, 1);
    assert!(w.flags.startup);
    let new = w.build_config(&cfg);
    assert_eq!(new.device_name, cfg.device_name);
    assert_eq!(new.wake_words, cfg.wake_words);
    assert_eq!(new.stop_words, cfg.stop_words);
    assert_eq!(new.hotkey, cfg.hotkey);
    assert_eq!(new.overlay_mode, cfg.overlay_mode);
    assert_eq!(new.live_typing, cfg.live_typing);
    assert_eq!(new.append_space, cfg.append_space);
    assert_eq!(new.capitalize, cfg.capitalize);
    assert_eq!(new.check_updates, cfg.check_updates);
    assert_eq!(new.model_path, cfg.model_path);
}

#[test]
fn an_unknown_microphone_is_the_default_one() {
    let mut cfg = Config::default();
    cfg.device_name = Some("gone".to_string());
    let w = Win::make_win(&cfg, vec!["mic".to_string()], false, "", "", 0);
    assert_eq!(w.mics.device, 0);
    assert_eq!(w.build_config(&cfg).device_name, None);
}

#[test]
fn words_and_hotkey_are_read_from_the_fields() {
    let cfg = Config::default();
    let mut w = window(1);
    w.fields.wake = voice_inputter::edit::Edit::new(" Алиса , ,БОБ", false);
    w.fields.stop = voice_inputter::edit::Edit::new(" , ", false);
    w.fields.hotkey = " Ctrl+J ".to_string();
    w.popup_pick(1);
    w.activate(Id::Mode2);
    w.activate(Id::Caps);
    let new = w.build_config(&cfg);
    assert_eq!(new.wake_words, vec!["алиса", "боб"]);
    assert_eq!(new.stop_words, cfg.stop_words);
    assert_eq!(new.hotkey, "ctrl+j");
    assert_eq!(new.overlay_mode, "hidden");
    assert_eq!(new.device_name.as_deref(), Some("mic 0"));
    assert!(!new.capitalize);
}

#[test]
fn an_empty_hotkey_is_left_as_it_was() {
    let mut w = window(0);
    w.fields.hotkey = "  ".to_string();
    assert_eq!(w.build_config(&Config::default()).hotkey, "ctrl+alt+space");
}

#[test]
fn parts_and_their_order() {
    assert_eq!(kind_of(Id::Wake), K::Edit);
    assert_eq!(kind_of(Id::OvScale), K::Slider);
    assert_eq!(focusables(0).len(), 11);
    assert_eq!(focusables(2)[9..11], [Id::Silence, Id::Hotwords]);
    assert_eq!(focusables(100).len(), 18);
    let all = all_parts();
    assert_eq!(all.len(), 19);
    assert_eq!(all[0], Id::Close);
    assert!(below_more(Id::Caps));
    assert!(!below_more(Id::Live));
    assert_eq!([seg_label(0), seg_label(1), seg_label(2)], ["Всегда", "При диктовке", "Никогда"]);
}

#[test]
fn the_topmost_visible_part_is_hit() {
    let all = all_parts();
    let at = |id: Id| all.iter().position(|x| *x == id).unwrap();
    let mut inside = vec![false; all.len()];
    let mut folded = vec![false; all.len()];
    assert_eq!(hit(&inside, &folded), None);
    inside[at(Id::More)] = true;
    inside[at(Id::Caps)] = true;
    assert_eq!(hit(&inside, &folded), Some(Id::Caps));
    folded[at(Id::Caps)] = true;
    assert_eq!(hit(&inside, &folded), Some(Id::More));
    // what is not below «Дополнительно» cannot be folded away
    folded[at(Id::More)] = true;
    assert_eq!(hit(&inside, &folded), Some(Id::More));
}

#[test]
fn the_caret_goes_before_the_first_middle_that_is_right_of_the_mouse() {
    assert_eq!(caret_from_x(&vec![]), 0);
    assert_eq!(caret_from_x(&vec![true, true]), 0);
    assert_eq!(caret_from_x(&vec![false, true]), 1);
    assert_eq!(caret_from_x(&vec![false, false]), 2);
}

#[test]
fn a_click_needs_the_same_part_twice() {
    let mut w = window(0);
    assert_eq!(w.mouse_down(Some(Id::Save), false, 0, 0), vec![]);
    assert_eq!(w.mouse_up(Some(Id::Cancel)), vec![Effect::ReleaseCapture]);
    w.mouse_down(Some(Id::Save), false, 0, 0);
    assert_eq!(w.mouse_up(Some(Id::Save)), vec![Effect::ReleaseCapture, Effect::Save]);
    w.mouse_down(Some(Id::Close), false, 0, 0);
    assert_eq!(w.ui.focus, Some(Id::Save));
    assert_eq!(w.mouse_up(Some(Id::Close)), vec![Effect::ReleaseCapture, Effect::Close]);
    w.mouse_down(None, false, 0, 0);
    assert_eq!(w.ui.focus, None);
    assert_eq!(w.mouse_up(None), vec![Effect::ReleaseCapture]);
}

#[test]
fn text_is_selected_by_the_mouse() {
    let mut w = window(0);
    assert_eq!(w.mouse_down(Some(Id::Wake), false, 3, 5), vec![Effect::Capture]);
    assert!(w.ui.drag_edit);
    assert_eq!(w.ui.caret_at, 5);
    assert_eq!(w.mouse_move(None, 7), vec![]);
    assert_eq!(w.edit(Id::Wake).unwrap().sel(), (3, 7));
    w.mouse_up(Some(Id::Wake));
    assert!(!w.ui.drag_edit);
    w.mouse_down(Some(Id::Silence), true, 0, 6);
    assert_eq!(w.edit(Id::Silence).unwrap().sel_text(), "30");
    assert!(!w.ui.drag_edit);
}

#[test]
fn the_slider_follows_the_mouse() {
    let mut w = window(0);
    assert_eq!(
        w.mouse_down(Some(Id::OvScale), false, 0, 0),
        vec![Effect::SlideTo, Effect::Capture]
    );
    assert_eq!(w.mouse_move(None, 0), vec![Effect::SlideTo]);
    w.mouse_up(None);
    assert_eq!(press(&mut w, VK_LEFT, NONE), vec![Effect::SlideBy(false)]);
    assert_eq!(press(&mut w, VK_RIGHT, NONE), vec![Effect::SlideBy(true)]);
}

#[test]
fn hovering() {
    let mut w = window(0);
    w.ui.dirty = false;
    assert_eq!(w.mouse_move(Some(Id::Live), 0), vec![Effect::TrackLeave]);
    assert!(w.ui.dirty);
    w.ui.dirty = false;
    assert_eq!(w.mouse_move(Some(Id::Live), 0), vec![]);
    assert!(!w.ui.dirty);
    w.mouse_leave();
    assert_eq!(w.ui.hot, None);
    assert!(w.ui.dirty);
}

#[test]
fn the_list_of_microphones() {
    let mut w = window(10);
    assert_eq!(w.popup_rows(), 11);
    assert_eq!(w.popup_item(0), "По умолчанию");
    assert_eq!(w.popup_item(10), "mic 9");
    assert_eq!(w.popup_item(11), "");
    w.mics.device = 9;
    assert_eq!(w.activate(Id::Device), vec![Effect::ShowPopup]);
    assert_eq!((w.list.top, w.list.hot), (3, 9));
    assert_eq!(w.popup_row(Some(6)), 9);
    assert_eq!(w.popup_row(Some(7)), -1);
    assert_eq!(w.popup_row(None), -1);
    assert_eq!(w.wheel(-100), vec![Effect::DrawPopup]);
    assert_eq!(w.list.top, 4);
    w.popup_scroll(i32::MAX);
    assert_eq!(w.list.top, 0);
    // the arrows take the list along
    for _ in 0..3 {
        press(&mut w, VK_DOWN, NONE);
    }
    assert_eq!((w.list.top, w.list.hot), (4, 10));
    for _ in 0..8 {
        press(&mut w, VK_UP, NONE);
    }
    assert_eq!((w.list.top, w.list.hot), (2, 2));
    assert_eq!(w.popup_hover(5), vec![Effect::DrawPopup]);
    assert_eq!(w.popup_hover(5), vec![]);
    assert_eq!(w.popup_click(-1), vec![]);
    assert_eq!(press(&mut w, VK_RETURN, NONE), vec![Effect::HidePopup]);
    assert_eq!(w.mics.device, 5);
    assert_eq!(w.wheel(1), vec![]);
    assert_eq!(w.popup_close(), vec![]);
    assert_eq!(w.popup_click(3), vec![]);
    assert_eq!(w.mics.device, 3);
    assert_eq!([wheel_rows(240), wheel_rows(119), wheel_rows(-130)], [2, 0, -1]);
}

#[test]
fn a_short_list_does_not_scroll() {
    let mut w = window(6);
    w.popup_show();
    assert_eq!(w.popup_scroll(-1), vec![]);
    assert_eq!(w.list.top, 0);
}

#[test]
fn a_click_elsewhere_closes_the_list() {
    let mut w = window(1);
    w.popup_show();
    w.start_capture();
    assert_eq!(
        w.mouse_down(Some(Id::Live), false, 0, 0),
        vec![Effect::HidePopup, Effect::ResumeHotkey]
    );
    w.popup_show();
    assert_eq!(w.mouse_down(Some(Id::Device), false, 0, 0), vec![]);
    assert_eq!(
        w.mouse_up(Some(Id::Device)),
        vec![Effect::ReleaseCapture, Effect::HidePopup]
    );
    w.popup_show();
    assert_eq!(w.dpi_changed(), vec![Effect::HidePopup]);
}

#[test]
fn a_new_hotkey_is_captured() {
    let mut w = window(0);
    assert_eq!(w.hotkey_text(), "Ctrl + Alt + Space");
    assert_eq!(w.activate(Id::Hotkey), vec![Effect::PauseHotkey]);
    assert_eq!(w.hotkey_text(), "Нажмите клавиши…");
    assert_eq!(w.start_capture(), vec![]);
    assert_eq!(press(&mut w, 0x11, CTRL), vec![]);
    assert_eq!(press(&mut w, 0xA0, SHIFT), vec![]);
    assert_eq!(press(&mut w, 0x4A, NONE), vec![]);
    assert_eq!(press(&mut w, VK_TAB, CTRL), vec![]);
    assert!(w.ui.capturing);
    assert_eq!(press(&mut w, 0x4A, CTRL), vec![Effect::ResumeHotkey]);
    assert_eq!(w.fields.hotkey, "ctrl+j");
    // Escape gives up and leaves the window open
    w.start_capture();
    assert_eq!(w.destroyed(), vec![Effect::ResumeHotkey]);
    assert_eq!(press(&mut w, VK_ESCAPE, NONE), vec![Effect::ResumeHotkey]);
    assert_eq!(w.fields.hotkey, "ctrl+j");
    assert_eq!(w.stop_capture(), vec![]);
    assert_eq!(w.destroyed(), vec![]);
}

#[test]
fn leaving_the_window() {
    let mut w = window(1);
    assert_eq!(w.deactivate(), vec![]);
    w.popup_show();
    w.start_capture();
    assert_eq!(w.deactivate(), vec![Effect::HidePopup, Effect::ResumeHotkey]);
}

#[test]
fn keys_that_work_the_window() {
    let mut w = window(1);
    assert_eq!(press(&mut w, VK_ESCAPE, NONE), vec![Effect::Close]);
    assert_eq!(press(&mut w, VK_RETURN, NONE), vec![Effect::Save]);
    assert_eq!(press(&mut w, VK_SPACE, NONE), vec![]);
    press(&mut w, VK_TAB, NONE);
    assert_eq!(w.ui.focus, Some(Id::Device));
    assert_eq!(press(&mut w, VK_DOWN, NONE), vec![Effect::ShowPopup]);
    assert_eq!(press(&mut w, VK_ESCAPE, NONE), vec![Effect::HidePopup]);
    assert_eq!(press(&mut w, VK_RETURN, NONE), vec![Effect::ShowPopup]);
    w.popup_close();
    press(&mut w, VK_TAB, SHIFT);
    assert_eq!(w.ui.focus, Some(Id::Save));
    assert_eq!(press(&mut w, VK_SPACE, NONE), vec![Effect::Save]);
    press(&mut w, VK_TAB, NONE);
    press(&mut w, VK_TAB, NONE);
    assert_eq!(w.ui.focus, Some(Id::Wake));
    assert_eq!(w.edit(Id::Wake).unwrap().sel_text(), "джарвис, компьютер");
    w.ui.focus = Some(Id::Mode0);
    press(&mut w, VK_RIGHT, NONE);
    assert_eq!((w.flags.mode, w.ui.focus), (1, Some(Id::Mode1)));
    press(&mut w, VK_RIGHT, NONE);
    press(&mut w, VK_RIGHT, NONE);
    assert_eq!((w.flags.mode, w.ui.focus), (2, Some(Id::Mode2)));
    press(&mut w, VK_LEFT, NONE);
    assert_eq!(w.flags.mode, 1);
    w.ui.focus = Some(Id::More);
    press(&mut w, VK_RETURN, NONE);
    assert!(w.ui.expanded);
}

#[test]
fn tab_goes_round() {
    for shown in [0, 3, 7] {
        let list = focusables(shown);
        for (i, id) in list.iter().enumerate() {
            let next = part_after(Some(*id), false, shown);
            assert_eq!(next, list[(i + 1) % list.len()]);
            assert_eq!(part_after(Some(next), true, shown), *id);
            let prev = part_after(Some(*id), true, shown);
            assert_eq!(part_after(Some(prev), false, shown), *id);
        }
        // a part that is not there counts as none
        assert_eq!(part_after(Some(Id::Close), false, shown), Id::Device);
        assert_eq!(part_after(None, true, shown), Id::Save);
    }
}

#[test]
fn keys_in_a_field() {
    let mut w = window(0);
    w.ui.focus = Some(Id::Wake);
    press(&mut w, VK_HOME, NONE);
    assert_eq!(press(&mut w, VK_RIGHT, Mods { ctrl: true, alt: false, shift: true, win: false }), vec![]);
    let sel = w.edit(Id::Wake).unwrap().sel_text();
    assert_eq!(sel, "джарвис, ");
    assert_eq!(press(&mut w, 0x43, CTRL), vec![Effect::Copy(sel.clone())]);
    assert_eq!(press(&mut w, 0x58, CTRL), vec![Effect::Copy(sel)]);
    assert_eq!(w.fields.wake.text(), "компьютер");
    press(&mut w, VK_END, NONE);
    assert!(w.wants_clipboard(0x56, CTRL));
    assert!(!w.wants_clipboard(0x56, NONE));
    w.on_key(0x56, CTRL, Some(", бета\r\nгамма"), 0, 2);
    assert_eq!(w.fields.wake.text(), "компьютер, бета");
    assert_eq!(w.on_key(0x56, CTRL, None, 0, 2), vec![]);
    press(&mut w, 0x41, CTRL);
    assert_eq!(
        press(&mut w, VK_DELETE, SHIFT),
        vec![Effect::Copy("компьютер, бета".to_string())]
    );
    assert_eq!(w.fields.wake.text(), "");
    w.on_char(0x41, false, 3);
    w.on_char(0x08, false, 3);
    w.on_char(0x42, true, 3);
    assert_eq!(w.fields.wake.text(), "A");
    w.ui.focus = Some(Id::Live);
    w.on_char(0x42, false, 3);
    assert_eq!(w.fields.wake.text(), "A");
}

#[test]
fn the_caret_blinks() {
    let mut w = window(0);
    w.ui.focus = Some(Id::Wake);
    assert!(w.tick(false, 1));
    assert!(!w.tick(false, 2));
    assert!(w.ui.caret_on);
    assert!(w.tick(false, BLINK));
    assert!(!w.ui.caret_on);
    assert!(!w.tick(false, BLINK + 1));
    assert!(w.tick(true, BLINK + 1));
    w.ui.focus = None;
    assert!(w.tick(false, BLINK + 2));
    assert!(w.ui.caret_on);
}

#[test]
fn switches_turn_over() {
    let mut w = window(0);
    for id in [Id::Live, Id::Space, Id::Caps, Id::Updates] {
        w.activate(id);
    }
    assert_eq!([w.flags.live, w.flags.space, w.flags.caps, w.flags.updates], [false; 4]);
    w.activate(Id::Startup);
    assert!(w.flags.startup);
    w.activate(Id::Startup);
    assert!(!w.flags.startup);
    assert_eq!(w.activate(Id::Cancel), vec![Effect::Close]);
}
