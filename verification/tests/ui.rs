use voice_inputter::config::Config;
use voice_inputter::icons::Tray;
use voice_inputter::shared::{pack_hwnd, unpack_hwnd, Shared};
use voice_inputter::startup::{command, enabled, ours};
use voice_inputter::typer::{backspace, type_text, Key, KeyEvent, VK_BACK};
use voice_inputter::ui::{
    apply, balloon_text, face_name, field, is_theme_change, main_message, menu, menu_action,
    mouse_point, tray_state, ApplyAction, MainAction, MenuAction, MenuItem, HOTKEY_ID, ID_DICTATE,
    ID_ENABLED, ID_MODEL, ID_QUIT, ID_SETTINGS, ID_UPDATE, NIN_BALLOONUSERCLICK, OVERLAY_TIMER,
    WM_APP_STATE, WM_APP_TRAY, WM_APP_UPDATE, WM_COMMAND, WM_CONTEXTMENU, WM_DESTROY, WM_HOTKEY,
    WM_LBUTTONUP, WM_RBUTTONUP, WM_SETTINGCHANGE, WM_TIMER,
};
use voice_inputter::utf16::{decode, encode, wide};
use voice_inputter::win_ui::{ellipsize, ui_face, DOTS, F, N_F};

fn line(id: usize, label: &str) -> MenuItem {
    MenuItem::Command { id, label: label.to_string(), checked: false }
}

#[test]
fn the_menu() {
    assert_eq!(
        menu(false, true, None, true),
        vec![
            line(ID_DICTATE, "Начать диктовку"),
            MenuItem::Separator,
            MenuItem::Command {
                id: ID_ENABLED,
                label: "Прослушивание микрофона".to_string(),
                checked: true
            },
            line(ID_SETTINGS, "Настройки…"),
            MenuItem::Separator,
            line(ID_QUIT, "Выход"),
        ]
    );
    let m = menu(true, false, Some("1.2.0"), false);
    assert_eq!(m[0], line(ID_DICTATE, "Остановить диктовку"));
    assert_eq!(m[3], line(ID_UPDATE, "Обновление 1.2.0 — открыть…"));
    assert_eq!(m[6], line(ID_MODEL, "Загрузить модель…"));
    assert_eq!(menu_action(ID_DICTATE, true), MenuAction::Toggle);
    assert_eq!(menu_action(ID_ENABLED, true), MenuAction::SetEnabled(false));
    assert_eq!(menu_action(ID_SETTINGS, true), MenuAction::OpenSettings);
    assert_eq!(menu_action(ID_MODEL, true), MenuAction::OpenModel);
    assert_eq!(menu_action(ID_UPDATE, true), MenuAction::OpenReleasePage);
    assert_eq!(menu_action(ID_QUIT, true), MenuAction::Quit);
    assert_eq!(menu_action(0, true), MenuAction::Nothing);
}

#[test]
fn messages_of_the_main_window() {
    assert_eq!(main_message(WM_APP_TRAY, 0, WM_RBUTTONUP as i64), MainAction::ShowMenu);
    assert_eq!(main_message(WM_APP_TRAY, 0, WM_CONTEXTMENU as i64), MainAction::ShowMenu);
    assert_eq!(main_message(WM_APP_TRAY, 0, WM_LBUTTONUP as i64), MainAction::Toggle);
    assert_eq!(
        main_message(WM_APP_TRAY, 0, NIN_BALLOONUSERCLICK as i64),
        MainAction::OpenReleasePage
    );
    assert_eq!(main_message(WM_APP_TRAY, 0, 0), MainAction::Nothing);
    assert_eq!(main_message(WM_APP_STATE, 0, 0), MainAction::UpdateIcon);
    assert_eq!(main_message(WM_APP_UPDATE, 0, 0), MainAction::AnnounceUpdate);
    assert_eq!(main_message(WM_TIMER, OVERLAY_TIMER, 0), MainAction::TickOverlay);
    assert_eq!(main_message(WM_HOTKEY, HOTKEY_ID as usize, 0), MainAction::Toggle);
    assert_eq!(main_message(WM_SETTINGCHANGE, 0, 1), MainAction::SettingChanged);
    assert_eq!(main_message(WM_DESTROY, 0, 0), MainAction::Quit);
    assert_eq!(main_message(WM_COMMAND, 0, 0), MainAction::Nothing);
    assert_eq!(main_message(1, 0, 0), MainAction::Default);
    assert!(is_theme_change("ImmersiveColorSet"));
    assert!(!is_theme_change("Environment"));
    assert_eq!(mouse_point(0x0005_0007), (7, 5));
    assert_eq!(mouse_point(0xFFFE_FFFFu32 as i64), (-1, -2));
}

#[test]
fn the_icon_and_its_texts() {
    assert_eq!(tray_state(false, true), Tray::Off);
    assert_eq!(tray_state(true, true), Tray::Rec);
    assert_eq!(tray_state(true, false), Tray::Idle);
    assert_eq!(field("ab", 5), vec![0x61, 0x62, 0]);
    assert_eq!(field("abc", 2), vec![0x61, 0x62]);
    assert_eq!(face_name("Inter").len(), 5);
    assert_eq!(face_name(&"x".repeat(40)).len(), 31);
    assert_eq!(balloon_text("1.2.0"), "Версия 1.2.0 — откройте страницу релиза");
}

#[test]
fn new_settings_take_effect() {
    let was = Config::default();
    assert_eq!(apply(&was, &was.copy(), false), vec![ApplyAction::Save, ApplyAction::Reset]);
    assert_eq!(apply(&was, &was.copy(), true), vec![ApplyAction::Save, ApplyAction::Reload]);
    let mut new = was.copy();
    new.device_name = Some("mic".to_string());
    new.hotkey = "ctrl+j".to_string();
    new.stop_words.pop();
    assert_eq!(
        apply(&was, &new, false),
        vec![
            ApplyAction::Save,
            ApplyAction::RebuildStream,
            ApplyAction::RegisterHotkey,
            ApplyAction::Reload
        ]
    );
}

#[test]
fn shared_state() {
    let mut s = Shared::init();
    assert_eq!((s.is_dictating(), s.is_enabled(), s.current_level()), (false, true, 0));
    s.send_level(700);
    s.set_dictating(true);
    s.set_enabled(false);
    assert_eq!((s.is_dictating(), s.is_enabled(), s.current_level()), (true, false, 700));
}

#[test]
fn a_window_handle_survives_packing() {
    for v in [0isize, 1, -1, 0x1234_5678_9ABC, isize::MIN, isize::MAX] {
        let (lo, hi) = pack_hwnd(v);
        assert_eq!(unpack_hwnd(lo, hi), v);
    }
    assert_eq!(pack_hwnd(0x1_0000_0002), (2, 1));
}

#[test]
fn keys_go_down_and_up() {
    let e = |key: Key, up: bool| KeyEvent { key, up };
    assert_eq!(
        type_text("я"),
        vec![e(Key::Unit(0x44F), false), e(Key::Unit(0x44F), true)]
    );
    assert_eq!(type_text("😀").len(), 4);
    assert_eq!(type_text(""), vec![]);
    assert_eq!(
        backspace(1),
        vec![e(Key::Virtual(VK_BACK), false), e(Key::Virtual(VK_BACK), true)]
    );
    assert_eq!(backspace(3).len(), 6);
}

#[test]
fn code_units() {
    for s in ["", "abc", "привет", "😀 ok", "\u{FFFF}"] {
        let v: Vec<u16> = s.encode_utf16().collect();
        assert_eq!(encode(s), v);
        assert_eq!(decode(&v), s);
        assert_eq!(wide(s).last(), Some(&0));
        assert_eq!(wide(s).len(), v.len() + 1);
    }
    for v in [vec![0xD800u16], vec![0xDC00, 0x61], vec![0xD83D, 0xD83D, 0xDE00]] {
        assert_eq!(decode(&v), String::from_utf16_lossy(&v));
    }
}

#[test]
fn starting_with_the_system() {
    let exe = "C:\\Program Files\\vi.exe";
    assert_eq!(decode(&command(exe)), "\"C:\\Program Files\\vi.exe\"\0");
    assert!(enabled(&command(exe), exe));
    assert!(!enabled(&command(exe), "D:\\other.exe"));
    assert!(enabled(&command("D:\\Voice-Inputter.exe"), exe));
    assert!(!enabled(&vec![], exe));
    assert!(!enabled(&encode("no zero at the end: voice-inputter"), exe));
    assert!(!ours("", "", exe));
}

#[test]
fn fonts_and_short_texts() {
    assert_eq!(F::Body.index() + 1, N_F);
    assert_eq!([F::Title.weight(), F::BtnBold.weight(), F::Body.weight()], [500, 600, 400]);
    assert_eq!([ui_face(true), ui_face(false)], ["Inter", "Segoe UI"]);
    let t = encode("abcd");
    assert_eq!(ellipsize(&t, true, &vec![false; 4]), t);
    let mut cut = encode("ab");
    cut.push(DOTS);
    assert_eq!(ellipsize(&t, false, &vec![true, true, true, false]), cut);
    assert_eq!(ellipsize(&t, false, &vec![false; 4]), encode("a…"));
    assert_eq!(ellipsize(&encode("a"), false, &vec![false]), encode("a"));
}
