use voice_inputter::edit::Edit;
use voice_inputter::words::{capture, hotkey_label, split_words, Mods};

#[test]
fn typing_and_erasing() {
    let mut e = Edit::new("кот", false);
    assert_eq!(e.sel(), (3, 3));
    e.insert_str("ик");
    assert_eq!(e.text(), "котик");
    e.backspace();
    e.backspace();
    assert_eq!(e.text(), "кот");
    e.move_to(1, false);
    e.delete();
    assert_eq!(e.text(), "кт");
    e.move_to(100, true);
    assert_eq!(e.sel_text(), "т");
    e.insert(0x0430);
    assert_eq!(e.text(), "ка");
    e.move_to(0, false);
    e.backspace();
    assert_eq!(e.text(), "ка");
    e.select_all();
    assert!(e.has_sel());
    assert!(e.del_sel());
    assert!(!e.del_sel());
    assert_eq!(e.text(), "");
}

#[test]
fn words_are_skipped_whole() {
    let mut e = Edit::new("раз, два три", false);
    assert_eq!(e.word_left(), 9);
    e.move_to(9, false);
    assert_eq!(e.word_left(), 5);
    assert_eq!(e.word_right(), 12);
    e.move_to(0, false);
    assert_eq!(e.word_right(), 5);
    assert_eq!(e.word_left(), 0);
}

#[test]
fn numeric_fields_take_only_numbers() {
    let mut e = Edit::new("", true);
    e.insert_str("1a2,5 б");
    assert_eq!(e.text(), "12.5");
}

#[test]
fn lists_of_words() {
    assert_eq!(split_words("Раз, два ,,ТРИ "), vec!["раз", "два", "три"]);
    assert!(split_words(" , ").is_empty());
}

#[test]
fn hotkeys_in_words() {
    assert_eq!(hotkey_label("ctrl+alt+j"), "Ctrl + Alt + J");
    assert_eq!(hotkey_label(" control + super +space++f5"), "Ctrl + Win + Space + F5");
    let m = Mods { ctrl: true, alt: true, shift: true, win: true };
    assert_eq!(capture(0x4A, m).as_deref(), Some("ctrl+alt+shift+win+j"));
    assert_eq!(capture(0x7B, Mods { ctrl: false, alt: true, shift: false, win: false }).as_deref(), Some("alt+f12"));
    assert_eq!(capture(0x30, m).as_deref(), Some("ctrl+alt+shift+win+0"));
    assert_eq!(capture(0x20, m).as_deref(), Some("ctrl+alt+shift+win+space"));
    assert_eq!(capture(0x4A, Mods { ctrl: false, alt: false, shift: false, win: false }), None);
    assert_eq!(capture(0x1234, m), None);
}
