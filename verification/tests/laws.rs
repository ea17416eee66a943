use voice_inputter::config::parse_hotkey;
use voice_inputter::distance::lev;
use voice_inputter::edit::Edit;
use voice_inputter::icons::tint;
use voice_inputter::image::{union_box, Image};
use voice_inputter::overlay::{Overlay, TIMER_FAST, TIMER_IDLE};
use voice_inputter::paint::smooth_line;
use voice_inputter::phrase::{diff, strip_words};
use voice_inputter::pixels::{overlay_pixels, restore_opacity, straight};
use voice_inputter::punct::apply;
use voice_inputter::text::{join, split_whitespace};
use voice_inputter::update::newer;
use voice_inputter::utf16::encode;
use voice_inputter::wordmap::WordMap;
use voice_inputter::words::{capture, split_words, Mods};

#[test]
fn distances_are_those_of_a_space() {
    let list = ["", "кот", "кит", "китти", "скот", "ток"];
    for a in list {
        assert_eq!(lev(a, a), 0);
        for b in list {
            let (n, m) = (a.chars().count(), b.chars().count());
            assert_eq!(lev(a, b), lev(b, a));
            assert_eq!(lev(a, b) == 0, a == b);
            assert!(lev(a, b) >= n.abs_diff(m) && lev(a, b) <= n.max(m));
            for c in list {
                assert!(lev(a, c) <= lev(a, b) + lev(b, c));
            }
        }
    }
}

#[test]
fn versions_are_in_order() {
    let list = ["0.1", "0.1.0", "0.2", "0.10.3", "1", "1.0.1", "2.0-rc"];
    for a in list {
        assert!(!newer(a, a));
        for b in list {
            assert!(!(newer(a, b) && newer(b, a)));
            for c in list {
                assert!(!(newer(a, b) && newer(b, c)) || newer(a, c));
            }
        }
    }
    assert!(!newer("0.1", "0.1.0") && !newer("0.1.0", "0.1"));
}

#[test]
fn no_correction_erases_more_than_it_must() {
    let list = ["", "кот", "котик", "кит", "как кот"];
    for a in list {
        for b in list {
            let (back, suffix) = diff(a, b);
            let kept: String = a.chars().take(a.chars().count() - back).collect();
            assert_eq!(format!("{kept}{suffix}"), b);
            if back > 0 {
                let more: String = a.chars().take(a.chars().count() - back + 1).collect();
                assert!(!b.starts_with(&more));
            }
        }
    }
    assert_eq!(diff("кот", "котик"), (0, "ик".to_string()));
}

#[test]
fn what_is_left_is_tidy_and_has_no_control_word() {
    let list = vec!["стоп".to_string(), "джарвис".to_string()];
    for text in ["  раз стоп  два джарвис ", "стоп", "", "стопор стоп стоп раз"] {
        let left = strip_words(text, &list);
        let words = split_whitespace(&left);
        assert_eq!(join(&words, " "), left);
        assert!(!words.contains(&"стоп".to_string()));
        assert!(!words.contains(&"джарвис".to_string()));
    }
    assert_eq!(strip_words("  раз стоп  два джарвис ", &list), "раз два");
}

#[test]
fn softening_adds_no_light() {
    let line = vec![0u8, 200, 3, 90, 255, 10, 10];
    for r in 1..4 {
        let soft = smooth_line(&line, r);
        assert_eq!(soft.len(), line.len());
        assert!(smooth_line(&vec![17; 9], r).iter().all(|&v| v == 17));
    }
    let soft = smooth_line(&vec![1u8, 9, 4, 0, 7], 1);
    assert!(soft.iter().all(|&v| v <= 9));
}

#[test]
fn recoloured_pictures_stay_within_their_opacity() {
    let mut img = Image { w: 2, h: 1, data: vec![1, 2, 3, 100, 9, 9, 9, 0] };
    tint(&mut img, 255, 128, 0);
    assert_eq!(img.data, vec![100, 50, 0, 100, 0, 0, 0, 0]);
}

#[test]
fn drawn_pixels_keep_their_colours() {
    for a in 0..=255u8 {
        for c in [0, a / 3, a / 2, a] {
            let pixel = overlay_pixels(&straight(&vec![c, c, c, a]))[0];
            let blue = (pixel & 0xFF) as u8;
            assert!(blue == c || blue + 1 == c);
            let mut pixels = vec![pixel];
            restore_opacity(&mut pixels, &vec![c, c, c, a]);
            assert_eq!(pixels, vec![pixel]);
        }
    }
}

#[test]
fn a_box_around_two_boxes() {
    let (a, b) = ((1, 5, 3, 6), (2, 1, 7, 4));
    let u = union_box(a, b);
    for x in [a, b] {
        assert!(u.0 <= x.0 && u.1 <= x.1 && u.2 >= x.2 && u.3 >= x.3);
        assert_eq!(union_box(u, x), u);
    }
}

#[test]
fn code_units_of_two_texts_in_a_row() {
    let (a, b) = ("кот 🐈", "🐕 пёс");
    let mut both = encode(a);
    both.extend(encode(b));
    assert_eq!(encode(&format!("{a}{b}")), both);
}

#[test]
fn typing_at_the_caret() {
    let mut e = Edit::new("раз три", false);
    e.move_to(4, false);
    e.insert_str("два ");
    assert_eq!(e.text(), "раз два три");
    assert_eq!(e.sel(), (8, 8));
    e.backspace();
    e.insert(' ' as u16);
    assert_eq!(e.text(), "раз два три");
    e.select_all();
    e.insert('x' as u16);
    assert_eq!(e.text(), "x");
    assert_eq!(e.sel(), (1, 1));
}

#[test]
fn words_come_back_from_a_list() {
    let words = vec!["джарвис".to_string(), "эй компьютер".to_string()];
    assert_eq!(split_words(&join(&words, ", ")), words);
}

#[test]
fn a_captured_hotkey_is_read_as_it_was_pressed() {
    for n in 1..16u32 {
        let m = Mods { alt: n & 1 != 0, ctrl: n & 2 != 0, shift: n & 4 != 0, win: n & 8 != 0 };
        for vk in [0x20u32, 0x30, 0x39, 0x41, 0x5A, 0x70, 0x7B] {
            let text = capture(vk, m).unwrap();
            assert_eq!(parse_hotkey(&text), Some((n, vk)));
        }
    }
}

#[test]
fn a_hotkey_in_any_order_and_case() {
    let want = Some((0x0002 | 0x0004, 0x4A));
    for text in [
        "ctrl+shift+j",
        "j+shift+ctrl",
        "shift+j+ctrl",
        "CTRL+SHIFT+J",
        "Shift + Ctrl + J",
        " ctrl +ctrl+shift+ j",
        "ctrl+shift+j+j",
    ] {
        assert_eq!(parse_hotkey(text), want);
        assert_eq!(parse_hotkey(&text.to_ascii_uppercase()), want);
    }
    // of two keys the last counts, so there the order matters
    assert_eq!(parse_hotkey("ctrl+j+k"), Some((2, 0x4B)));
    assert_eq!(parse_hotkey("ctrl+k+j"), Some((2, 0x4A)));
}

#[test]
fn the_timer_is_fast_while_the_overlay_shows() {
    let mut o = Overlay::new();
    assert_eq!(o.tick("always", false, false, false, 0).timer, None);
    assert_eq!(o.tick("always", false, true, false, 1).timer, Some(TIMER_FAST));
    assert_eq!(o.tick("always", false, true, true, 2).timer, None);
    assert_eq!(o.tick("always", false, false, true, 3).timer, None);
    assert_eq!(o.tick("always", false, false, false, 4).timer, Some(TIMER_IDLE));
}

#[test]
fn white_space_and_the_look_of_the_prefix_do_not_matter() {
    let none = WordMap::new();
    let text = "  Раз\tmark запятая\n\nдва   mark  точка три ";
    let tidy = join(&split_whitespace(text), " ");
    for prefix in ["mark", " MARK ", "\tMark"] {
        assert_eq!(apply(text, &none, true, prefix), "Раз, два. Три");
        assert_eq!(apply(&tidy, &none, true, prefix), "Раз, два. Три");
    }
    let text = " раз  запятая\tдва ";
    assert_eq!(apply(text, &none, true, " Знак "), apply("раз запятая два", &none, true, "знак"));
}

#[test]
fn composed_texts_are_well_spaced() {
    let none = WordMap::new();
    for text in [
        "раз тире новая строка два запятая тире три",
        "тире раз открыть скобку два закрыть скобку новый абзац три тире",
        "новая строка открыть кавычки раз закрыть кавычки дефис два",
        "точка запятая новая строка новая строка тире",
    ] {
        for cap in [false, true] {
            let r = apply(text, &none, cap, "");
            assert!(!r.starts_with(' ') && !r.ends_with(' '), "{r:?}");
            assert!(!r.contains("  ") && !r.contains(" \n"), "{r:?}");
        }
    }
    assert_eq!(apply("раз тире новая строка два", &none, true, ""), "Раз —\nДва");
}
