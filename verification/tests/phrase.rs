use voice_inputter::config::Config;
use voice_inputter::distance::lev;
use voice_inputter::phrase::{
    capitalize, contains_word, diff, shape, sort_longest_first, strip_words,
};

fn feed(screen: &mut String, emitted: &mut String, target: &str) {
    let (back, suffix) = diff(emitted, target);
    for _ in 0..back {
        screen.pop();
    }
    screen.push_str(&suffix);
    *emitted = target.to_string();
}

#[test]
fn streaming_with_revision() {
    let mut screen = String::new();
    let mut em = String::new();
    for t in ["При", "Привет", "Привет ми", "Привет мир"] {
        feed(&mut screen, &mut em, t);
    }
    assert_eq!(screen, "Привет мир");
    feed(&mut screen, &mut em, "Привет мир кот");
    feed(&mut screen, &mut em, "Привет мир как");
    assert_eq!(screen, "Привет мир как");
}

#[test]
fn shape_strips_and_capitalizes() {
    let cfg = Config::default();
    assert_eq!(shape(&cfg, "джарвис привет мир"), "Привет мир");
    assert_eq!(shape(&cfg, "это всё стоп"), "Это всё");
    assert_eq!(shape(&cfg, "стоп"), "");
}

#[test]
fn diff_of_equal_and_of_foreign_texts() {
    assert_eq!(diff("кот", "кот"), (0, String::new()));
    assert_eq!(diff("", "кот"), (0, "кот".to_string()));
    assert_eq!(diff("кот", ""), (3, String::new()));
    assert_eq!(diff("abc", "xyz"), (3, "xyz".to_string()));
}

#[test]
fn capital_letter_only_where_asked() {
    let mut cfg = Config::default();
    cfg.capitalize = false;
    assert_eq!(shape(&cfg, "Джарвис ПРИВЕТ мир"), "привет мир");
    // one character may become two
    cfg.capitalize = true;
    assert_eq!(capitalize("ßtest"), "SStest");
    assert_eq!(capitalize(""), "");
}

#[test]
fn control_words_go_the_longest_first() {
    let list = vec!["стоп".to_string(), "стоп машина".to_string()];
    assert_eq!(strip_words("раз стоп машина два", &list), "раз два");
    assert_eq!(
        sort_longest_first(&vec!["аб".to_string(), "abc".to_string(), "вг".to_string()]),
        vec!["аб", "вг", "abc"]
    );
}

#[test]
fn an_empty_control_word_takes_the_text_apart() {
    let list = vec![String::new()];
    assert_eq!(strip_words("да", &list), "д а");
}

#[test]
fn a_control_word_of_several_words() {
    let list = vec!["Эй Джарвис".to_string()];
    assert_eq!(contains_word("ну эй джарвис привет", &list, true).as_deref(), Some("эй джарвис"));
    assert_eq!(contains_word("эй джарвес", &list, true), None);
}

#[test]
fn near_misses_count_only_where_allowed() {
    let list = vec!["джарвис".to_string()];
    assert_eq!(contains_word("джарвес привет", &list, true).as_deref(), Some("джарвис"));
    assert_eq!(contains_word("джарвес привет", &list, false), None);
    // one letter, however long the word
    let list = vec!["переключатель".to_string(), "кот".to_string()];
    assert_eq!(contains_word("переключитель", &list, true).as_deref(), Some("переключатель"));
    assert_eq!(contains_word("пириключатель", &list, true), None);
    assert_eq!(contains_word("abcdefghxy", &vec!["abcdefghij".to_string()], true), None);
    assert_eq!(contains_word("кит", &list, true).as_deref(), Some("кот"));
    assert_eq!(contains_word("кис", &list, true), None);
    assert_eq!(contains_word("слово", &vec![String::new()], true), None);
}

#[test]
fn edit_distance() {
    assert_eq!(lev("", "кот"), 3);
    assert_eq!(lev("кот", ""), 3);
    assert_eq!(lev("kitten", "sitting"), 3);
    assert_eq!(lev("sitting", "kitten"), 3);
    assert_eq!(lev("стол", "стоп"), 1);
}
