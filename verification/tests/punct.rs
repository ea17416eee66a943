use voice_inputter::punct::{apply, command_words, ends_sentence, kind_of, lookup, Kind};
use voice_inputter::wordmap::WordMap;

fn go(s: &str) -> String {
    apply(s, &WordMap::new(), true, "")
}

#[test]
fn basic_marks() {
    assert_eq!(go("привет запятая как дела знак вопроса"), "Привет, как дела?");
    assert_eq!(go("это точка новое предложение точка"), "Это. Новое предложение.");
    assert_eq!(go("ура восклицательный знак"), "Ура!");
}

#[test]
fn glued_symbols() {
    assert_eq!(apply("кто дефис то", &WordMap::new(), false, ""), "кто-то");
}

#[test]
fn spacing_rules() {
    assert_eq!(go("жизнь тире игра"), "Жизнь — игра");
    assert_eq!(go("тест открыть скобку раз закрыть скобку"), "Тест (раз)");
    assert_eq!(go("он сказал открыть кавычки да закрыть кавычки"), "Он сказал «да»");
}

#[test]
fn newlines() {
    assert_eq!(go("первая строка новая строка вторая"), "Первая строка\nВторая");
    assert_eq!(go("раз новый абзац два"), "Раз\n\nДва");
}

#[test]
fn longest_match_wins() {
    assert_eq!(go("раз точка с запятой два"), "Раз; два");
}

#[test]
fn custom_words_override() {
    let mut extra = WordMap::new();
    extra.insert("собака".to_string(), "@".to_string());
    assert_eq!(apply("ivan собака mail точка ru", &extra, false, ""), "ivan@mail. ru");
}

#[test]
fn without_capitalization() {
    assert_eq!(apply("привет точка пока", &WordMap::new(), false, ""), "привет. пока");
}

#[test]
fn prefix_gates_commands() {
    let e = WordMap::new();
    assert_eq!(apply("привет знак запятая как дела", &e, true, "знак"), "Привет, как дела");
    assert_eq!(apply("точка зрения важна", &e, true, "знак"), "Точка зрения важна");
    assert_eq!(apply("дорожный знак стоит", &e, true, "знак"), "Дорожный знак стоит");
    assert_eq!(apply("раз знак новая строка два", &e, true, "знак"), "Раз\nДва");
}

#[test]
fn plain_text_untouched() {
    assert_eq!(go("просто текст без команд"), "Просто текст без команд");
    assert_eq!(go("этот вопрос важен"), "Этот вопрос важен");
    assert_eq!(go("новый абзац начинается"), "\n\nНачинается");
    assert_eq!(go("абзац текста"), "Абзац текста");
    assert_eq!(go(""), "");
}

#[test]
fn user_words_come_before_the_built_in_ones() {
    let mut extra = WordMap::new();
    extra.insert("точка".to_string(), "!".to_string());
    assert_eq!(apply("да точка нет", &extra, true, ""), "Да! Нет");
}

#[test]
fn command_words_hold_marks_and_user_words() {
    let mut extra = WordMap::new();
    extra.insert("собака".to_string(), "@".to_string());
    let words = command_words(&extra, "");
    assert!(words.iter().any(|w| w == "запятая"));
    assert!(words.iter().any(|w| w == "точка с запятой"));
    assert!(words.iter().any(|w| w == "собака"));
    assert!(!words.iter().any(|w| w == "знак"));
    assert!(command_words(&extra, "знак").iter().any(|w| w == "знак"));
}

#[test]
fn prefix_in_any_case_and_with_spaces() {
    let e = WordMap::new();
    assert_eq!(apply("раз ЗНАК запятая два", &e, false, " Знак "), "раз, два");
}

#[test]
fn symbols_and_their_kinds() {
    assert_eq!(kind_of(","), Kind::Tail);
    assert_eq!(kind_of("?!"), Kind::Tail);
    assert_eq!(kind_of("("), Kind::Open);
    assert_eq!(kind_of("—"), Kind::Free);
    assert_eq!(kind_of("->"), Kind::Free);
    assert_eq!(kind_of("@"), Kind::Glue);
    assert_eq!(kind_of("\n"), Kind::Newline(1));
    assert_eq!(kind_of("\n\n"), Kind::Newline(2));
    assert!(ends_sentence("."));
    assert!(ends_sentence("?!"));
    assert!(!ends_sentence("\n"));
    assert!(!ends_sentence(","));
    assert_eq!(lookup("запятая", &WordMap::new()).as_deref(), Some(","));
    assert_eq!(lookup("слово", &WordMap::new()), None);
}
