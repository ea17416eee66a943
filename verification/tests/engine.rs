use voice_inputter::config::Config;
use voice_inputter::engine::{hot_words, Action, Engine, Live, State};

fn typed(s: &str) -> Action {
    Action::Type(s.to_string())
}

/// What stands on the screen after the keystrokes among the actions.
fn carry_out(screen: &mut String, list: &[Action]) {
    for a in list {
        match a {
            Action::Backspace(n) => {
                for _ in 0..*n {
                    screen.pop();
                }
            }
            Action::Type(s) => screen.push_str(s),
            _ => {}
        }
    }
}

#[test]
fn live_text_is_corrected_in_place() {
    let mut live = Live::new();
    assert_eq!(live.reconcile("кот"), vec![typed("кот")]);
    assert_eq!(live.reconcile("кит"), vec![Action::Backspace(2), typed("ит")]);
    assert_eq!(live.reconcile("кит"), vec![]);
    assert_eq!(live.reconcile("ки"), vec![Action::Backspace(1)]);
    assert_eq!(live.finalize(true), vec![typed(" ")]);
    assert_eq!(live.emitted, "");
    assert_eq!(live.finalize(true), vec![]);
}

#[test]
fn no_space_where_none_is_wanted() {
    let mut live = Live::new();
    live.reconcile("кот");
    assert_eq!(live.finalize(false), vec![]);
    assert_eq!(live.emitted, "");
}

#[test]
fn a_dictation_from_wake_word_to_stop_word() {
    let cfg = Config::default();
    let mut e = Engine::new();
    let mut screen = String::new();
    assert_eq!(e.audio(&cfg, "шум за окном", false), vec![]);
    assert_eq!(e.audio(&cfg, "шум за окном", true), vec![Action::ResetRecognizer]);
    // one letter off still wakes it
    let woken = e.audio(&cfg, "джарвес", false);
    assert_eq!(
        woken,
        vec![
            Action::ResetRecognizer,
            Action::StoreDictating(true),
            Action::PostState,
            Action::NoteSpeech
        ]
    );
    assert_eq!(e.state, State::Dictating);
    for text in ["при", "привет", "привет мир"] {
        let list = e.audio(&cfg, text, false);
        carry_out(&mut screen, &list);
    }
    assert_eq!(screen, "Привет мир");
    let list = e.audio(&cfg, "привет мир", true);
    carry_out(&mut screen, &list);
    assert_eq!(screen, "Привет мир ");
    let list = e.audio(&cfg, "это всё стоп", true);
    carry_out(&mut screen, &list);
    assert_eq!(screen, "Привет мир Это всё ");
    assert_eq!(e.state, State::Idle);
    assert_eq!(list.last(), Some(&Action::PostState));
}

#[test]
fn stop_words_are_taken_literally() {
    let cfg = Config::default();
    let mut e = Engine::new();
    e.toggle(&cfg);
    e.audio(&cfg, "большой стол", true);
    assert_eq!(e.state, State::Dictating);
}

#[test]
fn typing_after_a_pause_waits_for_the_end_of_the_phrase() {
    let mut cfg = Config::default();
    cfg.live_typing = false;
    let mut e = Engine::new();
    e.toggle(&cfg);
    assert_eq!(e.audio(&cfg, "привет", false), vec![Action::NoteSpeech]);
    assert_eq!(
        e.audio(&cfg, "привет мир", true),
        vec![Action::NoteSpeech, typed("Привет мир"), typed(" "), Action::ResetRecognizer]
    );
}

#[test]
fn switched_off_it_hears_nothing() {
    let cfg = Config::default();
    let mut e = Engine::new();
    e.toggle(&cfg);
    e.audio(&cfg, "раз", false);
    let list = e.set_enabled(&cfg, false);
    assert_eq!(
        list,
        vec![
            Action::StoreEnabled(false),
            typed(" "),
            Action::ResetRecognizer,
            Action::StoreDictating(false),
            Action::PostState,
            Action::ResetRecognizer,
            Action::PostState
        ]
    );
    assert_eq!(e.audio(&cfg, "джарвис", true), vec![]);
    assert_eq!(e.state, State::Idle);
    e.set_enabled(&cfg, true);
    e.audio(&cfg, "джарвис", false);
    assert_eq!(e.state, State::Dictating);
}

#[test]
fn toggling_twice_ends_where_it_began() {
    let cfg = Config::default();
    let mut e = Engine::new();
    e.toggle(&cfg);
    assert_eq!(e.state, State::Dictating);
    let list = e.toggle(&cfg);
    assert_eq!(
        list,
        vec![Action::ResetRecognizer, Action::StoreDictating(false), Action::PostState]
    );
    assert_eq!(e.state, State::Idle);
}

#[test]
fn long_silence_ends_dictation() {
    let cfg = Config::default();
    let mut e = Engine::new();
    assert_eq!(e.silence(&cfg, true), vec![]);
    e.toggle(&cfg);
    assert_eq!(e.silence(&cfg, false), vec![]);
    assert_eq!(e.state, State::Dictating);
    e.silence(&cfg, true);
    assert_eq!(e.state, State::Idle);
}

#[test]
fn a_new_recogniser_ends_dictation() {
    let cfg = Config::default();
    let mut e = Engine::new();
    e.toggle(&cfg);
    let list = e.reload(&cfg);
    assert_eq!(list.last(), Some(&Action::Rebuild));
    assert_eq!(e.state, State::Idle);
    assert_eq!(e.rebuilt(false), vec![Action::ReportFailure]);
    assert_eq!(e.rebuilt(true), vec![]);
    assert_eq!(e.reset(), vec![Action::ResetRecognizer]);
}

#[test]
fn the_recogniser_listens_for_all_control_words() {
    let cfg = Config::default();
    assert_eq!(hot_words(&cfg), vec!["джарвис", "компьютер", "стоп", "хватит", "достаточно"]);
}
