use voice_inputter::http::{HttpError, Transfer};
use voice_inputter::model::{
    archive_name, archive_path, human, installed, model_name, models_dir, unpacked, Installer,
    Status, PATH_PREFIX,
};
use voice_inputter::model_ui::{
    activate, buttons, closes, labels, Dlg, Next, Press, B_ALT, B_CLOSE, B_MAIN, DONE_FOR,
};

/// The words that double precision and one decimal give.
fn by_floats(got: u64, total: u64) -> String {
    let mb = |v: u64| v as f64 / (1024.0 * 1024.0);
    if total > 0 {
        format!("{:.1} / {:.1} МБ", mb(got), mb(total)).replace('.', ",")
    } else {
        format!("{:.1} МБ", mb(got)).replace('.', ",")
    }
}

#[test]
fn sizes_in_words() {
    assert_eq!(human(13_002_342, 24_117_248), "12,4 / 23,0 МБ");
    assert_eq!(human(0, 0), "0,0 МБ");
    let mut v = 1u64;
    for i in 0..64u32 {
        for d in [0u64, 1, 3, 52_428, 52_429, 78_643, 157_286] {
            let x = v.wrapping_add(d.wrapping_mul(i as u64 + 1));
            assert_eq!(human(x, v), by_floats(x, v), "{x} of {v}");
        }
        v = v.wrapping_mul(2).max(1);
    }
    for tenth in 0..4000u64 {
        // halfway between two tenths
        let x = tenth * 104_857 + 52_428;
        assert_eq!(human(x, 0), by_floats(x, 0), "{x}");
        assert_eq!(human(x + 1, 0), by_floats(x + 1, 0), "{x}");
    }
    for k in 0..64u64 {
        let x = k * 1_048_576 / 20;
        assert_eq!(human(x, 0), by_floats(x, 0), "{x}");
    }
    assert_eq!(human(u64::MAX, u64::MAX), by_floats(u64::MAX, u64::MAX));
    assert_eq!(human(u64::MAX - 1023, 1 << 53), by_floats(u64::MAX - 1023, 1 << 53));
}

#[test]
fn names_of_a_model() {
    assert_eq!(model_name("models/foo"), "foo");
    assert_eq!(model_name("C:\\models\\foo\\"), "foo");
    assert_eq!(model_name("foo"), "foo");
    assert_eq!(model_name("///"), "");
    assert_eq!(models_dir(), "models");
    assert_eq!(archive_name("foo"), "foo.tar.bz2");
    assert_eq!(archive_path("foo"), format!("{PATH_PREFIX}foo.tar.bz2"));
    assert!(installed(true, true));
    assert!(!installed(true, false));
    assert!(!installed(false, true));
    assert_eq!(unpacked("foo", true), Ok(()));
    assert_eq!(unpacked("foo", false), Err("в архиве нет папки foo с tokens.txt".to_string()));
}

#[test]
fn an_installation_that_succeeds() {
    let mut m = Installer::new();
    assert_eq!(m.status(), Status::Idle);
    assert!(m.start());
    assert!(m.is_running());
    assert!(!m.start());
    assert_eq!(m.status(), Status::Downloading { got: 0, total: 0 });
    let mut t = Transfer::begin(Some(200), Some(100)).unwrap();
    t.chunk(40);
    m.progress(&t);
    assert_eq!(m.status(), Status::Downloading { got: 40, total: 100 });
    assert_eq!(m.go_on(), Ok(()));
    m.extracting();
    assert_eq!(m.status(), Status::Extracting);
    assert!(m.finish(Ok(())));
    assert_eq!(m.status(), Status::Done);
    assert!(!m.is_running());
}

#[test]
fn an_installation_that_is_stopped_or_fails() {
    let mut m = Installer::new();
    m.start();
    m.cancel();
    assert_eq!(m.go_on(), Err(HttpError::Cancelled));
    assert!(!m.finish(Err("отменено".to_string())));
    assert_eq!(m.status(), Status::Cancelled);
    m.start();
    assert!(!m.finish(Err("нет ответа".to_string())));
    assert_eq!(m.status(), Status::Failed("нет ответа".to_string()));
    m.set_for_test(Status::Extracting);
    assert_eq!(m.status(), Status::Extracting);
}

#[test]
fn what_the_window_says() {
    let (title, sub, main) = labels(&Status::Idle);
    assert_eq!(title, "Нужна модель распознавания");
    assert_eq!(sub, "Один раз скачаем ~23 МБ — дальше всё работает без интернета");
    assert_eq!(main.as_deref(), Some("Скачать"));
    let (title, sub, main) = labels(&Status::Downloading { got: 0, total: 1048576 });
    assert_eq!((title.as_str(), sub.as_str()), ("Загружаю модель…", "0,0 / 1,0 МБ"));
    assert_eq!(main, None);
    assert_eq!(labels(&Status::Failed("почему".to_string())).1, "почему");
    assert_eq!(
        buttons(&Status::Failed(String::new())),
        vec![(B_MAIN, "Повторить".to_string()), (B_ALT, "Не сейчас".to_string())]
    );
    assert_eq!(buttons(&Status::Extracting), vec![(B_ALT, "Отмена".to_string())]);
    assert_eq!(buttons(&Status::Done), vec![(B_ALT, "Закрыть".to_string())]);
    assert_eq!(buttons(&Status::Cancelled)[1].1, "Не сейчас");
}

#[test]
fn what_the_buttons_do() {
    let mut m = Installer::new();
    assert_eq!(activate(B_ALT, &mut m), Press::Close);
    assert!(!m.cancelled);
    assert_eq!(activate(B_MAIN, &mut m), Press::Begin);
    assert_eq!(activate(B_MAIN, &mut m), Press::Draw);
    assert_eq!(activate(B_CLOSE, &mut m), Press::Close);
    assert!(m.cancelled);
    assert!(closes(0x1B));
    assert!(!closes(0x0D));
}

#[test]
fn the_mouse_in_the_window() {
    let mut d = Dlg::new();
    assert!(d.mouse_move(Some(B_MAIN)));
    assert!(!d.mouse_move(None));
    d.mouse_leave();
    assert!(d.mouse_move(None));
    d.mouse_down(Some(B_ALT));
    assert_eq!(d.mouse_up(Some(B_MAIN)), None);
    assert_eq!(d.mouse_up(Some(B_ALT)), None);
    d.mouse_down(Some(B_ALT));
    assert_eq!(d.mouse_up(Some(B_ALT)), Some(B_ALT));
    d.mouse_down(None);
    assert_eq!(d.mouse_up(None), None);
}

#[test]
fn the_window_closes_after_it_is_done() {
    let mut d = Dlg::new();
    assert_eq!(d.tick(&Status::Idle, false, 0), Next::Wait);
    assert_eq!(d.tick(&Status::Idle, true, 0), Next::Draw);
    assert_eq!(d.tick(&Status::Extracting, false, 0), Next::Draw);
    assert_eq!(d.tick(&Status::Done, false, 5), Next::Draw);
    assert_eq!(d.tick(&Status::Done, false, 5 + DONE_FOR), Next::Draw);
    assert_eq!(d.tick(&Status::Done, false, 6 + DONE_FOR), Next::Close);
}
