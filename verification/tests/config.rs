use voice_inputter::audio::choose_device;
use voice_inputter::config::{
    config_path, data_dir, default_hotkey, default_overlay_mode, default_true, parse_hotkey,
    resolve_resource, wanted_data_dir, Config, DataDir, Place, MOD_ALT, MOD_CONTROL, MOD_SHIFT,
    MOD_WIN,
};
use voice_inputter::stt::{missing_file, model_files, pick};
use voice_inputter::wordmap::WordMap;

#[test]
fn defaults() {
    let c = Config::default();
    assert_eq!(c.wake_words, vec!["джарвис", "компьютер"]);
    assert_eq!(c.stop_words, vec!["стоп", "хватит", "достаточно"]);
    assert_eq!(c.hotkey, default_hotkey());
    assert_eq!(c.hotkey, "ctrl+alt+space");
    assert_eq!(c.overlay_mode, default_overlay_mode());
    assert_eq!(c.overlay_mode, "always");
    assert!(default_true());
    assert!(c.live_typing && c.append_space && c.capitalize && c.check_updates && c.punctuation);
    assert_eq!(c.device_name, None);
    assert_eq!(c.punctuation_prefix, "");
    assert_eq!(c.copy().model_path, c.model_path);
}

#[test]
fn hotkeys_are_read() {
    assert_eq!(parse_hotkey("ctrl+alt+space"), Some((MOD_CONTROL | MOD_ALT, 0x20)));
    assert_eq!(parse_hotkey("Ctrl + Shift+ J"), Some((MOD_CONTROL | MOD_SHIFT, 0x4A)));
    assert_eq!(parse_hotkey("win+f5"), Some((MOD_WIN, 0x74)));
    assert_eq!(parse_hotkey("alt+1"), Some((MOD_ALT, 0x31)));
    assert_eq!(parse_hotkey("ctrl"), None);
    assert_eq!(parse_hotkey(""), None);
    assert_eq!(parse_hotkey("ctrl+я"), None);
    assert_eq!(parse_hotkey("ctrl+f25"), None);
}

#[test]
fn where_files_are_looked_for() {
    assert_eq!(Config::load(true, true, true), Some(Place::DataDir));
    assert_eq!(Config::load(false, true, true), Some(Place::BesideExe));
    assert_eq!(Config::load(false, false, true), Some(Place::Current));
    assert_eq!(Config::load(false, false, false), None);
    assert_eq!(resolve_resource(true, true, true), Some(Place::Current));
    assert_eq!(resolve_resource(false, true, true), Some(Place::BesideExe));
    assert_eq!(resolve_resource(false, false, true), Some(Place::DataDir));
    assert_eq!(resolve_resource(false, false, false), None);
    assert_eq!(config_path(), "config.json");
    assert_eq!(wanted_data_dir(true, true), DataDir::Exe);
    assert_eq!(data_dir(DataDir::Exe, false), DataDir::Exe);
}

#[test]
fn the_first_device_with_the_name() {
    let names = vec![None, Some("a".to_string()), Some("b".to_string()), Some("a".to_string())];
    assert_eq!(choose_device(&names, &Some("a".to_string())), Some(1));
    assert_eq!(choose_device(&names, &Some("c".to_string())), None);
    assert_eq!(choose_device(&names, &None), None);
}

#[test]
fn small_model_files_are_preferred() {
    let names: Vec<String> = ["Encoder.onnx", "encoder.int8.ONNX", "encoder.txt", "joiner.onnx"]
        .iter()
        .map(|s| s.to_string())
        .collect();
    assert_eq!(pick(&names, "encoder"), Some(1));
    assert_eq!(pick(&names, "joiner"), Some(3));
    assert_eq!(pick(&names, "decoder"), None);
    assert_eq!(missing_file("decoder", "m"), "В модели не найден файл *decoder*.onnx: m");
}

#[test]
fn the_files_of_a_model() {
    let names: Vec<String> = ["joiner.onnx", "decoder.onnx", "encoder.onnx", "encoder.int8.onnx"]
        .iter()
        .map(|s| s.to_string())
        .collect();
    assert_eq!(model_files("m", true, &names, true), Ok((3, 1, 0)));
    assert_eq!(
        model_files("m", false, &names, true),
        Err("Папка модели не найдена: m".to_string())
    );
    assert_eq!(
        model_files("m", true, &names[..2].to_vec(), true),
        Err(missing_file("encoder", "m"))
    );
    assert_eq!(
        model_files("m", true, &names[2..].to_vec(), false),
        Err(missing_file("decoder", "m"))
    );
    assert_eq!(
        model_files("m", true, &names[1..].to_vec(), false),
        Err(missing_file("joiner", "m"))
    );
    assert_eq!(
        model_files("m", true, &names, false),
        Err("В модели нет tokens.txt: m".to_string())
    );
}

#[test]
fn a_map_of_words() {
    let mut m = WordMap::new();
    m.insert("б".to_string(), "1".to_string());
    m.insert("а".to_string(), "2".to_string());
    m.insert("б".to_string(), "3".to_string());
    assert_eq!(m.keys(), vec!["а", "б"]);
    assert_eq!(m.get("б").as_deref(), Some("3"));
    assert_eq!(m.get("в"), None);
    assert_eq!(m.copy().keys(), m.keys());
}
