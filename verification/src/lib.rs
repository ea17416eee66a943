//! Voice dictation: the decisions behind live typing, wake words, spoken
//! punctuation, settings, updates and icons, each with a proved contract.

pub mod audio;
pub mod config;
pub mod distance;
pub mod edit;
pub mod edit_laws;
pub mod engine;
pub mod engine_laws;
pub mod hotkey_laws;
pub mod http;
pub mod ico;
pub mod icons;
pub mod image;
pub mod model;
pub mod model_laws;
pub mod model_ui;
pub mod overlay;
pub mod paint;
pub mod phrase;
pub mod phrase_laws;
pub mod picture_laws;
pub mod pixels;
pub mod punct;
pub mod punct_laws;
pub mod rounding;
pub mod settings;
pub mod settings_laws;
pub mod shared;
pub mod startup;
pub mod strip_laws;
pub mod stt;
pub mod text;
pub mod ui;
pub mod ui_laws;
pub mod update;
pub mod update_laws;
pub mod typer;
pub mod utf16;
pub mod win_ui;
pub mod window_laws;
pub mod wordmap;
pub mod words;
pub mod words_laws;
