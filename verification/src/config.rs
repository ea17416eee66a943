//! The settings, their defaults, the hotkey notation and where files are looked
//! for.

use crate::text::{
    all_ascii, chars_of, copy_list, is_ascii_digit, is_digit, lemma_part_len, lemma_texts_push,
    lemma_trimmed_ascii, lowercase, lowered, number_of, parse_number, part_len, parts, same, split,
    string_of, texts, to_lowercase, trim, trimmed,
};
use crate::wordmap::WordMap;
use vstd::prelude::*;

verus! {

/// The folder of the recognition model that is offered for download.
pub const DEFAULT_MODEL: &'static str =
    "models/sherpa-onnx-streaming-zipformer-small-ru-vosk-int8-2025-08-16";

/// The settings that the library acts on.
pub struct Config {
    /// Path to the model's folder.
    pub model_path: String,
    /// The chosen microphone (`None`: the default device).
    pub device_name: Option<String>,
    /// Words that start dictation.
    pub wake_words: Vec<String>,
    /// Words that end dictation.
    pub stop_words: Vec<String>,
    /// The hotkey, such as `ctrl+alt+space`.
    pub hotkey: String,
    /// Type words as they come (`true`) or after a pause (`false`).
    pub live_typing: bool,
    /// When the overlay shows: `always`, `dictation` or `hidden`.
    pub overlay_mode: String,
    /// Spoken punctuation is on.
    pub punctuation: bool,
    /// A word that must stand before a spoken mark; empty for none.
    pub punctuation_prefix: String,
    /// Marks of the user's own: word to symbol.
    pub punctuation_words: WordMap,
    /// Look for new releases.
    pub check_updates: bool,
    /// A space after each phrase.
    pub append_space: bool,
    /// A capital letter at the start of a phrase.
    pub capitalize: bool,
}

/// What the settings say, as plain texts.
pub struct Settings {
    pub model_path: Seq<char>,
    pub device_name: Option<Seq<char>>,
    pub wake_words: Seq<Seq<char>>,
    pub stop_words: Seq<Seq<char>>,
    pub hotkey: Seq<char>,
    pub live_typing: bool,
    pub overlay_mode: Seq<char>,
    pub punctuation: bool,
    pub punctuation_prefix: Seq<char>,
    pub punctuation_words: Map<Seq<char>, Seq<char>>,
    pub check_updates: bool,
    pub append_space: bool,
    pub capitalize: bool,
}

impl View for Config {
    type V = Settings;

    open spec fn view(&self) -> Settings {
        Settings {
            model_path: self.model_path@,
            device_name: match self.device_name {
                Some(s) => Some(s@),
                None => None,
            },
            wake_words: texts(self.wake_words@),
            stop_words: texts(self.stop_words@),
            hotkey: self.hotkey@,
            live_typing: self.live_typing,
            overlay_mode: self.overlay_mode@,
            punctuation: self.punctuation,
            punctuation_prefix: self.punctuation_prefix@,
            punctuation_words: self.punctuation_words@,
            check_updates: self.check_updates,
            append_space: self.append_space,
            capitalize: self.capitalize,
        }
    }
}

/// The value of a switch that is on unless the settings say otherwise.
pub fn default_true() -> (r: bool)
    ensures
        r,
{
    true
}

/// When the overlay shows unless the settings say otherwise.
pub fn default_overlay_mode() -> (r: String)
    ensures
        r@ == "always"@,
{
    "always".to_owned()
}

/// The hotkey unless the settings say otherwise.
pub fn default_hotkey() -> (r: String)
    ensures
        r@ == "ctrl+alt+space"@,
{
    "ctrl+alt+space".to_owned()
}

/// The settings that hold where no file gives others.
pub open spec fn default_settings() -> Settings {
    Settings {
        model_path: DEFAULT_MODEL@,
        device_name: None,
        wake_words: seq!["джарвис"@, "компьютер"@],
        stop_words: seq!["стоп"@, "хватит"@, "достаточно"@],
        hotkey: "ctrl+alt+space"@,
        live_typing: true,
        overlay_mode: "always"@,
        punctuation: true,
        punctuation_prefix: Seq::empty(),
        punctuation_words: Map::empty(),
        check_updates: true,
        append_space: true,
        capitalize: true,
    }
}

impl Default for Config {
    fn default() -> (r: Config)
        ensures
            r@ == default_settings(),
    {
        let mut wake: Vec<String> = Vec::new();
        wake.push("джарвис".to_owned());
        wake.push("компьютер".to_owned());
        let mut stop: Vec<String> = Vec::new();
        stop.push("стоп".to_owned());
        stop.push("хватит".to_owned());
        stop.push("достаточно".to_owned());
        let r = Config {
            model_path: DEFAULT_MODEL.to_owned(),
            device_name: None,
            wake_words: wake,
            stop_words: stop,
            hotkey: default_hotkey(),
            live_typing: true,
            overlay_mode: default_overlay_mode(),
            punctuation: true,
            punctuation_prefix: String::new(),
            punctuation_words: WordMap::new(),
            check_updates: true,
            append_space: true,
            capitalize: true,
        };
        assert(r@.wake_words =~= default_settings().wake_words);
        assert(r@.stop_words =~= default_settings().stop_words);
        assert(r@.punctuation_prefix =~= Seq::<char>::empty());
        r
    }
}

/// Where a file may lie.
#[derive(Clone, Copy, PartialEq, Eq, Structural, Debug)]
pub enum Place {
    /// The current directory.
    Current,
    /// Beside the program.
    BesideExe,
    /// The directory for the program's data.
    DataDir,
}

impl Config {
    /// A copy of the settings.
    pub fn copy(&self) -> (r: Config)
        ensures
            r@ == self@,
    {
        Config {
            model_path: self.model_path.clone(),
            device_name: match &self.device_name {
                Some(s) => Some(s.clone()),
                None => None,
            },
            wake_words: copy_list(&self.wake_words),
            stop_words: copy_list(&self.stop_words),
            hotkey: self.hotkey.clone(),
            live_typing: self.live_typing,
            overlay_mode: self.overlay_mode.clone(),
            punctuation: self.punctuation,
            punctuation_prefix: self.punctuation_prefix.clone(),
            punctuation_words: self.punctuation_words.copy(),
            check_updates: self.check_updates,
            append_space: self.append_space,
            capitalize: self.capitalize,
        }
    }

    /// Which settings file counts, given at which places one could be read and
    /// understood: the data directory first, then beside the program, then the
    /// current directory. `None`: the defaults hold.
    pub fn load(in_data: bool, beside_exe: bool, in_current: bool) -> (r: Option<Place>)
        ensures
            r == (if in_data {
                Some(Place::DataDir)
            } else if beside_exe {
                Some(Place::BesideExe)
            } else if in_current {
                Some(Place::Current)
            } else {
                None
            }),
    {
        if in_data {
            Some(Place::DataDir)
        } else if beside_exe {
            Some(Place::BesideExe)
        } else if in_current {
            Some(Place::Current)
        } else {
            None
        }
    }
}

/// Where a resource is taken from, given at which places it exists: the current
/// directory first, then beside the program, then the data directory.
pub fn resolve_resource(in_current: bool, beside_exe: bool, in_data: bool) -> (r: Option<Place>)
    ensures
        r == (if in_current {
            Some(Place::Current)
        } else if beside_exe {
            Some(Place::BesideExe)
        } else if in_data {
            Some(Place::DataDir)
        } else {
            None
        }),
{
    if in_current {
        Some(Place::Current)
    } else if beside_exe {
        Some(Place::BesideExe)
    } else if in_data {
        Some(Place::DataDir)
    } else {
        None
    }
}

/// What to do about the data directory.
#[derive(Clone, Copy, PartialEq, Eq, Structural, Debug)]
pub enum DataDir {
    /// The program's own directory.
    Exe,
    /// The folder `VoiceInputter` below this base.
    Local(Base),
}

/// The base of the folder `VoiceInputter`.
#[derive(Clone, Copy, PartialEq, Eq, Structural, Debug)]
pub enum Base {
    /// What the variable `LOCALAPPDATA` names.
    LocalAppData,
    /// The program's own directory, where the variable is not set.
    Exe,
}

/// The folder below the base.
pub const DATA_FOLDER: &'static str = "VoiceInputter";

/// Where the data directory should be: beside the program if files can be
/// written there, else the folder below the local application data.
pub fn wanted_data_dir(writable: bool, has_local: bool) -> (r: DataDir)
    ensures
        r == (if writable {
            DataDir::Exe
        } else if has_local {
            DataDir::Local(Base::LocalAppData)
        } else {
            DataDir::Local(Base::Exe)
        }),
{
    if writable {
        DataDir::Exe
    } else if has_local {
        DataDir::Local(Base::LocalAppData)
    } else {
        DataDir::Local(Base::Exe)
    }
}

/// The data directory, once it was tried to make the wanted one: where that
/// failed, the program's own directory.
pub fn data_dir(wanted: DataDir, made: bool) -> (r: DataDir)
    ensures
        r == (if made {
            wanted
        } else {
            DataDir::Exe
        }),
{
    if made {
        wanted
    } else {
        DataDir::Exe
    }
}

/// The name of the settings file in the data directory.
pub fn config_path() -> (r: String)
    ensures
        r@ == "config.json"@,
{
    "config.json".to_owned()
}

// ── the hotkey ────────────────────────────────────────────────────────────
pub const MOD_ALT: u32 = 1;

pub const MOD_CONTROL: u32 = 2;

pub const MOD_SHIFT: u32 = 4;

pub const MOD_WIN: u32 = 8;

pub const VK_SPACE: u32 = 0x20;

pub const VK_F1: u32 = 0x70;

/// The virtual key that a part of a hotkey names: `space`, a letter, a digit or
/// `f1`–`f12`.
pub open spec fn key_code(p: Seq<char>) -> Option<u32> {
    if p == "space"@ {
        Some(VK_SPACE)
    } else if p.len() == 1 && 'a' <= p[0] <= 'z' {
        Some((p[0] as u32 - 32) as u32)
    } else if p.len() == 1 && ('A' <= p[0] <= 'Z' || is_digit(p[0])) {
        Some(p[0] as u32)
    } else if p.len() > 0 && p[0] == 'f' && number_of(p.skip(1)) is Some && 1 <= number_of(
        p.skip(1),
    )->0 <= 12 {
        Some((VK_F1 + number_of(p.skip(1))->0 - 1) as u32)
    } else {
        None
    }
}

/// The key of a hotkey: that of its last part that names one.
pub open spec fn last_key(parts: Seq<Seq<char>>) -> Option<u32>
    decreases parts.len(),
{
    if parts.len() == 0 {
        None
    } else if key_code(parts.last()) is Some {
        key_code(parts.last())
    } else {
        last_key(parts.drop_last())
    }
}

pub open spec fn bit(on: bool, value: u32) -> int {
    if on {
        value as int
    } else {
        0
    }
}

/// The modifiers that the parts of a hotkey name, as a sum of bits.
pub open spec fn modifiers(parts: Seq<Seq<char>>) -> int {
    bit(parts.contains("alt"@), MOD_ALT) + bit(
        parts.contains("ctrl"@) || parts.contains("control"@),
        MOD_CONTROL,
    ) + bit(parts.contains("shift"@), MOD_SHIFT) + bit(
        parts.contains("win"@) || parts.contains("super"@) || parts.contains("meta"@),
        MOD_WIN,
    )
}

/// The modifiers and the key of a hotkey, given its parts in lower case. None
/// if no part names a key.
pub open spec fn hotkey_of(parts: Seq<Seq<char>>) -> Option<(u32, u32)> {
    match last_key(parts) {
        Some(k) => Some((modifiers(parts) as u32, k)),
        None => None,
    }
}

/// The virtual key that a part of a hotkey names.
pub fn key_of(p: &str) -> (r: Option<u32>)
    ensures
        r == key_code(p@),
{
    if same(p, "space") {
        return Some(VK_SPACE);
    }
    let v = chars_of(p);
    if v.len() == 1 {
        let c: char = v[0];
        assert(p@ =~= seq![c]);
        return letter_or_digit(c, p);
    }
    if v.len() > 0 && v[0] == 'f' {
        let rest = string_of(&v, 1, v.len());
        assert(rest@ =~= p@.skip(1));
        if let Some(n) = parse_number(&rest) {
            if 1 <= n && n <= 12 {
                return Some(VK_F1 + n - 1);
            }
        }
    }
    None
}

fn letter_or_digit(c: char, p: &str) -> (r: Option<u32>)
    requires
        p@ == seq![c],
        p@ != "space"@,
    ensures
        r == key_code(p@),
{
    let u: u32 = c as u32;
    assert(p@[0] == c && p@.len() == 1);
    assert(p@.skip(1).len() == 0);
    if 0x61 <= u && u <= 0x7A {
        Some(u - 32)
    } else if (0x41 <= u && u <= 0x5A) || is_ascii_digit(c) {
        Some(u)
    } else {
        None
    }
}

/// Is the text among the parts.
fn has(parts: &Vec<String>, name: &str) -> (r: bool)
    ensures
        r == texts(parts@).contains(name@),
{
    let mut i: usize = 0;
    while i < parts.len()
        invariant
            i <= parts@.len(),
            forall|k: int| 0 <= k < i ==> (#[trigger] texts(parts@)[k]) != name@,
        decreases parts@.len() - i,
    {
        assert(texts(parts@)[i as int] == parts@[i as int]@);
        if same(&parts[i], name) {
            return true;
        }
        i += 1;
    }
    false
}

/// The modifiers and the key that the parts of a hotkey, in lower case, name.
pub fn hotkey_from_parts(list: &Vec<String>) -> (r: Option<(u32, u32)>)
    ensures
        r == hotkey_of(texts(list@)),
{
    let mut mods: u32 = 0;
    if has(list, "alt") {
        mods += MOD_ALT;
    }
    if has(list, "ctrl") || has(list, "control") {
        mods += MOD_CONTROL;
    }
    if has(list, "shift") {
        mods += MOD_SHIFT;
    }
    if has(list, "win") || has(list, "super") || has(list, "meta") {
        mods += MOD_WIN;
    }
    let ghost all = texts(list@);
    assert(mods == modifiers(all));
    let mut n: usize = list.len();
    assert(all.take(n as int) =~= all);
    while n > 0
        invariant
            n <= list@.len(),
            all == texts(list@),
            mods == modifiers(all),
            last_key(all) == last_key(all.take(n as int)),
        decreases n,
    {
        assert(all.take(n as int).last() == list@[n - 1]@);
        assert(all.take(n as int).drop_last() =~= all.take(n - 1));
        if let Some(k) = key_of(&list[n - 1]) {
            return Some((mods, k));
        }
        n -= 1;
    }
    None
}

/// The parts of a hotkey between the `+` signs, trimmed and in lower case.
pub open spec fn hotkey_parts(s: Seq<char>) -> Seq<Seq<char>> {
    parts(s, seq!['+']).map_values(|p: Seq<char>| lowercase(trimmed(p)))
}

/// The same for a hotkey of ASCII characters.
pub open spec fn ascii_hotkey_parts(s: Seq<char>) -> Seq<Seq<char>> {
    parts(s, seq!['+']).map_values(|p: Seq<char>| lowered(trimmed(p)))
}

proof fn lemma_parts_ascii(s: Seq<char>, seps: Seq<char>)
    requires
        all_ascii(s),
    ensures
        forall|i: int| 0 <= i < parts(s, seps).len() ==> all_ascii(#[trigger] parts(s, seps)[i]),
    decreases s.len(),
{
    lemma_part_len(s, seps);
    let n = part_len(s, seps) as int;
    if n < s.len() {
        lemma_parts_ascii(s.skip(n + 1), seps);
        assert forall|i: int| 0 <= i < parts(s, seps).len() implies all_ascii(
            #[trigger] parts(s, seps)[i],
        ) by {
            if i > 0 {
                assert(parts(s, seps)[i] == parts(s.skip(n + 1), seps)[i - 1]);
            }
        }
    }
}

/// Reads a hotkey: modifiers and a key, joined by `+`, in any case. The result
/// holds the sum of the modifier bits and the virtual key; there is none where
/// no part names a key. Parts that mean nothing are passed over.
pub fn parse_hotkey(s: &str) -> (r: Option<(u32, u32)>)
    ensures
        r == hotkey_of(hotkey_parts(s@)),
        all_ascii(s@) ==> r == hotkey_of(ascii_hotkey_parts(s@)),
{
    let seps: [char; 1] = ['+'];
    let list = split(s, &seps);
    assert(seps@ =~= seq!['+']);
    let mut low: Vec<String> = Vec::new();
    let mut i: usize = 0;
    proof {
        if all_ascii(s@) {
            lemma_parts_ascii(s@, seq!['+']);
        }
    }
    while i < list.len()
        invariant
            i <= list@.len(),
            texts(list@) == parts(s@, seq!['+']),
            all_ascii(s@) ==> forall|k: int|
                0 <= k < list@.len() ==> all_ascii(#[trigger] parts(s@, seq!['+'])[k]),
            texts(low@) == hotkey_parts(s@).take(i as int),
            all_ascii(s@) ==> texts(low@) == ascii_hotkey_parts(s@).take(i as int),
        decreases list@.len() - i,
    {
        let ghost p = parts(s@, seq!['+'])[i as int];
        assert(p == texts(list@)[i as int]);
        let t = trim(&list[i]);
        let w = to_lowercase(&t);
        proof {
            lemma_texts_push(low@, w);
            assert(hotkey_parts(s@)[i as int] == w@);
            assert(hotkey_parts(s@).take(i + 1) =~= hotkey_parts(s@).take(i as int).push(w@));
            if all_ascii(s@) {
                lemma_trimmed_ascii(p);
                assert(ascii_hotkey_parts(s@)[i as int] == w@);
                assert(ascii_hotkey_parts(s@).take(i + 1) =~= ascii_hotkey_parts(s@).take(
                    i as int,
                ).push(w@));
            }
        }
        low.push(w);
        i += 1;
    }
    proof {
        assert(texts(list@).len() == list@.len());
        assert(hotkey_parts(s@).take(i as int) =~= hotkey_parts(s@));
        assert(ascii_hotkey_parts(s@).take(i as int) =~= ascii_hotkey_parts(s@));
    }
    hotkey_from_parts(&low)
}

} // verus!
