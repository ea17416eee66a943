# Voice Inputter

Dictation for Windows: the program listens to the microphone, recognises speech
without a network and types it into the active window, word by word.

`src/` is the library `voice_inputter`: what the program decides on whole numbers
and text, with contracts proved by [Verus](https://github.com/verus-lang/verus).
`app/` is the program around it: the microphone, the recogniser, the windows, the
network and the files. What rests on floating point is decided there too: whether
the silence has lasted too long, the layout of the windows and what the mouse hits
in them, the values with a fraction, drawing and animation. `tests/` runs the
library on examples.

| Modules | What they decide |
|---|---|
| `engine`, `phrase`, `strip_laws`, `distance` | wake and stop words, live typing and its corrections |
| `punct`, `punct_laws`, `wordmap` | spoken punctuation |
| `typer`, `utf16`, `text` | keyboard input, code units, text |
| `config`, `hotkey_laws`, `settings`, `settings_laws`, `edit`, `words` | the settings, their file and their window |
| `overlay`, `ui`, `shared`, `win_ui` | the overlay, the icon, its menu, the main window |
| `model`, `model_ui`, `http`, `stt`, `audio` | the recognition model and its download, the microphone |
| `update`, `startup` | new releases, starting with the system |
| `icons`, `ico`, `image`, `rounding`, `pixels`, `paint` | pictures |

Facts that hold across functions are public proof functions named `law_…`.

What is trusted, each with its contract beside the call: `str::to_lowercase`,
`char::to_uppercase`, `char::from_u32`, `String::push`, `String::from_utf8`,
`serde_json::from_str` with the members of a value, and
`tiny_skia::Pixmap::decode_png`.
