# systex

Captures the context surrounding the caret — the focused application and window, the word, line,
sentence and paragraph around the caret, the words of the focused field with their UTF-16
offsets, the visible text of the front window — for an overlay that renders it.

- `src/` — the `systex` library, each function with its contract: the text analysis around the
  caret (`related`, `caret`, `words`, `text`), the bounded window-text walk (`window_text`), the
  permission names and what the system answers mean (`permissions`, `platform`), what a
  capture answers (`provider`), the engine's decisions on each tick (`engine`), whether an
  element is editable (`element`), and the overlay's settings and tray items (`view`, `menu`).
- `app/` — the program around it: the macOS accessibility reads (under `cfg(target_os =
  "macos")`), the clock, the settings app, the serializable copies of the library's types, a fixed
  snapshot for the mock provider, and the Tauri overlay and tray.
- `tests/` — the library's tests.

No capture is written yet. On macOS a capture answers `PermissionDenied` without accessibility
access and `Unimplemented` with it; on Windows and Linux it answers `Unimplemented`, and elsewhere
`UnsupportedPlatform`. The word rectangles and the dump of what the frontmost app exposes read the
focused element on macOS once access is granted. Off macOS, permissions report `Unknown`.
