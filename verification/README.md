# djay_audio_loader

Loads the track selected in Swinsian or Music.app into a deck of djay Pro by
simulating a drag and drop, and keeps a Markdown session log of what was
loaded. A helper daemon watches global hotkeys and starts the loader.

- `src/` is the library, verified with Verus: the session log (line
  rendering, entry counting, elapsed time), the plan of the drag and drop, reading track data out of the
  players' table cells and AppleScript output, notification and AppleScript
  escaping, hotkey matching and the event-tap decisions, the helper's
  settings and command-line rules, and session directory naming.
- `app/` is the macOS side: the Accessibility API, CGEvent events and the
  event tap, `osascript`, files and logging. It builds one executable: run
  under a name ending in `helper` it is the hotkey daemon, under any other
  name it is `drag-into-djay`, so it is installed under both names.
- `tests/` runs the library on concrete values.
